//! Compilation and various-artists detection.

use vstd::prelude::*;

use super::chars;
use super::unicode;

verus! {

/// Credits that mark a compilation only when they are the whole credit.
pub open spec fn exact_compilation_names() -> Seq<Seq<char>> {
    seq![
        seq!['v', 'a', 'r', 'i', 'o', 'u', 's'],
        seq!['s', 'o', 'u', 'n', 'd', 't', 'r', 'a', 'c', 'k'],
        seq!['c', 'o', 'm', 'p', 'i', 'l', 'a', 't', 'i', 'o', 'n'],
    ]
}

/// Leading prefixes that mark a compilation when followed by the end of
/// the credit or by a non-alphanumeric character.
pub open spec fn leading_compilation_prefixes() -> Seq<Seq<char>> {
    seq![
        seq!['v', 'a', 'r', 'i', 'o', 'u', 's', ' ', 'a', 'r', 't', 'i', 's', 't', 's'],
        seq!['v', '/', 'a'],
        seq!['v', '.', 'a'],
        seq!['s', 'o', 'u', 'n', 'd', 't', 'r', 'a', 'c', 'k', 's'],
    ]
}

/// `lower` starts with `prefix`, and the prefix ends the text or is
/// followed by a non-alphanumeric character.
pub open spec fn anchored_prefix(lower: Seq<char>, prefix: Seq<char>) -> bool {
    prefix.is_prefix_of(lower) && (lower.len() == prefix.len() || !unicode::is_alphanumeric_of(
        lower[prefix.len() as int],
    ))
}

/// The compilation rule on an already-lowercased credit.
pub open spec fn is_compilation_lower(lower: Seq<char>) -> bool {
    (exists|i: int| 0 <= i < 3 && lower == #[trigger] exact_compilation_names()[i]) || (exists|
        i: int,
    |
        0 <= i < 4 && anchored_prefix(lower, #[trigger] leading_compilation_prefixes()[i]))
}

/// A non-empty credit that, lowercased, is an exact compilation name or
/// starts with an anchored compilation prefix.
pub open spec fn is_compilation_artist_spec(artist: Seq<char>) -> bool {
    artist.len() > 0 && is_compilation_lower(unicode::str_lowercase_of(artist))
}

fn exact_names() -> (r: Vec<Vec<char>>)
    ensures
        r@.len() == 3,
        forall|i: int| 0 <= i < 3 ==> (#[trigger] r@[i])@ == exact_compilation_names()[i],
{
    let r = vec![
        vec!['v', 'a', 'r', 'i', 'o', 'u', 's'],
        vec!['s', 'o', 'u', 'n', 'd', 't', 'r', 'a', 'c', 'k'],
        vec!['c', 'o', 'm', 'p', 'i', 'l', 'a', 't', 'i', 'o', 'n'],
    ];
    assert(r@[0]@ == exact_compilation_names()[0]);
    assert(r@[1]@ == exact_compilation_names()[1]);
    assert(r@[2]@ == exact_compilation_names()[2]);
    r
}

fn leading_prefixes() -> (r: Vec<Vec<char>>)
    ensures
        r@.len() == 4,
        forall|i: int| 0 <= i < 4 ==> (#[trigger] r@[i])@ == leading_compilation_prefixes()[i],
{
    let r = vec![
        vec!['v', 'a', 'r', 'i', 'o', 'u', 's', ' ', 'a', 'r', 't', 'i', 's', 't', 's'],
        vec!['v', '/', 'a'],
        vec!['v', '.', 'a'],
        vec!['s', 'o', 'u', 'n', 'd', 't', 'r', 'a', 'c', 'k', 's'],
    ];
    assert(r@[0]@ == leading_compilation_prefixes()[0]);
    assert(r@[1]@ == leading_compilation_prefixes()[1]);
    assert(r@[2]@ == leading_compilation_prefixes()[2]);
    assert(r@[3]@ == leading_compilation_prefixes()[3]);
    r
}

/// Check if an artist name indicates a compilation/soundtrack album.
pub fn is_compilation_artist(artist: &str) -> (r: bool)
    ensures
        r == is_compilation_artist_spec(artist@),
{
    if artist.is_empty() {
        return false;
    }
    let lower_s = unicode::lowercase_str(artist);
    let lower = chars::chars_of(lower_s.as_str());
    let names = exact_names();
    let mut i: usize = 0;
    while i < names.len()
        invariant
            i <= names.len() == 3,
            lower@ == unicode::str_lowercase_of(artist@),
            artist@.len() > 0,
            forall|j: int| 0 <= j < 3 ==> (#[trigger] names@[j])@ == exact_compilation_names()[j],
            forall|j: int| 0 <= j < i ==> lower@ != exact_compilation_names()[j],
        decreases names.len() - i,
    {
        if chars::chars_eq(&lower, &names[i]) {
            assert(lower@ == exact_compilation_names()[i as int]);
            return true;
        }
        i += 1;
    }
    let prefixes = leading_prefixes();
    let mut k: usize = 0;
    while k < prefixes.len()
        invariant
            k <= prefixes.len() == 4,
            lower@ == unicode::str_lowercase_of(artist@),
            artist@.len() > 0,
            forall|j: int| 0 <= j < 4 ==> (#[trigger] prefixes@[j])@ == leading_compilation_prefixes()[j],
            forall|j: int| 0 <= j < k ==> !anchored_prefix(lower@, leading_compilation_prefixes()[j]),
        decreases prefixes.len() - k,
    {
        let p = &prefixes[k];
        if chars::starts_with_chars(&lower, p) {
            if lower.len() == p.len() {
                assert(anchored_prefix(lower@, leading_compilation_prefixes()[k as int]));
                return true;
            }
            if !unicode::is_alphanumeric(lower[p.len()]) {
                assert(anchored_prefix(lower@, leading_compilation_prefixes()[k as int]));
                return true;
            }
        }
        k += 1;
    }
    proof {
        assert forall|j: int| 0 <= j < 3 implies lower@ != #[trigger] exact_compilation_names()[j] by {}
        assert forall|j: int| 0 <= j < 4 implies !anchored_prefix(lower@, #[trigger] leading_compilation_prefixes()[j]) by {}
    }
    false
}

/// The words that mark a compilation only as the whole credit: a credit
/// whose lowercase form is `various`, `soundtrack` or `compilation` is a
/// compilation, while one whose lowercase form merely starts with such a
/// word and goes on is not (`Compilation Hits`, `Soundtrack of Our
/// Lives`, `Various Production`), unless it starts with one of the
/// anchored prefixes `various artists` or `soundtracks`.
pub proof fn lemma_exact_only_words(artist: Seq<char>)
    ensures
        artist.len() > 0 && (unicode::str_lowercase_of(artist) == seq!['v', 'a', 'r', 'i', 'o', 'u', 's']
            || unicode::str_lowercase_of(artist) == seq!['s', 'o', 'u', 'n', 'd', 't', 'r', 'a', 'c', 'k']
            || unicode::str_lowercase_of(artist) == seq!['c', 'o', 'm', 'p', 'i', 'l', 'a', 't', 'i', 'o', 'n'])
            ==> is_compilation_artist_spec(artist),
        seq!['c', 'o', 'm', 'p', 'i', 'l', 'a', 't', 'i', 'o', 'n'].is_prefix_of(unicode::str_lowercase_of(artist))
            && unicode::str_lowercase_of(artist).len() > 11 ==> !is_compilation_artist_spec(artist),
        seq!['s', 'o', 'u', 'n', 'd', 't', 'r', 'a', 'c', 'k'].is_prefix_of(unicode::str_lowercase_of(artist))
            && unicode::str_lowercase_of(artist).len() > 10 && unicode::str_lowercase_of(artist)[10] != 's'
            ==> !is_compilation_artist_spec(artist),
        seq!['v', 'a', 'r', 'i', 'o', 'u', 's'].is_prefix_of(unicode::str_lowercase_of(artist))
            && unicode::str_lowercase_of(artist).len() > 7 && !seq![
            'v', 'a', 'r', 'i', 'o', 'u', 's', ' ', 'a', 'r', 't', 'i', 's', 't', 's',
        ].is_prefix_of(unicode::str_lowercase_of(artist)) ==> !is_compilation_artist_spec(artist),
{
    let lower = unicode::str_lowercase_of(artist);
    let ex = exact_compilation_names();
    let pre = leading_compilation_prefixes();
    if seq!['c', 'o', 'm', 'p', 'i', 'l', 'a', 't', 'i', 'o', 'n'].is_prefix_of(lower) && lower.len() > 11 {
        assert(lower[0] == 'c');
        assert forall|i: int| 0 <= i < 3 implies lower != #[trigger] ex[i] by {
            assert(ex[i].len() <= 11);
        }
        assert forall|i: int| 0 <= i < 4 implies !anchored_prefix(lower, #[trigger] pre[i]) by {
            assert(pre[i][0] != 'c');
        }
    }
    if seq!['s', 'o', 'u', 'n', 'd', 't', 'r', 'a', 'c', 'k'].is_prefix_of(lower) && lower.len() > 10
        && lower[10] != 's' {
        assert(lower[0] == 's');
        assert(lower[10] != 's');
        assert forall|i: int| 0 <= i < 3 implies lower != #[trigger] ex[i] by {
            if i == 1 {
                assert(ex[i].len() == 10);
            } else {
                assert(ex[i][0] != 's');
            }
        }
        assert forall|i: int| 0 <= i < 4 implies !anchored_prefix(lower, #[trigger] pre[i]) by {
            if i == 3 {
                assert(pre[i][10] == 's');
            } else {
                assert(pre[i][0] != 's');
            }
        }
    }
    let va = seq!['v', 'a', 'r', 'i', 'o', 'u', 's', ' ', 'a', 'r', 't', 'i', 's', 't', 's'];
    if seq!['v', 'a', 'r', 'i', 'o', 'u', 's'].is_prefix_of(lower) && lower.len() > 7 && !va.is_prefix_of(lower) {
        assert(lower[0] == 'v' && lower[1] == 'a');
        assert forall|i: int| 0 <= i < 3 implies lower != #[trigger] ex[i] by {
            if i == 0 {
                assert(ex[i].len() == 7);
            } else {
                assert(ex[i][0] != 'v');
            }
        }
        assert forall|i: int| 0 <= i < 4 implies !anchored_prefix(lower, #[trigger] pre[i]) by {
            if i == 0 {
                assert(pre[i] == va);
            } else if i == 3 {
                assert(pre[i][0] != 'v');
            } else {
                assert(pre[i][1] != 'a');
            }
        }
    }
    if lower == seq!['v', 'a', 'r', 'i', 'o', 'u', 's'] {
        assert(lower == ex[0]);
    }
    if lower == seq!['s', 'o', 'u', 'n', 'd', 't', 'r', 'a', 'c', 'k'] {
        assert(lower == ex[1]);
    }
    if lower == seq!['c', 'o', 'm', 'p', 'i', 'l', 'a', 't', 'i', 'o', 'n'] {
        assert(lower == ex[2]);
    }
}

/// The anchored prefixes: a credit whose lowercase form starts with
/// `various artists`, `v/a`, `v.a` or `soundtracks`, followed by the end of
/// the credit or by a character that is not alphanumeric
/// (`Soundtracks - Twin Peaks`, `V/A`), is a compilation.
pub proof fn lemma_anchored_prefixes(artist: Seq<char>, prefix: Seq<char>)
    requires
        prefix == seq!['v', 'a', 'r', 'i', 'o', 'u', 's', ' ', 'a', 'r', 't', 'i', 's', 't', 's']
            || prefix == seq!['v', '/', 'a'] || prefix == seq!['v', '.', 'a'] || prefix == seq![
            's', 'o', 'u', 'n', 'd', 't', 'r', 'a', 'c', 'k', 's',
        ],
        prefix.is_prefix_of(unicode::str_lowercase_of(artist)),
        unicode::str_lowercase_of(artist).len() == prefix.len() || !unicode::is_alphanumeric_of(
            unicode::str_lowercase_of(artist)[prefix.len() as int],
        ),
        artist.len() > 0,
    ensures
        is_compilation_artist_spec(artist),
{
    let pre = leading_compilation_prefixes();
    if prefix == pre[0] {
        assert(anchored_prefix(unicode::str_lowercase_of(artist), pre[0]));
    } else if prefix == pre[1] {
        assert(anchored_prefix(unicode::str_lowercase_of(artist), pre[1]));
    } else if prefix == pre[2] {
        assert(anchored_prefix(unicode::str_lowercase_of(artist), pre[2]));
    } else {
        assert(prefix == pre[3]);
        assert(anchored_prefix(unicode::str_lowercase_of(artist), pre[3]));
    }
}

} // verus!
