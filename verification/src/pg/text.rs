//! Boundary safety for PostgreSQL TEXT columns: make a string acceptable to
//! the sink without changing its meaning. No normalization happens here.

use std::borrow::Cow;

use vstd::prelude::*;

use crate::text::chars;

verus! {

/// Whether a character may be stored in a TEXT column (anything but U+0000).
pub open spec fn is_text_safe(c: char) -> bool {
    c != '\0'
}

/// `s` with every U+0000 removed.
pub open spec fn pg_text_form_spec(s: Seq<char>) -> Seq<char> {
    chars::keep(s, |c: char| is_text_safe(c))
}

/// Make `s` acceptable for storage in a PostgreSQL TEXT column by
/// stripping U+0000 (NUL), which Postgres rejects in character types.
/// Borrows `s` itself when it holds no NUL, so the common case never
/// allocates.
pub fn to_pg_text_form(s: &str) -> (r: Cow<'_, str>)
    ensures
        r@ == pg_text_form_spec(s@),
        (r is Borrowed) == !s@.contains('\0'),
        r matches Cow::Borrowed(b) ==> b == s,
{
    let v = chars::chars_of(s);
    let mut out: Vec<char> = Vec::new();
    let mut found = false;
    let mut i: usize = 0;
    while i < v.len()
        invariant
            i <= v@.len(),
            v@ == s@,
            out@ == pg_text_form_spec(v@.take(i as int)),
            found == v@.take(i as int).contains('\0'),
        decreases v.len() - i,
    {
        let c = v[i];
        proof {
            chars::lemma_keep_take_step(v@, i as int, |c: char| is_text_safe(c));
            assert(v@.take(i + 1) == v@.take(i as int).push(c));
            if v@.take(i as int).contains('\0') {
                let j = choose|j: int| 0 <= j < i && v@.take(i as int)[j] == '\0';
                assert(v@.take(i + 1)[j] == '\0');
            }
            if c == '\0' {
                assert(v@.take(i + 1)[i as int] == '\0');
            }
        }
        if c != '\0' {
            out.push(c);
        } else {
            found = true;
        }
        i += 1;
    }
    assert(v@.take(v@.len() as int) == v@);
    if found {
        Cow::Owned(chars::string_of(&out))
    } else {
        proof {
            assert forall|j: int| 0 <= j < s@.len() implies is_text_safe(#[trigger] s@[j]) by {
                if s@[j] == '\0' {
                    assert(s@.contains('\0'));
                }
            }
            chars::lemma_keep_identity(s@, |c: char| is_text_safe(c));
        }
        Cow::Borrowed(s)
    }
}

/// Stripping NULs is idempotent.
pub proof fn lemma_pg_text_form_idempotent(s: Seq<char>)
    ensures
        pg_text_form_spec(pg_text_form_spec(s)) == pg_text_form_spec(s),
{
    chars::lemma_keep_all(s, |c: char| is_text_safe(c));
    chars::lemma_keep_identity(pg_text_form_spec(s), |c: char| is_text_safe(c));
}

/// The result is always acceptable: it holds no U+0000.
pub proof fn lemma_pg_text_form_has_no_nul(s: Seq<char>)
    ensures
        !pg_text_form_spec(s).contains('\0'),
{
    chars::lemma_keep_all(s, |c: char| is_text_safe(c));
}

} // verus!
