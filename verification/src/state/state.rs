//! Step completion state of a resumable pipeline run, and the migration of
//! saved states from earlier versions.

use vstd::prelude::*;
use vstd::string::StringExecFns;

use crate::text::chars;

verus! {

/// Current state file version.
pub const STATE_VERSION: u32 = 3;

/// Step names of the current pipeline, in order.
pub const STEP_NAMES: &'static [&'static str; 9] = &[
    "create_schema",
    "import_csv",
    "create_indexes",
    "dedup",
    "import_tracks",
    "create_track_indexes",
    "prune",
    "vacuum",
    "set_logged",
];

/// Step names of version 1 state files.
pub const V1_STEP_NAMES: &'static [&'static str; 6] = &[
    "create_schema",
    "import_csv",
    "create_indexes",
    "dedup",
    "prune",
    "vacuum",
];

/// Step names of version 2 state files.
pub const V2_STEP_NAMES: &'static [&'static str; 8] = &[
    "create_schema",
    "import_csv",
    "create_indexes",
    "dedup",
    "import_tracks",
    "create_track_indexes",
    "prune",
    "vacuum",
];

/// Status of a pipeline step.
#[derive(Debug, Clone, PartialEq, Eq)]
pub enum StepStatus {
    Pending,
    Completed,
    Failed { error: Option<String> },
}

/// A step status as the contracts see it.
pub enum StatusView {
    Pending,
    Completed,
    Failed(Option<Seq<char>>),
}

/// The view of a status.
pub open spec fn status_view(s: StepStatus) -> StatusView {
    match s {
        StepStatus::Pending => StatusView::Pending,
        StepStatus::Completed => StatusView::Completed,
        StepStatus::Failed { error } => StatusView::Failed(
            match error {
                Some(e) => Some(e@),
                None => None,
            },
        ),
    }
}

/// Why a state was refused.
#[derive(Debug, PartialEq, Eq)]
pub enum StateError {
    /// The saved state has no version.
    MissingVersion,
    /// The saved state has a version this library cannot read.
    UnsupportedVersion(u32),
    /// The saved state has no database URL string.
    MissingDatabaseUrl,
    /// The saved state has no CSV directory string.
    MissingCsvDir,
    /// The saved state has no steps.
    MissingSteps,
    /// The saved steps are not an object.
    StepsNotObject,
    /// Resuming with another database URL than the state records.
    DatabaseUrlMismatch { state: String, got: String },
    /// Resuming with another CSV directory than the state records.
    CsvDirMismatch { state: String, got: String },
}

/// One saved step, as read from a state file: its name, its `status`
/// field when that is a string, and its `error` field when that is a string.
pub struct RawStep {
    pub name: String,
    pub status: Option<String>,
    pub error: Option<String>,
}

/// The `steps` field of a saved state.
pub enum RawSteps {
    /// No `steps` field.
    Missing,
    /// A `steps` field that is not an object.
    NotObject,
    /// The entries of the `steps` object.
    Object(Vec<RawStep>),
}

/// A saved state as read from a state file, before migration: each field
/// when present with the expected JSON type.
pub struct RawState {
    pub version: Option<u64>,
    pub database_url: Option<String>,
    pub csv_dir: Option<String>,
    pub steps: RawSteps,
}

/// A raw step as the contracts see it.
pub type RawStepView = (Seq<char>, Option<Seq<char>>, Option<Seq<char>>);

/// The view of an optional string.
pub open spec fn opt_view(o: Option<String>) -> Option<Seq<char>> {
    match o {
        Some(s) => Some(s@),
        None => None,
    }
}

/// The views of raw steps.
pub open spec fn raw_views(v: Seq<RawStep>) -> Seq<RawStepView> {
    v.map_values(|r: RawStep| (r.name@, opt_view(r.status), opt_view(r.error)))
}

/// The entries of a raw `steps` field (none unless it is an object).
pub open spec fn raw_entries(s: RawSteps) -> Seq<RawStepView> {
    match s {
        RawSteps::Object(v) => raw_views(v@),
        _ => seq![],
    }
}

/// The first raw step named `name`.
pub open spec fn raw_lookup(es: Seq<RawStepView>, name: Seq<char>) -> Option<RawStepView>
    decreases es.len(),
{
    if es.len() == 0 {
        None
    } else if es[0].0 == name {
        Some(es[0])
    } else {
        raw_lookup(es.drop_first(), name)
    }
}

/// The status a saved step contributes: `completed` and `failed` (with
/// its error) are taken over; any other status, or none, contributes none.
pub open spec fn copied_status(es: Seq<RawStepView>, name: Seq<char>) -> Option<StatusView> {
    match raw_lookup(es, name) {
        Some(st) => if st.1 == Some("completed"@) {
            Some(StatusView::Completed)
        } else if st.1 == Some("failed"@) {
            Some(StatusView::Failed(st.2))
        } else {
            None
        },
        None => None,
    }
}

/// The saved step `name` is completed.
pub open spec fn raw_completed(es: Seq<RawStepView>, name: Seq<char>) -> bool {
    match raw_lookup(es, name) {
        Some(st) => st.1 == Some("completed"@),
        None => false,
    }
}

/// The views of a list of names.
pub open spec fn names_view(v: Seq<&str>) -> Seq<Seq<char>> {
    v.map_values(|s: &str| s@)
}

/// The first status recorded under `name`.
pub open spec fn lookup(es: Seq<(Seq<char>, StatusView)>, name: Seq<char>) -> Option<StatusView>
    decreases es.len(),
{
    if es.len() == 0 {
        None
    } else if es[0].0 == name {
        Some(es[0].1)
    } else {
        lookup(es.drop_first(), name)
    }
}

/// The status of `name` after copying the saved statuses of `names`
/// over `base`.
pub open spec fn after_copy(
    base: Option<StatusView>,
    es: Seq<RawStepView>,
    names: Seq<Seq<char>>,
    name: Seq<char>,
) -> Option<StatusView> {
    if names.contains(name) && copied_status(es, name) is Some {
        copied_status(es, name)
    } else {
        base
    }
}

/// The status of a current step after migrating a version 1 state: the
/// version 1 statuses are kept; `import_tracks` is completed when
/// `import_csv` was, `create_track_indexes` when `dedup` or
/// `create_indexes` was, and `set_logged` when `vacuum` was.
pub open spec fn v1_status(es: Seq<RawStepView>, name: Seq<char>) -> Option<StatusView> {
    if (name == "import_tracks"@ && raw_completed(es, "import_csv"@)) || (name
        == "create_track_indexes"@ && (raw_completed(es, "dedup"@) || raw_completed(
        es,
        "create_indexes"@,
    ))) || (name == "set_logged"@ && raw_completed(es, "vacuum"@)) {
        Some(StatusView::Completed)
    } else {
        after_copy(Some(StatusView::Pending), es, names_view(V1_STEP_NAMES@), name)
    }
}

/// The status of a current step after migrating a version 2 state: the
/// version 2 statuses are kept, and `set_logged` is completed when
/// `vacuum` was.
pub open spec fn v2_status(es: Seq<RawStepView>, name: Seq<char>) -> Option<StatusView> {
    if name == "set_logged"@ && raw_completed(es, "vacuum"@) {
        Some(StatusView::Completed)
    } else {
        after_copy(Some(StatusView::Pending), es, names_view(V2_STEP_NAMES@), name)
    }
}

/// Tracks step completion status for resumable ETL runs.
#[derive(Debug)]
pub struct PipelineState {
    version: u32,
    database_url: String,
    csv_dir: String,
    steps: Vec<(String, StepStatus)>,
}

impl PipelineState {
    /// The recorded version.
    pub closed spec fn spec_version(&self) -> u32 {
        self.version
    }

    /// The database URL the run was started with.
    pub closed spec fn spec_database_url(&self) -> Seq<char> {
        self.database_url@
    }

    /// The CSV directory the run was started with.
    pub closed spec fn spec_csv_dir(&self) -> Seq<char> {
        self.csv_dir@
    }

    /// The state as a state file holds it: the version, both paths, and
    /// each step with its status word (and error, for a failed step).
    pub fn to_raw(&self) -> (r: RawState)
        ensures
            r.version == Some(self.spec_version() as u64),
            opt_view(r.database_url) == Some(self.spec_database_url()),
            opt_view(r.csv_dir) == Some(self.spec_csv_dir()),
            r.steps is Object,
            raw_entries(r.steps) == self.entries().map_values(|e: (Seq<char>, StatusView)| raw_step_of(e)),
    {
        let mut out: Vec<RawStep> = Vec::new();
        let mut i: usize = 0;
        while i < self.steps.len()
            invariant
                i <= self.steps@.len(),
                raw_views(out@) == self.entries().map_values(|e: (Seq<char>, StatusView)| raw_step_of(e)).take(
                    i as int,
                ),
            decreases self.steps.len() - i,
        {
            let (status, error) = match &self.steps[i].1 {
                StepStatus::Pending => (String::from_str("pending"), None),
                StepStatus::Completed => (String::from_str("completed"), None),
                StepStatus::Failed { error } => (
                    String::from_str("failed"),
                    match error {
                        Some(e) => Some(String::from_str(e.as_str())),
                        None => None,
                    },
                ),
            };
            let step = RawStep { name: String::from_str(self.steps[i].0.as_str()), status: Some(status), error };
            let ghost before = raw_views(out@);
            out.push(step);
            proof {
                let es = self.entries().map_values(|e: (Seq<char>, StatusView)| raw_step_of(e));
                assert(raw_views(out@) =~= before.push(es[i as int]));
                assert(es.take(i + 1) =~= es.take(i as int).push(es[i as int]));
            }
            i += 1;
        }
        proof {
            let es = self.entries().map_values(|e: (Seq<char>, StatusView)| raw_step_of(e));
            assert(es.take(self.steps@.len() as int) == es);
        }
        RawState {
            version: Some(self.version as u64),
            database_url: Some(String::from_str(self.database_url.as_str())),
            csv_dir: Some(String::from_str(self.csv_dir.as_str())),
            steps: RawSteps::Object(out),
        }
    }

    /// The recorded steps, in order, with their statuses.
    pub closed spec fn entries(&self) -> Seq<(Seq<char>, StatusView)> {
        self.steps@.map_values(|e: (String, StepStatus)| (e.0@, status_view(e.1)))
    }

    /// The status of step `name` (`None` for a step not recorded).
    pub open spec fn status(&self, name: Seq<char>) -> Option<StatusView> {
        lookup(self.entries(), name)
    }

    /// A state with every step of `steps` pending.
    pub fn new(db_url: &str, csv_dir: &str, steps: &[&str]) -> (r: Self)
        ensures
            r.spec_version() == STATE_VERSION,
            r.spec_database_url() == db_url@,
            r.spec_csv_dir() == csv_dir@,
            forall|n: Seq<char>|
                #[trigger] r.status(n) == if names_view(steps@).contains(n) {
                    Some(StatusView::Pending)
                } else {
                    None
                },
    {
        let mut state = PipelineState {
            version: STATE_VERSION,
            database_url: String::from_str(db_url),
            csv_dir: String::from_str(csv_dir),
            steps: Vec::new(),
        };
        let mut i: usize = 0;
        while i < steps.len()
            invariant
                i <= steps@.len(),
                state.version == STATE_VERSION,
                state.database_url@ == db_url@,
                state.csv_dir@ == csv_dir@,
                forall|n: Seq<char>|
                    #[trigger] state.status(n) == if names_view(steps@).take(i as int).contains(n) {
                        Some(StatusView::Pending)
                    } else {
                        None
                    },
            decreases steps.len() - i,
        {
            let ghost pre = names_view(steps@).take(i as int);
            assert(names_view(steps@).take(i + 1) == pre.push(steps@[i as int]@));
            if state.find(steps[i]).is_none() {
                state.set_status(steps[i], StepStatus::Pending);
            }
            proof {
                assert forall|n: Seq<char>| #[trigger] state.status(n) == if names_view(steps@).take(
                    i + 1,
                ).contains(n) {
                    Some(StatusView::Pending)
                } else {
                    None
                } by {
                    if n == steps@[i as int]@ {
                        assert(names_view(steps@).take(i + 1)[i as int] == n);
                    } else {
                        if pre.push(steps@[i as int]@).contains(n) {
                            let k = choose|k: int| 0 <= k < pre.push(steps@[i as int]@).len() && pre.push(steps@[i as int]@)[k] == n;
                            assert(pre[k] == n);
                        }
                        if pre.contains(n) {
                            let k = choose|k: int| 0 <= k < pre.len() && pre[k] == n;
                            assert(pre.push(steps@[i as int]@)[k] == n);
                        }
                    }
                }
            }
            i += 1;
        }
        assert(names_view(steps@).take(steps@.len() as int) == names_view(steps@));
        state
    }

    /// The index of the first entry recorded under `name`.
    fn find(&self, name: &str) -> (r: Option<usize>)
        ensures
            match r {
                None => lookup(self.entries(), name@) is None,
                Some(k) => k < self.entries().len() && self.entries()[k as int].0 == name@
                    && lookup(self.entries(), name@) == Some(self.entries()[k as int].1)
                    && forall|j: int| 0 <= j < k ==> self.entries()[j].0 != name@,
            },
    {
        let target = chars::chars_of(name);
        let ghost es = self.entries();
        let mut i: usize = 0;
        assert(es.skip(0) == es);
        while i < self.steps.len()
            invariant
                i <= self.steps@.len(),
                es == self.entries(),
                target@ == name@,
                lookup(es, name@) == lookup(es.skip(i as int), name@),
                forall|j: int| 0 <= j < i ==> es[j].0 != name@,
            decreases self.steps.len() - i,
        {
            let c = chars::chars_of(self.steps[i].0.as_str());
            assert(es.skip(i as int)[0] == es[i as int]);
            assert(es.skip(i as int).drop_first() == es.skip(i + 1));
            if chars::chars_eq(&c, &target) {
                return Some(i);
            }
            i += 1;
        }
        None
    }

    /// Record `status` for step `name` (replacing its current status).
    fn set_status(&mut self, name: &str, status: StepStatus)
        ensures
            final(self).spec_version() == old(self).spec_version(),
            final(self).spec_database_url() == old(self).spec_database_url(),
            final(self).spec_csv_dir() == old(self).spec_csv_dir(),
            forall|n: Seq<char>|
                #[trigger] final(self).status(n) == if n == name@ {
                    Some(status_view(status))
                } else {
                    old(self).status(n)
                },
    {
        let ghost before = self.entries();
        let ghost sv = status_view(status);
        match self.find(name) {
            Some(k) => {
                self.steps.set(k, (String::from_str(name), status));
                proof {
                    let after = self.entries();
                    assert(after =~= before.update(k as int, (name@, sv)));
                    assert forall|n: Seq<char>| #[trigger] lookup(after, n) == if n == name@ {
                        Some(sv)
                    } else {
                        lookup(before, n)
                    } by {
                        lemma_lookup_update(before, k as int, (name@, sv), n);
                    }
                }
            },
            None => {
                self.steps.push((String::from_str(name), status));
                proof {
                    let after = self.entries();
                    assert(after =~= before.push((name@, sv)));
                    assert forall|n: Seq<char>| #[trigger] lookup(after, n) == if n == name@ {
                        Some(sv)
                    } else {
                        lookup(before, n)
                    } by {
                        lemma_lookup_push(before, (name@, sv), n);
                    }
                }
            },
        }
    }

    /// Copy the saved statuses of the steps in `names` (see
    /// [`copied_status`]).
    fn copy_steps(&mut self, raw: &Vec<RawStep>, names: &[&str])
        ensures
            final(self).spec_version() == old(self).spec_version(),
            final(self).spec_database_url() == old(self).spec_database_url(),
            final(self).spec_csv_dir() == old(self).spec_csv_dir(),
            forall|n: Seq<char>|
                #[trigger] final(self).status(n) == after_copy(
                    old(self).status(n),
                    raw_views(raw@),
                    names_view(names@),
                    n,
                ),
    {
        let ghost es = raw_views(raw@);
        let ghost start = *self;
        let mut i: usize = 0;
        while i < names.len()
            invariant
                i <= names@.len(),
                es == raw_views(raw@),
                self.spec_version() == start.spec_version(),
                self.spec_database_url() == start.spec_database_url(),
                self.spec_csv_dir() == start.spec_csv_dir(),
                start == *old(self),
                forall|n: Seq<char>|
                    #[trigger] self.status(n) == after_copy(
                        start.status(n),
                        es,
                        names_view(names@).take(i as int),
                        n,
                    ),
            decreases names.len() - i,
        {
            let name = names[i];
            let ghost pre = names_view(names@).take(i as int);
            assert(names_view(names@).take(i + 1) == pre.push(name@));
            let copied = raw_status(raw, name);
            let ghost before = *self;
            match copied {
                Some(st) => {
                    self.set_status(name, st);
                },
                None => {},
            }
            proof {
                assert forall|n: Seq<char>| #[trigger] self.status(n) == after_copy(
                    start.status(n),
                    es,
                    pre.push(name@),
                    n,
                ) by {
                    if pre.push(name@).contains(n) && !pre.contains(n) {
                        let k = choose|k: int| 0 <= k < pre.push(name@).len() && pre.push(name@)[k] == n;
                        if k < pre.len() {
                            assert(pre[k] == n);
                        }
                    }
                    if pre.contains(n) {
                        let k = choose|k: int| 0 <= k < pre.len() && pre[k] == n;
                        assert(pre.push(name@)[k] == n);
                    }
                    if n == name@ {
                        assert(pre.push(name@)[pre.len() as int] == n);
                    }
                }
            }
            i += 1;
        }
        assert(names_view(names@).take(names@.len() as int) == names_view(names@));
    }

    /// Build a state from a saved state: version 3 is read as it is,
    /// versions 1 and 2 are migrated to the current steps.
    pub fn from_raw(raw: &RawState) -> (r: Result<PipelineState, StateError>)
        ensures
            from_raw_spec(*raw, r),
    {
        let v = match raw.version {
            None => {
                return Err(StateError::MissingVersion);
            },
            Some(v) => v as u32,
        };
        if v != 1 && v != 2 && v != STATE_VERSION {
            return Err(StateError::UnsupportedVersion(v));
        }
        let db_url = match &raw.database_url {
            None => {
                return Err(StateError::MissingDatabaseUrl);
            },
            Some(d) => d,
        };
        let csv_dir = match &raw.csv_dir {
            None => {
                return Err(StateError::MissingCsvDir);
            },
            Some(c) => c,
        };
        let steps = match &raw.steps {
            RawSteps::Missing => {
                return Err(StateError::MissingSteps);
            },
            RawSteps::NotObject => {
                if v == STATE_VERSION {
                    return Err(StateError::StepsNotObject);
                }
                None
            },
            RawSteps::Object(entries) => Some(entries),
        };
        let empty: Vec<RawStep> = Vec::new();
        let entries = match steps {
            Some(e) => e,
            None => &empty,
        };
        assert(raw_views(entries@) == raw_entries(raw.steps));
        if v == STATE_VERSION {
            Ok(PipelineState::load_v3(db_url, csv_dir, entries))
        } else if v == 1 {
            Ok(PipelineState::migrate_v1(db_url, csv_dir, entries))
        } else {
            Ok(PipelineState::migrate_v2(db_url, csv_dir, entries))
        }
    }

    /// A current-version state: the saved steps, in their saved order,
    /// with their saved statuses.
    fn load_v3(db_url: &String, csv_dir: &String, entries: &Vec<RawStep>) -> (r: PipelineState)
        ensures
            r.spec_version() == STATE_VERSION,
            r.spec_database_url() == db_url@,
            r.spec_csv_dir() == csv_dir@,
            forall|n: Seq<char>|
                #[trigger] r.status(n) == if raw_names(raw_views(entries@)).contains(n) {
                    after_copy(
                        Some(StatusView::Pending),
                        raw_views(entries@),
                        raw_names(raw_views(entries@)),
                        n,
                    )
                } else {
                    None
                },
    {
        let ghost es = raw_views(entries@);
        let mut names: Vec<&str> = Vec::new();
        let mut k: usize = 0;
        while k < entries.len()
            invariant
                k <= entries@.len(),
                es == raw_views(entries@),
                names_view(names@) == raw_names(es).take(k as int),
            decreases entries.len() - k,
        {
            let ghost before = names_view(names@);
            names.push(entries[k].name.as_str());
            assert(names_view(names@) =~= before.push(es[k as int].0));
            assert(raw_names(es).take(k + 1) =~= raw_names(es).take(k as int).push(es[k as int].0));
            k += 1;
        }
        assert(raw_names(es).take(entries@.len() as int) == raw_names(es));
        let mut state = PipelineState::new(db_url.as_str(), csv_dir.as_str(), names.as_slice());
        state.copy_steps(entries, names.as_slice());
        proof {
            assert forall|n: Seq<char>| #[trigger] state.status(n) == if raw_names(es).contains(n) {
                after_copy(Some(StatusView::Pending), es, raw_names(es), n)
            } else {
                None
            } by {}
        }
        state
    }

    /// Migrate version 1 saved steps to the current steps (see
    /// [`v1_status`]).
    fn migrate_v1(db_url: &String, csv_dir: &String, entries: &Vec<RawStep>) -> (r: PipelineState)
        ensures
            r.spec_version() == STATE_VERSION,
            r.spec_database_url() == db_url@,
            r.spec_csv_dir() == csv_dir@,
            forall|n: Seq<char>|
                #[trigger] r.status(n) == if names_view(STEP_NAMES@).contains(n) {
                    v1_status(raw_views(entries@), n)
                } else {
                    None
                },
    {
        let ghost es = raw_views(entries@);
        let mut state = PipelineState::new(db_url.as_str(), csv_dir.as_str(), STEP_NAMES.as_slice());
        state.copy_steps(entries, V1_STEP_NAMES.as_slice());
        if PipelineState::step_is_completed(entries, "import_csv") {
            state.mark_completed("import_tracks");
        }
        if PipelineState::step_is_completed(entries, "dedup") || PipelineState::step_is_completed(
            entries,
            "create_indexes",
        ) {
            state.mark_completed("create_track_indexes");
        }
        if PipelineState::step_is_completed(entries, "vacuum") {
            state.mark_completed("set_logged");
        }
        proof {
            lemma_old_steps_are_current();
            assert forall|n: Seq<char>| #[trigger] state.status(n) == if names_view(STEP_NAMES@).contains(n) {
                v1_status(es, n)
            } else {
                None
            } by {}
        }
        state
    }

    /// Migrate version 2 saved steps to the current steps (see
    /// [`v2_status`]).
    fn migrate_v2(db_url: &String, csv_dir: &String, entries: &Vec<RawStep>) -> (r: PipelineState)
        ensures
            r.spec_version() == STATE_VERSION,
            r.spec_database_url() == db_url@,
            r.spec_csv_dir() == csv_dir@,
            forall|n: Seq<char>|
                #[trigger] r.status(n) == if names_view(STEP_NAMES@).contains(n) {
                    v2_status(raw_views(entries@), n)
                } else {
                    None
                },
    {
        let ghost es = raw_views(entries@);
        let mut state = PipelineState::new(db_url.as_str(), csv_dir.as_str(), STEP_NAMES.as_slice());
        state.copy_steps(entries, V2_STEP_NAMES.as_slice());
        if PipelineState::step_is_completed(entries, "vacuum") {
            state.mark_completed("set_logged");
        }
        proof {
            lemma_old_steps_are_current();
            assert forall|n: Seq<char>| #[trigger] state.status(n) == if names_view(STEP_NAMES@).contains(n) {
                v2_status(es, n)
            } else {
                None
            } by {}
        }
        state
    }

    /// Whether the saved step `name` is completed.
    fn step_is_completed(raw: &Vec<RawStep>, name: &str) -> (r: bool)
        ensures
            r == raw_completed(raw_views(raw@), name@),
    {
        match raw_find(raw, name) {
            None => false,
            Some(k) => opt_is(&raw[k].status, "completed"),
        }
    }

    /// Whether the step has been completed.
    pub fn is_completed(&self, step: &str) -> (r: bool)
        ensures
            r == (self.status(step@) == Some(StatusView::Completed)),
    {
        match self.find(step) {
            Some(k) => match &self.steps[k].1 {
                StepStatus::Completed => true,
                _ => false,
            },
            None => false,
        }
    }

    /// Mark a step as completed.
    pub fn mark_completed(&mut self, step: &str)
        ensures
            final(self).spec_version() == old(self).spec_version(),
            final(self).spec_database_url() == old(self).spec_database_url(),
            final(self).spec_csv_dir() == old(self).spec_csv_dir(),
            forall|n: Seq<char>|
                #[trigger] final(self).status(n) == if n == step@ {
                    Some(StatusView::Completed)
                } else {
                    old(self).status(n)
                },
    {
        self.set_status(step, StepStatus::Completed);
    }

    /// Mark a step as failed with an error message.
    pub fn mark_failed(&mut self, step: &str, error: &str)
        ensures
            final(self).spec_version() == old(self).spec_version(),
            final(self).spec_database_url() == old(self).spec_database_url(),
            final(self).spec_csv_dir() == old(self).spec_csv_dir(),
            forall|n: Seq<char>|
                #[trigger] final(self).status(n) == if n == step@ {
                    Some(StatusView::Failed(Some(error@)))
                } else {
                    old(self).status(n)
                },
    {
        self.set_status(step, StepStatus::Failed { error: Some(String::from_str(error)) });
    }

    /// The status of a step as a word: `pending`, `completed`, `failed`,
    /// or `unknown` for a step not recorded.
    pub fn step_status(&self, step: &str) -> (r: &str)
        ensures
            r@ == match self.status(step@) {
                Some(StatusView::Pending) => "pending"@,
                Some(StatusView::Completed) => "completed"@,
                Some(StatusView::Failed(_)) => "failed"@,
                None => "unknown"@,
            },
    {
        match self.find(step) {
            Some(k) => match &self.steps[k].1 {
                StepStatus::Pending => "pending",
                StepStatus::Completed => "completed",
                StepStatus::Failed { .. } => "failed",
            },
            None => "unknown",
        }
    }

    /// The error message of a failed step, if it has one.
    pub fn step_error(&self, step: &str) -> (r: Option<&str>)
        ensures
            match self.status(step@) {
                Some(StatusView::Failed(Some(e))) => (r matches Some(m) && m@ == e),
                _ => r is None,
            },
    {
        match self.find(step) {
            Some(k) => match &self.steps[k].1 {
                StepStatus::Failed { error: Some(e) } => Some(e.as_str()),
                _ => None,
            },
            None => None,
        }
    }

    /// Refuse resuming with another database URL or CSV directory than
    /// the state records (the URL is checked first).
    pub fn validate_resume(&self, db_url: &str, csv_dir: &str) -> (r: Result<(), StateError>)
        ensures
            r is Ok <==> (self.spec_database_url() == db_url@ && self.spec_csv_dir() == csv_dir@),
            self.spec_database_url() != db_url@ ==> (r matches Err(StateError::DatabaseUrlMismatch { state, got }) && state@ == self.spec_database_url() && got@ == db_url@),
            self.spec_database_url() == db_url@ && self.spec_csv_dir() != csv_dir@ ==> (r matches Err(StateError::CsvDirMismatch { state, got }) && state@ == self.spec_csv_dir() && got@ == csv_dir@),
    {
        let a = chars::chars_of(self.database_url.as_str());
        let b = chars::chars_of(db_url);
        if !chars::chars_eq(&a, &b) {
            return Err(
                StateError::DatabaseUrlMismatch {
                    state: String::from_str(self.database_url.as_str()),
                    got: String::from_str(db_url),
                },
            );
        }
        let c = chars::chars_of(self.csv_dir.as_str());
        let d = chars::chars_of(csv_dir);
        if !chars::chars_eq(&c, &d) {
            return Err(
                StateError::CsvDirMismatch {
                    state: String::from_str(self.csv_dir.as_str()),
                    got: String::from_str(csv_dir),
                },
            );
        }
        Ok(())
    }

    /// The recorded version.
    pub fn version(&self) -> (r: u32)
        ensures
            r == self.spec_version(),
    {
        self.version
    }

    /// The database URL the run was started with.
    pub fn database_url(&self) -> (r: &str)
        ensures
            r@ == self.spec_database_url(),
    {
        self.database_url.as_str()
    }

    /// The CSV directory the run was started with.
    pub fn csv_dir(&self) -> (r: &str)
        ensures
            r@ == self.spec_csv_dir(),
    {
        self.csv_dir.as_str()
    }

    /// The recorded steps, in order, with their statuses.
    pub fn steps(&self) -> (r: &Vec<(String, StepStatus)>)
        ensures
            r@.map_values(|e: (String, StepStatus)| (e.0@, status_view(e.1))) == self.entries(),
    {
        &self.steps
    }
}

/// How a state file writes one step.
pub open spec fn raw_step_of(e: (Seq<char>, StatusView)) -> RawStepView {
    match e.1 {
        StatusView::Pending => (e.0, Some("pending"@), None),
        StatusView::Completed => (e.0, Some("completed"@), None),
        StatusView::Failed(err) => (e.0, Some("failed"@), err),
    }
}

/// Saving then loading gives the state back: reading what
/// [`PipelineState::to_raw`] writes for a current-version state yields a
/// state with the same paths and the same status for every step.
pub proof fn lemma_save_load_roundtrip(s: PipelineState, raw: RawState, r: Result<PipelineState, StateError>)
    requires
        s.spec_version() == STATE_VERSION,
        raw.version == Some(s.spec_version() as u64),
        opt_view(raw.database_url) == Some(s.spec_database_url()),
        opt_view(raw.csv_dir) == Some(s.spec_csv_dir()),
        raw.steps is Object,
        raw_entries(raw.steps) == s.entries().map_values(|e: (Seq<char>, StatusView)| raw_step_of(e)),
        from_raw_spec(raw, r),
    ensures
        r is Ok,
        r->Ok_0.spec_database_url() == s.spec_database_url(),
        r->Ok_0.spec_csv_dir() == s.spec_csv_dir(),
        forall|n: Seq<char>| #[trigger] r->Ok_0.status(n) == s.status(n),
{
    let es = raw_entries(raw.steps);
    let ents = s.entries();
    assert((3u32 as u64) as u32 == 3u32) by (bit_vector);
    assert forall|n: Seq<char>| #[trigger] r->Ok_0.status(n) == s.status(n) by {
        lemma_roundtrip_lookup(ents, n);
        if raw_names(es).contains(n) {
        } else {
            if lookup(ents, n) is Some {
                lemma_lookup_some_named(ents, n);
                let k = choose|k: int| 0 <= k < ents.len() && ents[k].0 == n;
                assert(raw_names(es)[k] == n);
            }
        }
    }
}

/// Migrating a version 1 state completes the steps version 1 did not
/// have from the saved steps that did their work: `import_tracks` when the
/// saved `import_csv` step was completed, `create_track_indexes` when the
/// saved `dedup` step or the saved `create_indexes` step was completed
/// (either one alone suffices), and `set_logged` when the saved `vacuum`
/// step was completed; otherwise each of these steps is pending. Every
/// version 1 step saved as completed stays completed.
pub proof fn lemma_v1_migration_infers(raw: RawState, r: Result<PipelineState, StateError>)
    requires
        raw.version == Some(1u64),
        raw.database_url is Some,
        raw.csv_dir is Some,
        !(raw.steps is Missing),
        from_raw_spec(raw, r),
    ensures
        r is Ok,
        raw_completed(raw_entries(raw.steps), "import_csv"@) ==> r->Ok_0.status("import_tracks"@)
            == Some(StatusView::Completed),
        raw_completed(raw_entries(raw.steps), "dedup"@) ==> r->Ok_0.status("create_track_indexes"@)
            == Some(StatusView::Completed),
        raw_completed(raw_entries(raw.steps), "create_indexes"@) ==> r->Ok_0.status(
            "create_track_indexes"@,
        ) == Some(StatusView::Completed),
        raw_completed(raw_entries(raw.steps), "vacuum"@) ==> r->Ok_0.status("set_logged"@)
            == Some(StatusView::Completed),
        !raw_completed(raw_entries(raw.steps), "import_csv"@) ==> r->Ok_0.status("import_tracks"@)
            == Some(StatusView::Pending),
        !raw_completed(raw_entries(raw.steps), "dedup"@) && !raw_completed(
            raw_entries(raw.steps),
            "create_indexes"@,
        ) ==> r->Ok_0.status("create_track_indexes"@) == Some(StatusView::Pending),
        !raw_completed(raw_entries(raw.steps), "vacuum"@) ==> r->Ok_0.status("set_logged"@)
            == Some(StatusView::Pending),
        forall|n: Seq<char>|
            #[trigger] names_view(V1_STEP_NAMES@).contains(n) && raw_completed(raw_entries(raw.steps), n)
                ==> r->Ok_0.status(n) == Some(StatusView::Completed),
{
    reveal_strlit("import_tracks");
    reveal_strlit("create_track_indexes");
    reveal_strlit("set_logged");
    reveal_strlit("create_schema");
    reveal_strlit("import_csv");
    reveal_strlit("create_indexes");
    reveal_strlit("dedup");
    reveal_strlit("prune");
    reveal_strlit("vacuum");
    let v1 = names_view(V1_STEP_NAMES@);
    assert(v1 == seq!["create_schema"@, "import_csv"@, "create_indexes"@, "dedup"@, "prune"@, "vacuum"@]);
    assert(!v1.contains("import_tracks"@)) by {
        assert forall|i: int| 0 <= i < v1.len() implies v1[i] != "import_tracks"@ by {
            assert(v1[i].len() != "import_tracks"@.len() || v1[i][0] != "import_tracks"@[0] || v1[i][1] != "import_tracks"@[1]);
        }
    }
    assert(!v1.contains("create_track_indexes"@)) by {
        assert forall|i: int| 0 <= i < v1.len() implies v1[i] != "create_track_indexes"@ by {
            assert(v1[i].len() != "create_track_indexes"@.len());
        }
    }
    assert(!v1.contains("set_logged"@)) by {
        assert forall|i: int| 0 <= i < v1.len() implies v1[i] != "set_logged"@ by {
            assert(v1[i].len() != "set_logged"@.len() || v1[i][0] != "set_logged"@[0]);
        }
    }
    assert("create_track_indexes"@ != "import_tracks"@) by {
        assert("create_track_indexes"@.len() != "import_tracks"@.len());
    }
    assert("set_logged"@ != "import_tracks"@) by {
        assert("set_logged"@.len() != "import_tracks"@.len());
    }
    assert("set_logged"@ != "create_track_indexes"@) by {
        assert("set_logged"@.len() != "create_track_indexes"@.len());
    }
    assert("import_tracks"@ != "create_track_indexes"@);
    assert("import_tracks"@ != "set_logged"@);
    assert("create_track_indexes"@ != "set_logged"@);
    assert forall|n: Seq<char>|
        #[trigger] names_view(V1_STEP_NAMES@).contains(n) && raw_completed(raw_entries(raw.steps), n)
            implies r->Ok_0.status(n) == Some(StatusView::Completed) by {
        lemma_old_steps_are_current();
        assert(names_view(STEP_NAMES@).contains(n));
        assert(r->Ok_0.status(n) == v1_status(raw_entries(raw.steps), n));
    }
    assert((1u64 as u32) == 1u32) by (bit_vector);
    lemma_old_steps_are_current();
    assert(r->Ok_0.status("import_tracks"@) == v1_status(raw_entries(raw.steps), "import_tracks"@));
    assert(r->Ok_0.status("create_track_indexes"@) == v1_status(
        raw_entries(raw.steps),
        "create_track_indexes"@,
    ));
    assert(r->Ok_0.status("set_logged"@) == v1_status(raw_entries(raw.steps), "set_logged"@));
}

proof fn lemma_lookup_some_named(es: Seq<(Seq<char>, StatusView)>, n: Seq<char>)
    requires
        lookup(es, n) is Some,
    ensures
        exists|k: int| 0 <= k < es.len() && es[k].0 == n,
    decreases es.len(),
{
    if es[0].0 != n {
        lemma_lookup_some_named(es.drop_first(), n);
        let k = choose|k: int| 0 <= k < es.drop_first().len() && es.drop_first()[k].0 == n;
        assert(es[k + 1].0 == n);
    }
}

/// Reading a step back from its written form gives its status.
proof fn lemma_roundtrip_lookup(ents: Seq<(Seq<char>, StatusView)>, n: Seq<char>)
    ensures
        ({
            let es = ents.map_values(|e: (Seq<char>, StatusView)| raw_step_of(e));
            &&& raw_names(es).contains(n) ==> after_copy(Some(StatusView::Pending), es, raw_names(es), n)
                == lookup(ents, n)
            &&& raw_names(es).contains(n) ==> lookup(ents, n) is Some
        }),
    decreases ents.len(),
{
    let es = ents.map_values(|e: (Seq<char>, StatusView)| raw_step_of(e));
    if ents.len() > 0 {
        let rest = ents.drop_first();
        let es_rest = rest.map_values(|e: (Seq<char>, StatusView)| raw_step_of(e));
        assert(es.drop_first() =~= es_rest);
        assert(raw_names(es).drop_first() =~= raw_names(es_rest));
        lemma_roundtrip_lookup(rest, n);
        reveal_strlit("pending");
        reveal_strlit("completed");
        reveal_strlit("failed");
        assert(es[0] == raw_step_of(ents[0]));
        assert(raw_names(es)[0] == ents[0].0);
        if ents[0].0 == n {
            assert(raw_lookup(es, n) == Some(es[0]));
            assert(raw_names(es).contains(n));
            assert(lookup(ents, n) == Some(ents[0].1));
            assert("pending"@[0] != "completed"@[0]);
            assert("failed"@[0] != "completed"@[0]);
            assert("pending"@[0] != "failed"@[0]);
        } else {
            assert(raw_lookup(es, n) == raw_lookup(es_rest, n));
            assert(lookup(ents, n) == lookup(rest, n));
        }
        if ents[0].0 != n && raw_names(es).contains(n) {
            let k = choose|k: int| 0 <= k < raw_names(es).len() && raw_names(es)[k] == n;
            assert(k != 0);
            assert(raw_names(es_rest)[k - 1] == n);
        }
    } else {
        assert(!raw_names(es).contains(n));
    }
}

/// The names of the raw steps, in order.
pub open spec fn raw_names(es: Seq<RawStepView>) -> Seq<Seq<char>> {
    es.map_values(|e: RawStepView| e.0)
}

/// The version a saved state declares (its number taken as `u32`).
pub open spec fn raw_version(raw: RawState) -> Option<u32> {
    match raw.version {
        Some(v) => Some(v as u32),
        None => None,
    }
}

/// What [`PipelineState::from_raw`] gives for `raw`.
pub open spec fn from_raw_spec(raw: RawState, r: Result<PipelineState, StateError>) -> bool {
    let es = raw_entries(raw.steps);
    match raw_version(raw) {
        None => r == Err::<PipelineState, StateError>(StateError::MissingVersion),
        Some(v) => if v != 1 && v != 2 && v != 3 {
            r == Err::<PipelineState, StateError>(StateError::UnsupportedVersion(v))
        } else if raw.database_url is None {
            r == Err::<PipelineState, StateError>(StateError::MissingDatabaseUrl)
        } else if raw.csv_dir is None {
            r == Err::<PipelineState, StateError>(StateError::MissingCsvDir)
        } else if raw.steps is Missing {
            r == Err::<PipelineState, StateError>(StateError::MissingSteps)
        } else if v == 3 && raw.steps is NotObject {
            r == Err::<PipelineState, StateError>(StateError::StepsNotObject)
        } else {
            &&& r is Ok
            &&& r->Ok_0.spec_version() == STATE_VERSION
            &&& r->Ok_0.spec_database_url() == raw.database_url->0@
            &&& r->Ok_0.spec_csv_dir() == raw.csv_dir->0@
            &&& forall|n: Seq<char>|
                #[trigger] r->Ok_0.status(n) == if v == 3 {
                    if raw_names(es).contains(n) {
                        after_copy(Some(StatusView::Pending), es, raw_names(es), n)
                    } else {
                        None
                    }
                } else if names_view(STEP_NAMES@).contains(n) {
                    if v == 1 {
                        v1_status(es, n)
                    } else {
                        v2_status(es, n)
                    }
                } else {
                    None
                }
        },
    }
}

/// The index of the first raw step named `name`.
fn raw_find(raw: &Vec<RawStep>, name: &str) -> (r: Option<usize>)
    ensures
        match r {
            None => raw_lookup(raw_views(raw@), name@) is None,
            Some(k) => k < raw@.len() && raw_lookup(raw_views(raw@), name@) == Some(
                raw_views(raw@)[k as int],
            ),
        },
{
    let target = chars::chars_of(name);
    let ghost es = raw_views(raw@);
    let mut i: usize = 0;
    assert(es.skip(0) == es);
    while i < raw.len()
        invariant
            i <= raw@.len(),
            es == raw_views(raw@),
            target@ == name@,
            raw_lookup(es, name@) == raw_lookup(es.skip(i as int), name@),
        decreases raw.len() - i,
    {
        let c = chars::chars_of(raw[i].name.as_str());
        assert(es.skip(i as int)[0] == es[i as int]);
        assert(es.skip(i as int).drop_first() == es.skip(i + 1));
        if chars::chars_eq(&c, &target) {
            return Some(i);
        }
        i += 1;
    }
    None
}

/// Whether an optional string holds exactly `word`.
fn opt_is(o: &Option<String>, word: &str) -> (r: bool)
    ensures
        r == (opt_view(*o) == Some(word@)),
{
    match o {
        None => false,
        Some(s) => {
            let a = chars::chars_of(s.as_str());
            let b = chars::chars_of(word);
            chars::chars_eq(&a, &b)
        },
    }
}

/// The status the saved step `name` contributes.
fn raw_status(raw: &Vec<RawStep>, name: &str) -> (r: Option<StepStatus>)
    ensures
        match r {
            None => copied_status(raw_views(raw@), name@) is None,
            Some(st) => copied_status(raw_views(raw@), name@) == Some(status_view(st)),
        },
{
    match raw_find(raw, name) {
        None => None,
        Some(k) => {
            if opt_is(&raw[k].status, "completed") {
                Some(StepStatus::Completed)
            } else if opt_is(&raw[k].status, "failed") {
                let error = match &raw[k].error {
                    None => None,
                    Some(e) => Some(String::from_str(e.as_str())),
                };
                Some(StepStatus::Failed { error })
            } else {
                None
            }
        },
    }
}

/// Every version 1 or version 2 step is a current step, as are the steps
/// the migrations infer.
proof fn lemma_old_steps_are_current()
    ensures
        forall|n: Seq<char>|
            #[trigger] names_view(V1_STEP_NAMES@).contains(n) ==> names_view(STEP_NAMES@).contains(n),
        forall|n: Seq<char>|
            #[trigger] names_view(V2_STEP_NAMES@).contains(n) ==> names_view(STEP_NAMES@).contains(n),
        names_view(STEP_NAMES@).contains("import_tracks"@),
        names_view(STEP_NAMES@).contains("create_track_indexes"@),
        names_view(STEP_NAMES@).contains("set_logged"@),
{
    let cur = names_view(STEP_NAMES@);
    let v1 = names_view(V1_STEP_NAMES@);
    let v2 = names_view(V2_STEP_NAMES@);
    assert(cur[4] == "import_tracks"@);
    assert(cur[5] == "create_track_indexes"@);
    assert(cur[8] == "set_logged"@);
    assert forall|n: Seq<char>| #[trigger] v1.contains(n) implies cur.contains(n) by {
        let k = choose|k: int| 0 <= k < v1.len() && v1[k] == n;
        let m = if k < 4 { k } else { k + 2 };
        assert(cur[m] == n);
    }
    assert forall|n: Seq<char>| #[trigger] v2.contains(n) implies cur.contains(n) by {
        let k = choose|k: int| 0 <= k < v2.len() && v2[k] == n;
        assert(cur[k] == n);
    }
}

proof fn lemma_lookup_update(es: Seq<(Seq<char>, StatusView)>, k: int, e: (Seq<char>, StatusView), n: Seq<char>)
    requires
        0 <= k < es.len(),
        es[k].0 == e.0,
        lookup(es, e.0) == Some(es[k].1),
        forall|j: int| 0 <= j < k ==> es[j].0 != e.0,
    ensures
        lookup(es.update(k, e), n) == if n == e.0 {
            Some(e.1)
        } else {
            lookup(es, n)
        },
    decreases es.len(),
{
    let u = es.update(k, e);
    if k == 0 {
        assert(u[0] == e);
        assert(u.drop_first() == es.drop_first());
    } else {
        assert(u[0] == es[0]);
        assert(u.drop_first() == es.drop_first().update(k - 1, e));
        assert forall|j: int| 0 <= j < k - 1 implies es.drop_first()[j].0 != e.0 by {
            assert(es.drop_first()[j] == es[j + 1]);
        }
        lemma_lookup_update(es.drop_first(), k - 1, e, n);
    }
}

proof fn lemma_lookup_push(es: Seq<(Seq<char>, StatusView)>, e: (Seq<char>, StatusView), n: Seq<char>)
    requires
        lookup(es, e.0) is None,
    ensures
        lookup(es.push(e), n) == if n == e.0 && lookup(es, n) is None {
            Some(e.1)
        } else {
            lookup(es, n)
        },
    decreases es.len(),
{
    if es.len() == 0 {
        assert(es.push(e)[0] == e);
        assert(es.push(e).drop_first().len() == 0);
    } else {
        assert(es.push(e)[0] == es[0]);
        assert(es.push(e).drop_first() == es.drop_first().push(e));
        lemma_lookup_push(es.drop_first(), e, n);
    }
}

} // verus!
