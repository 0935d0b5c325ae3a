//! Records of the persistence layer (assets, runs, run files) and the aggregate
//! state of a run, which is a pure function of the states of its files.

use vstd::prelude::*;
use crate::text::str_eq;

verus! {

broadcast use {
    vstd::seq_lib::group_to_multiset_ensures,
    vstd::multiset::group_multiset_axioms,
    vstd::multiset::group_multiset_properties,
    vstd::multiset::lemma_multiset_empty_len,
};

// Per-file lifecycle states.
pub const F_QUEUED: &'static str = "queued";

pub const F_UPLOADING: &'static str = "uploading";

pub const F_PROCESSING: &'static str = "processing";

pub const F_DOWNLOADING: &'static str = "downloading";

pub const F_DONE: &'static str = "done";

pub const F_FAILED: &'static str = "failed";

pub const F_CANCELLED: &'static str = "cancelled";

// ---------------------------------------------------------------------------
// Records handed to the frontend
// ---------------------------------------------------------------------------

/// An imported audio file, stored once per content hash.
#[derive(Clone, Debug)]
pub struct AssetDto {
    pub id: String,
    pub sha256: String,
    pub original_name: String,
    pub ext: String,
    pub size_bytes: i64,
    pub stored_path: String,
    pub imported_at: String,
}

/// One file of a run, as the run detail view shows it.
#[derive(Clone, Debug)]
pub struct RunFileDto {
    pub id: String,
    pub asset_id: String,
    pub original_name: String,
    pub job_id: Option<String>,
    pub effective_language: String,
    pub state: String,
    pub error: Option<String>,
    pub has_transcript: bool,
    pub docx_path: Option<String>,
}

/// A run with its parameters and the counts of its files.
#[derive(Clone, Debug)]
pub struct RunSummaryDto {
    pub id: String,
    pub created_at: String,
    pub model: String,
    pub mode: Option<String>,
    pub default_language: String,
    pub with_diarization: bool,
    pub with_timestamps: bool,
    pub num_speakers: Option<i64>,
    pub aggregate_state: String,
    pub parent_run_id: Option<String>,
    pub total: i64,
    pub done: i64,
    pub failed: i64,
}

/// A run together with its files.
#[derive(Clone, Debug)]
pub struct RunDetailDto {
    pub run: RunSummaryDto,
    pub files: Vec<RunFileDto>,
}

/// Parameters captured when a run is created.
#[derive(Clone, Debug)]
pub struct RunParams {
    pub default_language: String,
    pub model: String,
    pub mode: Option<String>,
    pub with_diarization: bool,
    pub with_timestamps: bool,
    pub num_speakers: Option<i64>,
    pub parent_run_id: Option<String>,
}

/// Everything the job runner needs about one run file.
#[derive(Clone, Debug)]
pub struct RunFileRow {
    pub id: String,
    pub run_id: String,
    pub asset_id: String,
    pub upload_name: String,
    pub stored_path: String,
    pub ext: String,
    pub state: String,
    pub transcript_json_path: Option<String>,
    pub docx_path: Option<String>,
    pub original_name: String,
}

// ---------------------------------------------------------------------------
// Aggregate run state
// ---------------------------------------------------------------------------

/// The state of a run as a whole.
#[derive(PartialEq, Eq, Structural, Clone, Copy, Debug)]
pub enum AggregateState {
    Queued,
    Running,
    Completed,
    Partial,
    Failed,
    Cancelled,
}

pub open spec fn aggregate_name(a: AggregateState) -> Seq<char> {
    match a {
        AggregateState::Queued => "queued"@,
        AggregateState::Running => "running"@,
        AggregateState::Completed => "completed"@,
        AggregateState::Partial => "partial"@,
        AggregateState::Failed => "failed"@,
        AggregateState::Cancelled => "cancelled"@,
    }
}

impl AggregateState {
    /// The name stored in `runs.aggregate_state`.
    pub fn as_str(&self) -> (s: &'static str)
        ensures
            s@ == aggregate_name(*self),
    {
        match self {
            AggregateState::Queued => "queued",
            AggregateState::Running => "running",
            AggregateState::Completed => "completed",
            AggregateState::Partial => "partial",
            AggregateState::Failed => "failed",
            AggregateState::Cancelled => "cancelled",
        }
    }
}

/// How many files of a run are in a given state.
pub open spec fn state_count(states: Seq<Seq<char>>, st: Seq<char>) -> nat {
    states.to_multiset().count(st)
}

/// Files that are neither done, failed nor cancelled: still in flight.
pub open spec fn active_count(states: Seq<Seq<char>>) -> int {
    states.len() - state_count(states, "done"@) - state_count(states, "failed"@) - state_count(
        states,
        "cancelled"@,
    )
}

/// The aggregate state of a run whose files are in `states`.
pub open spec fn aggregate_spec(states: Seq<Seq<char>>) -> AggregateState {
    let total = states.len();
    let done = state_count(states, "done"@);
    let failed = state_count(states, "failed"@);
    let cancelled = state_count(states, "cancelled"@);
    if active_count(states) > 0 {
        AggregateState::Running
    } else if total > 0 && done == total {
        AggregateState::Completed
    } else if done > 0 {
        AggregateState::Partial
    } else if failed > 0 && cancelled == 0 {
        AggregateState::Failed
    } else if cancelled > 0 && failed == 0 {
        AggregateState::Cancelled
    } else if failed > 0 || cancelled > 0 {
        AggregateState::Partial
    } else {
        AggregateState::Queued
    }
}

/// Counts of the files of a run by state.
pub struct StateTally {
    pub total: usize,
    pub done: usize,
    pub failed: usize,
    pub cancelled: usize,
    pub active: usize,
}

impl StateTally {
    pub open spec fn counts(self, states: Seq<Seq<char>>) -> bool {
        &&& self.total == states.len()
        &&& self.done == state_count(states, "done"@)
        &&& self.failed == state_count(states, "failed"@)
        &&& self.cancelled == state_count(states, "cancelled"@)
        &&& self.active == active_count(states)
    }
}

/// Counts the files of a run by state.
pub fn tally_states(states: &Vec<String>) -> (t: StateTally)
    ensures
        t.counts(states.deep_view()),
{
    let ghost views = states.deep_view();
    let mut t = StateTally { total: 0, done: 0, failed: 0, cancelled: 0, active: 0 };
    let mut i: usize = 0;
    assert(views.take(0) =~= Seq::<Seq<char>>::empty());
    assert(views.take(0).to_multiset().len() == 0);
    while i < states.len()
        invariant
            i <= states.len(),
            views == states.deep_view(),
            t.counts(views.take(i as int)),
        decreases states.len() - i,
    {
        proof {
            lemma_state_names_distinct();
        }
        let s = states[i].as_str();
        let ghost prefix = views.take(i as int);
        assert(views.take(i + 1) =~= prefix.push(s@));
        proof {
            lemma_count_push(prefix, s@, "done"@);
            lemma_count_push(prefix, s@, "failed"@);
            lemma_count_push(prefix, s@, "cancelled"@);
        }
        if str_eq(s, F_DONE) {
            t.done = t.done + 1;
        } else if str_eq(s, F_FAILED) {
            t.failed = t.failed + 1;
        } else if str_eq(s, F_CANCELLED) {
            t.cancelled = t.cancelled + 1;
        } else {
            t.active = t.active + 1;
        }
        t.total = t.total + 1;
        i = i + 1;
    }
    assert(views.take(states.len() as int) =~= views);
    t
}

/// The aggregate state that follows from the counts.
pub fn aggregate_of(t: &StateTally) -> (a: AggregateState)
    ensures
        forall|states: Seq<Seq<char>>| #[trigger] t.counts(states) ==> a == aggregate_spec(states),
{
    if t.active > 0 {
        AggregateState::Running
    } else if t.total > 0 && t.done == t.total {
        AggregateState::Completed
    } else if t.done > 0 {
        AggregateState::Partial
    } else if t.failed > 0 && t.cancelled == 0 {
        AggregateState::Failed
    } else if t.cancelled > 0 && t.failed == 0 {
        AggregateState::Cancelled
    } else if t.failed > 0 || t.cancelled > 0 {
        AggregateState::Partial
    } else {
        AggregateState::Queued
    }
}

/// The aggregate state of a run whose files are in `states`.
pub fn aggregate_state(states: &Vec<String>) -> (a: AggregateState)
    ensures
        a == aggregate_spec(states.deep_view()),
{
    let t = tally_states(states);
    aggregate_of(&t)
}

// ---------------------------------------------------------------------------
// Laws of the aggregate state
// ---------------------------------------------------------------------------

/// The aggregate state depends only on which states occur how often, not on
/// the order of the files.
pub proof fn aggregate_ignores_order(a: Seq<Seq<char>>, b: Seq<Seq<char>>)
    requires
        a.to_multiset() == b.to_multiset(),
    ensures
        aggregate_spec(a) == aggregate_spec(b),
{
    assert(a.len() == a.to_multiset().len());
    assert(b.len() == b.to_multiset().len());
}

proof fn lemma_state_names_distinct()
    ensures
        "done"@ != "failed"@,
        "done"@ != "cancelled"@,
        "failed"@ != "cancelled"@,
{
    reveal_strlit("done");
    reveal_strlit("failed");
    reveal_strlit("cancelled");
    assert("done"@.len() != "failed"@.len());
    assert("done"@.len() != "cancelled"@.len());
    assert("failed"@.len() != "cancelled"@.len());
}

proof fn lemma_count_push(p: Seq<Seq<char>>, x: Seq<char>, st: Seq<char>)
    ensures
        state_count(p.push(x), st) == state_count(p, st) + if x == st {
            1nat
        } else {
            0nat
        },
{
    assert(p.push(x).to_multiset() =~= p.to_multiset().insert(x));
}

proof fn lemma_count_le_len(s: Seq<Seq<char>>, st: Seq<char>)
    ensures
        state_count(s, st) <= s.len(),
        state_count(s, st) == s.len() <==> (forall|i: int| 0 <= i < s.len() ==> s[i] == st),
    decreases s.len(),
{
    if s.len() == 0 {
        assert(s.to_multiset().len() == 0);
    } else {
        let p = s.drop_last();
        lemma_count_le_len(p, st);
        assert(p.push(s.last()) =~= s);
        lemma_count_push(p, s.last(), st);
        if state_count(s, st) == s.len() {
            assert forall|i: int| 0 <= i < s.len() implies s[i] == st by {
                if s.last() != st {
                    assert(state_count(s, st) == state_count(p, st));
                } else if i < s.len() - 1 {
                    assert(p[i] == s[i]);
                }
            }
        }
        if forall|i: int| 0 <= i < s.len() ==> s[i] == st {
            assert forall|i: int| 0 <= i < p.len() implies p[i] == st by {
                assert(p[i] == s[i]);
            }
            assert(s[s.len() - 1] == st);
        }
    }
}

proof fn lemma_counts_distinct(s: Seq<Seq<char>>)
    ensures
        state_count(s, "done"@) + state_count(s, "failed"@) + state_count(s, "cancelled"@)
            <= s.len(),
        active_count(s) > 0 <==> exists|i: int|
            0 <= i < s.len() && s[i] != "done"@ && s[i] != "failed"@ && s[i] != "cancelled"@,
    decreases s.len(),
{
    lemma_state_names_distinct();
    if s.len() == 0 {
        assert(s.to_multiset().len() == 0);
        assert(s.to_multiset() =~= vstd::multiset::Multiset::empty());
        assert(state_count(s, "done"@) == 0);
        assert(active_count(s) == 0);
    } else {
        let p = s.drop_last();
        lemma_counts_distinct(p);
        assert(p.push(s.last()) =~= s);
        lemma_count_push(p, s.last(), "done"@);
        lemma_count_push(p, s.last(), "failed"@);
        lemma_count_push(p, s.last(), "cancelled"@);
        let x = s.last();
        assert(state_count(s, "done"@) + state_count(s, "failed"@) + state_count(s, "cancelled"@)
            <= s.len());
        if exists|i: int|
            0 <= i < s.len() && s[i] != "done"@ && s[i] != "failed"@ && s[i] != "cancelled"@ {
            let i = choose|i: int|
                0 <= i < s.len() && s[i] != "done"@ && s[i] != "failed"@ && s[i] != "cancelled"@;
            if i < s.len() - 1 {
                assert(p[i] == s[i]);
            }
        }
        if exists|i: int|
            0 <= i < p.len() && p[i] != "done"@ && p[i] != "failed"@ && p[i] != "cancelled"@ {
            let i = choose|i: int|
                0 <= i < p.len() && p[i] != "done"@ && p[i] != "failed"@ && p[i] != "cancelled"@;
            assert(s[i] == p[i]);
        }
    }
}

/// A run is completed exactly when it has files and every one of them is done.
pub proof fn completed_iff_all_done(states: Seq<Seq<char>>)
    ensures
        aggregate_spec(states) == AggregateState::Completed <==> (states.len() > 0 && forall|
            i: int,
        | 0 <= i < states.len() ==> states[i] == "done"@),
{
    lemma_count_le_len(states, "done"@);
    lemma_counts_distinct(states);
}

/// A run is running exactly when one of its files is still in flight
/// (in a state other than done, failed and cancelled).
pub proof fn running_iff_some_in_flight(states: Seq<Seq<char>>)
    ensures
        aggregate_spec(states) == AggregateState::Running <==> exists|i: int|
            0 <= i < states.len() && states[i] != "done"@ && states[i] != "failed"@ && states[i]
                != "cancelled"@,
{
    lemma_counts_distinct(states);
}

/// A run without files is queued.
pub proof fn empty_run_is_queued()
    ensures
        aggregate_spec(Seq::<Seq<char>>::empty()) == AggregateState::Queued,
{
    assert(Seq::<Seq<char>>::empty().to_multiset().len() == 0);
}


proof fn lemma_count_pos(s: Seq<Seq<char>>, st: Seq<char>)
    ensures
        state_count(s, st) > 0 <==> exists|i: int| 0 <= i < s.len() && s[i] == st,
    decreases s.len(),
{
    if s.len() == 0 {
        assert(s.to_multiset() =~= vstd::multiset::Multiset::empty());
    } else {
        let p = s.drop_last();
        lemma_count_pos(p, st);
        assert(p.push(s.last()) =~= s);
        lemma_count_push(p, s.last(), st);
        if exists|i: int| 0 <= i < p.len() && p[i] == st {
            let i = choose|i: int| 0 <= i < p.len() && p[i] == st;
            assert(s[i] == p[i]);
        }
        if exists|i: int| 0 <= i < s.len() && s[i] == st {
            let i = choose|i: int| 0 <= i < s.len() && s[i] == st;
            if i < s.len() - 1 {
                assert(p[i] == s[i]);
            }
        }
    }
}

/// Every file of the run is done, failed or cancelled.
pub open spec fn settled(s: Seq<Seq<char>>) -> bool {
    forall|i: int| 0 <= i < s.len() ==> #[trigger] s[i] == "done"@ || s[i] == "failed"@ || s[i] == "cancelled"@
}

proof fn lemma_all_counts(s: Seq<Seq<char>>)
    ensures
        settled(s) <==> active_count(s) == 0,
        state_count(s, "done"@) > 0 <==> exists|i: int| 0 <= i < s.len() && s[i] == "done"@,
        state_count(s, "failed"@) > 0 <==> exists|i: int| 0 <= i < s.len() && s[i] == "failed"@,
        state_count(s, "cancelled"@) > 0 <==> exists|i: int| 0 <= i < s.len() && s[i] == "cancelled"@,
        state_count(s, "done"@) == s.len() <==> (forall|i: int| 0 <= i < s.len() ==> s[i] == "done"@),
        state_count(s, "failed"@) == s.len() <==> (forall|i: int| 0 <= i < s.len() ==> s[i] == "failed"@),
        state_count(s, "cancelled"@) == s.len() <==> (forall|i: int| 0 <= i < s.len() ==> s[i] == "cancelled"@),
        state_count(s, "done"@) + state_count(s, "failed"@) + state_count(s, "cancelled"@) <= s.len(),
{
    lemma_state_names_distinct();
    lemma_counts_distinct(s);
    lemma_count_pos(s, "done"@);
    lemma_count_pos(s, "failed"@);
    lemma_count_pos(s, "cancelled"@);
    lemma_count_le_len(s, "done"@);
    lemma_count_le_len(s, "failed"@);
    lemma_count_le_len(s, "cancelled"@);
    if active_count(s) > 0 {
        let i = choose|i: int|
            0 <= i < s.len() && s[i] != "done"@ && s[i] != "failed"@ && s[i] != "cancelled"@;
        assert(!settled(s));
    }
}

/// A run with no file in flight, some file done and not every file done is
/// partial: a run that produced some transcripts is never reported as failed
/// or cancelled.
pub proof fn some_done_is_partial(states: Seq<Seq<char>>)
    requires
        settled(states),
        exists|i: int| 0 <= i < states.len() && states[i] == "done"@,
        exists|j: int| 0 <= j < states.len() && states[j] != "done"@,
    ensures
        aggregate_spec(states) == AggregateState::Partial,
{
    lemma_all_counts(states);
    let j = choose|j: int| 0 <= j < states.len() && states[j] != "done"@;
}

/// A run is cancelled exactly when it has files and all of them are cancelled.
pub proof fn cancelled_iff_all_cancelled(states: Seq<Seq<char>>)
    ensures
        aggregate_spec(states) == AggregateState::Cancelled <==> (states.len() > 0 && forall|i: int|
            0 <= i < states.len() ==> states[i] == "cancelled"@),
{
    lemma_all_counts(states);
    lemma_state_names_distinct();
    if states.len() > 0 && forall|i: int| 0 <= i < states.len() ==> states[i] == "cancelled"@ {
        assert(states[0] == "cancelled"@);
    }
}

/// A run is failed exactly when it has files and all of them are failed.
pub proof fn failed_iff_all_failed(states: Seq<Seq<char>>)
    ensures
        aggregate_spec(states) == AggregateState::Failed <==> (states.len() > 0 && forall|i: int|
            0 <= i < states.len() ==> states[i] == "failed"@),
{
    lemma_all_counts(states);
    lemma_state_names_distinct();
    if states.len() > 0 && forall|i: int| 0 <= i < states.len() ==> states[i] == "failed"@ {
        assert(states[0] == "failed"@);
    }
}

/// A run is partial exactly when no file is in flight and its files did not
/// all end the same way.
pub proof fn partial_iff_settled_and_mixed(states: Seq<Seq<char>>)
    ensures
        aggregate_spec(states) == AggregateState::Partial <==> (settled(states) && exists|i: int, j: int|
            0 <= i < states.len() && 0 <= j < states.len() && states[i] != states[j]),
{
    lemma_all_counts(states);
    lemma_state_names_distinct();
    if settled(states) && exists|i: int, j: int|
        0 <= i < states.len() && 0 <= j < states.len() && states[i] != states[j] {
        let (i, j) = choose|i: int, j: int|
            0 <= i < states.len() && 0 <= j < states.len() && states[i] != states[j];
        assert(states[i] == "done"@ || states[i] == "failed"@ || states[i] == "cancelled"@);
        assert(states[j] == "done"@ || states[j] == "failed"@ || states[j] == "cancelled"@);
    }
    if aggregate_spec(states) == AggregateState::Partial {
        assert(states.len() > 0);
        if forall|i: int, j: int| 0 <= i < states.len() && 0 <= j < states.len() ==> states[i] == states[j] {
            let x = states[0];
            assert(forall|i: int| 0 <= i < states.len() ==> states[i] == x);
            assert(x == "done"@ || x == "failed"@ || x == "cancelled"@);
        }
    }
}

} // verus!
