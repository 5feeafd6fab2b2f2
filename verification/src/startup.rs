//! Decisions of the program around its server: retries of builds, and reloads of the cookbook.
use vstd::prelude::*;
use crate::text::same;

verus! {

/// The delays before the retries of the first build, in seconds. They cover about the first
/// twenty minutes, in which the network may still come up.
pub fn initial_build_retry_delays() -> (r: Vec<u64>)
    ensures
        r@ == seq![10u64, 30, 60, 120, 300, 600],
{
    let r: Vec<u64> = vec![10, 30, 60, 120, 300, 600];
    assert(r@ =~= seq![10u64, 30, 60, 120, 300, 600]);
    r
}

/// The delays before the retries of a scheduled update, in seconds.
pub fn scheduled_update_retry_delays() -> (r: Vec<u64>)
    ensures
        r@ == seq![30u64, 120, 300],
        r@.len() > 0,
{
    let r: Vec<u64> = vec![30, 120, 300];
    assert(r@ =~= seq![30u64, 120, 300]);
    r
}

/// What to do after an attempt.
#[derive(Debug, Clone, Copy, PartialEq, Eq, Structural)]
pub enum RetryStep {
    Succeeded,
    /// Wait so many seconds, and try again if that is still wanted.
    RetryAfter { seconds: u64 },
    /// There are no more attempts.
    Exhausted,
}

/// What comes after an attempt, before which `failures` had failed: as long as there are delays,
/// another one.
pub open spec fn retry_step(ok: bool, failures: nat, delays: Seq<u64>) -> RetryStep {
    if ok {
        RetryStep::Succeeded
    } else if failures < delays.len() {
        RetryStep::RetryAfter { seconds: delays[failures as int] }
    } else {
        RetryStep::Exhausted
    }
}

/// Decides what to do after an attempt, before which `failures` had failed.
pub fn after_attempt(ok: bool, failures: usize, delays: &Vec<u64>) -> (r: RetryStep)
    ensures
        r == retry_step(ok, failures as nat, delays@),
{
    if ok {
        RetryStep::Succeeded
    } else if failures < delays.len() {
        RetryStep::RetryAfter { seconds: delays[failures] }
    } else {
        RetryStep::Exhausted
    }
}

/// Whether the first build is still wanted: no other path has swapped the binary since. A later
/// failure of that path does not bring it back.
pub fn first_build_wanted(startup_generation: u64, generation: u64) -> (r: bool)
    ensures
        r == (generation <= startup_generation),
{
    generation <= startup_generation
}

/// What happened to files.
#[derive(Debug, Clone, Copy, PartialEq, Eq, Structural)]
pub enum FileChange {
    Created,
    Removed,
    DataModified,
    Renamed,
    ModifiedSomehow,
    MetadataModified,
    Other,
}

/// Whether a change is one of contents. Changes of permissions and times are not.
pub open spec fn changes_contents(change: FileChange) -> bool {
    change == FileChange::Created || change == FileChange::Removed || change
        == FileChange::DataModified || change == FileChange::Renamed || change
        == FileChange::ModifiedSomehow
}

/// Whether a name is among some that may be missing.
pub open spec fn names_file(names: Seq<Option<String>>, name: Seq<char>) -> bool {
    exists|i: int| 0 <= i < names.len() && #[trigger] names[i] is Some && names[i]->0@ == name
}

/// Whether the cookbook has to be read again after a change of files in its directory.
pub fn reload_wanted(names: &Vec<Option<String>>, cookbook: &str, change: FileChange) -> (r: bool)
    ensures
        r == (names_file(names@, cookbook@) && changes_contents(change)),
{
    let contents = match change {
        FileChange::Created => true,
        FileChange::Removed => true,
        FileChange::DataModified => true,
        FileChange::Renamed => true,
        FileChange::ModifiedSomehow => true,
        FileChange::MetadataModified => false,
        FileChange::Other => false,
    };
    let mut i: usize = 0;
    while i < names.len()
        invariant
            i <= names@.len(),
            contents == changes_contents(change),
            forall|j: int|
                0 <= j < i ==> !(#[trigger] names@[j] is Some && names@[j]->0@ == cookbook@),
        decreases names@.len() - i,
    {
        if let Some(name) = &names[i] {
            if same(name.as_str(), cookbook) {
                assert(names@[i as int] is Some && names@[i as int]->0@ == cookbook@);
                return contents;
            }
        }
        i = i + 1;
    }
    false
}

/// Attempts that fail are made once more than there are delays, and no more: the last failure ends
/// them, and none before it.
pub proof fn law_attempts_bounded(failures: nat, delays: Seq<u64>)
    ensures
        retry_step(false, failures, delays) is RetryAfter <==> failures < delays.len(),
        retry_step(false, failures, delays) is Exhausted <==> failures >= delays.len(),
{
}

/// After a success there is no other attempt, and after a failure the wait is the one that stands
/// at the number of failures before it.
pub proof fn law_waits_in_order(failures: nat, delays: Seq<u64>, seconds: u64)
    ensures
        retry_step(true, failures, delays) == RetryStep::Succeeded,
        retry_step(false, failures, delays) != RetryStep::Succeeded,
        retry_step(false, failures, delays) == (RetryStep::RetryAfter { seconds }) <==> failures
            < delays.len() && delays[failures as int] == seconds,
        retry_step(false, delays.len(), delays.push(seconds)) == (RetryStep::RetryAfter { seconds }),
        failures < delays.len() ==> retry_step(false, failures, delays.push(seconds)) == retry_step(
            false,
            failures,
            delays,
        ),
{
}

/// Every change of files counts but one of their metadata and one that is not known.
pub proof fn law_which_changes_count(change: FileChange)
    ensures
        !changes_contents(change) <==> change == FileChange::MetadataModified || change
            == FileChange::Other,
{
}

/// A file is named among some names exactly if it is one of those that are there.
pub proof fn law_named_among(names: Seq<Option<String>>, other: Option<String>, name: Seq<char>)
    ensures
        !names_file(Seq::empty(), name),
        names_file(names.push(other), name) <==> names_file(names, name) || other is Some
            && other->0@ == name,
{
    let more = names.push(other);
    if names_file(more, name) {
        let i = choose|i: int|
            0 <= i < more.len() && #[trigger] more[i] is Some && more[i]->0@ == name;
        if i < names.len() {
            assert(names[i] is Some && names[i]->0@ == name);
        }
    }
    if names_file(names, name) {
        let i = choose|i: int|
            0 <= i < names.len() && #[trigger] names[i] is Some && names[i]->0@ == name;
        assert(more[i] is Some && more[i]->0@ == name);
    }
    if other is Some && other->0@ == name {
        assert(more[names.len() as int] is Some);
    }
}

} // verus!
