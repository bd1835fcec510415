use vstd::prelude::*;

verus! {

/// The HTTP status of a successful request.
pub const STATUS_OK: u16 = 200;

/// How many times a source's page is asked for again after a failed
/// answer, at most.
pub const MAX_RETRIES: u8 = 3;

/// What to do with the answer just received.
#[derive(Clone, Copy, Debug, PartialEq, Eq, Structural)]
pub enum FetchStep {
    /// Read this answer.
    Use,
    /// Ask again, wait a second, and decide on the new answer with the
    /// given number of retries made.
    Retry { retries: u8 },
}

/// The decision on an answer with status `status` after `retries` retries:
/// an answer is read when it succeeded or when no retry is left.
pub open spec fn step_spec(retries: u8, status: u16) -> FetchStep {
    if status == STATUS_OK || retries >= MAX_RETRIES {
        FetchStep::Use
    } else {
        FetchStep::Retry { retries: (retries + 1) as u8 }
    }
}

/// Decides what to do with an answer, given the retries made so far.
pub fn fetch_step(retries: u8, status: u16) -> (r: FetchStep)
    requires
        retries <= MAX_RETRIES,
    ensures
        r == step_spec(retries, status),
{
    if status == STATUS_OK || retries >= MAX_RETRIES {
        FetchStep::Use
    } else {
        FetchStep::Retry { retries: retries + 1 }
    }
}

/// The position, among the answers with the given statuses received one
/// after another from `retries` retries on, of the answer that is read.
pub open spec fn answer_read(statuses: Seq<u16>, retries: u8) -> int
    decreases statuses.len(),
{
    if statuses.len() == 0 {
        0
    } else {
        match step_spec(retries, statuses[0]) {
            FetchStep::Use => 0,
            FetchStep::Retry { retries: next } => 1 + answer_read(statuses.drop_first(), next),
        }
    }
}

proof fn lemma_answer_read(statuses: Seq<u16>, retries: u8)
    requires
        retries <= MAX_RETRIES,
        statuses.len() > MAX_RETRIES - retries,
    ensures
        0 <= answer_read(statuses, retries) <= MAX_RETRIES - retries,
        statuses[answer_read(statuses, retries)] == STATUS_OK || answer_read(statuses, retries) == MAX_RETRIES - retries,
        forall|j: int| 0 <= j < answer_read(statuses, retries) ==> statuses[j] != STATUS_OK,
    decreases statuses.len(),
{
    if step_spec(retries, statuses[0]) != FetchStep::Use {
        let rest = statuses.drop_first();
        lemma_answer_read(rest, (retries + 1) as u8);
        let k = answer_read(rest, (retries + 1) as u8);
        assert(statuses[k + 1] == rest[k]);
        assert forall|j: int| 0 <= j < answer_read(statuses, retries) implies statuses[j] != STATUS_OK by {
            if j > 0 {
                assert(statuses[j] == rest[j - 1]);
            }
        }
    }
}

/// A page is asked for at most four times: whatever the statuses of the
/// answers, the answer read is the first successful one among the first
/// four, or the fourth when none of them succeeded.
pub proof fn law_at_most_four_requests(statuses: Seq<u16>)
    requires
        statuses.len() >= 4,
    ensures
        0 <= answer_read(statuses, 0) < 4,
        statuses[answer_read(statuses, 0)] == STATUS_OK || answer_read(statuses, 0) == 3,
        forall|j: int| 0 <= j < answer_read(statuses, 0) ==> statuses[j] != STATUS_OK,
{
    lemma_answer_read(statuses, 0);
}

} // verus!
