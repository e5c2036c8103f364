use vstd::prelude::*;

verus! {

// The buffer-sizing retry policy for the platform whose enumeration
// call works into a caller-supplied buffer. The required size is racy:
// the interface table can change between the sizing call and the data
// call, so a too-small buffer is reported as an overflow together with
// a new required size. The policy below retries with a grown buffer a
// bounded number of times and then gives up; the caller performs the
// native calls and feeds each reply back in.

/// How many native calls one enumeration may make in all.
pub const MAX_ATTEMPTS: u8 = 10;

/// The initial buffer-size guess, in bytes.
pub const INITIAL_SIZE: u32 = 1000;

/// What one native call reported.
#[derive(Clone, Copy, Debug, PartialEq, Eq, Structural)]
pub enum SizingReply {
    /// The call succeeded: the buffer held the whole table.
    Done,
    /// The buffer was too small; the table currently needs this many
    /// bytes.
    Overflow(u32),
    /// The call failed for any other reason.
    Failed,
}

/// What the caller must do after a reply.
#[derive(Clone, Copy, Debug, PartialEq, Eq, Structural)]
pub enum SizingAction {
    /// Call again with a buffer of the state's (grown) size.
    Retry,
    /// The buffer is complete: decode it.
    Finish,
    /// Give up; the whole enumeration fails with no partial result.
    Fail,
}

/// The retry state: how many calls may still be made, and how large the
/// next buffer must be.
#[derive(Clone, Copy, Debug, PartialEq, Eq, Structural)]
pub struct SizingState {
    pub attempts_left: u8,
    pub size: u32,
}

/// What one step does: success finishes; an overflow that reports a
/// positive required size, while more than one call remains, spends an
/// attempt and grows the buffer to at least that size; anything else
/// fails.
pub open spec fn spec_sizing_step(st: SizingState, reply: SizingReply) -> (SizingState,
SizingAction) {
    match reply {
        SizingReply::Done => (st, SizingAction::Finish),
        SizingReply::Overflow(need) => if need > 0 && st.attempts_left > 1 {
            (
                SizingState {
                    attempts_left: (st.attempts_left - 1) as u8,
                    size: if need > st.size {
                        need
                    } else {
                        st.size
                    },
                },
                SizingAction::Retry,
            )
        } else {
            (st, SizingAction::Fail)
        },
        SizingReply::Failed => (st, SizingAction::Fail),
    }
}

/// The state before any call: the full attempt budget and the initial
/// size guess.
pub fn sizing_init() -> (st: SizingState)
    ensures
        st == (SizingState { attempts_left: MAX_ATTEMPTS, size: INITIAL_SIZE }),
{
    SizingState { attempts_left: MAX_ATTEMPTS, size: INITIAL_SIZE }
}

/// Feed one native reply into the policy.
pub fn sizing_step(st: &mut SizingState, reply: SizingReply) -> (act: SizingAction)
    ensures
        (*final(st), act) == spec_sizing_step(*old(st), reply),
        act is Finish <==> reply is Done,
        act is Retry <==> (reply is Overflow && reply->Overflow_0 > 0 && old(st).attempts_left
            > 1),
        act is Retry ==> final(st).attempts_left == old(st).attempts_left - 1 && final(st).size
            >= reply->Overflow_0 && final(st).size >= old(st).size,
        !(act is Retry) ==> *final(st) == *old(st),
{
    match reply {
        SizingReply::Done => SizingAction::Finish,
        SizingReply::Overflow(need) => {
            if need > 0 && st.attempts_left > 1 {
                st.attempts_left = st.attempts_left - 1;
                if need > st.size {
                    st.size = need;
                }
                SizingAction::Retry
            } else {
                SizingAction::Fail
            }
        },
        SizingReply::Failed => SizingAction::Fail,
    }
}

/// How many native calls a whole run makes when the replies come as
/// given: the first call, plus one more per retry the policy orders.
pub open spec fn spec_run_calls(st: SizingState, replies: Seq<SizingReply>) -> int
    decreases replies.len(),
{
    if replies.len() == 0 {
        1
    } else {
        let stepped = spec_sizing_step(st, replies.first());
        if stepped.1 is Retry {
            1 + spec_run_calls(stepped.0, replies.drop_first())
        } else {
            1
        }
    }
}

/// How a whole run ends: the first non-retry action, or `Retry` when
/// the reply sequence runs out with the policy still asking for calls.
pub open spec fn spec_run_result(st: SizingState, replies: Seq<SizingReply>) -> SizingAction
    decreases replies.len(),
{
    if replies.len() == 0 {
        SizingAction::Retry
    } else {
        let stepped = spec_sizing_step(st, replies.first());
        if stepped.1 is Retry {
            spec_run_result(stepped.0, replies.drop_first())
        } else {
            stepped.1
        }
    }
}

/// The retry bound holds: however the native calls reply, a run from a
/// state with `n` attempts left makes at most `n` calls.
pub proof fn lemma_run_bounded(st: SizingState, replies: Seq<SizingReply>)
    requires
        st.attempts_left >= 1,
    ensures
        spec_run_calls(st, replies) <= st.attempts_left,
    decreases replies.len(),
{
    if replies.len() > 0 {
        let stepped = spec_sizing_step(st, replies.first());
        if stepped.1 is Retry {
            lemma_run_bounded(stepped.0, replies.drop_first());
        }
    }
}

/// From the initial state, no reply sequence makes more than
/// `MAX_ATTEMPTS` native calls.
pub proof fn lemma_run_bounded_from_init(replies: Seq<SizingReply>)
    ensures
        spec_run_calls(SizingState { attempts_left: MAX_ATTEMPTS, size: INITIAL_SIZE }, replies)
            <= MAX_ATTEMPTS,
{
    lemma_run_bounded(SizingState { attempts_left: MAX_ATTEMPTS, size: INITIAL_SIZE }, replies);
}

/// When the overflow persists — every reply keeps reporting a too-small
/// buffer — a run with enough replies ends in failure, never in a
/// partial result.
pub proof fn lemma_persistent_overflow_fails(st: SizingState, replies: Seq<SizingReply>)
    requires
        st.attempts_left >= 1,
        replies.len() >= st.attempts_left,
        forall|k: int| 0 <= k < replies.len() ==> (#[trigger] replies[k]) is Overflow,
    ensures
        spec_run_result(st, replies) == SizingAction::Fail,
    decreases replies.len(),
{
    let stepped = spec_sizing_step(st, replies.first());
    if stepped.1 is Retry {
        assert(forall|k: int|
            0 <= k < replies.drop_first().len() ==> (#[trigger] replies.drop_first()[k])
                is Overflow);
        lemma_persistent_overflow_fails(stepped.0, replies.drop_first());
    }
}

} // verus!
