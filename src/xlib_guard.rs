//! Arbitration of access to a rendering backend that is not thread-safe
//! unless a one-time, irreversible threading initialization ran before any
//! use: exclusive handles while single-threaded, shareable handles once the
//! initialization is done, never a switch from the first to the second.
use vstd::prelude::*;
use std::sync::atomic::AtomicU8;
use std::sync::atomic::Ordering;

verus! {

/// The mode of the backend.
#[derive(Clone, Copy, Debug, PartialEq, Eq, Structural)]
pub enum XlibHandleState {
    /// No handle issued yet.
    Unchosen,
    /// One exclusive handle is live.
    SingleThreaded,
    /// An exclusive handle was issued and released; no threading setup.
    ExSingleThreaded,
    /// The threading setup is under way.
    MultiThreadedPending,
    /// The threading setup is done, for good.
    MultiThreaded,
}

impl XlibHandleState {
    pub open spec fn spec_code(self) -> u8 {
        match self {
            XlibHandleState::Unchosen => 0,
            XlibHandleState::SingleThreaded => 1,
            XlibHandleState::ExSingleThreaded => 2,
            XlibHandleState::MultiThreadedPending => 3,
            XlibHandleState::MultiThreaded => 4,
        }
    }

    /// The number that stands for the state in the register.
    pub fn code(self) -> (r: u8)
        ensures
            r == self.spec_code(),
    {
        match self {
            XlibHandleState::Unchosen => 0,
            XlibHandleState::SingleThreaded => 1,
            XlibHandleState::ExSingleThreaded => 2,
            XlibHandleState::MultiThreadedPending => 3,
            XlibHandleState::MultiThreaded => 4,
        }
    }

    pub open spec fn spec_from_code(v: u8) -> Option<XlibHandleState> {
        if v == 0 {
            Some(XlibHandleState::Unchosen)
        } else if v == 1 {
            Some(XlibHandleState::SingleThreaded)
        } else if v == 2 {
            Some(XlibHandleState::ExSingleThreaded)
        } else if v == 3 {
            Some(XlibHandleState::MultiThreadedPending)
        } else if v == 4 {
            Some(XlibHandleState::MultiThreaded)
        } else {
            None
        }
    }

    /// The state a register value stands for; values above 4 stand for none.
    pub fn from_code(v: u8) -> (r: Option<XlibHandleState>)
        ensures
            r == Self::spec_from_code(v),
            r is Some <==> v < 5,
            r matches Some(s) ==> s.spec_code() == v,
    {
        match v {
            0 => Some(XlibHandleState::Unchosen),
            1 => Some(XlibHandleState::SingleThreaded),
            2 => Some(XlibHandleState::ExSingleThreaded),
            3 => Some(XlibHandleState::MultiThreadedPending),
            4 => Some(XlibHandleState::MultiThreaded),
            _ => None,
        }
    }
}

/// What a request for an exclusive handle gets.
#[derive(Clone, Copy, Debug, PartialEq, Eq, Structural)]
pub enum Exclusive {
    Granted,
    /// Busy: one exclusive handle is out, or a race was lost.
    Unavailable,
    /// The threading setup is under way; ask again.
    Wait,
}

/// What a request for a shareable handle gets.
#[derive(Clone, Copy, Debug, PartialEq, Eq, Structural)]
pub enum Shared {
    Granted,
    /// The caller must run the threading setup, then report it done.
    Initialize,
    /// Another caller runs the threading setup; ask again.
    Wait,
    /// The backend was already used single-threaded: a contract violation.
    Illegal,
}

/// One request made of the guard.
#[derive(Clone, Copy, Debug, PartialEq, Eq, Structural)]
pub enum GuardEvent {
    AcquireExclusive,
    ReleaseExclusive,
    AcquireShared,
    InitializationDone,
}

pub open spec fn exclusive_transition(s: XlibHandleState) -> (XlibHandleState, Exclusive) {
    match s {
        XlibHandleState::Unchosen => (XlibHandleState::SingleThreaded, Exclusive::Granted),
        XlibHandleState::SingleThreaded => (s, Exclusive::Unavailable),
        XlibHandleState::ExSingleThreaded => (XlibHandleState::SingleThreaded, Exclusive::Granted),
        XlibHandleState::MultiThreadedPending => (s, Exclusive::Wait),
        XlibHandleState::MultiThreaded => (s, Exclusive::Granted),
    }
}

pub open spec fn shared_transition(s: XlibHandleState) -> (XlibHandleState, Shared) {
    match s {
        XlibHandleState::Unchosen => (XlibHandleState::MultiThreadedPending, Shared::Initialize),
        XlibHandleState::MultiThreadedPending => (s, Shared::Wait),
        XlibHandleState::MultiThreaded => (s, Shared::Granted),
        _ => (s, Shared::Illegal),
    }
}

pub open spec fn release_transition(s: XlibHandleState) -> XlibHandleState {
    match s {
        XlibHandleState::SingleThreaded => XlibHandleState::ExSingleThreaded,
        _ => s,
    }
}

pub open spec fn initialized_transition(s: XlibHandleState) -> XlibHandleState {
    match s {
        XlibHandleState::MultiThreadedPending => XlibHandleState::MultiThreaded,
        _ => s,
    }
}

pub open spec fn step(s: XlibHandleState, e: GuardEvent) -> XlibHandleState {
    match e {
        GuardEvent::AcquireExclusive => exclusive_transition(s).0,
        GuardEvent::ReleaseExclusive => release_transition(s),
        GuardEvent::AcquireShared => shared_transition(s).0,
        GuardEvent::InitializationDone => initialized_transition(s),
    }
}

/// The state after a sequence of requests, one at a time.
pub open spec fn run(s: XlibHandleState, events: Seq<GuardEvent>) -> XlibHandleState
    decreases events.len(),
{
    if events.len() == 0 {
        s
    } else {
        run(step(s, events[0]), events.drop_first())
    }
}

/// The decision for an exclusive request made in state `s`.
pub fn exclusive_step(s: XlibHandleState) -> (r: (XlibHandleState, Exclusive))
    ensures
        r == exclusive_transition(s),
{
    match s {
        XlibHandleState::Unchosen => (XlibHandleState::SingleThreaded, Exclusive::Granted),
        XlibHandleState::SingleThreaded => (s, Exclusive::Unavailable),
        XlibHandleState::ExSingleThreaded => (XlibHandleState::SingleThreaded, Exclusive::Granted),
        XlibHandleState::MultiThreadedPending => (s, Exclusive::Wait),
        XlibHandleState::MultiThreaded => (s, Exclusive::Granted),
    }
}

/// The decision for a shareable request made in state `s`.
pub fn shared_step(s: XlibHandleState) -> (r: (XlibHandleState, Shared))
    ensures
        r == shared_transition(s),
{
    match s {
        XlibHandleState::Unchosen => (XlibHandleState::MultiThreadedPending, Shared::Initialize),
        XlibHandleState::MultiThreadedPending => (s, Shared::Wait),
        XlibHandleState::MultiThreaded => (s, Shared::Granted),
        _ => (s, Shared::Illegal),
    }
}

/// What the first compare-and-swap of an exclusive request decides.
#[derive(Clone, Copy, Debug, PartialEq, Eq, Structural)]
pub enum ClaimStep {
    /// Grant a handle; the register shows the state it was granted in.
    Grant(XlibHandleState),
    Refuse,
    Wait,
    /// Swap the register from the first state to the second, then decide.
    Swap(XlibHandleState, XlibHandleState),
}

pub open spec fn spec_exclusive_claim(first: Result<u8, u8>) -> ClaimStep {
    match first {
        Ok(_) => ClaimStep::Grant(XlibHandleState::Unchosen),
        Err(v) => match XlibHandleState::spec_from_code(v) {
            None => ClaimStep::Refuse,
            Some(s) => {
                let (next, outcome) = exclusive_transition(s);
                match outcome {
                    Exclusive::Granted => if next == s {
                        ClaimStep::Grant(s)
                    } else {
                        ClaimStep::Swap(s, next)
                    },
                    Exclusive::Unavailable => ClaimStep::Refuse,
                    Exclusive::Wait => ClaimStep::Wait,
                }
            },
        },
    }
}

/// Decides an exclusive request from the result of swapping the register
/// from `Unchosen` to `SingleThreaded`: success grants; otherwise the state
/// seen decides by the transition table, and a grant that changes the state
/// takes a second swap.
pub fn exclusive_claim(first: Result<u8, u8>) -> (r: ClaimStep)
    ensures
        r == spec_exclusive_claim(first),
{
    match first {
        Ok(_) => ClaimStep::Grant(XlibHandleState::Unchosen),
        Err(v) => match XlibHandleState::from_code(v) {
            None => ClaimStep::Refuse,
            Some(s) => {
                let (next, outcome) = exclusive_step(s);
                match outcome {
                    Exclusive::Granted => if next == s {
                        ClaimStep::Grant(s)
                    } else {
                        ClaimStep::Swap(s, next)
                    },
                    Exclusive::Unavailable => ClaimStep::Refuse,
                    Exclusive::Wait => ClaimStep::Wait,
                }
            },
        },
    }
}

pub open spec fn spec_swap_outcome(second: Result<u8, u8>) -> Exclusive {
    match second {
        Ok(_) => Exclusive::Granted,
        Err(v) => if v == XlibHandleState::SingleThreaded.spec_code() || v >= 5 {
            Exclusive::Unavailable
        } else {
            Exclusive::Wait
        },
    }
}

/// Decides an exclusive request from the result of its second swap: success
/// grants; a lost race to another exclusive request is refused, not
/// retried; any other change of state asks for a new attempt.
pub fn swap_outcome(second: Result<u8, u8>) -> (r: Exclusive)
    ensures
        r == spec_swap_outcome(second),
{
    match second {
        Ok(_) => Exclusive::Granted,
        Err(v) => if v == XlibHandleState::SingleThreaded.code() || v >= 5 {
            Exclusive::Unavailable
        } else {
            Exclusive::Wait
        },
    }
}

pub open spec fn spec_shared_claim(first: Result<u8, u8>) -> Shared {
    match first {
        Ok(_) => Shared::Initialize,
        Err(v) => match XlibHandleState::spec_from_code(v) {
            None => Shared::Illegal,
            Some(s) => match shared_transition(s).1 {
                Shared::Initialize => Shared::Wait,
                other => other,
            },
        },
    }
}

/// Decides a shareable request from the result of swapping the register
/// from `Unchosen` to `MultiThreadedPending`: success wins the threading
/// setup; otherwise the state seen decides by the transition table (a value
/// that stands for no state is illegal).
pub fn shared_claim(first: Result<u8, u8>) -> (r: Shared)
    ensures
        r == spec_shared_claim(first),
{
    match first {
        Ok(_) => Shared::Initialize,
        Err(v) => match XlibHandleState::from_code(v) {
            None => Shared::Illegal,
            Some(s) => match shared_step(s).1 {
                Shared::Initialize => Shared::Wait,
                other => other,
            },
        },
    }
}

/// The process-wide register of the backend's mode, changed only by
/// compare-and-swap.
#[derive(Debug)]
pub struct SurfaceGuard {
    state: AtomicU8,
}

/// An exclusive handle: at most one is live outside multithreaded mode.
#[derive(Debug)]
pub struct XlibHandle {
    granted_in: XlibHandleState,
}

/// A shareable handle, issued once the threading setup is done.
#[derive(Clone, Copy, Debug)]
pub struct XlibThreadedHandle {
    granted_in: XlibHandleState,
}

/// Proof that the holder won the right to run the threading setup.
#[derive(Debug)]
pub struct InitToken {
    claimed_from: XlibHandleState,
}

/// The answer to an exclusive request.
#[derive(Debug)]
pub enum Acquisition {
    Acquired(XlibHandle),
    Unavailable,
    Pending,
}

/// The answer to a shareable request.
#[derive(Debug)]
pub enum SharedAcquisition {
    Acquired(XlibThreadedHandle),
    MustInitialize(InitToken),
    Pending,
    Illegal,
}

impl XlibHandle {
    pub closed spec fn spec_granted_in(&self) -> XlibHandleState {
        self.granted_in
    }

    /// The state in which the handle was granted.
    pub fn granted_in(&self) -> (r: XlibHandleState)
        ensures
            r == self.spec_granted_in(),
    {
        self.granted_in
    }

    /// Requests an exclusive handle. It is granted from `Unchosen`, from
    /// `ExSingleThreaded` when the swap back to `SingleThreaded` wins, and in
    /// `MultiThreaded`; refused while one is out or when that swap loses;
    /// pending while the threading setup runs. A lost swap is not retried.
    pub fn new(guard: &SurfaceGuard) -> (r: Acquisition)
        ensures
            r matches Acquisition::Acquired(h) ==> {
                &&& exclusive_transition(h.spec_granted_in()).1 == Exclusive::Granted
                &&& h.spec_granted_in() != XlibHandleState::SingleThreaded
            },
    {
        let unchosen = XlibHandleState::Unchosen.code();
        let single = XlibHandleState::SingleThreaded.code();
        let first = guard.state.compare_exchange(unchosen, single, Ordering::SeqCst, Ordering::SeqCst);
        let claim = exclusive_claim(first);
        let second = match claim {
            ClaimStep::Swap(from, to) => Some(
                guard.state.compare_exchange(from.code(), to.code(), Ordering::SeqCst, Ordering::SeqCst),
            ),
            _ => None,
        };
        exclusive_answer(claim, second)
    }

    /// Gives the handle back: `SingleThreaded` becomes `ExSingleThreaded`;
    /// in any other state nothing changes.
    pub fn release(self, guard: &SurfaceGuard) {
        let single = XlibHandleState::SingleThreaded.code();
        let released = XlibHandleState::ExSingleThreaded.code();
        let _ = guard.state.compare_exchange(single, released, Ordering::SeqCst, Ordering::SeqCst);
    }
}

impl XlibThreadedHandle {
    pub closed spec fn spec_granted_in(&self) -> XlibHandleState {
        self.granted_in
    }

    /// Requests a shareable handle. From `Unchosen` the caller wins the
    /// threading setup; while it runs the answer is pending; in
    /// `MultiThreaded` the handle is granted; after exclusive use the request
    /// is illegal.
    pub fn new(guard: &SurfaceGuard) -> (r: SharedAcquisition)
        ensures
            r matches SharedAcquisition::Acquired(h) ==> h.spec_granted_in() == XlibHandleState::MultiThreaded,
            r matches SharedAcquisition::MustInitialize(t) ==> t.spec_claimed_from() == XlibHandleState::Unchosen,
    {
        let unchosen = XlibHandleState::Unchosen.code();
        let pending = XlibHandleState::MultiThreadedPending.code();
        let first = guard.state.compare_exchange(unchosen, pending, Ordering::SeqCst, Ordering::SeqCst);
        shared_answer(shared_claim(first))
    }
}

impl InitToken {
    pub closed spec fn spec_claimed_from(&self) -> XlibHandleState {
        self.claimed_from
    }
}

impl SurfaceGuard {
    /// A register in state `Unchosen`.
    pub fn new() -> (r: SurfaceGuard) {
        SurfaceGuard { state: AtomicU8::new(XlibHandleState::Unchosen.code()) }
    }

    /// Records that the threading setup won by `token` is done: swaps the
    /// register from `MultiThreadedPending` to `MultiThreaded`, for good,
    /// and hands out the first shareable handle. Where the register was not
    /// pending (the token came from another register) nothing changes and
    /// no handle is given.
    pub fn complete_initialization(&self, token: InitToken) -> (r: Option<XlibThreadedHandle>)
        ensures
            r matches Some(h) ==> h.spec_granted_in() == XlibHandleState::MultiThreaded,
    {
        let _ = token;
        let pending = XlibHandleState::MultiThreadedPending.code();
        let done = XlibHandleState::MultiThreaded.code();
        initialized_answer(self.state.compare_exchange(pending, done, Ordering::SeqCst, Ordering::SeqCst))
    }
}

/// Turns the decision on an exclusive request into its answer. `second` is
/// the result of the second swap, made only where the decision asks for it.
pub fn exclusive_answer(claim: ClaimStep, second: Option<Result<u8, u8>>) -> (r: Acquisition)
    requires
        claim is Swap ==> second is Some,
    ensures
        match claim {
            ClaimStep::Grant(s) => r matches Acquisition::Acquired(h) && h.spec_granted_in() == s,
            ClaimStep::Refuse => r is Unavailable,
            ClaimStep::Wait => r is Pending,
            ClaimStep::Swap(from, _) => match spec_swap_outcome(second->Some_0) {
                Exclusive::Granted => r matches Acquisition::Acquired(h) && h.spec_granted_in() == from,
                Exclusive::Unavailable => r is Unavailable,
                Exclusive::Wait => r is Pending,
            },
        },
{
    match claim {
        ClaimStep::Grant(s) => Acquisition::Acquired(XlibHandle { granted_in: s }),
        ClaimStep::Refuse => Acquisition::Unavailable,
        ClaimStep::Wait => Acquisition::Pending,
        ClaimStep::Swap(from, _) => {
            let second = second.unwrap();
            match swap_outcome(second) {
                Exclusive::Granted => Acquisition::Acquired(XlibHandle { granted_in: from }),
                Exclusive::Unavailable => Acquisition::Unavailable,
                Exclusive::Wait => Acquisition::Pending,
            }
        },
    }
}

/// Turns the decision on a shareable request into its answer.
pub fn shared_answer(decision: Shared) -> (r: SharedAcquisition)
    ensures
        match decision {
            Shared::Initialize => r matches SharedAcquisition::MustInitialize(t) && t.spec_claimed_from()
                == XlibHandleState::Unchosen,
            Shared::Granted => r matches SharedAcquisition::Acquired(h) && h.spec_granted_in()
                == XlibHandleState::MultiThreaded,
            Shared::Wait => r is Pending,
            Shared::Illegal => r is Illegal,
        },
{
    match decision {
        Shared::Initialize => SharedAcquisition::MustInitialize(InitToken { claimed_from: XlibHandleState::Unchosen }),
        Shared::Granted => SharedAcquisition::Acquired(XlibThreadedHandle { granted_in: XlibHandleState::MultiThreaded }),
        Shared::Wait => SharedAcquisition::Pending,
        Shared::Illegal => SharedAcquisition::Illegal,
    }
}

/// Turns the result of the swap that ends the threading setup into its
/// answer: a shareable handle exactly where the swap succeeded.
pub fn initialized_answer(swap: Result<u8, u8>) -> (r: Option<XlibThreadedHandle>)
    ensures
        r is Some <==> swap is Ok,
        r matches Some(h) ==> h.spec_granted_in() == XlibHandleState::MultiThreaded,
{
    match swap {
        Ok(_) => Some(XlibThreadedHandle { granted_in: XlibHandleState::MultiThreaded }),
        Err(_) => None,
    }
}

/// An exclusive request while an exclusive handle is out is refused and
/// leaves the state as it was.
pub proof fn lemma_second_exclusive_refused(s: XlibHandleState)
    requires
        s == XlibHandleState::SingleThreaded,
    ensures
        exclusive_transition(s) == (s, Exclusive::Unavailable),
{
}

/// Once an exclusive handle has been issued outside multithreaded mode, no
/// sequence of requests leads out of the single-threaded states, and a
/// shareable request is then always illegal.
pub proof fn lemma_shared_after_exclusive_is_illegal(s: XlibHandleState, events: Seq<GuardEvent>)
    requires
        s == XlibHandleState::SingleThreaded || s == XlibHandleState::ExSingleThreaded,
    ensures
        run(s, events) == XlibHandleState::SingleThreaded || run(s, events) == XlibHandleState::ExSingleThreaded,
        shared_transition(run(s, events)).1 == Shared::Illegal,
    decreases events.len(),
{
    if events.len() > 0 {
        lemma_shared_after_exclusive_is_illegal(step(s, events[0]), events.drop_first());
    }
}

/// `MultiThreaded` is terminal: every request keeps it, and every shareable
/// request in it is granted.
pub proof fn lemma_multithreaded_is_terminal(events: Seq<GuardEvent>)
    ensures
        run(XlibHandleState::MultiThreaded, events) == XlibHandleState::MultiThreaded,
        shared_transition(run(XlibHandleState::MultiThreaded, events)).1 == Shared::Granted,
    decreases events.len(),
{
    if events.len() > 0 {
        lemma_multithreaded_is_terminal(events.drop_first());
    }
}

pub open spec fn shared_only(events: Seq<GuardEvent>) -> bool {
    forall|i: int| 0 <= i < events.len() ==>
        #[trigger] events[i] == GuardEvent::AcquireShared || events[i] == GuardEvent::InitializationDone
}

/// Callers that only ask for shareable handles (and report the setup done)
/// never leave the states `Unchosen`, `MultiThreadedPending` and
/// `MultiThreaded`, so none of their requests is illegal.
pub proof fn lemma_shared_callers_never_illegal(s: XlibHandleState, events: Seq<GuardEvent>)
    requires
        s == XlibHandleState::Unchosen || s == XlibHandleState::MultiThreadedPending
            || s == XlibHandleState::MultiThreaded,
        shared_only(events),
    ensures
        run(s, events) == XlibHandleState::Unchosen || run(s, events) == XlibHandleState::MultiThreadedPending
            || run(s, events) == XlibHandleState::MultiThreaded,
        shared_transition(run(s, events)).1 != Shared::Illegal,
    decreases events.len(),
{
    if events.len() > 0 {
        let rest = events.drop_first();
        assert forall|k: int| 0 <= k < rest.len() implies
            #[trigger] rest[k] == GuardEvent::AcquireShared || rest[k] == GuardEvent::InitializationDone by {
            assert(rest[k] == events[k + 1]);
        }
        assert(events[0] == GuardEvent::AcquireShared || events[0] == GuardEvent::InitializationDone);
        lemma_shared_callers_never_illegal(step(s, events[0]), rest);
    }
}

/// Callers that only ask for shareable handles, from a fresh register, all
/// end up granted: once the setup that the first of them won is reported
/// done, the register is in `MultiThreaded` and every request is granted.
pub proof fn lemma_shared_callers_converge(s: XlibHandleState, events: Seq<GuardEvent>, i: int, j: int)
    requires
        s == XlibHandleState::Unchosen,
        shared_only(events),
        0 <= i < j < events.len(),
        events[i] == GuardEvent::AcquireShared,
        events[j] == GuardEvent::InitializationDone,
    ensures
        run(s, events) == XlibHandleState::MultiThreaded,
        shared_transition(run(s, events)).1 == Shared::Granted,
{
    lemma_shared_run(s, events, i, j);
}

proof fn lemma_shared_run(s: XlibHandleState, events: Seq<GuardEvent>, i: int, j: int)
    requires
        s == XlibHandleState::Unchosen || s == XlibHandleState::MultiThreadedPending
            || s == XlibHandleState::MultiThreaded,
        shared_only(events),
        -1 <= i < j < events.len(),
        i >= 0 ==> events[i] == GuardEvent::AcquireShared,
        i < 0 ==> s != XlibHandleState::Unchosen,
        events[j] == GuardEvent::InitializationDone,
    ensures
        run(s, events) == XlibHandleState::MultiThreaded,
    decreases events.len(),
{
    let rest = events.drop_first();
    assert forall|k: int| 0 <= k < rest.len() implies
        #[trigger] rest[k] == GuardEvent::AcquireShared || rest[k] == GuardEvent::InitializationDone by {
        assert(rest[k] == events[k + 1]);
    }
    let n = step(s, events[0]);
    assert(events[0] == GuardEvent::AcquireShared || events[0] == GuardEvent::InitializationDone);
    if s == XlibHandleState::MultiThreaded {
        lemma_multithreaded_is_terminal(events);
    } else if j == 0 {
        assert(i < 0);
        assert(n == XlibHandleState::MultiThreaded);
        lemma_multithreaded_is_terminal(rest);
    } else if i == 0 {
        assert(n != XlibHandleState::Unchosen);
        assert(rest[j - 1] == events[j]);
        lemma_shared_run(n, rest, -1, j - 1);
    } else {
        assert(rest[j - 1] == events[j]);
        if i > 0 {
            assert(rest[i - 1] == events[i]);
            lemma_shared_run(n, rest, i - 1, j - 1);
        } else {
            lemma_shared_run(n, rest, -1, j - 1);
        }
    }
}

} // verus!
