use edmcoverlay::xlib_guard::XlibHandleState::{
    ExSingleThreaded, MultiThreaded, MultiThreadedPending, SingleThreaded, Unchosen,
};
use edmcoverlay::xlib_guard::{
    exclusive_answer, initialized_answer, shared_answer, exclusive_claim, shared_claim, swap_outcome, ClaimStep, exclusive_step, shared_step, Acquisition, Exclusive, Shared, SharedAcquisition, SurfaceGuard,
    XlibHandle, XlibHandleState, XlibThreadedHandle,
};

#[test]
fn exclusive_handle_is_single() {
    let guard = SurfaceGuard::new();
    let first = match XlibHandle::new(&guard) {
        Acquisition::Acquired(h) => h,
        other => panic!("{:?}", other),
    };
    assert_eq!(first.granted_in(), XlibHandleState::Unchosen);
    assert!(matches!(XlibHandle::new(&guard), Acquisition::Unavailable));
    assert!(matches!(XlibHandle::new(&guard), Acquisition::Unavailable));
    first.release(&guard);
    let again = match XlibHandle::new(&guard) {
        Acquisition::Acquired(h) => h,
        other => panic!("{:?}", other),
    };
    assert_eq!(again.granted_in(), XlibHandleState::ExSingleThreaded);
    assert!(matches!(XlibHandle::new(&guard), Acquisition::Unavailable));
}

#[test]
fn shared_after_exclusive_is_illegal() {
    let guard = SurfaceGuard::new();
    let h = match XlibHandle::new(&guard) {
        Acquisition::Acquired(h) => h,
        other => panic!("{:?}", other),
    };
    assert!(matches!(XlibThreadedHandle::new(&guard), SharedAcquisition::Illegal));
    h.release(&guard);
    assert!(matches!(XlibThreadedHandle::new(&guard), SharedAcquisition::Illegal));
}

#[test]
fn shared_setup_runs_once() {
    let guard = SurfaceGuard::new();
    let token = match XlibThreadedHandle::new(&guard) {
        SharedAcquisition::MustInitialize(t) => t,
        other => panic!("{:?}", other),
    };
    assert!(matches!(XlibThreadedHandle::new(&guard), SharedAcquisition::Pending));
    assert!(matches!(XlibHandle::new(&guard), Acquisition::Pending));
    let _first = guard.complete_initialization(token).unwrap();
    assert!(matches!(XlibThreadedHandle::new(&guard), SharedAcquisition::Acquired(_)));
    assert!(matches!(XlibThreadedHandle::new(&guard), SharedAcquisition::Acquired(_)));
    let a = match XlibHandle::new(&guard) {
        Acquisition::Acquired(h) => h,
        other => panic!("{:?}", other),
    };
    assert_eq!(a.granted_in(), XlibHandleState::MultiThreaded);
    assert!(matches!(XlibHandle::new(&guard), Acquisition::Acquired(_)));
    a.release(&guard);
    assert!(matches!(XlibThreadedHandle::new(&guard), SharedAcquisition::Acquired(_)));
}

#[test]
fn transitions_match_the_table() {
    assert_eq!(exclusive_step(Unchosen), (SingleThreaded, Exclusive::Granted));
    assert_eq!(exclusive_step(SingleThreaded), (SingleThreaded, Exclusive::Unavailable));
    assert_eq!(exclusive_step(ExSingleThreaded), (SingleThreaded, Exclusive::Granted));
    assert_eq!(exclusive_step(MultiThreadedPending), (MultiThreadedPending, Exclusive::Wait));
    assert_eq!(exclusive_step(MultiThreaded), (MultiThreaded, Exclusive::Granted));
    assert_eq!(shared_step(Unchosen), (MultiThreadedPending, Shared::Initialize));
    assert_eq!(shared_step(SingleThreaded), (SingleThreaded, Shared::Illegal));
    assert_eq!(shared_step(ExSingleThreaded), (ExSingleThreaded, Shared::Illegal));
    assert_eq!(shared_step(MultiThreadedPending), (MultiThreadedPending, Shared::Wait));
    assert_eq!(shared_step(MultiThreaded), (MultiThreaded, Shared::Granted));
}

#[test]
fn state_codes_round_trip() {
    for s in [Unchosen, SingleThreaded, ExSingleThreaded, MultiThreadedPending, MultiThreaded] {
        assert_eq!(XlibHandleState::from_code(s.code()), Some(s));
    }
    assert_eq!(Unchosen.code(), 0);
    assert_eq!(MultiThreaded.code(), 4);
    assert_eq!(XlibHandleState::from_code(5), None);
    assert_eq!(XlibHandleState::from_code(255), None);
}

#[test]
fn interleaved_first_shared_requests_both_succeed() {
    let guard = SurfaceGuard::new();
    let token = match XlibThreadedHandle::new(&guard) {
        SharedAcquisition::MustInitialize(t) => t,
        other => panic!("{:?}", other),
    };
    let mut waits = 0;
    while let SharedAcquisition::Pending = XlibThreadedHandle::new(&guard) {
        waits += 1;
        if waits == 3 {
            break;
        }
    }
    assert_eq!(waits, 3);
    let first = guard.complete_initialization(token).unwrap();
    let second = match XlibThreadedHandle::new(&guard) {
        SharedAcquisition::Acquired(h) => h,
        other => panic!("{:?}", other),
    };
    let _ = (first, second);
    assert_eq!(exclusive_step(MultiThreaded).1, Exclusive::Granted);
}

#[test]
fn first_swap_decides_exclusive_requests() {
    assert_eq!(exclusive_claim(Ok(0)), ClaimStep::Grant(Unchosen));
    assert_eq!(exclusive_claim(Err(1)), ClaimStep::Refuse);
    assert_eq!(exclusive_claim(Err(2)), ClaimStep::Swap(ExSingleThreaded, SingleThreaded));
    assert_eq!(exclusive_claim(Err(3)), ClaimStep::Wait);
    assert_eq!(exclusive_claim(Err(4)), ClaimStep::Grant(MultiThreaded));
    assert_eq!(exclusive_claim(Err(9)), ClaimStep::Refuse);
}

#[test]
fn second_swap_is_not_retried() {
    assert_eq!(swap_outcome(Ok(2)), Exclusive::Granted);
    assert_eq!(swap_outcome(Err(1)), Exclusive::Unavailable);
    assert_eq!(swap_outcome(Err(4)), Exclusive::Wait);
    assert_eq!(swap_outcome(Err(200)), Exclusive::Unavailable);
}

#[test]
fn first_swap_decides_shared_requests() {
    assert_eq!(shared_claim(Ok(0)), Shared::Initialize);
    assert_eq!(shared_claim(Err(0)), Shared::Wait);
    assert_eq!(shared_claim(Err(1)), Shared::Illegal);
    assert_eq!(shared_claim(Err(2)), Shared::Illegal);
    assert_eq!(shared_claim(Err(3)), Shared::Wait);
    assert_eq!(shared_claim(Err(4)), Shared::Granted);
    assert_eq!(shared_claim(Err(7)), Shared::Illegal);
}

#[test]
fn answers_follow_the_decisions() {
    assert!(matches!(exclusive_answer(ClaimStep::Grant(Unchosen), None), Acquisition::Acquired(h) if h.granted_in() == Unchosen));
    assert!(matches!(exclusive_answer(ClaimStep::Refuse, None), Acquisition::Unavailable));
    assert!(matches!(exclusive_answer(ClaimStep::Wait, None), Acquisition::Pending));
    let swap = ClaimStep::Swap(ExSingleThreaded, SingleThreaded);
    assert!(matches!(exclusive_answer(swap, Some(Ok(2))), Acquisition::Acquired(h) if h.granted_in() == ExSingleThreaded));
    assert!(matches!(exclusive_answer(swap, Some(Err(1))), Acquisition::Unavailable));
    assert!(matches!(exclusive_answer(swap, Some(Err(3))), Acquisition::Pending));
    assert!(matches!(shared_answer(Shared::Initialize), SharedAcquisition::MustInitialize(_)));
    assert!(matches!(shared_answer(Shared::Granted), SharedAcquisition::Acquired(_)));
    assert!(matches!(shared_answer(Shared::Wait), SharedAcquisition::Pending));
    assert!(matches!(shared_answer(Shared::Illegal), SharedAcquisition::Illegal));
    assert!(initialized_answer(Ok(3)).is_some());
    assert!(initialized_answer(Err(4)).is_none());
}

#[test]
fn foreign_token_completes_nothing() {
    let a = SurfaceGuard::new();
    let b = SurfaceGuard::new();
    let token = match XlibThreadedHandle::new(&a) {
        SharedAcquisition::MustInitialize(t) => t,
        other => panic!("{:?}", other),
    };
    assert!(b.complete_initialization(token).is_none());
    assert!(matches!(XlibThreadedHandle::new(&a), SharedAcquisition::Pending));
    assert!(matches!(XlibHandle::new(&b), Acquisition::Acquired(_)));
}
