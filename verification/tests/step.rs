use ipmpsc::{recv_step, send_step, RecvStep, SendStep, BEGINNING};

// The decision functions below are exercised with the cursor values a
// deployment would load from a mapped header: region length 8 + 64.

/// An empty ring with room past `write` admits the frame at `write`.
#[test]
fn send_step_tail_fit() {
    assert_eq!(send_step(BEGINNING, 72, 8, 8, 16, false), SendStep::WriteAt(8));
    assert_eq!(send_step(BEGINNING, 72, 8, 8, 16, true), SendStep::WriteAt(8));
}

/// A short tail wraps when the consumer has moved off the ring start, and
/// waits when it has not.
#[test]
fn send_step_wrap_or_wait() {
    assert_eq!(send_step(BEGINNING, 72, 30, 60, 16, false), SendStep::WrapAt(60));
    assert_eq!(send_step(BEGINNING, 72, 8, 60, 16, false), SendStep::Wait);
}

/// A wrapped producer writes into the gap before `read` when it fits and
/// waits otherwise.
#[test]
fn send_step_gap() {
    assert_eq!(send_step(BEGINNING, 72, 40, 8, 16, false), SendStep::WriteAt(8));
    assert_eq!(send_step(BEGINNING, 72, 20, 8, 16, false), SendStep::Wait);
}

/// In wait-until-empty mode a nonempty ring always means waiting, even
/// when the frame would fit.
#[test]
fn send_step_when_empty() {
    assert_eq!(send_step(BEGINNING, 72, 8, 20, 16, true), SendStep::Wait);
    assert_eq!(send_step(BEGINNING, 72, 40, 8, 16, true), SendStep::Wait);
}

/// Equal cursors mean an empty ring; a positive prefix is a value frame.
#[test]
fn recv_step_empty_and_frame() {
    assert_eq!(recv_step(20, 20, 0), RecvStep::Empty);
    assert_eq!(recv_step(20, 40, 7), RecvStep::Frame(24, 31));
}

/// A zero prefix is the wrap sentinel behind the writer and corruption at
/// or ahead of it.
#[test]
fn recv_step_sentinel_and_corruption() {
    assert_eq!(recv_step(40, 20, 0), RecvStep::WrapReset);
    assert_eq!(recv_step(20, 40, 0), RecvStep::Corrupt);
}
