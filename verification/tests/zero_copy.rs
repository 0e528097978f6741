use ipmpsc::{AlreadyReceived, RingBuffer, SendStatus};

/// A composite payload (a short string and a few raw bytes) followed by a
/// small integer: the composite is taken through a zero-copy context,
/// compared, and only then acknowledged; the integer then arrives by
/// copy.
#[test]
fn zero_copy() {
    let mut ring = RingBuffer::new(256);
    let composite: Vec<u8> = {
        let mut v = b"hi".to_vec();
        v.extend_from_slice(&[0, 1, 2, 3]);
        v
    };
    assert_eq!(ring.send(&composite), Ok(SendStatus::Sent));
    assert_eq!(ring.send(&42u32.to_le_bytes()), Ok(SendStatus::Sent));

    let mut context = ring.zero_copy_context();
    let got = context
        .try_recv()
        .expect("first use of the context")
        .expect("a message is queued");
    assert_eq!(got, composite);
    let mut ring = context.release();

    let got = ring.try_recv().expect("the integer is still queued");
    assert_eq!(got.len(), 4);
    assert_eq!(u32::from_le_bytes([got[0], got[1], got[2], got[3]]), 42);
    assert!(ring.try_recv().is_none());
}

/// A context may deliver only one message: the second attempt fails with
/// `AlreadyReceived` and leaves both the queue and the deferred cursor
/// advance exactly as they were.
#[test]
fn context_used_twice() {
    let mut ring = RingBuffer::new(256);
    let first = vec![1u8, 2, 3];
    let second = vec![4u8, 5];
    assert_eq!(ring.send(&first), Ok(SendStatus::Sent));
    assert_eq!(ring.send(&second), Ok(SendStatus::Sent));

    let mut context = ring.zero_copy_context();
    let got = context
        .try_recv()
        .expect("first use of the context")
        .expect("a message is queued");
    assert_eq!(got, first);
    assert_eq!(context.try_recv(), Err(AlreadyReceived));
    assert_eq!(context.try_recv(), Err(AlreadyReceived));

    // Only the one delivered message was acknowledged.
    let mut ring = context.release();
    assert_eq!(ring.try_recv(), Some(second));
    assert!(ring.try_recv().is_none());
}

/// Releasing an unused context acknowledges nothing.
#[test]
fn unused_context_releases_cleanly() {
    let mut ring = RingBuffer::new(128);
    let only = vec![7u8; 5];
    assert_eq!(ring.send(&only), Ok(SendStatus::Sent));

    let context = ring.zero_copy_context();
    let mut ring = context.release();
    assert_eq!(ring.try_recv(), Some(only));
    assert!(ring.try_recv().is_none());
}

/// An empty ring yields no message through a context, and the context
/// stays usable for a later attempt.
#[test]
fn context_on_empty_ring() {
    let ring = RingBuffer::new(128);
    let mut context = ring.zero_copy_context();
    assert_eq!(context.try_recv(), Ok(None));
    assert_eq!(context.try_recv(), Ok(None));
    let mut ring = context.release();
    assert!(ring.try_recv().is_none());
}
