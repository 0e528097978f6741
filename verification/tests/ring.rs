use ipmpsc::{MessageTooLarge, RingBuffer, SendError, SendStatus, ZeroSizedMessage};

/// One thousand twenty-four identical messages of 101 bytes through a
/// 1024-byte ring, draining whenever the ring fills; everything arrives,
/// equal and in order, and the ring ends empty.
#[test]
fn simple_case() {
    let mut ring = RingBuffer::new(1024);
    let msg: Vec<u8> = (0u8..=100).collect();
    assert_eq!(msg.len(), 101);
    let mut received: usize = 0;
    for _ in 0..1024 {
        loop {
            match ring.send(&msg) {
                Ok(SendStatus::Sent) => break,
                Ok(SendStatus::WouldBlock) => {
                    // A drain may only have cleared a wrap sentinel; in
                    // that case just retry the send.
                    if let Some(got) = ring.try_recv() {
                        assert_eq!(got, msg);
                        received += 1;
                    }
                }
                Err(e) => panic!("send failed: {:?}", e),
            }
        }
    }
    while let Some(got) = ring.try_recv() {
        assert_eq!(got, msg);
        received += 1;
    }
    assert_eq!(received, 1024);
    assert!(ring.try_recv().is_none());
}

/// The ring reports the capacity it was created with.
#[test]
fn reported_capacity() {
    let ring = RingBuffer::new(1024);
    assert_eq!(ring.capacity_bytes(), 1024);
}

/// Three distinct messages come back in send order, then the ring is
/// empty.
#[test]
fn fifo_round_trip() {
    let mut ring = RingBuffer::new(64);
    let a = vec![1u8, 2, 3];
    let b = vec![4u8];
    let c = vec![5u8, 6];
    assert_eq!(ring.send(&a), Ok(SendStatus::Sent));
    assert_eq!(ring.send(&b), Ok(SendStatus::Sent));
    assert_eq!(ring.send(&c), Ok(SendStatus::Sent));
    assert_eq!(ring.try_recv().as_deref(), Some(&a[..]));
    assert_eq!(ring.try_recv().as_deref(), Some(&b[..]));
    assert_eq!(ring.try_recv().as_deref(), Some(&c[..]));
    assert!(ring.try_recv().is_none());
}

/// A message of exactly capacity minus eight bytes is acceptable and fits
/// an empty ring on the first try.
#[test]
fn boundary_exact_fit() {
    let mut ring = RingBuffer::new(64);
    let msg = vec![7u8; 56];
    assert_eq!(ring.send(&msg), Ok(SendStatus::Sent));
    assert_eq!(ring.try_recv(), Some(msg));
    assert!(ring.try_recv().is_none());
}

/// One byte more than the exact fit is rejected as too large.
#[test]
fn boundary_too_large() {
    let mut ring = RingBuffer::new(64);
    let msg = vec![7u8; 57];
    assert_eq!(
        ring.send(&msg),
        Err(SendError::TooLarge(MessageTooLarge))
    );
    // The rejection left the ring untouched.
    assert!(ring.try_recv().is_none());
}

/// A message of zero encoded size is rejected.
#[test]
fn boundary_zero_sized() {
    let mut ring = RingBuffer::new(64);
    let msg: Vec<u8> = Vec::new();
    assert_eq!(
        ring.send(&msg),
        Err(SendError::ZeroSized(ZeroSizedMessage))
    );
    assert!(ring.try_recv().is_none());
}

/// Two sends fill the ring so that a third must wrap: it is refused while
/// nothing was consumed, succeeds via the wrap sentinel after one
/// receive, and the remaining receives traverse the sentinel
/// transparently.
#[test]
fn wrap_around() {
    // Region of 8 + 36 bytes: a 20-byte and a 4-byte frame fill the tail
    // so that another 4-byte frame fits neither the tail nor, until the
    // first message is consumed, the gap at the ring start.
    let mut ring = RingBuffer::new(36);
    let big = vec![1u8; 20];
    let small1 = vec![2u8; 4];
    let small2 = vec![3u8; 4];
    assert_eq!(ring.send(&big), Ok(SendStatus::Sent));
    assert_eq!(ring.send(&small1), Ok(SendStatus::Sent));
    assert_eq!(ring.send(&small2), Ok(SendStatus::WouldBlock));
    assert_eq!(ring.try_recv(), Some(big));
    assert_eq!(ring.send(&small2), Ok(SendStatus::Sent));
    assert_eq!(ring.try_recv(), Some(small1));
    assert_eq!(ring.try_recv(), Some(small2));
    assert!(ring.try_recv().is_none());
}

/// A full ring makes the next producer wait until the consumer frees
/// room.
#[test]
fn backpressure() {
    let mut ring = RingBuffer::new(64);
    let first = vec![9u8; 56];
    let second = vec![8u8; 16];
    assert_eq!(ring.send(&first), Ok(SendStatus::Sent));
    assert_eq!(ring.send(&second), Ok(SendStatus::WouldBlock));
    assert_eq!(ring.try_recv(), Some(first));
    assert_eq!(ring.send(&second), Ok(SendStatus::Sent));
    assert_eq!(ring.try_recv(), Some(second));
    assert!(ring.try_recv().is_none());
}

/// `send_when_empty` holds its message back until the consumer has
/// drained the ring completely.
#[test]
fn send_when_empty_waits_for_drain() {
    let mut ring = RingBuffer::new(1024);
    let queued = vec![1u8; 10];
    let urgent = vec![2u8; 10];
    assert_eq!(ring.send(&queued), Ok(SendStatus::Sent));
    assert_eq!(ring.send_when_empty(&urgent), Ok(SendStatus::WouldBlock));
    assert_eq!(ring.try_recv(), Some(queued));
    assert_eq!(ring.send_when_empty(&urgent), Ok(SendStatus::Sent));
    assert_eq!(ring.try_recv(), Some(urgent));
    assert!(ring.try_recv().is_none());
}

/// `send_when_empty` enforces the same size rules as `send`.
#[test]
fn send_when_empty_size_rules() {
    let mut ring = RingBuffer::new(64);
    assert_eq!(
        ring.send_when_empty(&Vec::new()),
        Err(SendError::ZeroSized(ZeroSizedMessage))
    );
    assert_eq!(
        ring.send_when_empty(&vec![0u8; 57]),
        Err(SendError::TooLarge(MessageTooLarge))
    );
    assert_eq!(ring.send_when_empty(&vec![0u8; 56]), Ok(SendStatus::Sent));
}

/// A random capacity and a random message schedule, exchanged in order
/// through a single ring with draining on demand.
#[test]
fn randomized_exchange() {
    let mut seed: u64 = 0x243f6a8885a308d3;
    let mut next = move || {
        seed = seed
            .wrapping_mul(6364136223846793005)
            .wrapping_add(1442695040888963407);
        (seed >> 33) as u32
    };
    for _ in 0..20 {
        let capacity = 32 + next() % (1024 - 32);
        let mut ring = RingBuffer::new(capacity);
        let count = 1 + next() % 200;
        let mut expected: std::collections::VecDeque<Vec<u8>> = std::collections::VecDeque::new();
        for _ in 0..count {
            let size = 1 + next() % (capacity - 16);
            let msg: Vec<u8> = (0..size).map(|_| next() as u8).collect();
            loop {
                match ring.send(&msg) {
                    Ok(SendStatus::Sent) => {
                        expected.push_back(msg);
                        break;
                    }
                    Ok(SendStatus::WouldBlock) => {
                        // A drain may only have cleared a wrap sentinel;
                        // in that case just retry the send.
                        if let Some(got) = ring.try_recv() {
                            assert_eq!(Some(got), expected.pop_front());
                        }
                    }
                    Err(e) => panic!("send failed: {:?}", e),
                }
            }
        }
        while let Some(got) = ring.try_recv() {
            assert_eq!(Some(got), expected.pop_front());
        }
        assert!(expected.is_empty());
        assert!(ring.try_recv().is_none());
    }
}
