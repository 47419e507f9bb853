//! Scenario tests for the byte ring.

use rivet::buffer::map::{get_page_size, next_power_of_two, page_aligned};
use rivet::buffer::sync::{ring, Ring, State, ENOMEM_ERRNO};
use rivet::SysError;

#[test]
fn test_capacity_and_fill() {
    let mut rg: Ring = ring(1 << 16).unwrap();
    assert_eq!(rg.capacity(), 65536);

    let buf: Vec<u8> = vec![1u8; 500];
    let mut written: usize = 0;
    loop {
        let n: usize = rg.try_write(&buf);
        if n == 0 {
            break;
        }
        written += n;
    }
    assert_eq!(written, 65536);
    assert_eq!(rg.try_write(&buf), 0);
}

#[test]
fn test_zero_capacity_request() {
    let mut rg: Ring = ring(0).unwrap();
    let expected: usize = next_power_of_two(page_aligned(0));
    assert_eq!(rg.capacity(), expected);
    assert!(rg.capacity() >= get_page_size());
    // The capacity is a power of two.
    assert_eq!(rg.capacity() & (rg.capacity() - 1), 0);
    // And usable: a byte goes in and comes out.
    assert_eq!(rg.try_write(&[7u8]), 1);
    let mut out = [0u8; 1];
    assert_eq!(rg.try_read(&mut out), 1);
    assert_eq!(out[0], 7);
}

#[test]
fn test_round_trip() {
    let mut rg: Ring = ring(1 << 12).unwrap();
    let blob: Vec<u8> = (0..1000u32).map(|i| (i.wrapping_mul(31) % 251) as u8).collect();
    assert!(blob.len() < rg.capacity());

    assert_eq!(rg.try_write(&blob), blob.len());
    let mut out: Vec<u8> = vec![0u8; 1000];
    assert_eq!(rg.try_read(&mut out), blob.len());
    assert_eq!(out, blob);
}

#[test]
fn test_empty_and_full_return_zero() {
    let mut rg: Ring = ring(4096).unwrap();
    let cap: usize = rg.capacity();

    // Empty ring: a read moves nothing.
    let mut out: Vec<u8> = vec![0u8; 16];
    assert_eq!(rg.try_read(&mut out), 0);

    // An offer larger than the room is truncated to the room.
    let big: Vec<u8> = vec![9u8; cap + 123];
    assert_eq!(rg.try_write(&big), cap);

    // Full ring: a write moves nothing.
    assert_eq!(rg.try_write(&[1u8, 2, 3]), 0);

    // A read bounded by the buffer moves min(buf.len(), occupancy).
    assert_eq!(rg.try_read(&mut out), 16);
}

#[test]
fn test_fifo_interleaved_chunks() {
    // A producer's chunked writes come out of chunked reads byte for byte,
    // in order, across many wraparounds of a small ring.
    let total: usize = 1 << 22;
    let pattern = |i: usize| -> u8 { ((i * 131 + 17) % 256) as u8 };

    let mut rg: Ring = ring(1 << 12).unwrap();
    let mut produced: usize = 0;
    let mut consumed: usize = 0;
    let mut inbuf: Vec<u8> = vec![0u8; 465];

    while consumed < total {
        if produced < total {
            let want: usize = std::cmp::min(500, total - produced);
            let chunk: Vec<u8> = (produced..produced + want).map(pattern).collect();
            // A partial acceptance is fine: the next chunk starts where the
            // ring stopped taking bytes.
            produced += rg.try_write(&chunk);
        }
        let n: usize = rg.try_read(&mut inbuf);
        for k in 0..n {
            assert_eq!(inbuf[k], pattern(consumed + k));
        }
        consumed += n;
    }
    assert_eq!(consumed, total);
}

#[test]
fn test_wraparound_is_seamless() {
    // Move the ring's offset near the end of the store, then push a span
    // that crosses the boundary: the bytes come back intact.
    let mut rg: Ring = ring(0).unwrap();
    let cap: usize = rg.capacity();

    let prefix: Vec<u8> = vec![0xAAu8; cap - 1];
    assert_eq!(rg.try_write(&prefix), cap - 1);
    let mut sink: Vec<u8> = vec![0u8; cap - 1];
    assert_eq!(rg.try_read(&mut sink), cap - 1);

    // The next write starts at offset cap - 1 and wraps.
    let blob: Vec<u8> = (0..cap).map(|i| (i % 253) as u8).collect();
    assert_eq!(rg.try_write(&blob), cap);
    let mut out: Vec<u8> = vec![0u8; cap];
    assert_eq!(rg.try_read(&mut out), cap);
    assert_eq!(out, blob);
}

#[test]
fn test_disconnect_is_terminal() {
    let mut rg: Ring = ring(4096).unwrap();

    assert_eq!(rg.try_write(&[1u8, 2, 3]), 3);
    rg.disconnect();

    // A blocked caller is told to give up, now and forever.
    assert!(matches!(rg.block(), State::Disconnected));
    assert!(matches!(rg.unblock(), State::Disconnected));

    // The non-blocking side still drains what remains.
    let mut out: Vec<u8> = vec![0u8; 8];
    assert_eq!(rg.try_read(&mut out), 3);
    assert_eq!(&out[0..3], &[1u8, 2, 3]);
    assert!(matches!(rg.block(), State::Disconnected));
}

#[test]
fn test_block_and_unblock_cycle() {
    let mut rg: Ring = ring(4096).unwrap();
    // A waiter marks the ring blocked; a transfer's notification reopens it.
    assert!(matches!(rg.block(), State::Blocked));
    assert!(matches!(rg.unblock(), State::Open));
    assert_eq!(rg.try_write(&[5u8]), 1);
    assert!(matches!(rg.block(), State::Blocked));
    let mut out = [0u8; 1];
    // A non-zero read reopens the blocked ring.
    assert_eq!(rg.try_read(&mut out), 1);
    assert!(matches!(rg.unblock(), State::Open));
}

#[test]
fn test_oversized_request_is_refused() {
    assert!(matches!(ring(usize::MAX / 4), Err(SysError::Os(ENOMEM_ERRNO))));
}
