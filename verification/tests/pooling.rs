use nzbrs::error::DownloadError;
use nzbrs::nntp::{Connection, Stream};
use nzbrs::pool::{Acquire, PoolState};

struct NullStream;

impl Stream for NullStream {
    fn read_line(&mut self, _buf: &mut Vec<u8>) -> Result<usize, DownloadError> {
        Ok(0)
    }

    fn write_all(&mut self, _buf: &[u8]) -> Result<(), DownloadError> {
        Ok(())
    }
}

fn conn(disconnected: bool) -> Connection<NullStream> {
    Connection { stream: NullStream, buff: Vec::new(), disconnected, current_group: Vec::new() }
}

#[test]
fn capacity_bound_makes_extra_acquires_wait() {
    // Pool capacity bound: max = 2, the third acquire must wait.
    let mut pool: PoolState<NullStream> = PoolState::new(2);
    assert!(matches!(pool.try_acquire(), Acquire::Create));
    assert!(matches!(pool.try_acquire(), Acquire::Create));
    assert!(matches!(pool.try_acquire(), Acquire::Wait));
    assert_eq!(pool.in_use, 2);
    // A release frees capacity; the next acquire may create again.
    pool.release(conn(true));
    assert!(matches!(pool.try_acquire(), Acquire::Create));
}

#[test]
fn released_sound_connection_is_reused() {
    let mut pool: PoolState<NullStream> = PoolState::new(1);
    assert!(matches!(pool.try_acquire(), Acquire::Create));
    pool.release(conn(false));
    assert_eq!(pool.idle.len(), 1);
    match pool.try_acquire() {
        Acquire::Reuse(c) => assert!(!c.disconnected),
        _ => panic!("expected reuse of the idle connection"),
    }
}

#[test]
fn disconnected_connection_is_evicted_not_reused() {
    // Disconnection eviction: a disconnected connection never rejoins
    // the idle set; the next acquire creates a fresh one.
    let mut pool: PoolState<NullStream> = PoolState::new(1);
    assert!(matches!(pool.try_acquire(), Acquire::Create));
    pool.release(conn(true));
    assert_eq!(pool.idle.len(), 0);
    assert!(matches!(pool.try_acquire(), Acquire::Create));
}

#[test]
fn failed_creation_frees_capacity() {
    let mut pool: PoolState<NullStream> = PoolState::new(1);
    assert!(matches!(pool.try_acquire(), Acquire::Create));
    pool.creation_failed();
    assert_eq!(pool.in_use, 0);
    assert!(matches!(pool.try_acquire(), Acquire::Create));
}
