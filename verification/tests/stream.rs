use keli_core::error::{CoreError, ErrorKind};
use keli_core::relay::{
    read_outcome, relay_idle_sleep, websocket_udp_relay_idle_timeout, DuplexRelay, PendingWrite,
    ReadOutcome, RelayAction, WriteStep,
};
use keli_core::stream::{
    copy_count_best_effort, copy_count_best_effort_limited, copy_end,
    detached_blocking_relay_default_stack_kib, detached_blocking_relay_stack_size_from_env,
    native_relay_worker_threads_from_resources, native_relay_workers_setting,
    tcp_relay_blocking_threads_from_resources, tcp_relay_worker_threads, ByteSink, ByteSource,
    CopyCount, CopyEnd, DetachedBlockingRelayMetrics, Limiter, MemorySource, NativeRelayPool, Revocable, Unlimited, WorkerSlot,
};

#[test]
fn relay_thread_counts_scale_with_machine_resources() {
    assert_eq!(tcp_relay_blocking_threads_from_resources(1, None), 16);
    assert_eq!(
        tcp_relay_blocking_threads_from_resources(16, Some(64_000)),
        128
    );
    assert_eq!(tcp_relay_blocking_threads_from_resources(16, Some(128)), 32);

    assert_eq!(
        native_relay_worker_threads_from_resources(4, Some(4096), Some(100_000)),
        64
    );
    assert_eq!(
        native_relay_worker_threads_from_resources(32, Some(4096), Some(100_000)),
        512
    );
    assert_eq!(
        native_relay_worker_threads_from_resources(32, Some(512), Some(4096)),
        128
    );
    assert_eq!(
        native_relay_worker_threads_from_resources(4, Some(64), Some(100_000)),
        16
    );
}

#[test]
fn more_resources_never_mean_fewer_workers() {
    let few = native_relay_worker_threads_from_resources(8, Some(512), Some(4096));
    let more_memory = native_relay_worker_threads_from_resources(8, Some(1024), Some(4096));
    let more_files = native_relay_worker_threads_from_resources(8, Some(512), Some(8192));
    assert!(few <= more_memory);
    assert!(few <= more_files);
}

#[test]
fn detached_blocking_relay_stack_size_is_small_and_configurable() {
    assert_eq!(detached_blocking_relay_default_stack_kib(false), 256);
    assert_eq!(detached_blocking_relay_default_stack_kib(true), 2048);
    assert_eq!(
        detached_blocking_relay_stack_size_from_env(None, 256),
        256 * 1024
    );
    assert_eq!(
        detached_blocking_relay_stack_size_from_env(Some("32".to_string()), 256),
        64 * 1024
    );
    assert_eq!(
        detached_blocking_relay_stack_size_from_env(Some("512".to_string()), 256),
        512 * 1024
    );
    assert_eq!(
        detached_blocking_relay_stack_size_from_env(Some("99999".to_string()), 256),
        8192 * 1024
    );
}

#[test]
fn settings_that_are_no_numbers_are_passed_over() {
    assert_eq!(native_relay_workers_setting(None), None);
    assert_eq!(native_relay_workers_setting(Some("many".to_string())), None);
    assert_eq!(
        native_relay_workers_setting(Some(" 24 ".to_string())),
        Some(24)
    );
    assert!(tcp_relay_worker_threads(1) >= 1);
}

#[test]
fn detached_blocking_relay_metrics_track_active_tasks_by_name() {
    let mut metrics = DetachedBlockingRelayMetrics::new();
    metrics.enter("keli-core-test-relay");
    assert_eq!(metrics.count("keli-core-test-relay"), Some(1));
    {
        metrics.enter("keli-core-test-relay");
        assert_eq!(metrics.count("keli-core-test-relay"), Some(2));
        metrics.leave("keli-core-test-relay");
    }
    assert_eq!(metrics.count("keli-core-test-relay"), Some(1));
}

#[test]
fn finished_relays_leave_no_trace() {
    let mut metrics = DetachedBlockingRelayMetrics::new();
    metrics.enter("b");
    metrics.enter("a");
    metrics.enter("b");
    let names: Vec<(String, usize)> = metrics
        .snapshot()
        .into_iter()
        .map(|entry| (entry.name, entry.count))
        .collect();
    assert_eq!(names, vec![("a".to_string(), 1), ("b".to_string(), 2)]);
    metrics.leave("a");
    assert_eq!(metrics.count("a"), None);
    metrics.leave("a");
    assert_eq!(metrics.snapshot().len(), 1);
}

#[test]
fn limited_copy_still_counts_transferred_bytes() {
    let input = b"hello".to_vec();
    let mut limiter = Revocable::new(false);
    let mut reader = MemorySource::new(input);
    let mut output = Vec::new();

    let copied = copy_count_best_effort_limited(&mut reader, &mut output, &mut limiter);

    assert_eq!(copied, 5);
    assert_eq!(output, b"hello");
}

#[test]
fn revoked_limiter_stops_limited_copy_before_forwarding_bytes() {
    let input = b"blocked".to_vec();
    let mut limiter = Revocable::new(true);
    let mut reader = MemorySource::new(input);
    let mut output: Vec<u8> = Vec::new();

    let copied = copy_count_best_effort_limited(&mut reader, &mut output, &mut limiter);

    assert_eq!(copied, 0);
    assert!(output.is_empty());
}

#[test]
fn long_input_is_copied_whole() {
    let input: Vec<u8> = (0..200_000u32).map(|n| (n % 251) as u8).collect();
    let mut reader = MemorySource::new(input.clone());
    let mut output: Vec<u8> = vec![9];

    let copied = copy_count_best_effort(&mut reader, &mut output);

    assert_eq!(copied, 200_000);
    assert_eq!(output[0], 9);
    assert_eq!(&output[1..], &input[..]);

    let mut empty = MemorySource::new(Vec::new());
    assert_eq!(
        copy_count_best_effort_limited(&mut empty, &mut output, &mut Unlimited::new()),
        0
    );
}

/// A source that gives pieces, and fails where there is none.
struct Pieces {
    pieces: Vec<Option<&'static [u8]>>,
    reads: usize,
}

impl ByteSource for Pieces {
    fn read(&mut self, _limit: usize) -> Result<Vec<u8>, ErrorKind> {
        let piece = self.pieces[self.reads];
        self.reads += 1;
        piece.map(|bytes| bytes.to_vec()).ok_or(ErrorKind::Other)
    }
}

/// A sink that takes so many bytes.
struct Bounded {
    bytes: Vec<u8>,
    room: usize,
}

impl ByteSink for Bounded {
    fn write_all(&mut self, bytes: &[u8]) -> Result<(), ErrorKind> {
        if self.bytes.len() + bytes.len() > self.room {
            return Err(ErrorKind::BrokenPipe);
        }
        self.bytes.extend_from_slice(bytes);
        Ok(())
    }
}

/// A limiter that grants so many bytes.
struct Budget {
    asked: Vec<usize>,
    left: usize,
}

impl Limiter for Budget {
    fn wait_for(&mut self, bytes: usize) -> bool {
        self.asked.push(bytes);
        let granted = bytes <= self.left;
        if granted {
            self.left -= bytes;
        }
        granted
    }
}

#[test]
fn failed_read_ends_the_copy() {
    let mut reader = Pieces {
        pieces: vec![Some(b"ab"), None, Some(b"cd")],
        reads: 0,
    };
    let mut output: Vec<u8> = Vec::new();
    assert_eq!(copy_count_best_effort(&mut reader, &mut output), 2);
    assert_eq!(output, b"ab");
    assert_eq!(reader.reads, 2);
}

#[test]
fn empty_read_ends_the_copy() {
    let mut reader = Pieces {
        pieces: vec![Some(b"ab"), Some(b"c"), Some(b""), Some(b"d")],
        reads: 0,
    };
    let mut output: Vec<u8> = Vec::new();
    assert_eq!(copy_count_best_effort(&mut reader, &mut output), 3);
    assert_eq!(output, b"abc");
    assert_eq!(reader.reads, 3);
}

#[test]
fn refused_bytes_are_not_forwarded() {
    let mut reader = Pieces {
        pieces: vec![Some(b"ab"), Some(b"cde"), Some(b"f")],
        reads: 0,
    };
    let mut output: Vec<u8> = Vec::new();
    let mut limiter = Budget {
        asked: Vec::new(),
        left: 4,
    };
    assert_eq!(
        copy_count_best_effort_limited(&mut reader, &mut output, &mut limiter),
        2
    );
    assert_eq!(output, b"ab");
    assert_eq!(reader.reads, 2);
    assert_eq!(limiter.asked, vec![2, 3]);
}

#[test]
fn failed_write_ends_the_copy() {
    let mut reader = Pieces {
        pieces: vec![Some(b"ab"), Some(b"cde"), Some(b"f")],
        reads: 0,
    };
    let mut output = Bounded {
        bytes: Vec::new(),
        room: 4,
    };
    assert_eq!(copy_count_best_effort(&mut reader, &mut output), 2);
    assert_eq!(output.bytes, b"ab");
    assert_eq!(reader.reads, 2);
}

#[test]
fn copies_go_on_while_there_is_room() {
    let mut count = CopyCount::new();
    assert!(count.goes_on(ReadOutcome::Data(4), true));
    assert!(!count.goes_on(ReadOutcome::Data(4), false));
    assert!(!count.goes_on(ReadOutcome::End, true));
    assert!(count.written(4, true));
    assert!(!count.written(4, false));
    assert_eq!(count.total, 4);
    assert_ne!(copy_end(true), copy_end(false));
    assert!(matches!(copy_end(true), CopyEnd::CloseBoth));
}

#[test]
fn relay_pool_starts_workers_as_needed() {
    let mut pool = NativeRelayPool::new(2);
    assert!(pool.needs_first_worker());
    assert_eq!(pool.reserve_worker(), WorkerSlot::Reserved);
    assert!(!pool.needs_first_worker());
    pool.submit();
    pool.submit();
    assert!(pool.extra_workers() >= 1);
    assert_eq!(pool.reserve_worker(), WorkerSlot::Reserved);
    assert_eq!(pool.reserve_worker(), WorkerSlot::Full(true));
    pool.job_taken();
    pool.release_worker();
    assert_eq!(pool.workers, 1);
}

#[test]
fn idle_workers_of_a_pool_may_end() {
    let mut pool = NativeRelayPool::new(4);
    pool.reserve_worker();
    pool.wait_begins();
    assert_eq!(pool.idle, 1);
    assert!(pool.wait_ends(true, true));
    assert_eq!(pool.idle, 0);
    pool.wait_begins();
    assert!(!pool.wait_ends(false, true));
}

#[test]
fn tls_relay_ends_with_the_download() {
    let mut relay = DuplexRelay::tls();
    assert!(relay.begin_round(false));
    let step = relay.client_read(ReadOutcome::Data(10), true);
    assert_eq!(step.action, RelayAction::Forward);
    let step = relay.remote_read(ReadOutcome::Blocked, true);
    assert_eq!(step.action, RelayAction::Nothing);
    assert!(!relay.end_round());

    assert!(relay.begin_round(false));
    let step = relay.client_read(ReadOutcome::End, true);
    assert_eq!(step.action, RelayAction::EndUpload);
    assert!(relay.begin_round(false));
    let step = relay.remote_read(ReadOutcome::Data(7), true);
    assert_eq!(step.action, RelayAction::Forward);
    let step = relay.remote_read(ReadOutcome::End, true);
    assert_eq!(step.action, RelayAction::EndBoth);
    assert!(!relay.begin_round(false));
    assert_eq!(relay.upload, 10);
    assert_eq!(relay.download, 7);
}

#[test]
fn websocket_relay_ends_with_either_side() {
    let mut relay = DuplexRelay::websocket();
    let step = relay.client_read(ReadOutcome::End, true);
    assert_eq!(step.action, RelayAction::EndBoth);
    assert!(!relay.begin_round(false));

    let mut bridge = DuplexRelay::bridge();
    let step = bridge.remote_read(ReadOutcome::End, true);
    assert_eq!(step.action, RelayAction::EndDownload);
    assert!(bridge.begin_round(false));
}

#[test]
fn revoked_users_relay_nothing_more() {
    let mut relay = DuplexRelay::tls();
    let step = relay.client_read(ReadOutcome::Data(10), false);
    assert_eq!(step.action, RelayAction::EndUpload);
    assert!(step.skip);
    assert_eq!(relay.upload, 0);
    assert!(!relay.begin_round(true));
}

#[test]
fn reads_are_told_apart() {
    assert_eq!(read_outcome(Ok(0)), ReadOutcome::End);
    assert_eq!(read_outcome(Ok(3)), ReadOutcome::Data(3));
    assert_eq!(
        read_outcome(Err(ErrorKind::WouldBlock)),
        ReadOutcome::Blocked
    );
    assert_eq!(
        read_outcome(Err(ErrorKind::ConnectionReset)),
        ReadOutcome::Failed
    );
}

#[test]
fn waits_grow_while_nothing_happens() {
    let mut rounds = 0;
    let mut last = 0;
    for _ in 0..40 {
        let wait = relay_idle_sleep(&mut rounds);
        assert!(wait >= last);
        last = wait;
    }
    let mut rounds = 0;
    let mut last = 0;
    for _ in 0..40 {
        let wait = websocket_udp_relay_idle_timeout(&mut rounds);
        assert!(wait >= last);
        last = wait;
    }
}

#[test]
fn writes_go_on_until_all_is_written() {
    let mut write = PendingWrite::new(10);
    assert_eq!(write.first(), WriteStep::Write);
    assert_eq!(
        write.wrote(Ok(4), "no progress").expect("some"),
        WriteStep::Write
    );
    assert_eq!(
        write
            .wrote(
                Err(CoreError {
                    kind: ErrorKind::WouldBlock,
                    message: "later".to_string(),
                }),
                "no progress"
            )
            .expect("later"),
        WriteStep::Wait
    );
    assert_eq!(
        write.wrote(Ok(6), "no progress").expect("rest"),
        WriteStep::Done
    );

    let mut write = PendingWrite::new(10);
    assert_eq!(
        write.wrote(Ok(0), "no progress").expect_err("zero"),
        CoreError {
            kind: ErrorKind::WriteZero,
            message: "no progress".to_string(),
        }
    );
}
