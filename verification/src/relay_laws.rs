//! What a relay does with a read, and how many threads and connections there are.

use vstd::prelude::*;

use crate::connection_workers::{
    quic_threads, snapshot_text, ConnectionWorkerGroup, ConnectionWorkerGroupSnapshot,
    ConnectionWorkerKind, DEFAULT_CONNECTION_WORKER_STACK_KIB, MAX_CONNECTION_WORKER_STACK_KIB,
    MIN_CONNECTION_WORKER_STACK_KIB,
};
use crate::error::ErrorKind;
use crate::numeral::{decimal, parse_unsigned};
use crate::relay::{
    after_client, after_remote, capped, forwards, idle_wait, more_idle, tls_waits, udp_waits,
    DuplexRelay, ReadOutcome,
};
use crate::stream::{
    all_active, blocking_threads, bytes_of, carries, copied, clamped, entered, left_by, native_workers, setting, ReadResult,
    MAX_DETACHED_BLOCKING_RELAY_STACK_KIB, MIN_DETACHED_BLOCKING_RELAY_STACK_KIB,
};
use crate::table::{get, lemma_cut, lemma_put};
use crate::text::trim;

verus! {

/// Data of the client that is granted is counted as upload, and ends nothing.
pub proof fn law_client_data(s: DuplexRelay, n: usize)
    ensures
        ({
            let t = after_client(s, ReadOutcome::Data(n), true);
            &&& s.upload + n <= u64::MAX ==> t.upload == s.upload + n
            &&& s.upload + n > u64::MAX ==> t.upload == u64::MAX
            &&& t.download == s.download
            &&& t.upload_done == s.upload_done && t.download_done == s.download_done
            &&& t.progressed && t.idle_rounds == s.idle_rounds
            &&& t.upload_ends_both == s.upload_ends_both && t.download_ends_both
                == s.download_ends_both
        }),
{
}

/// The end of the client's data ends the upload, and the download where it is to end both; so do a
/// failure and data that is refused. Nothing is counted, and only data that is refused does not
/// count as something that happened. Where nothing is there yet, nothing changes.
pub proof fn law_client_ends(s: DuplexRelay, outcome: ReadOutcome, granted: bool)
    requires
        outcome is Data ==> !granted,
    ensures
        ({
            let t = after_client(s, outcome, granted);
            &&& outcome is Blocked ==> t == s
            &&& !(outcome is Blocked) ==> {
                &&& t.upload_done
                &&& t.download_done <==> s.download_done || s.upload_ends_both
                &&& t.progressed <==> s.progressed || !(outcome is Data)
            }
            &&& t.upload == s.upload && t.download == s.download
            &&& t.idle_rounds == s.idle_rounds
            &&& t.upload_ends_both == s.upload_ends_both && t.download_ends_both
                == s.download_ends_both
        }),
{
}

/// A relay with its two sides exchanged.
pub open spec fn exchanged(s: DuplexRelay) -> DuplexRelay {
    DuplexRelay {
        upload_ends_both: s.download_ends_both,
        download_ends_both: s.upload_ends_both,
        upload: s.download,
        download: s.upload,
        upload_done: s.download_done,
        download_done: s.upload_done,
        progressed: s.progressed,
        idle_rounds: s.idle_rounds,
    }
}

/// A read from the remote side does to the download what one from the client does to the upload.
pub proof fn law_sides_are_alike(s: DuplexRelay, outcome: ReadOutcome, granted: bool)
    ensures
        after_remote(s, outcome, granted) == exchanged(
            after_client(exchanged(s), outcome, granted),
        ),
{
}

/// A read forwards its bytes where they are granted and the direction has not ended.
pub proof fn law_forwarded_bytes(done: bool, outcome: ReadOutcome, granted: bool, n: usize)
    ensures
        forwards(false, ReadOutcome::Data(n), true) == n,
        done || !granted || !(outcome is Data) ==> forwards(done, outcome, granted) == 0,
{
}

/// A count is exact as far as numbers reach.
pub proof fn law_capped(n: nat)
    ensures
        n <= u64::MAX ==> capped(n) == n,
        n > u64::MAX ==> capped(n) == u64::MAX,
{
}

/// An idle relay in TLS waits for one, two, four, eight and then always sixteen milliseconds; one
/// of datagrams over WebSocket for one, two, five and then always ten.
pub proof fn law_idle_waits(rounds: u8)
    ensures
        ({
            let wait = idle_wait(tls_waits(), rounds);
            &&& rounds == 0 ==> wait == 1
            &&& rounds == 1 ==> wait == 2
            &&& rounds == 2 ==> wait == 4
            &&& rounds == 3 ==> wait == 8
            &&& rounds >= 4 ==> wait == 16
        }),
        ({
            let wait = idle_wait(udp_waits(), rounds);
            &&& rounds == 0 ==> wait == 1
            &&& rounds == 1 ==> wait == 2
            &&& rounds == 2 ==> wait == 5
            &&& rounds >= 3 ==> wait == 10
        }),
        rounds < 4 ==> more_idle(tls_waits(), rounds) == rounds + 1,
        rounds >= 4 ==> more_idle(tls_waits(), rounds) == 4,
        rounds < 3 ==> more_idle(udp_waits(), rounds) == rounds + 1,
        rounds >= 3 ==> more_idle(udp_waits(), rounds) == 3,
{
}

/// A relay that begins is one more of its name, and one that ends one less; the last one of its
/// name leaves no count. Other names keep their counts.
pub proof fn law_relays_are_counted(
    active: Seq<(Seq<char>, usize)>,
    name: Seq<char>,
    other: Seq<char>,
)
    requires
        all_active(active),
        other != name,
    ensures
        get(active, name) is None ==> get(entered(active, name), name) == Some(1usize),
        get(active, name) matches Some(n) ==> n < usize::MAX ==> get(entered(active, name), name)
            == Some((n + 1) as usize),
        get(active, name) is None ==> get(left_by(active, name), name) is None,
        get(active, name) == Some(1usize) ==> get(left_by(active, name), name) is None,
        get(active, name) matches Some(n) ==> n > 1 ==> get(left_by(active, name), name) == Some(
            (n - 1) as usize,
        ),
        get(entered(active, name), other) == get(active, other),
        get(left_by(active, name), other) == get(active, other),
{
    let n = match get(active, name) {
        Some(n) => n,
        None => 0usize,
    };
    let up = if n == usize::MAX {
        n
    } else {
        (n + 1) as usize
    };
    lemma_put(active, name, up);
    lemma_put(active, name, 1usize);
    lemma_put(active, name, (n - 1) as usize);
    lemma_cut(active, name);
}

/// As many threads block for relays as sixteen to each processor, and one to each four MiB of the
/// memory where that is limited to that much; but never less than 16 nor more than 128.
pub proof fn law_blocking_threads(cpus: usize, memory: Option<usize>, k: int)
    requires
        16 < k <= 128,
    ensures
        16 <= blocking_threads(cpus, memory) <= 128,
        blocking_threads(cpus, memory) >= k <==> (16 * cpus >= k) && (memory matches Some(mib) ==> mib
            < 4 || mib >= 4 * k),
{
}

/// As many workers relay as sixteen to each processor, one to each four MiB of the memory where
/// that is limited to that much, and one to each four file descriptors beyond 1024 where those are
/// limited to that much; but never less than 16 nor more than 512.
pub proof fn law_native_workers(
    cpus: usize,
    memory: Option<usize>,
    descriptors: Option<usize>,
    k: int,
)
    requires
        16 < k <= 512,
    ensures
        16 <= native_workers(cpus, memory, descriptors) <= 512,
        native_workers(cpus, memory, descriptors) >= k <==> (16 * cpus >= k) && (memory matches Some(
            mib,
        ) ==> mib < 4 || mib >= 4 * k) && (descriptors matches Some(n) ==> n < 1028 || n >= 1024 + 4
            * k),
{
}

/// A number that is brought into a range stays where it is in the range, and goes to its nearer end
/// where it is not.
pub proof fn law_clamped(n: int, low: int, high: int)
    requires
        low <= high,
    ensures
        low <= n <= high ==> clamped(n, low, high) == n,
        n < low ==> clamped(n, low, high) == low,
        n > high ==> clamped(n, low, high) == high,
{
}

/// A setting that is a number in decimal notation, with white space around it or without, is that
/// number; anything else, and none, is the default.
pub proof fn law_setting(text: String, default: usize, n: nat)
    requires
        n <= usize::MAX,
    ensures
        trim(text@) == decimal(n) ==> setting(Some(text), default) == n,
        parse_unsigned(trim(text@), 10, usize::MAX as nat) is None ==> setting(Some(text), default)
            == default,
        setting(None, default) == default,
{
    crate::text_laws::law_number_reads_back(n, 10, usize::MAX as nat);
}

/// The stack of a thread that serves a connection has 2048 KiB where nothing else is set, at least
/// 256 and at most 8192; that of a detached relay has at least 64 and at most 8192.
pub proof fn law_stacks(value: Option<String>, n: int)
    ensures
        setting(None, DEFAULT_CONNECTION_WORKER_STACK_KIB) == 2048,
        256 <= n <= 8192 <==> clamped(
            n,
            MIN_CONNECTION_WORKER_STACK_KIB as int,
            MAX_CONNECTION_WORKER_STACK_KIB as int,
        ) == n,
        64 <= n <= 8192 <==> clamped(
            n,
            MIN_DETACHED_BLOCKING_RELAY_STACK_KIB as int,
            MAX_DETACHED_BLOCKING_RELAY_STACK_KIB as int,
        ) == n,
{
}

/// A QUIC endpoint has as many threads as are set, from 1 to 64; or else half as many as run at
/// once, rounded up, from 2 to 8, and two where that is not known.
pub proof fn law_quic_threads(text: String, parallelism: usize, n: nat)
    requires
        n <= usize::MAX,
    ensures
        trim(text@) == decimal(n) && 1 <= n <= 64 ==> quic_threads(Some(text), Some(parallelism))
            == n,
        trim(text@) == decimal(n) && n > 64 ==> quic_threads(Some(text), Some(parallelism)) == 64,
        trim(text@) == decimal(n) && n == 0 ==> quic_threads(Some(text), Some(parallelism)) == 1,
        quic_threads(None, None) == 2,
        parallelism < 4 ==> quic_threads(None, Some(parallelism)) == 2,
        4 <= parallelism <= 16 ==> quic_threads(None, Some(parallelism)) == parallelism / 2
            + parallelism % 2,
        parallelism > 16 ==> quic_threads(None, Some(parallelism)) == 8,
        parse_unsigned(trim(text@), 10, usize::MAX as nat) is None ==> quic_threads(
            Some(text),
            Some(parallelism),
        ) == quic_threads(None, Some(parallelism)),
{
    crate::text_laws::law_number_reads_back(n, 10, usize::MAX as nat);
}

/// Connections of the two kinds are counted apart, and together they are the total.
pub proof fn law_connections_by_kind(group: ConnectionWorkerGroup, n: nat)
    requires
        n <= usize::MAX,
    ensures
        group.total() == group.active_blocking + group.active_async,
        group.active(ConnectionWorkerKind::Blocking) == group.active_blocking,
        group.active(ConnectionWorkerKind::Async) == group.active_async,
        group.with(ConnectionWorkerKind::Blocking, n).active_blocking == n,
        group.with(ConnectionWorkerKind::Blocking, n).active_async == group.active_async,
        group.with(ConnectionWorkerKind::Async, n).active_async == n,
        group.with(ConnectionWorkerKind::Async, n).active_blocking == group.active_blocking,
{
}

/// What is said of the connections names each count in decimal notation.
pub proof fn law_snapshot_text(s: ConnectionWorkerGroupSnapshot)
    ensures
        snapshot_text(s) == "connection_active_total="@ + decimal(s.active_total as nat)
            + " connection_active_blocking="@ + decimal(s.active_blocking as nat)
            + " connection_active_async="@ + decimal(s.active_async as nat),
{
}

/// The bytes of reads are those of one read behind those of the others; a read that fails gives
/// none.
pub proof fn law_bytes_of_reads(reads: Seq<ReadResult>, bytes: Seq<u8>, kind: ErrorKind)
    ensures
        bytes_of(Seq::empty()) == Seq::<u8>::empty(),
        bytes_of(reads.push(Ok(bytes))) == bytes_of(reads) + bytes,
        bytes_of(reads.push(Err(kind))) == bytes_of(reads),
{
    assert(reads.push(Ok(bytes)).drop_last() =~= reads);
    assert(reads.push(Err(kind)).drop_last() =~= reads);
    assert(bytes_of(reads) + Seq::<u8>::empty() =~= bytes_of(reads));
}

/// A copy that does not end with a write that fails has written exactly what it counts, which are
/// the bytes of all reads but those of the last, and of the last where it gave none. One that is
/// refused bandwidth has written nothing of the last read.
pub proof fn law_copy_counts_what_it_writes(
    reads: Seq<ReadResult>,
    answers: Seq<(nat, bool)>,
    before: Seq<u8>,
    after: Seq<u8>,
    failed: int,
    count: u64,
)
    requires
        copied(reads, answers, before, after, failed, count),
    ensures
        failed == 0 ==> after == before + bytes_of(reads.drop_last()),
        failed == 0 && after.len() - before.len() <= u64::MAX ==> count == after.len()
            - before.len(),
        failed == 0 || failed == 1,
        after.len() >= before.len() && after.subrange(0, before.len() as int) == before,
        failed == 0 ==> !carries(reads.last()) || !answers.last().1,
        failed == 1 ==> carries(reads.last()) && answers.last().1,
        forall|i: int| 0 <= i < reads.len() - 1 ==> (#[trigger] reads[i]) is Ok,
        forall|i: int|
            0 <= i < reads.len() - 1 && i < answers.len() ==> (#[trigger] answers[i]).1
                && answers[i].0 == reads[i]->Ok_0.len(),
{
    let forwarded = reads.drop_last();
    let passed = before + bytes_of(forwarded);
    assert forall|i: int| 0 <= i < reads.len() - 1 implies (#[trigger] reads[i]) is Ok by {
        assert(carries(forwarded[i]));
    }
    assert forall|i: int| 0 <= i < reads.len() - 1 && i < answers.len() implies (
    #[trigger] answers[i]).1 && answers[i].0 == reads[i]->Ok_0.len() by {
        if carries(reads.last()) {
            assert(answers.drop_last()[i] == answers[i]);
        }
        assert(forwarded[i] == reads[i]);
    }
    assert(after.subrange(0, before.len() as int) =~= before) by {
        if failed == 1 {
            assert(passed.is_prefix_of(after));
            assert(after.subrange(0, passed.len() as int) =~= passed);
            assert forall|i: int| 0 <= i < before.len() implies after[i] == before[i] by {
                assert(passed[i] == before[i]);
                assert(after.subrange(0, passed.len() as int)[i] == after[i]);
            }
        }
    }
}

/// A read that gave a byte carries something; one at the end, or one that failed, does not.
pub proof fn law_reads_that_carry(bytes: Seq<u8>, kind: ErrorKind)
    ensures
        carries(Ok(bytes)) <==> bytes != Seq::<u8>::empty(),
        !carries(Err(kind)),
{
    if bytes.len() == 0 {
        assert(bytes =~= Seq::<u8>::empty());
    }
}

/// A relay is over once both directions are, and not before.
pub proof fn law_both_directions_end(s: DuplexRelay)
    ensures
        s.finished() ==> s.upload_done && s.download_done,
        !s.finished() ==> !s.upload_done || !s.download_done,
{
}

} // verus!
