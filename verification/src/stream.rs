//! Copying byte streams with a count, and the resources that relays take.

use vstd::prelude::*;

use crate::error::ErrorKind;
use crate::numeral::{parse_trimmed, parse_unsigned};
use crate::order::{
    lemma_single_rank, lemma_sort_of_mapped, rank_of, sort_by, sort_ranked, text_before, Ranked,
};
use crate::relay::{capped, ReadOutcome};
use crate::table::{cut, distinct, get, lemma_cut, lemma_find, lemma_put, put, Table};
use crate::text::trim;
use crate::traffic::saturated;

verus! {

/// How much is read at a time.
pub const RELAY_COPY_BUFFER_SIZE: usize = 65_536;

pub const TCP_RELAY_BLOCKING_THREADS_MIN: usize = 16;

pub const TCP_RELAY_BLOCKING_THREADS_MAX: usize = 128;

pub const NATIVE_RELAY_WORKERS_MIN: usize = 16;

pub const NATIVE_RELAY_WORKERS_MAX: usize = 512;

/// How many threads there are per processor.
pub const RELAY_THREADS_PER_CPU: usize = 16;

/// How much memory a thread takes, in MiB.
pub const RELAY_THREAD_MEMORY_MIB: usize = 4;

/// How many file descriptors are kept free.
pub const NATIVE_RELAY_RESERVED_FDS: usize = 1024;

/// How many file descriptors a worker takes.
pub const NATIVE_RELAY_FDS_PER_WORKER: usize = 4;

pub const WINDOWS_DETACHED_BLOCKING_RELAY_STACK_KIB: usize = 2048;

pub const UNIX_DETACHED_BLOCKING_RELAY_STACK_KIB: usize = 256;

pub const MIN_DETACHED_BLOCKING_RELAY_STACK_KIB: usize = 64;

pub const MAX_DETACHED_BLOCKING_RELAY_STACK_KIB: usize = 8192;

/// How many workers are added at a time.
pub const NATIVE_RELAY_SPAWN_BATCH: usize = 8;

/// The stack of a worker, in bytes.
pub const NATIVE_RELAY_STACK_SIZE: usize = 262_144;

/// How long a worker waits for a job before it may leave, in seconds.
pub const NATIVE_RELAY_IDLE_TIMEOUT_SECS: u64 = 10;

/// What one read gave: some bytes, or an error.
pub type ReadResult = Result<Seq<u8>, ErrorKind>;

/// Whether a read gave any bytes.
pub open spec fn carries(read: ReadResult) -> bool {
    read is Ok && read->Ok_0.len() > 0
}

/// The bytes that reads gave, in order.
pub open spec fn bytes_of(reads: Seq<ReadResult>) -> Seq<u8>
    decreases reads.len(),
{
    if reads.len() == 0 {
        Seq::empty()
    } else {
        bytes_of(reads.drop_last()) + (match reads.last() {
            Ok(bytes) => bytes,
            Err(_) => Seq::empty(),
        })
    }
}

/// The bytes of reads that follow others.
pub proof fn lemma_bytes_of(a: Seq<ReadResult>, b: Seq<ReadResult>)
    ensures
        bytes_of(a + b) == bytes_of(a) + bytes_of(b),
    decreases b.len(),
{
    if b.len() == 0 {
        assert(a + b =~= a);
        assert(bytes_of(a) + bytes_of(b) =~= bytes_of(a));
    } else {
        lemma_bytes_of(a, b.drop_last());
        assert((a + b).drop_last() =~= a + b.drop_last());
        assert(bytes_of(a + b) =~= bytes_of(a) + bytes_of(b));
    }
}

/// Where bytes are read from. The functions that describe a source are its own to define; one
/// outside of the proofs leaves them as they are.
pub trait ByteSource: Sized {
    /// What each read gave so far, in order.
    closed spec fn reads(&self) -> Seq<ReadResult> {
        vstd::pervasive::arbitrary()
    }

    /// The bytes that are still to come.
    closed spec fn left(&self) -> Seq<u8> {
        vstd::pervasive::arbitrary()
    }

    /// Whether no read fails, and each gives something as long as there is something left.
    closed spec fn never_fails(&self) -> bool {
        vstd::pervasive::arbitrary()
    }

    /// Reads some bytes, but not more than the limit.
    fn read(&mut self, limit: usize) -> (r: Result<Vec<u8>, ErrorKind>)
        requires
            limit > 0,
        ensures
            match r {
                Ok(bytes) => {
                    &&& bytes@.len() <= limit
                    &&& final(self).reads() == old(self).reads().push(Ok(bytes@))
                    &&& old(self).left() == bytes@ + final(self).left()
                },
                Err(kind) => {
                    &&& final(self).reads() == old(self).reads().push(Err(kind))
                    &&& final(self).left() == old(self).left()
                },
            },
            old(self).never_fails() ==> {
                &&& r matches Ok(bytes) && (bytes@.len() == 0 ==> old(self).left().len() == 0)
                &&& final(self).never_fails()
            },
    ;
}

/// All bytes of a source: those that were read and those that are still to come.
pub open spec fn content<R: ByteSource>(source: R) -> Seq<u8> {
    bytes_of(source.reads()) + source.left()
}

/// Where bytes are written to. The functions that describe a sink are its own to define.
pub trait ByteSink: Sized {
    /// The bytes that were written.
    closed spec fn taken(&self) -> Seq<u8> {
        vstd::pervasive::arbitrary()
    }

    /// How many writes failed.
    closed spec fn failures(&self) -> nat {
        vstd::pervasive::arbitrary()
    }

    /// Whether no write fails.
    closed spec fn takes_all(&self) -> bool {
        vstd::pervasive::arbitrary()
    }

    /// Writes all bytes; where that fails, the first of them may have been written.
    fn write_all(&mut self, bytes: &[u8]) -> (r: Result<(), ErrorKind>)
        ensures
            match r {
                Ok(_) => {
                    &&& final(self).taken() == old(self).taken() + bytes@
                    &&& final(self).failures() == old(self).failures()
                },
                Err(_) => {
                    &&& old(self).taken().is_prefix_of(final(self).taken())
                    &&& final(self).taken().is_prefix_of(old(self).taken() + bytes@)
                    &&& final(self).failures() == old(self).failures() + 1
                },
            },
            old(self).takes_all() ==> r is Ok && final(self).takes_all(),
    ;
}

/// What grants the bandwidth of a user. The functions that describe a limiter are its own to
/// define.
pub trait Limiter: Sized {
    /// How many bytes were asked for each time, and whether they were granted.
    closed spec fn answers(&self) -> Seq<(nat, bool)> {
        vstd::pervasive::arbitrary()
    }

    /// Whether nothing is granted any more.
    closed spec fn revoked(&self) -> bool {
        vstd::pervasive::arbitrary()
    }

    /// Whether everything is granted.
    closed spec fn grants_all(&self) -> bool {
        vstd::pervasive::arbitrary()
    }

    /// Waits until there is room for so many bytes; whether it is granted.
    fn wait_for(&mut self, bytes: usize) -> (r: bool)
        ensures
            final(self).answers() == old(self).answers().push((bytes as nat, r)),
            old(self).revoked() ==> !r && final(self).revoked(),
            old(self).grants_all() ==> r && final(self).grants_all(),
    ;
}

/// Grants everything.
pub struct Unlimited {
    pub log: Ghost<Seq<(nat, bool)>>,
}

impl Unlimited {
    /// One that was not asked yet.
    pub fn new() -> (r: Unlimited)
        ensures
            r.answers() == Seq::<(nat, bool)>::empty(),
    {
        Unlimited { log: Ghost(Seq::empty()) }
    }
}

impl Limiter for Unlimited {
    open spec fn answers(&self) -> Seq<(nat, bool)> {
        self.log@
    }

    open spec fn revoked(&self) -> bool {
        false
    }

    open spec fn grants_all(&self) -> bool {
        true
    }

    fn wait_for(&mut self, bytes: usize) -> (r: bool) {
        self.log = Ghost(self.log@.push((bytes as nat, true)));
        true
    }
}

/// Grants everything to a user who was not revoked.
pub struct Revocable {
    pub revoked: bool,
    pub log: Ghost<Seq<(nat, bool)>>,
}

impl Revocable {
    /// One that was not asked yet.
    pub fn new(revoked: bool) -> (r: Revocable)
        ensures
            r.revoked == revoked,
            r.answers() == Seq::<(nat, bool)>::empty(),
    {
        Revocable { revoked, log: Ghost(Seq::empty()) }
    }
}

impl Limiter for Revocable {
    open spec fn answers(&self) -> Seq<(nat, bool)> {
        self.log@
    }

    open spec fn revoked(&self) -> bool {
        self.revoked
    }

    open spec fn grants_all(&self) -> bool {
        !self.revoked
    }

    fn wait_for(&mut self, bytes: usize) -> (r: bool)
        ensures
            r == !old(self).revoked,
            final(self).revoked == old(self).revoked,
    {
        let granted = !self.revoked;
        self.log = Ghost(self.log@.push((bytes as nat, granted)));
        granted
    }
}

/// Bytes in memory that are read from the front.
pub struct MemorySource {
    pub bytes: Vec<u8>,
    pub position: usize,
    pub log: Ghost<Seq<ReadResult>>,
}

impl MemorySource {
    /// The bytes to be read.
    pub fn new(bytes: Vec<u8>) -> (r: MemorySource)
        ensures
            r.bytes == bytes,
            r.position == 0,
            r.reads() == Seq::<ReadResult>::empty(),
            r.left() == bytes@,
    {
        let r = MemorySource { bytes, position: 0, log: Ghost(Seq::empty()) };
        assert(r.left() =~= bytes@);
        r
    }
}

impl ByteSource for MemorySource {
    open spec fn reads(&self) -> Seq<ReadResult> {
        self.log@
    }

    open spec fn left(&self) -> Seq<u8> {
        if self.position <= self.bytes@.len() {
            self.bytes@.subrange(self.position as int, self.bytes@.len() as int)
        } else {
            Seq::empty()
        }
    }

    open spec fn never_fails(&self) -> bool {
        true
    }

    fn read(&mut self, limit: usize) -> (r: Result<Vec<u8>, ErrorKind>)
        ensures
            final(self).bytes == old(self).bytes,
    {
        if self.position >= self.bytes.len() {
            let none: Vec<u8> = Vec::new();
            self.log = Ghost(self.log@.push(Ok(none@)));
            assert(old(self).left() =~= none@ + self.left());
            return Ok(none);
        }
        let rest: usize = self.bytes.len() - self.position;
        let count: usize = if rest < limit {
            rest
        } else {
            limit
        };
        let from: usize = self.position;
        let chunk = crate::wire::copy_bytes(self.bytes.as_slice(), from, from + count);
        self.position = from + count;
        self.log = Ghost(self.log@.push(Ok(chunk@)));
        assert(old(self).left() =~= chunk@ + self.left());
        Ok(chunk)
    }
}

impl ByteSink for Vec<u8> {
    open spec fn taken(&self) -> Seq<u8> {
        self@
    }

    open spec fn failures(&self) -> nat {
        0
    }

    open spec fn takes_all(&self) -> bool {
        true
    }

    fn write_all(&mut self, bytes: &[u8]) -> (r: Result<(), ErrorKind>) {
        crate::wire::push_bytes(self, bytes);
        Ok(())
    }
}

/// What is new behind an earlier log.
pub open spec fn since<T>(earlier: Seq<T>, later: Seq<T>) -> Seq<T> {
    later.subrange(earlier.len() as int, later.len() as int)
}

/// Whether a limiter granted exactly what was read.
pub open spec fn all_granted(reads: Seq<ReadResult>, answers: Seq<(nat, bool)>) -> bool {
    &&& answers.len() == reads.len()
    &&& forall|i: int|
        0 <= i < reads.len() ==> #[trigger] answers[i] == (reads[i]->Ok_0.len(), true)
}

/// Whether reads all gave bytes, and none more than is read at a time.
pub open spec fn all_carry(reads: Seq<ReadResult>) -> bool {
    forall|i: int|
        0 <= i < reads.len() ==> carries(#[trigger] reads[i]) && reads[i]->Ok_0.len()
            <= RELAY_COPY_BUFFER_SIZE
}

/// What a copy does, by its reads and by the answers of the limiter. Every read but the last gave
/// bytes, which were granted and forwarded. The last read gave nothing or failed, or its bytes
/// were refused and none of them forwarded, or they were granted and writing them failed.
pub open spec fn copied(
    reads: Seq<ReadResult>,
    answers: Seq<(nat, bool)>,
    before: Seq<u8>,
    after: Seq<u8>,
    failed_writes: int,
    count: u64,
) -> bool {
    let forwarded = reads.drop_last();
    let passed = before + bytes_of(forwarded);
    &&& reads.len() > 0
    &&& all_carry(forwarded)
    &&& count == capped(bytes_of(forwarded).len())
    &&& if !carries(reads.last()) {
        &&& all_granted(forwarded, answers)
        &&& after == passed
        &&& failed_writes == 0
    } else {
        &&& answers.len() == reads.len()
        &&& all_granted(forwarded, answers.drop_last())
        &&& reads.last()->Ok_0.len() <= RELAY_COPY_BUFFER_SIZE
        &&& answers.last().0 == reads.last()->Ok_0.len()
        &&& if answers.last().1 {
            &&& passed.is_prefix_of(after)
            &&& after.is_prefix_of(before + bytes_of(reads))
            &&& failed_writes == 1
        } else {
            &&& after == passed
            &&& failed_writes == 0
        }
    }
}

/// Copies until a read gives nothing or fails, bandwidth is refused, or a write fails; gives the
/// number of bytes that were forwarded.
pub fn copy_count_best_effort_limited<R: ByteSource, W: ByteSink, L: Limiter>(
    reader: &mut R,
    writer: &mut W,
    limiter: &mut L,
) -> (r: u64)
    ensures
        old(reader).reads().is_prefix_of(final(reader).reads()),
        old(limiter).answers().is_prefix_of(final(limiter).answers()),
        content(*final(reader)) == content(*old(reader)),
        old(reader).left() == bytes_of(since(old(reader).reads(), final(reader).reads()))
            + final(reader).left(),
        copied(
            since(old(reader).reads(), final(reader).reads()),
            since(old(limiter).answers(), final(limiter).answers()),
            old(writer).taken(),
            final(writer).taken(),
            final(writer).failures() - old(writer).failures(),
            r,
        ),
        old(limiter).revoked() ==> r == 0 && final(writer).taken() == old(writer).taken(),
        old(limiter).grants_all() ==> forall|i: int|
            old(limiter).answers().len() <= i < final(limiter).answers().len() ==> (
            #[trigger] final(limiter).answers()[i]).1,
        old(reader).never_fails() && old(writer).takes_all() && old(limiter).grants_all() ==> {
            &&& final(writer).taken() == old(writer).taken() + old(reader).left()
            &&& r == capped(old(reader).left().len())
            &&& final(reader).left().len() == 0
        },
{
    let mut total: u64 = 0;
    let ghost mut done: Seq<ReadResult> = Seq::empty();
    let ghost mut granted: Seq<(nat, bool)> = Seq::empty();
    loop
        invariant
            reader.reads() == old(reader).reads() + done,
            limiter.answers() == old(limiter).answers() + granted,
            all_carry(done),
            all_granted(done, granted),
            old(reader).left() == bytes_of(done) + reader.left(),
            total == capped(bytes_of(done).len()),
            writer.taken() == old(writer).taken() + bytes_of(done),
            writer.failures() == old(writer).failures(),
            old(limiter).revoked() ==> limiter.revoked() && done.len() == 0,
            old(limiter).grants_all() ==> limiter.grants_all(),
            old(reader).never_fails() ==> reader.never_fails(),
            old(writer).takes_all() ==> writer.takes_all(),
        decreases reader.left().len(),
    {
        let read = reader.read(RELAY_COPY_BUFFER_SIZE);
        let ghost reads = done.push(reader.reads().last());
        proof {
            assert(reader.reads() =~= old(reader).reads() + reads);
            assert(since(old(reader).reads(), reader.reads()) =~= reads);
            assert(since(old(limiter).answers(), limiter.answers()) =~= granted);
            assert(reads.drop_last() =~= done);
            assert(old(reader).left() =~= bytes_of(reads) + reader.left());
            lemma_bytes_of(old(reader).reads(), reads);
            assert(content(*reader) =~= content(*old(reader)));
        }
        let chunk = match read {
            Ok(chunk) => chunk,
            Err(_) => {
                return total;
            },
        };
        if chunk.len() == 0 {
            return total;
        }
        let ghost asked = granted.push((chunk@.len(), true));
        if !limiter.wait_for(chunk.len()) {
            proof {
                let answers = granted.push((chunk@.len(), false));
                assert(limiter.answers() =~= old(limiter).answers() + answers);
                assert(since(old(limiter).answers(), limiter.answers()) =~= answers);
                assert(answers.drop_last() =~= granted);
            }
            return total;
        }
        proof {
            assert(limiter.answers() =~= old(limiter).answers() + asked);
            assert(since(old(limiter).answers(), limiter.answers()) =~= asked);
            assert(asked.drop_last() =~= granted);
            assert(old(writer).taken() + bytes_of(done) + chunk@ =~= old(writer).taken()
                + bytes_of(reads));
        }
        if writer.write_all(chunk.as_slice()).is_err() {
            return total;
        }
        total = total.saturating_add(chunk.len() as u64);
        proof {
            done = reads;
            granted = asked;
        }
    }
}

/// Copies until a read gives nothing or fails, or a write fails; gives the number of bytes that
/// were forwarded.
pub fn copy_count_best_effort<R: ByteSource, W: ByteSink>(reader: &mut R, writer: &mut W) -> (r: u64)
    ensures
        old(reader).reads().is_prefix_of(final(reader).reads()),
        content(*final(reader)) == content(*old(reader)),
        old(reader).left() == bytes_of(since(old(reader).reads(), final(reader).reads()))
            + final(reader).left(),
        ({
            let reads = since(old(reader).reads(), final(reader).reads());
            let passed = old(writer).taken() + bytes_of(reads.drop_last());
            &&& reads.len() > 0
            &&& all_carry(reads.drop_last())
            &&& r == capped(bytes_of(reads.drop_last()).len())
            &&& if !carries(reads.last()) {
                &&& final(writer).taken() == passed
                &&& final(writer).failures() == old(writer).failures()
            } else {
                &&& passed.is_prefix_of(final(writer).taken())
                &&& final(writer).taken().is_prefix_of(old(writer).taken() + bytes_of(reads))
                &&& final(writer).failures() == old(writer).failures() + 1
            }
        }),
        old(reader).never_fails() && old(writer).takes_all() ==> {
            &&& final(writer).taken() == old(writer).taken() + old(reader).left()
            &&& r == capped(old(reader).left().len())
            &&& final(reader).left().len() == 0
        },
{
    let mut unlimited = Unlimited::new();
    copy_count_best_effort_limited(reader, writer, &mut unlimited)
}

/// What a stream is closed with once its copy ends.
#[derive(Clone, Copy, Debug, PartialEq, Eq, Structural)]
pub enum CopyEnd {
    /// Both connections are closed.
    CloseBoth,
    /// The side that was written to is closed for writing.
    CloseWriter,
}

/// A copy that is made piece by piece.
#[derive(Clone, Copy, Debug, PartialEq, Eq, Structural)]
pub struct CopyCount {
    pub total: u64,
}

impl CopyCount {
    /// A copy that begins.
    pub fn new() -> (r: CopyCount)
        ensures
            r.total == 0,
    {
        CopyCount { total: 0 }
    }

    /// Whether the copy goes on with what was read: there is data, and bandwidth for it.
    pub fn goes_on(&self, outcome: ReadOutcome, granted: bool) -> (r: bool)
        ensures
            r == (outcome is Data && granted),
    {
        match outcome {
            ReadOutcome::Data(_) => granted,
            _ => false,
        }
    }

    /// Takes the outcome of writing so many bytes; whether the copy goes on.
    pub fn written(&mut self, bytes: usize, succeeded: bool) -> (r: bool)
        ensures
            r == succeeded,
            final(self).total == (if succeeded {
                saturated(old(self).total, bytes as u64)
            } else {
                old(self).total
            }),
    {
        if succeeded {
            self.total = self.total.saturating_add(bytes as u64);
        }
        succeeded
    }
}

/// What a stream is closed with once its copy ends.
pub fn copy_end(close_peer_on_eof: bool) -> (r: CopyEnd)
    ensures
        r == (if close_peer_on_eof {
            CopyEnd::CloseBoth
        } else {
            CopyEnd::CloseWriter
        }),
{
    if close_peer_on_eof {
        CopyEnd::CloseBoth
    } else {
        CopyEnd::CloseWriter
    }
}

/// The smaller of two numbers.
pub open spec fn least(a: int, b: int) -> int {
    if a <= b {
        a
    } else {
        b
    }
}

/// A number brought into a range.
pub open spec fn clamped(n: int, low: int, high: int) -> int {
    if n < low {
        low
    } else if n > high {
        high
    } else {
        n
    }
}

/// A number brought into a range.
pub fn clamp(n: usize, low: usize, high: usize) -> (r: usize)
    requires
        low <= high,
    ensures
        r == clamped(n as int, low as int, high as int),
{
    if n < low {
        low
    } else if n > high {
        high
    } else {
        n
    }
}

/// How many threads the processors are good for.
pub open spec fn cpu_target(cpu_count: usize) -> int {
    let cpus = if cpu_count == 0 {
        1
    } else {
        cpu_count as int
    };
    least(cpus * RELAY_THREADS_PER_CPU, usize::MAX as int)
}

/// How many threads the memory is good for, where it is limited to more than nothing.
pub open spec fn memory_target(memory_limit_mib: Option<usize>, max: int) -> int {
    match memory_limit_mib {
        Some(mib) => if mib as int / RELAY_THREAD_MEMORY_MIB as int > 0 {
            mib as int / RELAY_THREAD_MEMORY_MIB as int
        } else {
            max
        },
        None => max,
    }
}

/// How many workers the file descriptors are good for, where they are limited to more than the
/// reserve.
pub open spec fn fd_target(fd_limit: Option<usize>, max: int) -> int {
    match fd_limit {
        Some(limit) => if limit >= NATIVE_RELAY_RESERVED_FDS && (limit - NATIVE_RELAY_RESERVED_FDS)
            / NATIVE_RELAY_FDS_PER_WORKER as int > 0 {
            (limit - NATIVE_RELAY_RESERVED_FDS) / NATIVE_RELAY_FDS_PER_WORKER as int
        } else {
            max
        },
        None => max,
    }
}

/// How many threads block for relays: as many as processors and memory are good for, within
/// bounds.
pub open spec fn blocking_threads(cpu_count: usize, memory_limit_mib: Option<usize>) -> int {
    clamped(
        least(
            cpu_target(cpu_count),
            memory_target(memory_limit_mib, TCP_RELAY_BLOCKING_THREADS_MAX as int),
        ),
        TCP_RELAY_BLOCKING_THREADS_MIN as int,
        TCP_RELAY_BLOCKING_THREADS_MAX as int,
    )
}

/// How many workers relay: as many as processors, memory and file descriptors are good for,
/// within bounds.
pub open spec fn native_workers(
    cpu_count: usize,
    memory_limit_mib: Option<usize>,
    fd_limit: Option<usize>,
) -> int {
    clamped(
        least(
            least(
                cpu_target(cpu_count),
                memory_target(memory_limit_mib, NATIVE_RELAY_WORKERS_MAX as int),
            ),
            fd_target(fd_limit, NATIVE_RELAY_WORKERS_MAX as int),
        ),
        NATIVE_RELAY_WORKERS_MIN as int,
        NATIVE_RELAY_WORKERS_MAX as int,
    )
}

/// How many threads the processors are good for.
fn cpu_threads(cpu_count: usize) -> (r: usize)
    ensures
        r == cpu_target(cpu_count),
{
    let cpus: usize = if cpu_count == 0 {
        1
    } else {
        cpu_count
    };
    match cpus.checked_mul(RELAY_THREADS_PER_CPU) {
        Some(threads) => threads,
        None => usize::MAX,
    }
}

/// How many threads the memory is good for.
fn memory_threads(memory_limit_mib: Option<usize>, max: usize) -> (r: usize)
    ensures
        r == memory_target(memory_limit_mib, max as int),
{
    match memory_limit_mib {
        Some(mib) => {
            let threads: usize = mib / RELAY_THREAD_MEMORY_MIB;
            if threads > 0 {
                threads
            } else {
                max
            }
        },
        None => max,
    }
}

/// The smaller of two numbers.
fn min(a: usize, b: usize) -> (r: usize)
    ensures
        r == least(a as int, b as int),
{
    if a <= b {
        a
    } else {
        b
    }
}

/// How many threads block for relays, from the number of processors and the memory.
pub fn tcp_relay_blocking_threads_from_resources(
    cpu_count: usize,
    memory_limit_mib: Option<usize>,
) -> (r: usize)
    ensures
        r == blocking_threads(cpu_count, memory_limit_mib),
{
    let cpu: usize = cpu_threads(cpu_count);
    let memory: usize = memory_threads(memory_limit_mib, TCP_RELAY_BLOCKING_THREADS_MAX);
    clamp(min(cpu, memory), TCP_RELAY_BLOCKING_THREADS_MIN, TCP_RELAY_BLOCKING_THREADS_MAX)
}

/// How many workers relay, from the number of processors, the memory and the file descriptors.
pub fn native_relay_worker_threads_from_resources(
    cpu_count: usize,
    memory_limit_mib: Option<usize>,
    fd_limit: Option<usize>,
) -> (r: usize)
    ensures
        r == native_workers(cpu_count, memory_limit_mib, fd_limit),
{
    let cpu: usize = cpu_threads(cpu_count);
    let memory: usize = memory_threads(memory_limit_mib, NATIVE_RELAY_WORKERS_MAX);
    let fds: usize = match fd_limit {
        Some(limit) => {
            let workers: usize = if limit >= NATIVE_RELAY_RESERVED_FDS {
                (limit - NATIVE_RELAY_RESERVED_FDS) / NATIVE_RELAY_FDS_PER_WORKER
            } else {
                0
            };
            if workers > 0 {
                workers
            } else {
                NATIVE_RELAY_WORKERS_MAX
            }
        },
        None => NATIVE_RELAY_WORKERS_MAX,
    };
    clamp(min(min(cpu, memory), fds), NATIVE_RELAY_WORKERS_MIN, NATIVE_RELAY_WORKERS_MAX)
}

/// More processors, memory or file descriptors never give fewer workers, as long as the memory
/// and the file descriptors are enough for one.
pub proof fn law_resources_never_reduce_workers(
    cpus: usize,
    more_cpus: usize,
    mib: usize,
    more_mib: usize,
    fds: usize,
    more_fds: usize,
)
    requires
        cpus <= more_cpus,
        RELAY_THREAD_MEMORY_MIB <= mib <= more_mib,
        NATIVE_RELAY_RESERVED_FDS + NATIVE_RELAY_FDS_PER_WORKER <= fds <= more_fds,
    ensures
        blocking_threads(cpus, Some(mib)) <= blocking_threads(more_cpus, Some(more_mib)),
        native_workers(cpus, Some(mib), Some(fds)) <= native_workers(
            more_cpus,
            Some(more_mib),
            Some(more_fds),
        ),
{
}

/// The setting of a number: what it says where it is a number, or else the default.
pub open spec fn setting(value: Option<String>, default: usize) -> int {
    match value {
        Some(text) => match parse_unsigned(trim(text@), 10, usize::MAX as nat) {
            Some(n) => n as int,
            None => default as int,
        },
        None => default as int,
    }
}

/// The number that a setting says, where it is one.
pub fn set_number(value: &Option<String>) -> (r: Option<usize>)
    ensures
        match r {
            Some(n) => value is Some && parse_unsigned(
                trim(value->0@),
                10,
                usize::MAX as nat,
            ) == Some(n as nat),
            None => value is None || parse_unsigned(
                trim(value->0@),
                10,
                usize::MAX as nat,
            ) is None,
        },
{
    match value {
        Some(text) => match parse_trimmed(text.as_str(), usize::MAX as u64) {
            Some(n) => Some(n as usize),
            None => None,
        },
        None => None,
    }
}

/// How many workers relay where the setting says a number.
pub fn native_relay_workers_setting(value: Option<String>) -> (r: Option<usize>)
    ensures
        match r {
            Some(n) => value is Some && parse_unsigned(
                trim(value->0@),
                10,
                usize::MAX as nat,
            ) is Some && n == clamped(setting(value, 0), 16, 1024),
            None => value is None || parse_unsigned(
                trim(value->0@),
                10,
                usize::MAX as nat,
            ) is None,
        },
{
    match set_number(&value) {
        Some(n) => Some(clamp(n, 16, 1024)),
        None => None,
    }
}

/// How many threads run the relay runtime.
pub fn tcp_relay_worker_threads(cpu_count: usize) -> (r: usize)
    ensures
        r == clamped(cpu_count as int, 2, 16),
{
    clamp(cpu_count, 2, 16)
}

/// The stack of a detached relay, in KiB.
pub fn detached_blocking_relay_default_stack_kib(is_windows: bool) -> (r: usize)
    ensures
        r == (if is_windows {
            WINDOWS_DETACHED_BLOCKING_RELAY_STACK_KIB
        } else {
            UNIX_DETACHED_BLOCKING_RELAY_STACK_KIB
        }),
{
    if is_windows {
        WINDOWS_DETACHED_BLOCKING_RELAY_STACK_KIB
    } else {
        UNIX_DETACHED_BLOCKING_RELAY_STACK_KIB
    }
}

/// The stack of a detached relay, in bytes: what the setting says in KiB, or else the default,
/// within its bounds.
pub fn detached_blocking_relay_stack_size_from_env(value: Option<String>, default_kib: usize) -> (r:
    usize)
    ensures
        r == clamped(
            setting(value, default_kib),
            MIN_DETACHED_BLOCKING_RELAY_STACK_KIB as int,
            MAX_DETACHED_BLOCKING_RELAY_STACK_KIB as int,
        ) * 1024,
{
    let kib: usize = match set_number(&value) {
        Some(n) => n,
        None => default_kib,
    };
    clamp(kib, MIN_DETACHED_BLOCKING_RELAY_STACK_KIB, MAX_DETACHED_BLOCKING_RELAY_STACK_KIB) * 1024
}

/// The workers of a relay pool: how many there are, how many of them wait, how many jobs wait.
#[derive(Clone, Copy, Debug, PartialEq, Eq, Structural)]
pub struct NativeRelayPool {
    pub workers: usize,
    pub idle: usize,
    pub pending: usize,
    pub max_workers: usize,
}

/// Whether another worker can be had.
#[derive(Clone, Copy, Debug, PartialEq, Eq, Structural)]
pub enum WorkerSlot {
    /// A place was taken: a worker is to be spawned.
    Reserved,
    /// There is no place; whether there is any worker.
    Full(bool),
}

impl NativeRelayPool {
    /// There are not more workers than there may be.
    pub open spec fn wf(&self) -> bool {
        self.workers <= self.max_workers
    }

    /// A pool without workers.
    pub fn new(max_workers: usize) -> (r: NativeRelayPool)
        ensures
            r.wf(),
            r == (NativeRelayPool { workers: 0, idle: 0, pending: 0, max_workers }),
    {
        NativeRelayPool { workers: 0, idle: 0, pending: 0, max_workers }
    }

    /// Whether a worker has to be spawned before a job can be taken.
    pub fn needs_first_worker(&self) -> (r: bool)
        ensures
            r == (self.workers == 0),
    {
        self.workers == 0
    }

    /// Takes a place for a worker.
    pub fn reserve_worker(&mut self) -> (r: WorkerSlot)
        requires
            old(self).wf(),
        ensures
            final(self).wf(),
            if old(self).workers < old(self).max_workers {
                &&& r == WorkerSlot::Reserved
                &&& *final(self) == (NativeRelayPool {
                    workers: (old(self).workers + 1) as usize,
                    ..*old(self)
                })
            } else {
                &&& r == WorkerSlot::Full(old(self).workers > 0)
                &&& *final(self) == *old(self)
            },
    {
        if self.workers >= self.max_workers {
            return WorkerSlot::Full(self.workers > 0);
        }
        self.workers = self.workers + 1;
        WorkerSlot::Reserved
    }

    /// Gives a place back: the worker could not be spawned, or it left.
    pub fn release_worker(&mut self)
        requires
            old(self).wf(),
            old(self).workers > 0,
        ensures
            final(self).wf(),
            *final(self) == (NativeRelayPool {
                workers: (old(self).workers - 1) as usize,
                ..*old(self)
            }),
    {
        self.workers = self.workers - 1;
    }

    /// Takes a job.
    pub fn submit(&mut self)
        requires
            old(self).wf(),
            old(self).pending < usize::MAX,
        ensures
            final(self).wf(),
            *final(self) == (NativeRelayPool {
                pending: (old(self).pending + 1) as usize,
                ..*old(self)
            }),
    {
        self.pending = self.pending + 1;
    }

    /// How many workers are to be added: one for each job that no worker waits for, but not more
    /// than there is place for, and only a few at a time.
    pub fn extra_workers(&self) -> (r: usize)
        requires
            self.wf(),
        ensures
            r == (if self.pending <= self.idle {
                0
            } else {
                least(
                    least(self.pending - self.idle, self.max_workers - self.workers),
                    NATIVE_RELAY_SPAWN_BATCH as int,
                )
            }),
            self.workers + r <= self.max_workers,
    {
        if self.pending <= self.idle {
            return 0;
        }
        let deficit: usize = self.pending - self.idle;
        let capacity: usize = self.max_workers - self.workers;
        min(min(deficit, capacity), NATIVE_RELAY_SPAWN_BATCH)
    }

    /// A worker begins to wait for a job.
    pub fn wait_begins(&mut self)
        requires
            old(self).wf(),
            old(self).idle < usize::MAX,
        ensures
            final(self).wf(),
            *final(self) == (NativeRelayPool { idle: (old(self).idle + 1) as usize, ..*old(self) }),
    {
        self.idle = self.idle + 1;
    }

    /// A worker stops waiting; whether it leaves, because it waited in vain and no job is on its
    /// way.
    pub fn wait_ends(&mut self, timed_out: bool, queue_is_empty: bool) -> (r: bool)
        requires
            old(self).wf(),
            old(self).idle > 0,
        ensures
            final(self).wf(),
            *final(self) == (NativeRelayPool { idle: (old(self).idle - 1) as usize, ..*old(self) }),
            r == (timed_out && queue_is_empty && old(self).pending == 0),
    {
        self.idle = self.idle - 1;
        timed_out && queue_is_empty && self.pending == 0
    }

    /// A worker takes a job from the queue.
    pub fn job_taken(&mut self)
        requires
            old(self).wf(),
            old(self).pending > 0,
        ensures
            final(self).wf(),
            *final(self) == (NativeRelayPool {
                pending: (old(self).pending - 1) as usize,
                ..*old(self)
            }),
    {
        self.pending = self.pending - 1;
    }
}

/// How many relays of a name run.
#[derive(Debug, PartialEq, Eq)]
pub struct RelayCount {
    pub name: String,
    pub count: usize,
}

impl View for RelayCount {
    type V = (Seq<char>, usize);

    open spec fn view(&self) -> (Seq<char>, usize) {
        (self.name@, self.count)
    }
}

impl Ranked for RelayCount {
    open spec fn rank(&self) -> Seq<Seq<char>> {
        seq![self.name@]
    }

    fn before(&self, other: &RelayCount) -> (r: bool) {
        proof {
            lemma_single_rank(self.name@, other.name@);
        }
        text_before(self.name.as_str(), other.name.as_str())
    }
}

/// The view of a count.
pub open spec fn count_view() -> spec_fn(RelayCount) -> (Seq<char>, usize) {
    |c: RelayCount| c@
}

/// The rank of a count: its name.
pub open spec fn count_rank() -> spec_fn((Seq<char>, usize)) -> Seq<Seq<char>> {
    |c: (Seq<char>, usize)| seq![c.0]
}

/// The counts after a relay of the name has begun.
pub open spec fn entered(active: Seq<(Seq<char>, usize)>, name: Seq<char>) -> Seq<
    (Seq<char>, usize),
> {
    match get(active, name) {
        Some(n) => put(
            active,
            name,
            if n == usize::MAX {
                n
            } else {
                (n + 1) as usize
            },
        ),
        None => put(active, name, 1),
    }
}

/// The counts after a relay of the name has ended; a name without relays is forgotten.
pub open spec fn left_by(active: Seq<(Seq<char>, usize)>, name: Seq<char>) -> Seq<
    (Seq<char>, usize),
> {
    match get(active, name) {
        Some(n) => if n <= 1 {
            cut(active, name)
        } else {
            put(active, name, (n - 1) as usize)
        },
        None => active,
    }
}

/// How many detached relays run, by name.
#[derive(Debug)]
pub struct DetachedBlockingRelayMetrics {
    pub active: Table<String, usize>,
}

/// Whether names are distinct and have relays.
pub open spec fn all_active(active: Seq<(Seq<char>, usize)>) -> bool {
    &&& distinct(active)
    &&& forall|i: int| 0 <= i < active.len() ==> (#[trigger] active[i]).1 > 0
}

impl DetachedBlockingRelayMetrics {
    /// Every name that is kept has relays.
    pub open spec fn wf(&self) -> bool {
        all_active(self.active@)
    }

    /// No relays.
    pub fn new() -> (r: DetachedBlockingRelayMetrics)
        ensures
            r.wf(),
            r.active@ == Seq::<(Seq<char>, usize)>::empty(),
    {
        DetachedBlockingRelayMetrics { active: Table::new() }
    }

    /// A relay begins.
    pub fn enter(&mut self, name: &str)
        requires
            old(self).wf(),
        ensures
            final(self).wf(),
            final(self).active@ == entered(old(self).active@, name@),
    {
        let key = name.to_owned();
        let count: usize = match self.active.get(&key) {
            Some(n) => if *n == usize::MAX {
                *n
            } else {
                *n + 1
            },
            None => 1,
        };
        proof {
            lemma_put(self.active@, name@, count);
            lemma_find(self.active@, name@);
        }
        self.active.insert(key, count);
    }

    /// A relay ends.
    pub fn leave(&mut self, name: &str)
        requires
            old(self).wf(),
        ensures
            final(self).wf(),
            final(self).active@ == left_by(old(self).active@, name@),
    {
        let key = name.to_owned();
        proof {
            lemma_find(self.active@, name@);
            lemma_cut(self.active@, name@);
        }
        let count: usize = match self.active.get(&key) {
            Some(n) => *n,
            None => {
                return ;
            },
        };
        if count <= 1 {
            self.active.remove(&key);
        } else {
            proof {
                lemma_put(self.active@, name@, (count - 1) as usize);
            }
            self.active.insert(key, count - 1);
        }
    }

    /// How many relays of a name run.
    pub fn count(&self, name: &str) -> (r: Option<usize>)
        ensures
            r == get(self.active@, name@),
    {
        let key = name.to_owned();
        match self.active.get(&key) {
            Some(n) => Some(*n),
            None => None,
        }
    }

    /// The counts of all names, in the order of the names.
    pub fn snapshot(&self) -> (r: Vec<RelayCount>)
        ensures
            r@.map_values(count_view()) == sort_by(self.active@, count_rank()),
    {
        let mut counts: Vec<RelayCount> = Vec::new();
        let mut i: usize = 0;
        while i < self.active.len()
            invariant
                i <= self.active@.len(),
                counts@.map_values(count_view()) == self.active@.subrange(0, i as int),
            decreases self.active@.len() - i,
        {
            let name = self.active.key_at(i).clone();
            let count: usize = *self.active.value_at(i);
            let ghost earlier = counts@;
            let entry = RelayCount { name, count };
            assert(count_view()(entry) == self.active@[i as int]);
            counts.push(entry);
            i += 1;
            assert(counts@.map_values(count_view()) =~= earlier.map_values(count_view()).push(
                self.active@[i - 1],
            ));
            assert(counts@.map_values(count_view()) =~= self.active@.subrange(0, i as int));
        }
        assert(self.active@.subrange(0, self.active@.len() as int) =~= self.active@);
        proof {
            lemma_sort_of_mapped(counts@, rank_of::<RelayCount>(), count_view(), count_rank());
        }
        sort_ranked(counts)
    }
}

/// A relay that begins and ends leaves the count of its name as it was, and no count of another
/// name ever changes.
pub proof fn law_finished_relay_leaves_no_trace(
    active: Seq<(Seq<char>, usize)>,
    name: Seq<char>,
    other: Seq<char>,
)
    requires
        all_active(active),
        get(active, name) matches Some(n) ==> n < usize::MAX,
        other != name,
    ensures
        get(left_by(entered(active, name), name), name) == get(active, name),
        get(entered(active, name), other) == get(active, other),
        get(left_by(entered(active, name), name), other) == get(active, other),
{
    match get(active, name) {
        Some(n) => {
            let begun = put(active, name, (n + 1) as usize);
            assert(n > 0) by {
                lemma_find(active, name);
            }
            lemma_put(active, name, (n + 1) as usize);
            assert(entered(active, name) == begun);
            assert(left_by(begun, name) == put(begun, name, n));
            lemma_put(begun, name, n);
        },
        None => {
            let begun = put(active, name, 1usize);
            lemma_put(active, name, 1usize);
            assert(entered(active, name) == begun);
            assert(left_by(begun, name) == cut(begun, name));
            lemma_cut(begun, name);
        },
    }
}

} // verus!
