//! Relaying between two streams that do not block: what a round does with what it read.

use vstd::prelude::*;

use crate::error::{failure, fault, CoreError, ErrorKind};
use crate::traffic::saturated;

verus! {

/// What a read from a stream gave.
#[derive(Clone, Copy, Debug, PartialEq, Eq, Structural)]
pub enum ReadOutcome {
    Data(usize),
    End,
    Blocked,
    Failed,
}

/// What a read from a stream gave, from the number of bytes or the kind of error.
pub fn read_outcome(read: Result<usize, ErrorKind>) -> (r: ReadOutcome)
    ensures
        r == (match read {
            Ok(n) => if n == 0 {
                ReadOutcome::End
            } else {
                ReadOutcome::Data(n)
            },
            Err(kind) => if kind == ErrorKind::WouldBlock {
                ReadOutcome::Blocked
            } else {
                ReadOutcome::Failed
            },
        }),
{
    match read {
        Ok(n) => if n == 0 {
            ReadOutcome::End
        } else {
            ReadOutcome::Data(n)
        },
        Err(kind) => if kind == ErrorKind::WouldBlock {
            ReadOutcome::Blocked
        } else {
            ReadOutcome::Failed
        },
    }
}

/// What is to be done after a read.
#[derive(Clone, Copy, Debug, PartialEq, Eq, Structural)]
pub enum RelayAction {
    /// Nothing.
    Nothing,
    /// Write what was read to the other side.
    Forward,
    /// Close the remote side for writing.
    EndUpload,
    /// Close the client side for writing.
    EndDownload,
    /// Close both sides.
    EndBoth,
}

/// What is to be done after a read, and whether the rest of the round is skipped.
#[derive(Clone, Copy, Debug, PartialEq, Eq, Structural)]
pub struct RelayStep {
    pub action: RelayAction,
    pub skip: bool,
}

/// A relay between a client and a remote side: what was relayed, and which directions ended.
#[derive(Clone, Copy, Debug, PartialEq, Eq, Structural)]
pub struct DuplexRelay {
    /// Whether the end of the upload ends the download too.
    pub upload_ends_both: bool,
    /// Whether the end of the download ends the upload too.
    pub download_ends_both: bool,
    pub upload: u64,
    pub download: u64,
    pub upload_done: bool,
    pub download_done: bool,
    pub progressed: bool,
    pub idle_rounds: u8,
}

/// Whether a read is refused: there is data, and the user was revoked while it waited.
pub open spec fn refused(outcome: ReadOutcome, granted: bool) -> bool {
    outcome is Data && !granted
}

/// The relay after a read from the client.
pub open spec fn after_client(s: DuplexRelay, outcome: ReadOutcome, granted: bool) -> DuplexRelay {
    match outcome {
        ReadOutcome::Blocked => s,
        ReadOutcome::Data(n) if granted => DuplexRelay {
            upload: saturated(s.upload, n as u64),
            progressed: true,
            ..s
        },
        _ => DuplexRelay {
            upload_done: true,
            download_done: s.download_done || s.upload_ends_both,
            progressed: s.progressed || !refused(outcome, granted),
            ..s
        },
    }
}

/// The relay after a read from the remote side.
pub open spec fn after_remote(s: DuplexRelay, outcome: ReadOutcome, granted: bool) -> DuplexRelay {
    match outcome {
        ReadOutcome::Blocked => s,
        ReadOutcome::Data(n) if granted => DuplexRelay {
            download: saturated(s.download, n as u64),
            progressed: true,
            ..s
        },
        _ => DuplexRelay {
            download_done: true,
            upload_done: s.upload_done || s.download_ends_both,
            progressed: s.progressed || !refused(outcome, granted),
            ..s
        },
    }
}

impl DuplexRelay {
    /// A relay that begins.
    fn starting(upload_ends_both: bool, download_ends_both: bool) -> (r: DuplexRelay)
        ensures
            r == fresh_relay(upload_ends_both, download_ends_both),
    {
        DuplexRelay {
            upload_ends_both,
            download_ends_both,
            upload: 0,
            download: 0,
            upload_done: false,
            download_done: false,
            progressed: false,
            idle_rounds: 0,
        }
    }

    /// A relay of a TLS client: it may end its upload alone, but the end of the download ends
    /// both.
    pub fn tls() -> (r: DuplexRelay)
        ensures
            r == fresh_relay(false, true),
    {
        DuplexRelay::starting(false, true)
    }

    /// A relay of a WebSocket client: either end ends both.
    pub fn websocket() -> (r: DuplexRelay)
        ensures
            r == fresh_relay(true, true),
    {
        DuplexRelay::starting(true, true)
    }

    /// A relay of a local bridge: each direction ends alone.
    pub fn bridge() -> (r: DuplexRelay)
        ensures
            r == fresh_relay(false, false),
    {
        DuplexRelay::starting(false, false)
    }

    /// Whether both directions ended.
    pub open spec fn finished(&self) -> bool {
        self.upload_done && self.download_done
    }

    /// Begins a round, unless the relay is over: both directions ended, or the user was revoked.
    pub fn begin_round(&mut self, revoked: bool) -> (r: bool)
        ensures
            r == !(old(self).finished() || revoked),
            *final(self) == (if r {
                DuplexRelay { progressed: false, ..*old(self) }
            } else {
                *old(self)
            }),
    {
        if (self.upload_done && self.download_done) || revoked {
            return false;
        }
        self.progressed = false;
        true
    }

    /// Takes what was read from the client; what is to be forwarded is counted.
    pub fn client_read(&mut self, outcome: ReadOutcome, granted: bool) -> (r: RelayStep)
        requires
            !old(self).upload_done,
        ensures
            *final(self) == after_client(*old(self), outcome, granted),
            r.skip == refused(outcome, granted),
            r.action == (match outcome {
                ReadOutcome::Blocked => RelayAction::Nothing,
                ReadOutcome::Data(_) if granted => RelayAction::Forward,
                _ => if old(self).upload_ends_both {
                    RelayAction::EndBoth
                } else {
                    RelayAction::EndUpload
                },
            }),
    {
        let mut skip = false;
        match outcome {
            ReadOutcome::Blocked => {
                return RelayStep { action: RelayAction::Nothing, skip };
            },
            ReadOutcome::Data(n) => {
                if granted {
                    self.upload = self.upload.saturating_add(n as u64);
                    self.progressed = true;
                    return RelayStep { action: RelayAction::Forward, skip };
                }
                skip = true;
            },
            _ => {
                self.progressed = true;
            },
        }
        self.upload_done = true;
        if self.upload_ends_both {
            self.download_done = true;
            RelayStep { action: RelayAction::EndBoth, skip }
        } else {
            RelayStep { action: RelayAction::EndUpload, skip }
        }
    }

    /// Takes what was read from the remote side; what is to be forwarded is counted.
    pub fn remote_read(&mut self, outcome: ReadOutcome, granted: bool) -> (r: RelayStep)
        requires
            !old(self).download_done,
        ensures
            *final(self) == after_remote(*old(self), outcome, granted),
            r.skip == refused(outcome, granted),
            r.action == (match outcome {
                ReadOutcome::Blocked => RelayAction::Nothing,
                ReadOutcome::Data(_) if granted => RelayAction::Forward,
                _ => if old(self).download_ends_both {
                    RelayAction::EndBoth
                } else {
                    RelayAction::EndDownload
                },
            }),
    {
        let mut skip = false;
        match outcome {
            ReadOutcome::Blocked => {
                return RelayStep { action: RelayAction::Nothing, skip };
            },
            ReadOutcome::Data(n) => {
                if granted {
                    self.download = self.download.saturating_add(n as u64);
                    self.progressed = true;
                    return RelayStep { action: RelayAction::Forward, skip };
                }
                skip = true;
            },
            _ => {
                self.progressed = true;
            },
        }
        self.download_done = true;
        if self.download_ends_both {
            self.upload_done = true;
            RelayStep { action: RelayAction::EndBoth, skip }
        } else {
            RelayStep { action: RelayAction::EndDownload, skip }
        }
    }

    /// Ends a round; whether nothing happened in it, so that the relay is to wait.
    pub fn end_round(&mut self) -> (r: bool)
        ensures
            r == !old(self).progressed,
            *final(self) == (if old(self).progressed {
                DuplexRelay { idle_rounds: 0, ..*old(self) }
            } else {
                *old(self)
            }),
    {
        if self.progressed {
            self.idle_rounds = 0;
            false
        } else {
            true
        }
    }
}

/// A relay that begins.
pub open spec fn fresh_relay(upload_ends_both: bool, download_ends_both: bool) -> DuplexRelay {
    DuplexRelay {
        upload_ends_both,
        download_ends_both,
        upload: 0,
        download: 0,
        upload_done: false,
        download_done: false,
        progressed: false,
        idle_rounds: 0,
    }
}

/// What happens in one round.
#[derive(Clone, Copy, Debug, PartialEq, Eq, Structural)]
pub struct Round {
    pub revoked: bool,
    pub client: ReadOutcome,
    pub client_granted: bool,
    pub remote: ReadOutcome,
    pub remote_granted: bool,
}

/// How many bytes a read forwards.
pub open spec fn forwards(done: bool, outcome: ReadOutcome, granted: bool) -> nat {
    match outcome {
        ReadOutcome::Data(n) if granted && !done => n as nat,
        _ => 0,
    }
}

/// The relay after the client had its turn in a round.
pub open spec fn client_turn(s: DuplexRelay, round: Round) -> DuplexRelay {
    let begun = DuplexRelay { progressed: false, ..s };
    if s.upload_done {
        begun
    } else {
        after_client(begun, round.client, round.client_granted)
    }
}

/// Whether the remote side has its turn in a round.
pub open spec fn remote_has_turn(s: DuplexRelay, round: Round) -> bool {
    (s.upload_done || !refused(round.client, round.client_granted)) && !client_turn(
        s,
        round,
    ).download_done
}

/// The relay after a round.
pub open spec fn after_round(s: DuplexRelay, round: Round) -> DuplexRelay {
    if s.finished() || round.revoked {
        s
    } else {
        let t = client_turn(s, round);
        let u = if remote_has_turn(s, round) {
            after_remote(t, round.remote, round.remote_granted)
        } else {
            t
        };
        if u.progressed {
            DuplexRelay { idle_rounds: 0, ..u }
        } else {
            u
        }
    }
}

/// The relay after rounds.
pub open spec fn after_rounds(s: DuplexRelay, rounds: Seq<Round>) -> DuplexRelay
    decreases rounds.len(),
{
    if rounds.len() == 0 {
        s
    } else {
        after_round(after_rounds(s, rounds.subrange(0, rounds.len() - 1)), rounds[rounds.len() - 1])
    }
}

/// How many bytes rounds forward from the client to the remote side.
pub open spec fn uploaded(s: DuplexRelay, rounds: Seq<Round>) -> nat
    decreases rounds.len(),
{
    if rounds.len() == 0 {
        0
    } else {
        let earlier = rounds.subrange(0, rounds.len() - 1);
        let last = rounds[rounds.len() - 1];
        let before = after_rounds(s, earlier);
        uploaded(s, earlier) + if before.finished() || last.revoked {
            0
        } else {
            forwards(before.upload_done, last.client, last.client_granted)
        }
    }
}

/// How many bytes rounds forward from the remote side to the client.
pub open spec fn downloaded(s: DuplexRelay, rounds: Seq<Round>) -> nat
    decreases rounds.len(),
{
    if rounds.len() == 0 {
        0
    } else {
        let earlier = rounds.subrange(0, rounds.len() - 1);
        let last = rounds[rounds.len() - 1];
        let before = after_rounds(s, earlier);
        downloaded(s, earlier) + if before.finished() || last.revoked {
            0
        } else {
            forwards(!remote_has_turn(before, last), last.remote, last.remote_granted)
        }
    }
}

/// A number, or the largest that fits.
pub open spec fn capped(n: nat) -> u64 {
    if n <= u64::MAX {
        n as u64
    } else {
        u64::MAX
    }
}

/// A relay counts exactly the bytes that it forwards in each direction, up to the largest count.
pub proof fn law_relay_counts_what_it_forwards(
    upload_ends_both: bool,
    download_ends_both: bool,
    rounds: Seq<Round>,
)
    ensures
        after_rounds(fresh_relay(upload_ends_both, download_ends_both), rounds).upload == capped(
            uploaded(fresh_relay(upload_ends_both, download_ends_both), rounds),
        ),
        after_rounds(fresh_relay(upload_ends_both, download_ends_both), rounds).download == capped(
            downloaded(fresh_relay(upload_ends_both, download_ends_both), rounds),
        ),
    decreases rounds.len(),
{
    if rounds.len() > 0 {
        law_relay_counts_what_it_forwards(
            upload_ends_both,
            download_ends_both,
            rounds.subrange(0, rounds.len() - 1),
        );
    }
}

/// A direction that ended stays ended, and where one end ends both, it did.
pub proof fn law_ended_directions_stay_ended(s: DuplexRelay, round: Round)
    requires
        s.upload_done && s.upload_ends_both ==> s.download_done,
        s.download_done && s.download_ends_both ==> s.upload_done,
    ensures
        s.upload_done ==> after_round(s, round).upload_done && after_round(s, round).upload
            == s.upload,
        s.download_done ==> after_round(s, round).download_done && after_round(s, round).download
            == s.download,
        after_round(s, round).upload_done && s.upload_ends_both ==> after_round(
            s,
            round,
        ).download_done,
        after_round(s, round).download_done && s.download_ends_both ==> after_round(
            s,
            round,
        ).upload_done,
{
}

/// How long a relay waits after rounds in which nothing happened, in milliseconds.
pub open spec fn idle_wait(waits: Seq<u64>, idle_rounds: u8) -> u64 {
    if idle_rounds < waits.len() {
        waits[idle_rounds as int]
    } else {
        waits[waits.len() - 1]
    }
}

/// The number of rounds in which nothing happened, as far as it matters.
pub open spec fn more_idle(waits: Seq<u64>, idle_rounds: u8) -> u8 {
    if idle_rounds + 1 < waits.len() {
        (idle_rounds + 1) as u8
    } else {
        (waits.len() - 1) as u8
    }
}

/// The waits of a TLS relay.
pub open spec fn tls_waits() -> Seq<u64> {
    seq![1, 2, 4, 8, 16]
}

/// The waits of a UDP relay over WebSocket.
pub open spec fn udp_waits() -> Seq<u64> {
    seq![1, 2, 5, 10]
}

/// How long a TLS relay waits, in milliseconds.
pub fn relay_idle_sleep(idle_rounds: &mut u8) -> (r: u64)
    ensures
        r == idle_wait(tls_waits(), *old(idle_rounds)),
        *final(idle_rounds) == more_idle(tls_waits(), *old(idle_rounds)),
{
    let rounds: u8 = *idle_rounds;
    let wait: u64 = match rounds {
        0 => 1,
        1 => 2,
        2 => 4,
        3 => 8,
        _ => 16,
    };
    *idle_rounds = if rounds < 4 {
        rounds + 1
    } else {
        4
    };
    wait
}

/// How long a UDP relay over WebSocket waits, in milliseconds.
pub fn websocket_udp_relay_idle_timeout(idle_rounds: &mut u8) -> (r: u64)
    ensures
        r == idle_wait(udp_waits(), *old(idle_rounds)),
        *final(idle_rounds) == more_idle(udp_waits(), *old(idle_rounds)),
{
    let rounds: u8 = *idle_rounds;
    let wait: u64 = match rounds {
        0 => 1,
        1 => 2,
        2 => 5,
        _ => 10,
    };
    *idle_rounds = if rounds < 3 {
        rounds + 1
    } else {
        3
    };
    wait
}

/// A relay never waits for a shorter time after a longer idle phase, and never longer than its
/// last wait.
pub proof fn law_waits_grow(idle_rounds: u8)
    ensures
        idle_wait(tls_waits(), idle_rounds) <= idle_wait(
            tls_waits(),
            more_idle(tls_waits(), idle_rounds),
        ) <= 16,
        idle_wait(udp_waits(), idle_rounds) <= idle_wait(
            udp_waits(),
            more_idle(udp_waits(), idle_rounds),
        ) <= 10,
{
}

/// A write of many bytes to a stream that may take fewer at a time.
#[derive(Clone, Copy, Debug, PartialEq, Eq, Structural)]
pub struct PendingWrite {
    pub written: usize,
    pub total: usize,
}

/// What is to be done next with a write.
#[derive(Clone, Copy, Debug, PartialEq, Eq, Structural)]
pub enum WriteStep {
    /// Write the rest.
    Write,
    /// Wait a moment, and then write the rest.
    Wait,
    /// All is written.
    Done,
}

impl PendingWrite {
    /// Not more was written than there is.
    pub open spec fn wf(&self) -> bool {
        self.written <= self.total
    }

    /// A write of so many bytes.
    pub fn new(total: usize) -> (r: PendingWrite)
        ensures
            r == (PendingWrite { written: 0, total }),
            r.wf(),
    {
        PendingWrite { written: 0, total }
    }

    /// What is to be done first.
    pub fn first(&self) -> (r: WriteStep)
        ensures
            r == (if self.written == self.total {
                WriteStep::Done
            } else {
                WriteStep::Write
            }),
    {
        if self.written == self.total {
            WriteStep::Done
        } else {
            WriteStep::Write
        }
    }

    /// Takes what a write of the rest gave; a write that takes nothing is an error with the given
    /// message.
    pub fn wrote(&mut self, outcome: Result<usize, CoreError>, zero: &str) -> (r: Result<
        WriteStep,
        CoreError,
    >)
        requires
            old(self).wf(),
            outcome matches Ok(n) ==> n <= old(self).total - old(self).written,
        ensures
            final(self).wf(),
            final(self).total == old(self).total,
            match outcome {
                Ok(n) => {
                    &&& final(self).written == old(self).written + n
                    &&& if n == 0 {
                        r is Err && r->Err_0@ == fault(ErrorKind::WriteZero, zero@)
                    } else {
                        r == Ok::<WriteStep, CoreError>(
                            if old(self).written + n == old(self).total {
                                WriteStep::Done
                            } else {
                                WriteStep::Write
                            },
                        )
                    }
                },
                Err(e) => {
                    &&& final(self).written == old(self).written
                    &&& r == (if e.kind == ErrorKind::WouldBlock {
                        Ok::<WriteStep, CoreError>(WriteStep::Wait)
                    } else {
                        Err(e)
                    })
                },
            },
    {
        match outcome {
            Ok(n) => {
                if n == 0 {
                    return Err(failure(ErrorKind::WriteZero, zero));
                }
                self.written = self.written + n;
                if self.written == self.total {
                    Ok(WriteStep::Done)
                } else {
                    Ok(WriteStep::Write)
                }
            },
            Err(e) => if e.kind == ErrorKind::WouldBlock {
                Ok(WriteStep::Wait)
            } else {
                Err(e)
            },
        }
    }
}

} // verus!
