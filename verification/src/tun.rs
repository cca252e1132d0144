//! What follows from reading and writing the tunnel device.
use vstd::prelude::*;

verus! {

/// How many packets are read before others get their turn.
pub const TUN_READ_BURST: usize = 32;

/// How many packets are written before others get their turn.
pub const TUN_WRITE_BURST: usize = 64;

/// The numbers by which the system names the faults that matter here.
#[derive(Clone, Copy, Debug)]
pub struct FaultCodes {
    pub eio: i32,
    pub ebadf: i32,
    pub enodev: i32,
    pub enobufs: i32,
    pub enomem: i32,
}

/// Why the device could not be read or written.
#[derive(Clone, Copy, Debug)]
pub struct IoFault {
    pub interrupted: bool,
    pub would_block: bool,
    /// The system's number for the fault.
    pub code: Option<i32>,
}

impl IoFault {
    /// The device is gone.
    pub open spec fn closes(self, codes: FaultCodes) -> bool {
        self.code matches Some(code) && (code == codes.eio || code == codes.ebadf || code
            == codes.enodev)
    }

    /// The system is short of memory.
    pub open spec fn starves(self, codes: FaultCodes) -> bool {
        self.code matches Some(code) && (code == codes.enobufs || code == codes.enomem)
    }

    /// It is worth trying again.
    pub open spec fn passes(self, codes: FaultCodes) -> bool {
        self.interrupted || self.would_block || self.starves(codes)
    }
}

/// Whether the device is gone.
pub fn is_closed_tun_error(fault: &IoFault, codes: &FaultCodes) -> (closed: bool)
    ensures
        closed == fault.closes(*codes),
{
    match fault.code {
        Some(code) => code == codes.eio || code == codes.ebadf || code == codes.enodev,
        None => false,
    }
}

fn is_starved(fault: &IoFault, codes: &FaultCodes) -> (starved: bool)
    ensures
        starved == fault.starves(*codes),
{
    match fault.code {
        Some(code) => code == codes.enobufs || code == codes.enomem,
        None => false,
    }
}

/// Whether it is worth trying again.
pub fn is_retryable_tun_error(fault: &IoFault, codes: &FaultCodes) -> (retryable: bool)
    ensures
        retryable == fault.passes(*codes),
{
    fault.interrupted || fault.would_block || is_starved(fault, codes)
}

/// What came of an attempt to write.
#[derive(Clone, Copy, Debug)]
pub enum WriteOutcome {
    /// The device is not ready.
    NotReady,
    /// So many bytes were written.
    Wrote(usize),
    Fault(IoFault),
}

/// How the writing of a packet stands.
#[derive(Clone, Copy, Debug, PartialEq, Eq, Structural)]
pub enum TunWriteState {
    /// The packet was written.
    Complete,
    /// The rest of the packet is to be written.
    Continue,
    /// The device is to be waited for.
    Wait,
    /// The system is to be given time.
    Backoff,
    /// Others are to have their turn.
    Yield,
    /// The device is gone.
    Closed,
    /// The device does not work.
    Failed,
}

/// How the writing of a packet of `len` bytes stands, of which `written` were written before.
pub open spec fn write_state(
    outcome: WriteOutcome,
    written: usize,
    len: usize,
    codes: FaultCodes,
) -> TunWriteState {
    match outcome {
        WriteOutcome::NotReady => TunWriteState::Wait,
        WriteOutcome::Wrote(count) => if count == 0 {
            TunWriteState::Failed
        } else if written + count == len {
            TunWriteState::Complete
        } else {
            TunWriteState::Continue
        },
        WriteOutcome::Fault(fault) => if fault.passes(codes) {
            if fault.starves(codes) {
                TunWriteState::Backoff
            } else {
                TunWriteState::Yield
            }
        } else if fault.closes(codes) {
            TunWriteState::Closed
        } else {
            TunWriteState::Failed
        },
    }
}

/// Takes note of an attempt to write the rest of a packet of `len` bytes.
pub fn note_write(outcome: WriteOutcome, written: &mut usize, len: usize, codes: &FaultCodes) -> (
    state: TunWriteState)
    requires
        outcome matches WriteOutcome::Wrote(count) ==> *old(written) + count <= len,
    ensures
        state == write_state(outcome, *old(written), len, *codes),
        *final(written) == match outcome {
            WriteOutcome::Wrote(count) => *old(written) + count,
            _ => *old(written) as int,
        },
{
    match outcome {
        WriteOutcome::NotReady => TunWriteState::Wait,
        WriteOutcome::Wrote(count) => {
            *written = *written + count;
            if count == 0 {
                TunWriteState::Failed
            } else if *written == len {
                TunWriteState::Complete
            } else {
                TunWriteState::Continue
            }
        },
        WriteOutcome::Fault(fault) => {
            if is_retryable_tun_error(&fault, codes) {
                if is_starved(&fault, codes) {
                    TunWriteState::Backoff
                } else {
                    TunWriteState::Yield
                }
            } else if is_closed_tun_error(&fault, codes) {
                TunWriteState::Closed
            } else {
                TunWriteState::Failed
            }
        },
    }
}

/// What is to be done while packets are written one after the other.
#[derive(Clone, Copy, Debug, PartialEq, Eq, Structural)]
pub enum BurstStep {
    /// The next packet is to be written, if there is one.
    NextPacket,
    /// The rest of the packet is to be written.
    SamePacket,
    /// That is enough for now.
    End,
}

/// How many packets were written one after the other.
#[derive(Clone, Copy, Debug, PartialEq, Eq, Structural)]
pub struct WriteBurst {
    pub done: usize,
}

impl WriteBurst {
    /// Takes note of how the writing of a packet stands.
    pub fn step(&mut self, state: TunWriteState) -> (step: BurstStep)
        requires
            old(self).done < TUN_WRITE_BURST,
        ensures
            final(self).done == if state == TunWriteState::Complete {
                old(self).done + 1
            } else {
                old(self).done as int
            },
            step == match state {
                TunWriteState::Complete => if final(self).done == TUN_WRITE_BURST {
                    BurstStep::End
                } else {
                    BurstStep::NextPacket
                },
                TunWriteState::Continue => BurstStep::SamePacket,
                _ => BurstStep::End,
            },
    {
        match state {
            TunWriteState::Complete => {
                self.done = self.done + 1;
                if self.done == TUN_WRITE_BURST {
                    BurstStep::End
                } else {
                    BurstStep::NextPacket
                }
            },
            TunWriteState::Continue => BurstStep::SamePacket,
            _ => BurstStep::End,
        }
    }
}

/// What is to be done when no more packets are written for now.
#[derive(Clone, Copy, Debug, PartialEq, Eq, Structural)]
pub enum Pause {
    /// Wait until the device is ready.
    UntilReady,
    /// Wait a moment.
    Moment,
    /// Let others have their turn.
    Turn,
    /// Write no more to this device.
    ForGood,
}

/// What is to be done when no more packets are written for now.
pub fn pause_after(state: TunWriteState) -> (pause: Pause)
    ensures
        pause == match state {
            TunWriteState::Backoff => Pause::Moment,
            TunWriteState::Yield => Pause::Turn,
            TunWriteState::Closed => Pause::ForGood,
            TunWriteState::Failed => Pause::ForGood,
            _ => Pause::UntilReady,
        },
{
    match state {
        TunWriteState::Backoff => Pause::Moment,
        TunWriteState::Yield => Pause::Turn,
        TunWriteState::Closed => Pause::ForGood,
        TunWriteState::Failed => Pause::ForGood,
        _ => Pause::UntilReady,
    }
}

/// What came of an attempt to read.
#[derive(Clone, Copy, Debug)]
pub enum ReadOutcome {
    /// The device is not ready.
    NotReady,
    /// So many bytes were read.
    Read(usize),
    Fault(IoFault),
}

/// What follows from an attempt to read.
#[derive(Clone, Copy, Debug, PartialEq, Eq, Structural)]
pub enum ReadStep {
    /// A packet of so many bytes was read.
    Packet(usize),
    /// The device is to be waited for.
    Wait,
    /// There is nothing more to read.
    Ended,
    /// The device is gone.
    Closed,
    /// The device does not work.
    Failed,
}

/// What follows from an attempt to read.
pub fn read_step(outcome: ReadOutcome, codes: &FaultCodes) -> (step: ReadStep)
    ensures
        step == match outcome {
            ReadOutcome::NotReady => ReadStep::Wait,
            ReadOutcome::Read(count) => if count == 0 {
                ReadStep::Ended
            } else {
                ReadStep::Packet(count)
            },
            ReadOutcome::Fault(fault) => if fault.passes(*codes) {
                ReadStep::Wait
            } else if fault.closes(*codes) {
                ReadStep::Closed
            } else {
                ReadStep::Failed
            },
        },
{
    match outcome {
        ReadOutcome::NotReady => ReadStep::Wait,
        ReadOutcome::Read(count) => if count == 0 {
            ReadStep::Ended
        } else {
            ReadStep::Packet(count)
        },
        ReadOutcome::Fault(fault) => if is_retryable_tun_error(&fault, codes) {
            ReadStep::Wait
        } else if is_closed_tun_error(&fault, codes) {
            ReadStep::Closed
        } else {
            ReadStep::Failed
        },
    }
}

/// A packet is written whole: it is complete when, and only when, all its bytes were written.
pub proof fn writes_are_whole(count: usize, written: usize, len: usize, codes: FaultCodes)
    requires
        written + count <= len,
        count > 0,
    ensures
        write_state(WriteOutcome::Wrote(count), written, len, codes) == TunWriteState::Complete
            <==> written + count == len,
{
}

} // verus!
