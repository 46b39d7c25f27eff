//! The collection cycle: one pass over all disks for each scrape, one step at a time.
//!
//! The controller never touches a disk or a socket. It says what is to be done next
//! ([`Command`]), is told what came of it ([`Event`]), and answers with what is to be
//! published or logged ([`Outcome`]).

use crate::attribute::{read_order, Attribute};
use crate::sample::{convert, sample_of, Reading, Sample};
use vstd::prelude::*;

verus! {

/// Where the controller stands.
#[derive(Clone, Copy, Debug, PartialEq, Eq)]
pub enum Phase {
    /// No cycle runs; the next scrape request is awaited.
    Idle,
    /// A cycle runs and the refresh of `disk` is awaited.
    Refreshing { disk: usize },
    /// A cycle runs and the reading of `attribute` from `disk` is awaited.
    Sampling { disk: usize, attribute: Attribute },
    /// A cycle has been through all disks and the sending of its signal is awaited.
    Signalling,
}

/// Whether a cycle runs: the two states that scrapes and cycles are synchronized over.
#[derive(Clone, Copy, Debug, PartialEq, Eq)]
pub enum Gate {
    /// No cycle runs.
    Idle,
    /// A cycle runs.
    Collecting,
}

/// What the controller wants done next.
#[derive(Clone, Copy, Debug, PartialEq, Eq)]
pub enum Command {
    /// Block until a scrape request arrives.
    AwaitRequest,
    /// Refresh the health data of `disk`.
    Refresh { disk: usize },
    /// Read `attribute` from `disk`, once.
    Read { disk: usize, attribute: Attribute },
    /// Tell the serving side that the cycle is finished.
    SignalFinished,
}

/// What came of a command.
#[derive(Clone, Copy, Debug, PartialEq, Eq)]
pub enum Event {
    /// A scrape request arrived.
    RequestReceived,
    /// The refresh went through (`ok`) or failed.
    Refreshed { ok: bool },
    /// The read gave `reading`.
    Read { reading: Reading },
    /// The signal that the cycle is finished was sent.
    FinishedSent,
}

/// What the controller makes of an event.
#[derive(Clone, Copy, Debug, PartialEq, Eq)]
pub enum Outcome {
    /// A cycle has begun.
    Started,
    /// The data of `disk` is fresh; its attributes are read next.
    Refreshed { disk: usize },
    /// The refresh of `disk` failed; none of its attributes is read in this cycle.
    RefreshFailed { disk: usize },
    /// `sample` is to be written into the registry.
    Published { sample: Sample },
    /// The reading of `attribute` from `disk` failed; its entry stays as it is.
    ReadFailed { disk: usize, attribute: Attribute },
    /// The cycle is over.
    Finished,
}

/// Why an event was turned down.
#[derive(Clone, Copy, Debug, PartialEq, Eq)]
pub enum ProtocolError {
    /// The event does not answer the command that is pending.
    Unexpected,
    /// The reading is of another kind than the attribute that was to be read.
    Mismatch,
}

impl Outcome {
    /// Whether the outcome speaks of one of `disks` disks only, and what it publishes can
    /// be written.
    pub open spec fn within(self, disks: usize) -> bool {
        match self {
            Outcome::Refreshed { disk } => disk < disks,
            Outcome::RefreshFailed { disk } => disk < disks,
            Outcome::Published { sample } => sample.disk < disks && sample.well_formed(),
            Outcome::ReadFailed { disk, .. } => disk < disks,
            _ => true,
        }
    }
}

impl Command {
    /// Whether `event` reports what came of the command: the request that was awaited, the
    /// end of the refresh, a failed read or a reading of the attribute's kind, or the
    /// sending of the signal.
    pub open spec fn answered_by(self, event: Event) -> bool {
        match (self, event) {
            (Command::AwaitRequest, Event::RequestReceived) => true,
            (Command::Refresh { .. }, Event::Refreshed { .. }) => true,
            (Command::Read { attribute, .. }, Event::Read { reading }) => reading
                == Reading::Failed || reading.fits(attribute),
            (Command::SignalFinished, Event::FinishedSent) => true,
            _ => false,
        }
    }
}

impl Phase {
    /// Whether a cycle runs in this phase.
    pub open spec fn gate(self) -> Gate {
        if self == Phase::Idle {
            Gate::Idle
        } else {
            Gate::Collecting
        }
    }

    /// What is to be done in this phase.
    pub open spec fn command(self) -> Command {
        match self {
            Phase::Idle => Command::AwaitRequest,
            Phase::Refreshing { disk } => Command::Refresh { disk },
            Phase::Sampling { disk, attribute } => Command::Read { disk, attribute },
            Phase::Signalling => Command::SignalFinished,
        }
    }

    /// Whether the phase speaks of one of `disks` disks only.
    pub open spec fn within(self, disks: usize) -> bool {
        match self {
            Phase::Refreshing { disk } => disk < disks,
            Phase::Sampling { disk, .. } => disk < disks,
            _ => true,
        }
    }
}

/// The phase in which a cycle over `disks` disks begins.
pub open spec fn first_phase(disks: usize) -> Phase {
    if disks > 0 {
        Phase::Refreshing { disk: 0 }
    } else {
        Phase::Signalling
    }
}

/// The phase that follows when a cycle over `disks` disks is done with `disk`.
pub open spec fn phase_after_disk(disks: usize, disk: usize) -> Phase {
    if disk + 1 < disks {
        Phase::Refreshing { disk: (disk + 1) as usize }
    } else {
        Phase::Signalling
    }
}

/// The phase that follows when `attribute` of `disk` has been dealt with.
pub open spec fn phase_after_attribute(disks: usize, disk: usize, attribute: Attribute) -> Phase {
    match attribute.successor() {
        Some(next) => Phase::Sampling { disk, attribute: next },
        None => phase_after_disk(disks, disk),
    }
}

/// What is made of `reading` where `attribute` of `disk` was to be read: a failure is
/// reported, a reading of the attribute's kind is published, and any other reading has no
/// outcome.
pub open spec fn read_outcome(disk: usize, attribute: Attribute, reading: Reading) -> Option<
    Outcome,
> {
    if reading == Reading::Failed {
        Some(Outcome::ReadFailed { disk, attribute })
    } else {
        match sample_of(attribute, disk, reading) {
            Some(sample) => Some(Outcome::Published { sample }),
            None => None,
        }
    }
}

/// One step of a controller of `disks` disks: the phase that follows `phase` on `event`,
/// and the outcome of the event; or why the event is turned down.
pub open spec fn step(disks: usize, phase: Phase, event: Event) -> Result<
    (Phase, Outcome),
    ProtocolError,
> {
    match (phase, event) {
        (Phase::Idle, Event::RequestReceived) => Ok((first_phase(disks), Outcome::Started)),
        (Phase::Refreshing { disk }, Event::Refreshed { ok }) => if ok {
            Ok(
                (
                    Phase::Sampling { disk, attribute: read_order().first() },
                    Outcome::Refreshed { disk },
                ),
            )
        } else {
            Ok((phase_after_disk(disks, disk), Outcome::RefreshFailed { disk }))
        },
        (Phase::Sampling { disk, attribute }, Event::Read { reading }) => match read_outcome(
            disk,
            attribute,
            reading,
        ) {
            Some(outcome) => Ok((phase_after_attribute(disks, disk, attribute), outcome)),
            None => Err(ProtocolError::Mismatch),
        },
        (Phase::Signalling, Event::FinishedSent) => Ok((Phase::Idle, Outcome::Finished)),
        _ => Err(ProtocolError::Unexpected),
    }
}

/// The state of a [`Controller`] as contracts see it.
pub struct Machine {
    /// How many disks are tracked.
    pub disks: usize,
    /// Where the controller stands.
    pub phase: Phase,
}

/// Runs one cycle per scrape request over a fixed number of disks.
pub struct Controller {
    disks: usize,
    phase: Phase,
}

impl View for Controller {
    type V = Machine;

    closed spec fn view(&self) -> Machine {
        Machine { disks: self.disks, phase: self.phase }
    }
}

impl Controller {
    #[verifier::type_invariant]
    spec fn well_formed(self) -> bool {
        self.phase.within(self.disks)
    }

    /// A controller of `disks` disks, with no cycle running.
    pub fn new(disks: usize) -> (controller: Controller)
        ensures
            controller@ == (Machine { disks, phase: Phase::Idle }),
    {
        Controller { disks, phase: Phase::Idle }
    }

    /// How many disks are tracked.
    pub fn disks(&self) -> (disks: usize)
        ensures
            disks == self@.disks,
    {
        self.disks
    }

    /// Where the controller stands.
    pub fn phase(&self) -> (phase: Phase)
        ensures
            phase == self@.phase,
            phase.within(self@.disks),
    {
        proof {
            use_type_invariant(self);
        }
        self.phase
    }

    /// Whether a cycle runs.
    pub fn gate(&self) -> (gate: Gate)
        ensures
            gate == self@.phase.gate(),
    {
        match self.phase {
            Phase::Idle => Gate::Idle,
            _ => Gate::Collecting,
        }
    }

    /// What is to be done next. A disk that is named is one of those tracked.
    pub fn command(&self) -> (command: Command)
        ensures
            command == self@.phase.command(),
            command matches Command::Refresh { disk } ==> disk < self@.disks,
            command matches Command::Read { disk, .. } ==> disk < self@.disks,
    {
        proof {
            use_type_invariant(self);
        }
        match self.phase {
            Phase::Idle => Command::AwaitRequest,
            Phase::Refreshing { disk } => Command::Refresh { disk },
            Phase::Sampling { disk, attribute } => Command::Read { disk, attribute },
            Phase::Signalling => Command::SignalFinished,
        }
    }

    /// Takes in what came of the pending command and moves on by one [`step`]. An event is
    /// taken if and only if it answers the pending command; one that is turned down leaves
    /// the controller as it was.
    pub fn handle(&mut self, event: Event) -> (result: Result<Outcome, ProtocolError>)
        ensures
            final(self)@.disks == old(self)@.disks,
            result is Ok <==> old(self)@.phase.command().answered_by(event),
            result matches Ok(outcome) ==> outcome.within(old(self)@.disks),
            match step(old(self)@.disks, old(self)@.phase, event) {
                Ok((phase, outcome)) => {
                    &&& result == Ok::<Outcome, ProtocolError>(outcome)
                    &&& final(self)@.phase == phase
                },
                Err(error) => {
                    &&& result == Err::<Outcome, ProtocolError>(error)
                    &&& final(self)@.phase == old(self)@.phase
                },
            },
    {
        proof {
            use_type_invariant(&*self);
        }
        match (self.phase, event) {
            (Phase::Idle, Event::RequestReceived) => {
                self.phase = self.first();
                Ok(Outcome::Started)
            },
            (Phase::Refreshing { disk }, Event::Refreshed { ok }) => {
                if ok {
                    self.phase = Phase::Sampling { disk, attribute: Attribute::first() };
                    Ok(Outcome::Refreshed { disk })
                } else {
                    self.phase = self.after_disk(disk);
                    Ok(Outcome::RefreshFailed { disk })
                }
            },
            (Phase::Sampling { disk, attribute }, Event::Read { reading }) => {
                let outcome = match reading {
                    Reading::Failed => Outcome::ReadFailed { disk, attribute },
                    _ => match convert(attribute, disk, reading) {
                        Some(sample) => Outcome::Published { sample },
                        None => {
                            return Err(ProtocolError::Mismatch);
                        },
                    },
                };
                let next = match attribute.next() {
                    Some(next) => Phase::Sampling { disk, attribute: next },
                    None => self.after_disk(disk),
                };
                self.phase = next;
                Ok(outcome)
            },
            (Phase::Signalling, Event::FinishedSent) => {
                self.phase = Phase::Idle;
                Ok(Outcome::Finished)
            },
            _ => Err(ProtocolError::Unexpected),
        }
    }

    /// The phase in which a cycle begins.
    fn first(&self) -> (phase: Phase)
        ensures
            phase == first_phase(self.disks),
            phase.within(self.disks),
    {
        if self.disks > 0 {
            Phase::Refreshing { disk: 0 }
        } else {
            Phase::Signalling
        }
    }

    /// The phase that follows when the cycle is done with `disk`.
    fn after_disk(&self, disk: usize) -> (phase: Phase)
        requires
            disk < self.disks,
        ensures
            phase == phase_after_disk(self.disks, disk),
            phase.within(self.disks),
    {
        if disk + 1 < self.disks {
            Phase::Refreshing { disk: disk + 1 }
        } else {
            Phase::Signalling
        }
    }
}

} // verus!
