//! The zero-downtime upgrade of the supervisor itself, as a state
//! machine: the decisions are pure, the forking, state transfer and file
//! descriptor passing are actions the caller performs.

use vstd::prelude::*;

verus! {

/// Where the upgrade stands.
#[derive(Debug, Clone, Copy, PartialEq, Eq, Structural, Hash)]
pub enum UpgradePhase {
    /// no upgrade is running
    Idle,
    /// the successor supervisor was forked and is starting
    SuccessorForked,
    /// the state and the listener sockets were sent to the successor
    StateTransferred,
    /// every worker was re-parented onto the successor
    WorkersHandedOver,
    /// the old supervisor may exit
    Completed,
    /// the upgrade failed; the old supervisor stays in charge
    Aborted,
}

/// What the caller reports back to the machine.
#[derive(Debug, Clone, Copy, PartialEq, Eq, Structural, Hash)]
pub enum UpgradeEvent {
    ForkSucceeded,
    ForkFailed,
    StateSent,
    TransferFailed,
    HandoversConfirmed,
    HandoverFailed,
}

/// What the caller must do next.
#[derive(Debug, Clone, Copy, PartialEq, Eq, Structural, Hash)]
pub enum UpgradeAction {
    /// fork and exec the successor with the inherited descriptors
    ForkSuccessor,
    /// serialize the state and pass it with the listener sockets
    SendStateAndListeners,
    /// open a channel from each worker to the successor
    ReparentWorkers,
    /// the successor confirmed everything: exit the old supervisor
    ExitOldMain,
    /// abort: close the successor's channels and stay on the old main
    StayOnOldMain,
    /// nothing to do
    Wait,
}

/// One step of the upgrade protocol.
pub open spec fn spec_upgrade_step(phase: UpgradePhase, event: UpgradeEvent) -> (
    UpgradePhase,
    UpgradeAction,
) {
    match (phase, event) {
        (UpgradePhase::SuccessorForked, UpgradeEvent::ForkSucceeded) => (
            UpgradePhase::SuccessorForked,
            UpgradeAction::SendStateAndListeners,
        ),
        (UpgradePhase::SuccessorForked, UpgradeEvent::ForkFailed) => (
            UpgradePhase::Aborted,
            UpgradeAction::StayOnOldMain,
        ),
        (UpgradePhase::SuccessorForked, UpgradeEvent::StateSent) => (
            UpgradePhase::StateTransferred,
            UpgradeAction::ReparentWorkers,
        ),
        (UpgradePhase::SuccessorForked, UpgradeEvent::TransferFailed) => (
            UpgradePhase::Aborted,
            UpgradeAction::StayOnOldMain,
        ),
        (UpgradePhase::StateTransferred, UpgradeEvent::HandoversConfirmed) => (
            UpgradePhase::WorkersHandedOver,
            UpgradeAction::ExitOldMain,
        ),
        (UpgradePhase::StateTransferred, UpgradeEvent::HandoverFailed) => (
            UpgradePhase::Aborted,
            UpgradeAction::StayOnOldMain,
        ),
        (UpgradePhase::WorkersHandedOver, _) => (UpgradePhase::Completed, UpgradeAction::Wait),
        _ => (phase, UpgradeAction::Wait),
    }
}

/// Drives one upgrade of the supervisor.
#[derive(Debug, Clone, Copy, PartialEq, Eq, Structural, Hash)]
pub struct Upgrader {
    pub phase: UpgradePhase,
}

impl Upgrader {
    /// No upgrade running.
    pub fn new() -> (r: Upgrader)
        ensures
            r.phase == UpgradePhase::Idle,
    {
        Upgrader { phase: UpgradePhase::Idle }
    }

    /// Starts an upgrade: the caller must fork the successor.
    pub fn start(&mut self) -> (a: UpgradeAction)
        requires
            old(self).phase == UpgradePhase::Idle,
        ensures
            final(self).phase == UpgradePhase::SuccessorForked,
            a == UpgradeAction::ForkSuccessor,
    {
        self.phase = UpgradePhase::SuccessorForked;
        UpgradeAction::ForkSuccessor
    }

    /// Feeds the outcome of the last action back in and decides the next
    /// one.  Any failure aborts the upgrade and keeps the old supervisor
    /// in charge; only a confirmed handover of every worker lets the old
    /// supervisor exit.
    pub fn step(&mut self, event: UpgradeEvent) -> (a: UpgradeAction)
        ensures
            (final(self).phase, a) == spec_upgrade_step(old(self).phase, event),
    {
        let (phase, action) = match (self.phase, event) {
            (UpgradePhase::SuccessorForked, UpgradeEvent::ForkSucceeded) => (
                UpgradePhase::SuccessorForked,
                UpgradeAction::SendStateAndListeners,
            ),
            (UpgradePhase::SuccessorForked, UpgradeEvent::ForkFailed) => (
                UpgradePhase::Aborted,
                UpgradeAction::StayOnOldMain,
            ),
            (UpgradePhase::SuccessorForked, UpgradeEvent::StateSent) => (
                UpgradePhase::StateTransferred,
                UpgradeAction::ReparentWorkers,
            ),
            (UpgradePhase::SuccessorForked, UpgradeEvent::TransferFailed) => (
                UpgradePhase::Aborted,
                UpgradeAction::StayOnOldMain,
            ),
            (UpgradePhase::StateTransferred, UpgradeEvent::HandoversConfirmed) => (
                UpgradePhase::WorkersHandedOver,
                UpgradeAction::ExitOldMain,
            ),
            (UpgradePhase::StateTransferred, UpgradeEvent::HandoverFailed) => (
                UpgradePhase::Aborted,
                UpgradeAction::StayOnOldMain,
            ),
            (UpgradePhase::WorkersHandedOver, _) => (
                UpgradePhase::Completed,
                UpgradeAction::Wait,
            ),
            (phase, _) => (phase, UpgradeAction::Wait),
        };
        self.phase = phase;
        action
    }
}

/// The old supervisor exits only after every worker handover was
/// confirmed: the only step that yields `ExitOldMain` is the one that
/// leaves `StateTransferred` on `HandoversConfirmed`.
pub proof fn lemma_exit_only_after_handover(phase: UpgradePhase, event: UpgradeEvent)
    ensures
        spec_upgrade_step(phase, event).1 == UpgradeAction::ExitOldMain ==> phase
            == UpgradePhase::StateTransferred && event == UpgradeEvent::HandoversConfirmed,
{
}

} // verus!
