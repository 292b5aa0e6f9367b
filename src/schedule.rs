//! The phases of the frame loop. The host runs the systems; this decides
//! what each end of frame does to the container and where the loop goes next.
use vstd::prelude::*;
use crate::galaxy::Galaxy;

verus! {

/// Where the frame loop stands.
#[derive(PartialEq, Eq, Structural, Clone, Copy, Debug)]
pub enum Phase {
    /// The start-up systems run once, in order.
    Init,
    /// The per-frame systems run once per frame, in order.
    Running,
    /// An exit was asked for; no more frames run.
    Stopped,
}

/// Whether the per-frame systems run in `phase`.
pub fn runs_systems(phase: Phase) -> (r: bool)
    ensures
        r == (phase == Phase::Running),
{
    phase == Phase::Running
}

/// Ends the start-up pass or a frame: the event buffers are emptied, and the
/// loop stops when an exit was asked for, else it runs on. A stopped
/// loop stays stopped and leaves the container alone.
pub fn end_frame<R, C: Copy, E: Copy>(phase: Phase, galaxy: &mut Galaxy<R, C, E>) -> (r: Phase)
    requires
        old(galaxy).wf(),
    ensures
        final(galaxy).wf(),
        phase == Phase::Stopped ==> r == Phase::Stopped && final(galaxy).view() == old(galaxy).view(),
        phase != Phase::Stopped ==> final(galaxy).view() == old(galaxy).view().next_frame() && r == (if old(
            galaxy,
        ).view().exit {
            Phase::Stopped
        } else {
            Phase::Running
        }),
{
    if phase == Phase::Stopped {
        return Phase::Stopped;
    }
    if galaxy.update() {
        Phase::Running
    } else {
        Phase::Stopped
    }
}

} // verus!
