//! The export flow's interaction with a host redraw loop: a save request
//! must suppress the interactive overlay for exactly one render pass so
//! the exported pixels are clean, then let normal rendering resume. The
//! host loop drives one transition per event; the decisions are all here.

use vstd::prelude::*;

verus! {

/// Where the export flow stands.
#[derive(Clone, Copy, Debug, PartialEq, Eq, Structural)]
pub enum SaveFlow {
    /// Normal interactive rendering.
    Idle,
    /// A save was requested; the next render pass draws without the
    /// overlay and writes the image.
    Requested,
    /// The clean pass was drawn and the image written; the next update
    /// restores normal rendering.
    Rendered,
}

/// What the host loop reports.
#[derive(Clone, Copy, Debug, PartialEq, Eq, Structural)]
pub enum SaveEvent {
    /// The export control was activated and a destination chosen.
    SaveClicked,
    /// A frame was drawn.
    FrameDrawn,
    /// An update pass begins.
    UpdateTick,
}

/// What the host loop must do after a transition.
#[derive(Clone, Copy, Debug, PartialEq, Eq, Structural)]
pub enum SaveAction {
    /// Nothing beyond normal rendering.
    Nothing,
    /// Write the just-drawn clean frame to the chosen destination.
    WriteImage,
    /// Restore the normal loop mode and forget the destination.
    Restore,
}

/// Whether the interactive overlay is suppressed in a state: from the
/// request until rendering is restored.
pub open spec fn overlay_hidden(f: SaveFlow) -> bool {
    f != SaveFlow::Idle
}

/// One transition of the export flow. A request leads to exactly one
/// clean frame: the image is written exactly on the frame drawn after a
/// request, and the following update returns the flow to normal
/// rendering. Every other event leaves the state unchanged.
pub fn save_flow_step(f: SaveFlow, e: SaveEvent) -> (r: (SaveFlow, SaveAction))
    ensures
        r == match (f, e) {
            (SaveFlow::Idle, SaveEvent::SaveClicked) => (SaveFlow::Requested, SaveAction::Nothing),
            (SaveFlow::Requested, SaveEvent::FrameDrawn) => (
                SaveFlow::Rendered,
                SaveAction::WriteImage,
            ),
            (SaveFlow::Rendered, SaveEvent::UpdateTick) => (SaveFlow::Idle, SaveAction::Restore),
            _ => (f, SaveAction::Nothing),
        },
{
    match (f, e) {
        (SaveFlow::Idle, SaveEvent::SaveClicked) => (SaveFlow::Requested, SaveAction::Nothing),
        (SaveFlow::Requested, SaveEvent::FrameDrawn) => (
            SaveFlow::Rendered,
            SaveAction::WriteImage,
        ),
        (SaveFlow::Rendered, SaveEvent::UpdateTick) => (SaveFlow::Idle, SaveAction::Restore),
        _ => (f, SaveAction::Nothing),
    }
}

/// Law: the overlay is suppressed from the request through the clean
/// render pass, and in the idle state alone it shows.
pub proof fn lemma_overlay_suppressed()
    ensures
        overlay_hidden(SaveFlow::Requested),
        overlay_hidden(SaveFlow::Rendered),
        !overlay_hidden(SaveFlow::Idle),
{
}

} // verus!
