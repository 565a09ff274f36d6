//! Control requests: keyframes, bitrate and resolution.

use crate::input::{EventView, InputEvent};
use crate::pipeline::{pack_display_size, packed_size, resize_plan, PipelineManager, Restart};
use vstd::prelude::*;

verus! {

/// What a control request asks to be done.
#[derive(Debug, Clone, Copy, PartialEq, Eq, Structural)]
pub enum ControlAction {
    /// Ask the encoder for a keyframe.
    ForceKeyframe,
    /// Tell the encoder a bitrate.
    SetBitrate { kbps: u32 },
    /// Carry out this restart, which leads to a display of the size that was asked for.
    Resize { restart: Restart },
    /// The request is no control request.
    Nothing,
}

/// Handle control events from the client.
pub fn handle_control_event(event: &InputEvent, manager: &mut PipelineManager) -> (action:
    ControlAction)
    ensures
        match event@ {
            EventView::RequestKeyframe => {
                &&& action is ForceKeyframe
                &&& *final(manager) == *old(manager)
            },
            EventView::SetBitrate { kbps } => {
                &&& action == (ControlAction::SetBitrate { kbps })
                &&& final(manager).current().kbps() == kbps
                &&& final(manager).current().runs() == old(manager).current().runs()
                &&& final(manager).settings() == old(manager).settings()
                &&& final(manager).shared_size() == old(manager).shared_size()
                &&& final(manager).same_setup(old(manager))
            },
            EventView::SetResolution { width, height } => {
                &&& action == (ControlAction::Resize {
                    restart: resize_plan(old(manager).size(), width, height),
                })
                &&& *final(manager) == *old(manager)
            },
            _ => {
                &&& action is Nothing
                &&& *final(manager) == *old(manager)
            },
        },
{
    match event {
        InputEvent::RequestKeyframe => ControlAction::ForceKeyframe,
        InputEvent::SetBitrate { kbps } => {
            manager.set_bitrate(*kbps);
            ControlAction::SetBitrate { kbps: *kbps }
        },
        InputEvent::SetResolution { width, height } => ControlAction::Resize {
            restart: manager.resize(*width, *height),
        },
        _ => ControlAction::Nothing,
    }
}

/// The packed size to share for window clamping after a display resize that succeeded. The
/// manager rounds to even, so its own size is read back.
pub fn size_to_share(manager: &PipelineManager) -> (packed: u32)
    ensures
        packed == packed_size(manager.size().0, manager.size().1),
{
    let (w, h) = manager.current_resolution();
    pack_display_size(w, h)
}

} // verus!
