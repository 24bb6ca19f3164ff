//! The driver slots of the session: what the drivers publish and what is asked of them.
use vstd::prelude::*;

use crate::display::DisplaySlots;
use crate::pipe::Platform;

verus! {

/// What the drivers of the surrounding program keep in their slots.
pub trait Drivers: Platform {
    type Audio;

    type Media;

    type Sampler;

    type Rpc;

    /// The multi-GPU binding.
    type Gpu;

    type Watchdog;

    type LidPosition;

    type DisplayRequest;

    type Logind;

    type CaptureRegistry;

    type Capture;

    type Overlay;

    type ModeRequest;

    type ModeResult;

    type Settings;
}

/// What the drivers bring with them at start.
pub struct DriverSeeds<D: Drivers> {
    /// `None` if no audio server answers.
    pub audio: Option<D::Audio>,
    pub media: D::Media,
    pub rpc: D::Rpc,
    /// A capture at rest.
    pub capture: D::Capture,
    pub display_snapshot: D::Summary,
    pub selection_overlay: D::Overlay,
    pub settings: D::Settings,
}

/// The driver slots.
pub struct Kernel<D: Drivers> {
    pub audio: Option<D::Audio>,
    pub media: Option<D::Media>,
    /// Filled after start by the loader.
    pub sampler: Option<D::Sampler>,
    pub rpc: D::Rpc,
    /// Filled after start by the backend.
    pub gpu_binding: Option<D::Gpu>,
    pub vblank_seen: bool,
    pub resume_watchdog: Option<D::Watchdog>,
    pub lid_position: Option<D::LidPosition>,
    pub display_request: Option<D::DisplayRequest>,
    /// Filled after start by the backend.
    pub logind: Option<D::Logind>,
    pub capture_registry: Option<D::CaptureRegistry>,
    pub capture: D::Capture,
    /// Whether the session runs inside another one.
    pub nested: bool,
    pub selection_overlay: D::Overlay,
    pub mode_request: Option<D::ModeRequest>,
    pub mode_result: Option<D::ModeResult>,
    pub display: DisplaySlots<D>,
    pub settings: D::Settings,
}

impl<D: Drivers> Kernel<D> {
    /// Whether the slots are those of a session at its start: the seeds are in, and nothing is
    /// bound, seen, asked or told yet.
    pub open spec fn seeded(&self, nested: bool, seeds: DriverSeeds<D>) -> bool {
        &&& self.audio == seeds.audio
        &&& self.media == Some(seeds.media)
        &&& self.sampler is None
        &&& self.rpc == seeds.rpc
        &&& self.gpu_binding is None
        &&& self.vblank_seen == false
        &&& self.resume_watchdog is None
        &&& self.lid_position is None
        &&& self.display_request is None
        &&& self.logind is None
        &&& self.capture_registry is None
        &&& self.capture == seeds.capture
        &&& self.nested == nested
        &&& self.selection_overlay == seeds.selection_overlay
        &&& self.mode_request is None
        &&& self.mode_result is None
        &&& self.settings == seeds.settings
        &&& self.display.display_off == false
        &&& self.display.display_snapshot == seeds.display_snapshot
        &&& self.display.modes_snapshot.blank()
        &&& self.display.outputs_snapshot.displays.len() == 0
        &&& self.display.switch_request is None
        &&& self.display.switch_result is None
    }

    /// The slots at start.
    pub fn new(nested: bool, seeds: DriverSeeds<D>) -> (r: Self)
        ensures
            r.seeded(nested, seeds),
            r.audio == seeds.audio,
            r.media == Some(seeds.media),
            r.sampler is None,
            r.rpc == seeds.rpc,
            r.gpu_binding is None,
            !r.vblank_seen,
            r.resume_watchdog is None,
            r.lid_position is None,
            r.display_request is None,
            r.logind is None,
            r.capture_registry is None,
            r.capture == seeds.capture,
            r.nested == nested,
            r.selection_overlay == seeds.selection_overlay,
            r.mode_request is None,
            r.mode_result is None,
            r.settings == seeds.settings,
            !r.display.display_off,
            r.display.display_snapshot == seeds.display_snapshot,
            r.display.modes_snapshot.edid_key@.len() == 0,
            r.display.modes_snapshot.current is None,
            r.display.modes_snapshot.available.len() == 0,
            r.display.outputs_snapshot.displays.len() == 0,
            r.display.switch_request is None,
            r.display.switch_result is None,
    {
        Kernel {
            audio: seeds.audio,
            media: Some(seeds.media),
            sampler: None,
            rpc: seeds.rpc,
            gpu_binding: None,
            vblank_seen: false,
            resume_watchdog: None,
            lid_position: None,
            display_request: None,
            logind: None,
            capture_registry: None,
            capture: seeds.capture,
            nested,
            selection_overlay: seeds.selection_overlay,
            mode_request: None,
            mode_result: None,
            display: DisplaySlots::new(seeds.display_snapshot),
            settings: seeds.settings,
        }
    }
}

/// Seeded slots hold the seeds, each its own, and nothing else yet.
pub proof fn lemma_seeded<D: Drivers>(k: &Kernel<D>, nested: bool, seeds: DriverSeeds<D>)
    requires
        k.seeded(nested, seeds),
    ensures
        k.audio == seeds.audio,
        k.media == Some(seeds.media),
        k.rpc == seeds.rpc,
        k.capture == seeds.capture,
        k.nested == nested,
        k.selection_overlay == seeds.selection_overlay,
        k.settings == seeds.settings,
        k.display.display_snapshot == seeds.display_snapshot,
        k.sampler is None && k.gpu_binding is None && k.resume_watchdog is None,
        k.lid_position is None && k.display_request is None && k.logind is None,
        k.capture_registry is None && k.mode_request is None && k.mode_result is None,
        k.display.switch_request is None && k.display.switch_result is None,
        k.display.modes_snapshot.edid_key@.len() == 0,
        k.display.modes_snapshot.current is None,
        k.display.modes_snapshot.available.len() == 0,
        k.display.outputs_snapshot.displays.len() == 0,
        !k.vblank_seen && !k.display.display_off,
{
}

} // verus!
