//! The names the render pipeline is organized by: its plugins, the
//! render sub-app and its schedules, and the system sets that order the
//! frame.
//!
//! A frame runs in three phases - rasterize, composite, present - in the
//! render sub-app, after extraction copies what it needs from the main
//! world.

use vstd::prelude::*;

verus! {

/// Core: terminal size, cameras and viewports, compositing, and color
/// quantization.
#[derive(Clone, Copy, Debug, PartialEq, Eq, Structural)]
pub struct CorePlugin;

/// 2d sprites rasterized into camera buffers.
#[derive(Clone, Copy, Debug, PartialEq, Eq, Structural)]
pub struct Plugin2d;

/// 3d cameras rendered offscreen and converted into cells.
#[derive(Clone, Copy, Debug, PartialEq, Eq, Structural)]
pub struct Plugin3d;

/// The GPU rendering stack 3d rendering needs, added where missing.
#[derive(Clone, Copy, Debug, PartialEq, Eq, Structural)]
pub struct Render3dPlugins;

/// UI nodes laid out and painted into camera buffers.
#[derive(Clone, Copy, Debug, PartialEq, Eq, Structural)]
pub struct BuiPlugin;

/// The render sub-app every frame is built in.
#[derive(Clone, Copy, Debug, PartialEq, Eq, Structural)]
pub struct TerminalRenderApp;

/// The schedule that copies main-world state into the render sub-app.
#[derive(Clone, Copy, Debug, PartialEq, Eq, Structural)]
pub struct ExtractSchedule;

/// The schedule that builds and presents a frame.
#[derive(Clone, Copy, Debug, PartialEq, Eq, Structural)]
pub struct TerminalRender;

/// The phases of a frame, in order.
#[derive(Clone, Copy, Debug, PartialEq, Eq, Structural)]
pub enum TerminalRenderSystems {
    /// Pipelines draw into camera buffers.
    Rasterize,
    /// Camera buffers merge into the frame.
    Composite,
    /// The frame reaches the terminal.
    Present,
}

/// The parts of rasterization, in order: the world beneath the UI.
#[derive(Clone, Copy, Debug, PartialEq, Eq, Structural)]
pub enum RasterizeSystems {
    /// World pipelines.
    World,
    /// UI pipelines.
    Ui,
}

/// The parts of compositing, in order.
#[derive(Clone, Copy, Debug, PartialEq, Eq, Structural)]
pub enum CompositeSystems {
    /// Camera buffers merge into the frame.
    Merge,
    /// Passes over the merged frame.
    PostProcess,
    /// Color quantization to the terminal's depth.
    Downsample,
}

/// A step of a frame, in the order the render schedule runs them:
/// extraction, then each phase's parts in their chained order.
#[derive(Clone, Copy, Debug, PartialEq, Eq, Structural)]
pub enum FrameStep {
    /// Main-world state is copied into the render sub-app.
    Extract,
    /// World pipelines rasterize.
    RasterizeWorld,
    /// UI pipelines rasterize, over the world.
    RasterizeUi,
    /// Camera buffers merge into the frame.
    Merge,
    /// Passes over the merged frame.
    PostProcess,
    /// Color quantization.
    Downsample,
    /// The frame reaches the terminal.
    Present,
}

/// A step's place in the frame, from zero.
pub open spec fn step_rank(step: FrameStep) -> int {
    match step {
        FrameStep::Extract => 0,
        FrameStep::RasterizeWorld => 1,
        FrameStep::RasterizeUi => 2,
        FrameStep::Merge => 3,
        FrameStep::PostProcess => 4,
        FrameStep::Downsample => 5,
        FrameStep::Present => 6,
    }
}

/// The step a frame starts with.
pub fn first_step() -> (s: FrameStep)
    ensures
        step_rank(s) == 0,
{
    FrameStep::Extract
}

/// The step after `step`; `None` once the frame is presented.
pub fn next_step(step: FrameStep) -> (n: Option<FrameStep>)
    ensures
        n is None <==> step == FrameStep::Present,
        n matches Some(s) ==> step_rank(s) == step_rank(step) + 1,
{
    match step {
        FrameStep::Extract => Some(FrameStep::RasterizeWorld),
        FrameStep::RasterizeWorld => Some(FrameStep::RasterizeUi),
        FrameStep::RasterizeUi => Some(FrameStep::Merge),
        FrameStep::Merge => Some(FrameStep::PostProcess),
        FrameStep::PostProcess => Some(FrameStep::Downsample),
        FrameStep::Downsample => Some(FrameStep::Present),
        FrameStep::Present => None,
    }
}

/// The phase a step belongs to; `None` for extraction, which runs in
/// its own schedule.
pub open spec fn phase_spec(step: FrameStep) -> Option<TerminalRenderSystems> {
    match step {
        FrameStep::Extract => None,
        FrameStep::RasterizeWorld | FrameStep::RasterizeUi => Some(TerminalRenderSystems::Rasterize),
        FrameStep::Merge | FrameStep::PostProcess | FrameStep::Downsample => Some(
            TerminalRenderSystems::Composite,
        ),
        FrameStep::Present => Some(TerminalRenderSystems::Present),
    }
}

/// The phase a step belongs to; see [`phase_spec`].
pub fn phase_of(step: FrameStep) -> (p: Option<TerminalRenderSystems>)
    ensures
        p == phase_spec(step),
{
    match step {
        FrameStep::Extract => None,
        FrameStep::RasterizeWorld | FrameStep::RasterizeUi => Some(TerminalRenderSystems::Rasterize),
        FrameStep::Merge | FrameStep::PostProcess | FrameStep::Downsample => Some(
            TerminalRenderSystems::Composite,
        ),
        FrameStep::Present => Some(TerminalRenderSystems::Present),
    }
}

/// A phase's place in the frame; extraction comes first.
pub open spec fn phase_rank(phase: Option<TerminalRenderSystems>) -> int {
    match phase {
        None => 0,
        Some(TerminalRenderSystems::Rasterize) => 1,
        Some(TerminalRenderSystems::Composite) => 2,
        Some(TerminalRenderSystems::Present) => 3,
    }
}

/// The frame's steps keep its phases chained: a later step never belongs
/// to an earlier phase, so every rasterize step runs before every
/// composite step, and those before presenting.
pub proof fn lemma_phases_chain(a: FrameStep, b: FrameStep)
    requires
        step_rank(a) <= step_rank(b),
    ensures
        phase_rank(phase_spec(a)) <= phase_rank(phase_spec(b)),
{
}

} // verus!
