use plurimus::labels::{first_step, next_step, phase_of, FrameStep, TerminalRenderSystems};

#[test]
fn a_frame_steps_through_its_phases_in_order() {
    let mut steps = vec![first_step()];
    while let Some(next) = next_step(*steps.last().unwrap()) {
        steps.push(next);
    }
    assert_eq!(
        steps,
        vec![
            FrameStep::Extract,
            FrameStep::RasterizeWorld,
            FrameStep::RasterizeUi,
            FrameStep::Merge,
            FrameStep::PostProcess,
            FrameStep::Downsample,
            FrameStep::Present,
        ]
    );
    let phases: Vec<_> = steps.iter().map(|s| phase_of(*s)).collect();
    assert_eq!(
        phases,
        vec![
            None,
            Some(TerminalRenderSystems::Rasterize),
            Some(TerminalRenderSystems::Rasterize),
            Some(TerminalRenderSystems::Composite),
            Some(TerminalRenderSystems::Composite),
            Some(TerminalRenderSystems::Composite),
            Some(TerminalRenderSystems::Present),
        ]
    );
}
