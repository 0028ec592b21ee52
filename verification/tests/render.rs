use obs_glitch::eval::EvalContext;
use obs_glitch::filter::render::RenderStep;
use obs_glitch::filter::{GlitchFilter, Settings};
use rand::rngs::StdRng;

fn parse(text: &str) -> Option<Vec<u8>> {
    Some(text.bytes().collect())
}

fn filter() -> GlitchFilter<u8> {
    let mut filter = GlitchFilter::new(0, None, &parse);
    filter.set_expression("c", &parse);
    filter
}

fn invert(context: EvalContext<'_, u8>, _frame: &[u8], rng: StdRng) -> (Option<[u8; 4]>, StdRng) {
    let [r, g, b, a] = context.rgba;
    (Some([255 - r, 255 - g, 255 - b, a]), rng)
}

fn name(step: &RenderStep) -> String {
    match step {
        RenderStep::Skip => "skip".to_string(),
        RenderStep::CreateTarget { cx, cy } => format!("create target {}x{}", cx, cy),
        RenderStep::BeginTarget { cx, cy } => format!("begin target {}x{}", cx, cy),
        RenderStep::DrawSource { cx, cy } => format!("draw source {}x{}", cx, cy),
        RenderStep::ReleaseSurfaces { cx, cy, stagesurface, output_texture } => {
            format!("release {}x{} {} {}", cx, cy, stagesurface, output_texture)
        }
        RenderStep::CreateSurface { cx, cy } => format!("create surface {}x{}", cx, cy),
        RenderStep::MapSurface { cx, cy } => format!("map {}x{}", cx, cy),
        RenderStep::LoadPixels { cx, cy } => format!("load {}x{}", cx, cy),
        RenderStep::UnmapSurface { cx, cy } => format!("unmap {}x{}", cx, cy),
        RenderStep::CreateOutput { cx, cy } => format!("create output {}x{}", cx, cy),
        RenderStep::Upload { cx, cy } => format!("upload {}x{}", cx, cy),
        RenderStep::FindEffect { cx, cy } => format!("find effect {}x{}", cx, cy),
        RenderStep::DrawOutput { cx, cy } => format!("draw output {}x{}", cx, cy),
    }
}

/// Renders a grey source, and fails in the step whose name begins with `failing`.
fn render(filter: &mut GlitchFilter<u8>, cx: u32, cy: u32, failing: &str) -> Vec<String> {
    let mut steps = Vec::new();
    let mut step = filter.render(Some((cx, cy)));
    loop {
        steps.push(name(&step));
        let ok = failing.is_empty() || !name(&step).starts_with(failing);
        match step {
            RenderStep::Skip | RenderStep::DrawOutput { .. } => return steps,
            RenderStep::LoadPixels { cx, cy } => {
                let data = vec![100; (cx * cy * 4) as usize];
                filter.load_pixels(cx, cy, &data, cx * 4);
            }
            _ => {}
        }
        step = filter.next_step(step, ok, &invert);
    }
}

#[test]
fn the_first_render_creates_everything() {
    let mut filter = filter();
    assert_eq!(
        render(&mut filter, 2, 3, ""),
        vec![
            "create target 2x3",
            "begin target 2x3",
            "draw source 2x3",
            "release 2x3 false false",
            "create surface 2x3",
            "map 2x3",
            "load 2x3",
            "unmap 2x3",
            "create output 2x3",
            "upload 2x3",
            "find effect 2x3",
            "draw output 2x3",
        ]
    );
    assert_eq!(filter.frame_count(), 1);
    assert_eq!(filter.buffer()[0..4], [155, 155, 155, 100]);
    assert_eq!(filter.buffer().len(), 24);
}

#[test]
fn every_second_frame_shows_the_last_output() {
    let mut filter = filter();
    render(&mut filter, 2, 3, "");
    assert_eq!(render(&mut filter, 2, 3, ""), vec!["find effect 2x3", "draw output 2x3"]);
    assert_eq!(
        render(&mut filter, 2, 3, ""),
        vec![
            "begin target 2x3",
            "draw source 2x3",
            "map 2x3",
            "load 2x3",
            "unmap 2x3",
            "upload 2x3",
            "find effect 2x3",
            "draw output 2x3",
        ]
    );
    assert_eq!(filter.frame_count(), 3);
}

#[test]
fn the_interval_can_be_set() {
    let mut filter = filter();
    filter.set_process_interval(3);
    let lengths: Vec<usize> = (0..7).map(|_| render(&mut filter, 2, 3, "").len()).collect();
    assert_eq!(lengths, vec![12, 2, 2, 8, 2, 2, 8]);
}

#[test]
fn a_new_size_replaces_the_surfaces() {
    let mut filter = filter();
    render(&mut filter, 2, 3, "");
    assert_eq!(
        render(&mut filter, 4, 3, ""),
        vec![
            "begin target 4x3",
            "draw source 4x3",
            "release 4x3 true true",
            "create surface 4x3",
            "map 4x3",
            "load 4x3",
            "unmap 4x3",
            "create output 4x3",
            "upload 4x3",
            "find effect 4x3",
            "draw output 4x3",
        ]
    );
}

#[test]
fn a_failing_step_shows_the_source_unfiltered() {
    for failing in [
        "create target",
        "begin target",
        "draw source",
        "create surface",
        "map",
        "create output",
    ] {
        let mut filter = filter();
        let steps = render(&mut filter, 2, 3, failing);
        assert!(steps[steps.len() - 2].starts_with(failing));
        assert_eq!(steps[steps.len() - 1], "skip");
        assert_eq!(filter.frame_count(), 0);
    }
}

#[test]
fn a_frame_is_counted_though_there_is_no_effect() {
    let mut filter = filter();
    let steps = render(&mut filter, 2, 3, "find effect");
    assert_eq!(steps[steps.len() - 1], "skip");
    assert_eq!(filter.frame_count(), 1);
}

#[test]
fn what_was_created_before_a_failure_is_kept() {
    let mut filter = filter();
    render(&mut filter, 2, 3, "map");
    assert_eq!(
        render(&mut filter, 2, 3, "create output"),
        vec![
            "begin target 2x3",
            "draw source 2x3",
            "map 2x3",
            "load 2x3",
            "unmap 2x3",
            "create output 2x3",
            "skip",
        ]
    );
    let held = filter.destroy_resources();
    assert!(held.texrender);
    assert!(held.stagesurface);
    assert!(!held.output_texture);
}

#[test]
fn nothing_is_rendered_without_a_source_or_size() {
    let filter = filter();
    assert!(matches!(filter.render(None), RenderStep::Skip));
    assert!(matches!(filter.render(Some((0, 5))), RenderStep::Skip));
    assert!(matches!(filter.render(Some((5, 0))), RenderStep::Skip));
}

#[test]
fn a_filter_that_is_off_or_empty_passes_the_source_through() {
    let mut off = filter();
    off.update_settings(Some(Settings { expression: None, enabled: false, seed: 0 }), &parse);
    assert!(matches!(off.render(Some((2, 3))), RenderStep::Skip));
    let empty: GlitchFilter<u8> = GlitchFilter::new(0, None, &parse);
    assert!(matches!(empty.render(Some((2, 3))), RenderStep::Skip));
}

#[test]
fn a_finished_render_stays_finished() {
    let mut filter = filter();
    assert!(matches!(filter.next_step(RenderStep::Skip, true, &invert), RenderStep::Skip));
    assert_eq!(filter.frame_count(), 0);
}

#[test]
fn a_fresh_filter_holds_no_resources() {
    let held = filter().destroy_resources();
    assert!(!held.texrender && !held.stagesurface && !held.output_texture);
}

#[test]
fn the_first_of_every_two_renders_uploads() {
    for n in 0..6 {
        let mut filter = filter();
        let uploads = (0..n)
            .filter(|_| render(&mut filter, 2, 3, "").iter().any(|s| s.starts_with("upload")))
            .count() as u64;
        assert_eq!(uploads, (n + 1) / 2);
        assert_eq!(filter.frame_count(), n);
    }
}

#[test]
fn rendering_to_the_target_is_finished_where_it_was_begun() {
    for failing in ["", "begin target", "draw source", "create surface", "map", "find effect"] {
        let steps = render(&mut filter(), 2, 3, failing);
        let begun = steps.iter().position(|s| s.starts_with("begin")).unwrap();
        assert_eq!(steps[begun + 1].starts_with("draw source"), failing != "begin target");
        let ends = steps.iter().filter(|s| *s == "skip" || s.starts_with("draw output")).count();
        assert_eq!(ends, 1);
    }
}

#[test]
fn a_mapped_surface_is_read_and_unmapped() {
    for failing in ["", "draw source", "create surface", "map", "create output", "find effect"] {
        let steps = render(&mut filter(), 2, 3, failing);
        let mapped = steps.iter().position(|s| s.starts_with("map"));
        let unmapped = steps.iter().position(|s| s.starts_with("unmap"));
        match mapped {
            Some(i) if failing != "map" => {
                assert!(steps[i + 1].starts_with("load"));
                assert_eq!(unmapped, Some(i + 2));
            }
            _ => assert_eq!(unmapped, None),
        }
    }
}

#[test]
fn pixels_are_processed_when_the_surface_is_unmapped() {
    let mut filter = filter();
    let data = [1, 2, 3, 4, 99, 5, 6, 7, 8];
    let mut step = filter.render(Some((1, 2)));
    while !matches!(step, RenderStep::LoadPixels { .. }) {
        step = filter.next_step(step, true, &invert);
    }
    filter.load_pixels(1, 2, &data, 5);
    step = filter.next_step(step, true, &invert);
    assert!(matches!(step, RenderStep::UnmapSurface { cx: 1, cy: 2 }));
    assert_eq!(filter.buffer(), [1, 2, 3, 4, 5, 6, 7, 8]);
    step = filter.next_step(step, true, &invert);
    assert!(matches!(step, RenderStep::CreateOutput { cx: 1, cy: 2 }));
    assert_eq!(filter.buffer(), [254, 253, 252, 4, 250, 249, 248, 8]);
}
