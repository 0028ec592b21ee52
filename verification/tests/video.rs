use obs_glitch::eval::EvalContext;
use obs_glitch::command::Command;
use obs_glitch::filter::video::{apply_expressions, FrameInfo, FrameOutcome, PixelFormat};
use obs_glitch::filter::{Expression, GlitchFilter, Settings};
use obs_glitch::snapshot::SnapshotTable;
use rand::rngs::StdRng;
use rand::{RngCore, SeedableRng};
use std::sync::Arc;

fn parse(text: &str) -> Option<Vec<u8>> {
    Some(text.bytes().collect())
}

/// Adds the first token to red.
fn redden(context: EvalContext<'_, u8>, _frame: &[u8], rng: StdRng) -> (Option<[u8; 4]>, StdRng) {
    let [r, g, b, a] = context.rgba;
    (Some([r.wrapping_add(context.tokens[0]), g, b, a]), rng)
}

fn draw(_context: EvalContext<'_, u8>, _frame: &[u8], mut rng: StdRng) -> (Option<[u8; 4]>, StdRng) {
    let color = rng.next_u32().to_le_bytes();
    (Some(color), rng)
}

fn fail(_context: EvalContext<'_, u8>, _frame: &[u8], rng: StdRng) -> (Option<[u8; 4]>, StdRng) {
    (None, rng)
}

/// One expression for each token.
fn expressions(tokens: &[u8]) -> Vec<Expression<u8>> {
    tokens
        .iter()
        .map(|t| Expression { text: "e".to_string(), tokens: Arc::new(vec![*t]) })
        .collect()
}

/// A filter with an expression of the given tokens, or none where there are no tokens.
fn filter(tokens: &[u8]) -> GlitchFilter<u8> {
    let mut filter = GlitchFilter::new(0, None, &parse);
    filter.install_expression("e", Some(tokens.to_vec()));
    filter
}

/// A filter with a frame in its buffer.
fn loaded(tokens: &[u8], width: u32, height: u32, pixels: &[u8]) -> GlitchFilter<u8> {
    let mut filter = filter(tokens);
    filter.load_pixels(width, height, pixels, width * 4);
    filter
}

fn info(width: u32, height: u32, linesize: u32, format: PixelFormat) -> FrameInfo {
    FrameInfo { width, height, linesize, format, has_data: true }
}

#[test]
fn one_expression_is_applied_once() {
    let mut filter = loaded(&[10], 2, 1, &[1, 2, 3, 4, 5, 6, 7, 8]);
    filter.process_frame(2, 1, &redden);
    assert_eq!(filter.buffer(), [11, 2, 3, 4, 15, 6, 7, 8]);
    filter.process_frame(1, 2, &redden);
    assert_eq!(filter.buffer(), [21, 2, 3, 4, 25, 6, 7, 8]);
}

#[test]
fn two_expressions_are_applied_in_turn() {
    let mut frame = vec![1, 2, 3, 4, 5, 6, 7, 8];
    let mut scratch = Vec::new();
    apply_expressions(&expressions(&[10, 100]), 2, 1, &mut frame, &mut scratch, 0, &redden);
    assert_eq!(frame, vec![111, 2, 3, 4, 115, 6, 7, 8]);
}

#[test]
fn without_expressions_a_frame_stays() {
    let mut filter = loaded(&[], 1, 1, &[1, 2, 3, 4]);
    for (width, height) in [(1, 1), (0, 0), (7, 5)] {
        filter.process_frame(width, height, &redden);
        assert_eq!(filter.buffer(), [1, 2, 3, 4]);
    }
}

#[test]
fn a_frame_without_rows_has_nothing_to_process() {
    let mut filter = filter(&[10]);
    filter.process_frame(3, 0, &redden);
    assert!(filter.buffer().is_empty());
}

#[test]
fn the_frame_number_moves_the_seed() {
    let mut filter = filter(&[1]);
    filter.update_settings(Some(Settings { expression: None, enabled: true, seed: 40 }), &parse);
    for _ in 0..2 {
        filter.filter_frame(&info(1, 1, 4, PixelFormat::Rgba), &mut [1, 1, 1, 1], &draw);
    }
    filter.load_pixels(1, 2, &[1; 8], 4);
    filter.process_frame(1, 2, &draw);
    assert_eq!(filter.buffer()[0..4], StdRng::seed_from_u64(42).next_u32().to_le_bytes());
    assert_eq!(filter.buffer()[4..8], StdRng::seed_from_u64(43).next_u32().to_le_bytes());
}

#[test]
fn the_second_pass_has_a_seed_of_its_own() {
    let mut frame = vec![1; 4];
    let mut scratch = Vec::new();
    apply_expressions(&expressions(&[1, 1]), 1, 1, &mut frame, &mut scratch, 0, &draw);
    let seed = 0x9E37_79B9_7F4A_7C15u64;
    let first = StdRng::seed_from_u64(0).next_u32().to_le_bytes();
    let second = StdRng::seed_from_u64(seed).next_u32().to_le_bytes();
    assert_ne!(first[3], 0);
    assert_eq!(frame, second);
}

#[test]
fn the_seed_wraps_around() {
    let mut filter = filter(&[1]);
    filter.update_settings(Some(Settings { expression: None, enabled: true, seed: -1 }), &parse);
    filter.filter_frame(&info(1, 1, 4, PixelFormat::Rgba), &mut [1, 1, 1, 1], &draw);
    filter.load_pixels(1, 1, &[1; 4], 4);
    filter.process_frame(1, 1, &draw);
    assert_eq!(filter.buffer(), StdRng::seed_from_u64(0).next_u32().to_le_bytes());
}

#[test]
fn seed_and_frame_count_act_through_their_sum() {
    let mut made = Vec::new();
    for (seed, frames) in [(42, 0), (40, 2)] {
        let mut filter = filter(&[1]);
        let settings = Settings { expression: None, enabled: true, seed };
        filter.update_settings(Some(settings), &parse);
        for _ in 0..frames {
            filter.filter_frame(&info(2, 1, 8, PixelFormat::Rgba), &mut [9; 8], &draw);
        }
        filter.load_pixels(1, 2, &[1; 8], 4);
        filter.process_frame(1, 2, &draw);
        made.push(filter.buffer().to_vec());
    }
    assert_eq!(made[0], made[1]);
}

#[test]
fn both_channel_orders_are_filtered_alike() {
    let mut rgba = vec![1, 2, 3, 4, 9, 9, 5, 6, 7, 0, 9, 9];
    let mut bgra = vec![3, 2, 1, 4, 8, 8, 7, 6, 5, 0, 8, 8];
    filter(&[10]).filter_frame(&info(1, 2, 6, PixelFormat::Rgba), &mut rgba, &redden);
    filter(&[10]).filter_frame(&info(1, 2, 6, PixelFormat::Bgra), &mut bgra, &redden);
    assert_eq!(rgba, vec![11, 2, 3, 4, 9, 9, 0, 0, 0, 0, 9, 9]);
    assert_eq!(bgra, vec![3, 2, 11, 4, 8, 8, 0, 0, 0, 0, 8, 8]);
}

#[test]
fn a_command_acts_on_the_frame_it_waits_before() {
    let mut filter = filter(&[128]);
    let mut snapshots = SnapshotTable::new();
    let off = Command::SetEnabled { target: None, enabled: false };
    filter.begin_frame(vec![off], &None, &mut snapshots, &parse, &|| 0u64);
    let mut data = vec![1, 2, 3, 255];
    let outcome = filter.filter_frame(&info(1, 1, 4, PixelFormat::Rgba), &mut data, &redden);
    assert!(matches!(outcome, FrameOutcome::Passthrough));
    assert_eq!(data, vec![1, 2, 3, 255]);
    assert!(!filter.enabled());
    assert_eq!(filter.frame_count(), 0);
}

#[test]
fn an_rgba_frame_is_filtered_in_place() {
    let mut filter = filter(&[10]);
    let mut data = vec![1, 2, 3, 4, 90, 91, 5, 6, 7, 8, 92, 93];
    let outcome = filter.filter_frame(&info(1, 2, 6, PixelFormat::Rgba), &mut data, &redden);
    assert!(matches!(outcome, FrameOutcome::Processed));
    assert_eq!(data, vec![11, 2, 3, 4, 90, 91, 15, 6, 7, 8, 92, 93]);
    assert_eq!(filter.frame_count(), 1);
    assert_eq!(filter.buffer(), [11, 2, 3, 4, 15, 6, 7, 8]);
}

#[test]
fn a_bgra_frame_is_filtered_in_place() {
    let mut filter = filter(&[10]);
    let mut data = vec![1, 2, 3, 4, 5, 6, 7, 8];
    let outcome = filter.filter_frame(&info(2, 1, 8, PixelFormat::Bgra), &mut data, &redden);
    assert!(matches!(outcome, FrameOutcome::Processed));
    assert_eq!(data, vec![1, 2, 13, 4, 5, 6, 17, 8]);
    assert_eq!(filter.buffer(), data);
}

#[test]
fn failed_evaluations_leave_the_frame() {
    let mut filter = filter(&[10]);
    let mut data: Vec<u8> = (1..41).collect();
    filter.filter_frame(&info(2, 2, 20, PixelFormat::Bgra), &mut data, &fail);
    assert_eq!(data, (1..41).collect::<Vec<u8>>());
    assert_eq!(filter.frame_count(), 1);
}

#[test]
fn other_formats_are_left_alone() {
    let mut filter = filter(&[10]);
    let mut data = vec![1, 2, 3, 4];
    let outcome = filter.filter_frame(&info(1, 1, 4, PixelFormat::Other), &mut data, &redden);
    assert!(matches!(outcome, FrameOutcome::Unsupported));
    assert_eq!(data, vec![1, 2, 3, 4]);
    assert_eq!(filter.frame_count(), 0);
}

#[test]
fn frames_without_pixels_are_left_alone() {
    let mut filter = filter(&[10]);
    let mut nothing = info(1, 1, 4, PixelFormat::Rgba);
    nothing.has_data = false;
    assert!(!filter.wants_frame(&nothing));
    assert!(matches!(
        filter.filter_frame(&nothing, &mut [], &redden),
        FrameOutcome::Passthrough
    ));
    for (width, height) in [(0, 1), (1, 0)] {
        let empty = info(width, height, 4, PixelFormat::Other);
        assert!(!filter.wants_frame(&empty));
        assert!(matches!(
            filter.filter_frame(&empty, &mut [], &redden),
            FrameOutcome::Passthrough
        ));
    }
    assert_eq!(filter.frame_count(), 0);
}

#[test]
fn a_filter_that_is_off_or_empty_leaves_frames_alone() {
    let mut off = filter(&[10]);
    off.update_settings(Some(Settings { expression: None, enabled: false, seed: 0 }), &parse);
    let mut empty = filter(&[]);
    let rgba = info(1, 1, 4, PixelFormat::Rgba);
    for filter in [&mut off, &mut empty] {
        assert!(!filter.wants_frame(&rgba));
        let mut data = vec![1, 2, 3, 4];
        assert!(matches!(
            filter.filter_frame(&rgba, &mut data, &redden),
            FrameOutcome::Passthrough
        ));
        assert_eq!(data, vec![1, 2, 3, 4]);
        assert_eq!(filter.frame_count(), 0);
    }
}

#[test]
fn a_frame_marks_the_source_as_asynchronous() {
    let mut filter = filter(&[10]);
    let rgba = info(1, 1, 4, PixelFormat::Rgba);
    assert!(filter.wants_frame(&rgba));
    assert!(!matches!(
        filter.render(Some((4, 4))),
        obs_glitch::filter::render::RenderStep::Skip
    ));
    filter.filter_frame(&rgba, &mut [1, 2, 3, 4], &redden);
    assert!(matches!(
        filter.render(Some((4, 4))),
        obs_glitch::filter::render::RenderStep::Skip
    ));
}

#[test]
fn an_asynchronous_source_is_passed_through_for_good() {
    let mut filter = filter(&[10]);
    filter.filter_frame(&info(1, 1, 4, PixelFormat::Other), &mut [], &redden);
    let mut snapshots = SnapshotTable::new();
    let on = Command::SetEnabled { target: None, enabled: true };
    filter.begin_frame(vec![on], &None, &mut snapshots, &parse, &|| 0u64);
    filter.set_expression("h", &parse);
    assert!(matches!(
        filter.render(Some((4, 4))),
        obs_glitch::filter::render::RenderStep::Skip
    ));
    assert_eq!(filter.frame_count(), 0);
}
