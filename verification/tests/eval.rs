use obs_glitch::eval::{eval_pass, eval_row, EvalContext};
use rand::rngs::StdRng;
use rand::{RngCore, SeedableRng};

fn invert(context: EvalContext<'_, u8>, _frame: &[u8], rng: StdRng) -> (Option<[u8; 4]>, StdRng) {
    let [r, g, b, a] = context.rgba;
    (Some([255 - r, 255 - g, 255 - b, a]), rng)
}

fn fail(_context: EvalContext<'_, u8>, _frame: &[u8], rng: StdRng) -> (Option<[u8; 4]>, StdRng) {
    (None, rng)
}

fn draw(_context: EvalContext<'_, u8>, _frame: &[u8], mut rng: StdRng) -> (Option<[u8; 4]>, StdRng) {
    let color = rng.next_u32().to_le_bytes();
    (Some(color), rng)
}

/// Shows what it was told.
fn echo(context: EvalContext<'_, u8>, frame: &[u8], rng: StdRng) -> (Option<[u8; 4]>, StdRng) {
    assert_eq!(context.saved_rgb, [0, 0, 0]);
    assert!(context.ignore_state);
    assert_eq!(context.size, (2, 3));
    assert_eq!(frame.len(), 24);
    assert_eq!(context.rgba[0], frame[(context.position.1 * 8 + context.position.0 * 4) as usize]);
    (
        Some([context.tokens[0], context.position.0 as u8, context.position.1 as u8, context.rgba[0]]),
        rng,
    )
}

#[test]
fn every_opaque_pixel_is_evaluated() {
    let frame = [1, 2, 3, 255, 10, 20, 30, 9];
    let mut out = [0; 8];
    eval_pass(&invert, &[0u8], 2, 1, &frame, &mut out, 0);
    assert_eq!(out, [254, 253, 252, 255, 245, 235, 225, 9]);
}

#[test]
fn a_transparent_pixel_is_cleared() {
    let frame = [1, 2, 3, 0, 10, 20, 30, 9];
    let mut out = [77; 8];
    eval_pass(&invert, &[0u8], 2, 1, &frame, &mut out, 0);
    assert_eq!(out, [0, 0, 0, 0, 245, 235, 225, 9]);
}

#[test]
fn a_failed_evaluation_keeps_the_pixel() {
    let frame: Vec<u8> = (1..25).collect();
    let mut out = vec![0; 24];
    eval_pass(&fail, &[0u8], 2, 3, &frame, &mut out, 5);
    assert_eq!(out, frame);
}

#[test]
fn the_evaluator_is_told_of_the_pixel() {
    let frame: Vec<u8> = (1..25).collect();
    let mut out = vec![0; 24];
    eval_pass(&echo, &[42u8], 2, 3, &frame, &mut out, 5);
    assert_eq!(
        out,
        vec![
            42, 0, 0, 1, 42, 1, 0, 5, 42, 0, 1, 9, 42, 1, 1, 13, 42, 0, 2, 17, 42, 1, 2, 21
        ]
    );
}

#[test]
fn each_row_draws_from_its_own_generator() {
    let frame = vec![1; 2 * 3 * 4];
    let mut out = vec![0; 24];
    eval_pass(&draw, &[0u8], 2, 3, &frame, &mut out, 1000);
    for y in 0..3u64 {
        let mut rng = StdRng::seed_from_u64(1000 + y);
        for x in 0..2 {
            let at = (y as usize * 2 + x) * 4;
            assert_eq!(out[at..at + 4], rng.next_u32().to_le_bytes());
        }
    }
}

#[test]
fn a_transparent_pixel_draws_nothing() {
    let frame = [1, 1, 1, 0, 1, 1, 1, 1];
    let mut out = [0; 8];
    eval_pass(&draw, &[0u8], 2, 1, &frame, &mut out, 3);
    assert_eq!(out[0..4], [0, 0, 0, 0]);
    assert_eq!(out[4..8], StdRng::seed_from_u64(3).next_u32().to_le_bytes());
}

#[test]
fn row_seeds_wrap_around() {
    let frame = vec![1; 8];
    let mut out = vec![0; 8];
    eval_pass(&draw, &[0u8], 1, 2, &frame, &mut out, u64::MAX);
    assert_eq!(out[4..8], StdRng::seed_from_u64(0).next_u32().to_le_bytes());
}

#[test]
fn a_pass_is_reproducible() {
    let frame: Vec<u8> = (0..64 * 64 * 4).map(|i| (i % 251) as u8).collect();
    let mut first = vec![0; frame.len()];
    let mut second = vec![9; frame.len()];
    eval_pass(&draw, &[0u8], 64, 64, &frame, &mut first, 11);
    eval_pass(&draw, &[0u8], 64, 64, &frame, &mut second, 11);
    assert_eq!(first, second);
    eval_pass(&draw, &[0u8], 64, 64, &frame, &mut second, 12);
    assert_ne!(first, second);
}

#[test]
fn one_row_can_be_evaluated_alone() {
    let frame: Vec<u8> = (1..25).collect();
    let mut row = vec![0; 8];
    eval_row(&invert, &[0u8], 2, 3, &frame, 0, 1, &mut row);
    assert_eq!(row, vec![246, 245, 244, 12, 242, 241, 240, 16]);
}

#[test]
fn a_source_may_be_longer_than_its_frame() {
    let frame = [1, 2, 3, 255, 77, 78];
    let mut out = [0; 4];
    eval_pass(&invert, &[0u8], 1, 1, &frame, &mut out, 0);
    assert_eq!(out, [254, 253, 252, 255]);
}
