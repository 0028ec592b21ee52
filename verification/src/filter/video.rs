//! Applying a filter's expressions to frames.

use crate::eval::{eval_is_function, law_pass_is_reproducible, pass_evaluated};
use crate::eval::{law_opaque_pixel_gets_the_reply, law_pass_evaluates_every_row};
use crate::eval::{law_transparent_pixel_is_cleared, lemma_row_bounds};
use crate::eval::{pixel_at, row_of, seeded_rng};
use crate::eval::{eval_pass, frame_len, row_len, EvalContext};
use crate::filter::{expressions_of, Expression, ExpressionView, FilterView, GlitchFilter};
use crate::frame::{copy_lines_in, copy_lines_out, swap_red_blue};
use crate::frame::{law_swap_undoes_itself, law_written_frame_is_read_back};
use crate::frame::{law_packed_bytes, law_padding_is_untouched};
use crate::frame::{law_reordered_bytes, law_unpacked_bytes};
use crate::frame::{lemma_frame_bounds, lemma_packed_rows};
use crate::frame::{packed, reordered, surface_len, swapped, unpacked};
use rand::rngs::StdRng;
use vstd::prelude::*;

verus! {

/// What sets the seeds of two passes over a frame apart.
pub const PASS_SEED_STEP: u64 = 0x9E37_79B9_7F4A_7C15;

/// The seed of a filter's next frame.
pub open spec fn frame_seed(seed: u64, frame_count: u64) -> u64 {
    seed.wrapping_add(frame_count)
}

/// The seed of a pass over a frame.
pub open spec fn pass_seed(frame_seed: u64, pass: int) -> u64 {
    frame_seed.wrapping_add((pass * PASS_SEED_STEP) as u64)
}

/// `out` is what one expression can make of a frame.
pub open spec fn expression_applied<T, F>(
    eval: F,
    expression: ExpressionView<T>,
    width: u32,
    height: u32,
    frame: Seq<u8>,
    seed: u64,
    out: Seq<u8>,
) -> bool where F: Fn(EvalContext<'_, T>, &[u8], StdRng) -> (Option<[u8; 4]>, StdRng) {
    exists|tokens: &[T], source: &[u8]|
        tokens@ == expression.tokens && source@ == frame && #[trigger] pass_evaluated(
            eval,
            tokens,
            width,
            height,
            source,
            seed,
            out,
        )
}

/// `out` is what the expressions, each applied to what the one before made, can make of a
/// frame.
pub open spec fn expressions_applied<T, F>(
    eval: F,
    expressions: Seq<ExpressionView<T>>,
    width: u32,
    height: u32,
    frame: Seq<u8>,
    seed: u64,
    out: Seq<u8>,
) -> bool where
    F: Fn(EvalContext<'_, T>, &[u8], StdRng) -> (Option<[u8; 4]>, StdRng),

    decreases expressions.len(),
{
    if expressions.len() == 0 {
        out == frame
    } else {
        exists|middle: Seq<u8>|
            expressions_applied(
                eval,
                expressions.drop_last(),
                width,
                height,
                frame,
                seed,
                middle,
            ) && #[trigger] expression_applied(
                eval,
                expressions.last(),
                width,
                height,
                middle,
                pass_seed(seed, expressions.len() - 1),
                out,
            )
    }
}

/// Applies expressions to a frame, one after the other.
///
/// Each pass reads `frame` and writes `scratch`, and then the two change places. The seed step
/// of a third pass would not fit its type, so there are at most two.
pub fn apply_expressions<T: Sync, F>(
    expressions: &[Expression<T>],
    width: u32,
    height: u32,
    frame: &mut Vec<u8>,
    scratch: &mut Vec<u8>,
    seed: u64,
    eval: &F,
) where F: Fn(EvalContext<'_, T>, &[u8], StdRng) -> (Option<[u8; 4]>, StdRng) + Sync
    requires
        expressions@.len() <= 2,
        expressions@.len() > 0 ==> {
            &&& width > 0
            &&& height == 0 ==> row_len(width) <= usize::MAX
            &&& old(frame)@.len() == frame_len(width, height)
        },
        forall|c: EvalContext<'_, T>, f: &[u8], g: StdRng| call_requires(*eval, (c, f, g)),
    ensures
        final(frame)@.len() == old(frame)@.len(),
        expressions_applied(
            *eval,
            expressions_of(expressions@),
            width,
            height,
            old(frame)@,
            seed,
            final(frame)@,
        ),
{
    let ghost before = frame@;
    let ghost all = expressions_of(expressions@);
    if expressions.len() == 0 {
        return ;
    }
    let size: usize = frame.len();
    scratch.resize(size, 0);
    let num: usize = expressions.len();
    let mut pass: usize = 0;
    proof {
        assert(all.take(0) =~= Seq::empty());
        if height > 0 {
            lemma_frame_bounds(width, height);
        }
    }
    while pass < num
        invariant
            pass <= num,
            num <= 2,
            num == expressions@.len(),
            all == expressions_of(expressions@),
            width > 0,
            row_len(width) <= usize::MAX,
            frame@.len() == frame_len(width, height),
            scratch@.len() == frame_len(width, height),
            forall|c: EvalContext<'_, T>, f: &[u8], g: StdRng| call_requires(*eval, (c, f, g)),
            expressions_applied(
                *eval,
                all.take(pass as int),
                width,
                height,
                before,
                seed,
                frame@,
            ),
        decreases num - pass,
    {
        let ghost middle = frame@;
        let own_seed: u64 = seed.wrapping_add(pass as u64 * PASS_SEED_STEP);
        let tokens: &[T] = expressions[pass].tokens.as_slice();
        eval_pass(
            eval,
            tokens,
            width,
            height,
            frame.as_slice(),
            scratch.as_mut_slice(),
            own_seed,
        );
        std::mem::swap(frame, scratch);
        proof {
            let done = all.take(pass + 1);
            assert(done.drop_last() =~= all.take(pass as int));
            assert(done.last() == all[pass as int]);
            assert(expression_applied(
                *eval,
                done.last(),
                width,
                height,
                middle,
                pass_seed(seed, pass as int),
                frame@,
            ));
        }
        pass = pass + 1;
    }
    proof {
        assert(all.take(num as int) =~= all);
    }
}

impl<T: Sync> GlitchFilter<T> {
    /// Applies the expressions to the frame in the buffer.
    pub fn process_frame<F>(&mut self, width: u32, height: u32, eval: &F) where
        F: Fn(EvalContext<'_, T>, &[u8], StdRng) -> (Option<[u8; 4]>, StdRng) + Sync,

        requires
            old(self)@.expressions.len() <= 2,
            old(self)@.expressions.len() > 0 ==> {
                &&& width > 0
                &&& height == 0 ==> row_len(width) <= usize::MAX
                &&& old(self)@.buffer.len() == frame_len(width, height)
            },
            forall|c: EvalContext<'_, T>, f: &[u8], g: StdRng| call_requires(*eval, (c, f, g)),
        ensures
            final(self)@ == (FilterView { buffer: final(self)@.buffer, ..old(self)@ }),
            final(self)@.buffer.len() == old(self)@.buffer.len(),
            expressions_applied(
                *eval,
                old(self)@.expressions,
                width,
                height,
                old(self)@.buffer,
                frame_seed(old(self)@.seed, old(self)@.frame_count),
                final(self)@.buffer,
            ),
    {
        let ghost before = self@;
        let seed: u64 = self.seed.wrapping_add(self.frame_count);
        apply_expressions(
            self.expressions.as_slice(),
            width,
            height,
            &mut self.buffer,
            &mut self.process_buf,
            seed,
            eval,
        );
        assert(self@ =~= FilterView { buffer: self@.buffer, ..before });
    }

    /// Whether the expressions apply to a frame of an asynchronous source.
    pub fn wants_frame(&self, info: &FrameInfo) -> (wanted: bool)
        ensures
            wanted == self@.wants_frame(*info),
    {
        self.enabled && self.expressions.len() > 0 && info.has_data && info.width != 0
            && info.height != 0 && !matches!(info.format, PixelFormat::Other)
    }

    /// Applies the expressions to a frame of an asynchronous source, in place.
    pub fn filter_frame<F>(&mut self, info: &FrameInfo, data: &mut [u8], eval: &F) -> (outcome:
        FrameOutcome) where
        F: Fn(EvalContext<'_, T>, &[u8], StdRng) -> (Option<[u8; 4]>, StdRng) + Sync,

        requires
            old(self)@.valid(),
            old(self)@.wants_frame(*info) ==> {
                &&& old(self)@.frame_count < u64::MAX
                &&& frame_len(info.width, info.height) <= isize::MAX
                &&& surface_len(info.linesize, info.width, info.height) <= old(data)@.len()
            },
            forall|c: EvalContext<'_, T>, f: &[u8], g: StdRng| call_requires(*eval, (c, f, g)),
        ensures
            final(self)@.valid(),
            outcome == old(self)@.frame_outcome(*info),
            final(self)@ == old(self)@.after_frame(*info, final(self)@.buffer),
            !(outcome is Processed) ==> final(data)@ == old(data)@,
            outcome is Processed ==> frame_filtered(
                *eval,
                old(self)@,
                *info,
                old(data)@,
                final(self)@.buffer,
                final(data)@,
            ),
    {
        let ghost before = self@;
        self.async_source = true;
        assert(self@ =~= FilterView { async_source: true, ..before });
        if !self.enabled || self.expressions.len() == 0 {
            return FrameOutcome::Passthrough;
        }
        if !info.has_data || info.width == 0 || info.height == 0 {
            return FrameOutcome::Passthrough;
        }
        let bgra: bool = match info.format {
            PixelFormat::Bgra => true,
            PixelFormat::Rgba => false,
            PixelFormat::Other => {
                return FrameOutcome::Unsupported;
            },
        };
        let width: u32 = info.width;
        let height: u32 = info.height;
        proof {
            lemma_frame_is_pixels(width, height);
        }
        copy_lines_in(&mut self.buffer, data, info.linesize, width, height);
        if bgra {
            swap_red_blue(&mut self.buffer);
        }
        let ghost loaded = self@;
        assert(loaded =~= FilterView { async_source: true, buffer: loaded.buffer, ..before });
        self.process_frame(width, height, eval);
        let ghost made = self@.buffer;
        if bgra {
            swap_red_blue(&mut self.buffer);
            proof {
                law_swap_undoes_itself(made);
            }
        }
        copy_lines_out(data, &self.buffer, info.linesize, width, height);
        self.frame_count = self.frame_count + 1;
        assert(self@ =~= FilterView {
            async_source: true,
            frame_count: (before.frame_count + 1) as u64,
            buffer: self@.buffer,
            ..before
        });
        FrameOutcome::Processed
    }
}

/// How a frame's pixels are laid out.
pub enum PixelFormat {
    Rgba,
    Bgra,
    /// A layout that is not handled.
    Other,
}

/// What is known of a frame of an asynchronous source.
pub struct FrameInfo {
    pub width: u32,
    pub height: u32,
    /// Bytes from one line to the next.
    pub linesize: u32,
    pub format: PixelFormat,
    /// Whether there are pixels at all.
    pub has_data: bool,
}

/// What became of a frame.
pub enum FrameOutcome {
    /// It was left alone.
    Passthrough,
    /// It was left alone because of its format.
    Unsupported,
    /// The expressions were applied to it.
    Processed,
}

impl<T> FilterView<T> {
    /// Whether the expressions apply to a frame of an asynchronous source.
    pub open spec fn wants_frame(self, info: FrameInfo) -> bool {
        self.frame_outcome(info) is Processed
    }

    /// What becomes of a frame of an asynchronous source.
    pub open spec fn frame_outcome(self, info: FrameInfo) -> FrameOutcome {
        if !self.enabled || self.expressions.len() == 0 || !info.has_data || info.width == 0
            || info.height == 0 {
            FrameOutcome::Passthrough
        } else if info.format is Other {
            FrameOutcome::Unsupported
        } else {
            FrameOutcome::Processed
        }
    }

    /// The filter after a frame of an asynchronous source, given what became of the frame's
    /// pixels. Such a frame marks the filter, whether the expressions apply to it or not.
    pub open spec fn after_frame(self, info: FrameInfo, pixels: Seq<u8>) -> FilterView<T> {
        if self.wants_frame(info) {
            FilterView {
                async_source: true,
                frame_count: (self.frame_count + 1) as u64,
                buffer: pixels,
                ..self
            }
        } else {
            FilterView { async_source: true, ..self }
        }
    }
}

/// `out` is what a filter can make of a frame's surface, by way of `buffer`: the pixels in RGBA
/// order, with the expressions applied, in the frame's own order again.
pub open spec fn frame_filtered<T, F>(
    eval: F,
    filter: FilterView<T>,
    info: FrameInfo,
    data: Seq<u8>,
    buffer: Seq<u8>,
    out: Seq<u8>,
) -> bool where F: Fn(EvalContext<'_, T>, &[u8], StdRng) -> (Option<[u8; 4]>, StdRng) {
    &&& buffer.len() == frame_len(info.width, info.height)
    &&& out == unpacked(data, buffer, info.linesize, info.width, info.height as nat)
    &&& expressions_applied(
        eval,
        filter.expressions,
        info.width,
        info.height,
        reordered(
            packed(data, info.linesize, info.width, info.height as nat),
            info.format is Bgra,
        ),
        frame_seed(filter.seed, filter.frame_count),
        reordered(buffer, info.format is Bgra),
    )
}

/// A frame consists of whole pixels.
proof fn lemma_frame_is_pixels(width: u32, height: u32)
    ensures
        frame_len(width, height) % 4 == 0,
{
    let pixels = height * width;
    assert(height * (4 * width) == 4 * (height * width)) by (nonlinear_arith);
    assert((4 * pixels) % 4 == 0);
}

/// One expression makes one thing of a frame, where the evaluator's replies depend on what it
/// is asked alone.
proof fn lemma_one_result<T, F>(
    eval: F,
    expression: ExpressionView<T>,
    width: u32,
    height: u32,
    frame: Seq<u8>,
    seed: u64,
    out1: Seq<u8>,
    out2: Seq<u8>,
) where F: Fn(EvalContext<'_, T>, &[u8], StdRng) -> (Option<[u8; 4]>, StdRng)
    requires
        eval_is_function::<T, F>(eval),
        frame.len() == frame_len(width, height),
        expression_applied(eval, expression, width, height, frame, seed, out1),
        expression_applied(eval, expression, width, height, frame, seed, out2),
    ensures
        out1 == out2,
        out1.len() == frame_len(width, height),
{
    let (tokens1, source1): (&[T], &[u8]) = choose|tokens: &[T], source: &[u8]|
        tokens@ == expression.tokens && source@ == frame && #[trigger] pass_evaluated(
            eval,
            tokens,
            width,
            height,
            source,
            seed,
            out1,
        );
    let (tokens2, source2): (&[T], &[u8]) = choose|tokens: &[T], source: &[u8]|
        tokens@ == expression.tokens && source@ == frame && #[trigger] pass_evaluated(
            eval,
            tokens,
            width,
            height,
            source,
            seed,
            out2,
        );
    assert(tokens1 =~= tokens2);
    assert(source1 =~= source2);
    law_pass_is_reproducible(eval, tokens1, width, height, source1, seed, out1, out2);
}

/// A frame is reproducible: with an evaluator whose replies depend on what it is asked alone,
/// the same expressions, pixels and seed give the same frame.
pub proof fn law_frame_is_reproducible<T, F>(
    eval: F,
    expressions: Seq<ExpressionView<T>>,
    width: u32,
    height: u32,
    frame: Seq<u8>,
    seed: u64,
    out1: Seq<u8>,
    out2: Seq<u8>,
) where F: Fn(EvalContext<'_, T>, &[u8], StdRng) -> (Option<[u8; 4]>, StdRng)
    requires
        eval_is_function::<T, F>(eval),
        frame.len() == frame_len(width, height),
        expressions_applied(eval, expressions, width, height, frame, seed, out1),
        expressions_applied(eval, expressions, width, height, frame, seed, out2),
    ensures
        out1 == out2,
        out1.len() == frame_len(width, height),
    decreases expressions.len(),
{
    if expressions.len() > 0 {
        let earlier = expressions.drop_last();
        let last_seed = pass_seed(seed, expressions.len() - 1);
        let last = expressions.last();
        let middle1 = choose|middle: Seq<u8>|
            expressions_applied(eval, earlier, width, height, frame, seed, middle)
                && #[trigger] expression_applied(
                eval,
                last,
                width,
                height,
                middle,
                last_seed,
                out1,
            );
        let middle2 = choose|middle: Seq<u8>|
            expressions_applied(eval, earlier, width, height, frame, seed, middle)
                && #[trigger] expression_applied(
                eval,
                last,
                width,
                height,
                middle,
                last_seed,
                out2,
            );
        law_frame_is_reproducible(
            eval,
            earlier,
            width,
            height,
            frame,
            seed,
            middle1,
            middle2,
        );
        lemma_one_result(eval, last, width, height, middle1, last_seed, out1, out2);
    }
}

/// What becomes of a frame depends on a filter's expressions, and on its seed and its frame
/// count through their wrapping sum alone: filters that agree in these make the same of the
/// same pixels, whatever they did before.
pub proof fn law_frame_depends_on_seed_sum<T, F>(
    eval: F,
    filter1: FilterView<T>,
    filter2: FilterView<T>,
    width: u32,
    height: u32,
    out1: Seq<u8>,
    out2: Seq<u8>,
) where F: Fn(EvalContext<'_, T>, &[u8], StdRng) -> (Option<[u8; 4]>, StdRng)
    requires
        eval_is_function::<T, F>(eval),
        filter1.buffer.len() == frame_len(width, height),
        filter1.buffer == filter2.buffer,
        filter1.expressions == filter2.expressions,
        filter1.seed.wrapping_add(filter1.frame_count) == filter2.seed.wrapping_add(
            filter2.frame_count,
        ),
        expressions_applied(
            eval,
            filter1.expressions,
            width,
            height,
            filter1.buffer,
            frame_seed(filter1.seed, filter1.frame_count),
            out1,
        ),
        expressions_applied(
            eval,
            filter2.expressions,
            width,
            height,
            filter2.buffer,
            frame_seed(filter2.seed, filter2.frame_count),
            out2,
        ),
    ensures
        out1 == out2,
{
    law_frame_is_reproducible(
        eval,
        filter1.expressions,
        width,
        height,
        filter1.buffer,
        frame_seed(filter1.seed, filter1.frame_count),
        out1,
        out2,
    );
}

/// The order of a frame's channels does not change the effect: where a BGRA frame has the
/// pixels of an RGBA frame, and the filters are alike, what becomes of the one is what becomes
/// of the other. On the surfaces this is so where lines do not overlap.
pub proof fn law_channel_order_does_not_matter<T, F>(
    eval: F,
    filter1: FilterView<T>,
    filter2: FilterView<T>,
    rgba: FrameInfo,
    bgra: FrameInfo,
    data1: Seq<u8>,
    data2: Seq<u8>,
    buffer1: Seq<u8>,
    buffer2: Seq<u8>,
    out1: Seq<u8>,
    out2: Seq<u8>,
) where F: Fn(EvalContext<'_, T>, &[u8], StdRng) -> (Option<[u8; 4]>, StdRng)
    requires
        eval_is_function::<T, F>(eval),
        filter1.expressions == filter2.expressions,
        filter1.seed == filter2.seed,
        filter1.frame_count == filter2.frame_count,
        rgba.format is Rgba,
        bgra.format is Bgra,
        rgba.height > 0,
        rgba.width == bgra.width,
        rgba.height == bgra.height,
        rgba.linesize == bgra.linesize,
        surface_len(rgba.linesize, rgba.width, rgba.height) <= data1.len(),
        surface_len(rgba.linesize, rgba.width, rgba.height) <= data2.len(),
        packed(data2, rgba.linesize, rgba.width, rgba.height as nat) == swapped(
            packed(data1, rgba.linesize, rgba.width, rgba.height as nat),
        ),
        frame_filtered(eval, filter1, rgba, data1, buffer1, out1),
        frame_filtered(eval, filter2, bgra, data2, buffer2, out2),
    ensures
        buffer2 == swapped(buffer1),
        row_len(rgba.width) <= rgba.linesize ==> packed(
            out2,
            rgba.linesize,
            rgba.width,
            rgba.height as nat,
        ) == swapped(packed(out1, rgba.linesize, rgba.width, rgba.height as nat)),
{
    let pixels = packed(data1, rgba.linesize, rgba.width, rgba.height as nat);
    lemma_packed_rows(data1, rgba.linesize, rgba.width, rgba.height, rgba.height as nat);
    lemma_frame_is_pixels(rgba.width, rgba.height);
    law_swap_undoes_itself(pixels);
    law_swap_undoes_itself(buffer2);
    law_frame_is_reproducible(
        eval,
        filter1.expressions,
        rgba.width,
        rgba.height,
        pixels,
        frame_seed(filter1.seed, filter1.frame_count),
        buffer1,
        swapped(buffer2),
    );
    if row_len(rgba.width) <= rgba.linesize {
        law_written_frame_is_read_back(data1, buffer1, rgba.linesize, rgba.width, rgba.height);
        law_written_frame_is_read_back(data2, buffer2, rgba.linesize, rgba.width, rgba.height);
    }
}

/// Without an expression a frame stays as it is.
pub proof fn law_no_expression_keeps_frame<T, F>(
    eval: F,
    width: u32,
    height: u32,
    frame: Seq<u8>,
    seed: u64,
    out: Seq<u8>,
) where F: Fn(EvalContext<'_, T>, &[u8], StdRng) -> (Option<[u8; 4]>, StdRng)
    requires
        expressions_applied(
            eval,
            Seq::<ExpressionView<T>>::empty(),
            width,
            height,
            frame,
            seed,
            out,
        ),
    ensures
        out == frame,
{
}

/// A frame's seed is the filter's seed and frame count, added up in 64 bits.
pub proof fn law_frame_seed_is_the_sum(seed: u64, frame_count: u64)
    ensures
        frame_seed(seed, frame_count) == (seed + frame_count) % 0x1_0000_0000_0000_0000,
{
}

/// Expressions are applied in order, each of them, by one pass over what those before it made.
/// The first pass has the frame's seed, and the second one that is a fixed step further.
pub proof fn law_each_expression_has_its_pass<T, F>(
    eval: F,
    expressions: Seq<ExpressionView<T>>,
    expression: ExpressionView<T>,
    width: u32,
    height: u32,
    frame: Seq<u8>,
    seed: u64,
    out: Seq<u8>,
) -> (pass: (&'static [T], &'static [u8])) where
    F: Fn(EvalContext<'_, T>, &[u8], StdRng) -> (Option<[u8; 4]>, StdRng),

    requires
        expressions_applied(eval, expressions.push(expression), width, height, frame, seed, out),
        expressions.len() <= 1,
    ensures
        pass.0@ == expression.tokens,
        expressions_applied(eval, expressions, width, height, frame, seed, pass.1@),
        expressions.len() == 0 ==> pass.1@ == frame,
        pass_evaluated(
            eval,
            pass.0,
            width,
            height,
            pass.1,
            seed.wrapping_add(
                if expressions.len() == 0 {
                    0
                } else {
                    0x9E37_79B9_7F4A_7C15
                },
            ),
            out,
        ),
{
    let all = expressions.push(expression);
    assert(all.drop_last() =~= expressions);
    assert(all.last() == expression);
    let last_seed = pass_seed(seed, all.len() - 1);
    let middle = choose|middle: Seq<u8>|
        expressions_applied(eval, all.drop_last(), width, height, frame, seed, middle)
            && #[trigger] expression_applied(
            eval,
            all.last(),
            width,
            height,
            middle,
            last_seed,
            out,
        );
    let (tokens, source): (&'static [T], &'static [u8]) = choose|
        tokens: &'static [T],
        source: &'static [u8],
    |
        tokens@ == expression.tokens && source@ == middle && #[trigger] pass_evaluated(
            eval,
            tokens,
            width,
            height,
            source,
            last_seed,
            out,
        );
    assert(last_seed == seed.wrapping_add(
        if expressions.len() == 0 {
            0
        } else {
            0x9E37_79B9_7F4A_7C15
        },
    ));
    (tokens, source)
}

/// A filter with one expression maps it over every pixel of a frame. Of an opaque pixel the
/// evaluator is asked, with the tokens of the expression, the pixel's own bytes and its place,
/// and the pixel becomes what it replies, or stays where it replies nothing; a transparent pixel
/// is cleared. The first question of a row goes with the generator of the filter's seed, its
/// frame count and the row's number, added up.
pub proof fn law_expression_is_mapped_over_pixels<T, F>(
    eval: F,
    filter: FilterView<T>,
    width: u32,
    height: u32,
    frame: Seq<u8>,
    out: Seq<u8>,
    x: int,
    y: int,
) -> (asked: (&'static [T], &'static [u8], StdRng, Option<[u8; 4]>, StdRng)) where
    F: Fn(EvalContext<'_, T>, &[u8], StdRng) -> (Option<[u8; 4]>, StdRng),

    requires
        filter.expressions.len() == 1,
        frame.len() == height * (4 * width),
        expressions_applied(
            eval,
            filter.expressions,
            width,
            height,
            frame,
            frame_seed(filter.seed, filter.frame_count),
            out,
        ),
        0 <= x < width,
        0 <= y < height,
    ensures
        out.len() == height * (4 * width),
        asked.0@ == filter.expressions[0].tokens,
        asked.1@ == frame,
        frame[y * (4 * width) + 4 * x + 3] == 0 ==> {
            &&& out[y * (4 * width) + 4 * x] == 0 && out[y * (4 * width) + 4 * x + 1] == 0
            &&& out[y * (4 * width) + 4 * x + 2] == 0 && out[y * (4 * width) + 4 * x + 3] == 0
        },
        frame[y * (4 * width) + 4 * x + 3] != 0 ==> {
            &&& call_ensures(
                eval,
                (
                    EvalContext {
                        tokens: asked.0,
                        size: (width, height),
                        rgba: [
                            frame[y * (4 * width) + 4 * x],
                            frame[y * (4 * width) + 4 * x + 1],
                            frame[y * (4 * width) + 4 * x + 2],
                            frame[y * (4 * width) + 4 * x + 3],
                        ],
                        saved_rgb: [0, 0, 0],
                        position: (x as u32, y as u32),
                        ignore_state: true,
                    },
                    asked.1,
                    asked.2,
                ),
                (asked.3, asked.4),
            )
            &&& match asked.3 {
                Some(color) => {
                    &&& out[y * (4 * width) + 4 * x] == color[0]
                    &&& out[y * (4 * width) + 4 * x + 1] == color[1]
                    &&& out[y * (4 * width) + 4 * x + 2] == color[2]
                    &&& out[y * (4 * width) + 4 * x + 3] == color[3]
                },
                None => {
                    &&& out[y * (4 * width) + 4 * x] == frame[y * (4 * width) + 4 * x]
                    &&& out[y * (4 * width) + 4 * x + 1] == frame[y * (4 * width) + 4 * x + 1]
                    &&& out[y * (4 * width) + 4 * x + 2] == frame[y * (4 * width) + 4 * x + 2]
                    &&& out[y * (4 * width) + 4 * x + 3] == frame[y * (4 * width) + 4 * x + 3]
                },
            }
            &&& x == 0 ==> asked.2 == seeded_rng(
                filter.seed.wrapping_add(filter.frame_count).wrapping_add(y as u64),
            )
        },
{
    let none = Seq::<ExpressionView<T>>::empty();
    let expression = filter.expressions[0];
    let seed = frame_seed(filter.seed, filter.frame_count);
    assert(filter.expressions =~= none.push(expression));
    let (tokens, source) = law_each_expression_has_its_pass(
        eval,
        none,
        expression,
        width,
        height,
        frame,
        seed,
        out,
    );
    assert(seed.wrapping_add(0) == seed);
    law_pass_evaluates_every_row(eval, tokens, width, height, source, seed, out, y);
    if frame[y * (4 * width) + 4 * x + 3] == 0 {
        lemma_row_bounds(width, height, y);
        law_transparent_pixel_is_cleared(eval, tokens, width, height, source, seed, out, x, y);
        let row = row_of(out, width, y);
        let pixel = pixel_at(row, x);
        assert(pixel[0] == row[4 * x] && row[4 * x] == out[y * (4 * width) + 4 * x]);
        assert(pixel[1] == row[4 * x + 1] && row[4 * x + 1] == out[y * (4 * width) + 4 * x + 1]);
        assert(pixel[2] == row[4 * x + 2] && row[4 * x + 2] == out[y * (4 * width) + 4 * x + 2]);
        assert(pixel[3] == row[4 * x + 3] && row[4 * x + 3] == out[y * (4 * width) + 4 * x + 3]);
        (tokens, source, seeded_rng(seed), None, seeded_rng(seed))
    } else {
        let (rng, reply, next) = law_opaque_pixel_gets_the_reply(
            eval,
            tokens,
            width,
            height,
            source,
            seed,
            out,
            x,
            y,
        );
        (tokens, source, rng, reply, next)
    }
}

/// A frame of an asynchronous source is left alone where the filter is switched off or has no
/// expression, and where the frame has no pixels. Otherwise it is filtered if it is RGBA or BGRA,
/// and unsupported if it is neither.
pub proof fn law_frame_is_filtered_or_left<T>(filter: FilterView<T>, info: FrameInfo)
    ensures
        ({
            let outcome = filter.frame_outcome(info);
            let idle = !filter.enabled || filter.expressions.len() == 0 || !info.has_data
                || info.width == 0 || info.height == 0;
            &&& outcome is Passthrough <==> idle
            &&& outcome is Unsupported <==> !idle && info.format is Other
            &&& outcome is Processed <==> !idle && (info.format is Rgba || info.format is Bgra)
            &&& filter.wants_frame(info) <==> outcome is Processed
        }),
{
}

/// A frame of an asynchronous source marks the filter in any case. One that is filtered is
/// counted and leaves its pixels in the buffer. Nothing else changes.
pub proof fn law_frame_marks_the_filter<T>(filter: FilterView<T>, info: FrameInfo, pixels: Seq<u8>)
    requires
        filter.frame_count < u64::MAX,
    ensures
        ({
            let after = filter.after_frame(info, pixels);
            let filtered = filter.enabled && filter.expressions.len() > 0 && info.has_data
                && info.width != 0 && info.height != 0 && !(info.format is Other);
            &&& after.async_source
            &&& filtered ==> after.frame_count == filter.frame_count + 1 && after.buffer == pixels
            &&& !filtered ==> after.frame_count == filter.frame_count && after.buffer
                == filter.buffer
            &&& after == (FilterView {
                async_source: true,
                frame_count: after.frame_count,
                buffer: after.buffer,
                ..filter
            })
        }),
{
}

/// What becomes of a frame's surface: its pixels, byte for byte and with red and blue exchanged
/// for BGRA, are what the expressions are applied to, and what these make is written back the
/// same way where lines do not overlap. The surface keeps its size, and what lies between lines.
pub proof fn law_surface_is_filtered_in_place<T, F>(
    eval: F,
    filter: FilterView<T>,
    info: FrameInfo,
    data: Seq<u8>,
    buffer: Seq<u8>,
    out: Seq<u8>,
    x: int,
    y: int,
) -> (frames: (Seq<u8>, Seq<u8>)) where
    F: Fn(EvalContext<'_, T>, &[u8], StdRng) -> (Option<[u8; 4]>, StdRng),

    requires
        frame_filtered(eval, filter, info, data, buffer, out),
        (info.height - 1) * info.linesize + 4 * info.width <= data.len(),
        4 * info.width <= info.linesize,
        0 <= x < info.width,
        0 <= y < info.height,
    ensures
        frames.0.len() == info.height * (4 * info.width),
        frames.1.len() == info.height * (4 * info.width),
        expressions_applied(
            eval,
            filter.expressions,
            info.width,
            info.height,
            frames.0,
            filter.seed.wrapping_add(filter.frame_count),
            frames.1,
        ),
        out.len() == data.len(),
        ({
            let red = if info.format is Bgra {
                2int
            } else {
                0int
            };
            let at = y * (4 * info.width) + 4 * x;
            let on = y * info.linesize + 4 * x;
            &&& frames.0[at] == data[on + red] && frames.0[at + 1] == data[on + 1]
            &&& frames.0[at + 2] == data[on + 2 - red] && frames.0[at + 3] == data[on + 3]
            &&& frames.1[at] == out[on + red] && frames.1[at + 1] == out[on + 1]
            &&& frames.1[at + 2] == out[on + 2 - red] && frames.1[at + 3] == out[on + 3]
        }),
        forall|i: int|
            0 <= i < data.len() && (forall|z: int| #![trigger z * info.linesize]
                0 <= z < info.height ==> !(z * info.linesize <= i < z * info.linesize + 4
                    * info.width)) ==> #[trigger] out[i] == data[i],
{
    let bgra = info.format is Bgra;
    let (linesize, width, height) = (info.linesize, info.width, info.height);
    let pixels = packed(data, linesize, width, height as nat);
    let before = reordered(pixels, bgra);
    let after = reordered(buffer, bgra);
    let pixel = y * width + x;
    assert(y * (4 * width) + 4 * x == 4 * pixel) by (nonlinear_arith)
        requires
            pixel == y * width + x,
    ;
    lemma_row_bounds(width, height, y);
    assert forall|k: int| 0 <= k < 4 implies pixels.len() == height * (4 * width) && pixels[#[trigger] (
    4 * pixel + k)] == data[y * linesize + 4 * x + k] && out.len() == data.len() && out[y * linesize
        + 4 * x + k] == buffer[4 * pixel + k] by {
        law_packed_bytes(data, linesize, width, height, y, 4 * x + k);
        assert forall|z: int| #![trigger z * linesize] y < z < height implies !(z * linesize <= y
            * linesize + (4 * x + k) < z * linesize + 4 * width) by {
            assert(y * linesize + linesize <= z * linesize) by (nonlinear_arith)
                requires
                    y + 1 <= z,
            ;
        }
        law_unpacked_bytes(data, buffer, linesize, width, height, y, 4 * x + k);
    }
    let first = (pixels[4 * pixel + 0], pixels[4 * pixel + 1], pixels[4 * pixel + 2]);
    let fourth = pixels[4 * pixel + 3];
    law_reordered_bytes(pixels, bgra, pixel);
    law_reordered_bytes(buffer, bgra, pixel);
    assert forall|i: int|
        0 <= i < data.len() && (forall|z: int| #![trigger z * linesize]
            0 <= z < height ==> !(z * linesize <= i < z * linesize + 4 * width)) implies #[trigger] out[i]
        == data[i] by {
        law_padding_is_untouched(data, buffer, linesize, width, height, height as nat, i);
    }
    (before, after)
}

}
