//! One evaluation pass over an RGBA frame.
//!
//! The expression evaluator is a function that the caller supplies. It gets a pixel's
//! context, the frame that the pass reads, and the random generator of the pixel's row; it
//! returns the pixel's new value (or nothing, when evaluation fails) and the generator as it
//! left it.

use rand::rngs::StdRng;
use rand::SeedableRng;
use rayon::iter::{IndexedParallelIterator, ParallelIterator};
use rayon::slice::ParallelSliceMut;
use vstd::prelude::*;

verus! {

/// Declares `rand::rngs::StdRng`, which is carried from pixel to pixel and never looked into.
#[verifier::external_type_specification]
#[verifier::external_body]
pub struct ExStdRng(StdRng);

/// The generator that `StdRng::seed_from_u64` makes of a seed.
pub uninterp spec fn seeded_rng(seed: u64) -> StdRng;

/// Calls `rand`'s `StdRng::seed_from_u64`. Its result depends on the seed alone: the seed is
/// expanded by a fixed sequence and handed to the ChaCha generator.
#[verifier::external_body]
fn rng_from_seed(seed: u64) -> (rng: StdRng)
    ensures
        rng == seeded_rng(seed),
{
    StdRng::seed_from_u64(seed)
}

/// What the evaluator is told of a pixel.
pub struct EvalContext<'a, T> {
    /// The compiled expression.
    pub tokens: &'a [T],
    /// Width and height of the frame.
    pub size: (u32, u32),
    /// The pixel's own value.
    pub rgba: [u8; 4],
    /// The value left by an earlier evaluation; always black here.
    pub saved_rgb: [u8; 3],
    /// The pixel's column and row.
    pub position: (u32, u32),
    /// Whether state is ignored between evaluations; always set here.
    pub ignore_state: bool,
}

/// The bytes in a row of `width` pixels.
pub open spec fn row_len(width: u32) -> int {
    4 * width
}

/// The bytes in a frame.
pub open spec fn frame_len(width: u32, height: u32) -> int {
    height * row_len(width)
}

/// Row `y` of a frame.
pub open spec fn row_of(frame: Seq<u8>, width: u32, y: int) -> Seq<u8> {
    frame.subrange(y * row_len(width), (y + 1) * row_len(width))
}

/// The pixel in column `x` of a row.
pub open spec fn pixel_at(row: Seq<u8>, x: int) -> [u8; 4] {
    [row[4 * x], row[4 * x + 1], row[4 * x + 2], row[4 * x + 3]]
}

/// The context handed to the evaluator for the pixel at `(x, y)`.
pub open spec fn pixel_context<'a, T>(
    tokens: &'a [T],
    width: u32,
    height: u32,
    frame: Seq<u8>,
    x: int,
    y: int,
) -> EvalContext<'a, T> {
    EvalContext {
        tokens,
        size: (width, height),
        rgba: pixel_at(row_of(frame, width, y), x),
        saved_rgb: [0, 0, 0],
        position: (x as u32, y as u32),
        ignore_state: true,
    }
}

/// A pixel's new value, given what the evaluator made of it: a transparent pixel is cleared,
/// and a pixel whose evaluation failed is kept.
pub open spec fn pixel_value(rgba: [u8; 4], outcome: Option<[u8; 4]>) -> [u8; 4] {
    if rgba[3] == 0 {
        [0, 0, 0, 0]
    } else {
        match outcome {
            Some(color) => color,
            None => rgba,
        }
    }
}

/// A row's new bytes, given what the evaluator made of each of its pixels.
pub open spec fn row_value(row: Seq<u8>, outcomes: Seq<Option<[u8; 4]>>) -> Seq<u8> {
    Seq::new(row.len(), |k: int| pixel_value(pixel_at(row, k / 4), outcomes[k / 4])[k % 4])
}

/// One pixel's turn: the evaluator is asked about an opaque pixel, and a transparent one
/// leaves the row's generator alone.
pub open spec fn pixel_turn<T, F>(
    eval: F,
    context: EvalContext<'_, T>,
    frame: &[u8],
    before: StdRng,
    outcome: Option<[u8; 4]>,
    after: StdRng,
) -> bool where F: Fn(EvalContext<'_, T>, &[u8], StdRng) -> (Option<[u8; 4]>, StdRng) {
    if context.rgba[3] == 0 {
        after == before
    } else {
        call_ensures(eval, (context, frame, before), (outcome, after))
    }
}

/// The evaluator was asked about row `y` from left to right, with one generator that starts
/// from `seed`, and gave `outcomes`.
pub open spec fn row_asked<T, F>(
    eval: F,
    tokens: &[T],
    width: u32,
    height: u32,
    frame: &[u8],
    seed: u64,
    y: int,
    outcomes: Seq<Option<[u8; 4]>>,
    rngs: Seq<StdRng>,
) -> bool where F: Fn(EvalContext<'_, T>, &[u8], StdRng) -> (Option<[u8; 4]>, StdRng) {
    &&& outcomes.len() == width
    &&& rngs.len() == width + 1
    &&& rngs[0] == seeded_rng(seed)
    &&& forall|x: int|
        0 <= x < width ==> pixel_turn(
            eval,
            pixel_context(tokens, width, height, frame@, x, y),
            frame,
            rngs[x],
            #[trigger] outcomes[x],
            rngs[x + 1],
        )
}

/// `out` is what evaluating row `y` of `frame` can give.
pub open spec fn row_evaluated<T, F>(
    eval: F,
    tokens: &[T],
    width: u32,
    height: u32,
    frame: &[u8],
    seed: u64,
    y: int,
    out: Seq<u8>,
) -> bool where F: Fn(EvalContext<'_, T>, &[u8], StdRng) -> (Option<[u8; 4]>, StdRng) {
    exists|outcomes: Seq<Option<[u8; 4]>>, rngs: Seq<StdRng>| #[trigger]
        row_asked(eval, tokens, width, height, frame, seed, y, outcomes, rngs) && out == row_value(
            row_of(frame@, width, y),
            outcomes,
        )
}

/// The seed of row `y` in a pass with the given seed.
pub open spec fn row_seed(pass_seed: u64, y: int) -> u64 {
    pass_seed.wrapping_add(y as u64)
}

/// `out` is what a pass over `frame` can give: every row is evaluated on its own.
pub open spec fn pass_evaluated<T, F>(
    eval: F,
    tokens: &[T],
    width: u32,
    height: u32,
    frame: &[u8],
    seed: u64,
    out: Seq<u8>,
) -> bool where F: Fn(EvalContext<'_, T>, &[u8], StdRng) -> (Option<[u8; 4]>, StdRng) {
    &&& out.len() == frame_len(width, height)
    &&& forall|y: int|
        0 <= y < height ==> row_evaluated(
            eval,
            tokens,
            width,
            height,
            frame,
            row_seed(seed, y),
            y,
            #[trigger] row_of(out, width, y),
        )
}

/// A row lies inside its frame.
pub proof fn lemma_row_bounds(width: u32, height: u32, y: int)
    requires
        0 <= y < height,
    ensures
        0 <= y * row_len(width),
        (y + 1) * row_len(width) == y * row_len(width) + row_len(width),
        (y + 1) * row_len(width) <= frame_len(width, height),
{
    assert(0 <= y * row_len(width)) by (nonlinear_arith)
        requires
            0 <= y,
            0 <= row_len(width),
    ;
    assert((y + 1) * row_len(width) == y * row_len(width) + row_len(width)) by (nonlinear_arith);
    assert((y + 1) * row_len(width) <= height * row_len(width)) by (nonlinear_arith)
        requires
            y + 1 <= height,
            0 <= row_len(width),
    ;
}

/// Two frames with the same rows are the same.
pub proof fn lemma_same_rows(a: Seq<u8>, b: Seq<u8>, width: u32, height: u32)
    requires
        a.len() == frame_len(width, height),
        b.len() == frame_len(width, height),
        forall|y: int| 0 <= y < height ==> row_of(a, width, y) == #[trigger] row_of(b, width, y),
    ensures
        a == b,
{
    assert forall|i: int| 0 <= i < a.len() implies a[i] == b[i] by {
        let n = row_len(width);
        assert(n > 0) by (nonlinear_arith)
            requires
                0 <= i < height * n,
                n >= 0,
        ;
        let y = i / n;
        assert(0 <= y < height && y * n <= i < y * n + n) by (nonlinear_arith)
            requires
                0 <= i < height * n,
                n > 0,
                y == i / n,
        ;
        lemma_row_bounds(width, height, y);
        assert(row_of(a, width, y)[i - y * n] == a[i]);
        assert(row_of(b, width, y)[i - y * n] == b[i]);
    }
    assert(a =~= b);
}

/// Evaluates row `y` of `frame` into `row`, in a pass with the given seed. What follows the
/// frame's bytes is not read here, but the evaluator sees it.
pub fn eval_row<T, F>(
    eval: &F,
    tokens: &[T],
    width: u32,
    height: u32,
    frame: &[u8],
    seed: u64,
    y: u32,
    row: &mut [u8],
) where F: Fn(EvalContext<'_, T>, &[u8], StdRng) -> (Option<[u8; 4]>, StdRng)
    requires
        y < height,
        frame@.len() >= frame_len(width, height),
        old(row)@.len() == row_len(width),
        forall|c: EvalContext<'_, T>, f: &[u8], g: StdRng| call_requires(*eval, (c, f, g)),
    ensures
        row_evaluated(
            *eval,
            tokens,
            width,
            height,
            frame,
            row_seed(seed, y as int),
            y as int,
            final(row)@,
        ),
{
    proof {
        lemma_row_bounds(width, height, y as int);
    }
    let ghost line = row_of(frame@, width, y as int);
    let ghost mut outcomes: Seq<Option<[u8; 4]>> = Seq::empty();
    let mut rng = rng_from_seed(seed.wrapping_add(y as u64));
    let ghost mut rngs: Seq<StdRng> = seq![rng];
    let stride: usize = row.len();
    let total: usize = frame.len();
    let row_off: usize = y as usize * stride;
    let mut x: u32 = 0;
    let mut local: usize = 0;
    while x < width
        invariant
            x <= width,
            y < height,
            local == 4 * x,
            stride == row_len(width),
            row@.len() == stride,
            row_off == y * row_len(width),
            row_off + stride <= total,
            total == frame@.len(),
            line == frame@.subrange(row_off as int, row_off + stride),
            line == row_of(frame@, width, y as int),
            forall|c: EvalContext<'_, T>, f: &[u8], g: StdRng| call_requires(*eval, (c, f, g)),
            outcomes.len() == x,
            rngs.len() == x + 1,
            rngs[0] == seeded_rng(row_seed(seed, y as int)),
            rngs[x as int] == rng,
            forall|i: int|
                0 <= i < x ==> pixel_turn(
                    *eval,
                    pixel_context(tokens, width, height, frame@, i, y as int),
                    frame,
                    rngs[i],
                    #[trigger] outcomes[i],
                    rngs[i + 1],
                ),
            forall|k: int|
                0 <= k < 4 * x ==> #[trigger] row@[k] == pixel_value(
                    pixel_at(line, k / 4),
                    outcomes[k / 4],
                )[k % 4],
        decreases width - x,
    {
        let at: usize = row_off + local;
        let rgba: [u8; 4] = [frame[at], frame[at + 1], frame[at + 2], frame[at + 3]];
        assert(rgba == pixel_at(line, x as int));
        let ghost before = rng;
        let outcome: Option<[u8; 4]>;
        let color: [u8; 4];
        if rgba[3] == 0 {
            outcome = None;
            color = [0, 0, 0, 0];
        } else {
            let (reply, next) = eval(
                EvalContext {
                    tokens,
                    size: (width, height),
                    rgba,
                    saved_rgb: [0, 0, 0],
                    position: (x, y),
                    ignore_state: true,
                },
                frame,
                rng,
            );
            rng = next;
            outcome = reply;
            color = match reply {
                Some(value) => value,
                None => rgba,
            };
        }
        row[local] = color[0];
        row[local + 1] = color[1];
        row[local + 2] = color[2];
        row[local + 3] = color[3];
        proof {
            outcomes = outcomes.push(outcome);
            rngs = rngs.push(rng);
        }
        x = x + 1;
        local = local + 4;
    }
    proof {
        assert(row@ =~= row_value(line, outcomes));
        assert(row_asked(
            *eval,
            tokens,
            width,
            height,
            frame,
            row_seed(seed, y as int),
            y as int,
            outcomes,
            rngs,
        ));
    }
}

/// Evaluates every row of `frame` into `dst`, the rows spread over rayon's threads.
///
/// Calls rayon's `par_chunks_mut`, `enumerate` and `for_each`. The claim is that they cut
/// `dst` into consecutive pieces of `stride` bytes, number these from 0, and run the function
/// once on every piece with its number: so what `eval_row` promises of a row holds of each.
/// rayon panics on pieces of 0 bytes, so `stride` is not 0.
#[verifier::external_body]
fn for_each_row<T: Sync, F>(
    eval: &F,
    tokens: &[T],
    width: u32,
    height: u32,
    stride: usize,
    frame: &[u8],
    dst: &mut [u8],
    seed: u64,
) where F: Fn(EvalContext<'_, T>, &[u8], StdRng) -> (Option<[u8; 4]>, StdRng) + Sync
    requires
        stride > 0,
        stride == row_len(width),
        frame@.len() >= frame_len(width, height),
        old(dst)@.len() == frame_len(width, height),
        forall|c: EvalContext<'_, T>, f: &[u8], g: StdRng| call_requires(*eval, (c, f, g)),
    ensures
        pass_evaluated(*eval, tokens, width, height, frame, seed, final(dst)@),
{
    dst.par_chunks_mut(stride).enumerate().for_each(
        |(y, row)| eval_row(eval, tokens, width, height, frame, seed, y as u32, row),
    );
}

/// Evaluates a compiled expression over all of `frame` into `dst`.
///
/// Each row has a generator of its own, seeded from the pass's seed and the row's number, so
/// the rows do not depend on each other or on the order in which they are evaluated.
pub fn eval_pass<T: Sync, F>(
    eval: &F,
    tokens: &[T],
    width: u32,
    height: u32,
    frame: &[u8],
    dst: &mut [u8],
    seed: u64,
) where F: Fn(EvalContext<'_, T>, &[u8], StdRng) -> (Option<[u8; 4]>, StdRng) + Sync
    requires
        width > 0,
        row_len(width) <= usize::MAX,
        frame@.len() >= frame_len(width, height),
        old(dst)@.len() == frame_len(width, height),
        forall|c: EvalContext<'_, T>, f: &[u8], g: StdRng| call_requires(*eval, (c, f, g)),
    ensures
        pass_evaluated(*eval, tokens, width, height, frame, seed, final(dst)@),
{
    let stride: usize = width as usize * 4;
    for_each_row(eval, tokens, width, height, stride, frame, dst, seed);
}

/// The evaluator's reply depends on what it is asked alone.
///
/// No contract claims this of an evaluator, which the caller supplies: the laws that need it
/// say so.
pub open spec fn eval_is_function<T, F>(eval: F) -> bool where
    F: Fn(EvalContext<'_, T>, &[u8], StdRng) -> (Option<[u8; 4]>, StdRng),
 {
    forall|
        c: EvalContext<'_, T>,
        f: &[u8],
        g: StdRng,
        r1: (Option<[u8; 4]>, StdRng),
        r2: (Option<[u8; 4]>, StdRng),
    |
        #![trigger call_ensures(eval, (c, f, g), r1), call_ensures(eval, (c, f, g), r2)]
        call_ensures(eval, (c, f, g), r1) && call_ensures(eval, (c, f, g), r2) ==> r1 == r2
}

/// Two evaluations of a row go through the same generators and get the same replies.
proof fn lemma_same_turns<T, F>(
    eval: F,
    tokens: &[T],
    width: u32,
    height: u32,
    frame: &[u8],
    seed: u64,
    y: int,
    outcomes1: Seq<Option<[u8; 4]>>,
    rngs1: Seq<StdRng>,
    outcomes2: Seq<Option<[u8; 4]>>,
    rngs2: Seq<StdRng>,
    x: int,
) where F: Fn(EvalContext<'_, T>, &[u8], StdRng) -> (Option<[u8; 4]>, StdRng)
    requires
        eval_is_function::<T, F>(eval),
        row_asked(eval, tokens, width, height, frame, seed, y, outcomes1, rngs1),
        row_asked(eval, tokens, width, height, frame, seed, y, outcomes2, rngs2),
        0 <= x <= width,
    ensures
        rngs1[x] == rngs2[x],
        x < width && pixel_at(row_of(frame@, width, y), x)[3] != 0 ==> outcomes1[x] == outcomes2[x],
    decreases x,
{
    if x > 0 {
        lemma_same_turns(
            eval,
            tokens,
            width,
            height,
            frame,
            seed,
            y,
            outcomes1,
            rngs1,
            outcomes2,
            rngs2,
            x - 1,
        );
        let o1 = outcomes1[x - 1];
        let o2 = outcomes2[x - 1];
    }
    if x < width {
        let o1 = outcomes1[x];
        let o2 = outcomes2[x];
    }
}

/// A pass is reproducible: with an evaluator whose replies depend on what it is asked alone,
/// the same expression, frame and seed give the same result, however the rows were spread
/// over threads.
pub proof fn law_pass_is_reproducible<T, F>(
    eval: F,
    tokens: &[T],
    width: u32,
    height: u32,
    frame: &[u8],
    seed: u64,
    out1: Seq<u8>,
    out2: Seq<u8>,
) where F: Fn(EvalContext<'_, T>, &[u8], StdRng) -> (Option<[u8; 4]>, StdRng)
    requires
        eval_is_function::<T, F>(eval),
        frame@.len() >= frame_len(width, height),
        pass_evaluated(eval, tokens, width, height, frame, seed, out1),
        pass_evaluated(eval, tokens, width, height, frame, seed, out2),
    ensures
        out1 == out2,
{
    assert forall|y: int| 0 <= y < height implies row_of(out1, width, y) == #[trigger] row_of(
        out2,
        width,
        y,
    ) by {
        let row = row_of(frame@, width, y);
        let row_seed = row_seed(seed, y);
        let line1 = row_of(out1, width, y);
        let line2 = row_of(out2, width, y);
        let (outcomes1, rngs1) = choose|outcomes: Seq<Option<[u8; 4]>>, rngs: Seq<StdRng>| #[trigger]
            row_asked(eval, tokens, width, height, frame, row_seed, y, outcomes, rngs) && line1
                == row_value(row, outcomes);
        let (outcomes2, rngs2) = choose|outcomes: Seq<Option<[u8; 4]>>, rngs: Seq<StdRng>| #[trigger]
            row_asked(eval, tokens, width, height, frame, row_seed, y, outcomes, rngs) && line2
                == row_value(row, outcomes);
        lemma_row_bounds(width, height, y);
        assert forall|k: int| 0 <= k < row.len() implies line1[k] == line2[k] by {
            lemma_same_turns(
                eval,
                tokens,
                width,
                height,
                frame,
                row_seed,
                y,
                outcomes1,
                rngs1,
                outcomes2,
                rngs2,
                k / 4,
            );
        }
        assert(line1 =~= line2);
    }
    lemma_same_rows(out1, out2, width, height);
}

/// A transparent pixel is cleared, whatever the expression.
pub proof fn law_transparent_pixel_is_cleared<T, F>(
    eval: F,
    tokens: &[T],
    width: u32,
    height: u32,
    frame: &[u8],
    seed: u64,
    out: Seq<u8>,
    x: int,
    y: int,
) where F: Fn(EvalContext<'_, T>, &[u8], StdRng) -> (Option<[u8; 4]>, StdRng)
    requires
        frame@.len() >= frame_len(width, height),
        pass_evaluated(eval, tokens, width, height, frame, seed, out),
        0 <= x < width,
        0 <= y < height,
        pixel_at(row_of(frame@, width, y), x)[3] == 0,
    ensures
        pixel_at(row_of(out, width, y), x) == [0u8, 0, 0, 0],
{
    let line = row_of(out, width, y);
    let row = row_of(frame@, width, y);
    let (outcomes, rngs) = choose|outcomes: Seq<Option<[u8; 4]>>, rngs: Seq<StdRng>| #[trigger]
        row_asked(eval, tokens, width, height, frame, row_seed(seed, y), y, outcomes, rngs) && line
            == row_value(row, outcomes);
    lemma_row_bounds(width, height, y);
    let value = pixel_value(pixel_at(row, x), outcomes[x]);
    assert(line[4 * x] == value[0]);
    assert(line[4 * x + 1] == value[1]);
    assert(line[4 * x + 2] == value[2]);
    assert(line[4 * x + 3] == value[3]);
    assert(pixel_at(line, x) =~= [0u8, 0, 0, 0]);
}

/// An expression that cannot be evaluated leaves a frame without transparent pixels as it is:
/// the result is the frame's bytes, without what follows them.
pub proof fn law_failed_evaluation_keeps_frame<T, F>(
    eval: F,
    tokens: &[T],
    width: u32,
    height: u32,
    frame: &[u8],
    seed: u64,
    out: Seq<u8>,
) where F: Fn(EvalContext<'_, T>, &[u8], StdRng) -> (Option<[u8; 4]>, StdRng)
    requires
        frame@.len() >= frame_len(width, height),
        pass_evaluated(eval, tokens, width, height, frame, seed, out),
        forall|c: EvalContext<'_, T>, f: &[u8], g: StdRng, r: (Option<[u8; 4]>, StdRng)|
            #[trigger] call_ensures(eval, (c, f, g), r) ==> r.0 is None,
        forall|x: int, y: int|
            0 <= x < width && 0 <= y < height ==> (#[trigger] pixel_at(
                row_of(frame@, width, y),
                x,
            ))[3] != 0,
    ensures
        out == frame@.take(frame_len(width, height)),
{
    let whole = frame@.take(frame_len(width, height));
    assert forall|y: int| 0 <= y < height implies row_of(out, width, y) == #[trigger] row_of(
        whole,
        width,
        y,
    ) by {
        let line = row_of(out, width, y);
        let row = row_of(frame@, width, y);
        let (outcomes, rngs) = choose|outcomes: Seq<Option<[u8; 4]>>, rngs: Seq<StdRng>| #[trigger]
            row_asked(eval, tokens, width, height, frame, row_seed(seed, y), y, outcomes, rngs)
                && line == row_value(row, outcomes);
        lemma_row_bounds(width, height, y);
        assert forall|k: int| 0 <= k < row.len() implies line[k] == row[k] by {
            let x = k / 4;
            let outcome = outcomes[x];
            assert(pixel_at(row, x)[3] != 0);
            assert(outcome is None);
            assert(pixel_at(row, x)[k % 4] == row[k]);
        }
        assert(line =~= row);
        assert(row =~= row_of(whole, width, y));
    }
    lemma_same_rows(out, whole, width, height);
}

/// A row is mapped pixel by pixel, from left to right. Of a transparent pixel nothing is asked,
/// and its four bytes become 0. Of an opaque pixel the evaluator is asked once, with the pixel's
/// own bytes, column and row: the four bytes become what it replies, or stay where it replies
/// nothing. The first question goes with the generator that the seed makes, and each later one
/// with the generator that the one before left.
pub proof fn law_row_gets_its_replies<T, F>(
    eval: F,
    tokens: &[T],
    width: u32,
    height: u32,
    frame: &[u8],
    seed: u64,
    y: int,
    out: Seq<u8>,
) where F: Fn(EvalContext<'_, T>, &[u8], StdRng) -> (Option<[u8; 4]>, StdRng)
    requires
        frame@.len() >= height * (4 * width),
        0 <= y < height,
        row_evaluated(eval, tokens, width, height, frame, seed, y, out),
    ensures
        out.len() == 4 * width,
        exists|replies: Seq<Option<[u8; 4]>>, rngs: Seq<StdRng>|
            #![trigger replies.len(), rngs.len()]
            {
                &&& replies.len() == width
                &&& rngs.len() == width + 1
                &&& rngs[0] == seeded_rng(seed)
                &&& forall|x: int|
                    0 <= x < width && frame@[y * (4 * width) + 4 * x + 3] == 0 ==> {
                        &&& (#[trigger] rngs[x]) == rngs[x + 1]
                        &&& out[4 * x] == 0 && out[4 * x + 1] == 0
                        &&& out[4 * x + 2] == 0 && out[4 * x + 3] == 0
                    }
                &&& forall|x: int|
                    0 <= x < width && frame@[y * (4 * width) + 4 * x + 3] != 0 ==> {
                        &&& call_ensures(
                            eval,
                            (
                                EvalContext {
                                    tokens,
                                    size: (width, height),
                                    rgba: [
                                        frame@[y * (4 * width) + 4 * x],
                                        frame@[y * (4 * width) + 4 * x + 1],
                                        frame@[y * (4 * width) + 4 * x + 2],
                                        frame@[y * (4 * width) + 4 * x + 3],
                                    ],
                                    saved_rgb: [0, 0, 0],
                                    position: (x as u32, y as u32),
                                    ignore_state: true,
                                },
                                frame,
                                rngs[x],
                            ),
                            (#[trigger] replies[x], rngs[x + 1]),
                        )
                        &&& match replies[x] {
                            Some(color) => {
                                &&& out[4 * x] == color[0] && out[4 * x + 1] == color[1]
                                &&& out[4 * x + 2] == color[2] && out[4 * x + 3] == color[3]
                            },
                            None => {
                                &&& out[4 * x] == frame@[y * (4 * width) + 4 * x]
                                &&& out[4 * x + 1] == frame@[y * (4 * width) + 4 * x + 1]
                                &&& out[4 * x + 2] == frame@[y * (4 * width) + 4 * x + 2]
                                &&& out[4 * x + 3] == frame@[y * (4 * width) + 4 * x + 3]
                            },
                        }
                    }
            },
{
    let row = row_of(frame@, width, y);
    let (replies, rngs) = choose|outcomes: Seq<Option<[u8; 4]>>, rngs: Seq<StdRng>| #[trigger]
        row_asked(eval, tokens, width, height, frame, seed, y, outcomes, rngs) && out == row_value(
            row,
            outcomes,
        );
    lemma_row_bounds(width, height, y);
    assert(replies.len() == width && rngs.len() == width + 1);
    let from = y * (4 * width);
    assert forall|x: int| 0 <= x < width implies {
        &&& pixel_turn(
            eval,
            pixel_context(tokens, width, height, frame@, x, y),
            frame,
            rngs[x],
            #[trigger] replies[x],
            rngs[x + 1],
        )
        &&& row[4 * x] == frame@[from + 4 * x] && row[4 * x + 1] == frame@[from + 4 * x + 1]
        &&& row[4 * x + 2] == frame@[from + 4 * x + 2] && row[4 * x + 3] == frame@[from + 4 * x
            + 3]
        &&& pixel_at(row, x) == [
            frame@[from + 4 * x],
            frame@[from + 4 * x + 1],
            frame@[from + 4 * x + 2],
            frame@[from + 4 * x + 3],
        ]
        &&& out[4 * x] == pixel_value(pixel_at(row, x), replies[x])[0]
        &&& out[4 * x + 1] == pixel_value(pixel_at(row, x), replies[x])[1]
        &&& out[4 * x + 2] == pixel_value(pixel_at(row, x), replies[x])[2]
        &&& out[4 * x + 3] == pixel_value(pixel_at(row, x), replies[x])[3]
    } by {}
    assert forall|x: int| 0 <= x < width && frame@[from + 4 * x + 3] == 0 implies {
        &&& (#[trigger] rngs[x]) == rngs[x + 1]
        &&& out[4 * x] == 0 && out[4 * x + 1] == 0
        &&& out[4 * x + 2] == 0 && out[4 * x + 3] == 0
    } by {
        let reply = replies[x];
    }
}

/// A pass maps the expression over every pixel of a frame: each row is what
/// `law_row_gets_its_replies` says of it, with the generator of the pass's seed and the row's
/// number, and the rows fill the result.
pub proof fn law_pass_evaluates_every_row<T, F>(
    eval: F,
    tokens: &[T],
    width: u32,
    height: u32,
    frame: &[u8],
    seed: u64,
    out: Seq<u8>,
    y: int,
) where F: Fn(EvalContext<'_, T>, &[u8], StdRng) -> (Option<[u8; 4]>, StdRng)
    requires
        pass_evaluated(eval, tokens, width, height, frame, seed, out),
        0 <= y < height,
    ensures
        out.len() == height * (4 * width),
        row_evaluated(
            eval,
            tokens,
            width,
            height,
            frame,
            seed.wrapping_add(y as u64),
            y,
            out.subrange(y * (4 * width), (y + 1) * (4 * width)),
        ),
{
    assert(row_of(out, width, y) == out.subrange(y * (4 * width), (y + 1) * (4 * width)));
}

/// Every opaque pixel of a frame gets what the evaluator replies of it: there is a question
/// about the pixel, with its own bytes and place, whose reply is the pixel of the result where
/// there is one, and after which the pixel stays where there is none.
pub proof fn law_opaque_pixel_gets_the_reply<T, F>(
    eval: F,
    tokens: &[T],
    width: u32,
    height: u32,
    frame: &[u8],
    seed: u64,
    out: Seq<u8>,
    x: int,
    y: int,
) -> (asked: (StdRng, Option<[u8; 4]>, StdRng)) where
    F: Fn(EvalContext<'_, T>, &[u8], StdRng) -> (Option<[u8; 4]>, StdRng),

    requires
        frame@.len() >= height * (4 * width),
        pass_evaluated(eval, tokens, width, height, frame, seed, out),
        0 <= x < width,
        0 <= y < height,
        frame@[y * (4 * width) + 4 * x + 3] != 0,
    ensures
        call_ensures(
            eval,
            (
                EvalContext {
                    tokens,
                    size: (width, height),
                    rgba: [
                        frame@[y * (4 * width) + 4 * x],
                        frame@[y * (4 * width) + 4 * x + 1],
                        frame@[y * (4 * width) + 4 * x + 2],
                        frame@[y * (4 * width) + 4 * x + 3],
                    ],
                    saved_rgb: [0, 0, 0],
                    position: (x as u32, y as u32),
                    ignore_state: true,
                },
                frame,
                asked.0,
            ),
            (asked.1, asked.2),
        ),
        match asked.1 {
            Some(color) => {
                &&& out[y * (4 * width) + 4 * x] == color[0]
                &&& out[y * (4 * width) + 4 * x + 1] == color[1]
                &&& out[y * (4 * width) + 4 * x + 2] == color[2]
                &&& out[y * (4 * width) + 4 * x + 3] == color[3]
            },
            None => {
                &&& out[y * (4 * width) + 4 * x] == frame@[y * (4 * width) + 4 * x]
                &&& out[y * (4 * width) + 4 * x + 1] == frame@[y * (4 * width) + 4 * x + 1]
                &&& out[y * (4 * width) + 4 * x + 2] == frame@[y * (4 * width) + 4 * x + 2]
                &&& out[y * (4 * width) + 4 * x + 3] == frame@[y * (4 * width) + 4 * x + 3]
            },
        },
        x == 0 ==> asked.0 == seeded_rng(seed.wrapping_add(y as u64)),
{
    let row = row_of(frame@, width, y);
    let line = row_of(out, width, y);
    let (replies, rngs) = choose|outcomes: Seq<Option<[u8; 4]>>, rngs: Seq<StdRng>| #[trigger]
        row_asked(eval, tokens, width, height, frame, row_seed(seed, y), y, outcomes, rngs) && line
            == row_value(row, outcomes);
    lemma_row_bounds(width, height, y);
    let from = y * (4 * width);
    let reply = replies[x];
    assert(pixel_at(row, x) == [
        frame@[from + 4 * x],
        frame@[from + 4 * x + 1],
        frame@[from + 4 * x + 2],
        frame@[from + 4 * x + 3],
    ]);
    let value = pixel_value(pixel_at(row, x), reply);
    assert(line[4 * x] == value[0] && line[4 * x] == out[from + 4 * x]);
    assert(line[4 * x + 1] == value[1] && line[4 * x + 1] == out[from + 4 * x + 1]);
    assert(line[4 * x + 2] == value[2] && line[4 * x + 2] == out[from + 4 * x + 2]);
    assert(line[4 * x + 3] == value[3] && line[4 * x + 3] == out[from + 4 * x + 3]);
    (rngs[x], reply, rngs[x + 1])
}

}
