//! Rendering a synchronous source through the filter, step by step.
//!
//! A render is a sequence of steps that the host carries out on its graphics resources. The
//! host reports whether a step succeeded, and the filter says what comes next. Where a step
//! fails, the source is shown unfiltered.

use crate::eval::{frame_len, EvalContext};
use crate::filter::video::{expressions_applied, frame_seed};
use crate::filter::{FilterView, GlitchFilter};
use crate::frame::{copy_lines_in, packed, surface_len};
use rand::rngs::StdRng;
use vstd::arithmetic::div_mod::{lemma_fundamental_div_mod, lemma_fundamental_div_mod_converse};
use vstd::prelude::*;

verus! {

/// What the host is to do next.
#[derive(Clone, Copy)]
pub enum RenderStep {
    /// Show the source unfiltered. The render is over.
    Skip,
    /// Create a render target. Succeeds if there is one.
    CreateTarget { cx: u32, cy: u32 },
    /// Reset the render target and begin rendering to it.
    BeginTarget { cx: u32, cy: u32 },
    /// Render the source to the target and finish. Succeeds if the target has a texture.
    DrawSource { cx: u32, cy: u32 },
    /// Destroy the surfaces that have another size, where they are held.
    ReleaseSurfaces { cx: u32, cy: u32, stagesurface: bool, output_texture: bool },
    /// Create a staging surface. Succeeds if there is one.
    CreateSurface { cx: u32, cy: u32 },
    /// Copy the texture to the staging surface and map that. Succeeds if it could be mapped.
    MapSurface { cx: u32, cy: u32 },
    /// Load the mapped pixels into the filter, with `load_pixels`.
    LoadPixels { cx: u32, cy: u32 },
    /// Unmap the staging surface. The filter then applies its expressions to the pixels.
    UnmapSurface { cx: u32, cy: u32 },
    /// Create an output texture. Succeeds if there is one.
    CreateOutput { cx: u32, cy: u32 },
    /// Upload the pixels to the output texture.
    Upload { cx: u32, cy: u32 },
    /// Look up the effect to draw with. Succeeds if there is one.
    FindEffect { cx: u32, cy: u32 },
    /// Draw the output texture with the effect. The render is over.
    DrawOutput { cx: u32, cy: u32 },
}

impl RenderStep {
    /// Whether the render is over with this step.
    pub open spec fn is_last(self) -> bool {
        self is Skip || self is DrawOutput
    }

    /// The size of the source that the step is for.
    pub open spec fn size(self) -> Option<(u32, u32)> {
        match self {
            RenderStep::Skip => None,
            RenderStep::CreateTarget { cx, cy } => Some((cx, cy)),
            RenderStep::BeginTarget { cx, cy } => Some((cx, cy)),
            RenderStep::DrawSource { cx, cy } => Some((cx, cy)),
            RenderStep::ReleaseSurfaces { cx, cy, .. } => Some((cx, cy)),
            RenderStep::CreateSurface { cx, cy } => Some((cx, cy)),
            RenderStep::MapSurface { cx, cy } => Some((cx, cy)),
            RenderStep::LoadPixels { cx, cy } => Some((cx, cy)),
            RenderStep::UnmapSurface { cx, cy } => Some((cx, cy)),
            RenderStep::CreateOutput { cx, cy } => Some((cx, cy)),
            RenderStep::Upload { cx, cy } => Some((cx, cy)),
            RenderStep::FindEffect { cx, cy } => Some((cx, cy)),
            RenderStep::DrawOutput { cx, cy } => Some((cx, cy)),
        }
    }

    /// How many steps can follow at most.
    pub open spec fn rank(self) -> int {
        match self {
            RenderStep::CreateTarget { .. } => 11,
            RenderStep::BeginTarget { .. } => 10,
            RenderStep::DrawSource { .. } => 9,
            RenderStep::ReleaseSurfaces { .. } => 8,
            RenderStep::CreateSurface { .. } => 7,
            RenderStep::MapSurface { .. } => 6,
            RenderStep::LoadPixels { .. } => 5,
            RenderStep::UnmapSurface { .. } => 4,
            RenderStep::CreateOutput { .. } => 3,
            RenderStep::Upload { .. } => 2,
            RenderStep::FindEffect { .. } => 1,
            RenderStep::DrawOutput { .. } => 0,
            RenderStep::Skip => 0,
        }
    }
}

impl<T> FilterView<T> {
    /// Whether the source is shown unfiltered.
    pub open spec fn passes_through(self) -> bool {
        !self.enabled || self.expressions.len() == 0 || self.async_source
    }

    /// Whether a frame of this size is evaluated, and not the last output drawn again: there
    /// is none, or it has another size, or it is this frame's turn.
    pub open spec fn evaluates(self, cx: u32, cy: u32) -> bool {
        ||| !self.output_texture
        ||| self.render_width != cx
        ||| self.render_height != cy
        ||| self.frame_count % self.process_interval == 0
    }

    /// The first step of a render of a source of this size.
    pub open spec fn first_step(self, target: Option<(u32, u32)>) -> RenderStep {
        match target {
            Some((cx, cy)) => if cx == 0 || cy == 0 || self.passes_through() {
                RenderStep::Skip
            } else if !self.evaluates(cx, cy) {
                RenderStep::FindEffect { cx, cy }
            } else if self.texrender {
                RenderStep::BeginTarget { cx, cy }
            } else {
                RenderStep::CreateTarget { cx, cy }
            },
            None => RenderStep::Skip,
        }
    }

    /// The step that maps the surface, or makes the one that is needed for it.
    pub open spec fn surface_step(self, cx: u32, cy: u32) -> RenderStep {
        if self.stagesurface {
            RenderStep::MapSurface { cx, cy }
        } else {
            RenderStep::CreateSurface { cx, cy }
        }
    }

    /// The filter and the step after a step, given whether that succeeded, and what the
    /// expressions make of the pixels where they are applied.
    pub open spec fn after_step(
        self,
        step: RenderStep,
        ok: bool,
        made: Seq<u8>,
    ) -> (FilterView<T>, RenderStep) {
        match step {
            RenderStep::CreateTarget { cx, cy } => if ok {
                (FilterView { texrender: true, ..self }, RenderStep::BeginTarget { cx, cy })
            } else {
                (self, RenderStep::Skip)
            },
            RenderStep::BeginTarget { cx, cy } => if ok {
                (self, RenderStep::DrawSource { cx, cy })
            } else {
                (self, RenderStep::Skip)
            },
            RenderStep::DrawSource { cx, cy } => if !ok {
                (self, RenderStep::Skip)
            } else if self.render_width != cx || self.render_height != cy {
                (
                    FilterView {
                        stagesurface: false,
                        output_texture: false,
                        render_width: cx,
                        render_height: cy,
                        ..self
                    },
                    RenderStep::ReleaseSurfaces {
                        cx,
                        cy,
                        stagesurface: self.stagesurface,
                        output_texture: self.output_texture,
                    },
                )
            } else {
                (self, self.surface_step(cx, cy))
            },
            RenderStep::ReleaseSurfaces { cx, cy, .. } => (self, self.surface_step(cx, cy)),
            RenderStep::CreateSurface { cx, cy } => if ok {
                (FilterView { stagesurface: true, ..self }, RenderStep::MapSurface { cx, cy })
            } else {
                (self, RenderStep::Skip)
            },
            RenderStep::MapSurface { cx, cy } => if ok {
                (self, RenderStep::LoadPixels { cx, cy })
            } else {
                (self, RenderStep::Skip)
            },
            RenderStep::LoadPixels { cx, cy } => (self, RenderStep::UnmapSurface { cx, cy }),
            RenderStep::UnmapSurface { cx, cy } => (
                FilterView { buffer: made, ..self },
                if self.output_texture {
                    RenderStep::Upload { cx, cy }
                } else {
                    RenderStep::CreateOutput { cx, cy }
                },
            ),
            RenderStep::CreateOutput { cx, cy } => if ok {
                (FilterView { output_texture: true, ..self }, RenderStep::Upload { cx, cy })
            } else {
                (self, RenderStep::Skip)
            },
            RenderStep::Upload { cx, cy } => (self, RenderStep::FindEffect { cx, cy }),
            RenderStep::FindEffect { cx, cy } => (
                FilterView { frame_count: (self.frame_count + 1) as u64, ..self },
                if ok {
                    RenderStep::DrawOutput { cx, cy }
                } else {
                    RenderStep::Skip
                },
            ),
            RenderStep::DrawOutput { cx, cy } => (self, step),
            RenderStep::Skip => (self, step),
        }
    }

    /// Whether the host and the filter hold what a step works on, in the step's size.
    pub open spec fn ready_for(self, step: RenderStep) -> bool {
        &&& step.size() matches Some((cx, cy)) ==> cx > 0 && cy > 0
        &&& match step {
            RenderStep::Skip => true,
            RenderStep::CreateTarget { .. } => !self.texrender,
            RenderStep::BeginTarget { .. } => self.texrender,
            RenderStep::DrawSource { .. } => self.texrender,
            RenderStep::ReleaseSurfaces { cx, cy, .. } => self.texrender && self.sized(cx, cy)
                && !self.stagesurface && !self.output_texture,
            RenderStep::CreateSurface { cx, cy } => self.texrender && self.sized(cx, cy)
                && !self.stagesurface,
            RenderStep::MapSurface { cx, cy } => self.texrender && self.sized(cx, cy)
                && self.stagesurface,
            RenderStep::LoadPixels { cx, cy } => self.sized(cx, cy) && self.stagesurface,
            RenderStep::UnmapSurface { cx, cy } => self.sized(cx, cy) && self.stagesurface
                && self.loaded(cx, cy),
            RenderStep::CreateOutput { cx, cy } => self.sized(cx, cy) && self.loaded(cx, cy)
                && !self.output_texture,
            RenderStep::Upload { cx, cy } => self.sized(cx, cy) && self.loaded(cx, cy)
                && self.output_texture,
            RenderStep::FindEffect { cx, cy } => self.sized(cx, cy) && self.output_texture,
            RenderStep::DrawOutput { cx, cy } => self.sized(cx, cy) && self.output_texture,
        }
    }

    /// Whether the buffer holds a frame of this size.
    pub open spec fn loaded(self, cx: u32, cy: u32) -> bool {
        self.buffer.len() == frame_len(cx, cy)
    }

    /// Whether the surfaces have this size.
    pub open spec fn sized(self, cx: u32, cy: u32) -> bool {
        self.render_width == cx && self.render_height == cy
    }
}

impl<T> GlitchFilter<T> {
    /// Begins a render of a source of the given size, if there is a source.
    pub fn render(&self, target: Option<(u32, u32)>) -> (step: RenderStep)
        requires
            self@.valid(),
        ensures
            step == self@.first_step(target),
            self@.ready_for(step),
    {
        match target {
            Some((cx, cy)) => {
                if cx == 0 || cy == 0 {
                    return RenderStep::Skip;
                }
                if !self.enabled || self.expressions.len() == 0 || self.async_source {
                    return RenderStep::Skip;
                }
                let size_changed: bool = self.render_width != cx || self.render_height != cy;
                let evaluates: bool = !self.output_texture || size_changed || self.frame_count
                    % self.process_interval == 0;
                if !evaluates {
                    return RenderStep::FindEffect { cx, cy };
                }
                if self.texrender {
                    RenderStep::BeginTarget { cx, cy }
                } else {
                    RenderStep::CreateTarget { cx, cy }
                }
            },
            None => RenderStep::Skip,
        }
    }

    /// The step that maps the surface, or makes the one that is needed for it.
    fn surface_step(&self, cx: u32, cy: u32) -> (step: RenderStep)
        ensures
            step == self@.surface_step(cx, cy),
    {
        if self.stagesurface {
            RenderStep::MapSurface { cx, cy }
        } else {
            RenderStep::CreateSurface { cx, cy }
        }
    }

    /// Loads a mapped surface's pixels into the buffer.
    pub fn load_pixels(&mut self, cx: u32, cy: u32, data: &[u8], linesize: u32)
        requires
            cy > 0,
            frame_len(cx, cy) <= isize::MAX,
            surface_len(linesize, cx, cy) <= data@.len(),
        ensures
            final(self)@ == (FilterView {
                buffer: packed(data@, linesize, cx, cy as nat),
                ..old(self)@
            }),
            final(self)@.buffer.len() == frame_len(cx, cy),
    {
        let ghost before = self@;
        copy_lines_in(&mut self.buffer, data, linesize, cx, cy);
        assert(self@ =~= FilterView { buffer: packed(data@, linesize, cx, cy as nat), ..before });
    }

    /// Says which graphics resources the host holds for the filter and is to destroy, when the
    /// filter goes.
    pub fn destroy_resources(self) -> (held: HeldResources)
        ensures
            held == (HeldResources {
                texrender: self@.texrender,
                stagesurface: self@.stagesurface,
                output_texture: self@.output_texture,
            }),
    {
        HeldResources {
            texrender: self.texrender,
            stagesurface: self.stagesurface,
            output_texture: self.output_texture,
        }
    }
}

impl<T: Sync> GlitchFilter<T> {
    /// Goes on with a render, given whether the last step succeeded. When the surface has been
    /// unmapped, the expressions are applied to the pixels that were loaded from it.
    pub fn next_step<F>(&mut self, step: RenderStep, ok: bool, eval: &F) -> (next: RenderStep) where
        F: Fn(EvalContext<'_, T>, &[u8], StdRng) -> (Option<[u8; 4]>, StdRng) + Sync,

        requires
            old(self)@.valid(),
            old(self)@.ready_for(step),
            step matches RenderStep::LoadPixels { cx, cy } ==> old(self)@.loaded(cx, cy),
            step is FindEffect ==> old(self)@.frame_count < u64::MAX,
            forall|c: EvalContext<'_, T>, f: &[u8], g: StdRng| call_requires(*eval, (c, f, g)),
        ensures
            (final(self)@, next) == old(self)@.after_step(step, ok, final(self)@.buffer),
            step matches RenderStep::UnmapSurface { cx, cy } ==> expressions_applied(
                *eval,
                old(self)@.expressions,
                cx,
                cy,
                old(self)@.buffer,
                frame_seed(old(self)@.seed, old(self)@.frame_count),
                final(self)@.buffer,
            ),
            final(self)@.valid(),
            final(self)@.ready_for(next),
    {
        let ghost before = self@;
        let next: RenderStep = match step {
            RenderStep::CreateTarget { cx, cy } => {
                if ok {
                    self.texrender = true;
                    RenderStep::BeginTarget { cx, cy }
                } else {
                    RenderStep::Skip
                }
            },
            RenderStep::BeginTarget { cx, cy } => {
                if ok {
                    RenderStep::DrawSource { cx, cy }
                } else {
                    RenderStep::Skip
                }
            },
            RenderStep::DrawSource { cx, cy } => {
                if !ok {
                    RenderStep::Skip
                } else if self.render_width != cx || self.render_height != cy {
                    let stagesurface: bool = self.stagesurface;
                    let output_texture: bool = self.output_texture;
                    self.stagesurface = false;
                    self.output_texture = false;
                    self.render_width = cx;
                    self.render_height = cy;
                    RenderStep::ReleaseSurfaces { cx, cy, stagesurface, output_texture }
                } else {
                    self.surface_step(cx, cy)
                }
            },
            RenderStep::ReleaseSurfaces { cx, cy, .. } => self.surface_step(cx, cy),
            RenderStep::CreateSurface { cx, cy } => {
                if ok {
                    self.stagesurface = true;
                    RenderStep::MapSurface { cx, cy }
                } else {
                    RenderStep::Skip
                }
            },
            RenderStep::MapSurface { cx, cy } => {
                if ok {
                    RenderStep::LoadPixels { cx, cy }
                } else {
                    RenderStep::Skip
                }
            },
            RenderStep::LoadPixels { cx, cy } => RenderStep::UnmapSurface { cx, cy },
            RenderStep::UnmapSurface { cx, cy } => {
                self.process_frame(cx, cy, eval);
                if self.output_texture {
                    RenderStep::Upload { cx, cy }
                } else {
                    RenderStep::CreateOutput { cx, cy }
                }
            },
            RenderStep::CreateOutput { cx, cy } => {
                if ok {
                    self.output_texture = true;
                    RenderStep::Upload { cx, cy }
                } else {
                    RenderStep::Skip
                }
            },
            RenderStep::Upload { cx, cy } => RenderStep::FindEffect { cx, cy },
            RenderStep::FindEffect { cx, cy } => {
                self.frame_count = self.frame_count + 1;
                if ok {
                    RenderStep::DrawOutput { cx, cy }
                } else {
                    RenderStep::Skip
                }
            },
            RenderStep::DrawOutput { .. } => step,
            RenderStep::Skip => step,
        };
        assert(self@ =~= before.after_step(step, ok, self@.buffer).0);
        next
    }
}

/// The graphics resources that the host holds for a filter.
pub struct HeldResources {
    pub texrender: bool,
    pub stagesurface: bool,
    pub output_texture: bool,
}

/// A render comes to an end: every step but the last has fewer steps after it.
pub proof fn law_render_ends<T>(
    filter: FilterView<T>,
    step: RenderStep,
    ok: bool,
    made: Seq<u8>,
)
    requires
        !step.is_last(),
    ensures
        filter.after_step(step, ok, made).1.rank() < step.rank(),
        step.rank() > 0,
{
}

/// A filter that is off, has no expression or is fed by an asynchronous source leaves the
/// source as it is, whatever its size.
pub proof fn law_passthrough<T>(filter: FilterView<T>, target: Option<(u32, u32)>)
    requires
        !filter.enabled || filter.expressions.len() == 0 || filter.async_source,
    ensures
        filter.first_step(target) is Skip,
{
}

/// Every step has what it works on, from the first one on: what is mapped, uploaded or drawn
/// exists and has the size of the source.
pub proof fn law_resources_are_ready<T>(
    filter: FilterView<T>,
    target: Option<(u32, u32)>,
    step: RenderStep,
    ok: bool,
    made: Seq<u8>,
)
    requires
        step matches RenderStep::LoadPixels { cx, cy } ==> filter.loaded(cx, cy),
        step matches RenderStep::UnmapSurface { cx, cy } ==> made.len() == frame_len(cx, cy),
    ensures
        filter.ready_for(filter.first_step(target)),
        filter.ready_for(step) ==> filter.after_step(step, ok, made).0.ready_for(
            filter.after_step(step, ok, made).1,
        ),
{
}

/// A frame is counted once, when its output is ready, whether or not there is an effect to draw
/// it with; and going from step to step changes neither the expressions nor the settings of the
/// filter, and the pixels only where the expressions are applied to them.
pub proof fn law_render_counts_ready_frames<T>(
    filter: FilterView<T>,
    step: RenderStep,
    ok: bool,
    made: Seq<u8>,
)
    requires
        filter.frame_count < u64::MAX,
    ensures
        ({
            let after = filter.after_step(step, ok, made).0;
            &&& after.frame_count == filter.frame_count + if step is FindEffect {
                1int
            } else {
                0int
            }
            &&& after.expressions == filter.expressions
            &&& after.saved == filter.saved
            &&& after.revert_at == filter.revert_at
            &&& after.buffer == if step is UnmapSurface {
                made
            } else {
                filter.buffer
            }
            &&& after.seed == filter.seed
            &&& after.enabled == filter.enabled
            &&& after.async_source == filter.async_source
        }),
{
}

/// The filter after the host has carried out a step: the pixels are loaded where that is due.
pub open spec fn with_pixels<T>(
    filter: FilterView<T>,
    step: RenderStep,
    loaded: Seq<u8>,
) -> FilterView<T> {
    if step is LoadPixels {
        FilterView { buffer: loaded, ..filter }
    } else {
        filter
    }
}

/// A render from a step on, on a host where `ok` says which steps succeed, with the pixels that
/// are loaded and what the expressions make of them: the filter at the end, and the steps.
pub open spec fn render_from<T>(
    filter: FilterView<T>,
    step: RenderStep,
    ok: spec_fn(RenderStep) -> bool,
    loaded: Seq<u8>,
    made: Seq<u8>,
) -> (FilterView<T>, Seq<RenderStep>)
    decreases step.rank(),
{
    if step.is_last() {
        (filter, seq![step])
    } else {
        let (after, next) = with_pixels(filter, step, loaded).after_step(step, ok(step), made);
        let rest = render_from(after, next, ok, loaded, made);
        (rest.0, seq![step] + rest.1)
    }
}

/// A whole render of a source.
pub open spec fn render_of<T>(
    filter: FilterView<T>,
    target: Option<(u32, u32)>,
    ok: spec_fn(RenderStep) -> bool,
    loaded: Seq<u8>,
    made: Seq<u8>,
) -> (FilterView<T>, Seq<RenderStep>) {
    render_from(filter, filter.first_step(target), ok, loaded, made)
}

/// Whether rendering to the target is begun in step `i`.
pub open spec fn begins_at(steps: Seq<RenderStep>, ok: spec_fn(RenderStep) -> bool, i: int) -> bool {
    0 <= i < steps.len() && steps[i] is BeginTarget && ok(steps[i])
}

/// Whether rendering to the target is finished in step `i`.
pub open spec fn finishes_at(steps: Seq<RenderStep>, i: int) -> bool {
    0 <= i < steps.len() && steps[i] is DrawSource
}

/// Whether the staging surface is mapped in step `i`.
pub open spec fn maps_at(steps: Seq<RenderStep>, ok: spec_fn(RenderStep) -> bool, i: int) -> bool {
    0 <= i < steps.len() && steps[i] is MapSurface && ok(steps[i])
}

/// Whether the mapped pixels are loaded in step `i`.
pub open spec fn loads_at(steps: Seq<RenderStep>, i: int) -> bool {
    0 <= i < steps.len() && steps[i] is LoadPixels
}

/// Whether the staging surface is unmapped in step `i`.
pub open spec fn unmaps_at(steps: Seq<RenderStep>, i: int) -> bool {
    0 <= i < steps.len() && steps[i] is UnmapSurface
}

/// From any step on, rendering to the target is finished exactly where it was begun, and the
/// surface is read and then unmapped exactly where it was mapped, each in the step after.
proof fn lemma_finished_where_begun<T>(
    filter: FilterView<T>,
    step: RenderStep,
    ok: spec_fn(RenderStep) -> bool,
    loaded: Seq<u8>,
    made: Seq<u8>,
)
    ensures
        ({
            let steps = render_from(filter, step, ok, loaded, made).1;
            &&& steps.len() > 0
            &&& steps[0] == step
            &&& forall|i: int|
                i >= 0 ==> (#[trigger] begins_at(steps, ok, i) <==> finishes_at(steps, i + 1))
            &&& forall|i: int|
                i >= 0 ==> (#[trigger] maps_at(steps, ok, i) <==> loads_at(steps, i + 1))
            &&& forall|i: int|
                i >= 0 ==> (#[trigger] loads_at(steps, i) <==> unmaps_at(steps, i + 1))
        }),
    decreases step.rank(),
{
    let steps = render_from(filter, step, ok, loaded, made).1;
    if !step.is_last() {
        let (after, next) = with_pixels(filter, step, loaded).after_step(step, ok(step), made);
        let rest = render_from(after, next, ok, loaded, made).1;
        lemma_finished_where_begun(after, next, ok, loaded, made);
        assert forall|i: int| i >= 0 implies (#[trigger] begins_at(steps, ok, i) <==> finishes_at(
            steps,
            i + 1,
        )) by {
            assert(finishes_at(steps, i + 1) == finishes_at(rest, i));
            if i > 0 {
                assert(begins_at(steps, ok, i) == begins_at(rest, ok, i - 1));
            }
        }
        assert forall|i: int| i >= 0 implies (#[trigger] maps_at(steps, ok, i) <==> loads_at(
            steps,
            i + 1,
        )) by {
            assert(loads_at(steps, i + 1) == loads_at(rest, i));
            if i > 0 {
                assert(maps_at(steps, ok, i) == maps_at(rest, ok, i - 1));
            }
        }
        assert forall|i: int| i >= 0 implies (#[trigger] loads_at(steps, i) <==> unmaps_at(
            steps,
            i + 1,
        )) by {
            assert(unmaps_at(steps, i + 1) == unmaps_at(rest, i));
            if i > 0 {
                assert(loads_at(steps, i) == loads_at(rest, i - 1));
            }
        }
    }
}

/// Rendering to the target is finished exactly where it was begun, right after, on every way
/// through a render.
pub proof fn law_target_is_finished_where_begun<T>(
    filter: FilterView<T>,
    target: Option<(u32, u32)>,
    ok: spec_fn(RenderStep) -> bool,
    loaded: Seq<u8>,
    made: Seq<u8>,
)
    ensures
        ({
            let steps = render_of(filter, target, ok, loaded, made).1;
            &&& forall|i: int|
                i >= 0 ==> (#[trigger] begins_at(steps, ok, i) <==> finishes_at(steps, i + 1))
            &&& !finishes_at(steps, 0)
        }),
{
    lemma_finished_where_begun(filter, filter.first_step(target), ok, loaded, made);
}

/// The staging surface is unmapped exactly where it was mapped, on every way through a render,
/// with nothing in between but that its pixels are loaded: so the surface that is unmapped is
/// the one that was mapped.
pub proof fn law_surface_is_unmapped_where_mapped<T>(
    filter: FilterView<T>,
    target: Option<(u32, u32)>,
    ok: spec_fn(RenderStep) -> bool,
    loaded: Seq<u8>,
    made: Seq<u8>,
)
    ensures
        ({
            let steps = render_of(filter, target, ok, loaded, made).1;
            &&& forall|i: int| #[trigger]
                maps_at(steps, ok, i) ==> loads_at(steps, i + 1) && unmaps_at(steps, i + 2)
            &&& forall|i: int| #[trigger]
                unmaps_at(steps, i) ==> loads_at(steps, i - 1) && maps_at(steps, ok, i - 2)
        }),
{
    let steps = render_of(filter, target, ok, loaded, made).1;
    lemma_finished_where_begun(filter, filter.first_step(target), ok, loaded, made);
    assert forall|i: int| #[trigger] maps_at(steps, ok, i) implies loads_at(steps, i + 1)
        && unmaps_at(steps, i + 2) by {
        assert(loads_at(steps, i + 1));
    }
    assert forall|i: int| #[trigger] unmaps_at(steps, i) implies loads_at(steps, i - 1) && maps_at(
        steps,
        ok,
        i - 2,
    ) by {
        assert(i > 0);
        assert(loads_at(steps, i - 1) <==> unmaps_at(steps, (i - 1) + 1));
        assert(i > 1);
        assert(maps_at(steps, ok, i - 2) <==> loads_at(steps, (i - 2) + 1));
    }
}

/// A render that uploads an output has loaded pixels and applied the expressions to them, and
/// what these made is what the buffer holds from then on.
pub proof fn law_uploaded_pixels_are_processed<T>(
    filter: FilterView<T>,
    target: Option<(u32, u32)>,
    ok: spec_fn(RenderStep) -> bool,
    loaded: Seq<u8>,
    made: Seq<u8>,
)
    ensures
        uploads(render_of(filter, target, ok, loaded, made).1) ==> render_of(
            filter,
            target,
            ok,
            loaded,
            made,
        ).0.buffer == made,
{
    lemma_uploaded_pixels(filter, filter.first_step(target), ok, loaded, made);
}

/// Where a render from a step on uploads, the pixels are processed on the way or were before.
proof fn lemma_uploaded_pixels<T>(
    filter: FilterView<T>,
    step: RenderStep,
    ok: spec_fn(RenderStep) -> bool,
    loaded: Seq<u8>,
    made: Seq<u8>,
)
    ensures
        ({
            let (after, steps) = render_from(filter, step, ok, loaded, made);
            &&& step is Upload || step is FindEffect || step.is_last() ==> after.buffer
                == filter.buffer
            &&& step is FindEffect || step.is_last() ==> !uploads(steps)
            &&& step is CreateOutput ==> after.buffer == filter.buffer
            &&& step.rank() > 3 && uploads(steps) ==> after.buffer == made
        }),
    decreases step.rank(),
{
    let (last, steps) = render_from(filter, step, ok, loaded, made);
    if !step.is_last() {
        let (after, next) = with_pixels(filter, step, loaded).after_step(step, ok(step), made);
        let rest = render_from(after, next, ok, loaded, made).1;
        lemma_uploaded_pixels(after, next, ok, loaded, made);
        if uploads(steps) && !(step is Upload) {
            let i = choose|i: int| 0 <= i < steps.len() && (#[trigger] steps[i]) is Upload;
            assert(rest[i - 1] is Upload);
        }
    }
}

/// A render ends with showing the source unfiltered or with drawing the output, does that once,
/// and never does both.
pub proof fn law_render_skips_or_draws<T>(
    filter: FilterView<T>,
    step: RenderStep,
    ok: spec_fn(RenderStep) -> bool,
    loaded: Seq<u8>,
    made: Seq<u8>,
)
    ensures
        ({
            let steps = render_from(filter, step, ok, loaded, made).1;
            &&& steps.len() > 0
            &&& steps.last().is_last()
            &&& forall|i: int| 0 <= i < steps.len() - 1 ==> !(#[trigger] steps[i]).is_last()
        }),
    decreases step.rank(),
{
    if !step.is_last() {
        let (after, next) = with_pixels(filter, step, loaded).after_step(step, ok(step), made);
        let rest = render_from(after, next, ok, loaded, made).1;
        law_render_skips_or_draws(after, next, ok, loaded, made);
        let steps = render_from(filter, step, ok, loaded, made).1;
        assert forall|i: int| 0 <= i < steps.len() - 1 implies !(
        #[trigger] steps[i]).is_last() by {
            if i > 0 {
                assert(!rest[i - 1].is_last());
            }
        }
    }
}

/// A filter after `n` renders of a source of one size in which all steps succeed, each begun
/// with nothing to do but to show the filter.
pub open spec fn after_renders<T>(
    filter: FilterView<T>,
    name: Seq<char>,
    cx: u32,
    cy: u32,
    loaded: spec_fn(nat) -> Seq<u8>,
    made: spec_fn(nat) -> Seq<u8>,
    n: nat,
) -> FilterView<T>
    decreases n,
{
    if n == 0 {
        filter
    } else {
        let before = after_renders(filter, name, cx, cy, loaded, made, (n - 1) as nat);
        render_of(
            FilterView { published: Some(name), ..before },
            Some((cx, cy)),
            |step: RenderStep| true,
            loaded((n - 1) as nat),
            made((n - 1) as nat),
        ).0
    }
}

/// The steps of render number `n`, counted from 0.
pub open spec fn nth_render<T>(
    filter: FilterView<T>,
    name: Seq<char>,
    cx: u32,
    cy: u32,
    loaded: spec_fn(nat) -> Seq<u8>,
    made: spec_fn(nat) -> Seq<u8>,
    n: nat,
) -> Seq<RenderStep> {
    render_of(
        FilterView { published: Some(name), ..after_renders(filter, name, cx, cy, loaded, made, n) },
        Some((cx, cy)),
        |step: RenderStep| true,
        loaded(n),
        made(n),
    ).1
}

/// Whether an output is uploaded in one of the steps.
pub open spec fn uploads(steps: Seq<RenderStep>) -> bool {
    exists|i: int| 0 <= i < steps.len() && (#[trigger] steps[i]) is Upload
}

/// In how many of the first `n` renders an output is uploaded.
pub open spec fn upload_count<T>(
    filter: FilterView<T>,
    name: Seq<char>,
    cx: u32,
    cy: u32,
    loaded: spec_fn(nat) -> Seq<u8>,
    made: spec_fn(nat) -> Seq<u8>,
    n: nat,
) -> nat
    decreases n,
{
    if n == 0 {
        0
    } else {
        upload_count(filter, name, cx, cy, loaded, made, (n - 1) as nat) + if uploads(
            nth_render(filter, name, cx, cy, loaded, made, (n - 1) as nat),
        ) {
            1nat
        } else {
            0nat
        }
    }
}

/// What one successful render of a source does to a filter that does not pass it through: it
/// counts, its surfaces and its output have the source's size, and the output is uploaded just
/// where the filter evaluates.
proof fn lemma_one_render<T>(
    filter: FilterView<T>,
    cx: u32,
    cy: u32,
    ok: spec_fn(RenderStep) -> bool,
    loaded: Seq<u8>,
    made: Seq<u8>,
)
    requires
        filter.frame_count < u64::MAX,
        !filter.passes_through(),
        cx != 0,
        cy != 0,
        forall|step: RenderStep| #[trigger] ok(step),
        loaded.len() == frame_len(cx, cy),
        made.len() == frame_len(cx, cy),
    ensures
        ({
            let (after, steps) = render_of(filter, Some((cx, cy)), ok, loaded, made);
            &&& after.frame_count == filter.frame_count + 1
            &&& after.output_texture
            &&& after.sized(cx, cy)
            &&& !after.passes_through()
            &&& after.process_interval == filter.process_interval
            &&& steps.last() is DrawOutput
            &&& uploads(steps) == filter.evaluates(cx, cy)
        }),
{
    lemma_render_from(filter, filter.first_step(Some((cx, cy))), cx, cy, ok, loaded, made);
}

/// What the rest of a successful render does, from a step of the given size on.
proof fn lemma_render_from<T>(
    filter: FilterView<T>,
    step: RenderStep,
    cx: u32,
    cy: u32,
    ok: spec_fn(RenderStep) -> bool,
    loaded: Seq<u8>,
    made: Seq<u8>,
)
    requires
        filter.frame_count < u64::MAX || step is DrawOutput,
        filter.ready_for(step),
        step.size() == Some((cx, cy)),
        forall|step: RenderStep| #[trigger] ok(step),
        loaded.len() == frame_len(cx, cy),
        made.len() == frame_len(cx, cy),
    ensures
        ({
            let (after, steps) = render_from(filter, step, ok, loaded, made);
            &&& after.frame_count == filter.frame_count + if step is DrawOutput {
                0int
            } else {
                1int
            }
            &&& after.output_texture
            &&& after.sized(cx, cy)
            &&& after.passes_through() == filter.passes_through()
            &&& after.process_interval == filter.process_interval
            &&& steps.len() > 0
            &&& steps.last() is DrawOutput
            &&& uploads(steps) == (step.rank() >= RenderStep::Upload { cx, cy }.rank())
        }),
    decreases step.rank(),
{
    let (last, steps) = render_from(filter, step, ok, loaded, made);
    if !step.is_last() {
        assert(ok(step));
        let (after, next) = with_pixels(filter, step, loaded).after_step(step, ok(step), made);
        let rest = render_from(after, next, ok, loaded, made).1;
        lemma_render_from(after, next, cx, cy, ok, loaded, made);
        assert(steps[0] == step);
        if uploads(rest) {
            let i = choose|i: int| 0 <= i < rest.len() && (#[trigger] rest[i]) is Upload;
            assert(steps[i + 1] is Upload);
        } else {
            assert forall|i: int| 0 <= i < steps.len() implies ((#[trigger] steps[i]) is Upload
                <==> i == 0 && step is Upload) by {
                if i > 0 {
                    assert(!(rest[i - 1] is Upload));
                }
            }
        }
    }
}

/// Frames are skipped by the interval: when a new source is rendered again and again with
/// nothing else happening, every render counts, the first one and then every
/// `process_interval`th uploads a new output, and the others draw the last one again. In `n`
/// renders there are as many uploads as intervals begun.
pub proof fn law_frames_are_skipped<T>(
    filter: FilterView<T>,
    name: Seq<char>,
    cx: u32,
    cy: u32,
    loaded: spec_fn(nat) -> Seq<u8>,
    made: spec_fn(nat) -> Seq<u8>,
    n: nat,
)
    requires
        filter.valid(),
        filter.frame_count == 0,
        !filter.output_texture,
        filter.enabled,
        filter.expressions.len() > 0,
        !filter.async_source,
        cx != 0,
        cy != 0,
        forall|i: nat| (#[trigger] loaded(i)).len() == frame_len(cx, cy),
        forall|i: nat| (#[trigger] made(i)).len() == frame_len(cx, cy),
        n < u64::MAX,
    ensures
        after_renders(filter, name, cx, cy, loaded, made, n).frame_count == n,
        nth_render(filter, name, cx, cy, loaded, made, n).last() is DrawOutput,
        uploads(nth_render(filter, name, cx, cy, loaded, made, n)) <==> n % (
        filter.process_interval as nat) == 0,
        upload_count(filter, name, cx, cy, loaded, made, n) == (n + filter.process_interval - 1)
            / filter.process_interval as int,
{
    lemma_renders(filter, name, cx, cy, loaded, made, n);
    let before = after_renders(filter, name, cx, cy, loaded, made, n);
    lemma_one_render(
        FilterView { published: Some(name), ..before },
        cx,
        cy,
        |step: RenderStep| true,
        loaded(n),
        made(n),
    );
}

/// The filter after `n` renders, and the uploads up to then.
proof fn lemma_renders<T>(
    filter: FilterView<T>,
    name: Seq<char>,
    cx: u32,
    cy: u32,
    loaded: spec_fn(nat) -> Seq<u8>,
    made: spec_fn(nat) -> Seq<u8>,
    n: nat,
)
    requires
        filter.valid(),
        filter.frame_count == 0,
        !filter.output_texture,
        !filter.passes_through(),
        cx != 0,
        cy != 0,
        forall|i: nat| (#[trigger] loaded(i)).len() == frame_len(cx, cy),
        forall|i: nat| (#[trigger] made(i)).len() == frame_len(cx, cy),
        n < u64::MAX,
    ensures
        ({
            let after = after_renders(filter, name, cx, cy, loaded, made, n);
            &&& after.frame_count == n
            &&& after.process_interval == filter.process_interval
            &&& !after.passes_through()
            &&& n > 0 ==> after.output_texture && after.sized(cx, cy)
            &&& n == 0 ==> !after.output_texture
        }),
        upload_count(filter, name, cx, cy, loaded, made, n) == (n + filter.process_interval - 1)
            / filter.process_interval as int,
    decreases n,
{
    let k = filter.process_interval as int;
    if n == 0 {
        assert((k - 1) / k == 0) by (nonlinear_arith)
            requires
                k > 0,
        ;
    } else {
        let fewer = (n - 1) as nat;
        lemma_renders(filter, name, cx, cy, loaded, made, fewer);
        let before = after_renders(filter, name, cx, cy, loaded, made, fewer);
        lemma_one_render(
            FilterView { published: Some(name), ..before },
            cx,
            cy,
            |step: RenderStep| true,
            loaded(fewer),
            made(fewer),
        );
        lemma_intervals_begun(fewer as int, k);
        if fewer == 0 {
            assert(0int % k == 0) by (nonlinear_arith)
                requires
                    k > 0,
            ;
        }
    }
}

/// One more frame begins a new interval where the frames before fill theirs.
proof fn lemma_intervals_begun(n: int, k: int)
    requires
        n >= 0,
        k > 0,
    ensures
        (n + 1 + k - 1) / k == (n + k - 1) / k + if n % k == 0 {
            1int
        } else {
            0int
        },
{
    let q = n / k;
    let r = n % k;
    lemma_fundamental_div_mod(n, k);
    assert((q + 1) * k == q * k + k && q * k == k * q) by (nonlinear_arith);
    lemma_fundamental_div_mod_converse(n + k, k, q + 1, r);
    if r == 0 {
        lemma_fundamental_div_mod_converse(n + k - 1, k, q, k - 1);
    } else {
        lemma_fundamental_div_mod_converse(n + k - 1, k, q + 1, r - 1);
    }
}

/// With an output of the right size at hand, one frame in every `process_interval` is
/// evaluated, and the others show the last output again.
pub proof fn law_one_frame_per_interval<T>(filter: FilterView<T>, cx: u32, cy: u32)
    requires
        filter.valid(),
        filter.output_texture,
        filter.sized(cx, cy),
        cx != 0,
        cy != 0,
        filter.enabled,
        filter.expressions.len() > 0,
        !filter.async_source,
    ensures
        filter.first_step(Some((cx, cy))) is FindEffect <==> filter.frame_count
            % filter.process_interval != 0,
{
}

/// A render of a source that has a size is skipped only where the filter is switched off, has no
/// expression, or has had a frame from an asynchronous source; a pulse makes no difference.
/// Otherwise the last output is drawn again where there is one of the source's size and it is
/// not this frame's turn; and where it is, or there is none, the source is drawn to the render
/// target, which is created if it is missing.
pub proof fn law_render_goes_through_the_filter<T>(filter: FilterView<T>, cx: u32, cy: u32)
    ensures
        filter.first_step(None) is Skip,
        ({
            let step = filter.first_step(Some((cx, cy)));
            let skips = cx == 0 || cy == 0 || !filter.enabled || filter.expressions.len() == 0
                || filter.async_source;
            let redraws = filter.output_texture && filter.render_width == cx
                && filter.render_height == cy && filter.frame_count % filter.process_interval != 0;
            &&& step is Skip <==> skips
            &&& step == (RenderStep::FindEffect { cx, cy }) <==> !skips && redraws
            &&& step == (RenderStep::BeginTarget { cx, cy }) <==> !skips && !redraws
                && filter.texrender
            &&& step == (RenderStep::CreateTarget { cx, cy }) <==> !skips && !redraws
                && !filter.texrender
        }),
{
}

/// A step that fails, where it can, ends the render with showing the source unfiltered, and
/// leaves the filter as it was but for the count of a frame whose output was ready.
pub proof fn law_failed_step_shows_the_source<T>(
    filter: FilterView<T>,
    step: RenderStep,
    made: Seq<u8>,
)
    requires
        filter.frame_count < u64::MAX,
        step is CreateTarget || step is BeginTarget || step is DrawSource || step is CreateSurface
            || step is MapSurface || step is CreateOutput || step is FindEffect,
    ensures
        filter.after_step(step, false, made).1 is Skip,
        filter.after_step(step, false, made).0 == (FilterView {
            frame_count: (filter.frame_count + if step is FindEffect {
                1int
            } else {
                0int
            }) as u64,
            ..filter
        }),
{
}

/// A render that goes well takes these steps, for the one size of the source, and changes of the
/// filter what it holds: the render target is there once created, surfaces of another size are
/// given up, staging surface and output are there once created, and the frame is counted when
/// the output is ready.
pub proof fn law_render_goes_on<T>(filter: FilterView<T>, cx: u32, cy: u32, made: Seq<u8>)
    requires
        filter.frame_count < u64::MAX,
    ensures
        filter.after_step(RenderStep::CreateTarget { cx, cy }, true, made) == (
            FilterView { texrender: true, ..filter },
            RenderStep::BeginTarget { cx, cy },
        ),
        filter.after_step(RenderStep::BeginTarget { cx, cy }, true, made) == (
            filter,
            RenderStep::DrawSource { cx, cy },
        ),
        filter.render_width == cx && filter.render_height == cy && filter.stagesurface
            ==> filter.after_step(RenderStep::DrawSource { cx, cy }, true, made) == (
            filter,
            RenderStep::MapSurface { cx, cy },
        ),
        filter.render_width == cx && filter.render_height == cy && !filter.stagesurface
            ==> filter.after_step(RenderStep::DrawSource { cx, cy }, true, made) == (
            filter,
            RenderStep::CreateSurface { cx, cy },
        ),
        filter.render_width != cx || filter.render_height != cy ==> filter.after_step(
            RenderStep::DrawSource { cx, cy },
            true,
            made,
        ) == (
            FilterView {
                stagesurface: false,
                output_texture: false,
                render_width: cx,
                render_height: cy,
                ..filter
            },
            RenderStep::ReleaseSurfaces {
                cx,
                cy,
                stagesurface: filter.stagesurface,
                output_texture: filter.output_texture,
            },
        ),
        filter.after_step(RenderStep::CreateSurface { cx, cy }, true, made) == (
            FilterView { stagesurface: true, ..filter },
            RenderStep::MapSurface { cx, cy },
        ),
        filter.after_step(RenderStep::MapSurface { cx, cy }, true, made) == (
            filter,
            RenderStep::LoadPixels { cx, cy },
        ),
        filter.after_step(RenderStep::CreateOutput { cx, cy }, true, made) == (
            FilterView { output_texture: true, ..filter },
            RenderStep::Upload { cx, cy },
        ),
        filter.after_step(RenderStep::FindEffect { cx, cy }, true, made) == (
            FilterView { frame_count: (filter.frame_count + 1) as u64, ..filter },
            RenderStep::DrawOutput { cx, cy },
        ),
{
}

/// The steps that cannot fail lead on whatever the host says of them: after the surfaces are
/// given up comes the mapping of the staging surface, or its creation; after the pixels are
/// loaded the surface is unmapped; then the buffer holds what the expressions made, and it is
/// uploaded to the output, which is created if it is missing; after that the effect is looked
/// up. A render that is over stays over.
pub proof fn law_render_cannot_fail_here<T>(
    filter: FilterView<T>,
    cx: u32,
    cy: u32,
    stagesurface: bool,
    output_texture: bool,
    ok: bool,
    made: Seq<u8>,
)
    ensures
        filter.after_step(
            RenderStep::ReleaseSurfaces { cx, cy, stagesurface, output_texture },
            ok,
            made,
        ) == (
            filter,
            if filter.stagesurface {
                RenderStep::MapSurface { cx, cy }
            } else {
                RenderStep::CreateSurface { cx, cy }
            },
        ),
        filter.after_step(RenderStep::LoadPixels { cx, cy }, ok, made) == (
            filter,
            RenderStep::UnmapSurface { cx, cy },
        ),
        filter.after_step(RenderStep::UnmapSurface { cx, cy }, ok, made) == (
            FilterView { buffer: made, ..filter },
            if filter.output_texture {
                RenderStep::Upload { cx, cy }
            } else {
                RenderStep::CreateOutput { cx, cy }
            },
        ),
        filter.after_step(RenderStep::Upload { cx, cy }, ok, made) == (
            filter,
            RenderStep::FindEffect { cx, cy },
        ),
        filter.after_step(RenderStep::DrawOutput { cx, cy }, ok, made) == (
            filter,
            RenderStep::DrawOutput { cx, cy },
        ),
        filter.after_step(RenderStep::Skip, ok, made) == (filter, RenderStep::Skip),
{
}

/// What it means that a step has what it works on: a render target to begin with and to draw to,
/// a staging surface of the source's size to map, load from and unmap, a whole frame of that
/// size to evaluate and upload, and an output of that size to upload to and to draw.
pub proof fn law_ready_steps_have_resources<T>(
    filter: FilterView<T>,
    step: RenderStep,
    cx: u32,
    cy: u32,
)
    requires
        filter.ready_for(step),
        step.size() == Some((cx, cy)),
    ensures
        cx > 0 && cy > 0,
        step is BeginTarget || step is DrawSource ==> filter.texrender,
        step is MapSurface || step is LoadPixels || step is UnmapSurface ==> filter.stagesurface
            && filter.render_width == cx && filter.render_height == cy,
        step is UnmapSurface || step is CreateOutput || step is Upload ==> filter.buffer.len() == cy
            * (4 * cx),
        step is Upload || step is FindEffect || step is DrawOutput ==> filter.output_texture
            && filter.render_width == cx && filter.render_height == cy,
{
}

}
