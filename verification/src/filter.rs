//! The state of one filter: its expressions, its pulse timer, and its frames.
//!
//! `T` is the token type of the expression compiler. The compiler, the evaluator and the clock
//! are functions that the caller supplies.

use crate::command::{text_of, Command, CommandQueue, CommandView, QueueView};
use crate::command::{left_commands, taken_commands};
use crate::snapshot::{distinct_sources, inserted, lookup, removed};
use crate::snapshot::{law_inserted_is_found, law_removed_is_not_found};
use crate::snapshot::{shown_by, FilterSnapshot, SnapshotTable, SnapshotView, SourceView};
use std::sync::Arc;
use vstd::prelude::*;

pub mod history;
pub mod render;
pub mod video;

verus! {

/// Nanoseconds in a millisecond.
pub const NANOS_PER_MILLI: u128 = 1_000_000;

/// How often a rendered frame is evaluated, unless set otherwise: every second frame.
pub const RENDER_PROCESS_INTERVAL: u64 = 2;

/// The name under which a filter without a source shows itself.
pub const UNKNOWN_SOURCE: &'static str = "unknown";

/// An expression and what it was compiled to.
pub struct Expression<T> {
    pub text: String,
    pub tokens: Arc<Vec<T>>,
}

/// An expression as a mathematical value.
pub struct ExpressionView<T> {
    pub text: Seq<char>,
    pub tokens: Seq<T>,
}

impl<T> View for Expression<T> {
    type V = ExpressionView<T>;

    open spec fn view(&self) -> ExpressionView<T> {
        ExpressionView { text: self.text@, tokens: self.tokens@ }
    }
}

/// What a list of expressions holds.
pub open spec fn expressions_of<T>(expressions: Seq<Expression<T>>) -> Seq<ExpressionView<T>> {
    expressions.map_values(|e: Expression<T>| e@)
}

/// What an optional token list holds.
pub open spec fn tokens_of<T>(tokens: Option<Vec<T>>) -> Option<Seq<T>> {
    match tokens {
        Some(t) => Some(t@),
        None => None,
    }
}

/// Calls the standard library's `Arc::clone`. The claim is that the result points to the same
/// value.
#[verifier::external_body]
fn share<T>(tokens: &Arc<Vec<T>>) -> (shared: Arc<Vec<T>>)
    ensures
        shared == *tokens,
{
    Arc::clone(tokens)
}

/// A copy of a list of expressions, which shares their tokens.
fn copy_expressions<T>(expressions: &Vec<Expression<T>>) -> (copy: Vec<Expression<T>>)
    ensures
        expressions_of(copy@) == expressions_of(expressions@),
{
    let mut copy: Vec<Expression<T>> = Vec::new();
    let len: usize = expressions.len();
    let mut i: usize = 0;
    while i < len
        invariant
            i <= len,
            len == expressions@.len(),
            copy@.len() == i,
            forall|k: int| 0 <= k < i ==> (#[trigger] copy@[k])@ == expressions@[k]@,
        decreases len - i,
    {
        let expression: &Expression<T> = &expressions[i];
        copy.push(
            Expression { text: expression.text.clone(), tokens: share(&expression.tokens) },
        );
        i = i + 1;
    }
    assert(expressions_of(copy@) =~= expressions_of(expressions@));
    copy
}

/// Settings as the host stores them.
pub struct Settings {
    pub expression: Option<String>,
    pub enabled: bool,
    pub seed: i64,
}

/// Settings as a mathematical value.
pub struct SettingsView {
    pub expression: Option<Seq<char>>,
    pub enabled: bool,
    pub seed: i64,
}

impl View for Settings {
    type V = SettingsView;

    open spec fn view(&self) -> SettingsView {
        SettingsView {
            expression: text_of(self.expression),
            enabled: self.enabled,
            seed: self.seed,
        }
    }
}

/// A filter.
pub struct GlitchFilter<T> {
    /// The filter's number in the command queue.
    id: u64,
    /// The frame in work, in RGBA order without padding.
    buffer: Vec<u8>,
    /// Where a pass writes to, before it becomes the frame in work.
    process_buf: Vec<u8>,
    /// The expressions that are applied to a frame, one after the other.
    expressions: Vec<Expression<T>>,
    seed: u64,
    enabled: bool,
    frame_count: u64,
    /// Every how many rendered frames the expressions are evaluated.
    process_interval: u64,
    saved_expressions: Option<Vec<Expression<T>>>,
    revert_at: Option<u128>,
    published: Option<String>,
    texrender: bool,
    stagesurface: bool,
    output_texture: bool,
    render_width: u32,
    render_height: u32,
    async_source: bool,
}

/// A filter as a mathematical value.
#[verifier::ext_equal]
pub struct FilterView<T> {
    pub id: u64,
    pub buffer: Seq<u8>,
    pub expressions: Seq<ExpressionView<T>>,
    pub seed: u64,
    pub enabled: bool,
    pub frame_count: u64,
    pub process_interval: u64,
    /// The expressions to go back to, while a pulse lasts.
    pub saved: Option<Seq<ExpressionView<T>>>,
    /// When the pulse ends, in nanoseconds.
    pub revert_at: Option<u128>,
    /// The name under which the filter last showed itself.
    pub published: Option<Seq<char>>,
    /// Whether the host holds a render target for the filter.
    pub texrender: bool,
    /// Whether the host holds a staging surface for the filter.
    pub stagesurface: bool,
    /// Whether the host holds an output texture for the filter.
    pub output_texture: bool,
    /// The size of the surfaces.
    pub render_width: u32,
    pub render_height: u32,
    /// Whether frames come from an asynchronous source.
    pub async_source: bool,
}

impl<T> View for GlitchFilter<T> {
    type V = FilterView<T>;

    closed spec fn view(&self) -> FilterView<T> {
        FilterView {
            id: self.id,
            buffer: self.buffer@,
            expressions: expressions_of(self.expressions@),
            seed: self.seed,
            enabled: self.enabled,
            frame_count: self.frame_count,
            process_interval: self.process_interval,
            saved: match self.saved_expressions {
                Some(saved) => Some(expressions_of(saved@)),
                None => None,
            },
            revert_at: self.revert_at,
            published: text_of(self.published),
            texrender: self.texrender,
            stagesurface: self.stagesurface,
            output_texture: self.output_texture,
            render_width: self.render_width,
            render_height: self.render_height,
            async_source: self.async_source,
        }
    }
}

/// There is at most one expression, and it has tokens.
pub open spec fn valid_expressions<T>(expressions: Seq<ExpressionView<T>>) -> bool {
    &&& expressions.len() <= 1
    &&& forall|i: int| 0 <= i < expressions.len() ==> (#[trigger] expressions[i]).tokens.len() > 0
}

impl<T> FilterView<T> {
    /// There is at most one expression, and it has tokens; a pulse has both something to go
    /// back to and an end; and the interval is a number of frames.
    pub open spec fn valid(self) -> bool {
        &&& valid_expressions(self.expressions)
        &&& self.saved is Some <==> self.revert_at is Some
        &&& self.saved matches Some(saved) ==> valid_expressions(saved)
        &&& self.process_interval > 0
    }

    /// Whether there is a pulse, and it has ended.
    pub open spec fn pulse_over(self, now: u64) -> bool {
        self.revert_at matches Some(deadline) && now >= deadline
    }

    /// The filter with a compiled expression: one that does not compile, or compiles to
    /// nothing, leaves the filter as it is.
    pub open spec fn with_expression(self, text: Seq<char>, tokens: Option<Seq<T>>) -> FilterView<
        T,
    > {
        match tokens {
            Some(t) => if t.len() > 0 {
                FilterView { expressions: seq![ExpressionView { text, tokens: t }], ..self }
            } else {
                self
            },
            None => self,
        }
    }

    /// The filter with new settings. An absent or empty expression is passed over.
    pub open spec fn with_settings(self, settings: SettingsView, tokens: Option<Seq<T>>) -> FilterView<
        T,
    > {
        let after = match settings.expression {
            Some(text) => if text.len() > 0 {
                self.with_expression(text, tokens)
            } else {
                self
            },
            None => self,
        };
        FilterView { enabled: settings.enabled, seed: unsigned(settings.seed), ..after }
    }

    /// The filter after a command, given what the expression of the command compiled to and
    /// what the clock showed.
    pub open spec fn after_command(
        self,
        command: CommandView,
        tokens: Option<Seq<T>>,
        now: u64,
    ) -> FilterView<T> {
        match command {
            CommandView::SetExpression { expr, .. } => (FilterView {
                saved: None,
                revert_at: None,
                ..self
            }).with_expression(expr, tokens),
            CommandView::SetEnabled { enabled, .. } => FilterView { enabled, ..self },
            CommandView::Pulse { expr, duration_ms, .. } => (FilterView {
                saved: if self.saved is None {
                    Some(self.expressions)
                } else {
                    self.saved
                },
                revert_at: Some((now + duration_ms * NANOS_PER_MILLI) as u128),
                ..self
            }).with_expression(expr, tokens),
        }
    }

    /// The filter after the clock was looked at: a pulse that has ended is undone.
    pub open spec fn after_revert(self, now: u64) -> FilterView<T> {
        if self.pulse_over(now) {
            FilterView {
                expressions: match self.saved {
                    Some(saved) => saved,
                    None => self.expressions,
                },
                saved: None,
                revert_at: None,
                ..self
            }
        } else {
            self
        }
    }

    /// What the filter shows of itself.
    pub open spec fn snapshot(self) -> SnapshotView {
        SnapshotView {
            expression: if self.expressions.len() > 0 {
                self.expressions[0].text
            } else {
                Seq::empty()
            },
            enabled: self.enabled,
            seed: self.seed,
            frame_count: self.frame_count,
        }
    }
}

/// A signed number read as an unsigned one of the same bits.
pub open spec fn unsigned(value: i64) -> u64 {
    if value >= 0 {
        value as u64
    } else {
        (0x1_0000_0000_0000_0000 + value) as u64
    }
}

/// Reads a signed number as an unsigned one of the same bits.
pub fn to_unsigned(value: i64) -> (result: u64)
    ensures
        result == unsigned(value),
{
    assert(value < 0 ==> value as u64 == 0x1_0000_0000_0000_0000 + value) by (bit_vector);
    value as u64
}

/// The compiler can turn `text` into `tokens`.
pub open spec fn compiles_to<T, P>(parse: P, text: Seq<char>, tokens: Option<Seq<T>>) -> bool where
    P: Fn(&str) -> Option<Vec<T>>,
 {
    exists|s: &str, reply: Option<Vec<T>>| #[trigger]
        call_ensures(parse, (s,), reply) && s@ == text && tokens_of(reply) == tokens
}

impl<T> GlitchFilter<T> {
    /// The filter's number in the command queue.
    pub fn id(&self) -> (id: u64)
        ensures
            id == self@.id,
    {
        self.id
    }

    /// The frame in work, in RGBA order without padding.
    pub fn buffer(&self) -> (buffer: &[u8])
        ensures
            buffer@ == self@.buffer,
    {
        self.buffer.as_slice()
    }

    /// The expressions that are applied to a frame.
    pub fn expressions(&self) -> (expressions: &[Expression<T>])
        ensures
            expressions_of(expressions@) == self@.expressions,
    {
        self.expressions.as_slice()
    }

    /// The seed of the filter's random numbers.
    pub fn seed(&self) -> (seed: u64)
        ensures
            seed == self@.seed,
    {
        self.seed
    }

    /// Whether the filter is switched on.
    pub fn enabled(&self) -> (enabled: bool)
        ensures
            enabled == self@.enabled,
    {
        self.enabled
    }

    /// How many frames the filter has made.
    pub fn frame_count(&self) -> (count: u64)
        ensures
            count == self@.frame_count,
    {
        self.frame_count
    }

    /// Every how many rendered frames the expressions are evaluated.
    pub fn process_interval(&self) -> (frames: u64)
        ensures
            frames == self@.process_interval,
    {
        self.process_interval
    }

    /// Sets every how many rendered frames the expressions are evaluated.
    pub fn set_process_interval(&mut self, frames: u64)
        requires
            frames > 0,
        ensures
            final(self)@ == (FilterView { process_interval: frames, ..old(self)@ }),
            old(self)@.valid() ==> final(self)@.valid(),
    {
        let ghost before = self@;
        self.process_interval = frames;
        assert(self@ =~= FilterView { process_interval: frames, ..before });
    }

    /// Makes a compiled expression the only one. Nothing changes where there are no tokens.
    pub fn install_expression(&mut self, expr: &str, tokens: Option<Vec<T>>)
        ensures
            final(self)@ == old(self)@.with_expression(expr@, tokens_of(tokens)),
            old(self)@.valid() ==> final(self)@.valid(),
    {
        let ghost before = self@;
        match tokens {
            Some(tokens) => {
                if tokens.len() > 0 {
                    let ghost parsed = tokens@;
                    let mut expressions: Vec<Expression<T>> = Vec::new();
                    expressions.push(
                        Expression { text: expr.to_string(), tokens: Arc::new(tokens) },
                    );
                    self.expressions = expressions;
                    assert(self@.expressions =~= seq![ExpressionView { text: expr@, tokens: parsed }]);
                }
            },
            None => {},
        }
    }

    /// Compiles an expression and makes it the only one. Where it does not compile, or
    /// compiles to nothing, the filter keeps what it has.
    pub fn set_expression<P>(&mut self, expr: &str, parse: &P) where P: Fn(&str) -> Option<Vec<T>>
        requires
            forall|s: &str| call_requires(*parse, (s,)),
        ensures
            exists|tokens: Option<Seq<T>>| #[trigger]
                compiles_to(*parse, expr@, tokens) && final(self)@ == old(self)@.with_expression(
                    expr@,
                    tokens,
                ),
            old(self)@.valid() ==> final(self)@.valid(),
    {
        let tokens: Option<Vec<T>> = parse(expr);
        assert(compiles_to(*parse, expr@, tokens_of(tokens)));
        self.install_expression(expr, tokens);
    }

    /// Takes over settings. Without settings nothing changes.
    pub fn update_settings<P>(&mut self, settings: Option<Settings>, parse: &P) where
        P: Fn(&str) -> Option<Vec<T>>,

        requires
            forall|s: &str| call_requires(*parse, (s,)),
        ensures
            match settings {
                Some(settings) => exists|tokens: Option<Seq<T>>| #[trigger]
                    settings_compile(*parse, settings@, tokens) && final(self)@
                        == old(self)@.with_settings(settings@, tokens),
                None => final(self)@ == old(self)@,
            },
            settings matches Some(settings) ==> {
                &&& final(self)@.enabled == settings.enabled
                &&& settings.seed >= 0 ==> final(self)@.seed == settings.seed
                &&& settings.seed < 0 ==> final(self)@.seed == 0x1_0000_0000_0000_0000
                    + settings.seed
                &&& final(self)@.frame_count == old(self)@.frame_count
            },
            old(self)@.valid() ==> final(self)@.valid(),
    {
        let ghost before = self@;
        match settings {
            Some(settings) => {
                let ghost shown = settings@;
                let ghost mut tokens: Option<Seq<T>> = None;
                match &settings.expression {
                    Some(text) => {
                        if !is_empty(text) {
                            let parsed: Option<Vec<T>> = parse(text.as_str());
                            proof {
                                tokens = tokens_of(parsed);
                                assert(compiles_to(*parse, text@, tokens));
                            }
                            self.install_expression(text.as_str(), parsed);
                        }
                    },
                    None => {},
                }
                self.enabled = settings.enabled;
                self.seed = to_unsigned(settings.seed);
                assert(settings_compile(*parse, shown, tokens));
                assert(self@ =~= before.with_settings(shown, tokens));
            },
            None => {},
        }
    }

    /// A filter with its first settings.
    pub fn new<P>(id: u64, settings: Option<Settings>, parse: &P) -> (filter: GlitchFilter<T>) where
        P: Fn(&str) -> Option<Vec<T>>,

        requires
            forall|s: &str| call_requires(*parse, (s,)),
        ensures
            filter@.valid(),
            match settings {
                Some(settings) => exists|tokens: Option<Seq<T>>| #[trigger]
                    settings_compile(*parse, settings@, tokens) && filter@
                        == FilterView::<T>::fresh(id).with_settings(settings@, tokens),
                None => filter@ == FilterView::<T>::fresh(id),
            },
            filter@.id == id,
            filter@.frame_count == 0,
            settings matches Some(settings) ==> filter@.enabled == settings.enabled,
            settings is None ==> filter@.enabled && filter@.seed == 42
                && filter@.expressions.len() == 0,
    {
        let mut filter = GlitchFilter {
            id,
            buffer: Vec::new(),
            process_buf: Vec::new(),
            expressions: Vec::new(),
            seed: 42,
            enabled: true,
            frame_count: 0,
            process_interval: RENDER_PROCESS_INTERVAL,
            saved_expressions: None,
            revert_at: None,
            published: None,
            texrender: false,
            stagesurface: false,
            output_texture: false,
            render_width: 0,
            render_height: 0,
            async_source: false,
        };
        assert(filter@ =~= FilterView::<T>::fresh(id));
        filter.update_settings(settings, parse);
        filter
    }

    /// Carries out a command, given what its expression compiled to and what the clock shows.
    pub fn apply_command(&mut self, command: Command, tokens: Option<Vec<T>>, now: u64)
        ensures
            final(self)@ == old(self)@.after_command(command@, tokens_of(tokens), now),
            old(self)@.valid() ==> final(self)@.valid(),
    {
        let ghost before = self@;
        match command {
            Command::SetExpression { expr, .. } => {
                self.saved_expressions = None;
                self.revert_at = None;
                assert(self@ =~= FilterView { saved: None, revert_at: None, ..before });
                self.install_expression(expr.as_str(), tokens);
            },
            Command::SetEnabled { enabled, .. } => {
                self.enabled = enabled;
                assert(self@ =~= FilterView { enabled, ..before });
            },
            Command::Pulse { expr, duration_ms, .. } => {
                if self.saved_expressions.is_none() {
                    self.saved_expressions = Some(copy_expressions(&self.expressions));
                }
                let deadline: u128 = now as u128 + duration_ms as u128 * NANOS_PER_MILLI;
                self.revert_at = Some(deadline);
                assert(self@ =~= FilterView {
                    saved: if before.saved is None {
                        Some(before.expressions)
                    } else {
                        before.saved
                    },
                    revert_at: Some(deadline),
                    ..before
                });
                self.install_expression(expr.as_str(), tokens);
            },
        }
    }

    /// Carries out commands in order.
    pub fn carry_out<P, C>(&mut self, commands: Vec<Command>, parse: &P, clock: &C) where
        P: Fn(&str) -> Option<Vec<T>>,
        C: Fn() -> u64,

        requires
            old(self)@.valid(),
            forall|s: &str| call_requires(*parse, (s,)),
            call_requires(*clock, ()),
        ensures
            final(self)@.valid(),
            carried_out(
                *parse,
                *clock,
                old(self)@,
                commands@.map_values(|c: Command| c@),
                final(self)@,
            ),
    {
        let ghost before = self@;
        let ghost views = commands@.map_values(|c: Command| c@);
        let ghost mut answers: Seq<Answer<T>> = Seq::empty();
        for command in it: commands
            invariant
                views == it.seq().map_values(|c: Command| c@),
                before.valid(),
                self@.valid(),
                forall|s: &str| call_requires(*parse, (s,)),
                call_requires(*clock, ()),
                all_answered(*parse, *clock, views.take(it.index() as int), answers),
                self@ == after_commands(before, views.take(it.index() as int), answers),
        {
            let ghost i = it.index() as int;
            let ghost shown = command@;
            let ghost answers_before = answers;
            proof {
                assert(shown == views[i]);
                assert(views.take(i + 1).drop_last() =~= views.take(i));
                assert(views.take(i + 1).last() == shown);
            }
            let mut now: u64 = 0;
            let tokens: Option<Vec<T>> = match &command {
                Command::SetExpression { expr, .. } => parse(expr.as_str()),
                Command::SetEnabled { .. } => None,
                Command::Pulse { expr, .. } => {
                    now = clock();
                    parse(expr.as_str())
                },
            };
            proof {
                let answer = Answer { tokens: tokens_of(tokens), now };
                assert(answered(*parse, *clock, shown, answer));
                answers = answers.push(answer);
                assert(answers.drop_last() =~= answers_before);
                assert forall|k: int| 0 <= k < views.take(i + 1).len() implies answered(
                    *parse,
                    *clock,
                    #[trigger] views.take(i + 1)[k],
                    answers[k],
                ) by {
                    if k < i {
                        assert(answered(*parse, *clock, views.take(i)[k], answers_before[k]));
                    }
                }
            }
            self.apply_command(command, tokens, now);
        }
        proof {
            assert(views.take(views.len() as int) =~= views);
        }
    }

    /// Takes the filter's commands out of the queue and carries them out in order.
    pub fn drain_commands<P, C>(
        &mut self,
        queue: &mut CommandQueue,
        source: &Option<String>,
        parse: &P,
        clock: &C,
    ) where P: Fn(&str) -> Option<Vec<T>>, C: Fn() -> u64
        requires
            old(self)@.valid(),
            old(queue)@.valid(),
            forall|s: &str| call_requires(*parse, (s,)),
            call_requires(*clock, ()),
        ensures
            final(self)@.valid(),
            final(queue)@.valid(),
            final(queue)@ == (QueueView {
                entries: left_commands(
                    old(queue)@.entries,
                    old(self)@.id,
                    text_of(*source),
                    old(queue)@.filters,
                ),
                ..old(queue)@
            }),
            carried_out(
                *parse,
                *clock,
                old(self)@,
                taken_commands(old(queue)@.entries, old(self)@.id, text_of(*source)),
                final(self)@,
            ),
    {
        let commands = queue.take(self.id, source);
        self.carry_out(commands, parse, clock);
    }

    /// Goes back to the saved expressions when the pulse has ended, and says whether it has.
    pub fn check_revert(&mut self, now: u64) -> (reverted: bool)
        requires
            old(self)@.valid(),
        ensures
            final(self)@ == old(self)@.after_revert(now),
            final(self)@.valid(),
            reverted == old(self)@.pulse_over(now),
    {
        let ghost before = self@;
        match self.revert_at {
            Some(deadline) => {
                if now as u128 >= deadline {
                    let mut saved: Option<Vec<Expression<T>>> = None;
                    std::mem::swap(&mut saved, &mut self.saved_expressions);
                    match saved {
                        Some(saved) => {
                            self.expressions = saved;
                        },
                        None => {},
                    }
                    self.revert_at = None;
                    assert(self@ =~= before.after_revert(now));
                    true
                } else {
                    false
                }
            },
            None => false,
        }
    }

    /// Shows the filter's state in the table, under the name of its source. What the filter
    /// itself showed under another name is taken out.
    pub fn update_snapshot(&mut self, source: &Option<String>, snapshots: &mut SnapshotTable)
        requires
            distinct_sources(old(snapshots)@),
        ensures
            final(self)@ == (FilterView {
                published: Some(shown_name(text_of(*source))),
                ..old(self)@
            }),
            final(snapshots)@ == shown_in(
                old(snapshots)@,
                old(self)@,
                shown_name(text_of(*source)),
            ),
            old(self)@.valid() ==> final(self)@.valid(),
            distinct_sources(final(snapshots)@),
    {
        let ghost before = self@;
        let name: String = match source {
            Some(name) => name.clone(),
            None => UNKNOWN_SOURCE.to_string(),
        };
        match &self.published {
            Some(published) => {
                if *published != name {
                    snapshots.remove(published, self.id);
                }
            },
            None => {},
        }
        let expression: String = if self.expressions.len() > 0 {
            self.expressions[0].text.clone()
        } else {
            String::new()
        };
        snapshots.insert(
            name.clone(),
            self.id,
            FilterSnapshot {
                expression,
                enabled: self.enabled,
                seed: self.seed,
                frame_count: self.frame_count,
            },
        );
        self.published = Some(name);
        assert(self@ =~= FilterView { published: Some(shown_name(text_of(*source))), ..before });
    }

    /// Takes the filter's state out of the table, when the filter goes. Where another filter
    /// has shown itself under the name since, that one's state stays.
    pub fn remove_snapshot(&self, snapshots: &mut SnapshotTable)
        requires
            distinct_sources(old(snapshots)@),
        ensures
            final(snapshots)@ == gone_from(old(snapshots)@, self@),
            distinct_sources(final(snapshots)@),
    {
        match &self.published {
            Some(name) => snapshots.remove(name, self.id),
            None => {},
        }
    }

    /// What comes before every frame, in this order: the filter's commands are carried out, a
    /// pulse that has ended is undone, and the filter shows itself in the table. Says whether a
    /// pulse has ended.
    pub fn begin_frame<P, C>(
        &mut self,
        commands: Vec<Command>,
        source: &Option<String>,
        snapshots: &mut SnapshotTable,
        parse: &P,
        clock: &C,
    ) -> (reverted: bool) where P: Fn(&str) -> Option<Vec<T>>, C: Fn() -> u64
        requires
            old(self)@.valid(),
            distinct_sources(old(snapshots)@),
            forall|s: &str| call_requires(*parse, (s,)),
            call_requires(*clock, ()),
        ensures
            exists|now: u64, mid: FilterView<T>|
                #![trigger call_ensures(*clock, (), now), mid.after_revert(now)]
                {
                    &&& call_ensures(*clock, (), now)
                    &&& carried_out(
                        *parse,
                        *clock,
                        old(self)@,
                        commands@.map_values(|c: Command| c@),
                        mid,
                    )
                    &&& frame_begun(
                        mid.after_revert(now),
                        shown_name(text_of(*source)),
                        old(snapshots)@,
                        final(self)@,
                        final(snapshots)@,
                    )
                    &&& reverted == mid.pulse_over(now)
                },
            final(self)@.valid(),
            distinct_sources(final(snapshots)@),
    {
        self.carry_out(commands, parse, clock);
        let ghost mid = self@;
        let now: u64 = clock();
        let reverted: bool = self.check_revert(now);
        self.update_snapshot(source, snapshots);
        assert(call_ensures(*clock, (), now));
        assert(frame_begun(
            mid.after_revert(now),
            shown_name(text_of(*source)),
            old(snapshots)@,
            self@,
            snapshots@,
        ));
        reverted
    }
}

/// A filter has shown itself, as it now is, in the table, and is ready for a frame.
pub open spec fn frame_begun<T>(
    filter: FilterView<T>,
    name: Seq<char>,
    entries: Seq<SourceView>,
    after: FilterView<T>,
    entries_after: Seq<SourceView>,
) -> bool {
    &&& after == (FilterView { published: Some(name), ..filter })
    &&& entries_after == shown_in(entries, filter, name)
}

/// Whether a string is empty.
pub fn is_empty(text: &String) -> (empty: bool)
    ensures
        empty == (text@.len() == 0),
{
    let nothing = String::new();
    proof {
        if text@.len() == 0 {
            assert(text@ =~= nothing@);
        }
    }
    *text == nothing
}

/// The compiler can turn the expression in the settings into `tokens`, if there is one to
/// compile.
pub open spec fn settings_compile<T, P>(
    parse: P,
    settings: SettingsView,
    tokens: Option<Seq<T>>,
) -> bool where P: Fn(&str) -> Option<Vec<T>> {
    match settings.expression {
        Some(text) => text.len() > 0 ==> compiles_to(parse, text, tokens),
        None => true,
    }
}

impl<T> FilterView<T> {
    /// A filter without settings.
    pub open spec fn fresh(id: u64) -> FilterView<T> {
        FilterView {
            id,
            buffer: Seq::empty(),
            expressions: Seq::empty(),
            seed: 42,
            enabled: true,
            frame_count: 0,
            process_interval: RENDER_PROCESS_INTERVAL,
            saved: None,
            revert_at: None,
            published: None,
            texrender: false,
            stagesurface: false,
            output_texture: false,
            render_width: 0,
            render_height: 0,
            async_source: false,
        }
    }
}

/// What a command was answered: the tokens of its expression, and the time.
pub struct Answer<T> {
    pub tokens: Option<Seq<T>>,
    pub now: u64,
}

/// The compiler and the clock can give this answer to a command.
pub open spec fn answered<T, P, C>(
    parse: P,
    clock: C,
    command: CommandView,
    answer: Answer<T>,
) -> bool where P: Fn(&str) -> Option<Vec<T>>, C: Fn() -> u64 {
    match command {
        CommandView::SetExpression { expr, .. } => compiles_to(parse, expr, answer.tokens),
        CommandView::SetEnabled { .. } => true,
        CommandView::Pulse { expr, .. } => compiles_to(parse, expr, answer.tokens) && call_ensures(
            clock,
            (),
            answer.now,
        ),
    }
}

/// The compiler and the clock can give these answers to the commands.
pub open spec fn all_answered<T, P, C>(
    parse: P,
    clock: C,
    commands: Seq<CommandView>,
    answers: Seq<Answer<T>>,
) -> bool where P: Fn(&str) -> Option<Vec<T>>, C: Fn() -> u64 {
    &&& answers.len() == commands.len()
    &&& forall|i: int|
        0 <= i < commands.len() ==> answered(parse, clock, #[trigger] commands[i], answers[i])
}

/// A filter after commands, one by one.
pub open spec fn after_commands<T>(
    filter: FilterView<T>,
    commands: Seq<CommandView>,
    answers: Seq<Answer<T>>,
) -> FilterView<T>
    decreases commands.len(),
{
    if commands.len() == 0 {
        filter
    } else {
        after_commands(filter, commands.drop_last(), answers.drop_last()).after_command(
            commands.last(),
            answers.last().tokens,
            answers.last().now,
        )
    }
}

/// The filter can come to be `after` by carrying out the commands.
pub open spec fn carried_out<T, P, C>(
    parse: P,
    clock: C,
    before: FilterView<T>,
    commands: Seq<CommandView>,
    after: FilterView<T>,
) -> bool where P: Fn(&str) -> Option<Vec<T>>, C: Fn() -> u64 {
    exists|answers: Seq<Answer<T>>| #[trigger]
        all_answered(parse, clock, commands, answers) && after == after_commands(
            before,
            commands,
            answers,
        )
}

/// The name under which a filter on the given source shows itself.
pub open spec fn shown_name(source: Option<Seq<char>>) -> Seq<char> {
    match source {
        Some(name) => name,
        None => UNKNOWN_SOURCE@,
    }
}

/// The table after a filter has shown itself under a name: what it showed under another name
/// is gone, and what other filters show under other names stays.
pub open spec fn shown_in<T>(
    entries: Seq<SourceView>,
    filter: FilterView<T>,
    name: Seq<char>,
) -> Seq<SourceView> {
    let kept = match filter.published {
        Some(old_name) => if old_name != name {
            removed(entries, old_name, filter.id)
        } else {
            entries
        },
        None => entries,
    };
    inserted(
        kept,
        SourceView { source: name, shown_by: filter.id, snapshot: filter.snapshot() },
    )
}

/// The table after a filter has gone.
pub open spec fn gone_from<T>(entries: Seq<SourceView>, filter: FilterView<T>) -> Seq<SourceView> {
    match filter.published {
        Some(name) => removed(entries, name, filter.id),
        None => entries,
    }
}

impl Default for Settings {
    /// The settings of a filter that nobody has changed.
    fn default() -> (settings: Settings)
        ensures
            settings@ == (SettingsView {
                expression: Some("(c & (c ^ 55)) + 25"@),
                enabled: true,
                seed: 42,
            }),
    {
        Settings { expression: Some("(c & (c ^ 55)) + 25".to_string()), enabled: true, seed: 42 }
    }
}

/// Settings, commands and the clock keep a filter valid.
pub proof fn law_filter_stays_valid<T>(
    filter: FilterView<T>,
    settings: SettingsView,
    command: CommandView,
    tokens: Option<Seq<T>>,
    now: u64,
)
    requires
        filter.valid(),
    ensures
        filter.with_settings(settings, tokens).valid(),
        filter.after_command(command, tokens, now).valid(),
        filter.after_revert(now).valid(),
{
}

/// An expression that does not compile, or compiles to nothing, changes no expression: neither
/// in the settings nor in a command.
pub proof fn law_bad_expression_is_ignored<T>(
    filter: FilterView<T>,
    settings: SettingsView,
    command: CommandView,
    tokens: Option<Seq<T>>,
    now: u64,
)
    requires
        tokens matches Some(t) ==> t.len() == 0,
    ensures
        filter.with_settings(settings, tokens).expressions == filter.expressions,
        filter.after_command(command, tokens, now).expressions == filter.expressions,
{
}

/// A pulse undoes itself: when its time has come the filter is what it was before the pulse,
/// and until then it is what the pulse made of it.
pub proof fn law_pulse_reverts<T>(
    filter: FilterView<T>,
    target: Option<Seq<char>>,
    expr: Seq<char>,
    duration_ms: u64,
    tokens: Option<Seq<T>>,
    now: u64,
    later: u64,
)
    requires
        filter.valid(),
        filter.saved is None,
    ensures
        ({
            let pulsed = filter.after_command(
                CommandView::Pulse { target, expr, duration_ms },
                tokens,
                now,
            );
            &&& later >= now + duration_ms * NANOS_PER_MILLI ==> pulsed.after_revert(later)
                == filter
            &&& later < now + duration_ms * NANOS_PER_MILLI ==> pulsed.after_revert(later)
                == pulsed
        }),
{
}

/// However many pulses follow each other, and whether the filter is switched on or off in
/// between, the end of the last one brings the first expressions back.
pub proof fn law_pulses_revert_to_first<T>(
    filter: FilterView<T>,
    commands: Seq<CommandView>,
    answers: Seq<Answer<T>>,
    later: u64,
)
    requires
        filter.valid(),
        filter.saved is None,
        answers.len() == commands.len(),
        forall|i: int| 0 <= i < commands.len() ==> !((#[trigger] commands[i]) is SetExpression),
    ensures
        ({
            let after = after_commands(filter, commands, answers);
            &&& after.valid()
            &&& after.saved is Some ==> after.saved == Some(filter.expressions)
            &&& after.saved is None ==> after.expressions == filter.expressions
            &&& after.revert_at matches Some(deadline) ==> later >= deadline ==> after.after_revert(
                later,
            ).expressions == filter.expressions
        }),
    decreases commands.len(),
{
    if commands.len() > 0 {
        let fewer = commands.drop_last();
        assert forall|i: int| 0 <= i < fewer.len() implies !((#[trigger] fewer[i]) is SetExpression) by {
            assert(!(commands[i] is SetExpression));
        }
        law_pulses_revert_to_first(filter, fewer, answers.drop_last(), later);
        let command = commands[commands.len() - 1];
        assert(!(command is SetExpression));
    }
}

/// Setting the expression is for good: it ends a pulse, and nothing is undone afterwards.
pub proof fn law_set_expression_is_permanent<T>(
    filter: FilterView<T>,
    target: Option<Seq<char>>,
    expr: Seq<char>,
    tokens: Option<Seq<T>>,
    now: u64,
    later: u64,
)
    ensures
        ({
            let after = filter.after_command(
                CommandView::SetExpression { target, expr },
                tokens,
                now,
            );
            &&& after.after_revert(later) == after
            &&& tokens matches Some(t) ==> t.len() > 0 ==> after.expressions
                == seq![ExpressionView { text: expr, tokens: t }]
        }),
{
}

/// A filter that has shown itself is found under its source's name as it is, what it showed
/// under another name is gone, and all else is as before: also what another filter has shown
/// under that other name since.
pub proof fn law_shown_filter_is_found<T>(
    filter: FilterView<T>,
    entries: Seq<SourceView>,
    name: Seq<char>,
    other: Seq<char>,
)
    requires
        distinct_sources(entries),
    ensures
        ({
            let after = shown_in(entries, filter, name);
            &&& distinct_sources(after)
            &&& lookup(after, name) == Some(filter.snapshot())
            &&& shown_by(after, name) == Some(filter.id)
            &&& other != name ==> lookup(after, other) == if filter.published == Some(other)
                && shown_by(entries, other) == Some(filter.id) {
                None
            } else {
                lookup(entries, other)
            }
        }),
{
    let entry = SourceView { source: name, shown_by: filter.id, snapshot: filter.snapshot() };
    match filter.published {
        Some(old_name) => {
            if old_name != name {
                law_removed_is_not_found(entries, old_name, filter.id, other);
                law_inserted_is_found(removed(entries, old_name, filter.id), entry, other);
            } else {
                law_inserted_is_found(entries, entry, other);
            }
        },
        None => {
            law_inserted_is_found(entries, entry, other);
        },
    }
}

/// A filter that goes leaves nothing behind: its source is not listed any more.
pub proof fn law_gone_filter_is_not_found<T>(
    filter: FilterView<T>,
    entries: Seq<SourceView>,
    name: Seq<char>,
)
    requires
        distinct_sources(entries),
    ensures
        ({
            let shown = shown_in(entries, filter, name);
            let after = FilterView { published: Some(name), ..filter };
            lookup(gone_from(shown, after), name) is None
        }),
{
    law_shown_filter_is_found(filter, entries, name, name);
    law_removed_is_not_found(shown_in(entries, filter, name), name, filter.id, name);
}

/// What a filter shows is nobody else's to take out: another filter that shows itself under
/// another name, or goes, leaves it as it is, whatever names that one has had.
pub proof fn law_other_filters_stay_listed<T>(
    filter: FilterView<T>,
    entries: Seq<SourceView>,
    name: Seq<char>,
    other_id: u64,
    other: Seq<char>,
)
    requires
        distinct_sources(entries),
        shown_by(entries, other) == Some(other_id),
        other_id != filter.id,
    ensures
        other != name ==> lookup(shown_in(entries, filter, name), other) == lookup(entries, other),
        other != name ==> shown_by(shown_in(entries, filter, name), other) == Some(other_id),
        lookup(gone_from(entries, filter), other) == lookup(entries, other),
        shown_by(gone_from(entries, filter), other) == Some(other_id),
{
    let entry = SourceView { source: name, shown_by: filter.id, snapshot: filter.snapshot() };
    law_shown_filter_is_found(filter, entries, name, other);
    match filter.published {
        Some(old_name) => {
            law_removed_is_not_found(entries, old_name, filter.id, other);
            if old_name != name {
                law_inserted_is_found(removed(entries, old_name, filter.id), entry, other);
            } else {
                law_inserted_is_found(entries, entry, other);
            }
        },
        None => {
            law_inserted_is_found(entries, entry, other);
        },
    }
}

/// Commands touch nothing but the expressions, the pulse and the switch.
pub proof fn lemma_commands_keep<T>(
    filter: FilterView<T>,
    commands: Seq<CommandView>,
    answers: Seq<Answer<T>>,
)
    ensures
        ({
            let after = after_commands(filter, commands, answers);
            after == (FilterView {
                expressions: after.expressions,
                saved: after.saved,
                revert_at: after.revert_at,
                enabled: after.enabled,
                ..filter
            })
        }),
    decreases commands.len(),
{
    if commands.len() > 0 {
        lemma_commands_keep(filter, commands.drop_last(), answers.drop_last());
    }
}

/// Commands that wait for a filter act on the very frame that they wait before, and show in
/// the snapshot of that frame, which does not count the frame itself: a filter that the last of
/// them switches on or off is so for this frame.
pub proof fn law_commands_act_on_this_frame<T, P, C>(
    parse: P,
    clock: C,
    before: FilterView<T>,
    commands: Seq<CommandView>,
    mid: FilterView<T>,
    now: u64,
    name: Seq<char>,
    entries: Seq<SourceView>,
    after: FilterView<T>,
    entries_after: Seq<SourceView>,
) where P: Fn(&str) -> Option<Vec<T>>, C: Fn() -> u64
    requires
        distinct_sources(entries),
        carried_out(parse, clock, before, commands, mid),
        frame_begun(mid.after_revert(now), name, entries, after, entries_after),
    ensures
        lookup(entries_after, name) == Some(after.snapshot()),
        after.snapshot().frame_count == before.frame_count,
        after.seed == before.seed,
        after.enabled == mid.enabled,
        commands.len() == 0 ==> mid == before,
        commands.len() > 0 ==> (commands.last() matches CommandView::SetEnabled { enabled, .. }
            ==> after.enabled == enabled),
{
    let answers = choose|answers: Seq<Answer<T>>| #[trigger]
        all_answered(parse, clock, commands, answers) && mid == after_commands(
            before,
            commands,
            answers,
        );
    lemma_commands_keep(before, commands, answers);
    law_shown_filter_is_found(mid.after_revert(now), entries, name, name);
}

/// Expressions, their tokens and settings show what they hold.
pub proof fn law_expressions_show_what_they_hold<T>(
    expressions: Seq<Expression<T>>,
    i: int,
    tokens: Vec<T>,
    settings: Settings,
)
    requires
        0 <= i < expressions.len(),
    ensures
        expressions_of(expressions).len() == expressions.len(),
        expressions_of(expressions)[i].text == expressions[i].text@,
        expressions_of(expressions)[i].tokens == expressions[i].tokens@,
        tokens_of(Some(tokens)) == Some(tokens@),
        tokens_of(None::<Vec<T>>) is None,
        settings@.expression == text_of(settings.expression),
        settings@.enabled == settings.enabled,
        settings@.seed == settings.seed,
{
}

/// A new filter has no expression and no pulse, is switched on with seed 42, has made no frame,
/// evaluates every second frame, has shown itself nowhere, and holds nothing.
pub proof fn law_new_filter_is_bare<T>(id: u64)
    ensures
        ({
            let filter = FilterView::<T>::fresh(id);
            &&& filter.id == id
            &&& filter.expressions.len() == 0 && filter.saved is None && filter.revert_at is None
            &&& filter.enabled && filter.seed == 42 && filter.frame_count == 0
            &&& filter.process_interval == 2
            &&& filter.published is None && filter.buffer.len() == 0
            &&& !filter.texrender && !filter.stagesurface && !filter.output_texture
            &&& filter.render_width == 0 && filter.render_height == 0
            &&& !filter.async_source
        }),
{
}

/// A signed number keeps its 64 bits.
pub proof fn law_signed_number_keeps_its_bits(value: i64)
    ensures
        value >= 0 ==> unsigned(value) == value,
        value < 0 ==> unsigned(value) == 0x1_0000_0000_0000_0000 + value,
{
}

/// A compiled expression becomes the only one where it has tokens, and changes nothing where it
/// has none or did not compile. It changes nothing else in either case.
pub proof fn law_compiled_expression_is_the_only_one<T>(
    filter: FilterView<T>,
    text: Seq<char>,
    tokens: Seq<T>,
)
    ensures
        tokens.len() > 0 ==> filter.with_expression(text, Some(tokens)) == (FilterView {
            expressions: seq![ExpressionView { text, tokens }],
            ..filter
        }),
        tokens.len() == 0 ==> filter.with_expression(text, Some(tokens)) == filter,
        filter.with_expression(text, None) == filter,
{
}

/// Settings take effect whatever the filter was before: it is switched as they say and has their
/// seed, bit for bit. Their expression, if there is one to compile and it has tokens, is the
/// filter's only one; without one the filter keeps what it has. All else stays.
pub proof fn law_settings_take_effect<T>(
    filter: FilterView<T>,
    settings: SettingsView,
    tokens: Option<Seq<T>>,
)
    ensures
        ({
            let after = filter.with_settings(settings, tokens);
            &&& after.enabled == settings.enabled
            &&& settings.seed >= 0 ==> after.seed == settings.seed
            &&& settings.seed < 0 ==> after.seed == 0x1_0000_0000_0000_0000 + settings.seed
            &&& match (settings.expression, tokens) {
                (Some(text), Some(t)) => after.expressions == if text.len() > 0 && t.len() > 0 {
                    seq![ExpressionView { text, tokens: t }]
                } else {
                    filter.expressions
                },
                _ => after.expressions == filter.expressions,
            }
            &&& after == (FilterView {
                enabled: after.enabled,
                seed: after.seed,
                expressions: after.expressions,
                ..filter
            })
        }),
{
}

/// Of two settings the later ones count: the switch and the seed of the earlier ones leave no
/// trace, nor does their expression where the later ones have one that compiles.
pub proof fn law_later_settings_count<T>(
    filter: FilterView<T>,
    earlier: SettingsView,
    earlier_tokens: Option<Seq<T>>,
    later: SettingsView,
    tokens: Seq<T>,
)
    requires
        later.expression matches Some(text) && text.len() > 0,
        tokens.len() > 0,
    ensures
        filter.with_settings(earlier, earlier_tokens).with_settings(later, Some(tokens))
            == filter.with_settings(later, Some(tokens)),
{
    assert(filter.with_settings(earlier, earlier_tokens).with_settings(later, Some(tokens))
        =~= filter.with_settings(later, Some(tokens)));
}

/// A pulse, whatever source it names, shows its expression at once where that compiled to
/// tokens, ends its number of milliseconds after now, and remembers what to go back to: the
/// expressions before it, or before the pulse that it comes into. It changes nothing else.
pub proof fn law_pulse_shows_its_expression<T>(
    filter: FilterView<T>,
    target: Option<Seq<char>>,
    expr: Seq<char>,
    duration_ms: u64,
    tokens: Option<Seq<T>>,
    now: u64,
)
    ensures
        ({
            let after = filter.after_command(
                CommandView::Pulse { target, expr, duration_ms },
                tokens,
                now,
            );
            &&& match tokens {
                Some(t) => after.expressions == if t.len() > 0 {
                    seq![ExpressionView { text: expr, tokens: t }]
                } else {
                    filter.expressions
                },
                None => after.expressions == filter.expressions,
            }
            &&& after.revert_at matches Some(deadline) && deadline == now + duration_ms
                * 1_000_000
            &&& after.saved == match filter.saved {
                Some(saved) => Some(saved),
                None => Some(filter.expressions),
            }
            &&& after == (FilterView {
                expressions: after.expressions,
                revert_at: after.revert_at,
                saved: after.saved,
                ..filter
            })
        }),
{
}

/// Setting the expression, whatever source it names, shows it where it compiled to tokens, and
/// ends a pulse in any case. It changes nothing else.
pub proof fn law_set_expression_shows_its_expression<T>(
    filter: FilterView<T>,
    target: Option<Seq<char>>,
    expr: Seq<char>,
    tokens: Option<Seq<T>>,
    now: u64,
)
    ensures
        ({
            let after = filter.after_command(
                CommandView::SetExpression { target, expr },
                tokens,
                now,
            );
            &&& match tokens {
                Some(t) => after.expressions == if t.len() > 0 {
                    seq![ExpressionView { text: expr, tokens: t }]
                } else {
                    filter.expressions
                },
                None => after.expressions == filter.expressions,
            }
            &&& after == (FilterView {
                expressions: after.expressions,
                revert_at: None,
                saved: None,
                ..filter
            })
        }),
{
}

/// Switching a filter, whatever source it names, sets the switch and nothing else.
pub proof fn law_set_enabled_sets_the_switch<T>(
    filter: FilterView<T>,
    target: Option<Seq<char>>,
    enabled: bool,
    tokens: Option<Seq<T>>,
    now: u64,
)
    ensures
        filter.after_command(CommandView::SetEnabled { target, enabled }, tokens, now) == (
        FilterView { enabled, ..filter }),
{
}

/// When the clock has reached the end of a pulse, the expressions to go back to are there again
/// and the pulse is forgotten; before that, and without a pulse, nothing changes.
pub proof fn law_clock_ends_pulse<T>(
    filter: FilterView<T>,
    saved: Seq<ExpressionView<T>>,
    deadline: u128,
    now: u64,
)
    ensures
        filter.revert_at is None ==> {
            &&& filter.after_revert(now) == filter
            &&& !filter.pulse_over(now)
        },
        filter.revert_at == Some(deadline) ==> {
            &&& filter.pulse_over(now) <==> now >= deadline
            &&& now < deadline ==> filter.after_revert(now) == filter
            &&& now >= deadline && filter.saved == Some(saved) ==> filter.after_revert(now) == (
            FilterView { expressions: saved, saved: None, revert_at: None, ..filter })
        },
{
}

/// A filter shows the text of its first expression, or an empty one, and its switch, seed and
/// frame count as they are.
pub proof fn law_filter_shows_its_state<T>(filter: FilterView<T>)
    ensures
        filter.expressions.len() > 0 ==> filter.snapshot().expression
            == filter.expressions[0].text,
        filter.expressions.len() == 0 ==> filter.snapshot().expression.len() == 0,
        filter.snapshot().enabled == filter.enabled,
        filter.snapshot().seed == filter.seed,
        filter.snapshot().frame_count == filter.frame_count,
{
}

/// A filter shows itself under its source's name, and as "unknown" without a source.
pub proof fn law_filter_shows_itself_under_its_source(name: Seq<char>)
    ensures
        shown_name(Some(name)) == name,
        shown_name(None) == "unknown"@,
{
}

/// What the table becomes when a filter shows itself or goes: its own entry under a name that it
/// has left is taken out, and its entry under the new name is put in.
pub proof fn law_shown_filter_has_one_entry<T>(
    filter: FilterView<T>,
    entries: Seq<SourceView>,
    name: Seq<char>,
    old_name: Seq<char>,
)
    ensures
        ({
            let entry = SourceView {
                source: name,
                shown_by: filter.id,
                snapshot: filter.snapshot(),
            };
            &&& filter.published is None || filter.published == Some(name) ==> shown_in(
                entries,
                filter,
                name,
            ) == inserted(entries, entry)
            &&& filter.published == Some(old_name) && old_name != name ==> shown_in(
                entries,
                filter,
                name,
            ) == inserted(removed(entries, old_name, filter.id), entry)
        }),
        filter.published is None ==> gone_from(entries, filter) == entries,
        filter.published == Some(old_name) ==> gone_from(entries, filter) == removed(
            entries,
            old_name,
            filter.id,
        ),
{
}

/// A frame is begun with the filter as it is, but for the name that it has now shown itself
/// under, and with what the table becomes by that.
pub proof fn law_begun_frame_keeps_the_filter<T>(
    filter: FilterView<T>,
    name: Seq<char>,
    entries: Seq<SourceView>,
    after: FilterView<T>,
    entries_after: Seq<SourceView>,
)
    requires
        frame_begun(filter, name, entries, after, entries_after),
    ensures
        after.published == Some(name),
        after == (FilterView { published: after.published, ..filter }),
        entries_after == shown_in(entries, filter, name),
{
}

/// What an expression compiled to was replied by the compiler, asked about that very text.
pub proof fn law_tokens_come_from_the_compiler<T, P>(
    parse: P,
    text: Seq<char>,
    tokens: Option<Seq<T>>,
) -> (asked: (&'static str, Option<Vec<T>>)) where P: Fn(&str) -> Option<Vec<T>>
    requires
        compiles_to(parse, text, tokens),
    ensures
        call_ensures(parse, (asked.0,), asked.1),
        asked.0@ == text,
        tokens_of(asked.1) == tokens,
{
    let (s, reply): (&'static str, Option<Vec<T>>) = choose|s: &'static str, reply: Option<Vec<T>>|
        #[trigger]
        call_ensures(parse, (s,), reply) && s@ == text && tokens_of(reply) == tokens;
    (s, reply)
}

/// The compiler is asked about the expression in settings, unless that is absent or empty.
pub proof fn law_settings_are_compiled<T, P>(
    parse: P,
    settings: SettingsView,
    tokens: Option<Seq<T>>,
    text: Seq<char>,
) where P: Fn(&str) -> Option<Vec<T>>
    requires
        settings_compile(parse, settings, tokens),
        settings.expression == Some(text),
        text.len() > 0,
    ensures
        compiles_to(parse, text, tokens),
{
}

/// Commands are carried out one by one, each of them, in order: without commands the filter
/// stays, and a further command acts on what those before it made. For an expression the
/// compiler is asked, and for a pulse the clock.
pub proof fn law_commands_are_carried_out_one_by_one<T, P, C>(
    parse: P,
    clock: C,
    before: FilterView<T>,
    commands: Seq<CommandView>,
    command: CommandView,
    after: FilterView<T>,
) -> (step: (FilterView<T>, Option<Seq<T>>, u64)) where
    P: Fn(&str) -> Option<Vec<T>>,
    C: Fn() -> u64,

    requires
        carried_out(parse, clock, before, commands.push(command), after),
    ensures
        carried_out(parse, clock, before, commands, step.0),
        after == step.0.after_command(command, step.1, step.2),
        command matches CommandView::SetExpression { expr, .. } ==> compiles_to(
            parse,
            expr,
            step.1,
        ),
        command matches CommandView::Pulse { expr, .. } ==> compiles_to(parse, expr, step.1)
            && call_ensures(clock, (), step.2),
{
    let all = commands.push(command);
    let answers = choose|answers: Seq<Answer<T>>| #[trigger]
        all_answered(parse, clock, all, answers) && after == after_commands(before, all, answers);
    let fewer = answers.drop_last();
    assert(all.drop_last() =~= commands);
    assert(all.last() == command);
    assert forall|i: int| 0 <= i < commands.len() implies answered(
        parse,
        clock,
        #[trigger] commands[i],
        fewer[i],
    ) by {
        assert(answered(parse, clock, all[i], answers[i]));
    }
    assert(all_answered(parse, clock, commands, fewer));
    assert(answered(parse, clock, all[all.len() - 1], answers[all.len() - 1]));
    (after_commands(before, commands, fewer), answers.last().tokens, answers.last().now)
}

/// Without commands a filter stays as it is.
pub proof fn law_no_commands_keep_the_filter<T, P, C>(
    parse: P,
    clock: C,
    before: FilterView<T>,
    after: FilterView<T>,
) where P: Fn(&str) -> Option<Vec<T>>, C: Fn() -> u64
    requires
        carried_out(parse, clock, before, Seq::<CommandView>::empty(), after),
    ensures
        after == before,
{
}

}
