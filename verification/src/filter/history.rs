//! What holds of a filter over its whole life.

use crate::command::CommandView;
use crate::filter::render::{render_of, RenderStep};
use crate::filter::video::FrameInfo;
use crate::filter::{compiles_to, settings_compile};
use crate::filter::{ExpressionView, FilterView, SettingsView};
use vstd::prelude::*;

verus! {

/// What can happen to a filter.
pub enum Event<T> {
    /// It takes over settings, given what their expression compiled to.
    Settings { settings: SettingsView, tokens: Option<Seq<T>> },
    /// It is given an expression, and what that compiled to.
    Expression { text: Seq<char>, tokens: Option<Seq<T>> },
    /// It carries out a command, given what that one's expression compiled to and the time.
    Command { command: CommandView, tokens: Option<Seq<T>>, now: u64 },
    /// It looks at the clock.
    Clock { now: u64 },
    /// It shows itself under a name.
    Shown { name: Seq<char> },
    /// It is told how often to evaluate.
    Interval { frames: u64 },
    /// Pixels come into its buffer, or are processed there.
    Pixels { pixels: Seq<u8> },
    /// It goes on with a render, and makes pixels where its expressions are applied.
    Step { step: RenderStep, ok: bool, made: Seq<u8> },
    /// It gets a frame of an asynchronous source, of which it makes pixels.
    Frame { info: FrameInfo, pixels: Seq<u8> },
}

impl<T> Event<T> {
    /// Whether the tokens of the event are what the compiler can make of its expression, if it
    /// has one.
    pub open spec fn compiles<P>(self, parse: P) -> bool where P: Fn(&str) -> Option<Vec<T>> {
        match self {
            Event::Settings { settings, tokens } => settings_compile(parse, settings, tokens),
            Event::Expression { text, tokens } => compiles_to(parse, text, tokens),
            Event::Command { command, tokens, .. } => match command {
                CommandView::SetExpression { expr, .. } => compiles_to(parse, expr, tokens),
                CommandView::SetEnabled { .. } => true,
                CommandView::Pulse { expr, .. } => compiles_to(parse, expr, tokens),
            },
            _ => true,
        }
    }
}

/// Expressions are what the compiler can make of their texts.
pub open spec fn expressions_compiled<T, P>(
    parse: P,
    expressions: Seq<ExpressionView<T>>,
) -> bool where P: Fn(&str) -> Option<Vec<T>> {
    forall|i: int|
        0 <= i < expressions.len() ==> compiles_to(
            parse,
            (#[trigger] expressions[i]).text,
            Some(expressions[i].tokens),
        )
}

impl<T> FilterView<T> {
    /// The filter after something has happened to it.
    pub open spec fn after_event(self, event: Event<T>) -> FilterView<T> {
        match event {
            Event::Settings { settings, tokens } => self.with_settings(settings, tokens),
            Event::Expression { text, tokens } => self.with_expression(text, tokens),
            Event::Command { command, tokens, now } => self.after_command(command, tokens, now),
            Event::Clock { now } => self.after_revert(now),
            Event::Shown { name } => FilterView { published: Some(name), ..self },
            Event::Interval { frames } => FilterView { process_interval: frames, ..self },
            Event::Pixels { pixels } => FilterView { buffer: pixels, ..self },
            Event::Step { step, ok, made } => self.after_step(step, ok, made).0,
            Event::Frame { info, pixels } => self.after_frame(info, pixels),
        }
    }

    /// Whether the expressions, and those to go back to, are what the compiler can make of
    /// their texts.
    pub open spec fn compiled<P>(self, parse: P) -> bool where P: Fn(&str) -> Option<Vec<T>> {
        &&& expressions_compiled(parse, self.expressions)
        &&& self.saved matches Some(saved) ==> expressions_compiled(parse, saved)
    }
}

/// A filter after events, one by one.
pub open spec fn after_events<T>(filter: FilterView<T>, events: Seq<Event<T>>) -> FilterView<T>
    decreases events.len(),
{
    if events.len() == 0 {
        filter
    } else {
        after_events(filter, events.drop_last()).after_event(events.last())
    }
}

/// One event keeps the expressions valid and compiled.
proof fn lemma_event_keeps_compiled<T, P>(
    parse: P,
    filter: FilterView<T>,
    event: Event<T>,
) where P: Fn(&str) -> Option<Vec<T>>
    requires
        filter.valid(),
        filter.compiled(parse),
        event.compiles(parse),
        event matches Event::Interval { frames } ==> frames > 0,
    ensures
        filter.after_event(event).valid(),
        filter.after_event(event).compiled(parse),
{
}

/// Whatever happens to a new filter, it has at most one expression, also to go back to, and
/// each has tokens, which are what the compiler made of its text.
pub proof fn law_expressions_are_compiled<T, P>(
    parse: P,
    id: u64,
    events: Seq<Event<T>>,
) where P: Fn(&str) -> Option<Vec<T>>
    requires
        forall|i: int| 0 <= i < events.len() ==> (#[trigger] events[i]).compiles(parse),
        forall|i: int|
            0 <= i < events.len() ==> ((#[trigger] events[i]) matches Event::Interval { frames }
                ==> frames > 0),
    ensures
        after_events(FilterView::<T>::fresh(id), events).valid(),
        after_events(FilterView::<T>::fresh(id), events).compiled(parse),
    decreases events.len(),
{
    if events.len() > 0 {
        let fewer = events.drop_last();
        let last = events[events.len() - 1];
        assert forall|i: int| 0 <= i < fewer.len() implies (#[trigger] fewer[i]).compiles(
            parse,
        ) by {
            assert(events[i].compiles(parse));
        }
        assert forall|i: int| 0 <= i < fewer.len() implies ((
        #[trigger] fewer[i]) matches Event::Interval { frames } ==> frames > 0) by {
            assert(fewer[i] == events[i]);
        }
        law_expressions_are_compiled(parse, id, fewer);
        lemma_event_keeps_compiled(parse, after_events(FilterView::<T>::fresh(id), fewer), last);
    }
}

/// A filter with an expression loses it only at the end of a pulse that was to go back to none,
/// and a pulse is to go back to none only where it began without an expression.
pub proof fn law_expression_is_lost_only_by_revert<T>(filter: FilterView<T>, event: Event<T>)
    requires
        filter.valid(),
        filter.expressions.len() > 0,
    ensures
        filter.after_event(event).expressions.len() == 0 ==> {
            &&& event matches Event::Clock { now } && filter.pulse_over(now)
            &&& filter.saved == Some(Seq::<ExpressionView<T>>::empty())
        },
        filter.after_event(event).saved matches Some(saved) ==> saved.len() == 0 ==> filter.saved
            == Some(saved),
{
    if filter.after_event(event).expressions.len() == 0 {
        assert(filter.saved->0 =~= Seq::<ExpressionView<T>>::empty());
    }
}

/// Once a frame has come from an asynchronous source, whatever became of it and whatever
/// happens afterwards, every render passes the source through: it shows it unfiltered, does
/// nothing else, and leaves the filter as it is.
pub proof fn law_asynchronous_source_passes_through<T>(
    filter: FilterView<T>,
    info: FrameInfo,
    pixels: Seq<u8>,
    events: Seq<Event<T>>,
    target: Option<(u32, u32)>,
    ok: spec_fn(RenderStep) -> bool,
    loaded: Seq<u8>,
    made: Seq<u8>,
)
    ensures
        ({
            let later = after_events(filter.after_frame(info, pixels), events);
            &&& later.async_source
            &&& later.first_step(target) is Skip
            &&& render_of(later, target, ok, loaded, made) == (later, seq![RenderStep::Skip])
        }),
    decreases events.len(),
{
    if events.len() > 0 {
        law_asynchronous_source_passes_through(
            filter,
            info,
            pixels,
            events.drop_last(),
            target,
            ok,
            loaded,
            made,
        );
    }
}

}
