//! The requests of remote clients: what they ask of the filters, and what they are answered.

use crate::command::{text_of, Command, CommandView};
use crate::filter::{is_empty, to_unsigned, unsigned};
use crate::filter::{law_shown_filter_is_found, shown_in, FilterView};
use crate::snapshot::{distinct_sources, joined, lemma_position, picked};
use crate::snapshot::{SnapshotTable, SourceView};
use vstd::prelude::*;

verus! {

/// How long a pulse lasts that names no duration.
pub const DEFAULT_PULSE_MS: u64 = 5000;

/// Why a request is refused.
pub enum RequestError {
    /// The request has no expression.
    MissingExpression,
    /// There is no filter that the request could be about.
    NoActiveFilter,
}

impl RequestError {
    /// The error as the client is told.
    pub open spec fn text(self) -> Seq<char> {
        match self {
            RequestError::MissingExpression => "missing 'expression'"@,
            RequestError::NoActiveFilter => "no active filter"@,
        }
    }

    /// The error as the client is told.
    pub fn message(&self) -> (message: &'static str)
        ensures
            message@ == self.text(),
    {
        match self {
            RequestError::MissingExpression => "missing 'expression'",
            RequestError::NoActiveFilter => "no active filter",
        }
    }
}

/// The source that a request is for. An absent or empty name means every filter.
pub open spec fn target_of(source: Option<Seq<char>>) -> Option<Seq<char>> {
    match source {
        Some(name) => if name.len() > 0 {
            Some(name)
        } else {
            None
        },
        None => None,
    }
}

/// Reads the source that a request is for. An absent or empty name means every filter.
pub fn read_target(source: Option<String>) -> (target: Option<String>)
    ensures
        text_of(target) == target_of(text_of(source)),
{
    match source {
        Some(name) => {
            if is_empty(&name) {
                None
            } else {
                Some(name)
            }
        },
        None => None,
    }
}

/// Answers a request to change the expression for good, with the command to queue.
pub fn handle_set_expression(expression: Option<String>, source: Option<String>) -> (answer: Result<
    Command,
    RequestError,
>)
    ensures
        match text_of(expression) {
            Some(expr) => answer matches Ok(command) && command@ == (CommandView::SetExpression {
                target: target_of(text_of(source)),
                expr,
            }),
            None => answer == Err::<Command, RequestError>(RequestError::MissingExpression),
        },
{
    match expression {
        Some(expr) => Ok(Command::SetExpression { target: read_target(source), expr }),
        None => Err(RequestError::MissingExpression),
    }
}

/// Answers a request to switch filters on or off, with the command to queue.
pub fn handle_set_enabled(enabled: bool, source: Option<String>) -> (command: Command)
    ensures
        command@ == (CommandView::SetEnabled { target: target_of(text_of(source)), enabled }),
{
    Command::SetEnabled { target: read_target(source), enabled }
}

/// How long a pulse lasts: as long as the request says, read as an unsigned number, or five
/// seconds where it says 0.
pub open spec fn pulse_duration(duration_ms: i64) -> u64 {
    if duration_ms == 0 {
        DEFAULT_PULSE_MS
    } else {
        unsigned(duration_ms)
    }
}

/// Answers a request to change the expression for a while, with the command to queue.
pub fn handle_pulse(expression: Option<String>, duration_ms: i64, source: Option<String>) -> (answer:
    Result<Command, RequestError>)
    ensures
        match text_of(expression) {
            Some(expr) => answer matches Ok(command) && command@ == (CommandView::Pulse {
                target: target_of(text_of(source)),
                expr,
                duration_ms: pulse_duration(duration_ms),
            }),
            None => answer == Err::<Command, RequestError>(RequestError::MissingExpression),
        },
{
    match expression {
        Some(expr) => {
            let duration: u64 = to_unsigned(duration_ms);
            Ok(
                Command::Pulse {
                    target: read_target(source),
                    expr,
                    duration_ms: if duration == 0 {
                        DEFAULT_PULSE_MS
                    } else {
                        duration
                    },
                },
            )
        },
        None => Err(RequestError::MissingExpression),
    }
}

/// An unsigned number read as a signed one of the same bits.
pub open spec fn signed(value: u64) -> i64 {
    if value < 0x8000_0000_0000_0000 {
        value as i64
    } else {
        (value - 0x1_0000_0000_0000_0000) as i64
    }
}

/// Reads an unsigned number as a signed one of the same bits.
pub fn to_signed(value: u64) -> (result: i64)
    ensures
        result == signed(value),
{
    assert(value >= 0x8000_0000_0000_0000 ==> value as i64 == value - 0x1_0000_0000_0000_0000)
        by (bit_vector);
    value as i64
}

/// What a client is told of a filter.
pub struct FilterReport {
    pub source: String,
    pub expression: String,
    pub enabled: bool,
    pub seed: i64,
    pub frame_count: i64,
}

impl FilterReport {
    /// Whether the report is of this entry.
    pub open spec fn reports(self, entry: SourceView) -> bool {
        &&& self.source@ == entry.source
        &&& self.expression@ == entry.snapshot.expression
        &&& self.enabled == entry.snapshot.enabled
        &&& self.seed == signed(entry.snapshot.seed)
        &&& self.frame_count == signed(entry.snapshot.frame_count)
    }
}

/// The answer to a question about the filters' state.
pub struct StateReply {
    /// The names of all sources with a filter, with commas between them.
    pub sources: String,
    /// The filter that was asked about.
    pub filter: Result<FilterReport, RequestError>,
}

/// Answers a question about the state of the filter on a source, or of the first one. Where
/// the snapshots cannot be read there is no answer.
pub fn handle_get_state(snapshots: Option<&SnapshotTable>, source: Option<String>) -> (reply: Option<
    StateReply,
>)
    requires
        snapshots matches Some(table) ==> distinct_sources(table@),
    ensures
        match snapshots {
            Some(table) => reply matches Some(reply) && {
                &&& reply.sources@ == joined(table@)
                &&& match picked(table@, target_of(text_of(source))) {
                    Some(entry) => reply.filter matches Ok(report) && report.reports(entry),
                    None => reply.filter == Err::<FilterReport, RequestError>(
                        RequestError::NoActiveFilter,
                    ),
                }
            },
            None => reply is None,
        },
{
    match snapshots {
        Some(table) => {
            let target: Option<String> = read_target(source);
            let filter: Result<FilterReport, RequestError> = match table.pick(&target) {
                Some(entry) => Ok(
                    FilterReport {
                        source: entry.source.clone(),
                        expression: entry.snapshot.expression.clone(),
                        enabled: entry.snapshot.enabled,
                        seed: to_signed(entry.snapshot.seed),
                        frame_count: to_signed(entry.snapshot.frame_count),
                    },
                ),
                None => Err(RequestError::NoActiveFilter),
            };
            Some(StateReply { sources: table.sources(), filter })
        },
        None => None,
    }
}

/// A client that asks about a source is told what the filter on it last showed.
pub proof fn law_state_of_shown_filter<T>(
    filter: FilterView<T>,
    entries: Seq<SourceView>,
    name: Seq<char>,
)
    requires
        distinct_sources(entries),
        name.len() > 0,
    ensures
        picked(
            shown_in(entries, filter, name),
            target_of(Some(name)),
        ) == Some(SourceView { source: name, shown_by: filter.id, snapshot: filter.snapshot() }),
{
    law_shown_filter_is_found(filter, entries, name, name);
    lemma_position(shown_in(entries, filter, name), name);
}

/// How the registration as a vendor went.
pub enum RegistrationOutcome {
    /// There is nobody to register with.
    Unavailable,
    /// All requests are registered.
    Complete,
    /// Some request is not registered.
    Partial,
}

/// Whether the plugin is registered as a vendor.
pub struct Vendor {
    pub registered: bool,
}

impl Vendor {
    /// Whether registration is to be tried: not if it has been done.
    pub fn ensure_registered(&self) -> (attempt: bool)
        ensures
            attempt == !self.registered,
    {
        !self.registered
    }

    /// Takes note of an attempt to register: whether there was somebody to register with, and
    /// which of the four requests were accepted. A vendor with a request missing counts as
    /// registered.
    pub fn register_vendor(&mut self, found: bool, accepted: &[bool; 4]) -> (outcome:
        RegistrationOutcome)
        ensures
            final(self).registered == (old(self).registered || found),
            outcome is Unavailable <==> !found,
            outcome is Complete <==> found && forall|i: int|
                0 <= i < 4 ==> #[trigger] accepted[i],
    {
        if !found {
            return RegistrationOutcome::Unavailable;
        }
        self.registered = true;
        if accepted[0] && accepted[1] && accepted[2] && accepted[3] {
            RegistrationOutcome::Complete
        } else {
            RegistrationOutcome::Partial
        }
    }
}

/// A request is for the source that it names, and for every filter where it names none or has
/// an empty name.
pub proof fn law_target_is_what_was_named(name: Seq<char>)
    ensures
        target_of(None) is None,
        name.len() == 0 ==> target_of(Some(name)) is None,
        name.len() > 0 ==> target_of(Some(name)) == Some(name),
{
}

/// A pulse lasts as many milliseconds as the request says, read as 64 unsigned bits, or 5000
/// where it says 0.
pub proof fn law_pulse_lasts_as_asked(duration_ms: i64)
    ensures
        duration_ms == 0 ==> pulse_duration(duration_ms) == 5000,
        duration_ms > 0 ==> pulse_duration(duration_ms) == duration_ms,
        duration_ms < 0 ==> pulse_duration(duration_ms) == 0x1_0000_0000_0000_0000 + duration_ms,
{
}

/// A number is reported with its own 64 bits.
pub proof fn law_number_keeps_its_bits(value: u64)
    ensures
        value <= i64::MAX ==> signed(value) == value,
        value > i64::MAX ==> signed(value) == value - 0x1_0000_0000_0000_0000,
        unsigned(signed(value)) == value,
{
}

/// A report tells of an entry its source, its expression, its switch, its seed and its frame
/// count, the numbers with their own bits.
pub proof fn law_report_tells_the_entry(report: FilterReport, entry: SourceView)
    requires
        report.reports(entry),
    ensures
        report.source@ == entry.source,
        report.expression@ == entry.snapshot.expression,
        report.enabled == entry.snapshot.enabled,
        unsigned(report.seed) == entry.snapshot.seed,
        unsigned(report.frame_count) == entry.snapshot.frame_count,
{
    law_number_keeps_its_bits(entry.snapshot.seed);
    law_number_keeps_its_bits(entry.snapshot.frame_count);
}

/// A client is told what is wrong in these words.
pub proof fn law_errors_are_told_in_words()
    ensures
        RequestError::MissingExpression.text() == "missing 'expression'"@,
        RequestError::NoActiveFilter.text() == "no active filter"@,
{
}

}
