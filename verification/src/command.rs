//! Commands for the filters, and the queue in which they wait.
//!
//! A command is addressed to one source by name, or to every filter. The queue knows which
//! filters exist, and keeps a command for every filter until each of them has taken it. A
//! filter that comes later is not owed what others have begun to take.

use vstd::prelude::*;

verus! {

/// What an optional string holds.
pub open spec fn text_of(text: Option<String>) -> Option<Seq<char>> {
    match text {
        Some(s) => Some(s@),
        None => None,
    }
}

/// A copy of an optional string.
pub fn copy_text(text: &Option<String>) -> (copy: Option<String>)
    ensures
        text_of(copy) == text_of(*text),
{
    match text {
        Some(s) => Some(s.clone()),
        None => None,
    }
}

/// Whether two optional strings are equal.
pub fn same_text(a: &Option<String>, b: &Option<String>) -> (same: bool)
    ensures
        same == (text_of(*a) == text_of(*b)),
{
    match (a, b) {
        (Some(s), Some(t)) => *s == *t,
        (None, None) => true,
        _ => false,
    }
}

/// A request to change the filters.
pub enum Command {
    /// Change the expression for good.
    SetExpression { target: Option<String>, expr: String },
    /// Switch the filter on or off.
    SetEnabled { target: Option<String>, enabled: bool },
    /// Change the expression for a while.
    Pulse { target: Option<String>, expr: String, duration_ms: u64 },
}

/// A command as a mathematical value.
pub enum CommandView {
    SetExpression { target: Option<Seq<char>>, expr: Seq<char> },
    SetEnabled { target: Option<Seq<char>>, enabled: bool },
    Pulse { target: Option<Seq<char>>, expr: Seq<char>, duration_ms: u64 },
}

impl CommandView {
    /// The source that the command is addressed to, or `None` for every filter.
    pub open spec fn target(self) -> Option<Seq<char>> {
        match self {
            CommandView::SetExpression { target, .. } => target,
            CommandView::SetEnabled { target, .. } => target,
            CommandView::Pulse { target, .. } => target,
        }
    }
}

impl View for Command {
    type V = CommandView;

    open spec fn view(&self) -> CommandView {
        match *self {
            Command::SetExpression { target, expr } => CommandView::SetExpression {
                target: text_of(target),
                expr: expr@,
            },
            Command::SetEnabled { target, enabled } => CommandView::SetEnabled {
                target: text_of(target),
                enabled,
            },
            Command::Pulse { target, expr, duration_ms } => CommandView::Pulse {
                target: text_of(target),
                expr: expr@,
                duration_ms,
            },
        }
    }
}

impl Command {
    /// The source that the command is addressed to, or `None` for every filter.
    pub fn target(&self) -> (target: Option<&str>)
        ensures
            match target {
                Some(name) => self@.target() == Some(name@),
                None => self@.target() is None,
            },
    {
        match self.target_name() {
            Some(name) => Some(name.as_str()),
            None => None,
        }
    }

    /// The target as it is stored.
    fn target_name(&self) -> (target: &Option<String>)
        ensures
            text_of(*target) == self@.target(),
    {
        match self {
            Command::SetExpression { target, .. } => target,
            Command::SetEnabled { target, .. } => target,
            Command::Pulse { target, .. } => target,
        }
    }

    /// A copy of the command.
    fn copy(&self) -> (copy: Command)
        ensures
            copy@ == self@,
    {
        match self {
            Command::SetExpression { target, expr } => Command::SetExpression {
                target: copy_text(target),
                expr: expr.clone(),
            },
            Command::SetEnabled { target, enabled } => Command::SetEnabled {
                target: copy_text(target),
                enabled: *enabled,
            },
            Command::Pulse { target, expr, duration_ms } => Command::Pulse {
                target: copy_text(target),
                expr: expr.clone(),
                duration_ms: *duration_ms,
            },
        }
    }
}

/// A command in the queue, with the filters that have taken it.
pub struct QueuedCommand {
    pub command: Command,
    pub taken_by: Vec<u64>,
}

/// A queued command as a mathematical value.
pub struct QueuedView {
    pub command: CommandView,
    pub taken_by: Seq<u64>,
}

impl View for QueuedCommand {
    type V = QueuedView;

    open spec fn view(&self) -> QueuedView {
        QueuedView { command: self.command@, taken_by: self.taken_by@ }
    }
}

impl QueuedView {
    /// Whether the command is for filter `id` on the given source: it names the source, or it
    /// is for every filter and this one has not taken it.
    pub open spec fn addressed(self, id: u64, source: Option<Seq<char>>) -> bool {
        match self.command.target() {
            Some(name) => source == Some(name),
            None => !self.taken_by.contains(id),
        }
    }

    /// Whether every filter has taken the command.
    pub open spec fn taken_by_all(self, filters: Seq<u64>) -> bool {
        forall|i: int| 0 <= i < filters.len() ==> self.taken_by.contains(#[trigger] filters[i])
    }

    /// Whether the command has a reason to be in the queue: nobody has taken it, or it is for
    /// every filter and some filter has not.
    pub open spec fn waits(self, filters: Seq<u64>) -> bool {
        ||| self.taken_by.len() == 0
        ||| self.command.target() is None && !self.taken_by_all(filters)
    }

    /// The command after filter `id` has taken it.
    pub open spec fn taken(self, id: u64) -> QueuedView {
        QueuedView { taken_by: self.taken_by.push(id), ..self }
    }

    /// The command after filter `id` has come: what others have begun to take is not for it.
    pub open spec fn joined_by(self, id: u64) -> QueuedView {
        if self.taken_by.len() > 0 {
            self.taken(id)
        } else {
            self
        }
    }

    /// Whether the command stays in the queue when filter `id` takes it: one for a source goes,
    /// and one for every filter waits for those that have not taken it.
    pub open spec fn stays(self, id: u64, filters: Seq<u64>) -> bool {
        self.command.target() is None && !self.taken(id).taken_by_all(filters)
    }
}

/// Whether every command has a reason to be in the queue.
pub open spec fn all_wait(entries: Seq<QueuedView>, filters: Seq<u64>) -> bool {
    forall|i: int| 0 <= i < entries.len() ==> (#[trigger] entries[i]).waits(filters)
}

/// The commands that filter `id` on the given source takes, in the order of the queue.
pub open spec fn taken_commands(
    entries: Seq<QueuedView>,
    id: u64,
    source: Option<Seq<char>>,
) -> Seq<CommandView>
    decreases entries.len(),
{
    if entries.len() == 0 {
        Seq::empty()
    } else {
        let before = taken_commands(entries.drop_last(), id, source);
        if entries.last().addressed(id, source) {
            before.push(entries.last().command)
        } else {
            before
        }
    }
}

/// The queue after filter `id` on the given source has taken its commands.
pub open spec fn left_commands(
    entries: Seq<QueuedView>,
    id: u64,
    source: Option<Seq<char>>,
    filters: Seq<u64>,
) -> Seq<QueuedView>
    decreases entries.len(),
{
    if entries.len() == 0 {
        Seq::empty()
    } else {
        let before = left_commands(entries.drop_last(), id, source, filters);
        let entry = entries.last();
        if !entry.addressed(id, source) {
            before.push(entry)
        } else if entry.stays(id, filters) {
            before.push(entry.taken(id))
        } else {
            before
        }
    }
}

/// The queue without the commands that were taken and wait for no filter any more.
pub open spec fn owed_commands(entries: Seq<QueuedView>, filters: Seq<u64>) -> Seq<QueuedView>
    decreases entries.len(),
{
    if entries.len() == 0 {
        Seq::empty()
    } else {
        let before = owed_commands(entries.drop_last(), filters);
        let entry = entries.last();
        if entry.waits(filters) {
            before.push(entry)
        } else {
            before
        }
    }
}

/// The queue after filter `id` has come.
pub open spec fn commands_joined(entries: Seq<QueuedView>, id: u64) -> Seq<QueuedView> {
    entries.map_values(|e: QueuedView| e.joined_by(id))
}

/// The commands that wait, and the filters that exist.
pub struct CommandQueue {
    entries: Vec<QueuedCommand>,
    filters: Vec<u64>,
    next_id: u64,
}

/// A queue as a mathematical value.
#[verifier::ext_equal]
pub struct QueueView {
    pub entries: Seq<QueuedView>,
    pub filters: Seq<u64>,
    pub next_id: u64,
}

impl View for CommandQueue {
    type V = QueueView;

    closed spec fn view(&self) -> QueueView {
        QueueView {
            entries: self.entries@.map_values(|e: QueuedCommand| e@),
            filters: self.filters@,
            next_id: self.next_id,
        }
    }
}

impl QueueView {
    /// Filters have distinct numbers that were given out before, and what was taken still
    /// waits for some filter.
    pub open spec fn valid(self) -> bool {
        &&& self.filters.no_duplicates()
        &&& forall|i: int| 0 <= i < self.filters.len() ==> #[trigger] self.filters[i] < self.next_id
        &&& all_wait(self.entries, self.filters)
    }
}

/// Whether `id` is among `ids`.
fn has_id(ids: &Vec<u64>, id: u64) -> (found: bool)
    ensures
        found == ids@.contains(id),
{
    let len: usize = ids.len();
    let mut i: usize = 0;
    while i < len
        invariant
            i <= len,
            len == ids@.len(),
            forall|k: int| 0 <= k < i ==> ids@[k] != id,
        decreases len - i,
    {
        if ids[i] == id {
            return true;
        }
        i = i + 1;
    }
    false
}

/// Whether all of `ids` are among `others`.
fn has_all_ids(others: &Vec<u64>, ids: &Vec<u64>) -> (all: bool)
    ensures
        all == forall|i: int| 0 <= i < ids@.len() ==> others@.contains(#[trigger] ids@[i]),
{
    let len: usize = ids.len();
    let mut i: usize = 0;
    while i < len
        invariant
            i <= len,
            len == ids@.len(),
            forall|k: int| 0 <= k < i ==> others@.contains(#[trigger] ids@[k]),
        decreases len - i,
    {
        if !has_id(others, ids[i]) {
            return false;
        }
        i = i + 1;
    }
    true
}

impl CommandQueue {
    /// An empty queue, with no filters.
    pub fn new() -> (queue: CommandQueue)
        ensures
            queue@ == (QueueView { entries: Seq::empty(), filters: Seq::empty(), next_id: 0 }),
            queue@.valid(),
    {
        let queue = CommandQueue { entries: Vec::new(), filters: Vec::new(), next_id: 0 };
        assert(queue@ =~= QueueView { entries: Seq::empty(), filters: Seq::empty(), next_id: 0 });
        queue
    }

    /// Adds a command at the end.
    pub fn push(&mut self, command: Command)
        requires
            old(self)@.valid(),
        ensures
            final(self)@ == (QueueView {
                entries: old(self)@.entries.push(
                    QueuedView { command: command@, taken_by: Seq::empty() },
                ),
                ..old(self)@
            }),
            final(self)@.valid(),
    {
        let ghost before = self@;
        let ghost view = command@;
        self.entries.push(QueuedCommand { command, taken_by: Vec::new() });
        assert(self@.entries =~= before.entries.push(
            QueuedView { command: view, taken_by: Seq::empty() },
        ));
    }

    /// Takes out the commands for filter `id` on the given source, in order. The others keep
    /// their places.
    pub fn take(&mut self, id: u64, source: &Option<String>) -> (commands: Vec<Command>)
        requires
            old(self)@.valid(),
        ensures
            commands@.map_values(|c: Command| c@) == taken_commands(
                old(self)@.entries,
                id,
                text_of(*source),
            ),
            final(self)@ == (QueueView {
                entries: left_commands(
                    old(self)@.entries,
                    id,
                    text_of(*source),
                    old(self)@.filters,
                ),
                ..old(self)@
            }),
            final(self)@.valid(),
    {
        let ghost before = self@;
        let ghost name = text_of(*source);
        let mut all: Vec<QueuedCommand> = Vec::new();
        std::mem::swap(&mut all, &mut self.entries);
        let ghost waiting = all@.map_values(|e: QueuedCommand| e@);
        let mut commands: Vec<Command> = Vec::new();
        let mut left: Vec<QueuedCommand> = Vec::new();
        for entry in it: all
            invariant
                name == text_of(*source),
                waiting == it.seq().map_values(|e: QueuedCommand| e@),
                commands@.map_values(|c: Command| c@) == taken_commands(
                    waiting.take(it.index() as int),
                    id,
                    name,
                ),
                left@.map_values(|e: QueuedCommand| e@) == left_commands(
                    waiting.take(it.index() as int),
                    id,
                    name,
                    self.filters@,
                ),
        {
            let ghost i = it.index() as int;
            let ghost shown = entry@;
            let ghost commands_before = commands@;
            let ghost left_before = left@;
            proof {
                assert(shown == waiting[i]);
                assert(waiting.take(i + 1).drop_last() =~= waiting.take(i));
                assert(waiting.take(i + 1).last() == shown);
            }
            let broadcast: bool = entry.command.target().is_none();
            let mine: bool = if broadcast {
                !has_id(&entry.taken_by, id)
            } else {
                same_text(entry.command.target_name(), source)
            };
            assert(mine == shown.addressed(id, name));
            if !mine {
                left.push(entry);
                assert(left@.map_values(|e: QueuedCommand| e@) =~= left_before.map_values(
                    |e: QueuedCommand| e@,
                ).push(shown));
            } else if !broadcast {
                commands.push(entry.command);
                assert(commands@.map_values(|c: Command| c@) =~= commands_before.map_values(
                    |c: Command| c@,
                ).push(shown.command));
            } else {
                let mut entry = entry;
                commands.push(entry.command.copy());
                entry.taken_by.push(id);
                assert(entry@ == shown.taken(id));
                assert(commands@.map_values(|c: Command| c@) =~= commands_before.map_values(
                    |c: Command| c@,
                ).push(shown.command));
                if !has_all_ids(&entry.taken_by, &self.filters) {
                    left.push(entry);
                    assert(left@.map_values(|e: QueuedCommand| e@) =~= left_before.map_values(
                        |e: QueuedCommand| e@,
                    ).push(shown.taken(id)));
                }
            }
        }
        self.entries = left;
        proof {
            assert(waiting.take(waiting.len() as int) =~= waiting);
            lemma_left_is_owed(before.entries, id, name, before.filters);
        }
        commands
    }

    /// Adds a filter, and returns its number. When the numbers are used up, nothing is added.
    pub fn register(&mut self) -> (id: Option<u64>)
        requires
            old(self)@.valid(),
        ensures
            match id {
                Some(id) => {
                    &&& id == old(self)@.next_id
                    &&& id < u64::MAX
                    &&& !old(self)@.filters.contains(id)
                    &&& final(self)@ == (QueueView {
                        entries: commands_joined(old(self)@.entries, id),
                        filters: old(self)@.filters.push(id),
                        next_id: (id + 1) as u64,
                    })
                },
                None => old(self)@.next_id == u64::MAX && final(self)@ == old(self)@,
            },
            final(self)@.valid(),
    {
        let ghost before = self@;
        let id: u64 = self.next_id;
        if id == u64::MAX {
            return None;
        }
        let mut all: Vec<QueuedCommand> = Vec::new();
        std::mem::swap(&mut all, &mut self.entries);
        let mut entries: Vec<QueuedCommand> = Vec::new();
        for entry in it: all
            invariant
                before.entries == it.seq().map_values(|e: QueuedCommand| e@),
                entries@.len() == it.index(),
                forall|k: int|
                    0 <= k < it.index() ==> (#[trigger] entries@[k])@
                        == before.entries[k].joined_by(id),
        {
            let mut entry = entry;
            assert(entry@ == before.entries[it.index() as int]);
            if entry.taken_by.len() > 0 {
                entry.taken_by.push(id);
            }
            entries.push(entry);
        }
        self.entries = entries;
        self.filters.push(id);
        self.next_id = id + 1;
        proof {
            assert(self@.entries =~= commands_joined(before.entries, id));
            lemma_joined_is_owed(before, id);
        }
        Some(id)
    }

    /// Takes filter `id` off the list, and drops the commands that waited for it alone.
    pub fn unregister(&mut self, id: u64)
        requires
            old(self)@.valid(),
        ensures
            final(self)@.filters == old(self)@.filters.filter(|f: u64| f != id),
            final(self)@.entries == owed_commands(old(self)@.entries, final(self)@.filters),
            final(self)@.next_id == old(self)@.next_id,
            final(self)@.valid(),
    {
        let ghost before = self@;
        let ghost others = |f: u64| f != id;
        let mut listed: Vec<u64> = Vec::new();
        std::mem::swap(&mut listed, &mut self.filters);
        let mut filters: Vec<u64> = Vec::new();
        for filter in it: listed
            invariant
                it.seq() == before.filters,
                others == (|f: u64| f != id),
                filters@ == before.filters.take(it.index() as int).filter(others),
        {
            let ghost i = it.index() as int;
            proof {
                reveal(Seq::filter);
                assert(before.filters.take(i + 1).drop_last() =~= before.filters.take(i));
                assert(before.filters.take(i + 1).last() == filter);
            }
            if filter != id {
                filters.push(filter);
            }
        }
        let mut all: Vec<QueuedCommand> = Vec::new();
        std::mem::swap(&mut all, &mut self.entries);
        let mut left: Vec<QueuedCommand> = Vec::new();
        for entry in it: all
            invariant
                before.entries == it.seq().map_values(|e: QueuedCommand| e@),
                left@.map_values(|e: QueuedCommand| e@) == owed_commands(
                    before.entries.take(it.index() as int),
                    filters@,
                ),
        {
            let ghost i = it.index() as int;
            let ghost shown = entry@;
            let ghost left_before = left@;
            proof {
                assert(shown == before.entries[i]);
                assert(before.entries.take(i + 1).drop_last() =~= before.entries.take(i));
                assert(before.entries.take(i + 1).last() == shown);
            }
            if entry.taken_by.len() == 0 || entry.command.target().is_none() && !has_all_ids(
                &entry.taken_by,
                &filters,
            ) {
                left.push(entry);
                assert(left@.map_values(|e: QueuedCommand| e@) =~= left_before.map_values(
                    |e: QueuedCommand| e@,
                ).push(shown));
            }
        }
        self.filters = filters;
        self.entries = left;
        proof {
            assert(before.filters.take(before.filters.len() as int) =~= before.filters);
            assert(before.entries.take(before.entries.len() as int) =~= before.entries);
            lemma_without_keeps(before.filters, id);
            lemma_owed_is_owed(before.entries, self@.filters);
            assert forall|i: int| 0 <= i < self@.filters.len() implies #[trigger] self@.filters[i]
                < self@.next_id by {
                let f = self@.filters[i];
                assert(self@.filters.contains(f));
                assert(before.filters.contains(f));
                let k = choose|k: int| 0 <= k < before.filters.len() && before.filters[k] == f;
                assert(before.filters[k] < before.next_id);
            }
        }
    }
}

/// Taking a number off a list without duplicates leaves one without duplicates, of numbers that
/// were on it.
proof fn lemma_without_keeps(ids: Seq<u64>, id: u64)
    requires
        ids.no_duplicates(),
    ensures
        ids.filter(|f: u64| f != id).no_duplicates(),
        forall|f: u64|
            ids.filter(|f: u64| f != id).contains(f) <==> ids.contains(f) && f != id,
    decreases ids.len(),
{
    reveal(Seq::filter);
    let others = |f: u64| f != id;
    if ids.len() > 0 {
        let fewer = ids.drop_last();
        lemma_without_keeps(fewer, id);
        assert(ids =~= fewer.push(ids.last()));
        assert(forall|f: u64| ids.contains(f) <==> fewer.contains(f) || f == ids.last()) by {
            assert forall|f: u64| fewer.contains(f) || f == ids.last() implies ids.contains(f) by {
                if fewer.contains(f) {
                    let k = choose|k: int| 0 <= k < fewer.len() && fewer[k] == f;
                    assert(ids[k] == f);
                } else {
                    assert(ids[ids.len() - 1] == f);
                }
            }
        }
        let kept = fewer.filter(others);
        let all = ids.filter(others);
        assert(!fewer.contains(ids.last()));
        if others(ids.last()) {
            assert(all == kept.push(ids.last()));
            assert forall|f: u64| all.contains(f) <==> kept.contains(f) || f == ids.last() by {
                if kept.contains(f) {
                    let k = choose|k: int| 0 <= k < kept.len() && kept[k] == f;
                    assert(all[k] == f);
                } else if f == ids.last() {
                    assert(all[kept.len() as int] == f);
                }
            }
        } else {
            assert(all == kept);
        }
    }
}

/// What is not dropped still waits for some filter.
proof fn lemma_owed_is_owed(entries: Seq<QueuedView>, filters: Seq<u64>)
    ensures
        all_wait(owed_commands(entries, filters), filters),
    decreases entries.len(),
{
    if entries.len() > 0 {
        lemma_owed_is_owed(entries.drop_last(), filters);
        lemma_push_waits(owed_commands(entries.drop_last(), filters), entries.last(), filters);
    }
}

/// What was taken before a filter came still waits for some filter.
proof fn lemma_joined_is_owed(queue: QueueView, id: u64)
    requires
        queue.valid(),
        id >= queue.next_id,
    ensures
        all_wait(commands_joined(queue.entries, id), queue.filters.push(id)),
{
    let filters = queue.filters.push(id);
    let entries = commands_joined(queue.entries, id);
    assert forall|i: int| 0 <= i < entries.len() implies (#[trigger] entries[i]).waits(
        filters,
    ) by {
        let entry = queue.entries[i];
        assert(entry.waits(queue.filters));
        if entry.taken_by.len() > 0 {
            let k = choose|k: int|
                0 <= k < queue.filters.len() && !entry.taken_by.contains(
                    #[trigger] queue.filters[k],
                );
            lemma_push_contains(entry.taken_by, id, queue.filters[k]);
            assert(!entry.taken(id).taken_by.contains(filters[k]));
        }
    }
}

/// What a filter leaves in the queue still waits for some filter.
proof fn lemma_left_is_owed(
    entries: Seq<QueuedView>,
    id: u64,
    source: Option<Seq<char>>,
    filters: Seq<u64>,
)
    requires
        all_wait(entries, filters),
    ensures
        all_wait(left_commands(entries, id, source, filters), filters),
    decreases entries.len(),
{
    if entries.len() > 0 {
        let entry = entries[entries.len() - 1];
        let before = left_commands(entries.drop_last(), id, source, filters);
        assert(all_wait(entries.drop_last(), filters)) by {
            assert forall|i: int| 0 <= i < entries.len() - 1 implies (
            #[trigger] entries.drop_last()[i]).waits(filters) by {
                assert(entries[i].waits(filters));
            }
        }
        lemma_left_is_owed(entries.drop_last(), id, source, filters);
        lemma_push_waits(before, entry, filters);
        lemma_push_waits(before, entry.taken(id), filters);
    }
}

/// A waiting command may be added to waiting commands.
proof fn lemma_push_waits(entries: Seq<QueuedView>, entry: QueuedView, filters: Seq<u64>)
    requires
        all_wait(entries, filters),
    ensures
        entry.waits(filters) ==> all_wait(entries.push(entry), filters),
{
    if entry.waits(filters) {
        assert forall|i: int| 0 <= i < entries.len() + 1 implies (
        #[trigger] entries.push(entry)[i]).waits(filters) by {
            if i < entries.len() {
                assert(entries[i].waits(filters));
            }
        }
    }
}

/// A command for every filter reaches every filter, on whatever source it is.
pub proof fn law_broadcast_is_for_every_filter(
    entries: Seq<QueuedView>,
    command: CommandView,
    id: u64,
    source: Option<Seq<char>>,
)
    requires
        command.target() is None,
    ensures
        taken_commands(
            entries.push(QueuedView { command, taken_by: Seq::empty() }),
            id,
            source,
        ) == taken_commands(entries, id, source).push(command),
{
    let queued = QueuedView { command, taken_by: Seq::<u64>::empty() };
    assert(entries.push(queued).drop_last() =~= entries);
}

/// A command for a source is for a filter on that source, and for no other.
pub proof fn law_targeted_command_is_for_its_source(
    entries: Seq<QueuedView>,
    command: CommandView,
    id: u64,
    source: Option<Seq<char>>,
)
    requires
        command.target() is Some,
    ensures
        taken_commands(
            entries.push(QueuedView { command, taken_by: Seq::empty() }),
            id,
            source,
        ) == if source == command.target() {
            taken_commands(entries, id, source).push(command)
        } else {
            taken_commands(entries, id, source)
        },
{
    let queued = QueuedView { command, taken_by: Seq::<u64>::empty() };
    assert(entries.push(queued).drop_last() =~= entries);
}

/// A filter that takes its commands takes nothing from the other filters: what waits for them
/// still waits, in the same order. This is so of another source, and of the commands for
/// every filter (those that a filter on no source takes) even on the same source.
pub proof fn law_taking_spares_other_filters(
    entries: Seq<QueuedView>,
    filters: Seq<u64>,
    id: u64,
    source: Option<Seq<char>>,
    other_id: u64,
    other_source: Option<Seq<char>>,
)
    requires
        other_id != id,
        filters.contains(other_id),
        other_source != source || other_source is None,
    ensures
        taken_commands(left_commands(entries, id, source, filters), other_id, other_source)
            == taken_commands(entries, other_id, other_source),
    decreases entries.len(),
{
    if entries.len() > 0 {
        let entry = entries.last();
        let before = left_commands(entries.drop_last(), id, source, filters);
        law_taking_spares_other_filters(
            entries.drop_last(),
            filters,
            id,
            source,
            other_id,
            other_source,
        );
        assert(before.push(entry).drop_last() =~= before);
        assert(before.push(entry.taken(id)).drop_last() =~= before);
        lemma_push_contains(entry.taken_by, id, other_id);
        if entry.taken(id).taken_by_all(filters) {
            let k = choose|k: int| 0 <= k < filters.len() && filters[k] == other_id;
            assert(entry.taken(id).taken_by.contains(filters[k]));
        }
    }
}

/// A command for every filter is not used up by the filter that takes it first: another filter
/// still gets it, after what waited for it before.
pub proof fn law_broadcast_survives_first_taker(
    entries: Seq<QueuedView>,
    command: CommandView,
    filters: Seq<u64>,
    id: u64,
    source: Option<Seq<char>>,
    other_id: u64,
)
    requires
        command.target() is None,
        other_id != id,
        filters.contains(other_id),
    ensures
        taken_commands(
            left_commands(
                entries.push(QueuedView { command, taken_by: Seq::empty() }),
                id,
                source,
                filters,
            ),
            other_id,
            None,
        ) == taken_commands(entries, other_id, None).push(command),
{
    let queued = QueuedView { command, taken_by: Seq::<u64>::empty() };
    law_taking_spares_other_filters(entries.push(queued), filters, id, source, other_id, None);
    law_broadcast_is_for_every_filter(entries, command, other_id, None);
}

/// A filter takes a command once: after it has taken its commands, none waits for it.
pub proof fn law_commands_are_taken_once(
    entries: Seq<QueuedView>,
    filters: Seq<u64>,
    id: u64,
    source: Option<Seq<char>>,
)
    ensures
        taken_commands(left_commands(entries, id, source, filters), id, source) == Seq::<
            CommandView,
        >::empty(),
    decreases entries.len(),
{
    if entries.len() > 0 {
        let entry = entries.last();
        let before = left_commands(entries.drop_last(), id, source, filters);
        law_commands_are_taken_once(entries.drop_last(), filters, id, source);
        assert(before.push(entry).drop_last() =~= before);
        assert(before.push(entry.taken(id)).drop_last() =~= before);
        lemma_push_contains(entry.taken_by, id, id);
    }
}

/// A filter that comes, and has taken nothing yet, takes nothing from the others: what waits for
/// them still waits. It gets the commands for its source and those for every filter that nobody
/// has taken, and none that others have begun to take.
pub proof fn law_newcomer_gets_what_nobody_took(
    entries: Seq<QueuedView>,
    id: u64,
    source: Option<Seq<char>>,
    other_id: u64,
    other_source: Option<Seq<char>>,
)
    requires
        other_id != id,
        forall|i: int|
            0 <= i < entries.len() ==> !(#[trigger] entries[i]).taken_by.contains(id),
    ensures
        taken_commands(commands_joined(entries, id), other_id, other_source) == taken_commands(
            entries,
            other_id,
            other_source,
        ),
        taken_commands(commands_joined(entries, id), id, source) == taken_commands(
            entries.filter(|e: QueuedView| e.command.target() is Some || e.taken_by.len() == 0),
            id,
            source,
        ),
    decreases entries.len(),
{
    reveal(Seq::filter);
    if entries.len() > 0 {
        let entry = entries[entries.len() - 1];
        let fewer = entries.drop_last();
        let joined = commands_joined(entries, id);
        let open = |e: QueuedView| e.command.target() is Some || e.taken_by.len() == 0;
        assert forall|i: int| 0 <= i < fewer.len() implies !(#[trigger] fewer[i]).taken_by.contains(
            id,
        ) by {
            assert(!entries[i].taken_by.contains(id));
        }
        law_newcomer_gets_what_nobody_took(fewer, id, source, other_id, other_source);
        assert(joined.drop_last() =~= commands_joined(fewer, id));
        assert(joined.last() == entry.joined_by(id));
        lemma_push_contains(entry.taken_by, id, other_id);
        lemma_push_contains(entry.taken_by, id, id);
        let kept = fewer.filter(open);
        assert(kept.push(entry).drop_last() =~= kept);
    }
}

/// A filter that goes takes nothing from the others: what waits for them still waits.
pub proof fn law_leaving_spares_other_filters(
    queue: QueueView,
    id: u64,
    other_id: u64,
    other_source: Option<Seq<char>>,
)
    requires
        queue.valid(),
        other_id != id,
        queue.filters.contains(other_id),
    ensures
        taken_commands(
            owed_commands(queue.entries, queue.filters.filter(|f: u64| f != id)),
            other_id,
            other_source,
        ) == taken_commands(queue.entries, other_id, other_source),
{
    lemma_without_keeps(queue.filters, id);
    lemma_dropping_spares(
        queue.entries,
        queue.filters,
        queue.filters.filter(|f: u64| f != id),
        other_id,
        other_source,
    );
}

/// Dropping commands that wait for no filter takes nothing from a filter.
proof fn lemma_dropping_spares(
    entries: Seq<QueuedView>,
    before: Seq<u64>,
    filters: Seq<u64>,
    id: u64,
    source: Option<Seq<char>>,
)
    requires
        all_wait(entries, before),
        filters.contains(id),
    ensures
        taken_commands(owed_commands(entries, filters), id, source) == taken_commands(
            entries,
            id,
            source,
        ),
    decreases entries.len(),
{
    if entries.len() > 0 {
        let entry = entries[entries.len() - 1];
        let owed = owed_commands(entries.drop_last(), filters);
        assert(all_wait(entries.drop_last(), before)) by {
            assert forall|i: int| 0 <= i < entries.len() - 1 implies (
            #[trigger] entries.drop_last()[i]).waits(before) by {
                assert(entries[i].waits(before));
            }
        }
        lemma_dropping_spares(entries.drop_last(), before, filters, id, source);
        assert(owed.push(entry).drop_last() =~= owed);
        if !entry.waits(filters) {
            assert(entry.waits(before));
            let k = choose|k: int| 0 <= k < filters.len() && filters[k] == id;
            assert(entry.taken_by.contains(filters[k]));
        }
    }
}

/// What a list contains after a push.
proof fn lemma_push_contains(ids: Seq<u64>, id: u64, other: u64)
    ensures
        ids.push(id).contains(other) == (ids.contains(other) || other == id),
{
    if ids.contains(other) {
        let k = choose|k: int| 0 <= k < ids.len() && ids[k] == other;
        assert(ids.push(id)[k] == other);
    }
    if other == id {
        assert(ids.push(id)[ids.len() as int] == other);
    }
}

/// Commands, optional texts and queued commands show what they hold, and a command is addressed
/// to the target that it was made with.
pub proof fn law_commands_show_what_they_hold(
    target: Option<String>,
    text: String,
    enabled: bool,
    duration_ms: u64,
    queued: QueuedCommand,
)
    ensures
        text_of(Some(text)) == Some(text@),
        text_of(None) is None,
        (Command::SetExpression { target, expr: text })@ == (CommandView::SetExpression {
            target: text_of(target),
            expr: text@,
        }),
        (Command::SetEnabled { target, enabled })@ == (CommandView::SetEnabled {
            target: text_of(target),
            enabled,
        }),
        (Command::Pulse { target, expr: text, duration_ms })@ == (CommandView::Pulse {
            target: text_of(target),
            expr: text@,
            duration_ms,
        }),
        (Command::SetExpression { target, expr: text })@.target() == text_of(target),
        (Command::SetEnabled { target, enabled })@.target() == text_of(target),
        (Command::Pulse { target, expr: text, duration_ms })@.target() == text_of(target),
        queued@.command == queued.command@,
        queued@.taken_by == queued.taken_by@,
{
}

/// A filter takes, in the order of the queue, the commands for its source, and those for every
/// filter that it has not taken: of every further command in the queue it takes just that one.
pub proof fn law_taken_one_by_one(
    entries: Seq<QueuedView>,
    entry: QueuedView,
    id: u64,
    source: Option<Seq<char>>,
)
    ensures
        taken_commands(Seq::<QueuedView>::empty(), id, source) == Seq::<CommandView>::empty(),
        (entry.command.target() matches Some(name) && source == Some(name)) || (
        entry.command.target() is None && !entry.taken_by.contains(id)) ==> taken_commands(
            entries.push(entry),
            id,
            source,
        ) == taken_commands(entries, id, source).push(entry.command),
        (entry.command.target() matches Some(name) && source != Some(name)) || (
        entry.command.target() is None && entry.taken_by.contains(id)) ==> taken_commands(
            entries.push(entry),
            id,
            source,
        ) == taken_commands(entries, id, source),
{
    assert(entries.push(entry).drop_last() =~= entries);
}

/// What a filter leaves in the queue, of every further command: one that is not for it, as it
/// was; one for its source, nothing; one for every filter, with the filter among its takers,
/// while another filter is still to take it.
pub proof fn law_left_one_by_one(
    entries: Seq<QueuedView>,
    entry: QueuedView,
    id: u64,
    source: Option<Seq<char>>,
    filters: Seq<u64>,
)
    ensures
        ({
            let before = left_commands(entries, id, source, filters);
            let after = left_commands(entries.push(entry), id, source, filters);
            let owed = exists|f: u64|
                f != id && #[trigger] filters.contains(f) && !entry.taken_by.contains(f);
            let taken = QueuedView {
                command: entry.command,
                taken_by: entry.taken_by.push(id),
            };
            match entry.command.target() {
                Some(name) => after == if source == Some(name) {
                    before
                } else {
                    before.push(entry)
                },
                None => after == if entry.taken_by.contains(id) {
                    before.push(entry)
                } else if owed {
                    before.push(taken)
                } else {
                    before
                },
            }
        }),
        left_commands(Seq::<QueuedView>::empty(), id, source, filters) == Seq::<
            QueuedView,
        >::empty(),
{
    assert(entries.push(entry).drop_last() =~= entries);
    lemma_taken_by_all(entry, id, filters);
}

/// A command that a filter has just taken is taken by all where no other filter is still to
/// take it.
proof fn lemma_taken_by_all(entry: QueuedView, id: u64, filters: Seq<u64>)
    ensures
        entry.taken(id).taken_by_all(filters) <==> !(exists|f: u64|
            f != id && #[trigger] filters.contains(f) && !entry.taken_by.contains(f)),
        entry.taken_by_all(filters) <==> !(exists|f: u64| #[trigger]
            filters.contains(f) && !entry.taken_by.contains(f)),
{
    assert forall|f: u64| #[trigger] filters.contains(f) implies (entry.taken_by_all(filters)
        ==> entry.taken_by.contains(f)) && (entry.taken(id).taken_by_all(filters) ==> f == id
        || entry.taken_by.contains(f)) by {
        let k = choose|k: int| 0 <= k < filters.len() && filters[k] == f;
        assert(filters[k] == f);
        lemma_push_contains(entry.taken_by, id, f);
    }
    assert forall|k: int| 0 <= k < filters.len() implies filters.contains(
        #[trigger] filters[k],
    ) && entry.taken(id).taken_by.contains(filters[k]) == (entry.taken_by.contains(filters[k])
        || filters[k] == id) by {
        lemma_push_contains(entry.taken_by, id, filters[k]);
    }
}

/// When a filter goes, a command stays that nobody has taken, and one for every filter that some
/// filter on the list is still to take; the others go.
pub proof fn law_owed_one_by_one(
    entries: Seq<QueuedView>,
    entry: QueuedView,
    filters: Seq<u64>,
)
    ensures
        owed_commands(Seq::<QueuedView>::empty(), filters) == Seq::<QueuedView>::empty(),
        owed_commands(entries.push(entry), filters) == if entry.taken_by.len() == 0 || (
        entry.command.target() is None && exists|f: u64| #[trigger]
            filters.contains(f) && !entry.taken_by.contains(f)) {
            owed_commands(entries, filters).push(entry)
        } else {
            owed_commands(entries, filters)
        },
{
    assert(entries.push(entry).drop_last() =~= entries);
    lemma_taken_by_all(entry, 0, filters);
}

/// When a filter comes, every command stays where it is; those that others have begun to take
/// count it among their takers, and those that nobody has taken do not.
pub proof fn law_newcomer_changes_only_takers(entries: Seq<QueuedView>, id: u64, i: int)
    requires
        0 <= i < entries.len(),
    ensures
        commands_joined(entries, id).len() == entries.len(),
        commands_joined(entries, id)[i].command == entries[i].command,
        commands_joined(entries, id)[i].taken_by == if entries[i].taken_by.len() == 0 {
            entries[i].taken_by
        } else {
            entries[i].taken_by.push(id)
        },
{
}

}
