//! What the filters last showed of themselves, by the name of their source.

use crate::command::text_of;
use vstd::prelude::*;
use vstd::string::StringExecFns;

verus! {

/// What a filter shows of itself.
pub struct FilterSnapshot {
    pub expression: String,
    pub enabled: bool,
    pub seed: u64,
    pub frame_count: u64,
}

/// A snapshot as a mathematical value.
pub struct SnapshotView {
    pub expression: Seq<char>,
    pub enabled: bool,
    pub seed: u64,
    pub frame_count: u64,
}

impl View for FilterSnapshot {
    type V = SnapshotView;

    open spec fn view(&self) -> SnapshotView {
        SnapshotView {
            expression: self.expression@,
            enabled: self.enabled,
            seed: self.seed,
            frame_count: self.frame_count,
        }
    }
}

/// A source's name and its filter's snapshot.
pub struct SourceSnapshot {
    pub source: String,
    /// The number of the filter that showed itself.
    pub shown_by: u64,
    pub snapshot: FilterSnapshot,
}

/// A named snapshot as a mathematical value.
pub struct SourceView {
    pub source: Seq<char>,
    pub shown_by: u64,
    pub snapshot: SnapshotView,
}

impl View for SourceSnapshot {
    type V = SourceView;

    open spec fn view(&self) -> SourceView {
        SourceView { source: self.source@, shown_by: self.shown_by, snapshot: self.snapshot@ }
    }
}

/// Where a source stands in the table, if it does.
pub open spec fn position(entries: Seq<SourceView>, source: Seq<char>) -> Option<int>
    decreases entries.len(),
{
    if entries.len() == 0 {
        None
    } else if entries.last().source == source {
        Some(entries.len() - 1)
    } else {
        position(entries.drop_last(), source)
    }
}

/// The snapshot of a source, if the table has one.
pub open spec fn lookup(entries: Seq<SourceView>, source: Seq<char>) -> Option<SnapshotView> {
    match position(entries, source) {
        Some(i) => Some(entries[i].snapshot),
        None => None,
    }
}

/// The filter that showed itself under a source's name, if one did.
pub open spec fn shown_by(entries: Seq<SourceView>, source: Seq<char>) -> Option<u64> {
    match position(entries, source) {
        Some(i) => Some(entries[i].shown_by),
        None => None,
    }
}

/// The table with an entry put in: in the place of the old one of its source, or at the end.
pub open spec fn inserted(entries: Seq<SourceView>, entry: SourceView) -> Seq<SourceView> {
    match position(entries, entry.source) {
        Some(i) => entries.update(i, entry),
        None => entries.push(entry),
    }
}

/// The table without a source, where filter `id` is the one that showed itself there. Another
/// filter's entry stays.
pub open spec fn removed(entries: Seq<SourceView>, source: Seq<char>, id: u64) -> Seq<SourceView> {
    match position(entries, source) {
        Some(i) => if entries[i].shown_by == id {
            entries.remove(i)
        } else {
            entries
        },
        None => entries,
    }
}

/// No source stands twice in the table.
pub open spec fn distinct_sources(entries: Seq<SourceView>) -> bool {
    forall|i: int, j: int|
        0 <= i < j < entries.len() ==> (#[trigger] entries[i]).source != (
        #[trigger] entries[j]).source
}

/// `position` finds the source where it stands, and only there.
pub proof fn lemma_position(entries: Seq<SourceView>, source: Seq<char>)
    ensures
        match position(entries, source) {
            Some(i) => 0 <= i < entries.len() && entries[i].source == source,
            None => forall|i: int| 0 <= i < entries.len() ==> (#[trigger] entries[i]).source != source,
        },
    decreases entries.len(),
{
    if entries.len() > 0 && entries.last().source != source {
        let fewer = entries.drop_last();
        lemma_position(fewer, source);
        if position(fewer, source) is None {
            assert forall|i: int| 0 <= i < entries.len() implies (#[trigger] entries[i]).source
                != source by {
                if i < entries.len() - 1 {
                    assert(fewer[i].source != source);
                }
            }
        }
    }
}

/// Where no source stands twice, `position` is the one place of the source.
proof fn lemma_position_is(entries: Seq<SourceView>, source: Seq<char>, i: int)
    requires
        distinct_sources(entries),
        0 <= i < entries.len(),
        entries[i].source == source,
    ensures
        position(entries, source) == Some(i),
{
    lemma_position(entries, source);
    let k = position(entries, source)->0;
    if k < i {
        assert(entries[k].source != entries[i].source);
    } else if i < k {
        assert(entries[i].source != entries[k].source);
    }
}

/// The snapshots of the filters, one for each source.
pub struct SnapshotTable {
    entries: Vec<SourceSnapshot>,
}

impl View for SnapshotTable {
    type V = Seq<SourceView>;

    closed spec fn view(&self) -> Seq<SourceView> {
        self.entries@.map_values(|e: SourceSnapshot| e@)
    }
}

impl SnapshotTable {
    /// An empty table.
    pub fn new() -> (table: SnapshotTable)
        ensures
            table@ == Seq::<SourceView>::empty(),
            distinct_sources(table@),
    {
        let table = SnapshotTable { entries: Vec::new() };
        assert(table@ =~= Seq::<SourceView>::empty());
        table
    }

    /// Where a source stands.
    fn find(&self, source: &String) -> (found: Option<usize>)
        requires
            distinct_sources(self@),
        ensures
            match found {
                Some(i) => position(self@, source@) == Some(i as int) && i < self.entries@.len(),
                None => position(self@, source@) is None,
            },
    {
        let len: usize = self.entries.len();
        let mut i: usize = 0;
        while i < len
            invariant
                i <= len,
                len == self.entries@.len(),
                len == self@.len(),
                distinct_sources(self@),
                forall|k: int| 0 <= k < i ==> (#[trigger] self@[k]).source != source@,
            decreases len - i,
        {
            assert(self@[i as int] == self.entries@[i as int]@);
            if self.entries[i].source == *source {
                proof {
                    lemma_position_is(self@, source@, i as int);
                }
                return Some(i);
            }
            i = i + 1;
        }
        proof {
            lemma_position(self@, source@);
        }
        None
    }

    /// Puts in what filter `id` shows of itself under a source's name, in place of what was
    /// shown there before.
    pub fn insert(&mut self, source: String, id: u64, snapshot: FilterSnapshot)
        requires
            distinct_sources(old(self)@),
        ensures
            final(self)@ == inserted(
                old(self)@,
                SourceView { source: source@, shown_by: id, snapshot: snapshot@ },
            ),
            distinct_sources(final(self)@),
    {
        let ghost before = self@;
        let found = self.find(&source);
        let entry = SourceSnapshot { source, shown_by: id, snapshot };
        let ghost shown = entry@;
        match found {
            Some(i) => {
                self.entries[i] = entry;
                assert(self@ =~= before.update(i as int, shown));
            },
            None => {
                self.entries.push(entry);
                assert(self@ =~= before.push(shown));
            },
        }
        proof {
            lemma_position(before, shown.source);
        }
    }

    /// Takes out a source, where filter `id` is the one that showed itself there.
    pub fn remove(&mut self, source: &String, id: u64)
        requires
            distinct_sources(old(self)@),
        ensures
            final(self)@ == removed(old(self)@, source@, id),
            distinct_sources(final(self)@),
    {
        let ghost before = self@;
        match self.find(source) {
            Some(i) => {
                assert(self@[i as int] == self.entries@[i as int]@);
                if self.entries[i].shown_by == id {
                    let entry = self.entries.remove(i);
                    assert(self@ =~= before.remove(i as int));
                }
            },
            None => {},
        }
    }
}

/// What was put in for a source is found for it, and the other sources are as before.
pub proof fn law_inserted_is_found(
    entries: Seq<SourceView>,
    entry: SourceView,
    other: Seq<char>,
)
    requires
        distinct_sources(entries),
    ensures
        distinct_sources(inserted(entries, entry)),
        lookup(inserted(entries, entry), entry.source) == Some(entry.snapshot),
        shown_by(inserted(entries, entry), entry.source) == Some(entry.shown_by),
        other != entry.source ==> {
            &&& lookup(inserted(entries, entry), other) == lookup(entries, other)
            &&& shown_by(inserted(entries, entry), other) == shown_by(entries, other)
        },
{
    let source = entry.source;
    let after = inserted(entries, entry);
    lemma_position(entries, source);
    lemma_position(entries, other);
    lemma_position(after, other);
    match position(entries, source) {
        Some(i) => {
            lemma_position_is(after, source, i);
        },
        None => {
            lemma_position_is(after, source, entries.len() as int);
        },
    }
    if other != source {
        match position(entries, other) {
            Some(k) => {
                assert(after[k] == entries[k]);
                lemma_position_is(after, other, k);
            },
            None => {
                if position(after, other) is Some {
                    let k = position(after, other)->0;
                    assert(after[k] == entries[k]);
                }
            },
        }
    }
}

/// A source that a filter takes out is not found where that filter showed itself there, and is
/// as before where another one did. The other sources are as before.
pub proof fn law_removed_is_not_found(
    entries: Seq<SourceView>,
    source: Seq<char>,
    id: u64,
    other: Seq<char>,
)
    requires
        distinct_sources(entries),
    ensures
        distinct_sources(removed(entries, source, id)),
        shown_by(entries, source) == Some(id) ==> lookup(removed(entries, source, id), source) is None,
        shown_by(entries, source) != Some(id) ==> removed(entries, source, id) == entries,
        other != source ==> {
            &&& lookup(removed(entries, source, id), other) == lookup(entries, other)
            &&& shown_by(removed(entries, source, id), other) == shown_by(entries, other)
        },
{
    let after = removed(entries, source, id);
    lemma_position(entries, source);
    lemma_position(entries, other);
    lemma_position(after, other);
    lemma_position(after, source);
    if shown_by(entries, source) == Some(id) {
        let i = position(entries, source)->0;
        assert forall|k: int| 0 <= k < after.len() implies #[trigger] after[k] == entries[if k < i {
            k
        } else {
            k + 1
        }] by {}
        if position(after, source) is Some {
            let k = position(after, source)->0;
            let from = if k < i {
                k
            } else {
                k + 1
            };
            lemma_position_is(entries, source, from);
        }
        if other != source {
            match position(entries, other) {
                Some(k) => {
                    let to = if k < i {
                        k
                    } else {
                        k - 1
                    };
                    assert(after[to] == entries[k]);
                    lemma_position_is(after, other, to);
                },
                None => {
                    if position(after, other) is Some {
                        let k = position(after, other)->0;
                        let from = if k < i {
                            k
                        } else {
                            k + 1
                        };
                        assert(entries[from].source != other);
                    }
                },
            }
        }
    }
}

/// Names in a row, with commas between them.
pub open spec fn joined(entries: Seq<SourceView>) -> Seq<char>
    decreases entries.len(),
{
    if entries.len() == 0 {
        Seq::empty()
    } else if entries.len() == 1 {
        entries[0].source
    } else {
        joined(entries.drop_last()) + seq![','] + entries.last().source
    }
}

/// The entry that a question is about: the one of the source it names, or the first one.
pub open spec fn picked(entries: Seq<SourceView>, source: Option<Seq<char>>) -> Option<SourceView> {
    match source {
        Some(name) => match position(entries, name) {
            Some(i) => Some(entries[i]),
            None => None,
        },
        None => if entries.len() > 0 {
            Some(entries[0])
        } else {
            None
        },
    }
}

impl SnapshotTable {
    /// The names of all sources, with commas between them.
    pub fn sources(&self) -> (names: String)
        ensures
            names@ == joined(self@),
    {
        let mut names = String::new();
        let len: usize = self.entries.len();
        let mut i: usize = 0;
        while i < len
            invariant
                i <= len,
                len == self.entries@.len(),
                len == self@.len(),
                names@ == joined(self@.take(i as int)),
            decreases len - i,
        {
            proof {
                reveal_strlit(",");
                assert(","@ =~= seq![',']);
                assert(self@.take(i + 1).drop_last() =~= self@.take(i as int));
                assert(self@[i as int] == self.entries@[i as int]@);
            }
            if i > 0 {
                names.append(",");
            }
            names.append(self.entries[i].source.as_str());
            i = i + 1;
            assert(names@ =~= joined(self@.take(i as int)));
        }
        assert(self@.take(len as int) =~= self@);
        names
    }

    /// The entry of the named source, or the first one.
    pub fn pick(&self, source: &Option<String>) -> (entry: Option<&SourceSnapshot>)
        requires
            distinct_sources(self@),
        ensures
            match entry {
                Some(e) => picked(self@, text_of(*source)) == Some(e@),
                None => picked(self@, text_of(*source)) is None,
            },
    {
        match source {
            Some(name) => match self.find(name) {
                Some(i) => {
                    assert(self@[i as int] == self.entries@[i as int]@);
                    proof {
                        lemma_position(self@, name@);
                    }
                    Some(&self.entries[i])
                },
                None => None,
            },
            None => {
                if self.entries.len() > 0 {
                    assert(self@[0] == self.entries@[0]@);
                    Some(&self.entries[0])
                } else {
                    None
                }
            },
        }
    }
}

/// A snapshot and an entry show what they hold.
pub proof fn law_entries_show_what_they_hold(snapshot: FilterSnapshot, entry: SourceSnapshot)
    ensures
        snapshot@.expression == snapshot.expression@,
        snapshot@.enabled == snapshot.enabled,
        snapshot@.seed == snapshot.seed,
        snapshot@.frame_count == snapshot.frame_count,
        entry@.source == entry.source@,
        entry@.shown_by == entry.shown_by,
        entry@.snapshot == entry.snapshot@,
{
}

/// A source that stands in the table is found where it stands, with its own snapshot and its own
/// filter, by those who ask for it and by nobody who asks for another.
pub proof fn law_source_is_found_where_it_stands(entries: Seq<SourceView>, i: int, name: Seq<char>)
    requires
        distinct_sources(entries),
        0 <= i < entries.len(),
    ensures
        entries[i].source == name <==> position(entries, name) == Some(i),
        entries[i].source == name ==> {
            &&& lookup(entries, name) == Some(entries[i].snapshot)
            &&& shown_by(entries, name) == Some(entries[i].shown_by)
        },
        entries[i].source == name <==> picked(entries, Some(name)) == Some(entries[i]),
        picked(entries, None) == Some(entries[0]),
{
    lemma_position(entries, name);
    if entries[i].source == name {
        lemma_position_is(entries, name, i);
    }
    if picked(entries, Some(name)) == Some(entries[i]) {
        let k = position(entries, name)->0;
        assert(entries[k].source == name);
    }
}

/// A source that stands nowhere in the table is not found.
pub proof fn law_absent_source_is_not_found(entries: Seq<SourceView>, name: Seq<char>)
    requires
        forall|i: int| 0 <= i < entries.len() ==> (#[trigger] entries[i]).source != name,
    ensures
        position(entries, name) is None,
        lookup(entries, name) is None,
        shown_by(entries, name) is None,
        picked(entries, Some(name)) is None,
        entries.len() == 0 ==> picked(entries, None) is None,
{
    lemma_position(entries, name);
}

/// What is put in replaces the entry of its source, in that one's place, and comes last where the
/// source had none. Nothing else moves.
pub proof fn law_insertion_replaces_or_appends(
    entries: Seq<SourceView>,
    entry: SourceView,
    i: int,
)
    requires
        distinct_sources(entries),
    ensures
        0 <= i < entries.len() && entries[i].source == entry.source ==> inserted(entries, entry)
            == entries.update(i, entry),
        (forall|k: int| 0 <= k < entries.len() ==> (#[trigger] entries[k]).source != entry.source)
            ==> inserted(entries, entry) == entries.push(entry),
{
    lemma_position(entries, entry.source);
    if 0 <= i < entries.len() && entries[i].source == entry.source {
        lemma_position_is(entries, entry.source, i);
    }
}

/// A filter takes out the entry that it showed itself, which closes the gap, and no other.
pub proof fn law_removal_is_by_the_owner(
    entries: Seq<SourceView>,
    source: Seq<char>,
    id: u64,
    i: int,
)
    requires
        distinct_sources(entries),
    ensures
        0 <= i < entries.len() && entries[i].source == source ==> removed(entries, source, id) == if
            entries[i].shown_by == id {
            entries.remove(i)
        } else {
            entries
        },
        (forall|k: int| 0 <= k < entries.len() ==> (#[trigger] entries[k]).source != source)
            ==> removed(entries, source, id) == entries,
{
    lemma_position(entries, source);
    if 0 <= i < entries.len() && entries[i].source == source {
        lemma_position_is(entries, source, i);
    }
}

/// The list of sources grows by a comma and a name with every entry, however many there are.
pub proof fn law_list_grows_with_every_entry(entries: Seq<SourceView>, entry: SourceView)
    ensures
        joined(Seq::<SourceView>::empty()) == Seq::<char>::empty(),
        joined(seq![entry]) == entry.source,
        entries.len() > 0 ==> joined(entries.push(entry)) == joined(entries) + seq![',']
            + entry.source,
{
    assert(entries.push(entry).drop_last() =~= entries);
}

/// The list of sources is as long as all names together, and the commas between them.
pub proof fn law_list_has_room_for_every_name(entries: Seq<SourceView>)
    requires
        entries.len() > 0,
    ensures
        joined(entries).len() == entries.fold_left(
            0int,
            |total: int, e: SourceView| total + e.source.len(),
        ) + (entries.len() - 1),
    decreases entries.len(),
{
    let add = |total: int, e: SourceView| total + e.source.len();
    let fewer = entries.drop_last();
    assert(entries =~= fewer.push(entries.last()));
    if fewer.len() > 0 {
        law_list_has_room_for_every_name(fewer);
        law_list_grows_with_every_entry(fewer, entries.last());
    } else {
        assert(entries =~= seq![entries[0]]);
        law_list_grows_with_every_entry(fewer, entries[0]);
        assert(fewer.fold_left(0int, add) == 0);
    }
}

/// `name` stands in `text` from `at` on, with a comma or the text's end on either side.
pub open spec fn stands_at(text: Seq<char>, name: Seq<char>, at: int) -> bool {
    &&& 0 <= at <= at + name.len() <= text.len()
    &&& text.subrange(at, at + name.len()) == name
    &&& at == 0 || text[at - 1] == ','
    &&& at + name.len() == text.len() || text[at + name.len()] == ','
}

/// Every source in the table stands in the list of sources.
pub proof fn law_every_source_is_listed(entries: Seq<SourceView>, i: int) -> (at: int)
    requires
        0 <= i < entries.len(),
    ensures
        stands_at(joined(entries), entries[i].source, at),
    decreases entries.len(),
{
    let fewer = entries.drop_last();
    let last = entries.last();
    let name = entries[i].source;
    assert(entries =~= fewer.push(last));
    law_list_grows_with_every_entry(fewer, last);
    if fewer.len() == 0 {
        assert(entries =~= seq![last]);
        assert(joined(entries).subrange(0, name.len() as int) =~= name);
        0
    } else if i < fewer.len() {
        let at = law_every_source_is_listed(fewer, i);
        assert(joined(entries).subrange(at, at + name.len()) =~= joined(fewer).subrange(
            at,
            at + name.len(),
        ));
        at
    } else {
        let at = joined(fewer).len() as int + 1;
        assert(joined(entries).subrange(at, at + name.len()) =~= name);
        at
    }
}

}
