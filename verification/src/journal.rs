//! The journal: notes on each unit, kept by its serial number.

use crate::text;
use vstd::prelude::*;
use vstd::string::*;

verus! {

/// A note on a unit.
#[derive(Debug, Clone)]
pub struct JournalEntry {
    pub timestamp: String,
    pub text: String,
}

/// A note as characters.
pub struct EntryView {
    pub timestamp: Seq<char>,
    pub text: Seq<char>,
}

impl View for JournalEntry {
    type V = EntryView;

    open spec fn view(&self) -> EntryView {
        EntryView { timestamp: self.timestamp@, text: self.text@ }
    }
}

/// The views of a list of notes.
pub open spec fn entry_views(entries: Seq<JournalEntry>) -> Seq<EntryView> {
    Seq::new(entries.len(), |i: int| entries[i]@)
}

/// The file that the journal is kept in, relative to the working directory.
pub fn journal_path() -> (path: String)
    ensures
        path@ == "journals/journal.yaml"@,
{
    "journals/journal.yaml".to_string()
}

/// The notes on one unit, oldest first.
pub struct UnitJournal {
    pub serial: String,
    pub entries: Vec<JournalEntry>,
}

/// The notes on all units.
pub struct JournalStore {
    units: Vec<UnitJournal>,
}

/// The notes by serial number.
pub open spec fn journal_map(units: Seq<UnitJournal>) -> Map<Seq<char>, Seq<EntryView>>
    decreases units.len(),
{
    if units.len() == 0 {
        Map::empty()
    } else {
        journal_map(units.drop_last()).insert(
            units.last().serial@,
            entry_views(units.last().entries@),
        )
    }
}

/// No serial number is listed twice.
pub open spec fn serials_distinct(units: Seq<UnitJournal>) -> bool {
    forall|i: int, j: int|
        0 <= i < j < units.len() ==> (#[trigger] units[i]).serial@ != (#[trigger] units[j]).serial@
}

/// The notes on the unit `serial`; none when it has no journal.
pub open spec fn notes_on(m: Map<Seq<char>, Seq<EntryView>>, serial: Seq<char>) -> Seq<EntryView> {
    if m.dom().contains(serial) {
        m[serial]
    } else {
        Seq::empty()
    }
}

proof fn lemma_journal_map(units: Seq<UnitJournal>)
    requires
        serials_distinct(units),
    ensures
        forall|i: int|
            0 <= i < units.len() ==> journal_map(units).dom().contains(
                (#[trigger] units[i]).serial@,
            ) && journal_map(units)[units[i].serial@] == entry_views(units[i].entries@),
        forall|s: Seq<char>| #[trigger]
            journal_map(units).dom().contains(s) ==> exists|i: int|
                0 <= i < units.len() && (#[trigger] units[i]).serial@ == s,
    decreases units.len(),
{
    if units.len() > 0 {
        let rest = units.drop_last();
        assert(serials_distinct(rest)) by {
            assert forall|i: int, j: int| 0 <= i < j < rest.len() implies (
            #[trigger] rest[i]).serial@ != (#[trigger] rest[j]).serial@ by {
                assert(rest[i] == units[i]);
                assert(rest[j] == units[j]);
            }
        }
        lemma_journal_map(rest);
        assert forall|i: int| 0 <= i < units.len() implies journal_map(units).dom().contains(
            (#[trigger] units[i]).serial@,
        ) && journal_map(units)[units[i].serial@] == entry_views(units[i].entries@) by {
            if i < units.len() - 1 {
                assert(rest[i] == units[i]);
                assert(units[i].serial@ != units[units.len() - 1].serial@);
            }
        }
        assert forall|s: Seq<char>| #[trigger] journal_map(units).dom().contains(s) implies exists|
            i: int,
        | 0 <= i < units.len() && (#[trigger] units[i]).serial@ == s by {
            if s == units.last().serial@ {
                assert(units[units.len() - 1].serial@ == s);
            } else {
                assert(journal_map(rest).dom().contains(s));
                let i = choose|i: int| 0 <= i < rest.len() && (#[trigger] rest[i]).serial@ == s;
                assert(units[i].serial@ == s);
            }
        }
    }
}

impl View for JournalStore {
    type V = Map<Seq<char>, Seq<EntryView>>;

    closed spec fn view(&self) -> Map<Seq<char>, Seq<EntryView>> {
        journal_map(self.units@)
    }
}

impl JournalStore {
    /// Every unit has one journal.
    pub closed spec fn wf(&self) -> bool {
        serials_distinct(self.units@)
    }

    /// An empty journal.
    pub fn new() -> (store: JournalStore)
        ensures
            store.wf(),
            store@ == Map::<Seq<char>, Seq<EntryView>>::empty(),
    {
        JournalStore { units: Vec::new() }
    }

    fn position(&self, serial: &str) -> (p: Option<usize>)
        requires
            self.wf(),
        ensures
            match p {
                Some(i) => {
                    &&& i < self.units@.len()
                    &&& self.units@[i as int].serial@ == serial@
                    &&& self@.dom().contains(serial@)
                    &&& self@[serial@] == entry_views(self.units@[i as int].entries@)
                },
                None => {
                    &&& !self@.dom().contains(serial@)
                    &&& forall|k: int|
                        0 <= k < self.units@.len() ==> (#[trigger] self.units@[k]).serial@
                            != serial@
                },
            },
    {
        let mut i: usize = 0;
        while i < self.units.len()
            invariant
                self.wf(),
                i <= self.units@.len(),
                forall|k: int| 0 <= k < i ==> (#[trigger] self.units@[k]).serial@ != serial@,
            decreases self.units.len() - i,
        {
            if text::same_text(self.units[i].serial.as_str(), serial) {
                proof {
                    lemma_journal_map(self.units@);
                }
                return Some(i);
            }
            i = i + 1;
        }
        proof {
            lemma_journal_map(self.units@);
        }
        None
    }

    fn put(&mut self, i: usize, entries: Vec<JournalEntry>)
        requires
            old(self).wf(),
            i < old(self).units@.len(),
        ensures
            final(self).wf(),
            final(self)@ == old(self)@.insert(
                old(self).units@[i as int].serial@,
                entry_views(entries@),
            ),
    {
        let ghost before = self.units@;
        let ghost views = entry_views(entries@);
        let serial = self.units[i].serial.clone();
        self.units[i] = UnitJournal { serial, entries };
        proof {
            let after = self.units@;
            assert(after =~= before.update(i as int, after[i as int]));
            assert forall|k: int, l: int| 0 <= k < l < after.len() implies (
            #[trigger] after[k]).serial@ != (#[trigger] after[l]).serial@ by {
                assert(after[k].serial@ == before[k].serial@);
                assert(after[l].serial@ == before[l].serial@);
            }
            lemma_journal_map(before);
            lemma_journal_map(after);
            let key = before[i as int].serial@;
            assert(after[i as int].serial@ == key);
            assert forall|s: Seq<char>| journal_map(after).dom().contains(s) == journal_map(
                before,
            ).insert(key, views).dom().contains(s) by {
                if journal_map(after).dom().contains(s) {
                    let k = choose|k: int| 0 <= k < after.len() && (#[trigger] after[k]).serial@ == s;
                    assert(before[k].serial@ == s);
                }
                if journal_map(before).dom().contains(s) {
                    let k = choose|k: int| 0 <= k < before.len() && (#[trigger] before[k]).serial@ == s;
                    assert(after[k].serial@ == s);
                }
            }
            assert forall|s: Seq<char>| journal_map(after).dom().contains(s) implies journal_map(
                after,
            )[s] == journal_map(before).insert(key, views)[s] by {
                let k = choose|k: int| 0 <= k < after.len() && (#[trigger] after[k]).serial@ == s;
                if k != i {
                    assert(after[k] == before[k]);
                    assert(after[k].serial@ != key) by {
                        if k < i {
                            assert(before[k].serial@ != before[i as int].serial@);
                        } else {
                            assert(before[i as int].serial@ != before[k].serial@);
                        }
                    }
                }
            }
            assert(self@ =~= old(self)@.insert(key, views));
        }
    }

    /// Takes over the notes on a unit, as read from the file.
    pub fn load_unit(&mut self, serial: String, entries: Vec<JournalEntry>)
        requires
            old(self).wf(),
        ensures
            final(self).wf(),
            final(self)@ == old(self)@.insert(serial@, entry_views(entries@)),
    {
        match self.position(serial.as_str()) {
            Some(i) => self.put(i, entries),
            None => {
                let ghost before = self.units@;
                self.units.push(UnitJournal { serial, entries });
                proof {
                    let after = self.units@;
                    assert(after.drop_last() =~= before);
                    assert forall|k: int, l: int| 0 <= k < l < after.len() implies (
                    #[trigger] after[k]).serial@ != (#[trigger] after[l]).serial@ by {
                        assert(after[k] == before[k]);
                        if l < before.len() {
                            assert(after[l] == before[l]);
                        }
                    }
                }
            },
        }
    }

    /// The number of notes on a unit.
    pub fn count(&self, serial: &str) -> (n: usize)
        requires
            self.wf(),
        ensures
            n == notes_on(self@, serial@).len(),
    {
        match self.position(serial) {
            Some(i) => self.units[i].entries.len(),
            None => 0,
        }
    }

    /// The notes on a unit as they are shown: newest first.
    pub fn shown(&self, serial: &str) -> (list: Vec<JournalEntry>)
        requires
            self.wf(),
        ensures
            entry_views(list@) == notes_on(self@, serial@).reverse(),
    {
        let mut list: Vec<JournalEntry> = Vec::new();
        match self.position(serial) {
            None => {
                assert(entry_views(list@) =~= notes_on(self@, serial@).reverse());
            },
            Some(i) => {
                let entries = &self.units[i].entries;
                let mut k: usize = entries.len();
                while k > 0
                    invariant
                        k <= entries@.len(),
                        list@.len() == entries@.len() - k,
                        forall|j: int|
                            0 <= j < list@.len() ==> (#[trigger] list@[j])@
                                == entries@[entries@.len() - 1 - j]@,
                    decreases k,
                {
                    let e = &entries[k - 1];
                    list.push(
                        JournalEntry { timestamp: e.timestamp.clone(), text: e.text.clone() },
                    );
                    k = k - 1;
                }
                assert(entry_views(list@) =~= notes_on(self@, serial@).reverse());
            },
        }
        list
    }

    /// Adds a note on a unit. An empty note, or one on a unit without a serial number, is not
    /// taken.
    pub fn add_entry(&mut self, serial: &str, timestamp: String, text: String) -> (added: bool)
        requires
            old(self).wf(),
        ensures
            final(self).wf(),
            added == (serial@.len() > 0 && text@.len() > 0),
            !added ==> final(self)@ == old(self)@,
            added ==> final(self)@ == old(self)@.insert(
                serial@,
                notes_on(old(self)@, serial@).push(
                    EntryView { timestamp: timestamp@, text: text@ },
                ),
            ),
    {
        if serial.is_empty() || text.as_str().is_empty() {
            return false;
        }
        let ghost note = EntryView { timestamp: timestamp@, text: text@ };
        let entry = JournalEntry { timestamp, text };
        match self.position(serial) {
            Some(i) => {
                let mut entries = copy_entries(&self.units[i].entries);
                let ghost kept = entries@;
                entries.push(entry);
                assert(entry_views(entries@) =~= entry_views(kept).push(note));
                self.put(i, entries);
            },
            None => {
                let mut entries: Vec<JournalEntry> = Vec::new();
                entries.push(entry);
                assert(entry_views(entries@) =~= Seq::<EntryView>::empty().push(note));
                self.load_unit(serial.to_string(), entries);
            },
        }
        true
    }

    /// Deletes the note that is shown at position `shown`. A position past the end stands for
    /// the last one shown. Tells whether the unit has a journal.
    pub fn delete_entry(&mut self, serial: &str, shown: usize) -> (known: bool)
        requires
            old(self).wf(),
            shown < usize::MAX,
        ensures
            final(self).wf(),
            known == (serial@.len() > 0 && old(self)@.dom().contains(serial@)),
            !known ==> final(self)@ == old(self)@,
            known ==> final(self)@ == old(self)@.insert(
                serial@,
                without_shown(old(self)@[serial@], shown as nat),
            ),
    {
        if serial.is_empty() {
            return false;
        }
        match self.position(serial) {
            None => false,
            Some(i) => {
                let mut entries = copy_entries(&self.units[i].entries);
                let ghost all = entries@;
                let n: usize = entries.len();
                if n > 0 {
                    let at: usize = if n >= 1 + shown {
                        n - (1 + shown)
                    } else {
                        0
                    };
                    entries.remove(at);
                    assert(entry_views(entries@) =~= entry_views(all).remove(at as int));
                }
                assert(entry_views(entries@) =~= without_shown(entry_views(all), shown as nat));
                self.put(i, entries);
                true
            },
        }
    }
}

fn copy_entries(entries: &Vec<JournalEntry>) -> (copy: Vec<JournalEntry>)
    ensures
        entry_views(copy@) == entry_views(entries@),
        copy@.len() == entries@.len(),
{
    let mut copy: Vec<JournalEntry> = Vec::new();
    let mut i: usize = 0;
    while i < entries.len()
        invariant
            i <= entries@.len(),
            copy@.len() == i,
            forall|k: int| 0 <= k < i ==> (#[trigger] copy@[k])@ == entries@[k]@,
        decreases entries.len() - i,
    {
        copy.push(
            JournalEntry {
                timestamp: entries[i].timestamp.clone(),
                text: entries[i].text.clone(),
            },
        );
        i = i + 1;
    }
    assert(entry_views(copy@) =~= entry_views(entries@));
    copy
}

/// The notes without the one shown at position `shown`, newest first; a position past the end
/// stands for the oldest note.
pub open spec fn without_shown(notes: Seq<EntryView>, shown: nat) -> Seq<EntryView> {
    if notes.len() == 0 {
        notes
    } else if shown < notes.len() {
        notes.remove(notes.len() - 1 - shown)
    } else {
        notes.remove(0)
    }
}

/// A note just added is shown first, and deleting what is shown first takes it away again.
pub proof fn law_add_then_delete(notes: Seq<EntryView>, note: EntryView)
    ensures
        notes.push(note).reverse()[0] == note,
        without_shown(notes.push(note), 0) == notes,
        notes.push(note).reverse().skip(1) == notes.reverse(),
{
    assert(without_shown(notes.push(note), 0) =~= notes);
    assert(notes.push(note).reverse().skip(1) =~= notes.reverse());
}

/// Deleting takes away exactly the note that is shown at that position.
pub proof fn law_delete_shown(notes: Seq<EntryView>, shown: nat)
    requires
        shown < notes.len(),
    ensures
        without_shown(notes, shown).reverse() == notes.reverse().remove(shown as int),
{
    assert(without_shown(notes, shown).reverse() =~= notes.reverse().remove(shown as int));
}

/// A position past the end of what is shown deletes the oldest note, and a journal without notes
/// stays empty. One note less is kept otherwise.
pub proof fn law_delete_past_end(notes: Seq<EntryView>, shown: nat)
    ensures
        shown >= notes.len() && notes.len() > 0 ==> without_shown(notes, shown) == notes.skip(1),
        notes.len() == 0 ==> without_shown(notes, shown).len() == 0,
        notes.len() > 0 ==> without_shown(notes, shown).len() == notes.len() - 1,
{
    if notes.len() > 0 && shown >= notes.len() {
        assert(without_shown(notes, shown) =~= notes.skip(1));
    }
}

/// The notes of a unit are those of its journal; a unit without a journal has none.
pub proof fn law_notes_of_unit(units: Seq<UnitJournal>, i: int, serial: Seq<char>)
    requires
        serials_distinct(units),
    ensures
        0 <= i < units.len() ==> notes_on(journal_map(units), units[i].serial@) == entry_views(
            units[i].entries@,
        ),
        (forall|k: int| 0 <= k < units.len() ==> (#[trigger] units[k]).serial@ != serial)
            ==> notes_on(journal_map(units), serial).len() == 0,
    decreases units.len(),
{
    if units.len() > 0 {
        let before = units.drop_last();
        assert(forall|k: int| 0 <= k < before.len() ==> before[k] == units[k]);
        law_notes_of_unit(before, i, serial);
        assert(units[units.len() - 1] == units.last());
        if 0 <= i < before.len() {
            assert(units[i].serial@ != units[units.len() - 1].serial@);
            lemma_listed(before, i);
        }
        if forall|k: int| 0 <= k < units.len() ==> (#[trigger] units[k]).serial@ != serial {
            assert(units[units.len() - 1].serial@ != serial);
            assert forall|k: int| 0 <= k < before.len() implies (#[trigger] before[k]).serial@
                != serial by {
                assert(units[k].serial@ != serial);
            }
            lemma_unlisted(before, serial);
        }
    }
}

proof fn lemma_listed(units: Seq<UnitJournal>, i: int)
    requires
        0 <= i < units.len(),
    ensures
        journal_map(units).dom().contains(units[i].serial@),
    decreases units.len(),
{
    if i < units.len() - 1 {
        assert(units.drop_last()[i] == units[i]);
        lemma_listed(units.drop_last(), i);
    }
}

proof fn lemma_unlisted(units: Seq<UnitJournal>, serial: Seq<char>)
    requires
        forall|k: int| 0 <= k < units.len() ==> (#[trigger] units[k]).serial@ != serial,
    ensures
        !journal_map(units).dom().contains(serial),
    decreases units.len(),
{
    if units.len() > 0 {
        assert(units[units.len() - 1].serial@ != serial);
        assert forall|k: int| 0 <= k < units.drop_last().len() implies (
        #[trigger] units.drop_last()[k]).serial@ != serial by {
            assert(units[k].serial@ != serial);
        }
        lemma_unlisted(units.drop_last(), serial);
    }
}

} // verus!
