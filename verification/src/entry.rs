//! Entries of the garden, their counts, and the note shown to the next visitor.

use vstd::prelude::*;
use crate::text;
use crate::text::{is_blank, same_text};

verus! {

/// One thing a visitor left: a mood, a finished quest or a note.
#[derive(Debug)]
pub struct Entry {
    pub kind: String,
    pub mood: String,
    pub color: String,
    pub text: String,
    pub ts: u64,
}

impl Clone for Entry {
    fn clone(&self) -> (r: Self)
        ensures
            r == *self,
    {
        Entry {
            kind: self.kind.clone(),
            mood: self.mood.clone(),
            color: self.color.clone(),
            text: self.text.clone(),
            ts: self.ts,
        }
    }
}

/// The model of an entry: its texts as sequences of characters.
#[verifier::ext_equal]
pub struct EntryView {
    pub kind: Seq<char>,
    pub mood: Seq<char>,
    pub color: Seq<char>,
    pub text: Seq<char>,
    pub ts: u64,
}

impl View for Entry {
    type V = EntryView;

    open spec fn view(&self) -> EntryView {
        EntryView {
            kind: self.kind@,
            mood: self.mood@,
            color: self.color@,
            text: self.text@,
            ts: self.ts,
        }
    }
}

/// The models of a sequence of entries.
pub open spec fn views(entries: Seq<Entry>) -> Seq<EntryView> {
    Seq::new(entries.len(), |i: int| entries[i]@)
}

// ---------------------------------------------------------------------------
// Counts
// ---------------------------------------------------------------------------

/// How many entries there are of each kind.
#[derive(Clone, Copy, Debug, PartialEq, Eq)]
pub struct Stats {
    pub moods: usize,
    pub notes: usize,
    pub quests: usize,
}

impl Default for Stats {
    fn default() -> (r: Stats)
        ensures
            r == (Stats { moods: 0, notes: 0, quests: 0 }),
    {
        Stats { moods: 0, notes: 0, quests: 0 }
    }
}

/// How many of the entries are of the given kind.
pub open spec fn count_kind(entries: Seq<EntryView>, kind: Seq<char>) -> nat
    decreases entries.len(),
{
    if entries.len() == 0 {
        0
    } else {
        count_kind(entries.drop_last(), kind) + if entries.last().kind == kind {
            1nat
        } else {
            0nat
        }
    }
}

/// The kinds `mood`, `note` and `quest` are told apart.
pub proof fn lemma_kinds_differ()
    ensures
        "mood"@ != "note"@,
        "mood"@ != "quest"@,
        "note"@ != "quest"@,
{
    reveal_strlit("mood");
    reveal_strlit("note");
    reveal_strlit("quest");
    assert("mood"@[0] == 'm');
    assert("note"@[0] == 'n');
    assert("quest"@[0] == 'q');
}

/// Counts the entries of each kind. Entries of other kinds are not counted.
pub fn stats(entries: &[Entry]) -> (r: Stats)
    ensures
        r.moods == count_kind(views(entries@), "mood"@),
        r.notes == count_kind(views(entries@), "note"@),
        r.quests == count_kind(views(entries@), "quest"@),
{
    let mut stats: Stats = Stats::default();
    let mut i: usize = 0;
    let ghost all = views(entries@);
    assert(all.take(0) =~= Seq::<EntryView>::empty());
    while i < entries.len()
        invariant
            all == views(entries@),
            i <= entries@.len(),
            stats.moods == count_kind(all.take(i as int), "mood"@),
            stats.notes == count_kind(all.take(i as int), "note"@),
            stats.quests == count_kind(all.take(i as int), "quest"@),
            stats.moods <= i,
            stats.notes <= i,
            stats.quests <= i,
        decreases entries.len() - i,
    {
        proof {
            lemma_kinds_differ();
            assert(all.take(i + 1).drop_last() =~= all.take(i as int));
            assert(all.take(i + 1).last() == entries@[i as int]@);
        }
        let kind: &str = entries[i].kind.as_str();
        if same_text(kind, "mood") {
            stats.moods = stats.moods + 1;
        } else if same_text(kind, "note") {
            stats.notes = stats.notes + 1;
        } else if same_text(kind, "quest") {
            stats.quests = stats.quests + 1;
        }
        i = i + 1;
    }
    assert(all.take(i as int) =~= all);
    stats
}

/// Every entry is counted at most once.
pub proof fn law_counts_are_disjoint(entries: Seq<EntryView>)
    ensures
        count_kind(entries, "mood"@) + count_kind(entries, "note"@) + count_kind(
            entries,
            "quest"@,
        ) <= entries.len(),
    decreases entries.len(),
{
    lemma_kinds_differ();
    if entries.len() > 0 {
        law_counts_are_disjoint(entries.drop_last());
    }
}

// ---------------------------------------------------------------------------
// The latest note
// ---------------------------------------------------------------------------

/// Tells whether an entry is a note with something written in it.
pub open spec fn is_written_note(entry: EntryView) -> bool {
    entry.kind == "note"@ && text::trimmed(entry.text).len() > 0
}

/// The text of the last note with something written in it, if there is one.
pub open spec fn last_note(entries: Seq<EntryView>) -> Option<Seq<char>>
    decreases entries.len(),
{
    if entries.len() == 0 {
        None
    } else if is_written_note(entries.last()) {
        Some(entries.last().text)
    } else {
        last_note(entries.drop_last())
    }
}

/// The view of an optional string.
pub open spec fn option_text(s: Option<String>) -> Option<Seq<char>> {
    match s {
        Some(s) => Some(s@),
        None => None,
    }
}

/// Finds the text of the last note with something written in it.
pub fn latest_note(entries: &[Entry]) -> (r: Option<String>)
    ensures
        option_text(r) == last_note(views(entries@)),
{
    let mut i: usize = entries.len();
    let ghost all = views(entries@);
    assert(all.take(i as int) =~= all);
    while i > 0
        invariant
            all == views(entries@),
            i <= entries@.len(),
            last_note(all.take(i as int)) == last_note(all),
        decreases i,
    {
        assert(all.take(i as int).drop_last() =~= all.take(i - 1));
        assert(all.take(i as int).last() == entries@[i - 1]@);
        i = i - 1;
        let entry: &Entry = &entries[i];
        if same_text(entry.kind.as_str(), "note") && !is_blank(entry.text.as_str()) {
            return Some(entry.text.clone());
        }
    }
    None
}

/// The note shown is one of the entries, and no later one is a written note;
/// none is shown only if there is no written note.
pub proof fn law_last_note_is_last(entries: Seq<EntryView>)
    ensures
        match last_note(entries) {
            Some(note) => exists|i: int|
                #![trigger entries[i]]
                0 <= i < entries.len() && is_written_note(entries[i]) && entries[i].text == note
                    && forall|j: int|
                    i < j < entries.len() ==> !is_written_note(#[trigger] entries[j]),
            None => forall|j: int|
                0 <= j < entries.len() ==> !is_written_note(#[trigger] entries[j]),
        },
    decreases entries.len(),
{
    if entries.len() > 0 {
        let n = entries.len() - 1;
        if is_written_note(entries.last()) {
            assert(entries[n] == entries.last());
        } else {
            let init = entries.drop_last();
            law_last_note_is_last(init);
            assert forall|j: int| 0 <= j < n implies entries[j] == #[trigger] init[j] by {}
            if let Some(note) = last_note(init) {
                let i = choose|i: int|
                    #![trigger init[i]]
                    0 <= i < init.len() && is_written_note(init[i]) && init[i].text == note
                        && forall|j: int|
                        i < j < init.len() ==> !is_written_note(#[trigger] init[j]);
                assert forall|j: int| i < j < entries.len() implies !is_written_note(
                    #[trigger] entries[j],
                ) by {
                    if j < n {
                        assert(init[j] == entries[j]);
                    }
                }
                assert(entries[i] == init[i]);
            } else {
                assert forall|j: int| 0 <= j < entries.len() implies !is_written_note(
                    #[trigger] entries[j],
                ) by {
                    if j < n {
                        assert(init[j] == entries[j]);
                    }
                }
            }
        }
    }
}

/// The count of a kind is the number of entries that remain when those of other
/// kinds are left out.
pub proof fn law_count_is_number_of_kind(entries: Seq<EntryView>, kind: Seq<char>)
    ensures
        count_kind(entries, kind) == entries.filter(|e: EntryView| e.kind == kind).len(),
    decreases entries.len(),
{
    reveal(Seq::filter);
    if entries.len() > 0 {
        law_count_is_number_of_kind(entries.drop_last(), kind);
    }
}

/// The note found is that of an entry of kind `note` that holds more than white
/// space, exactly as it was written, and no later one is such a note; nothing
/// is found only if there is no such note.
pub proof fn law_note_found(entries: Seq<EntryView>, note: EntryView, later: Seq<EntryView>)
    requires
        forall|i: int|
            0 <= i < later.len() ==> (#[trigger] later[i]).kind != "note"@ || text::all_space(
                later[i].text,
            ),
    ensures
        last_note(later) is None,
        note.kind == "note"@ && !text::all_space(note.text) ==> last_note(
            entries.push(note) + later,
        ) == Some(note.text),
    decreases later.len(),
{
    text::law_blank(note.text);
    let all = entries.push(note) + later;
    if later.len() == 0 {
        assert(all =~= entries.push(note));
        assert(all.last() == note);
    } else {
        let init = later.drop_last();
        assert forall|i: int| 0 <= i < init.len() implies (#[trigger] init[i]).kind != "note"@
            || text::all_space(init[i].text) by {
            assert(init[i] == later[i]);
        }
        law_note_found(entries, note, init);
        text::law_blank(later[later.len() - 1].text);
        assert(all.drop_last() =~= entries.push(note) + init);
        assert(all.last() == later[later.len() - 1]);
    }
}

} // verus!
