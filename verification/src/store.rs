//! The garden's file: one stored line per entry, added at the end.

use vstd::prelude::*;
use crate::entry;
use crate::entry::{Entry, EntryView};
use crate::escape;
use crate::record;
use crate::record::{decode_all, encode_entry};
use crate::text;
use crate::text::lines_of;

verus! {

/// The entries that a file with the given contents holds.
pub open spec fn loaded(contents: Seq<char>) -> Seq<EntryView> {
    record::decoded_all(text::lines(contents))
}

/// What is added to the file for an entry.
pub open spec fn appended(entry: EntryView) -> Seq<char> {
    record::encoded(entry) + "\n"@
}

/// The entries of the file, given its contents. A file that could not be read
/// holds none, and lines that stand for no entry are passed over.
pub fn load_entries(contents: Option<&str>) -> (r: Vec<Entry>)
    ensures
        entry::views(r@) == match contents {
            Some(contents) => loaded(contents@),
            None => Seq::<EntryView>::empty(),
        },
{
    match contents {
        Some(contents) => decode_all(&lines_of(contents)),
        None => {
            let r: Vec<Entry> = Vec::new();
            assert(entry::views(r@) =~= Seq::<EntryView>::empty());
            r
        },
    }
}

/// The text to add to the file for an entry.
pub fn append_entry(entry: &Entry) -> (r: String)
    ensures
        r@ == appended(entry@),
{
    let mut line: String = encode_entry(entry);
    line.append("\n");
    line
}

// ---------------------------------------------------------------------------
// Laws
// ---------------------------------------------------------------------------

/// Tells whether every line of the file is complete: it is empty or ends with
/// a line feed.
pub open spec fn is_complete(contents: Seq<char>) -> bool {
    contents.len() == 0 || contents.last() == '\n'
}

proof fn lemma_appended_is_one_line(entry: EntryView)
    ensures
        is_complete(appended(entry)),
        text::lines(appended(entry)) == seq![record::encoded(entry)],
{
    reveal_strlit("\n");
    let line = record::encoded(entry);
    let s = appended(entry);
    assert(s.last() == '\n');
    assert forall|j: int| 0 <= j < line.len() implies s[j] != '\n' by {
        assert(s[j] == line[j]);
        record::law_encoded_is_one_line(entry, j);
    }
    text::lemma_find_is(s, '\n', line.len() as int);
    assert(text::before(s, '\n') =~= line);
    assert(text::after(s, '\n') =~= Seq::<char>::empty());
    if line.len() > 0 {
        record::law_encoded_is_one_line(entry, line.len() - 1);
    }
    assert(text::lines(text::after(s, '\n')) =~= Seq::<Seq<char>>::empty());
    assert(text::lines(s) =~= seq![line]);
}

/// Adding an entry to a complete file leaves it complete and adds exactly that
/// entry, its texts without carriage returns, after all the others.
pub proof fn law_append_then_load(contents: Seq<char>, entry: EntryView)
    requires
        is_complete(contents),
    ensures
        is_complete(contents + appended(entry)),
        loaded(contents + appended(entry)) == loaded(contents).push(record::stored(entry)),
{
    lemma_appended_is_one_line(entry);
    text::lemma_lines_concat(contents, appended(entry));
    let lines = text::lines(contents + appended(entry));
    assert(lines.drop_last() =~= text::lines(contents));
    assert(lines.last() == record::encoded(entry));
    record::law_entry_read_back(entry);
}

/// The file that a sequence of entries is written to, from nothing.
pub open spec fn written(entries: Seq<EntryView>) -> Seq<char>
    decreases entries.len(),
{
    if entries.len() == 0 {
        Seq::empty()
    } else {
        written(entries.drop_last()) + appended(entries.last())
    }
}

/// A file written entry by entry is loaded as these entries, in order, if no
/// text of theirs holds a carriage return.
pub proof fn law_written_is_loaded(entries: Seq<EntryView>)
    requires
        forall|i: int| 0 <= i < entries.len() ==> record::free_of_cr(#[trigger] entries[i]),
    ensures
        is_complete(written(entries)),
        loaded(written(entries)) == entries,
    decreases entries.len(),
{
    if entries.len() == 0 {
        assert(loaded(written(entries)) =~= entries);
    } else {
        let init = entries.drop_last();
        assert forall|i: int| 0 <= i < init.len() implies record::free_of_cr(#[trigger] init[i]) by {
            assert(init[i] == entries[i]);
        }
        law_written_is_loaded(init);
        law_append_then_load(written(init), entries.last());
        assert(record::free_of_cr(entries[entries.len() - 1]));
        record::law_entry_read_back(entries.last());
        record::law_clean_entry_read_back(entries.last());
        assert(init.push(entries.last()) =~= entries);
    }
}

/// A file is read line by line, whichever of the two endings a line has: its
/// entry, if it stands for one, comes before those of the lines that follow.
pub proof fn law_file_is_read_line_by_line(line: Seq<char>, rest: Seq<char>)
    requires
        !line.contains('\n'),
        line.len() > 0 ==> line.last() != '\r',
    ensures
        ({
            let first = match record::decoded(line) {
                Some(entry) => seq![entry],
                None => Seq::empty(),
            };
            &&& loaded(line + seq!['\n'] + rest) == first + loaded(rest)
            &&& loaded(line + seq!['\r', '\n'] + rest) == first + loaded(rest)
            &&& line.len() > 0 ==> loaded(line) == first
        }),
        loaded(Seq::empty()) == Seq::<EntryView>::empty(),
{
    text::law_lines(line, rest);
    let none = Seq::<Seq<char>>::empty();
    record::law_lines_are_read_in_turn(none, line, text::lines(rest));
    record::law_lines_are_read_in_turn(none, line, none);
    let first = match record::decoded(line) {
        Some(entry) => seq![entry],
        None => Seq::empty(),
    };
    assert(none.push(line) + text::lines(rest) =~= seq![line] + text::lines(rest));
    assert(none.push(line) + none =~= seq![line]);
    assert(record::decoded_all(none) + first + loaded(rest) =~= first + loaded(rest));
    assert(record::decoded_all(none) + first + record::decoded_all(none) =~= first);
}

/// What is added to the file for an entry is one line with its ending: the line
/// stands for the entry, its texts without carriage returns, and no line feed
/// stands in it but the one that ends it.
pub proof fn law_appended_is_one_line(entry: EntryView)
    ensures
        appended(entry).len() > 0,
        appended(entry).last() == '\n',
        !appended(entry).drop_last().contains('\n'),
        record::decoded(appended(entry).drop_last()) == Some(record::stored(entry)),
        record::stored(entry).ts == entry.ts,
        record::stored(entry).kind == entry.kind.filter(|c: char| c != '\r'),
        record::stored(entry).mood == entry.mood.filter(|c: char| c != '\r'),
        record::stored(entry).color == entry.color.filter(|c: char| c != '\r'),
        record::stored(entry).text == entry.text.filter(|c: char| c != '\r'),
{
    reveal_strlit("\n");
    let line = record::encoded(entry);
    assert(appended(entry).drop_last() =~= line);
    if line.contains('\n') {
        let k = choose|k: int| 0 <= k < line.len() && line[k] == '\n';
        record::law_encoded_is_one_line(entry, k);
    }
    record::law_entry_read_back(entry);
    escape::law_tsv_keeps_all_but_cr(entry.kind);
    escape::law_tsv_keeps_all_but_cr(entry.mood);
    escape::law_tsv_keeps_all_but_cr(entry.color);
    escape::law_tsv_keeps_all_but_cr(entry.text);
    escape::law_tsv_read_back(entry.kind);
    escape::law_tsv_read_back(entry.mood);
    escape::law_tsv_read_back(entry.color);
    escape::law_tsv_read_back(entry.text);
}

} // verus!
