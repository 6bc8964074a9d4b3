//! The stored form of one entry: five fields on one line, separated by tabs.

use vstd::prelude::*;
use crate::entry;
use crate::entry::{Entry, EntryView};
use crate::escape;
use crate::escape::{escape_tsv, unescape_tsv};
use crate::number;
use crate::number::{parse_number, push_decimal};
use crate::text;
use crate::text::split_text;

verus! {

/// Escapes one field of a stored line.
pub fn escape_field(value: &str) -> (r: String)
    ensures
        r@ == escape::tsv_escaped(value@),
{
    escape_tsv(value)
}

/// Reads one field of a stored line.
pub fn unescape_field(value: &str) -> (r: String)
    ensures
        r@ == escape::tsv_unescaped(value@),
{
    unescape_tsv(value)
}

/// The line that an entry is stored as: its timestamp, kind, mood, color and
/// text.
pub open spec fn encoded(entry: EntryView) -> Seq<char> {
    number::decimal(entry.ts as nat) + "\t"@ + escape::tsv_escaped(entry.kind) + "\t"@
        + escape::tsv_escaped(entry.mood) + "\t"@ + escape::tsv_escaped(entry.color) + "\t"@
        + escape::tsv_escaped(entry.text)
}

/// The entry that a line stands for. There is none if the line does not have
/// five fields, or if the first is not a timestamp.
pub open spec fn decoded(line: Seq<char>) -> Option<EntryView> {
    let parts = text::split(line, '\t');
    if parts.len() != 5 {
        None
    } else {
        match number::parsed(parts[0], u64::MAX as nat) {
            Some(ts) => Some(
                EntryView {
                    kind: escape::tsv_unescaped(parts[1]),
                    mood: escape::tsv_unescaped(parts[2]),
                    color: escape::tsv_unescaped(parts[3]),
                    text: escape::tsv_unescaped(parts[4]),
                    ts: ts as u64,
                },
            ),
            None => None,
        }
    }
}

/// The entries that lines stand for, in order; lines that stand for none are
/// passed over.
pub open spec fn decoded_all(rows: Seq<Seq<char>>) -> Seq<EntryView>
    decreases rows.len(),
{
    if rows.len() == 0 {
        Seq::empty()
    } else {
        match decoded(rows.last()) {
            Some(entry) => decoded_all(rows.drop_last()).push(entry),
            None => decoded_all(rows.drop_last()),
        }
    }
}

/// Writes the line that an entry is stored as.
pub fn encode_entry(entry: &Entry) -> (r: String)
    ensures
        r@ == encoded(entry@),
{
    let mut out: String = String::new();
    push_decimal(&mut out, entry.ts);
    out.append("\t");
    out.append(escape_field(entry.kind.as_str()).as_str());
    out.append("\t");
    out.append(escape_field(entry.mood.as_str()).as_str());
    out.append("\t");
    out.append(escape_field(entry.color.as_str()).as_str());
    out.append("\t");
    out.append(escape_field(entry.text.as_str()).as_str());
    assert(out@ =~= encoded(entry@));
    out
}

/// The view of an optional entry.
pub open spec fn option_entry(entry: Option<Entry>) -> Option<EntryView> {
    match entry {
        Some(entry) => Some(entry@),
        None => None,
    }
}

/// Reads the entry that a line stands for.
pub fn decode_entry(line: &str) -> (r: Option<Entry>)
    ensures
        option_entry(r) == decoded(line@),
{
    let parts: Vec<String> = split_text(line, '\t');
    let ghost split = text::split(line@, '\t');
    assert(forall|i: int| 0 <= i < parts@.len() ==> split[i] == #[trigger] parts@[i]@);
    if parts.len() != 5 {
        return None;
    }
    match parse_number(parts[0].as_str(), u64::MAX) {
        Some(ts) => Some(
            Entry {
                kind: unescape_field(parts[1].as_str()),
                mood: unescape_field(parts[2].as_str()),
                color: unescape_field(parts[3].as_str()),
                text: unescape_field(parts[4].as_str()),
                ts,
            },
        ),
        None => None,
    }
}

/// Reads the entries that lines stand for.
pub fn decode_all(rows: &Vec<String>) -> (r: Vec<Entry>)
    ensures
        entry::views(r@) == decoded_all(text::texts(rows@)),
{
    let mut out: Vec<Entry> = Vec::new();
    let mut i: usize = 0;
    let ghost all = text::texts(rows@);
    assert(all.take(0) =~= Seq::<Seq<char>>::empty());
    assert(entry::views(out@) =~= Seq::<EntryView>::empty());
    while i < rows.len()
        invariant
            all == text::texts(rows@),
            i <= rows@.len(),
            entry::views(out@) == decoded_all(all.take(i as int)),
        decreases rows.len() - i,
    {
        let ghost done = entry::views(out@);
        assert(all.take(i + 1).drop_last() =~= all.take(i as int));
        assert(all.take(i + 1).last() == rows@[i as int]@);
        if let Some(entry) = decode_entry(rows[i].as_str()) {
            out.push(entry);
            assert(entry::views(out@) =~= done.push(entry@));
        }
        i = i + 1;
    }
    assert(all.take(i as int) =~= all);
    out
}

// ---------------------------------------------------------------------------
// Laws
// ---------------------------------------------------------------------------

/// An entry as it is read again: its texts without carriage returns.
pub open spec fn stored(entry: EntryView) -> EntryView {
    EntryView {
        kind: escape::without_cr(entry.kind),
        mood: escape::without_cr(entry.mood),
        color: escape::without_cr(entry.color),
        text: escape::without_cr(entry.text),
        ts: entry.ts,
    }
}

/// Tells whether no text of the entry holds a carriage return.
pub open spec fn free_of_cr(entry: EntryView) -> bool {
    &&& !entry.kind.contains('\r')
    &&& !entry.mood.contains('\r')
    &&& !entry.color.contains('\r')
    &&& !entry.text.contains('\r')
}

proof fn lemma_split_head(head: Seq<char>, tail: Seq<char>)
    requires
        forall|i: int| 0 <= i < head.len() ==> #[trigger] head[i] != '\t',
    ensures
        text::split(head + "\t"@ + tail, '\t') == seq![head] + text::split(tail, '\t'),
{
    reveal_strlit("\t");
    let s = head + "\t"@ + tail;
    assert forall|j: int| 0 <= j < head.len() implies s[j] != '\t' by {
        assert(s[j] == head[j]);
    }
    text::lemma_find_is(s, '\t', head.len() as int);
    assert(text::before(s, '\t') =~= head);
    assert(text::after(s, '\t') =~= tail);
}

proof fn lemma_split_whole(s: Seq<char>)
    requires
        forall|i: int| 0 <= i < s.len() ==> #[trigger] s[i] != '\t',
    ensures
        text::split(s, '\t') == seq![s],
{
    text::lemma_find_is(s, '\t', s.len() as int);
}

proof fn lemma_field(s: Seq<char>)
    ensures
        forall|i: int|
            0 <= i < escape::tsv_escaped(s).len() ==> #[trigger] escape::tsv_escaped(s)[i] != '\t',
{
    assert forall|i: int| 0 <= i < escape::tsv_escaped(s).len() implies #[trigger] escape::tsv_escaped(
        s,
    )[i] != '\t' by {
        escape::law_tsv_escaped_stays_in_field(s, i);
    }
}

/// What is written of an entry is read back as the entry, its texts without
/// carriage returns.
pub proof fn law_entry_read_back(entry: EntryView)
    ensures
        decoded(encoded(entry)) == Some(stored(entry)),
{
    let ts = number::decimal(entry.ts as nat);
    let kind = escape::tsv_escaped(entry.kind);
    let mood = escape::tsv_escaped(entry.mood);
    let color = escape::tsv_escaped(entry.color);
    let words = escape::tsv_escaped(entry.text);
    assert forall|i: int| 0 <= i < ts.len() implies #[trigger] ts[i] != '\t' by {
        number::law_decimal_is_digits(entry.ts as nat, i);
    }
    lemma_field(entry.kind);
    lemma_field(entry.mood);
    lemma_field(entry.color);
    lemma_field(entry.text);
    let after_color = words;
    let after_mood = color + "\t"@ + after_color;
    let after_kind = mood + "\t"@ + after_mood;
    let after_ts = kind + "\t"@ + after_kind;
    assert(encoded(entry) =~= ts + "\t"@ + after_ts);
    lemma_split_head(ts, after_ts);
    lemma_split_head(kind, after_kind);
    lemma_split_head(mood, after_mood);
    lemma_split_head(color, after_color);
    lemma_split_whole(words);
    let parts = text::split(encoded(entry), '\t');
    assert(parts =~= seq![ts, kind, mood, color, words]);
    number::law_decimal_read_back(entry.ts as nat, u64::MAX as nat);
    escape::law_tsv_read_back(entry.kind);
    escape::law_tsv_read_back(entry.mood);
    escape::law_tsv_read_back(entry.color);
    escape::law_tsv_read_back(entry.text);
}

/// An entry without carriage returns is read back exactly as it was.
pub proof fn law_clean_entry_read_back(entry: EntryView)
    requires
        free_of_cr(entry),
    ensures
        decoded(encoded(entry)) == Some(entry),
{
    law_entry_read_back(entry);
    escape::law_without_cr_keeps(entry.kind);
    escape::law_without_cr_keeps(entry.mood);
    escape::law_without_cr_keeps(entry.color);
    escape::law_without_cr_keeps(entry.text);
}

/// A stored line is one line: it holds neither a line feed nor a carriage
/// return.
pub proof fn law_encoded_is_one_line(entry: EntryView, i: int)
    requires
        0 <= i < encoded(entry).len(),
    ensures
        encoded(entry)[i] != '\n',
        encoded(entry)[i] != '\r',
{
    reveal_strlit("\t");
    let line = encoded(entry);
    let ts = number::decimal(entry.ts as nat);
    let kind = escape::tsv_escaped(entry.kind);
    let mood = escape::tsv_escaped(entry.mood);
    let color = escape::tsv_escaped(entry.color);
    let words = escape::tsv_escaped(entry.text);
    let a = ts.len() as int;
    let b = a + 1 + kind.len();
    let c = b + 1 + mood.len();
    let d = c + 1 + color.len();
    if i < a {
        assert(line[i] == ts[i]);
        number::law_decimal_is_digits(entry.ts as nat, i);
    } else if i == a || i == b || i == c || i == d {
        assert(line[i] == '\t');
    } else if i < b {
        assert(line[i] == kind[i - a - 1]);
        escape::law_tsv_escaped_stays_in_field(entry.kind, i - a - 1);
    } else if i < c {
        assert(line[i] == mood[i - b - 1]);
        escape::law_tsv_escaped_stays_in_field(entry.mood, i - b - 1);
    } else if i < d {
        assert(line[i] == color[i - c - 1]);
        escape::law_tsv_escaped_stays_in_field(entry.color, i - c - 1);
    } else {
        assert(line[i] == words[i - d - 1]);
        escape::law_tsv_escaped_stays_in_field(entry.text, i - d - 1);
    }
}

/// A stored line has five fields between tabs, in this order: the timestamp in
/// decimal, then the kind, the mood, the color and the text, of each of which all
/// is there but carriage returns.
pub proof fn law_fields_in_order(entry: EntryView)
    ensures
        ({
            let fields = text::split(encoded(entry), '\t');
            &&& fields.len() == 5
            &&& number::parsed(fields[0], u64::MAX as nat) == Some(entry.ts as nat)
            &&& number::number(fields[0]) == entry.ts
            &&& escape::tsv_unescaped(fields[1]) == entry.kind.filter(|c: char| c != '\r')
            &&& escape::tsv_unescaped(fields[2]) == entry.mood.filter(|c: char| c != '\r')
            &&& escape::tsv_unescaped(fields[3]) == entry.color.filter(|c: char| c != '\r')
            &&& escape::tsv_unescaped(fields[4]) == entry.text.filter(|c: char| c != '\r')
        }),
{
    lemma_fields(entry);
    number::law_decimal_read_back(entry.ts as nat, u64::MAX as nat);
    number::law_decimal_is_plain(entry.ts as nat);
    escape::law_tsv_keeps_all_but_cr(entry.kind);
    escape::law_tsv_keeps_all_but_cr(entry.mood);
    escape::law_tsv_keeps_all_but_cr(entry.color);
    escape::law_tsv_keeps_all_but_cr(entry.text);
}

proof fn lemma_fields(entry: EntryView)
    ensures
        text::split(encoded(entry), '\t') == seq![
            number::decimal(entry.ts as nat),
            escape::tsv_escaped(entry.kind),
            escape::tsv_escaped(entry.mood),
            escape::tsv_escaped(entry.color),
            escape::tsv_escaped(entry.text),
        ],
{
    let ts = number::decimal(entry.ts as nat);
    let kind = escape::tsv_escaped(entry.kind);
    let mood = escape::tsv_escaped(entry.mood);
    let color = escape::tsv_escaped(entry.color);
    let words = escape::tsv_escaped(entry.text);
    assert forall|i: int| 0 <= i < ts.len() implies #[trigger] ts[i] != '\t' by {
        number::law_decimal_is_digits(entry.ts as nat, i);
    }
    lemma_field(entry.kind);
    lemma_field(entry.mood);
    lemma_field(entry.color);
    lemma_field(entry.text);
    let after_mood = color + "\t"@ + words;
    let after_kind = mood + "\t"@ + after_mood;
    let after_ts = kind + "\t"@ + after_kind;
    assert(encoded(entry) =~= ts + "\t"@ + after_ts);
    lemma_split_head(ts, after_ts);
    lemma_split_head(kind, after_kind);
    lemma_split_head(mood, after_mood);
    lemma_split_head(color, words);
    lemma_split_whole(words);
    assert(text::split(encoded(entry), '\t') =~= seq![ts, kind, mood, color, words]);
}

/// Any line of five fields is read field by field, if the first is a timestamp;
/// every other line stands for no entry.
pub proof fn law_line_is_read(fields: Seq<Seq<char>>)
    requires
        fields.len() > 0,
        forall|i: int| 0 <= i < fields.len() ==> !(#[trigger] fields[i]).contains('\t'),
    ensures
        ({
            let entry = decoded(text::joined(fields, '\t'));
            let ts = number::parsed(fields[0], u64::MAX as nat);
            &&& entry is Some <==> fields.len() == 5 && ts is Some
            &&& entry is Some ==> {
                &&& entry.unwrap().ts == ts.unwrap()
                &&& entry.unwrap().kind == escape::tsv_unescaped(fields[1])
                &&& entry.unwrap().mood == escape::tsv_unescaped(fields[2])
                &&& entry.unwrap().color == escape::tsv_unescaped(fields[3])
                &&& entry.unwrap().text == escape::tsv_unescaped(fields[4])
            }
        }),
{
    text::law_split_undoes_join(fields, '\t');
}

/// Lines are read in turn: each that stands for an entry adds it between those
/// before and those after it, and every other is passed over.
pub proof fn law_lines_are_read_in_turn(a: Seq<Seq<char>>, row: Seq<char>, b: Seq<Seq<char>>)
    ensures
        decoded_all(a.push(row) + b) == decoded_all(a) + match decoded(row) {
            Some(entry) => seq![entry],
            None => Seq::empty(),
        } + decoded_all(b),
        decoded_all(Seq::empty()) == Seq::<EntryView>::empty(),
    decreases b.len(),
{
    let all = a.push(row) + b;
    if b.len() == 0 {
        assert(all =~= a.push(row));
        assert(a.push(row).drop_last() =~= a);
        assert(a.push(row).last() == row);
        assert(decoded_all(b) =~= Seq::<EntryView>::empty());
    } else {
        let init = b.drop_last();
        law_lines_are_read_in_turn(a, row, init);
        assert(all.drop_last() =~= a.push(row) + init);
        assert(all.last() == b.last());
    }
    assert(decoded_all(all) =~= decoded_all(a) + match decoded(row) {
        Some(entry) => seq![entry],
        None => Seq::empty(),
    } + decoded_all(b));
}

} // verus!
