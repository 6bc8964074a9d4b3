//! The garden's database table: rows from text keys to stored lines.
//!
//! A key is the entry's timestamp followed by a hash of the entry, both in
//! digits of fixed width, so that rows come in the order of time.

use std::collections::hash_map::DefaultHasher;
use std::hash::Hasher;

use vstd::prelude::*;
use vstd::std_specs::hash::*;
use crate::entry;
use crate::entry::{Entry, EntryView};
use crate::number;
use crate::number::push_fixed;
use crate::record;
use crate::record::{decode_entry, encode_entry};
use crate::text;

verus! {

// ---------------------------------------------------------------------------
// Hashes and keys
// ---------------------------------------------------------------------------

/// The eight bytes of `n`, the least significant first.
pub open spec fn little_endian(n: u64) -> Seq<u8> {
    Seq::new(8, |i: int| ((n as int / vstd::arithmetic::power::pow(256, i as nat)) % 256) as u8)
}

/// The eight bytes of `n` in the byte order of the machine.
pub open spec fn native_bytes(n: u64) -> Seq<u8> {
    match vstd::endian::endianness() {
        vstd::endian::Endian::Little => little_endian(n),
        vstd::endian::Endian::Big => little_endian(n).reverse(),
    }
}

/// `u64::to_ne_bytes` of the standard library: the bytes of the number in the
/// byte order of the machine.
#[verifier::external_body]
fn to_native_bytes(n: u64) -> (r: [u8; 8])
    ensures
        r@ == native_bytes(n),
{
    n.to_ne_bytes()
}

/// What is hashed of an entry: each text as UTF-8, followed by a byte that no
/// UTF-8 text holds, then the timestamp.
pub open spec fn hash_input(entry: EntryView) -> Seq<Seq<u8>> {
    seq![
        vstd::utf8::encode_utf8(entry.kind),
        seq![0xffu8],
        vstd::utf8::encode_utf8(entry.mood),
        seq![0xffu8],
        vstd::utf8::encode_utf8(entry.color),
        seq![0xffu8],
        vstd::utf8::encode_utf8(entry.text),
        seq![0xffu8],
        native_bytes(entry.ts),
    ]
}

/// The hash of an entry.
pub open spec fn entry_hash(entry: EntryView) -> u64 {
    DefaultHasher::spec_finish(hash_input(entry))
}

/// A key made of a timestamp and a hash: twenty decimal digits, a hyphen and
/// sixteen hexadecimal digits.
pub open spec fn key_text(ts: u64, hash: u64) -> Seq<char> {
    number::fixed_digits(ts as nat, 20, 10) + "-"@ + number::fixed_digits(hash as nat, 16, 16)
}

/// Feeds a text to a hasher, and a byte that no UTF-8 text holds.
fn hash_text(s: &str, hasher: &mut DefaultHasher)
    ensures
        final(hasher)@ == old(hasher)@.push(vstd::utf8::encode_utf8(s@)).push(seq![0xffu8]),
{
    let end: [u8; 1] = [0xff];
    hasher.write(s.as_bytes());
    hasher.write(end.as_slice());
    assert(end@ =~= seq![0xffu8]);
}

/// Hashes an entry: its texts and its timestamp.
pub fn hash_entry(entry: &Entry) -> (r: u64)
    ensures
        r == entry_hash(entry@),
{
    let mut hasher: DefaultHasher = DefaultHasher::new();
    hash_text(entry.kind.as_str(), &mut hasher);
    hash_text(entry.mood.as_str(), &mut hasher);
    hash_text(entry.color.as_str(), &mut hasher);
    hash_text(entry.text.as_str(), &mut hasher);
    hasher.write(to_native_bytes(entry.ts).as_slice());
    assert(hasher@ =~= hash_input(entry@));
    hasher.finish()
}

/// The key made of a timestamp and a hash.
pub fn key_of(ts: u64, hash: u64) -> (r: String)
    ensures
        r@ == key_text(ts, hash),
{
    let mut out: String = String::new();
    push_fixed(&mut out, ts, 20, 10);
    out.append("-");
    push_fixed(&mut out, hash, 16, 16);
    assert(out@ =~= key_text(ts, hash));
    out
}

/// The key that an entry is stored under.
pub fn entry_key(entry: &Entry) -> (r: String)
    ensures
        r@ == key_text(entry.ts, entry_hash(entry@)),
{
    key_of(entry.ts, hash_entry(entry))
}

// ---------------------------------------------------------------------------
// Rows
// ---------------------------------------------------------------------------

/// A row of the table.
#[derive(Debug)]
pub struct Row {
    pub key: String,
    pub value: String,
}

/// The row to insert for an entry.
pub fn append_entry(entry: &Entry) -> (r: Row)
    ensures
        r.key@ == key_text(entry.ts, entry_hash(entry@)),
        r.value@ == record::encoded(entry@),
{
    Row { key: entry_key(entry), value: encode_entry(entry) }
}

/// Tells whether the entries are in the order of their timestamps.
pub open spec fn in_time_order(entries: Seq<EntryView>) -> bool {
    forall|i: int, j: int|
        0 <= i <= j < entries.len() ==> (#[trigger] entries[i]).ts <= (#[trigger] entries[j]).ts
}

/// The entries of one timestamp, in order.
pub open spec fn at_time(entries: Seq<EntryView>, ts: u64) -> Seq<EntryView> {
    entries.filter(|e: EntryView| e.ts == ts)
}

/// Tells whether `sorted` holds the entries of `entries` in the order of their
/// timestamps, those of the same timestamp in the order they had.
pub open spec fn is_time_sort(entries: Seq<EntryView>, sorted: Seq<EntryView>) -> bool {
    &&& in_time_order(sorted)
    &&& sorted.to_multiset() == entries.to_multiset()
    &&& forall|ts: u64| #[trigger] at_time(sorted, ts) == at_time(entries, ts)
}

proof fn lemma_none_at_time(entries: Seq<EntryView>, ts: u64)
    requires
        forall|i: int| 0 <= i < entries.len() ==> (#[trigger] entries[i]).ts != ts,
    ensures
        at_time(entries, ts) == Seq::<EntryView>::empty(),
    decreases entries.len(),
{
    reveal(Seq::filter);
    if entries.len() > 0 {
        let init = entries.drop_last();
        assert forall|i: int| 0 <= i < init.len() implies (#[trigger] init[i]).ts != ts by {
            assert(init[i] == entries[i]);
        }
        lemma_none_at_time(init, ts);
        assert(entries[entries.len() - 1].ts != ts);
    }
}

proof fn lemma_insert_keeps_sort(
    entries: Seq<EntryView>,
    sorted: Seq<EntryView>,
    k: int,
    e: EntryView,
)
    requires
        is_time_sort(entries, sorted),
        0 <= k <= sorted.len(),
        forall|i: int| 0 <= i < k ==> (#[trigger] sorted[i]).ts <= e.ts,
        forall|i: int| k <= i < sorted.len() ==> (#[trigger] sorted[i]).ts > e.ts,
    ensures
        is_time_sort(entries.push(e), sorted.insert(k, e)),
{
    let new = sorted.insert(k, e);
    let low = sorted.take(k);
    let high = sorted.skip(k);
    assert(new =~= low.push(e) + high);
    assert(sorted =~= low + high);
    assert forall|i: int, j: int| 0 <= i <= j < new.len() implies (#[trigger] new[i]).ts <= (
    #[trigger] new[j]).ts by {
        if i < k {
            assert(new[i] == sorted[i]);
        } else if i > k {
            assert(new[i] == sorted[i - 1]);
        }
        if j < k {
            assert(new[j] == sorted[j]);
        } else if j > k {
            assert(new[j] == sorted[j - 1]);
        }
    }
    broadcast use vstd::seq_lib::to_multiset_insert, vstd::seq_lib::to_multiset_build;

    assert(new.to_multiset() == entries.push(e).to_multiset());
    assert forall|ts: u64| #[trigger] at_time(new, ts) == at_time(entries.push(e), ts) by {
        let p = |x: EntryView| x.ts == ts;
        Seq::filter_distributes_over_add(low.push(e), high, p);
        Seq::filter_distributes_over_add(low, high, p);
        low.lemma_filter_push(e, p);
        entries.lemma_filter_push(e, p);
        assert(at_time(sorted, ts) == at_time(entries, ts));
        if e.ts == ts {
            assert forall|i: int| 0 <= i < high.len() implies (#[trigger] high[i]).ts != ts by {
                assert(high[i] == sorted[i + k]);
            }
            lemma_none_at_time(high, ts);
        }
        assert(new.filter(p) =~= entries.push(e).filter(p));
    }
}

/// Puts an entry behind all those that are not later.
fn insert_by_time(sorted: &mut Vec<Entry>, e: Entry, Ghost(entries): Ghost<Seq<EntryView>>)
    requires
        is_time_sort(entries, entry::views(old(sorted)@)),
    ensures
        is_time_sort(entries.push(e@), entry::views(final(sorted)@)),
{
    let ghost before = entry::views(sorted@);
    let mut k: usize = sorted.len();
    while k > 0 && sorted[k - 1].ts > e.ts
        invariant
            before == entry::views(sorted@),
            k <= sorted@.len(),
            forall|i: int| k <= i < before.len() ==> (#[trigger] before[i]).ts > e.ts,
        decreases k,
    {
        k = k - 1;
    }
    proof {
        assert forall|i: int| 0 <= i < k implies (#[trigger] before[i]).ts <= e.ts by {
            assert(before[i].ts <= before[k - 1].ts);
            assert(before[k - 1] == sorted@[k - 1]@);
        }
        lemma_insert_keeps_sort(entries, before, k as int, e@);
    }
    let ghost view = e@;
    sorted.insert(k, e);
    assert(entry::views(sorted@) =~= before.insert(k as int, view));
}

/// The entries of the table, given the values of its rows in the order of
/// their keys; without a table there are none. They come in the order of their
/// timestamps. Rows that stand for no entry are passed over.
pub fn load_entries(rows: Option<Vec<String>>) -> (r: Vec<Entry>)
    ensures
        match rows {
            Some(rows) => is_time_sort(
                record::decoded_all(text::texts(rows@)),
                entry::views(r@),
            ),
            None => r@.len() == 0,
        },
{
    let mut out: Vec<Entry> = Vec::new();
    let rows: Vec<String> = match rows {
        Some(rows) => rows,
        None => {
            return out;
        },
    };
    let mut i: usize = 0;
    let ghost all = text::texts(rows@);
    assert(all.take(0) =~= Seq::<Seq<char>>::empty());
    assert(entry::views(out@) =~= Seq::<EntryView>::empty());
    while i < rows.len()
        invariant
            all == text::texts(rows@),
            i <= rows@.len(),
            is_time_sort(record::decoded_all(all.take(i as int)), entry::views(out@)),
        decreases rows.len() - i,
    {
        let ghost done = record::decoded_all(all.take(i as int));
        assert(all.take(i + 1).drop_last() =~= all.take(i as int));
        assert(all.take(i + 1).last() == rows@[i as int]@);
        if let Some(entry) = decode_entry(rows[i].as_str()) {
            insert_by_time(&mut out, entry, Ghost(done));
        }
        i = i + 1;
    }
    assert(all.take(i as int) =~= all);
    out
}

// ---------------------------------------------------------------------------
// Laws
// ---------------------------------------------------------------------------

/// Tells whether `a` stands before `b` in the order of texts: at the first
/// place where they differ, it holds the smaller character, or it ends there.
pub open spec fn precedes(a: Seq<char>, b: Seq<char>) -> bool {
    ||| exists|i: int|
        0 <= i < a.len() && i < b.len() && a.take(i) == b.take(i) && (#[trigger] a[i] as u32) < (
        b[i] as u32)
    ||| a.len() < b.len() && b.take(a.len() as int) == a
}

proof fn lemma_fixed_digits_order(n: nat, m: nat, width: nat, base: nat) -> (i: int)
    requires
        2 <= base <= 16,
        n < m < vstd::arithmetic::power::pow(base as int, width),
    ensures
        0 <= i < width,
        number::fixed_digits(n, width, base).len() == width,
        number::fixed_digits(m, width, base).len() == width,
        number::fixed_digits(n, width, base).take(i) == number::fixed_digits(m, width, base).take(
            i,
        ),
        (number::fixed_digits(n, width, base)[i] as u32) < (number::fixed_digits(
            m,
            width,
            base,
        )[i] as u32),
    decreases width,
{
    reveal(vstd::arithmetic::power::pow);
    number::law_fixed_digits(n, width, base);
    number::law_fixed_digits(m, width, base);
    let w = (width - 1) as nat;
    let p = vstd::arithmetic::power::pow(base as int, w);
    let a = number::fixed_digits(n, width, base);
    let b = number::fixed_digits(m, width, base);
    let a1 = number::fixed_digits(n / base, w, base);
    let b1 = number::fixed_digits(m / base, w, base);
    number::law_fixed_digits(n / base, w, base);
    number::law_fixed_digits(m / base, w, base);
    vstd::arithmetic::div_mod::lemma_fundamental_div_mod(n as int, base as int);
    vstd::arithmetic::div_mod::lemma_fundamental_div_mod(m as int, base as int);
    assert(n / base <= m / base) by (nonlinear_arith)
        requires
            n < m,
            base >= 2,
    ;
    assert(m / base < p) by (nonlinear_arith)
        requires
            m < base * p,
            base >= 2,
    ;
    if n / base < m / base {
        let i = lemma_fixed_digits_order(n / base, m / base, w, base);
        assert(a.take(i) =~= a1.take(i));
        assert(b.take(i) =~= b1.take(i));
        assert(a[i] == a1[i]);
        assert(b[i] == b1[i]);
        i
    } else {
        assert(a.take(w as int) =~= a1);
        assert(b.take(w as int) =~= b1);
        assert(n % base < m % base);
        w as int
    }
}

proof fn lemma_powers()
    ensures
        u64::MAX < vstd::arithmetic::power::pow(10, 20),
        u64::MAX < vstd::arithmetic::power::pow(16, 16),
{
    reveal_with_fuel(vstd::arithmetic::power::pow, 21);
}

/// Rows come in the order of time: the key of an earlier entry stands before
/// the key of a later one, whatever their hashes.
pub proof fn law_keys_follow_time(ts1: u64, hash1: u64, ts2: u64, hash2: u64)
    requires
        ts1 < ts2,
    ensures
        precedes(key_text(ts1, hash1), key_text(ts2, hash2)),
{
    lemma_powers();
    let i = lemma_fixed_digits_order(ts1 as nat, ts2 as nat, 20, 10);
    let a = key_text(ts1, hash1);
    let b = key_text(ts2, hash2);
    let a1 = number::fixed_digits(ts1 as nat, 20, 10);
    let b1 = number::fixed_digits(ts2 as nat, 20, 10);
    assert(a.take(i) =~= a1.take(i));
    assert(b.take(i) =~= b1.take(i));
    assert(a[i] == a1[i]);
    assert(b[i] == b1[i]);
}

/// A key tells the timestamp and the hash it was made of, so entries share a
/// row only if they share both.
pub proof fn law_keys_are_told_apart(ts1: u64, hash1: u64, ts2: u64, hash2: u64)
    requires
        key_text(ts1, hash1) == key_text(ts2, hash2),
    ensures
        ts1 == ts2,
        hash1 == hash2,
{
    reveal_strlit("-");
    lemma_powers();
    number::law_fixed_digits(ts1 as nat, 20, 10);
    number::law_fixed_digits(ts2 as nat, 20, 10);
    number::law_fixed_digits(hash1 as nat, 16, 16);
    number::law_fixed_digits(hash2 as nat, 16, 16);
    let a = key_text(ts1, hash1);
    let b = key_text(ts2, hash2);
    assert(a.take(20) =~= number::fixed_digits(ts1 as nat, 20, 10));
    assert(b.take(20) =~= number::fixed_digits(ts2 as nat, 20, 10));
    assert(a.skip(21) =~= number::fixed_digits(hash1 as nat, 16, 16));
    assert(b.skip(21) =~= number::fixed_digits(hash2 as nat, 16, 16));
}

proof fn lemma_decoded_row(rows: Seq<Seq<char>>, i: int)
    requires
        0 <= i < rows.len(),
        record::decoded(rows[i]) is Some,
    ensures
        record::decoded_all(rows).contains(record::decoded(rows[i]).unwrap()),
    decreases rows.len(),
{
    let entry = record::decoded(rows[i]).unwrap();
    let init = rows.drop_last();
    if i < rows.len() - 1 {
        assert(init[i] == rows[i]);
        lemma_decoded_row(init, i);
        let done = record::decoded_all(init);
        let k = choose|k: int| 0 <= k < done.len() && done[k] == entry;
        assert(record::decoded_all(rows)[k] == entry);
    } else {
        let done = record::decoded_all(rows);
        assert(done[done.len() - 1] == entry);
    }
}

proof fn lemma_row_is_loaded(rows: Seq<Seq<char>>, i: int, sorted: Seq<EntryView>)
    requires
        0 <= i < rows.len(),
        record::decoded(rows[i]) is Some,
        is_time_sort(record::decoded_all(rows), sorted),
    ensures
        sorted.contains(record::decoded(rows[i]).unwrap()),
{
    lemma_decoded_row(rows, i);
    broadcast use vstd::seq_lib::to_multiset_contains;

    let entry = record::decoded(rows[i]).unwrap();
    assert(record::decoded_all(rows).to_multiset().count(entry) > 0);
    assert(sorted.to_multiset().count(entry) > 0);
}

/// The values that a table holds under the given keys.
pub open spec fn values_of(
    table: Map<Seq<char>, Seq<char>>,
    keys: Seq<Seq<char>>,
) -> Seq<Seq<char>> {
    Seq::new(keys.len(), |i: int| table[keys[i]])
}

/// The table once the row of an entry has been inserted.
pub open spec fn with_entry(
    table: Map<Seq<char>, Seq<char>>,
    entry: EntryView,
) -> Map<Seq<char>, Seq<char>> {
    table.insert(key_text(entry.ts, entry_hash(entry)), record::encoded(entry))
}

/// What is appended is loaded: once the row of an entry has been inserted, the
/// entry, its texts without carriage returns, is among those loaded, and so is
/// every entry that the table held under another key.
pub proof fn law_append_then_load(
    table: Map<Seq<char>, Seq<char>>,
    entry: EntryView,
    keys: Seq<Seq<char>>,
    sorted: Seq<EntryView>,
)
    requires
        keys.to_set() == with_entry(table, entry).dom(),
        is_time_sort(record::decoded_all(values_of(with_entry(table, entry), keys)), sorted),
    ensures
        sorted.contains(record::stored(entry)),
        forall|key: Seq<char>|
            table.contains_key(key) && key != key_text(entry.ts, entry_hash(entry))
                && record::decoded(#[trigger] table[key]) is Some ==> sorted.contains(
                record::decoded(table[key]).unwrap(),
            ),
{
    let new = with_entry(table, entry);
    let own = key_text(entry.ts, entry_hash(entry));
    let rows = values_of(new, keys);
    record::law_entry_read_back(entry);
    assert(keys.to_set().contains(own));
    let i = choose|i: int| 0 <= i < keys.len() && keys[i] == own;
    assert(rows[i] == record::encoded(entry));
    lemma_row_is_loaded(rows, i, sorted);
    assert forall|key: Seq<char>|
        table.contains_key(key) && key != own && record::decoded(
            #[trigger] table[key],
        ) is Some implies sorted.contains(record::decoded(table[key]).unwrap()) by {
        assert(keys.to_set().contains(key));
        let k = choose|k: int| 0 <= k < keys.len() && keys[k] == key;
        assert(rows[k] == table[key]);
        lemma_row_is_loaded(rows, k, sorted);
    }
}

/// Appending the same entry twice leaves one row.
pub proof fn law_append_twice(table: Map<Seq<char>, Seq<char>>, entry: EntryView)
    ensures
        with_entry(with_entry(table, entry), entry) == with_entry(table, entry),
{
    assert(with_entry(with_entry(table, entry), entry) =~= with_entry(table, entry));
}

proof fn lemma_at_time_last(entries: Seq<EntryView>, ts: u64)
    requires
        entries.len() > 0,
    ensures
        at_time(entries, ts) == if entries.last().ts == ts {
            at_time(entries.drop_last(), ts).push(entries.last())
        } else {
            at_time(entries.drop_last(), ts)
        },
{
    reveal(Seq::filter);
}

/// There is one way only to sort by time and keep the order of equal times.
pub proof fn law_time_sort_is_unique(
    entries: Seq<EntryView>,
    sorted1: Seq<EntryView>,
    sorted2: Seq<EntryView>,
)
    requires
        is_time_sort(entries, sorted1),
        is_time_sort(entries, sorted2),
    ensures
        sorted1 == sorted2,
{
    assert forall|ts: u64| #[trigger] at_time(sorted1, ts) == at_time(sorted2, ts) by {
        assert(at_time(sorted1, ts) == at_time(entries, ts));
        assert(at_time(sorted2, ts) == at_time(entries, ts));
    }
    lemma_same_times_same_order(sorted1, sorted2);
}

proof fn lemma_same_times_same_order(a: Seq<EntryView>, b: Seq<EntryView>)
    requires
        in_time_order(a),
        in_time_order(b),
        forall|ts: u64| #[trigger] at_time(a, ts) == at_time(b, ts),
    ensures
        a == b,
    decreases a.len() + b.len(),
{
    if a.len() == 0 && b.len() == 0 {
        assert(a =~= b);
    } else {
        if a.len() == 0 || (b.len() > 0 && a.last().ts < b.last().ts) {
            lemma_latest_differs(b, a);
        }
        if b.len() == 0 || (a.len() > 0 && b.last().ts < a.last().ts) {
            lemma_latest_differs(a, b);
        }
        let t = a.last().ts;
        lemma_at_time_last(a, t);
        lemma_at_time_last(b, t);
        assert(at_time(a, t).last() == a.last());
        assert(at_time(b, t).last() == b.last());
        let a1 = a.drop_last();
        let b1 = b.drop_last();
        assert forall|ts: u64| #[trigger] at_time(a1, ts) == at_time(b1, ts) by {
            lemma_at_time_last(a, ts);
            lemma_at_time_last(b, ts);
            assert(at_time(a, ts) == at_time(b, ts));
            if ts == t {
                assert(at_time(a1, ts) =~= at_time(a, ts).drop_last());
                assert(at_time(b1, ts) =~= at_time(b, ts).drop_last());
            }
        }
        assert(in_time_order(a1)) by {
            assert forall|i: int, j: int| 0 <= i <= j < a1.len() implies (#[trigger] a1[i]).ts <= (
            #[trigger] a1[j]).ts by {
                assert(a[i].ts <= a[j].ts);
            }
        }
        assert(in_time_order(b1)) by {
            assert forall|i: int, j: int| 0 <= i <= j < b1.len() implies (#[trigger] b1[i]).ts <= (
            #[trigger] b1[j]).ts by {
                assert(b[i].ts <= b[j].ts);
            }
        }
        lemma_same_times_same_order(a1, b1);
        assert(a =~= a1.push(a.last()));
        assert(b =~= b1.push(b.last()));
    }
}

proof fn lemma_latest_differs(later: Seq<EntryView>, earlier: Seq<EntryView>)
    requires
        in_time_order(earlier),
        later.len() > 0,
        earlier.len() > 0 ==> earlier.last().ts < later.last().ts,
    ensures
        at_time(later, later.last().ts) != at_time(earlier, later.last().ts),
{
    let t = later.last().ts;
    lemma_at_time_last(later, t);
    assert forall|i: int| 0 <= i < earlier.len() implies (#[trigger] earlier[i]).ts != t by {
        assert(earlier[i].ts <= earlier[earlier.len() - 1].ts);
    }
    lemma_none_at_time(earlier, t);
    assert(at_time(later, t).len() > 0);
}

/// Entries that already come in the order of time are loaded in the order of
/// their rows.
pub proof fn law_rows_in_time_order_stay(rows: Seq<Seq<char>>, sorted: Seq<EntryView>)
    requires
        in_time_order(record::decoded_all(rows)),
        is_time_sort(record::decoded_all(rows), sorted),
    ensures
        sorted == record::decoded_all(rows),
{
    law_time_sort_is_unique(record::decoded_all(rows), sorted, record::decoded_all(rows));
}

/// A key is read as what it was made of: twenty decimal digits for the
/// timestamp, a hyphen, and sixteen hexadecimal digits for the hash.
pub proof fn law_key_is_read(ts: u64, hash: u64)
    ensures
        key_text(ts, hash).len() == 37,
        number::value(key_text(ts, hash).take(20), 10) == ts,
        key_text(ts, hash)[20] == '-',
        number::value(key_text(ts, hash).skip(21), 16) == hash,
{
    reveal_strlit("-");
    lemma_powers();
    number::law_fixed_digits(ts as nat, 20, 10);
    number::law_fixed_digits(hash as nat, 16, 16);
    let key = key_text(ts, hash);
    assert(key.take(20) =~= number::fixed_digits(ts as nat, 20, 10));
    assert(key.skip(21) =~= number::fixed_digits(hash as nat, 16, 16));
}

/// Loaded entries come in the order of time, each as often as its rows hold it,
/// and those of one moment in the order of their rows.
pub proof fn law_loaded_by_time(rows: Seq<Seq<char>>, sorted: Seq<EntryView>, i: int, j: int)
    requires
        is_time_sort(record::decoded_all(rows), sorted),
        0 <= i <= j < sorted.len(),
    ensures
        sorted[i].ts <= sorted[j].ts,
        sorted.to_multiset() == record::decoded_all(rows).to_multiset(),
        sorted.filter(|e: EntryView| e.ts == sorted[i].ts) == record::decoded_all(rows).filter(
            |e: EntryView| e.ts == sorted[i].ts,
        ),
{
    let ts = sorted[i].ts;
    assert(at_time(sorted, ts) == at_time(record::decoded_all(rows), ts));
    assert((|e: EntryView| e.ts == sorted[i].ts) =~= (|e: EntryView| e.ts == ts));
}

/// What is hashed tells the entry: two entries that differ in any of their texts
/// or in their moment are hashed from something that differs.
pub proof fn law_hashed_tells_entry(a: EntryView, b: EntryView)
    requires
        hash_input(a) == hash_input(b),
    ensures
        a == b,
{
    let x = hash_input(a);
    let y = hash_input(b);
    assert(x[0] == y[0] && x[2] == y[2] && x[4] == y[4] && x[6] == y[6] && x[8] == y[8]);
    lemma_texts_tell(a.kind, b.kind);
    lemma_texts_tell(a.mood, b.mood);
    lemma_texts_tell(a.color, b.color);
    lemma_texts_tell(a.text, b.text);
    lemma_bytes_tell(a.ts, b.ts);
}

proof fn lemma_texts_tell(a: Seq<char>, b: Seq<char>)
    requires
        vstd::utf8::encode_utf8(a) == vstd::utf8::encode_utf8(b),
    ensures
        a == b,
{
    vstd::utf8::encode_utf8_decode_utf8(a);
    vstd::utf8::encode_utf8_decode_utf8(b);
}

proof fn lemma_bytes_tell(n: u64, m: u64)
    requires
        native_bytes(n) == native_bytes(m),
    ensures
        n == m,
{
    let a = little_endian(n);
    let b = little_endian(m);
    assert(a == b) by {
        assert(a.reverse().reverse() =~= a);
        assert(b.reverse().reverse() =~= b);
    }
    lemma_little_endian(n);
    lemma_little_endian(m);
}

/// The bytes of a number count by their place.
proof fn lemma_little_endian(n: u64)
    ensures
        n == little_endian(n)[0] + 0x100 * (little_endian(n)[1] + 0x100 * (little_endian(n)[2]
            + 0x100 * (little_endian(n)[3] + 0x100 * (little_endian(n)[4] + 0x100 * (little_endian(
            n,
        )[5] + 0x100 * (little_endian(n)[6] + 0x100 * little_endian(n)[7])))))),
{
    let b = little_endian(n);
    lemma_byte(n, 0);
    lemma_byte(n, 1);
    lemma_byte(n, 2);
    lemma_byte(n, 3);
    lemma_byte(n, 4);
    lemma_byte(n, 5);
    lemma_byte(n, 6);
    lemma_byte(n, 7);
    assert(shifted(n, 0) == n) by {
        reveal(vstd::arithmetic::power::pow);
    }
    assert(shifted(n, 8) == 0) by {
        reveal_with_fuel(vstd::arithmetic::power::pow, 9);
    }
}

/// `n` without its last `i` bytes.
spec fn shifted(n: u64, i: nat) -> int {
    n as int / vstd::arithmetic::power::pow(256, i)
}

proof fn lemma_byte(n: u64, i: nat)
    requires
        i < 8,
    ensures
        shifted(n, i) == little_endian(n)[i as int] + 0x100 * shifted(n, i + 1),
{
    let p = vstd::arithmetic::power::pow(256, i);
    vstd::arithmetic::power::lemma_pow_positive(256, i);
    assert(vstd::arithmetic::power::pow(256, i + 1) == p * 256) by {
        reveal(vstd::arithmetic::power::pow);
        assert(256 * p == p * 256) by (nonlinear_arith);
    }
    vstd::arithmetic::div_mod::lemma_div_denominator(n as int, p, 256);
    let q = n as int / p;
    assert(q / 256 == shifted(n, i + 1));
    assert(q == 256 * (q / 256) + q % 256);
    assert(little_endian(n)[i as int] == q % 256);
}

/// The hash of an entry is that of the standard hasher, fed with the kind, the
/// mood, the color and the text, each closed by the byte 255, and the moment.
pub proof fn law_hash_is_standard(entry: EntryView)
    ensures
        entry_hash(entry) == DefaultHasher::spec_finish(
            Seq::<Seq<u8>>::empty().push(vstd::utf8::encode_utf8(entry.kind)).push(seq![255u8]).push(
                vstd::utf8::encode_utf8(entry.mood),
            ).push(seq![255u8]).push(vstd::utf8::encode_utf8(entry.color)).push(seq![255u8]).push(
                vstd::utf8::encode_utf8(entry.text),
            ).push(seq![255u8]).push(native_bytes(entry.ts)),
        ),
{
    let fed = Seq::<Seq<u8>>::empty().push(vstd::utf8::encode_utf8(entry.kind)).push(
        seq![255u8],
    ).push(vstd::utf8::encode_utf8(entry.mood)).push(seq![255u8]).push(
        vstd::utf8::encode_utf8(entry.color),
    ).push(seq![255u8]).push(vstd::utf8::encode_utf8(entry.text)).push(seq![255u8]).push(
        native_bytes(entry.ts),
    );
    assert(hash_input(entry) =~= fed);
}

} // verus!
