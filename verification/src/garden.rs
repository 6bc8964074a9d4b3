//! The garden itself: a petal for each recent mood.

use vstd::prelude::*;
use crate::entry;
use crate::entry::{Entry, EntryView};
use crate::escape;
use crate::escape::escape_html;
use crate::number;
use crate::number::push_decimal;
use crate::text;
use crate::text::same_text;

verus! {

/// How many moods the garden shows.
pub const MAX_PETALS: usize = 42;

/// How many pale petals an empty garden shows.
pub const GHOST_PETALS: usize = 18;

/// The last `n` moods, or all if there are fewer, the latest first.
pub open spec fn recent_moods(entries: Seq<EntryView>, n: nat) -> Seq<EntryView>
    decreases entries.len(),
{
    if entries.len() == 0 || n == 0 {
        Seq::empty()
    } else if entries.last().kind == "mood"@ {
        seq![entries.last()] + recent_moods(entries.drop_last(), (n - 1) as nat)
    } else {
        recent_moods(entries.drop_last(), n)
    }
}

// ---------------------------------------------------------------------------
// Delays
// ---------------------------------------------------------------------------

/// After how many seconds the `i`-th pale petal starts to move: steps of 0.18,
/// as single-precision numbers are printed, starting over after seven.
pub open spec fn ghost_delay(i: int) -> Seq<char> {
    match (i % 7) as u8 {
        0 => "0"@,
        1 => "0.18"@,
        2 => "0.36"@,
        3 => "0.54"@,
        4 => "0.72"@,
        5 => "0.90000004"@,
        _ => "1.08"@,
    }
}

/// After how many seconds the `i`-th petal starts to move: steps of 0.12, as
/// single-precision numbers are printed, starting over after nine.
pub open spec fn petal_delay(i: int) -> Seq<char> {
    match (i % 9) as u8 {
        0 => "0"@,
        1 => "0.12"@,
        2 => "0.24"@,
        3 => "0.35999998"@,
        4 => "0.48"@,
        5 => "0.59999996"@,
        6 => "0.71999997"@,
        7 => "0.84"@,
        _ => "0.96"@,
    }
}

/// The delay of the `i`-th pale petal.
pub fn ghost_delay_of(i: usize) -> (r: &'static str)
    ensures
        r@ == ghost_delay(i as int),
{
    let step: usize = i % 7;
    match step {
        0 => "0",
        1 => "0.18",
        2 => "0.36",
        3 => "0.54",
        4 => "0.72",
        5 => "0.90000004",
        _ => "1.08",
    }
}

/// The delay of the `i`-th petal.
pub fn petal_delay_of(i: usize) -> (r: &'static str)
    ensures
        r@ == petal_delay(i as int),
{
    let step: usize = i % 9;
    match step {
        0 => "0",
        1 => "0.12",
        2 => "0.24",
        3 => "0.35999998",
        4 => "0.48",
        5 => "0.59999996",
        6 => "0.71999997",
        7 => "0.84",
        _ => "0.96",
    }
}

// ---------------------------------------------------------------------------
// Petals
// ---------------------------------------------------------------------------

/// Where the `i`-th pale petal stands, in percent of the width.
pub open spec fn ghost_x(i: int) -> int {
    8 + (i * 19) % 84
}

/// Where the `i`-th pale petal stands, in percent of the height.
pub open spec fn ghost_y(i: int) -> int {
    14 + (i * 29) % 72
}

/// The `i`-th pale petal.
pub open spec fn ghost_petal(i: int) -> Seq<char> {
    "<span class=\"petal ghost\" style=\"--x:"@ + number::decimal(ghost_x(i) as nat) + "%;--y:"@
        + number::decimal(ghost_y(i) as nat) + "%;--c:#d8f3dc;--d:"@ + ghost_delay(i)
        + "s\"></span>"@
}

/// The first `n` pale petals.
pub open spec fn ghost_petals(n: nat) -> Seq<char>
    decreases n,
{
    if n == 0 {
        Seq::empty()
    } else {
        ghost_petals((n - 1) as nat) + ghost_petal(n - 1)
    }
}

/// Where the `i`-th petal stands, in percent of the width.
pub open spec fn petal_x(i: int, ts: u64) -> int {
    7 + (i * 17 + (ts as usize) % 11) % 86
}

/// Where the `i`-th petal stands, in percent of the height.
pub open spec fn petal_y(i: int, ts: u64) -> int {
    10 + (i * 23 + (ts as usize) % 13) % 76
}

/// How large the `i`-th petal is, in pixels; longer names of moods, counted in
/// bytes, shift the size.
pub open spec fn petal_size(i: int, mood: Seq<char>) -> int {
    18 + (vstd::utf8::encode_utf8(mood).len() * 3 + i) % 28
}

/// The petal of the `i`-th mood shown.
pub open spec fn petal(i: int, mood: EntryView) -> Seq<char> {
    "<span class=\"petal\" title=\""@ + escape::html_escaped(mood.mood) + "\" style=\"--x:"@
        + number::decimal(petal_x(i, mood.ts) as nat) + "%;--y:"@ + number::decimal(
        petal_y(i, mood.ts) as nat,
    ) + "%;--s:"@ + number::decimal(petal_size(i, mood.mood) as nat) + "px;--c:"@
        + escape::html_escaped(mood.color) + ";--d:"@ + petal_delay(i) + "s\"></span>"@
}

/// The petals of the moods shown.
pub open spec fn petals(moods: Seq<EntryView>) -> Seq<char>
    decreases moods.len(),
{
    if moods.len() == 0 {
        Seq::empty()
    } else {
        petals(moods.drop_last()) + petal(moods.len() - 1, moods.last())
    }
}

/// The garden of the given entries: pale petals while there is no mood, else a
/// petal for each of the latest moods.
pub open spec fn garden(entries: Seq<EntryView>) -> Seq<char> {
    let moods = recent_moods(entries, MAX_PETALS as nat);
    if moods.len() == 0 {
        ghost_petals(GHOST_PETALS as nat)
    } else {
        petals(moods)
    }
}

/// Renders the `i`-th pale petal.
pub fn ghost_petal_html(i: usize) -> (r: String)
    requires
        i < GHOST_PETALS,
    ensures
        r@ == ghost_petal(i as int),
{
    let mut html: String = "<span class=\"petal ghost\" style=\"--x:".to_string();
    push_decimal(&mut html, (8 + (i * 19) % 84) as u64);
    html.append("%;--y:");
    push_decimal(&mut html, (14 + (i * 29) % 72) as u64);
    html.append("%;--c:#d8f3dc;--d:");
    html.append(ghost_delay_of(i));
    html.append("s\"></span>");
    html
}

/// The place of the `i`-th petal, across and down, in percent.
fn petal_place(i: usize, ts: u64) -> (r: (u64, u64))
    requires
        i < MAX_PETALS,
    ensures
        r.0 == petal_x(i as int, ts),
        r.1 == petal_y(i as int, ts),
{
    let x: usize = 7 + (i * 17 + ts as usize % 11) % 86;
    let y: usize = 10 + (i * 23 + ts as usize % 13) % 76;
    (x as u64, y as u64)
}

/// The size of the `i`-th petal.
fn petal_size_of(i: usize, mood: &str) -> (r: u64)
    requires
        i < MAX_PETALS,
    ensures
        r == petal_size(i as int, mood@),
{
    let length: usize = mood.as_bytes().len();
    let size: usize = 18 + (length % 28 * 3 + i) % 28;
    assert((length * 3 + i) % 28 == (length % 28 * 3 + i) % 28);
    size as u64
}

/// Renders the petal of the `i`-th mood shown.
pub fn petal_html(i: usize, mood: &Entry) -> (r: String)
    requires
        i < MAX_PETALS,
    ensures
        r@ == petal(i as int, mood@),
{
    let (x, y): (u64, u64) = petal_place(i, mood.ts);
    let size: u64 = petal_size_of(i, mood.mood.as_str());
    let mut html: String = "<span class=\"petal\" title=\"".to_string();
    html.append(escape_html(mood.mood.as_str()).as_str());
    html.append("\" style=\"--x:");
    push_decimal(&mut html, x);
    html.append("%;--y:");
    push_decimal(&mut html, y);
    html.append("%;--s:");
    push_decimal(&mut html, size);
    html.append("px;--c:");
    html.append(escape_html(mood.color.as_str()).as_str());
    html.append(";--d:");
    html.append(petal_delay_of(i));
    html.append("s\"></span>");
    html
}

/// Renders the garden of the given entries.
pub fn garden_petals(entries: &[Entry]) -> (r: String)
    ensures
        r@ == garden(entry::views(entries@)),
{
    let mut html: String = String::new();
    let ghost all = entry::views(entries@);
    let ghost moods = recent_moods(all, MAX_PETALS as nat);
    let mut shown: usize = 0;
    let mut i: usize = entries.len();
    assert(all.take(i as int) =~= all);
    assert(moods.take(0) =~= Seq::<EntryView>::empty());
    assert(moods.take(0) + moods =~= moods);
    while i > 0 && shown < MAX_PETALS
        invariant
            all == entry::views(entries@),
            i <= entries@.len(),
            shown <= MAX_PETALS,
            shown <= moods.len(),
            moods == moods.take(shown as int) + recent_moods(
                all.take(i as int),
                (MAX_PETALS - shown) as nat,
            ),
            html@ == petals(moods.take(shown as int)),
        decreases i,
    {
        let ghost rest = all.take(i as int);
        let ghost left = (MAX_PETALS - shown) as nat;
        assert(rest.drop_last() =~= all.take(i - 1));
        assert(rest.last() == entries@[i - 1]@);
        i = i - 1;
        let entry: &Entry = &entries[i];
        if same_text(entry.kind.as_str(), "mood") {
            assert(moods[shown as int] == entry@);
            assert(moods.take(shown + 1).drop_last() =~= moods.take(shown as int));
            assert(moods.take(shown + 1) + recent_moods(rest.drop_last(), (left - 1) as nat)
                =~= moods.take(shown as int) + recent_moods(rest, left));
            html.append(petal_html(shown, entry).as_str());
            shown = shown + 1;
        }
    }
    assert(moods.take(shown as int) =~= moods);
    if shown == 0 {
        let mut k: usize = 0;
        while k < GHOST_PETALS
            invariant
                k <= GHOST_PETALS,
                html@ == ghost_petals(k as nat),
            decreases GHOST_PETALS - k,
        {
            html.append(ghost_petal_html(k).as_str());
            k = k + 1;
        }
    }
    html
}

// ---------------------------------------------------------------------------
// Laws
// ---------------------------------------------------------------------------

/// Every petal stands inside the garden, and its size stays in bounds.
pub proof fn law_petals_stay_inside(i: int, mood: EntryView)
    ensures
        8 <= ghost_x(i) < 92,
        14 <= ghost_y(i) < 86,
        7 <= petal_x(i, mood.ts) < 93,
        10 <= petal_y(i, mood.ts) < 86,
        18 <= petal_size(i, mood.mood) < 46,
{
}

/// The garden shows the latest moods, at most the given number, and nothing but
/// moods: as many as there are if they are fewer.
pub proof fn law_recent_moods(entries: Seq<EntryView>, n: nat)
    ensures
        recent_moods(entries, n).len() == if entry::count_kind(entries, "mood"@) < n {
            entry::count_kind(entries, "mood"@)
        } else {
            n
        },
        forall|i: int|
            0 <= i < recent_moods(entries, n).len() ==> (#[trigger] recent_moods(
                entries,
                n,
            )[i]).kind == "mood"@,
    decreases entries.len(),
{
    if entries.len() > 0 && n > 0 {
        if entries.last().kind == "mood"@ {
            law_recent_moods(entries.drop_last(), (n - 1) as nat);
        } else {
            law_recent_moods(entries.drop_last(), n);
        }
    }
}

/// A new mood is the first to be shown, before those shown already.
pub proof fn law_new_mood_comes_first(entries: Seq<EntryView>, mood: EntryView, n: nat)
    requires
        mood.kind == "mood"@,
        n > 0,
    ensures
        recent_moods(entries.push(mood), n) == seq![mood] + recent_moods(entries, (n - 1) as nat),
{
    assert(entries.push(mood).drop_last() =~= entries);
}

/// The moods shown are those of the entries that are moods, from the last to the
/// first, as many as fit.
pub proof fn law_recent_moods_are_the_last(entries: Seq<EntryView>, n: nat)
    ensures
        ({
            let moods = entries.filter(|e: EntryView| e.kind == "mood"@).reverse();
            recent_moods(entries, n) == if moods.len() <= n {
                moods
            } else {
                moods.take(n as int)
            }
        }),
    decreases entries.len(),
{
    reveal(Seq::filter);
    let p = |e: EntryView| e.kind == "mood"@;
    let moods = entries.filter(p).reverse();
    if entries.len() == 0 {
        assert(moods =~= Seq::<EntryView>::empty());
    } else if n == 0 {
        assert(moods.take(0) =~= Seq::<EntryView>::empty());
    } else {
        let init = entries.drop_last();
        if entries.last().kind == "mood"@ {
            law_recent_moods_are_the_last(init, (n - 1) as nat);
            assert(moods =~= seq![entries.last()] + init.filter(p).reverse());
            if moods.len() > n {
                assert(moods.take(n as int) =~= seq![entries.last()] + init.filter(p).reverse().take(
                    n - 1,
                ));
            }
        } else {
            law_recent_moods_are_the_last(init, n);
        }
    }
}

/// The garden shows nothing but moods: another entry leaves it as it is. It
/// holds a petal for each of the last 42 moods, the latest first, one after the
/// other; without a mood, it holds the 18 pale petals.
pub proof fn law_garden_shows_moods(entries: Seq<EntryView>, entry: EntryView)
    ensures
        entry.kind != "mood"@ ==> garden(entries.push(entry)) == garden(entries),
        entry.kind == "mood"@ ==> text::begins_with(garden(entries.push(entry)), petal(0, entry)),
        entry::count_kind(entries, "mood"@) > 0 ==> garden(entries) == petals(
            recent_moods(entries, 42),
        ),
        entry::count_kind(entries, "mood"@) == 0 ==> garden(entries) == ghost_petals(18),
{
    let new = entries.push(entry);
    assert(new.drop_last() =~= entries);
    assert(new.last() == entry);
    law_recent_moods(entries, 42);
    if entry.kind == "mood"@ {
        law_new_mood_comes_first(entries, entry, 42);
        lemma_petals_begin(recent_moods(new, 42));
    }
}

proof fn lemma_petals_begin(moods: Seq<EntryView>)
    requires
        moods.len() > 0,
    ensures
        text::begins_with(petals(moods), petal(0, moods[0])),
    decreases moods.len(),
{
    let first = petal(0, moods[0]);
    if moods.len() == 1 {
        assert(moods.drop_last() =~= Seq::<EntryView>::empty());
        assert(petals(moods.drop_last()) =~= Seq::<char>::empty());
        assert(petals(moods) =~= first);
        assert(first.take(first.len() as int) =~= first);
    } else {
        let init = moods.drop_last();
        lemma_petals_begin(init);
        assert(petals(moods).take(first.len() as int) =~= petals(init).take(first.len() as int));
    }
}

/// Petals stand one after the other, in the order of the moods.
pub proof fn law_petals_follow_each_other(moods: Seq<EntryView>, mood: EntryView)
    ensures
        petals(moods.push(mood)) == petals(moods) + petal(moods.len() as int, mood),
        petals(Seq::empty()) == Seq::<char>::empty(),
{
    assert(moods.push(mood).drop_last() =~= moods);
}

// ---------------------------------------------------------------------------
// Reading petals
// ---------------------------------------------------------------------------

/// What stands in the title of a petal.
pub open spec fn title_of(petal: Seq<char>) -> Seq<char> {
    text::before(text::after_text(petal, "title=\""@), '"')
}

/// What follows the title of a petal: its style.
pub open spec fn style_of(petal: Seq<char>) -> Seq<char> {
    text::after(text::after_text(petal, "title=\""@), '"')
}

/// What a style gives for the property with the given mark, up to `end`.
pub open spec fn property(style: Seq<char>, mark: Seq<char>, end: char) -> Seq<char> {
    text::before(text::after_text(style, mark), end)
}

/// A petal is read as it was meant. Its title is the name of its mood. It stands
/// where its number and the moment of its mood put it: each petal 17 percent
/// further across and 23 further down than the one before, starting over within
/// the garden. Its size goes by the bytes of the name. Its color is that of the
/// mood, if no semicolon stands in it.
pub proof fn law_petal_is_read(i: int, mood: EntryView)
    requires
        i >= 0,
    ensures
        ({
            let style = style_of(petal(i, mood));
            let name = vstd::utf8::encode_utf8(mood.mood);
            &&& escape::html_value(title_of(petal(i, mood))) == mood.mood
            &&& number::number(property(style, "--x:"@, '%')) == 7 + (17 * i + mood.ts as usize
                % 11) % 86
            &&& number::number(property(style, "--y:"@, '%')) == 10 + (23 * i + mood.ts as usize
                % 13) % 76
            &&& number::number(property(style, "--s:"@, 'p')) == 18 + (3 * name.len() + i) % 28
            &&& !mood.color.contains(';') && !mood.color.contains('&') && !mood.color.contains('<')
                && !mood.color.contains('>') && !mood.color.contains('"') ==> {
                &&& property(style, "--c:"@, ';') == mood.color
                &&& property(text::after(text::after_text(style, "--c:"@), ';'), "--d:"@, 's')
                    == petal_delay(i)
            }
        }),
{
    lemma_petal_title(i, mood);
    lemma_petal_numbers(i, mood);
    if !mood.color.contains(';') && !mood.color.contains('&') && !mood.color.contains('<')
        && !mood.color.contains('>') && !mood.color.contains('"') {
        lemma_petal_color(i, mood);
    }
}

/// The style of a petal up to its color.
spec fn style_head(i: int, mood: EntryView) -> Seq<char> {
    " style=\""@ + "--x:"@ + number::decimal(petal_x(i, mood.ts) as nat) + "%;"@ + "--y:"@
        + number::decimal(petal_y(i, mood.ts) as nat) + "%;"@ + "--s:"@ + number::decimal(
        petal_size(i, mood.mood) as nat,
    ) + "px;"@
}

/// The style of a petal from its color on.
spec fn style_tail(i: int, mood: EntryView) -> Seq<char> {
    escape::html_escaped(mood.color) + ";"@ + "--d:"@ + petal_delay(i) + "s\"></span>"@
}

proof fn lemma_petal_title(i: int, mood: EntryView)
    ensures
        escape::html_value(title_of(petal(i, mood))) == mood.mood,
        style_of(petal(i, mood)) == style_head(i, mood) + "--c:"@ + style_tail(i, mood),
{
    lemma_petal_literals();
    let name = escape::html_escaped(mood.mood);
    let style = style_head(i, mood) + "--c:"@ + style_tail(i, mood);
    let head = "<span class=\"petal\" "@;
    let mark = "title=\""@;
    lemma_petal_layout(i, mood);
    text::lemma_find_text(head, mark, name + seq!['"'] + style, 1);
    assert(!name.contains('"')) by {
        if name.contains('"') {
            let k = choose|k: int| 0 <= k < name.len() && name[k] == '"';
            escape::law_html_escaped_is_inert(mood.mood, k);
        }
    }
    text::law_first_parts(name, '"', style);
    escape::law_html_escaped_read_back(mood.mood);
}

proof fn lemma_petal_layout(i: int, mood: EntryView)
    ensures
        petal(i, mood) == "<span class=\"petal\" "@ + "title=\""@ + (escape::html_escaped(mood.mood)
            + seq!['"'] + (style_head(i, mood) + "--c:"@ + style_tail(i, mood))),
{
    lemma_petal_literals();
    let x = number::decimal(petal_x(i, mood.ts) as nat);
    let y = number::decimal(petal_y(i, mood.ts) as nat);
    let size = number::decimal(petal_size(i, mood.mood) as nat);
    let name = escape::html_escaped(mood.mood);
    let color = escape::html_escaped(mood.color);
    let delay = petal_delay(i);
    let a = "<span class=\"petal\" "@ + "title=\""@;
    let b = " style=\""@ + "--x:"@;
    assert(petal(i, mood) == a + name + (seq!['"'] + b) + x + ("%;"@ + "--y:"@) + y + ("%;"@
        + "--s:"@) + size + ("px;"@ + "--c:"@) + color + (";"@ + "--d:"@) + delay
        + "s\"></span>"@);
    let h = b + x + "%;"@ + "--y:"@ + y + "%;"@ + "--s:"@ + size + "px;"@;
    assert(style_head(i, mood) == h);
    assert(a + name + (seq!['"'] + b) + x + ("%;"@ + "--y:"@) + y + ("%;"@ + "--s:"@) + size
        =~= a + name + seq!['"'] + (b + x + "%;"@ + "--y:"@ + y + "%;"@ + "--s:"@ + size));
    let t = color + ";"@ + "--d:"@ + delay + "s\"></span>"@;
    assert(style_tail(i, mood) == t);
    let most = b + x + "%;"@ + "--y:"@ + y + "%;"@ + "--s:"@ + size;
    assert(a + name + seq!['"'] + most + ("px;"@ + "--c:"@) + color + (";"@ + "--d:"@) + delay
        + "s\"></span>"@ =~= a + (name + seq!['"'] + (h + "--c:"@ + t)));
}

proof fn lemma_digits_hold_no(n: nat, c: char)
    requires
        !number::is_digit(c),
    ensures
        !number::decimal(n).contains(c),
        forall|k: int| 0 <= k < number::decimal(n).len() ==> #[trigger] number::decimal(n)[k] != c,
{
    number::law_decimal_is_plain(n);
    let s = number::decimal(n);
    assert forall|k: int| 0 <= k < s.len() implies #[trigger] s[k] != c by {
        assert(number::is_digit(s[k]));
    }
}

proof fn lemma_petal_numbers(i: int, mood: EntryView)
    requires
        i >= 0,
    ensures
        number::number(property(style_of(petal(i, mood)), "--x:"@, '%')) == petal_x(i, mood.ts),
        number::number(property(style_of(petal(i, mood)), "--y:"@, '%')) == petal_y(i, mood.ts),
        number::number(property(style_of(petal(i, mood)), "--s:"@, 'p')) == petal_size(i, mood.mood),
        text::apart(style_head(i, mood), "--c:"@, 2),
{
    lemma_petal_title(i, mood);
    lemma_petal_literals();
    let nx = petal_x(i, mood.ts) as nat;
    let ny = petal_y(i, mood.ts) as nat;
    let ns = petal_size(i, mood.mood) as nat;
    let x = number::decimal(nx);
    let y = number::decimal(ny);
    let size = number::decimal(ns);
    number::law_decimal_is_plain(nx);
    number::law_decimal_is_plain(ny);
    number::law_decimal_is_plain(ns);
    lemma_digits_hold_no(nx, '%');
    lemma_digits_hold_no(nx, '-');
    lemma_digits_hold_no(ny, '%');
    lemma_digits_hold_no(ny, '-');
    lemma_digits_hold_no(ns, 'p');
    lemma_digits_hold_no(ns, '-');
    let a = " style=\""@;
    let b = a + "--x:"@ + x + "%;"@;
    let c = b + "--y:"@ + y + "%;"@;
    let d = c + "--s:"@ + size + "px;"@;
    let tail = "--c:"@ + style_tail(i, mood);
    assert(style_head(i, mood) == d);
    assert(d + "--c:"@ + style_tail(i, mood) =~= d + tail);
    let after_size = "px;"@ + tail;
    let after_y = "%;"@ + ("--s:"@ + size + after_size);
    let after_x = "%;"@ + ("--y:"@ + y + after_y);
    assert(d + tail =~= c + "--s:"@ + size + after_size);
    assert(c + "--s:"@ + size + after_size =~= b + "--y:"@ + y + after_y);
    assert(b + "--y:"@ + y + after_y =~= a + "--x:"@ + x + after_x);
    lemma_property(a, "--x:"@, x, after_x, '%');
    lemma_before_property(a, "--x:"@, x, "%;"@, "--y:"@);
    lemma_property(b, "--y:"@, y, after_y, '%');
    lemma_before_property(a, "--x:"@, x, "%;"@, "--s:"@);
    lemma_before_property(b, "--y:"@, y, "%;"@, "--s:"@);
    lemma_property(c, "--s:"@, size, after_size, 'p');
    lemma_before_property(a, "--x:"@, x, "%;"@, "--c:"@);
    lemma_before_property(b, "--y:"@, y, "%;"@, "--c:"@);
    lemma_before_property(c, "--s:"@, size, "px;"@, "--c:"@);
}

proof fn lemma_petal_color(i: int, mood: EntryView)
    requires
        i >= 0,
        !mood.color.contains(';'),
        !mood.color.contains('&'),
        !mood.color.contains('<'),
        !mood.color.contains('>'),
        !mood.color.contains('"'),
    ensures
        property(style_of(petal(i, mood)), "--c:"@, ';') == mood.color,
        property(
            text::after(text::after_text(style_of(petal(i, mood)), "--c:"@), ';'),
            "--d:"@,
            's',
        ) == petal_delay(i),
{
    lemma_petal_title(i, mood);
    lemma_petal_numbers(i, mood);
    lemma_petal_literals();
    lemma_delay_plain(i);
    escape::law_html_escaped_by_character(mood.color, Seq::empty());
    let color = mood.color;
    let end = "s\"></span>"@;
    let rest = "--d:"@ + petal_delay(i) + end;
    assert(style_tail(i, mood) =~= color + seq![';'] + rest);
    text::lemma_find_text(style_head(i, mood), "--c:"@, style_tail(i, mood), 2);
    text::law_first_parts(color, ';', rest);
    let none = Seq::<char>::empty();
    assert(rest =~= none + "--d:"@ + petal_delay(i) + end);
    lemma_property(none, "--d:"@, petal_delay(i), end, 's');
}

proof fn lemma_property(
    a: Seq<char>,
    mark: Seq<char>,
    value: Seq<char>,
    tail: Seq<char>,
    end: char,
)
    requires
        mark.len() > 2,
        text::apart(a, mark, 2),
        !value.contains(end),
        tail.len() > 0,
        tail[0] == end,
    ensures
        property(a + mark + value + tail, mark, end) == value,
{
    assert(tail =~= seq![end] + tail.drop_first());
    assert(a + mark + value + tail =~= a + mark + (value + seq![end] + tail.drop_first()));
    text::lemma_find_text(a, mark, value + seq![end] + tail.drop_first(), 2);
    text::law_first_parts(value, end, tail.drop_first());
}

proof fn lemma_before_property(
    a: Seq<char>,
    own: Seq<char>,
    value: Seq<char>,
    end: Seq<char>,
    mark: Seq<char>,
)
    requires
        mark.len() > 2,
        text::apart(a, mark, 2),
        text::apart(own, mark, 2),
        forall|k: int| 0 <= k < value.len() ==> #[trigger] value[k] != mark[0],
        forall|k: int| 0 <= k < end.len() ==> #[trigger] end[k] != mark[0],
    ensures
        text::apart(a + own + value + end, mark, 2),
{
    text::lemma_apart_concat(a, own, mark, 2);
    text::lemma_apart_concat(a + own, value, mark, 2);
    text::lemma_apart_concat(a + own + value, end, mark, 2);
}

proof fn lemma_delay_plain(i: int)
    ensures
        !petal_delay(i).contains('s'),
{
    reveal_strlit("0");
    reveal_strlit("0.12");
    reveal_strlit("0.24");
    reveal_strlit("0.35999998");
    reveal_strlit("0.48");
    reveal_strlit("0.59999996");
    reveal_strlit("0.71999997");
    reveal_strlit("0.84");
    reveal_strlit("0.96");
}

proof fn lemma_petal_literals()
    ensures
        "<span class=\"petal\" title=\""@ == "<span class=\"petal\" "@ + "title=\""@,
        "\" style=\"--x:"@ == seq!['"'] + (" style=\""@ + "--x:"@),
        "%;--y:"@ == "%;"@ + "--y:"@,
        "%;--s:"@ == "%;"@ + "--s:"@,
        "px;--c:"@ == "px;"@ + "--c:"@,
        ";--d:"@ == ";"@ + "--d:"@,
        ";"@ == seq![';'],
        "title=\""@.len() == 7,
        text::apart("<span class=\"petal\" "@, "title=\""@, 1),
        "--x:"@.len() == 4 && "--y:"@.len() == 4 && "--s:"@.len() == 4 && "--c:"@.len() == 4,
        "--d:"@.len() == 4,
        "--x:"@[0] == '-' && "--y:"@[0] == '-' && "--s:"@[0] == '-' && "--c:"@[0] == '-',
        "--d:"@[0] == '-',
        text::apart(" style=\""@, "--x:"@, 2),
        text::apart(" style=\""@, "--y:"@, 2),
        text::apart(" style=\""@, "--s:"@, 2),
        text::apart(" style=\""@, "--c:"@, 2),
        text::apart("--x:"@, "--y:"@, 2),
        text::apart("--x:"@, "--s:"@, 2),
        text::apart("--x:"@, "--c:"@, 2),
        text::apart("--y:"@, "--s:"@, 2),
        text::apart("--y:"@, "--c:"@, 2),
        text::apart("--s:"@, "--c:"@, 2),
        "%;"@.len() == 2 && "%;"@[0] == '%' && "%;"@[1] == ';',
        "px;"@.len() == 3 && "px;"@[0] == 'p' && "px;"@[1] == 'x' && "px;"@[2] == ';',
        "s\"></span>"@.len() == 10 && "s\"></span>"@[0] == 's',
{
    reveal_strlit("<span class=\"petal\" title=\"");
    reveal_strlit("<span class=\"petal\" ");
    reveal_strlit("title=\"");
    reveal_strlit("\" style=\"--x:");
    reveal_strlit(" style=\"");
    reveal_strlit("--x:");
    reveal_strlit("--y:");
    reveal_strlit("--s:");
    reveal_strlit("--c:");
    reveal_strlit("--d:");
    reveal_strlit("%;--y:");
    reveal_strlit("%;--s:");
    reveal_strlit("px;--c:");
    reveal_strlit(";--d:");
    reveal_strlit("%;");
    reveal_strlit("px;");
    reveal_strlit(";");
    reveal_strlit("s\"></span>");
}

// ---------------------------------------------------------------------------
// Tags
// ---------------------------------------------------------------------------

/// Tells whether a mark begins a tag, but neither one of `span` nor one that
/// closes it.
pub open spec fn is_other_tag(mark: Seq<char>) -> bool {
    &&& mark[0] == '<'
    &&& !(mark[1] == 's' && mark[2] == 'p')
    &&& !(mark[1] == '/' && mark[2] == 's')
}

proof fn lemma_no_tag(s: Seq<char>, mark: Seq<char>, d: int)
    requires
        is_other_tag(mark),
        forall|i: int| 0 <= i < s.len() ==> #[trigger] s[i] != '<',
    ensures
        text::apart(s, mark, d),
{
}

proof fn lemma_decimal_no_tag(n: nat, mark: Seq<char>, d: int)
    requires
        is_other_tag(mark),
    ensures
        text::apart(number::decimal(n), mark, d),
{
    number::law_decimal_is_plain(n);
    let s = number::decimal(n);
    assert forall|i: int| 0 <= i < s.len() implies #[trigger] s[i] != '<' by {
        assert(number::is_digit(s[i]));
    }
    lemma_no_tag(s, mark, d);
}

proof fn lemma_escaped_no_tag(s: Seq<char>, mark: Seq<char>, d: int)
    requires
        is_other_tag(mark),
    ensures
        text::apart(escape::html_escaped(s), mark, d),
{
    let e = escape::html_escaped(s);
    assert forall|i: int| 0 <= i < e.len() implies #[trigger] e[i] != '<' by {
        escape::law_html_escaped_is_inert(s, i);
    }
    lemma_no_tag(e, mark, d);
}

proof fn lemma_delays_no_tag(i: int, mark: Seq<char>, d: int)
    requires
        is_other_tag(mark),
    ensures
        text::apart(petal_delay(i), mark, d),
        text::apart(ghost_delay(i), mark, d),
{
    reveal_strlit("0");
    reveal_strlit("0.12");
    reveal_strlit("0.24");
    reveal_strlit("0.35999998");
    reveal_strlit("0.48");
    reveal_strlit("0.59999996");
    reveal_strlit("0.71999997");
    reveal_strlit("0.84");
    reveal_strlit("0.96");
    reveal_strlit("0.18");
    reveal_strlit("0.36");
    reveal_strlit("0.54");
    reveal_strlit("0.72");
    reveal_strlit("0.90000004");
    reveal_strlit("1.08");
}

proof fn lemma_literals_no_tag(mark: Seq<char>, d: int)
    requires
        is_other_tag(mark),
    ensures
        text::apart("<span class=\"petal\" title=\""@, mark, d),
        text::apart("<span class=\"petal ghost\" style=\"--x:"@, mark, d),
        text::apart("\" style=\"--x:"@, mark, d),
        text::apart("%;--y:"@, mark, d),
        text::apart("%;--s:"@, mark, d),
        text::apart("px;--c:"@, mark, d),
        text::apart(";--d:"@, mark, d),
        text::apart("%;--c:#d8f3dc;--d:"@, mark, d),
        text::apart("s\"></span>"@, mark, d),
{
    reveal_strlit("<span class=\"petal\" title=\"");
    reveal_strlit("<span class=\"petal ghost\" style=\"--x:");
    reveal_strlit("\" style=\"--x:");
    reveal_strlit("%;--y:");
    reveal_strlit("%;--s:");
    reveal_strlit("px;--c:");
    reveal_strlit(";--d:");
    reveal_strlit("%;--c:#d8f3dc;--d:");
    reveal_strlit("s\"></span>");
}

proof fn lemma_petal_no_tag(i: int, mood: EntryView, mark: Seq<char>, d: int)
    requires
        is_other_tag(mark),
        d >= 0,
    ensures
        text::apart(petal(i, mood), mark, d),
{
    lemma_literals_no_tag(mark, d);
    lemma_escaped_no_tag(mood.mood, mark, d);
    lemma_escaped_no_tag(mood.color, mark, d);
    lemma_decimal_no_tag(petal_x(i, mood.ts) as nat, mark, d);
    lemma_decimal_no_tag(petal_y(i, mood.ts) as nat, mark, d);
    lemma_decimal_no_tag(petal_size(i, mood.mood) as nat, mark, d);
    lemma_delays_no_tag(i, mark, d);
    let p1 = "<span class=\"petal\" title=\""@ + escape::html_escaped(mood.mood);
    let p2 = p1 + "\" style=\"--x:"@;
    let p3 = p2 + number::decimal(petal_x(i, mood.ts) as nat);
    let p4 = p3 + "%;--y:"@;
    let p5 = p4 + number::decimal(petal_y(i, mood.ts) as nat);
    let p6 = p5 + "%;--s:"@;
    let p7 = p6 + number::decimal(petal_size(i, mood.mood) as nat);
    let p8 = p7 + "px;--c:"@;
    let p9 = p8 + escape::html_escaped(mood.color);
    let p10 = p9 + ";--d:"@;
    let p11 = p10 + petal_delay(i);
    text::lemma_apart_concat("<span class=\"petal\" title=\""@, escape::html_escaped(mood.mood), mark, d);
    text::lemma_apart_concat(p1, "\" style=\"--x:"@, mark, d);
    text::lemma_apart_concat(p2, number::decimal(petal_x(i, mood.ts) as nat), mark, d);
    text::lemma_apart_concat(p3, "%;--y:"@, mark, d);
    text::lemma_apart_concat(p4, number::decimal(petal_y(i, mood.ts) as nat), mark, d);
    text::lemma_apart_concat(p5, "%;--s:"@, mark, d);
    text::lemma_apart_concat(p6, number::decimal(petal_size(i, mood.mood) as nat), mark, d);
    text::lemma_apart_concat(p7, "px;--c:"@, mark, d);
    text::lemma_apart_concat(p8, escape::html_escaped(mood.color), mark, d);
    text::lemma_apart_concat(p9, ";--d:"@, mark, d);
    text::lemma_apart_concat(p10, petal_delay(i), mark, d);
    text::lemma_apart_concat(p11, "s\"></span>"@, mark, d);
}

proof fn lemma_ghost_no_tag(i: int, mark: Seq<char>, d: int)
    requires
        is_other_tag(mark),
        d >= 0,
    ensures
        text::apart(ghost_petal(i), mark, d),
{
    lemma_literals_no_tag(mark, d);
    lemma_decimal_no_tag(ghost_x(i) as nat, mark, d);
    lemma_decimal_no_tag(ghost_y(i) as nat, mark, d);
    lemma_delays_no_tag(i, mark, d);
    let p0 = "<span class=\"petal ghost\" style=\"--x:"@;
    let p1 = p0 + number::decimal(ghost_x(i) as nat);
    let p2 = p1 + "%;--y:"@;
    let p3 = p2 + number::decimal(ghost_y(i) as nat);
    let p4 = p3 + "%;--c:#d8f3dc;--d:"@;
    let p5 = p4 + ghost_delay(i);
    text::lemma_apart_concat(p0, number::decimal(ghost_x(i) as nat), mark, d);
    text::lemma_apart_concat(p1, "%;--y:"@, mark, d);
    text::lemma_apart_concat(p2, number::decimal(ghost_y(i) as nat), mark, d);
    text::lemma_apart_concat(p3, "%;--c:#d8f3dc;--d:"@, mark, d);
    text::lemma_apart_concat(p4, ghost_delay(i), mark, d);
    text::lemma_apart_concat(p5, "s\"></span>"@, mark, d);
}

proof fn lemma_ghosts_no_tag(n: nat, mark: Seq<char>, d: int)
    requires
        is_other_tag(mark),
        d >= 0,
    ensures
        text::apart(ghost_petals(n), mark, d),
    decreases n,
{
    if n > 0 {
        lemma_ghosts_no_tag((n - 1) as nat, mark, d);
        lemma_ghost_no_tag(n - 1, mark, d);
        text::lemma_apart_concat(ghost_petals((n - 1) as nat), ghost_petal(n - 1), mark, d);
    }
}

proof fn lemma_petals_no_tag(moods: Seq<EntryView>, mark: Seq<char>, d: int)
    requires
        is_other_tag(mark),
        d >= 0,
    ensures
        text::apart(petals(moods), mark, d),
    decreases moods.len(),
{
    if moods.len() > 0 {
        let init = moods.drop_last();
        lemma_petals_no_tag(init, mark, d);
        lemma_petal_no_tag(moods.len() - 1, moods.last(), mark, d);
        text::lemma_apart_concat(petals(init), petal(moods.len() - 1, moods.last()), mark, d);
    }
}

/// The garden holds no tag but those of its petals, whatever its moods are
/// called.
pub proof fn law_garden_holds_petals_only(entries: Seq<EntryView>, mark: Seq<char>, d: int)
    requires
        is_other_tag(mark),
        d >= 0,
    ensures
        text::apart(garden(entries), mark, d),
{
    lemma_ghosts_no_tag(GHOST_PETALS as nat, mark, d);
    lemma_petals_no_tag(recent_moods(entries, MAX_PETALS as nat), mark, d);
}

// ---------------------------------------------------------------------------
// Colors
// ---------------------------------------------------------------------------

/// Tells whether HTML gives none of the characters a meaning.
spec fn is_inert(s: Seq<char>) -> bool {
    forall|i: int|
        0 <= i < s.len() ==> #[trigger] s[i] != '&' && s[i] != '<' && s[i] != '>' && s[i] != '"'
}

proof fn lemma_inert_concat(a: Seq<char>, b: Seq<char>)
    requires
        is_inert(a),
        is_inert(b),
    ensures
        is_inert(a + b),
{
    let s = a + b;
    assert forall|i: int| 0 <= i < s.len() implies #[trigger] s[i] != '&' && s[i] != '<' && s[i]
        != '>' && s[i] != '"' by {
        if i < a.len() {
            assert(s[i] == a[i]);
        } else {
            assert(s[i] == b[i - a.len()]);
        }
    }
}

proof fn lemma_inert_stays(s: Seq<char>)
    requires
        is_inert(s),
    ensures
        escape::html_escaped(s) == s,
{
    escape::law_html_escaped_by_character(s, Seq::empty());
}

proof fn lemma_decimal_is_inert(n: nat)
    ensures
        is_inert(number::decimal(n)),
{
    lemma_digits_hold_no(n, '&');
    lemma_digits_hold_no(n, '<');
    lemma_digits_hold_no(n, '>');
    lemma_digits_hold_no(n, '"');
}

/// The properties of a petal that go before its color.
spec fn properties(i: int, mood: EntryView) -> Seq<char> {
    "--x:"@ + number::decimal(petal_x(i, mood.ts) as nat) + "%;"@ + "--y:"@ + number::decimal(
        petal_y(i, mood.ts) as nat,
    ) + "%;"@ + "--s:"@ + number::decimal(petal_size(i, mood.mood) as nat) + "px;"@
}

proof fn lemma_properties(i: int, mood: EntryView)
    requires
        i >= 0,
    ensures
        style_head(i, mood) == " style=\""@ + properties(i, mood),
        is_inert(properties(i, mood) + "--c:"@),
        text::apart(properties(i, mood), "--c:"@, 2),
{
    lemma_petal_numbers(i, mood);
    let x = number::decimal(petal_x(i, mood.ts) as nat);
    let y = number::decimal(petal_y(i, mood.ts) as nat);
    let size = number::decimal(petal_size(i, mood.mood) as nat);
    lemma_decimal_is_inert(petal_x(i, mood.ts) as nat);
    lemma_decimal_is_inert(petal_y(i, mood.ts) as nat);
    lemma_decimal_is_inert(petal_size(i, mood.mood) as nat);
    lemma_property_names_are_inert();
    let a = "--x:"@ + x;
    let b = a + "%;"@;
    let c = b + "--y:"@;
    let d = c + y;
    let e = d + "%;"@;
    let f = e + "--s:"@;
    let g = f + size;
    let h = g + "px;"@;
    lemma_inert_concat("--x:"@, x);
    lemma_inert_concat(a, "%;"@);
    lemma_inert_concat(b, "--y:"@);
    lemma_inert_concat(c, y);
    lemma_inert_concat(d, "%;"@);
    lemma_inert_concat(e, "--s:"@);
    lemma_inert_concat(f, size);
    lemma_inert_concat(g, "px;"@);
    lemma_inert_concat(h, "--c:"@);
    assert(properties(i, mood) == h);
    let head = " style=\""@;
    assert(style_head(i, mood) =~= head + h);
    assert forall|k: int| 0 <= k < h.len() && #[trigger] h[k] == "--c:"@[0] implies {
        ||| k + 1 < h.len() && h[k + 1] != "--c:"@[1]
        ||| k + 2 < h.len() && h[k + 2] != "--c:"@[2]
        ||| k + 2 < h.len() && h[k + 2] != "--c:"@[2]
    } by {
        let n = head.len() as int;
        assert((head + h)[k + n] == h[k]);
        assert(k + 1 < h.len() ==> (head + h)[k + n + 1] == h[k + 1]);
        assert(k + 2 < h.len() ==> (head + h)[k + n + 2] == h[k + 2]);
    }
}

proof fn lemma_property_names_are_inert()
    ensures
        is_inert("--x:"@),
        is_inert("--y:"@),
        is_inert("--s:"@),
        is_inert("--c:"@),
        is_inert("--d:"@),
        is_inert("%;"@),
        is_inert("px;"@),
        is_inert(";"@),
        is_inert("s"@),
        "s\"></span>"@ == "s"@ + (seq!['"'] + "></span>"@),
{
    reveal_strlit("--x:");
    reveal_strlit("--y:");
    reveal_strlit("--s:");
    reveal_strlit("--c:");
    reveal_strlit("--d:");
    reveal_strlit("%;");
    reveal_strlit("px;");
    reveal_strlit(";");
    reveal_strlit("s");
    reveal_strlit("></span>");
    reveal_strlit("s\"></span>");
    assert("s\"></span>"@ =~= "s"@ + (seq!['"'] + "></span>"@));
}

proof fn lemma_delay_is_inert(i: int)
    ensures
        is_inert(petal_delay(i)),
{
    reveal_strlit("0");
    reveal_strlit("0.12");
    reveal_strlit("0.24");
    reveal_strlit("0.35999998");
    reveal_strlit("0.48");
    reveal_strlit("0.59999996");
    reveal_strlit("0.71999997");
    reveal_strlit("0.84");
    reveal_strlit("0.96");
}

/// What stands in the style of a petal, between its quotes.
pub open spec fn style_value(petal: Seq<char>) -> Seq<char> {
    text::before(style_of(petal).skip(" style=\""@.len() as int), '"')
}

/// Whatever a color holds, it stays inside the style of its petal; and it is the
/// color of the mood that a reader of the style finds, unless a semicolon stands
/// in it.
pub proof fn law_color_is_read(i: int, mood: EntryView)
    requires
        i >= 0,
        !mood.color.contains(';'),
    ensures
        property(escape::html_value(style_value(petal(i, mood))), "--c:"@, ';') == mood.color,
{
    lemma_petal_title(i, mood);
    lemma_properties(i, mood);
    lemma_petal_literals();
    lemma_property_names_are_inert();
    lemma_delay_is_inert(i);
    let head = " style=\""@;
    let front = properties(i, mood) + "--c:"@;
    let color = escape::html_escaped(mood.color);
    let end = ";"@ + "--d:"@ + petal_delay(i) + "s"@;
    lemma_inert_concat(";"@, "--d:"@);
    lemma_inert_concat(";"@ + "--d:"@, petal_delay(i));
    lemma_inert_concat(";"@ + "--d:"@ + petal_delay(i), "s"@);
    let value = front + color + end;
    let meant = front + mood.color + end;
    assert(style_of(petal(i, mood)) =~= head + (value + seq!['"'] + "></span>"@));
    assert((head + (value + seq!['"'] + "></span>"@)).skip(head.len() as int) =~= value + seq!['"']
        + "></span>"@);
    escape::law_html_escaped_by_character(front, mood.color);
    escape::law_html_escaped_by_character(front + mood.color, end);
    lemma_inert_stays(front);
    lemma_inert_stays(end);
    assert(escape::html_escaped(meant) == value);
    assert(!value.contains('"')) by {
        if value.contains('"') {
            let k = choose|k: int| 0 <= k < value.len() && value[k] == '"';
            escape::law_html_escaped_is_inert(meant, k);
        }
    }
    text::law_first_parts(value, '"', "></span>"@);
    escape::law_html_escaped_read_back(meant);
    assert(end[0] == ';');
    lemma_property(properties(i, mood), "--c:"@, mood.color, end, ';');
}

} // verus!
