//! What visitors see: the page, and the state that its script asks for.

use vstd::prelude::*;
use crate::assets;
use crate::entry;
use crate::entry::{latest_note, stats, Entry, EntryView, Stats};
use crate::escape;
use crate::escape::{escape_html, escape_json};
use crate::garden;
use crate::garden::garden_petals;
use crate::json;
use crate::number;
use crate::number::push_decimal;
use crate::quest;
use crate::quest::{now, quest_for};
use crate::server::AppState;
use crate::text;

verus! {

/// The note on the page: the last one left, or an invitation.
pub open spec fn page_note(entries: Seq<EntryView>) -> Seq<char> {
    match entry::last_note(entries) {
        Some(note) => escape::html_escaped(note),
        None => "Leave a kind note and the next person gets to find it."@,
    }
}

/// The page for the given entries and quest.
pub open spec fn page(entries: Seq<EntryView>, quest: Seq<char>) -> Seq<char> {
    assets::PAGE_HEAD@ + garden::garden(entries) + assets::PAGE_MOODS_PANEL@ + quest
        + assets::PAGE_QUEST_FIELD@ + quest + assets::PAGE_NOTE_PANEL@ + page_note(entries)
        + assets::PAGE_PULSE@ + number::decimal(entry::count_kind(entries, "mood"@))
        + assets::PAGE_AFTER_MOODS@ + number::decimal(entry::count_kind(entries, "quest"@))
        + assets::PAGE_AFTER_QUESTS@ + number::decimal(entry::count_kind(entries, "note"@))
        + assets::PAGE_FOOT@
}

/// Renders the page for the given entries and quest.
pub fn render_page(entries: &[Entry], quest: &str) -> (r: String)
    ensures
        r@ == page(entry::views(entries@), quest@),
{
    let stats: Stats = stats(entries);
    let note: String = match latest_note(entries) {
        Some(note) => escape_html(note.as_str()),
        None => "Leave a kind note and the next person gets to find it.".to_string(),
    };
    let petals: String = garden_petals(entries);
    let mut html: String = assets::PAGE_HEAD.to_string();
    html.append(petals.as_str());
    html.append(assets::PAGE_MOODS_PANEL);
    html.append(quest);
    html.append(assets::PAGE_QUEST_FIELD);
    html.append(quest);
    html.append(assets::PAGE_NOTE_PANEL);
    html.append(note.as_str());
    html.append(assets::PAGE_PULSE);
    push_decimal(&mut html, stats.moods as u64);
    html.append(assets::PAGE_AFTER_MOODS);
    push_decimal(&mut html, stats.quests as u64);
    html.append(assets::PAGE_AFTER_QUESTS);
    push_decimal(&mut html, stats.notes as u64);
    html.append(assets::PAGE_FOOT);
    html
}

/// Renders the page as it is today, as the clock gives today.
pub fn render_home(state: &AppState) -> (r: String)
    ensures
        exists|ts: u64|
            quest::clock_gives(ts) && r@ == page(
                entry::views(state.entries@),
                #[trigger] quest::quest_at(ts),
            ),
{
    let ts: u64 = now();
    let quest: &'static str = quest_for(ts);
    assert(quest::clock_gives(ts) && quest@ == quest::quest_at(ts));
    render_page(state.entries.as_slice(), quest)
}

/// The state of the garden in JSON: the counts, the last note and the garden.
pub open spec fn state_text(entries: Seq<EntryView>) -> Seq<char> {
    "{\"moods\":"@ + number::decimal(entry::count_kind(entries, "mood"@)) + ",\"notes\":"@
        + number::decimal(entry::count_kind(entries, "note"@)) + ",\"quests\":"@ + number::decimal(
        entry::count_kind(entries, "quest"@),
    ) + ",\"note\":\""@ + escape::json_escaped(state_note(entries)) + "\",\"garden\":\""@
        + escape::json_escaped(garden::garden(entries)) + "\"}"@
}

/// The note in the state: the last one left, or nothing.
pub open spec fn state_note(entries: Seq<EntryView>) -> Seq<char> {
    match entry::last_note(entries) {
        Some(note) => note,
        None => Seq::empty(),
    }
}

/// Renders the state of the garden in JSON.
pub fn state_json(entries: &[Entry]) -> (r: String)
    ensures
        r@ == state_text(entry::views(entries@)),
{
    let stats: Stats = stats(entries);
    let note: String = match latest_note(entries) {
        Some(note) => note,
        None => String::new(),
    };
    let petals: String = garden_petals(entries);
    let mut json: String = "{\"moods\":".to_string();
    push_decimal(&mut json, stats.moods as u64);
    json.append(",\"notes\":");
    push_decimal(&mut json, stats.notes as u64);
    json.append(",\"quests\":");
    push_decimal(&mut json, stats.quests as u64);
    json.append(",\"note\":\"");
    json.append(escape_json(note.as_str()).as_str());
    json.append("\",\"garden\":\"");
    json.append(escape_json(petals.as_str()).as_str());
    json.append("\"}");
    json
}

// ---------------------------------------------------------------------------
// Reading the state
// ---------------------------------------------------------------------------

/// How many of the entries are of the given kind: as many as remain when the
/// others are left out.
pub open spec fn number_of(entries: Seq<EntryView>, kind: Seq<char>) -> nat {
    entries.filter(|e: EntryView| e.kind == kind).len()
}

/// Read as JSON, the state is an object with five members: `moods`, `notes` and
/// `quests` are the numbers of entries of these kinds, `note` is the last note
/// that was written, or empty, and `garden` is the garden; of the two texts, all
/// is there but stray control characters.
pub proof fn law_state_is_read(entries: Seq<EntryView>)
    ensures
        json::object(state_text(entries)) == Some(
            Map::<Seq<char>, json::Value>::empty().insert(
                "garden"@,
                json::Value::Text(json::kept(garden::garden(entries))),
            ).insert(
                "note"@,
                json::Value::Text(
                    match entry::last_note(entries) {
                        Some(note) => json::kept(note),
                        None => Seq::empty(),
                    },
                ),
            ).insert("quests"@, json::Value::Number(number_of(entries, "quest"@))).insert(
                "notes"@,
                json::Value::Number(number_of(entries, "note"@)),
            ).insert("moods"@, json::Value::Number(number_of(entries, "mood"@))),
        ),
{
    let note = state_note(entries);
    let petals = garden::garden(entries);
    let moods = number_of(entries, "mood"@);
    let notes = number_of(entries, "note"@);
    let quests = number_of(entries, "quest"@);
    entry::law_count_is_number_of_kind(entries, "mood"@);
    entry::law_count_is_number_of_kind(entries, "note"@);
    entry::law_count_is_number_of_kind(entries, "quest"@);
    if entry::last_note(entries) is None {
        reveal(Seq::filter);
        assert(json::kept(note) =~= Seq::<char>::empty());
    }
    lemma_state_layout(entries);
    lemma_state_names();
    let end = seq!['}'];
    let comma = seq![','];
    let m5 = json::text_member("garden"@, petals);
    let m4 = json::text_member("note"@, note);
    let m3 = json::number_member("quests"@, quests);
    let m2 = json::number_member("notes"@, notes);
    let m1 = json::number_member("moods"@, moods);
    let v5 = json::Value::Text(json::kept(petals));
    let v4 = json::Value::Text(json::kept(note));
    let v3 = json::Value::Number(quests);
    let v2 = json::Value::Number(notes);
    let v1 = json::Value::Number(moods);
    let k5 = Map::<Seq<char>, json::Value>::empty().insert("garden"@, v5);
    let k4 = k5.insert("note"@, v4);
    let k3 = k4.insert("quests"@, v3);
    let k2 = k3.insert("notes"@, v2);
    let s5 = m5 + end;
    let s4 = m4 + (comma + s5);
    let s3 = m3 + (comma + s4);
    let s2 = m2 + (comma + s3);
    let s1 = m1 + (comma + s2);
    json::law_text_member_is_read("garden"@, petals, end);
    assert(json::read_members(s5) == Some(k5));
    json::law_text_member_is_read("note"@, note, comma + s5);
    json::law_further_members(m4, "note"@, v4, s5, k5);
    json::law_number_member_is_read("quests"@, quests, comma + s4);
    json::law_further_members(m3, "quests"@, v3, s4, k4);
    json::law_number_member_is_read("notes"@, notes, comma + s3);
    json::law_further_members(m2, "notes"@, v2, s3, k3);
    json::law_number_member_is_read("moods"@, moods, comma + s2);
    json::law_further_members(m1, "moods"@, v1, s2, k2);
    assert((seq!['{'] + s1).drop_first() =~= s1);
}

/// The names in the state can stand in quotes as they are, and differ.
pub proof fn lemma_state_names()
    ensures
        json::is_plain("moods"@),
        json::is_plain("notes"@),
        json::is_plain("quests"@),
        json::is_plain("note"@),
        json::is_plain("garden"@),
        "moods"@ != "notes"@,
        "moods"@ != "quests"@,
        "moods"@ != "note"@,
        "moods"@ != "garden"@,
        "notes"@ != "quests"@,
        "notes"@ != "note"@,
        "notes"@ != "garden"@,
        "quests"@ != "note"@,
        "quests"@ != "garden"@,
        "note"@ != "garden"@,
{
    reveal_strlit("moods");
    reveal_strlit("notes");
    reveal_strlit("quests");
    reveal_strlit("note");
    reveal_strlit("garden");
    assert("moods"@[0] == 'm' && "notes"@[0] == 'n' && "quests"@[0] == 'q');
    assert("note"@[0] == 'n' && "garden"@[0] == 'g');
    assert("note"@.len() == 4 && "notes"@.len() == 5);
}

proof fn lemma_state_literals()
    ensures
        "{\"moods\":"@ == seq!['{'] + (seq!['"'] + "moods"@ + seq!['"', ':']),
        ",\"notes\":"@ == seq![','] + (seq!['"'] + "notes"@ + seq!['"', ':']),
        ",\"quests\":"@ == seq![','] + (seq!['"'] + "quests"@ + seq!['"', ':']),
        ",\"note\":\""@ == seq![','] + (seq!['"'] + "note"@ + seq!['"', ':', '"']),
        "\",\"garden\":\""@ == seq!['"'] + (seq![','] + (seq!['"'] + "garden"@ + seq![
            '"',
            ':',
            '"',
        ])),
        "\"}"@ == seq!['"'] + seq!['}'],
{
    reveal_strlit("moods");
    reveal_strlit("notes");
    reveal_strlit("quests");
    reveal_strlit("note");
    reveal_strlit("garden");
    reveal_strlit("{\"moods\":");
    reveal_strlit(",\"notes\":");
    reveal_strlit(",\"quests\":");
    reveal_strlit(",\"note\":\"");
    reveal_strlit("\",\"garden\":\"");
    reveal_strlit("\"}");
}

proof fn lemma_state_layout(entries: Seq<EntryView>)
    ensures
        state_text(entries) == seq!['{'] + (json::number_member(
            "moods"@,
            entry::count_kind(entries, "mood"@),
        ) + (seq![','] + (json::number_member("notes"@, entry::count_kind(entries, "note"@)) + (seq![
            ',',
        ] + (json::number_member("quests"@, entry::count_kind(entries, "quest"@)) + (seq![',']
            + (json::text_member("note"@, state_note(entries)) + (seq![','] + (json::text_member(
            "garden"@,
            garden::garden(entries),
        ) + seq!['}']))))))))),
{
    lemma_state_literals();
    let a = seq!['"'] + "moods"@ + seq!['"', ':'];
    let b = seq!['"'] + "notes"@ + seq!['"', ':'];
    let c = seq!['"'] + "quests"@ + seq!['"', ':'];
    let d = seq!['"'] + "note"@ + seq!['"', ':', '"'];
    let e = seq!['"'] + "garden"@ + seq!['"', ':', '"'];
    let n1 = number::decimal(entry::count_kind(entries, "mood"@));
    let n2 = number::decimal(entry::count_kind(entries, "note"@));
    let n3 = number::decimal(entry::count_kind(entries, "quest"@));
    let t1 = escape::json_escaped(state_note(entries));
    let t2 = escape::json_escaped(garden::garden(entries));
    let comma = seq![','];
    let quote = seq!['"'];
    let end = seq!['}'];
    assert(state_text(entries) == seq!['{'] + a + n1 + (comma + b) + n2 + (comma + c) + n3 + (comma
        + d) + t1 + (quote + (comma + e)) + t2 + (quote + end));
    let s5 = e + t2 + quote + end;
    let s4 = d + t1 + quote + (comma + s5);
    let s3 = c + n3 + (comma + s4);
    let s2 = b + n2 + (comma + s3);
    let s1 = a + n1 + (comma + s2);
    assert(state_text(entries) =~= seq!['{'] + s1);
}

/// One more entry raises the number of its kind by one and no other: with a note
/// more, `notes` is one more and `moods` and `quests` are as they were, and so
/// with a mood or a quest.
pub proof fn law_entry_raises_its_number(
    entries: Seq<EntryView>,
    entry: EntryView,
    kind: Seq<char>,
)
    ensures
        number_of(entries.push(entry), kind) == number_of(entries, kind) + if entry.kind == kind {
            1nat
        } else {
            0nat
        },
        number_of(Seq::empty(), kind) == 0,
{
    reveal(Seq::filter);
    assert(entries.push(entry).drop_last() =~= entries);
    assert(entries.push(entry).last() == entry);
}

// ---------------------------------------------------------------------------
// Reading the page
// ---------------------------------------------------------------------------

/// What stands on the page between the first `open` and the next `end`.
pub open spec fn shown(html: Seq<char>, open: Seq<char>, end: char) -> Seq<char> {
    text::before(text::after_text(html, open), end)
}

/// What stands inside the element that holds the garden.
pub open spec fn shown_garden(html: Seq<char>) -> Seq<char> {
    text::before_text(
        text::after_text(
            html,
            "<div class=\"garden\" id=\"garden\" aria-label=\"A living garden built from recent moods\">"@,
        ),
        "</div>"@,
    )
}

/// The page is read as it was meant, whatever visitors have left. The number
/// inside the element `moods` is the number of entries of kind `mood`, and so
/// with `quests` and `notes`. The quest stands under its heading and in its form.
/// The text inside the element `note` is, in quotes, the last note that was
/// written, or the invitation to leave one. The garden stands in its element.
pub proof fn law_page_is_read(entries: Seq<EntryView>, quest: Seq<char>)
    requires
        !quest.contains('<'),
        !quest.contains('"'),
    ensures
        ({
            let html = page(entries, quest);
            let moods = shown(html, "<strong id=\"moods\">"@, '<');
            let quests = shown(html, "<strong id=\"quests\">"@, '<');
            let notes = shown(html, "<strong id=\"notes\">"@, '<');
            let note = shown(html, "<blockquote id=\"note\">\""@, '"');
            &&& number::number(moods) == number_of(entries, "mood"@)
            &&& number::number(quests) == number_of(entries, "quest"@)
            &&& number::number(notes) == number_of(entries, "note"@)
            &&& number::parsed(moods, number_of(entries, "mood"@)) == Some(
                number_of(entries, "mood"@),
            )
            &&& number::parsed(quests, number_of(entries, "quest"@)) == Some(
                number_of(entries, "quest"@),
            )
            &&& number::parsed(notes, number_of(entries, "note"@)) == Some(
                number_of(entries, "note"@),
            )
            &&& escape::html_value(note) == match entry::last_note(entries) {
                Some(note) => note,
                None => "Leave a kind note and the next person gets to find it."@,
            }
            &&& shown(html, "<p class=\"eyebrow\">Tiny quest</p>\n          <h2>"@, '<') == quest
            &&& shown(html, "<input type=\"hidden\" name=\"text\" value=\""@, '"') == quest
            &&& shown_garden(html) == "\n        "@ + garden::garden(entries) + "\n      "@
        }),
{
    lemma_garden_is_shown(entries, quest);
    lemma_quest_is_shown(entries, quest);
    lemma_note_is_shown(entries, quest);
    lemma_moods_are_shown(entries, quest);
    lemma_quests_are_shown(entries, quest);
    lemma_notes_are_shown(entries, quest);
    entry::law_count_is_number_of_kind(entries, "mood"@);
    entry::law_count_is_number_of_kind(entries, "quest"@);
    entry::law_count_is_number_of_kind(entries, "note"@);
    number::law_decimal_is_plain(number_of(entries, "mood"@));
    number::law_decimal_is_plain(number_of(entries, "quest"@));
    number::law_decimal_is_plain(number_of(entries, "note"@));
    number::law_decimal_read_back(number_of(entries, "mood"@), number_of(entries, "mood"@));
    number::law_decimal_read_back(number_of(entries, "quest"@), number_of(entries, "quest"@));
    number::law_decimal_read_back(number_of(entries, "note"@), number_of(entries, "note"@));
}

/// What stands between a mark and the character that ends it is what is shown.
proof fn lemma_shown(
    a: Seq<char>,
    open: Seq<char>,
    value: Seq<char>,
    tail: Seq<char>,
    end: char,
    d: int,
)
    requires
        open.len() > 2,
        0 <= d < open.len(),
        text::apart(a, open, d),
        !value.contains(end),
        tail.len() > 0,
        tail[0] == end,
    ensures
        shown(a + open + (value + tail), open, end) == value,
{
    text::lemma_find_text(a, open, value + tail, d);
    assert(value + tail =~= value + seq![end] + tail.drop_first());
    text::law_first_parts(value, end, tail.drop_first());
}

proof fn lemma_without(s: Seq<char>, mark: Seq<char>, d: int)
    requires
        !s.contains('<'),
        mark[0] == '<',
    ensures
        text::apart(s, mark, d),
{
    assert forall|i: int| 0 <= i < s.len() implies #[trigger] s[i] != '<' by {
        assert(s.contains(s[i]));
    }
}

proof fn lemma_decimal_holds_no_tag(n: nat)
    ensures
        !number::decimal(n).contains('<'),
{
    number::law_decimal_is_plain(n);
    let s = number::decimal(n);
    if s.contains('<') {
        let k = choose|k: int| 0 <= k < s.len() && s[k] == '<';
        assert(number::is_digit(s[k]));
    }
}

proof fn lemma_page_note_is_inert(entries: Seq<EntryView>)
    ensures
        !page_note(entries).contains('<'),
        !page_note(entries).contains('"'),
        escape::html_value(page_note(entries)) == match entry::last_note(entries) {
            Some(note) => note,
            None => "Leave a kind note and the next person gets to find it."@,
        },
{
    let s = page_note(entries);
    match entry::last_note(entries) {
        Some(note) => {
            escape::law_html_escaped_read_back(note);
            if s.contains('<') {
                let k = choose|k: int| 0 <= k < s.len() && s[k] == '<';
                escape::law_html_escaped_is_inert(note, k);
            }
            if s.contains('"') {
                let k = choose|k: int| 0 <= k < s.len() && s[k] == '"';
                escape::law_html_escaped_is_inert(note, k);
            }
        },
        None => {
            reveal_strlit("Leave a kind note and the next person gets to find it.");
            escape::law_html_escaped_by_character(s, Seq::empty());
            escape::law_html_escaped_read_back(s);
        },
    }
}

/// The page up to the quest.
spec fn upto_panel(entries: Seq<EntryView>) -> Seq<char> {
    assets::PAGE_HEAD@ + garden::garden(entries)
}

/// The page up to the quest in its form.
spec fn upto_field(entries: Seq<EntryView>, quest: Seq<char>) -> Seq<char> {
    upto_panel(entries) + assets::PAGE_MOODS_PANEL@ + quest
}

/// The page up to what goes before the note.
spec fn upto_note(entries: Seq<EntryView>, quest: Seq<char>) -> Seq<char> {
    upto_field(entries, quest) + assets::PAGE_QUEST_FIELD@ + quest
}

/// The page up to what goes before the numbers.
spec fn upto_pulse(entries: Seq<EntryView>, quest: Seq<char>) -> Seq<char> {
    upto_note(entries, quest) + assets::PAGE_NOTE_PANEL@ + page_note(entries)
}

/// The page from the number of notes on.
spec fn from_notes(entries: Seq<EntryView>) -> Seq<char> {
    number::decimal(entry::count_kind(entries, "note"@)) + assets::PAGE_FOOT@
}

/// The page from the number of quests on.
spec fn from_quests(entries: Seq<EntryView>) -> Seq<char> {
    number::decimal(entry::count_kind(entries, "quest"@)) + (assets::PAGE_AFTER_QUESTS@
        + from_notes(entries))
}

/// The page from the number of moods on.
spec fn from_moods(entries: Seq<EntryView>) -> Seq<char> {
    number::decimal(entry::count_kind(entries, "mood"@)) + (assets::PAGE_AFTER_MOODS@
        + from_quests(entries))
}

/// The page from the note on.
spec fn from_note(entries: Seq<EntryView>) -> Seq<char> {
    page_note(entries) + (assets::PAGE_PULSE@ + from_moods(entries))
}

/// The page from the quest in its form on.
spec fn from_field(entries: Seq<EntryView>, quest: Seq<char>) -> Seq<char> {
    quest + (assets::PAGE_NOTE_PANEL@ + from_note(entries))
}

/// The page from the quest on.
spec fn from_quest(entries: Seq<EntryView>, quest: Seq<char>) -> Seq<char> {
    quest + (assets::PAGE_QUEST_FIELD@ + from_field(entries, quest))
}

proof fn lemma_page_parts(entries: Seq<EntryView>, quest: Seq<char>)
    ensures
        page(entries, quest) == upto_pulse(entries, quest) + assets::PAGE_PULSE@ + from_moods(
            entries,
        ),
        page(entries, quest) == upto_note(entries, quest) + assets::PAGE_NOTE_PANEL@ + from_note(
            entries,
        ),
        page(entries, quest) == upto_field(entries, quest) + assets::PAGE_QUEST_FIELD@
            + from_field(entries, quest),
        page(entries, quest) == upto_panel(entries) + assets::PAGE_MOODS_PANEL@ + from_quest(
            entries,
            quest,
        ),
{
    let b = upto_pulse(entries, quest) + assets::PAGE_PULSE@;
    let n1 = number::decimal(entry::count_kind(entries, "mood"@));
    let n2 = number::decimal(entry::count_kind(entries, "quest"@));
    let n3 = number::decimal(entry::count_kind(entries, "note"@));
    let y = b + n1 + assets::PAGE_AFTER_MOODS@;
    let x = y + n2 + assets::PAGE_AFTER_QUESTS@;
    assert(page(entries, quest) == x + n3 + assets::PAGE_FOOT@);
    lemma_regroup(x, n3, assets::PAGE_FOOT@, Seq::empty());
    lemma_regroup(y, n2, assets::PAGE_AFTER_QUESTS@, from_notes(entries));
    lemma_regroup(b, n1, assets::PAGE_AFTER_MOODS@, from_quests(entries));
    lemma_regroup(
        upto_note(entries, quest) + assets::PAGE_NOTE_PANEL@,
        page_note(entries),
        assets::PAGE_PULSE@,
        from_moods(entries),
    );
    lemma_regroup(
        upto_field(entries, quest) + assets::PAGE_QUEST_FIELD@,
        quest,
        assets::PAGE_NOTE_PANEL@,
        from_note(entries),
    );
    lemma_regroup(
        upto_panel(entries) + assets::PAGE_MOODS_PANEL@,
        quest,
        assets::PAGE_QUEST_FIELD@,
        from_field(entries, quest),
    );
}

proof fn lemma_regroup(a: Seq<char>, b: Seq<char>, c: Seq<char>, d: Seq<char>)
    ensures
        a + b + c == a + (b + c),
        a + b + c + d == a + (b + (c + d)),
{
    assert(a + b + c =~= a + (b + c));
    assert(a + b + c + d =~= a + (b + (c + d)));
}

/// Each part of the page is apart from the marks that come after it.
proof fn lemma_parts_apart(entries: Seq<EntryView>, quest: Seq<char>)
    requires
        !quest.contains('<'),
    ensures
        text::apart(upto_panel(entries), assets::QUEST_MARK@, 19),
        text::apart(upto_field(entries, quest), assets::FIELD_MARK@, 27),
        text::apart(upto_note(entries, quest), assets::NOTE_MARK@, 12),
        text::apart(upto_pulse(entries, quest), assets::MOODS_MARK@, 12),
        text::apart(upto_pulse(entries, quest), assets::QUESTS_MARK@, 12),
        text::apart(upto_pulse(entries, quest), assets::NOTES_MARK@, 12),
{
    assets::lemma_marks();
    assets::lemma_page_head();
    assets::lemma_page_moods_panel();
    assets::lemma_page_quest_field();
    assets::lemma_page_note_panel();
    lemma_panel_apart(entries, assets::QUEST_MARK@, 19);
    lemma_panel_apart(entries, assets::FIELD_MARK@, 27);
    lemma_field_apart(entries, quest, assets::FIELD_MARK@, 27);
    lemma_panel_apart(entries, assets::NOTE_MARK@, 12);
    lemma_field_apart(entries, quest, assets::NOTE_MARK@, 12);
    lemma_note_apart(entries, quest, assets::NOTE_MARK@, 12);
    lemma_pulse_apart(entries, quest, assets::MOODS_MARK@, 12);
    lemma_pulse_apart(entries, quest, assets::QUESTS_MARK@, 12);
    lemma_pulse_apart(entries, quest, assets::NOTES_MARK@, 12);
}

proof fn lemma_panel_apart(entries: Seq<EntryView>, mark: Seq<char>, d: int)
    requires
        garden::is_other_tag(mark),
        d >= 0,
        text::apart(assets::PAGE_HEAD@, mark, d),
    ensures
        text::apart(upto_panel(entries), mark, d),
{
    garden::law_garden_holds_petals_only(entries, mark, d);
    text::lemma_apart_concat(assets::PAGE_HEAD@, garden::garden(entries), mark, d);
}

proof fn lemma_field_apart(entries: Seq<EntryView>, quest: Seq<char>, mark: Seq<char>, d: int)
    requires
        mark[0] == '<',
        d >= 0,
        !quest.contains('<'),
        text::apart(upto_panel(entries), mark, d),
        text::apart(assets::PAGE_MOODS_PANEL@, mark, d),
    ensures
        text::apart(upto_field(entries, quest), mark, d),
{
    lemma_without(quest, mark, d);
    let a = upto_panel(entries);
    text::lemma_apart_concat(a, assets::PAGE_MOODS_PANEL@, mark, d);
    text::lemma_apart_concat(a + assets::PAGE_MOODS_PANEL@, quest, mark, d);
}

proof fn lemma_note_apart(entries: Seq<EntryView>, quest: Seq<char>, mark: Seq<char>, d: int)
    requires
        mark[0] == '<',
        d >= 0,
        !quest.contains('<'),
        text::apart(upto_field(entries, quest), mark, d),
        text::apart(assets::PAGE_QUEST_FIELD@, mark, d),
    ensures
        text::apart(upto_note(entries, quest), mark, d),
{
    lemma_without(quest, mark, d);
    let a = upto_field(entries, quest);
    text::lemma_apart_concat(a, assets::PAGE_QUEST_FIELD@, mark, d);
    text::lemma_apart_concat(a + assets::PAGE_QUEST_FIELD@, quest, mark, d);
}

proof fn lemma_pulse_apart(entries: Seq<EntryView>, quest: Seq<char>, mark: Seq<char>, d: int)
    requires
        garden::is_other_tag(mark),
        d >= 0,
        !quest.contains('<'),
        text::apart(assets::PAGE_HEAD@, mark, d),
        text::apart(assets::PAGE_MOODS_PANEL@, mark, d),
        text::apart(assets::PAGE_QUEST_FIELD@, mark, d),
        text::apart(assets::PAGE_NOTE_PANEL@, mark, d),
    ensures
        text::apart(upto_pulse(entries, quest), mark, d),
{
    lemma_panel_apart(entries, mark, d);
    lemma_field_apart(entries, quest, mark, d);
    lemma_note_apart(entries, quest, mark, d);
    lemma_page_note_is_inert(entries);
    lemma_without(page_note(entries), mark, d);
    let a = upto_note(entries, quest);
    text::lemma_apart_concat(a, assets::PAGE_NOTE_PANEL@, mark, d);
    text::lemma_apart_concat(a + assets::PAGE_NOTE_PANEL@, page_note(entries), mark, d);
}

proof fn lemma_garden_is_shown(entries: Seq<EntryView>, quest: Seq<char>)
    ensures
        shown_garden(page(entries, quest)) == "\n        "@ + garden::garden(entries)
            + "\n      "@,
{
    reveal_strlit("\n        ");
    reveal_strlit("\n      ");
    reveal_strlit("</div>");
    assets::lemma_marks();
    assets::lemma_page_head();
    assets::lemma_page_moods_panel();
    lemma_page_parts(entries, quest);
    let head = assets::PAGE_HEAD@.take(557);
    let mark = assets::GARDEN_MARK@;
    let petals = garden::garden(entries);
    let inside = "\n        "@ + petals + "\n      "@;
    let rest = assets::PAGE_MOODS_PANEL@.skip(13) + from_quest(entries, quest);
    let close = "</div>"@;
    assert(page(entries, quest) =~= head + mark + (inside + close + rest));
    text::lemma_find_text(head, mark, inside + close + rest, 12);
    garden::law_garden_holds_petals_only(entries, close, 2);
    text::lemma_apart_concat("\n        "@, petals, close, 2);
    text::lemma_apart_concat("\n        "@ + petals, "\n      "@, close, 2);
    text::lemma_find_text(inside, close, rest, 2);
}

proof fn lemma_quest_is_shown(entries: Seq<EntryView>, quest: Seq<char>)
    requires
        !quest.contains('<'),
        !quest.contains('"'),
    ensures
        shown(page(entries, quest), assets::QUEST_MARK@, '<') == quest,
        shown(page(entries, quest), assets::FIELD_MARK@, '"') == quest,
{
    assets::lemma_marks();
    assets::lemma_page_moods_panel();
    assets::lemma_page_quest_field();
    assets::lemma_page_note_panel();
    lemma_page_parts(entries, quest);
    lemma_parts_apart(entries, quest);
    let a = assets::PAGE_MOODS_PANEL@.take(1000);
    let m = assets::QUEST_MARK@;
    text::lemma_apart_concat(upto_panel(entries), a, m, 19);
    assert(upto_panel(entries) + (a + m) + from_quest(entries, quest) =~= upto_panel(entries) + a
        + m + from_quest(entries, quest));
    lemma_shown(
        upto_panel(entries) + a,
        m,
        quest,
        assets::PAGE_QUEST_FIELD@ + from_field(entries, quest),
        '<',
        19,
    );
    let b = assets::PAGE_QUEST_FIELD@.take(29);
    let n = assets::FIELD_MARK@;
    let c = upto_field(entries, quest);
    text::lemma_apart_concat(c, b, n, 27);
    assert(c + (b + n) + from_field(entries, quest) =~= c + b + n + from_field(entries, quest));
    lemma_shown(c + b, n, quest, assets::PAGE_NOTE_PANEL@ + from_note(entries), '"', 27);
}

proof fn lemma_note_is_shown(entries: Seq<EntryView>, quest: Seq<char>)
    requires
        !quest.contains('<'),
    ensures
        escape::html_value(shown(page(entries, quest), assets::NOTE_MARK@, '"'))
            == match entry::last_note(entries) {
            Some(note) => note,
            None => "Leave a kind note and the next person gets to find it."@,
        },
{
    assets::lemma_marks();
    assets::lemma_page_note_panel();
    assets::lemma_page_pulse();
    lemma_page_parts(entries, quest);
    lemma_parts_apart(entries, quest);
    lemma_page_note_is_inert(entries);
    let a = assets::PAGE_NOTE_PANEL@.take(271);
    let m = assets::NOTE_MARK@;
    let c = upto_note(entries, quest);
    text::lemma_apart_concat(c, a, m, 12);
    assert(c + (a + m) + from_note(entries) =~= c + a + m + from_note(entries));
    lemma_shown(c + a, m, page_note(entries), assets::PAGE_PULSE@ + from_moods(entries), '"', 12);
}

proof fn lemma_moods_are_shown(entries: Seq<EntryView>, quest: Seq<char>)
    requires
        !quest.contains('<'),
    ensures
        shown(page(entries, quest), assets::MOODS_MARK@, '<') == number::decimal(
            entry::count_kind(entries, "mood"@),
        ),
{
    assets::lemma_marks();
    assets::lemma_page_pulse();
    assets::lemma_page_after_moods();
    lemma_page_parts(entries, quest);
    lemma_parts_apart(entries, quest);
    let n1 = number::decimal(entry::count_kind(entries, "mood"@));
    lemma_decimal_holds_no_tag(entry::count_kind(entries, "mood"@));
    let u = upto_pulse(entries, quest);
    let a = assets::PAGE_PULSE@.take(421);
    let m = assets::MOODS_MARK@;
    text::lemma_apart_concat(u, a, m, 12);
    assert(u + (a + m) + from_moods(entries) =~= u + a + m + from_moods(entries));
    lemma_shown(u + a, m, n1, assets::PAGE_AFTER_MOODS@ + from_quests(entries), '<', 12);
}

/// The page up to what goes before the number of quests.
spec fn upto_quests(entries: Seq<EntryView>, quest: Seq<char>) -> Seq<char> {
    upto_pulse(entries, quest) + assets::PAGE_PULSE@ + number::decimal(
        entry::count_kind(entries, "mood"@),
    )
}

/// The page up to what goes before the number of notes.
spec fn upto_notes(entries: Seq<EntryView>, quest: Seq<char>) -> Seq<char> {
    upto_quests(entries, quest) + assets::PAGE_AFTER_MOODS@ + number::decimal(
        entry::count_kind(entries, "quest"@),
    )
}

proof fn lemma_number_parts(entries: Seq<EntryView>, quest: Seq<char>)
    ensures
        page(entries, quest) == upto_quests(entries, quest) + assets::PAGE_AFTER_MOODS@
            + from_quests(entries),
        page(entries, quest) == upto_notes(entries, quest) + assets::PAGE_AFTER_QUESTS@
            + from_notes(entries),
{
    lemma_page_parts(entries, quest);
    lemma_regroup(
        upto_pulse(entries, quest) + assets::PAGE_PULSE@,
        number::decimal(entry::count_kind(entries, "mood"@)),
        assets::PAGE_AFTER_MOODS@,
        from_quests(entries),
    );
    lemma_regroup(
        upto_quests(entries, quest) + assets::PAGE_AFTER_MOODS@,
        number::decimal(entry::count_kind(entries, "quest"@)),
        assets::PAGE_AFTER_QUESTS@,
        from_notes(entries),
    );
}

proof fn lemma_quests_apart(entries: Seq<EntryView>, quest: Seq<char>, mark: Seq<char>)
    requires
        mark[0] == '<',
        text::apart(upto_pulse(entries, quest), mark, 12),
        text::apart(assets::PAGE_PULSE@, mark, 12),
    ensures
        text::apart(upto_quests(entries, quest), mark, 12),
{
    let n1 = number::decimal(entry::count_kind(entries, "mood"@));
    lemma_decimal_holds_no_tag(entry::count_kind(entries, "mood"@));
    lemma_without(n1, mark, 12);
    let u = upto_pulse(entries, quest);
    text::lemma_apart_concat(u, assets::PAGE_PULSE@, mark, 12);
    text::lemma_apart_concat(u + assets::PAGE_PULSE@, n1, mark, 12);
}

proof fn lemma_quests_are_shown(entries: Seq<EntryView>, quest: Seq<char>)
    requires
        !quest.contains('<'),
    ensures
        shown(page(entries, quest), assets::QUESTS_MARK@, '<') == number::decimal(
            entry::count_kind(entries, "quest"@),
        ),
{
    assets::lemma_marks();
    assets::lemma_page_pulse();
    assets::lemma_page_after_moods();
    assets::lemma_page_after_quests();
    lemma_number_parts(entries, quest);
    lemma_parts_apart(entries, quest);
    let n2 = number::decimal(entry::count_kind(entries, "quest"@));
    lemma_decimal_holds_no_tag(entry::count_kind(entries, "quest"@));
    let q = assets::QUESTS_MARK@;
    let b = assets::PAGE_AFTER_MOODS@.take(53);
    let v = upto_quests(entries, quest);
    lemma_quests_apart(entries, quest, q);
    text::lemma_apart_concat(v, b, q, 12);
    assert(v + (b + q) + from_quests(entries) =~= v + b + q + from_quests(entries));
    lemma_shown(v + b, q, n2, assets::PAGE_AFTER_QUESTS@ + from_notes(entries), '<', 12);
}

proof fn lemma_notes_are_shown(entries: Seq<EntryView>, quest: Seq<char>)
    requires
        !quest.contains('<'),
    ensures
        shown(page(entries, quest), assets::NOTES_MARK@, '<') == number::decimal(
            entry::count_kind(entries, "note"@),
        ),
{
    assets::lemma_marks();
    assets::lemma_page_pulse();
    assets::lemma_page_after_moods();
    assets::lemma_page_after_quests();
    assets::lemma_page_foot();
    lemma_number_parts(entries, quest);
    lemma_parts_apart(entries, quest);
    let n2 = number::decimal(entry::count_kind(entries, "quest"@));
    let n3 = number::decimal(entry::count_kind(entries, "note"@));
    lemma_decimal_holds_no_tag(entry::count_kind(entries, "quest"@));
    lemma_decimal_holds_no_tag(entry::count_kind(entries, "note"@));
    let n = assets::NOTES_MARK@;
    let c = assets::PAGE_AFTER_QUESTS@.take(56);
    let v = upto_quests(entries, quest);
    let w = upto_notes(entries, quest);
    lemma_quests_apart(entries, quest, n);
    lemma_without(n2, n, 12);
    text::lemma_apart_concat(v, assets::PAGE_AFTER_MOODS@, n, 12);
    text::lemma_apart_concat(v + assets::PAGE_AFTER_MOODS@, n2, n, 12);
    text::lemma_apart_concat(w, c, n, 12);
    assert(w + (c + n) + from_notes(entries) =~= w + c + n + from_notes(entries));
    lemma_shown(w + c, n, n3, assets::PAGE_FOOT@, '<', 12);
}

/// The page of a moment shows, under the heading and in the form, the quest of
/// the day on which the moment lies, counted from the epoch.
pub proof fn law_page_shows_quest_of_the_day(entries: Seq<EntryView>, ts: u64)
    ensures
        !quest::quest_at(ts).contains('<'),
        !quest::quest_at(ts).contains('"'),
        shown(
            page(entries, quest::quest_at(ts)),
            "<p class=\"eyebrow\">Tiny quest</p>\n          <h2>"@,
            '<',
        ) == quest::quest((ts as int / 86_400) % 8),
        shown(
            page(entries, quest::quest_at(ts)),
            "<input type=\"hidden\" name=\"text\" value=\""@,
            '"',
        ) == quest::quest((ts as int / 86_400) % 8),
{
    let day = (ts as int / 86_400) % 8;
    let quest = quest::quest_at(ts);
    assert(quest == quest::quest(day));
    assert forall|k: int| 0 <= k < quest.len() implies quest[k] != '<' && quest[k] != '"' by {
        quest::law_quests_are_inert(day, k);
    }
    law_page_is_read(entries, quest);
}

/// The number that the state gives under a name.
pub open spec fn state_number(entries: Seq<EntryView>, name: Seq<char>) -> json::Value {
    json::object(state_text(entries)).unwrap()[name]
}

/// Whoever leaves a note finds `notes` in the state one higher, and `moods` and
/// `quests` as they were; and so with a mood and with a quest.
pub proof fn law_state_grows(entries: Seq<EntryView>, entry: EntryView)
    ensures
        state_number(entries, "moods"@) == json::Value::Number(number_of(entries, "mood"@)),
        state_number(entries, "notes"@) == json::Value::Number(number_of(entries, "note"@)),
        state_number(entries, "quests"@) == json::Value::Number(number_of(entries, "quest"@)),
        entry.kind == "mood"@ ==> {
            &&& state_number(entries.push(entry), "moods"@) == json::Value::Number(
                number_of(entries, "mood"@) + 1,
            )
            &&& state_number(entries.push(entry), "notes"@) == state_number(entries, "notes"@)
            &&& state_number(entries.push(entry), "quests"@) == state_number(entries, "quests"@)
        },
        entry.kind == "note"@ ==> {
            &&& state_number(entries.push(entry), "notes"@) == json::Value::Number(
                number_of(entries, "note"@) + 1,
            )
            &&& state_number(entries.push(entry), "moods"@) == state_number(entries, "moods"@)
            &&& state_number(entries.push(entry), "quests"@) == state_number(entries, "quests"@)
        },
        entry.kind == "quest"@ ==> {
            &&& state_number(entries.push(entry), "quests"@) == json::Value::Number(
                number_of(entries, "quest"@) + 1,
            )
            &&& state_number(entries.push(entry), "moods"@) == state_number(entries, "moods"@)
            &&& state_number(entries.push(entry), "notes"@) == state_number(entries, "notes"@)
        },
{
    let all = entries.push(entry);
    lemma_state_numbers(entries);
    lemma_state_numbers(all);
    law_entry_raises_its_number(entries, entry, "mood"@);
    law_entry_raises_its_number(entries, entry, "note"@);
    law_entry_raises_its_number(entries, entry, "quest"@);
    entry::lemma_kinds_differ();
}

proof fn lemma_state_numbers(entries: Seq<EntryView>)
    ensures
        state_number(entries, "moods"@) == json::Value::Number(number_of(entries, "mood"@)),
        state_number(entries, "notes"@) == json::Value::Number(number_of(entries, "note"@)),
        state_number(entries, "quests"@) == json::Value::Number(number_of(entries, "quest"@)),
{
    law_state_is_read(entries);
    lemma_state_names();
}

/// Whoever plants a mood finds the number inside the element `moods` of the page
/// one higher, and those of quests and notes as they were; and so with a quest
/// and with a note.
pub proof fn law_page_grows(entries: Seq<EntryView>, entry: EntryView, quest: Seq<char>)
    requires
        !quest.contains('<'),
        !quest.contains('"'),
    ensures
        ({
            let old = page(entries, quest);
            let new = page(entries.push(entry), quest);
            let moods = "<strong id=\"moods\">"@;
            let quests = "<strong id=\"quests\">"@;
            let notes = "<strong id=\"notes\">"@;
            &&& number::number(shown(new, moods, '<')) == number::number(shown(old, moods, '<'))
                + if entry.kind == "mood"@ {
                1nat
            } else {
                0nat
            }
            &&& number::number(shown(new, quests, '<')) == number::number(shown(old, quests, '<'))
                + if entry.kind == "quest"@ {
                1nat
            } else {
                0nat
            }
            &&& number::number(shown(new, notes, '<')) == number::number(shown(old, notes, '<'))
                + if entry.kind == "note"@ {
                1nat
            } else {
                0nat
            }
        }),
{
    law_page_is_read(entries, quest);
    law_page_is_read(entries.push(entry), quest);
    law_entry_raises_its_number(entries, entry, "mood"@);
    law_entry_raises_its_number(entries, entry, "note"@);
    law_entry_raises_its_number(entries, entry, "quest"@);
}

} // verus!
