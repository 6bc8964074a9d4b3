//! What the server does with a request: the reply it sends, the entry it stores.
//!
//! Storing an entry takes two steps. `route` decides what is to be added to
//! which file; once that has been tried, `entry_saved` is told how it went,
//! changes the state and gives the reply.

use vstd::prelude::*;
use vstd::hash_map::StringHashMap;
use crate::assets;
use crate::entry;
use crate::entry::{Entry, EntryView};
use crate::escape;
use crate::form;
use crate::form::{clean_field, parse_form};
use crate::garden;
use crate::http;
use crate::http::{
    css_response, error_response, html_response, js_response, json_response, not_found_response,
    response, server_error_response, Request, RequestView,
};
use crate::json;
use crate::page;
use crate::page::{render_page, state_json};
use crate::quest;
use crate::quest::{now, quest_for};
use crate::record;
use crate::store;
use crate::text;
use crate::text::{is_blank, same_text};

verus! {

/// The most entries that are kept in memory.
pub const MAX_ENTRIES: usize = 500;

/// The state of the server: the file that entries are stored in, and the
/// entries.
#[derive(Debug)]
pub struct AppState {
    pub data_path: String,
    pub entries: Vec<Entry>,
}

/// The model of the state.
#[verifier::ext_equal]
pub struct StateView {
    pub data_path: Seq<char>,
    pub entries: Seq<EntryView>,
}

impl View for AppState {
    type V = StateView;

    open spec fn view(&self) -> StateView {
        StateView { data_path: self.data_path@, entries: entry::views(self.entries@) }
    }
}

/// What is to be done about a request.
#[derive(Debug)]
pub enum Step {
    /// The response is to be sent.
    Reply(String),
    /// The line is to be added to the file at `path`, and `entry_saved` told
    /// how that went.
    Append { path: String, line: String, entry: Entry },
}

/// The model of what is to be done.
pub enum StepView {
    Reply(Seq<char>),
    Append { path: Seq<char>, line: Seq<char>, entry: EntryView },
}

impl View for Step {
    type V = StepView;

    open spec fn view(&self) -> StepView {
        match *self {
            Step::Reply(response) => StepView::Reply(response@),
            Step::Append { path, line, entry } => StepView::Append {
                path: path@,
                line: line@,
                entry: entry@,
            },
        }
    }
}

// ---------------------------------------------------------------------------
// Adding an entry
// ---------------------------------------------------------------------------

/// What is to be done to add an entry. Quests and notes without text are
/// refused.
pub open spec fn added(data_path: Seq<char>, entry: EntryView) -> StepView {
    if text::trimmed(entry.text).len() == 0 && entry.kind != "mood"@ {
        StepView::Reply(http::error_text("A little text makes this bloom."@))
    } else {
        StepView::Append { path: data_path, line: store::appended(entry), entry }
    }
}

/// Decides what is to be done to add an entry at the given moment.
pub fn add_entry_at(
    state: &AppState,
    kind: &str,
    mood: &str,
    color: &str,
    text: &str,
    ts: u64,
) -> (r: Step)
    ensures
        r@ == added(
            state@.data_path,
            (EntryView { kind: kind@, mood: mood@, color: color@, text: text@, ts }),
        ),
{
    if is_blank(text) && !same_text(kind, "mood") {
        return Step::Reply(error_response("A little text makes this bloom."));
    }
    let entry: Entry = Entry {
        kind: kind.to_string(),
        mood: mood.to_string(),
        color: color.to_string(),
        text: text.to_string(),
        ts,
    };
    let line: String = store::append_entry(&entry);
    Step::Append { path: state.data_path.clone(), line, entry }
}

/// Decides what is to be done to add an entry now, as the clock gives now.
pub fn add_entry(state: &AppState, kind: &str, mood: &str, color: &str, text: &str) -> (r: Step)
    ensures
        exists|ts: u64|
            quest::clock_gives(ts) && r@ == #[trigger] added(
                state@.data_path,
                (EntryView { kind: kind@, mood: mood@, color: color@, text: text@, ts }),
            ),
{
    add_entry_at(state, kind, mood, color, text, now())
}

/// The last `MAX_ENTRIES` of the entries, or all if there are fewer.
pub open spec fn latest(entries: Seq<EntryView>) -> Seq<EntryView> {
    if entries.len() > MAX_ENTRIES {
        entries.skip(entries.len() - MAX_ENTRIES)
    } else {
        entries
    }
}

/// The reply if an entry could not be stored.
pub open spec fn failure_text(reason: Seq<char>) -> Seq<char> {
    http::server_error_text("Could not save entry: "@ + reason)
}

/// Takes note of how storing an entry went. Once it is stored, it joins the
/// entries, of which the latest are kept, and the reply is the new state, just
/// as `/api/state` gives it from then on. If it could not be stored, the state
/// stays as it was, and the reply tells why.
pub fn entry_saved(state: &mut AppState, entry: Entry, saved: Result<(), String>) -> (r: String)
    ensures
        final(state)@.data_path == old(state)@.data_path,
        match saved {
            Ok(_) => {
                &&& final(state)@.entries == latest(old(state)@.entries.push(entry@))
                &&& r@ == http::json_text(page::state_text(final(state)@.entries))
                &&& forall|ts: u64|
                    r@ == #[trigger] answered("/api/state"@, final(state)@.entries, ts)
            },
            Err(reason) => {
                &&& final(state)@.entries == old(state)@.entries
                &&& r@ == http::server_error_text("Could not save entry: "@ + reason@)
                &&& r@ == failure_text(reason@)
            },
        },
{
    proof {
        lemma_state_path_differs();
    }
    match saved {
        Ok(_) => {
            let ghost before = entry::views(state.entries@);
            let ghost new = entry@;
            state.entries.push(entry);
            assert(entry::views(state.entries@) =~= before.push(new));
            if state.entries.len() > MAX_ENTRIES {
                let excess: usize = state.entries.len() - MAX_ENTRIES;
                let ghost all = state.entries@;
                let kept: Vec<Entry> = state.entries.split_off(excess);
                assert(entry::views(kept@) =~= entry::views(all).skip(excess as int));
                state.entries = kept;
            }
            json_response(state_json(state.entries.as_slice()).as_str())
        },
        Err(reason) => {
            let mut message: String = "Could not save entry: ".to_string();
            message.append(reason.as_str());
            server_error_response(message.as_str())
        },
    }
}

// ---------------------------------------------------------------------------
// Routing
// ---------------------------------------------------------------------------

/// What is to be done about a form submitted to the given path: moods, notes
/// and quests each have theirs.
pub open spec fn submitted(
    path: Seq<char>,
    fields: Map<Seq<char>, Seq<char>>,
    data_path: Seq<char>,
    ts: u64,
) -> StepView {
    if path == "/api/mood"@ {
        added(
            data_path,
            EntryView {
                kind: "mood"@,
                mood: form::cleaned(form::field_or(fields, "mood"@, "bright"@), 24),
                color: form::cleaned(form::field_or(fields, "color"@, "#ffcf5a"@), 16),
                text: form::cleaned(form::field_or(fields, "text"@, ""@), 140),
                ts,
            },
        )
    } else if path == "/api/note"@ {
        added(
            data_path,
            EntryView {
                kind: "note"@,
                mood: "kind"@,
                color: form::cleaned(form::field_or(fields, "color"@, "#7bdff2"@), 16),
                text: form::cleaned(form::field_or(fields, "text"@, ""@), 180),
                ts,
            },
        )
    } else if path == "/api/quest"@ {
        added(
            data_path,
            EntryView {
                kind: "quest"@,
                mood: "done"@,
                color: "#c3f584"@,
                text: form::cleaned(form::field_or(fields, "text"@, "tiny win"@), 120),
                ts,
            },
        )
    } else {
        StepView::Reply(http::not_found_text())
    }
}

/// The answer to a request for something to read.
pub open spec fn answered(path: Seq<char>, entries: Seq<EntryView>, ts: u64) -> Seq<char> {
    if path == "/"@ {
        http::html_text(page::page(entries, quest::quest_at(ts)))
    } else if path == "/health"@ {
        http::response_text("200 OK"@, "text/plain; charset=utf-8"@, "ok"@)
    } else if path == "/styles.css"@ {
        http::css_text(assets::STYLES@)
    } else if path == "/app.js"@ {
        http::js_text(assets::APP_JS@)
    } else if path == "/api/state"@ {
        http::json_text(page::state_text(entries))
    } else {
        http::not_found_text()
    }
}

/// What is to be done about a request.
pub open spec fn routed(request: RequestView, state: StateView, ts: u64) -> StepView {
    if request.method == "GET"@ {
        StepView::Reply(answered(request.path, state.entries, ts))
    } else if request.method == "POST"@ {
        submitted(request.path, form::form(request.body), state.data_path, ts)
    } else {
        StepView::Reply(http::not_found_text())
    }
}

/// The cleaned value of a field, or of `default` if the form does not have it.
fn field(params: &StringHashMap<String>, name: &str, default: &str, max_chars: usize) -> (r: String)
    ensures
        r@ == form::cleaned(
            form::field_or(form::fields_of(params@), name@, default@),
            max_chars as nat,
        ),
{
    match params.get(name) {
        Some(value) => clean_field(value.as_str(), max_chars),
        None => clean_field(default, max_chars),
    }
}

/// Decides what is to be done about a submitted form.
pub fn submit(
    path: &str,
    params: &StringHashMap<String>,
    state: &AppState,
    ts: u64,
) -> (r: Step)
    ensures
        r@ == submitted(path@, form::fields_of(params@), state@.data_path, ts),
{
    if same_text(path, "/api/mood") {
        let mood: String = field(params, "mood", "bright", 24);
        let color: String = field(params, "color", "#ffcf5a", 16);
        let text: String = field(params, "text", "", 140);
        add_entry_at(state, "mood", mood.as_str(), color.as_str(), text.as_str(), ts)
    } else if same_text(path, "/api/note") {
        let text: String = field(params, "text", "", 180);
        let color: String = field(params, "color", "#7bdff2", 16);
        add_entry_at(state, "note", "kind", color.as_str(), text.as_str(), ts)
    } else if same_text(path, "/api/quest") {
        let text: String = field(params, "text", "tiny win", 120);
        add_entry_at(state, "quest", "done", "#c3f584", text.as_str(), ts)
    } else {
        Step::Reply(not_found_response())
    }
}

/// Answers a request for something to read.
pub fn answer(path: &str, entries: &[Entry], ts: u64) -> (r: String)
    ensures
        r@ == answered(path@, entry::views(entries@), ts),
{
    if same_text(path, "/") {
        html_response(render_page(entries, quest_for(ts)).as_str())
    } else if same_text(path, "/health") {
        response("200 OK", "text/plain; charset=utf-8", "ok")
    } else if same_text(path, "/styles.css") {
        css_response(assets::STYLES)
    } else if same_text(path, "/app.js") {
        js_response(assets::APP_JS)
    } else if same_text(path, "/api/state") {
        json_response(state_json(entries).as_str())
    } else {
        not_found_response()
    }
}

/// Decides what is to be done about a request that came at the given moment.
pub fn route_at(request: &Request, state: &AppState, ts: u64) -> (r: Step)
    ensures
        r@ == routed(request@, state@, ts),
{
    let path: &str = request.path.as_str();
    if same_text(request.method.as_str(), "GET") {
        Step::Reply(answer(path, state.entries.as_slice(), ts))
    } else if same_text(request.method.as_str(), "POST") {
        submit(path, &parse_form(request.body.as_str()), state, ts)
    } else {
        Step::Reply(not_found_response())
    }
}

/// Decides what is to be done about a request that comes now, as the clock
/// gives now. So does the entry that is to be stored, if there is one, have a
/// timestamp that the clock gave.
pub fn route(request: &Request, state: &AppState) -> (r: Step)
    ensures
        exists|ts: u64| quest::clock_gives(ts) && r@ == #[trigger] routed(request@, state@, ts),
        r matches Step::Append { entry, .. } ==> quest::clock_gives(entry.ts),
{
    route_at(request, state, now())
}

/// Tells whether the state is needed for a request: the page and the state show
/// the entries, and what is stored joins them.
pub open spec fn needs_state(request: RequestView) -> bool {
    if request.method == "GET"@ {
        request.path == "/"@ || request.path == "/api/state"@
    } else {
        exists|state: StateView, ts: u64| #[trigger] routed(request, state, ts) is Append
    }
}

/// The reply to a request for which the state is not needed: whatever the state
/// and the moment, it is the same.
pub fn reply_without_state(request: &Request) -> (r: Option<String>)
    ensures
        r is None <==> needs_state(request@),
        r matches Some(reply) ==> forall|state: StateView, ts: u64| #[trigger]
            routed(request@, state, ts) == StepView::Reply(reply@),
{
    let path: &str = request.path.as_str();
    if same_text(request.method.as_str(), "GET") && (same_text(path, "/") || same_text(
        path,
        "/api/state",
    )) {
        return None;
    }
    let blank: AppState = AppState { data_path: String::new(), entries: Vec::new() };
    match route_at(request, &blank, 0) {
        Step::Reply(reply) => Some(reply),
        Step::Append { .. } => None,
    }
}

// ---------------------------------------------------------------------------
// Laws
// ---------------------------------------------------------------------------

/// Reading changes nothing: whatever is asked for with `GET` is answered at
/// once, and nothing is stored.
pub proof fn law_get_stores_nothing(request: RequestView, state: StateView, ts: u64)
    requires
        request.method == "GET"@,
    ensures
        routed(request, state, ts) is Reply,
{
}

/// What is neither read with `GET` nor submitted with `POST` is not there.
pub proof fn law_other_methods_find_nothing(request: RequestView, state: StateView, ts: u64)
    requires
        request.method != "GET"@,
        request.method != "POST"@,
    ensures
        routed(request, state, ts) == StepView::Reply(http::not_found_text()),
{
}

/// A mood is always taken, with or without a note.
pub proof fn law_moods_are_taken(request: RequestView, state: StateView, ts: u64)
    requires
        request.method == "POST"@,
        request.path == "/api/mood"@,
    ensures
        routed(request, state, ts) is Append,
        routed(request, state, ts)->entry.kind == "mood"@,
{
    lemma_methods_differ();
}

/// A note is refused exactly if nothing but white space is left of its text
/// once it is cleaned, and so is a quest: nothing is stored then. So they are
/// if a text is submitted that is nothing but white space.
pub proof fn law_blank_texts_are_refused(
    fields: Map<Seq<char>, Seq<char>>,
    data_path: Seq<char>,
    ts: u64,
)
    ensures
        submitted("/api/note"@, fields, data_path, ts) is Reply <==> text::trimmed(
            form::cleaned(form::field_or(fields, "text"@, ""@), 180),
        ).len() == 0,
        submitted("/api/quest"@, fields, data_path, ts) is Reply <==> text::trimmed(
            form::cleaned(form::field_or(fields, "text"@, "tiny win"@), 120),
        ).len() == 0,
        forall|path: Seq<char>|
            path == "/api/note"@ || path == "/api/quest"@ ==> {
                &&& #[trigger] submitted(path, fields, data_path, ts) matches StepView::Reply(reply)
                    ==> reply == http::error_text("A little text makes this bloom."@)
                &&& fields.contains_key("text"@) && text::trimmed(fields["text"@]).len() == 0
                    ==> submitted(path, fields, data_path, ts) is Reply
            },
{
    lemma_paths_differ();
    entry::lemma_kinds_differ();
    reveal(Seq::filter);
    let nothing = Seq::<char>::empty();
    if fields.contains_key("text"@) && text::trimmed(fields["text"@]).len() == 0 {
        assert(text::trimmed(fields["text"@]) =~= nothing);
        assert(form::allowed(nothing) =~= nothing);
        assert(form::cleaned(fields["text"@], 180) == nothing);
        assert(form::cleaned(fields["text"@], 120) == nothing);
        assert(text::trimmed(nothing) == nothing);
    }
}

proof fn lemma_paths_differ()
    ensures
        "/api/mood"@ != "/api/note"@,
        "/api/mood"@ != "/api/quest"@,
        "/api/note"@ != "/api/quest"@,
{
    reveal_strlit("/api/mood");
    reveal_strlit("/api/note");
    reveal_strlit("/api/quest");
    assert("/api/mood"@[5] == 'm');
    assert("/api/note"@[5] == 'n');
    assert("/api/quest"@[5] == 'q');
}

proof fn lemma_methods_differ()
    ensures
        "GET"@ != "POST"@,
{
    reveal_strlit("GET");
    reveal_strlit("POST");
    assert("GET"@.len() == 3 && "POST"@.len() == 4);
}

/// The names of the fields differ, and a field under one of them is read as it
/// was meant.
proof fn lemma_field_is_read(name: Seq<char>, encoded: Seq<char>, value: Seq<char>)
    requires
        name == "mood"@ || name == "color"@ || name == "text"@,
        form::submits(encoded, value),
    ensures
        form::form(form::pair(name, encoded)) == Map::empty().insert(name, value),
        "mood"@ != "color"@,
        "mood"@ != "text"@,
        "color"@ != "text"@,
{
    reveal_strlit("mood");
    reveal_strlit("color");
    reveal_strlit("text");
    assert("mood"@[0] == 'm' && "color"@[0] == 'c' && "text"@[0] == 't');
    assert forall|i: int| 0 <= i < name.len() implies name[i] != '&' && name[i] != '=' && name[i]
        != '+' && name[i] != '%' by {}
    form::law_plain_text_stays(name);
    form::law_submitted_value_is_read(name, name, encoded, value);
}

proof fn lemma_state_path_differs()
    ensures
        "/api/state"@ != "/"@,
        "/api/state"@ != "/health"@,
        "/api/state"@ != "/styles.css"@,
        "/api/state"@ != "/app.js"@,
{
    reveal_strlit("/api/state");
    reveal_strlit("/");
    reveal_strlit("/health");
    reveal_strlit("/styles.css");
    reveal_strlit("/app.js");
    assert("/api/state"@.len() == 10);
    assert("/"@.len() == 1 && "/health"@.len() == 7);
    assert("/styles.css"@.len() == 11 && "/app.js"@.len() == 7);
}

/// Whenever the state is asked for, the reply is that of the entries then kept.
pub proof fn law_state_is_answered(state: StateView, body: Seq<char>, ts: u64)
    ensures
        routed(
            RequestView { method: "GET"@, path: "/api/state"@, body },
            state,
            ts,
        ) == StepView::Reply(http::json_text(page::state_text(state.entries))),
{
    lemma_state_path_differs();
}

/// A note is taken as it was written, cleaned, unless nothing but white space is
/// left of it, however it is written in URL encoding. So is its color, if it is
/// sent along.
pub proof fn law_note_is_taken_as_written(
    state: StateView,
    encoded: Seq<char>,
    note: Seq<char>,
    encoded_color: Seq<char>,
    color: Seq<char>,
    ts: u64,
)
    requires
        form::submits(encoded, note),
        form::submits(encoded_color, color),
    ensures
        ({
            let alone = RequestView {
                method: "POST"@,
                path: "/api/note"@,
                body: form::pair("text"@, encoded),
            };
            let request = RequestView {
                method: "POST"@,
                path: "/api/note"@,
                body: form::pair("text"@, encoded) + "&"@ + form::pair("color"@, encoded_color),
            };
            let entry = EntryView {
                kind: "note"@,
                mood: "kind"@,
                color: form::cleaned(color, 16),
                text: form::cleaned(note, 180),
                ts,
            };
            &&& routed(request, state, ts) == added(state.data_path, entry)
            &&& routed(alone, state, ts) == added(
                state.data_path,
                EntryView { color: form::cleaned("#7bdff2"@, 16), ..entry },
            )
        }),
{
    lemma_methods_differ();
    lemma_paths_differ();
    lemma_field_is_read("text"@, encoded, note);
    lemma_field_is_read("color"@, encoded_color, color);
    let text = form::pair("text"@, encoded);
    form::law_later_fields_count(text, form::pair("color"@, encoded_color));
    let fields = form::form(text);
    assert(form::field_or(fields, "text"@, ""@) == note);
    assert(!fields.contains_key("color"@));
    let both = form::form(text + "&"@ + form::pair("color"@, encoded_color));
    assert(form::field_or(both, "text"@, ""@) == note);
    assert(form::field_or(both, "color"@, "#7bdff2"@) == color);
}

/// A quest is taken as it was written, cleaned, unless nothing but white space
/// is left of it, however it is written in URL encoding.
pub proof fn law_quest_is_taken_as_written(
    state: StateView,
    encoded: Seq<char>,
    quest: Seq<char>,
    ts: u64,
)
    requires
        form::submits(encoded, quest),
    ensures
        ({
            let request = RequestView {
                method: "POST"@,
                path: "/api/quest"@,
                body: form::pair("text"@, encoded),
            };
            let entry = EntryView {
                kind: "quest"@,
                mood: "done"@,
                color: "#c3f584"@,
                text: form::cleaned(quest, 120),
                ts,
            };
            routed(request, state, ts) == added(state.data_path, entry)
        }),
{
    lemma_methods_differ();
    lemma_paths_differ();
    lemma_field_is_read("text"@, encoded, quest);
    assert(form::field_or(form::form(form::pair("text"@, encoded)), "text"@, "tiny win"@) == quest);
}

/// A mood is taken as it was chosen, with its color and its note, all cleaned,
/// however they are written in URL encoding.
pub proof fn law_mood_is_taken_as_chosen(
    state: StateView,
    encoded_color: Seq<char>,
    color: Seq<char>,
    encoded_text: Seq<char>,
    text: Seq<char>,
    encoded_mood: Seq<char>,
    mood: Seq<char>,
    ts: u64,
)
    requires
        form::submits(encoded_color, color),
        form::submits(encoded_text, text),
        form::submits(encoded_mood, mood),
    ensures
        ({
            let request = RequestView {
                method: "POST"@,
                path: "/api/mood"@,
                body: form::pair("color"@, encoded_color) + "&"@ + form::pair(
                    "text"@,
                    encoded_text,
                ) + "&"@ + form::pair("mood"@, encoded_mood),
            };
            let entry = EntryView {
                kind: "mood"@,
                mood: form::cleaned(mood, 24),
                color: form::cleaned(color, 16),
                text: form::cleaned(text, 140),
                ts,
            };
            routed(request, state, ts) == StepView::Append {
                path: state.data_path,
                line: store::appended(entry),
                entry,
            }
        }),
{
    lemma_methods_differ();
    lemma_field_is_read("color"@, encoded_color, color);
    lemma_field_is_read("text"@, encoded_text, text);
    lemma_field_is_read("mood"@, encoded_mood, mood);
    let first = form::pair("color"@, encoded_color);
    let second = form::pair("text"@, encoded_text);
    let third = form::pair("mood"@, encoded_mood);
    form::law_later_fields_count(first, second);
    form::law_later_fields_count(first + "&"@ + second, third);
    let fields = form::form(first + "&"@ + second + "&"@ + third);
    assert(form::field_or(fields, "mood"@, "bright"@) == mood);
    assert(form::field_or(fields, "color"@, "#ffcf5a"@) == color);
    assert(form::field_or(fields, "text"@, ""@) == text);
}

/// Whatever is stored is clean: its line is that of its entry, it goes to the
/// server's file, its timestamp is that of the request, its texts are short and
/// hold no carriage return, so that it is read back exactly.
pub proof fn law_stored_entries_are_clean(request: RequestView, state: StateView, ts: u64)
    requires
        routed(request, state, ts) is Append,
    ensures
        ({
            let step = routed(request, state, ts);
            let entry = step->entry;
            &&& step->path == state.data_path
            &&& step->line == store::appended(entry)
            &&& entry.ts == ts
            &&& entry.kind == "mood"@ || entry.kind == "note"@ || entry.kind == "quest"@
            &&& entry.mood.len() <= 24
            &&& entry.color.len() <= 16
            &&& entry.text.len() <= 180
            &&& record::free_of_cr(entry)
            &&& record::decoded(record::encoded(entry)) == Some(entry)
        }),
{
    let entry = routed(request, state, ts)->entry;
    reveal_strlit("mood");
    reveal_strlit("note");
    reveal_strlit("quest");
    reveal_strlit("kind");
    reveal_strlit("done");
    reveal_strlit("#c3f584");
    let fields = form::form(request.body);
    form::law_cleaned(form::field_or(fields, "mood"@, "bright"@), 24);
    form::law_cleaned(form::field_or(fields, "color"@, "#ffcf5a"@), 16);
    form::law_cleaned(form::field_or(fields, "color"@, "#7bdff2"@), 16);
    form::law_cleaned(form::field_or(fields, "text"@, ""@), 140);
    form::law_cleaned(form::field_or(fields, "text"@, ""@), 180);
    form::law_cleaned(form::field_or(fields, "text"@, "tiny win"@), 120);
    assert(record::free_of_cr(entry)) by {
        assert(!entry.kind.contains('\r'));
        assert(!entry.mood.contains('\r'));
        assert(!entry.color.contains('\r'));
        assert(!entry.text.contains('\r'));
    }
    record::law_clean_entry_read_back(entry);
}

/// Once an entry has been stored, it is the last one, and at most
/// `MAX_ENTRIES` entries are kept.
pub proof fn law_entries_are_bounded(entries: Seq<EntryView>, entry: EntryView)
    ensures
        latest(entries.push(entry)).len() <= MAX_ENTRIES,
        latest(entries.push(entry)).last() == entry,
        entries.len() < MAX_ENTRIES ==> latest(entries.push(entry)) == entries.push(entry),
{
}

/// Tells whether the entries in memory are the last ones of the file.
pub open spec fn in_step(entries: Seq<EntryView>, contents: Seq<char>) -> bool {
    store::is_complete(contents) && entries.is_suffix_of(store::loaded(contents))
}

/// Memory and file stay in step: when the server starts, the entries are those
/// of the file, and once a request's entry has been added to both, the entries
/// in memory are again the last ones that a restart would load.
pub proof fn law_memory_follows_file(
    request: RequestView,
    state: StateView,
    ts: u64,
    contents: Seq<char>,
)
    ensures
        store::is_complete(contents) ==> in_step(store::loaded(contents), contents),
        in_step(state.entries, contents) && routed(request, state, ts) is Append ==> in_step(
            latest(state.entries.push(routed(request, state, ts)->entry)),
            contents + routed(request, state, ts)->line,
        ),
{
    let all = store::loaded(contents);
    assert(all.skip(0) =~= all);
    if in_step(state.entries, contents) && routed(request, state, ts) is Append {
        let entry = routed(request, state, ts)->entry;
        law_stored_entries_are_clean(request, state, ts);
        record::law_entry_read_back(entry);
        store::law_append_then_load(contents, entry);
        let new = all.push(entry);
        let kept = latest(state.entries.push(entry));
        assert(state.entries =~= all.skip(all.len() - state.entries.len()));
        assert(kept =~= new.skip(new.len() - kept.len()));
    }
}

/// A note that is left is the one the next visitor finds, on the page and in
/// the state.
pub proof fn law_note_reaches_next_visitor(entries: Seq<EntryView>, note: EntryView)
    requires
        entry::is_written_note(note),
    ensures
        page::state_note(latest(entries.push(note))) == note.text,
        page::page_note(latest(entries.push(note))) == escape::html_escaped(note.text),
{
    assert(latest(entries.push(note)).last() == note);
}

/// A mood that is planted is the first petal of the garden.
pub proof fn law_mood_grows_garden(entries: Seq<EntryView>, mood: EntryView)
    requires
        mood.kind == "mood"@,
    ensures
        ({
            let shown = garden::recent_moods(
                latest(entries.push(mood)),
                garden::MAX_PETALS as nat,
            );
            &&& shown.len() > 0
            &&& shown[0] == mood
            &&& garden::garden(latest(entries.push(mood))) == garden::petals(shown)
        }),
{
    let kept = latest(entries.push(mood));
    assert(kept.last() == mood);
    assert(kept =~= kept.drop_last().push(mood));
    garden::law_new_mood_comes_first(kept.drop_last(), mood, garden::MAX_PETALS as nat);
}

/// While the memory is not full, an entry raises the count of its kind by one
/// and no other.
pub proof fn law_counts_grow(entries: Seq<EntryView>, entry: EntryView, kind: Seq<char>)
    requires
        entries.len() < MAX_ENTRIES,
    ensures
        entry::count_kind(latest(entries.push(entry)), kind) == entry::count_kind(entries, kind)
            + if entry.kind == kind {
            1nat
        } else {
            0nat
        },
{
    assert(entries.push(entry).drop_last() =~= entries);
}

/// The request that the health check sends is read as one for `/health`.
pub proof fn law_health_request_is_read()
    ensures
        text::begins_with(http::HEALTH_REQUEST@, "GET /health HTTP/1.1\r\n"@),
        http::head_of("GET /health HTTP/1.1\r\n"@).method == "GET"@,
        http::head_of("GET /health HTTP/1.1\r\n"@).path == "/health"@,
{
    reveal_strlit("GET /health HTTP/1.1\r\nHost: localhost\r\nConnection: close\r\n\r\n");
    reveal_strlit("GET /health HTTP/1.1\r\n");
    reveal_strlit("GET");
    reveal_strlit("/health");
    let line = "GET /health HTTP/1.1\r\n"@;
    assert(http::HEALTH_REQUEST@.take(22) =~= line);
    reveal_with_fuel(text::find_space, 8);
    reveal_with_fuel(text::find, 8);
    assert(text::first_word(line) =~= "GET"@);
    let rest = text::after_first_word(line);
    let target = rest.drop_first();
    assert(rest[0] == ' ');
    assert(text::trimmed_start(rest) == text::trimmed_start(target));
    assert(text::trimmed_start(target) == target);
    assert(text::find_space(target) == 7);
    assert(text::first_word(rest) =~= "/health"@);
    assert(text::before("/health"@, '?') =~= "/health"@);
}

/// The health check is answered: what `/health` replies is what the health
/// check looks for.
pub proof fn law_health_is_answered(state: StateView, body: Seq<char>, ts: u64)
    ensures
        ({
            let request = RequestView { method: "GET"@, path: "/health"@, body };
            let step = routed(request, state, ts);
            step is Reply && text::begins_with(step->Reply_0, "HTTP/1.1 200 OK"@)
        }),
{
    reveal_strlit("/health");
    reveal_strlit("/");
    reveal_strlit("HTTP/1.1 ");
    reveal_strlit("200 OK");
    reveal_strlit("HTTP/1.1 200 OK");
    assert("/health"@.len() == 7 && "/"@.len() == 1);
    let reply = answered("/health"@, state.entries, ts);
    assert(reply == http::response_text("200 OK"@, "text/plain; charset=utf-8"@, "ok"@));
    assert(reply.take(15) =~= "HTTP/1.1 "@ + "200 OK"@);
    assert("HTTP/1.1 "@ + "200 OK"@ =~= "HTTP/1.1 200 OK"@);
}

// ---------------------------------------------------------------------------
// What visitors get to read
// ---------------------------------------------------------------------------

/// Whoever asks for the root gets the page of the entries with the quest of the
/// day.
pub proof fn law_page_is_answered(entries: Seq<EntryView>, ts: u64)
    ensures
        http::message_start(answered("/"@, entries, ts)) == "HTTP/1.1 200 OK"@,
        http::message_header(answered("/"@, entries, ts), "Content-Type"@)
            == "text/html; charset=utf-8"@,
        http::message_body(answered("/"@, entries, ts)) == page::page(entries, quest::quest_at(ts)),
{
    http::law_contents_are_read(page::page(entries, quest::quest_at(ts)));
}

/// The health check is answered with the word `ok`, whatever the entries are.
pub proof fn law_health_says_ok(entries: Seq<EntryView>, ts: u64)
    ensures
        http::message_start(answered("/health"@, entries, ts)) == "HTTP/1.1 200 OK"@,
        http::message_body(answered("/health"@, entries, ts)) == "ok"@,
{
    lemma_other_paths_differ();
    lemma_health_is_read();
}

/// The style sheet is found under its path, whatever the entries are.
pub proof fn law_styles_are_answered(entries: Seq<EntryView>, ts: u64)
    ensures
        http::message_start(answered("/styles.css"@, entries, ts)) == "HTTP/1.1 200 OK"@,
        http::message_header(answered("/styles.css"@, entries, ts), "Content-Type"@)
            == "text/css; charset=utf-8"@,
        http::message_body(answered("/styles.css"@, entries, ts)) == assets::STYLES@,
{
    lemma_other_paths_differ();
    http::law_contents_are_read(assets::STYLES@);
}

/// The script is found under its path, whatever the entries are.
pub proof fn law_script_is_answered(entries: Seq<EntryView>, ts: u64)
    ensures
        http::message_start(answered("/app.js"@, entries, ts)) == "HTTP/1.1 200 OK"@,
        http::message_header(answered("/app.js"@, entries, ts), "Content-Type"@)
            == "text/javascript; charset=utf-8"@,
        http::message_body(answered("/app.js"@, entries, ts)) == assets::APP_JS@,
{
    lemma_other_paths_differ();
    http::law_contents_are_read(assets::APP_JS@);
}

/// The state of the entries is found under its path.
pub proof fn law_state_is_found(entries: Seq<EntryView>, ts: u64)
    ensures
        http::message_start(answered("/api/state"@, entries, ts)) == "HTTP/1.1 200 OK"@,
        http::message_header(answered("/api/state"@, entries, ts), "Content-Type"@)
            == "application/json; charset=utf-8"@,
        http::message_body(answered("/api/state"@, entries, ts)) == page::state_text(entries),
{
    lemma_state_path_differs();
    http::law_contents_are_read(page::state_text(entries));
}

/// Nothing else is found.
pub proof fn law_nothing_else_is_found(path: Seq<char>, entries: Seq<EntryView>, ts: u64)
    requires
        path != "/"@,
        path != "/health"@,
        path != "/styles.css"@,
        path != "/app.js"@,
        path != "/api/state"@,
    ensures
        http::message_start(answered(path, entries, ts)) == "HTTP/1.1 404 Not Found"@,
        http::message_body(answered(path, entries, ts)) == "Not found"@,
{
    http::law_errors_are_read(Seq::empty());
}

proof fn lemma_other_paths_differ()
    ensures
        "/health"@ != "/"@,
        "/styles.css"@ != "/"@,
        "/styles.css"@ != "/health"@,
        "/app.js"@ != "/"@,
        "/app.js"@ != "/health"@,
        "/app.js"@ != "/styles.css"@,
{
    reveal_strlit("/");
    reveal_strlit("/health");
    reveal_strlit("/styles.css");
    reveal_strlit("/app.js");
    assert("/"@.len() == 1);
    assert("/health"@[1] == 'h');
    assert("/styles.css"@[1] == 's');
    assert("/app.js"@[1] == 'a');
}

proof fn lemma_health_is_read()
    ensures
        ({
            let reply = http::response_text("200 OK"@, "text/plain; charset=utf-8"@, "ok"@);
            &&& http::message_start(reply) == "HTTP/1.1 200 OK"@
            &&& http::message_body(reply) == "ok"@
        }),
{
    reveal_strlit("200 OK");
    reveal_strlit("HTTP/1.1 ");
    reveal_strlit("HTTP/1.1 200 OK");
    reveal_strlit("text/plain; charset=utf-8");
    assert(!"200 OK"@.contains('\r'));
    assert(!"text/plain; charset=utf-8"@.contains('\r'));
    assert("HTTP/1.1 "@ + "200 OK"@ =~= "HTTP/1.1 200 OK"@);
    http::law_response_is_read("200 OK"@, "text/plain; charset=utf-8"@, "ok"@, 0);
}

/// The moment of a request is the one that counts: an entry that is to be stored
/// carries it, and its line in the file gives it back.
pub proof fn law_moment_is_stored(request: RequestView, state: StateView, ts: u64)
    requires
        routed(request, state, ts) is Append,
    ensures
        routed(request, state, ts)->entry.ts == ts,
        record::decoded(routed(request, state, ts)->line.drop_last()) == Some(
            routed(request, state, ts)->entry,
        ),
{
    law_stored_entries_are_clean(request, state, ts);
    let entry = routed(request, state, ts)->entry;
    store::law_appended_is_one_line(entry);
    record::law_clean_entry_read_back(entry);
    record::law_entry_read_back(entry);
}

/// Of the entries, the last 500 are kept, in order, or all if there are fewer.
pub proof fn law_latest_are_the_last(older: Seq<EntryView>, newer: Seq<EntryView>)
    requires
        newer.len() == 500,
    ensures
        latest(older + newer) == newer,
        older.len() <= 500 ==> latest(older) == older,
{
    assert((older + newer).skip(older.len() as int) =~= newer);
    if older.len() == 0 {
        assert(older + newer =~= newer);
    }
}

/// What is submitted is stored as an entry, in the file of the server, unless it
/// is a note or a quest that holds nothing but white space. The line that is
/// stored stands for the entry, its texts without carriage returns.
pub proof fn law_entry_is_added(data_path: Seq<char>, entry: EntryView)
    ensures
        added(data_path, entry) is Reply <==> text::all_space(entry.text) && entry.kind != "mood"@,
        added(data_path, entry) is Append ==> {
            let step = added(data_path, entry);
            &&& step->path == data_path
            &&& step->entry == entry
            &&& step->line.len() > 0
            &&& step->line.last() == '\n'
            &&& record::decoded(step->line.drop_last()) == Some(record::stored(entry))
        },
{
    text::law_blank(entry.text);
    store::law_appended_is_one_line(entry);
}

/// If an entry could not be stored, the reply tells so, and why.
pub proof fn law_failure_is_told(reason: Seq<char>)
    ensures
        http::message_start(failure_text(reason)) == "HTTP/1.1 500 Internal Server Error"@,
        json::object(http::message_body(failure_text(reason))) == Some(
            Map::<Seq<char>, json::Value>::empty().insert(
                "error"@,
                json::Value::Text(json::kept("Could not save entry: "@ + reason)),
            ),
        ),
{
    http::law_errors_are_read("Could not save entry: "@ + reason);
}

/// Nothing can be submitted but moods, notes and quests.
pub proof fn law_other_forms_find_nothing(request: RequestView, state: StateView, ts: u64)
    requires
        request.method == "POST"@,
        request.path != "/api/mood"@,
        request.path != "/api/note"@,
        request.path != "/api/quest"@,
    ensures
        routed(request, state, ts) == StepView::Reply(http::not_found_text()),
{
    lemma_methods_differ();
}

} // verus!
