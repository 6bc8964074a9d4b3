use spark_garden::assets::{APP_JS, STYLES};
use spark_garden::entry::Entry;
use spark_garden::http::{
    css_response, error_response, finish_request, health_target, html_response, is_healthy,
    js_response, json_response, not_found_response, read_header, read_request_line, response,
    server_error_response, Request, RequestHead, HEALTH_REQUEST, MAX_BODY,
};
use spark_garden::page::{render_page, state_json};
use spark_garden::quest::quest_for;
use spark_garden::server::{
    add_entry, add_entry_at, entry_saved, reply_without_state, route, route_at, AppState, Step,
};
use spark_garden::store::load_entries;

fn state() -> AppState {
    AppState { data_path: "data/garden.tsv".to_string(), entries: Vec::new() }
}

fn request(method: &str, path: &str, body: &str) -> Request {
    Request { method: method.to_string(), path: path.to_string(), body: body.to_string() }
}

fn reply(step: Step) -> String {
    match step {
        Step::Reply(response) => response,
        Step::Append { .. } => panic!("nothing should be stored"),
    }
}

fn append(step: Step) -> (String, String, Entry) {
    match step {
        Step::Reply(response) => panic!("an entry should be stored: {response}"),
        Step::Append { path, line, entry } => (path, line, entry),
    }
}

fn head(lines: &[&str]) -> RequestHead {
    let mut head = read_request_line(lines[0]).expect("a request");
    for line in &lines[1..] {
        if read_header(&mut head, line) {
            break;
        }
    }
    head
}

#[test]
fn requests_are_read() {
    let head = head(&[
        "POST /api/note?x=1 HTTP/1.1\r\n",
        "Host: localhost\r\n",
        "Content-Length: 7\r\n",
        "\r\n",
        "Content-Length: 9\r\n",
    ]);
    assert_eq!(head.content_length, 7);
    let request = finish_request(head, b"text=hi");
    assert_eq!(request.method, "POST");
    assert_eq!(request.path, "/api/note");
    assert_eq!(request.body, "text=hi");
}

#[test]
fn odd_request_lines_are_read() {
    assert!(read_request_line("").is_none());
    let blank = read_request_line("\r\n").expect("a request");
    assert_eq!((blank.method.as_str(), blank.path.as_str()), ("", "/"));
    let short = read_request_line("GET\r\n").expect("a request");
    assert_eq!((short.method.as_str(), short.path.as_str()), ("GET", "/"));
    let query = read_request_line("GET ?a HTTP/1.1").expect("a request");
    assert_eq!(query.path, "");
    assert_eq!(query.content_length, 0);
}

#[test]
fn body_lengths_are_read() {
    let length = |value: &str| head(&["GET / HTTP/1.1\r\n", value]).content_length;
    assert_eq!(length("content-length: 12 \r\n"), 12);
    assert_eq!(length("Content-Length:+3\r\n"), 3);
    assert_eq!(length("Content-Length: many\r\n"), 0);
    assert_eq!(length("Content-Length: 99999999999999999999999\r\n"), 0);
    assert_eq!(length("Content-Length: 16384\r\n"), MAX_BODY);
    assert_eq!(length("Content-Length: 16385\r\n"), MAX_BODY);
    assert_eq!(length("CONTENT-LENGTH: 12\r\n"), 0);
    let last = head(&["GET / HTTP/1.1\r\n", "Content-Length: 5\r\n", "content-length: 6\r\n"]);
    assert_eq!(last.content_length, 6);
}

#[test]
fn bodies_that_are_not_text_are_replaced() {
    let request = finish_request(head(&["POST / HTTP/1.1"]), &[104, 105, 255]);
    assert_eq!(request.body, "hi\u{fffd}");
}

#[test]
fn responses_carry_their_length_in_bytes() {
    assert_eq!(
        response("200 OK", "text/plain; charset=utf-8", "h\u{e9}"),
        "HTTP/1.1 200 OK\r\nContent-Type: text/plain; charset=utf-8\r\nContent-Length: 3\r\nConnection: close\r\n\r\nh\u{e9}"
    );
    assert_eq!(html_response("x"), response("200 OK", "text/html; charset=utf-8", "x"));
    assert_eq!(css_response("x"), response("200 OK", "text/css; charset=utf-8", "x"));
    assert_eq!(js_response("x"), response("200 OK", "text/javascript; charset=utf-8", "x"));
    assert_eq!(json_response("x"), response("200 OK", "application/json; charset=utf-8", "x"));
    assert_eq!(
        not_found_response(),
        response("404 Not Found", "text/plain; charset=utf-8", "Not found")
    );
}

#[test]
fn errors_are_json() {
    assert_eq!(
        error_response("a \"b\""),
        response(
            "422 Unprocessable Entity",
            "application/json; charset=utf-8",
            "{\"error\":\"a \\\"b\\\"\"}"
        )
    );
    assert_eq!(
        server_error_response("disk\nfull"),
        response(
            "500 Internal Server Error",
            "application/json; charset=utf-8",
            "{\"error\":\"disk\\nfull\"}"
        )
    );
}

#[test]
fn the_health_check_is_answered() {
    let first_line = HEALTH_REQUEST.lines().next().expect("a line");
    let head = read_request_line(first_line).expect("a request");
    let request = finish_request(head, &[]);
    let answer = reply(route(&request, &state()));
    assert!(is_healthy(&answer));
    assert_eq!(answer, response("200 OK", "text/plain; charset=utf-8", "ok"));
    assert!(!is_healthy(&not_found_response()));
}

#[test]
fn the_health_check_connects_locally() {
    assert_eq!(health_target("0.0.0.0:8080"), "127.0.0.1:8080");
    assert_eq!(health_target("10.0.0.1:8080"), "10.0.0.1:8080");
    assert_eq!(health_target("0.0.0.0"), "0.0.0.0");
}

#[test]
fn reading_is_answered() {
    let state = state();
    let get = |path: &str| reply(route_at(&request("GET", path, ""), &state, 86_400));
    assert_eq!(get("/"), html_response(&render_page(&[], quest_for(86_400))));
    assert_eq!(get("/styles.css"), css_response(STYLES));
    assert_eq!(get("/app.js"), js_response(APP_JS));
    assert_eq!(get("/api/state"), json_response(&state_json(&[])));
    assert_eq!(get("/nowhere"), not_found_response());
    assert_eq!(get("/api/mood"), not_found_response());
}

#[test]
fn other_methods_find_nothing() {
    assert_eq!(reply(route(&request("PUT", "/", ""), &state())), not_found_response());
    assert_eq!(reply(route(&request("get", "/", ""), &state())), not_found_response());
    assert_eq!(reply(route(&request("POST", "/", ""), &state())), not_found_response());
}

#[test]
fn a_mood_is_planted() {
    let body = "mood=+soft%0D&color=%23f7a8b8&text=a%09b%0Ac";
    let (path, line, entry) = append(route_at(&request("POST", "/api/mood", body), &state(), 42));
    assert_eq!(path, "data/garden.tsv");
    assert_eq!(line, "42\tmood\tsoft\t#f7a8b8\tab\\nc\n");
    assert_eq!(
        (entry.kind.as_str(), entry.mood.as_str(), entry.color.as_str(), entry.text.as_str(), entry.ts),
        ("mood", "soft", "#f7a8b8", "ab\nc", 42)
    );
}

#[test]
fn a_mood_has_defaults() {
    let (_, line, _) = append(route_at(&request("POST", "/api/mood", ""), &state(), 1));
    assert_eq!(line, "1\tmood\tbright\t#ffcf5a\t\n");
}

#[test]
fn notes_and_quests_are_taken() {
    let (_, note, _) = append(route_at(&request("POST", "/api/note", "text=hello"), &state(), 1));
    assert_eq!(note, "1\tnote\tkind\t#7bdff2\thello\n");
    let (_, quest, _) = append(route_at(&request("POST", "/api/quest", ""), &state(), 2));
    assert_eq!(quest, "2\tquest\tdone\t#c3f584\ttiny win\n");
}

#[test]
fn long_fields_are_cut() {
    let body = format!("mood={0}&color={0}&text={0}", "x".repeat(400));
    let (_, _, mood) = append(route_at(&request("POST", "/api/mood", &body), &state(), 1));
    assert_eq!((mood.mood.len(), mood.color.len(), mood.text.len()), (24, 16, 140));
    let (_, _, note) = append(route_at(&request("POST", "/api/note", &body), &state(), 1));
    assert_eq!((note.color.len(), note.text.len()), (16, 180));
    let (_, _, quest) = append(route_at(&request("POST", "/api/quest", &body), &state(), 1));
    assert_eq!(quest.text.len(), 120);
}

#[test]
fn blank_notes_and_quests_are_refused() {
    let refusal = error_response("A little text makes this bloom.");
    for (path, body) in [
        ("/api/note", ""),
        ("/api/note", "text=+%09+"),
        ("/api/quest", "text="),
        ("/api/quest", "text=%01"),
    ] {
        assert_eq!(reply(route(&request("POST", path, body), &state())), refusal);
    }
    assert_eq!(reply(add_entry(&state(), "note", "kind", "#fff", "  ")), refusal);
    append(add_entry(&state(), "mood", "soft", "#fff", "  "));
}

#[test]
fn stored_entries_join_the_state() {
    let mut state = state();
    let (_, _, entry) = append(add_entry_at(&state, "note", "kind", "#7bdff2", "hi", 3));
    let answer = entry_saved(&mut state, entry, Ok(()));
    assert_eq!(state.entries.len(), 1);
    assert_eq!(state.entries[0].text, "hi");
    assert_eq!(answer, json_response(&state_json(&state.entries)));
}

#[test]
fn failures_leave_the_state_alone() {
    let mut state = state();
    let (_, _, entry) = append(add_entry_at(&state, "note", "kind", "#7bdff2", "hi", 3));
    let answer = entry_saved(&mut state, entry, Err("disk full".to_string()));
    assert!(state.entries.is_empty());
    assert_eq!(state.data_path, "data/garden.tsv");
    assert_eq!(answer, server_error_response("Could not save entry: disk full"));
}

#[test]
fn the_latest_entries_are_kept() {
    let mut state = state();
    let mut contents = String::new();
    for ts in 0..520 {
        let (_, line, entry) = append(add_entry_at(&state, "mood", "soft", "#fff", "", ts));
        contents.push_str(&line);
        entry_saved(&mut state, entry, Ok(()));
        assert_eq!(state.entries.len() as u64, (ts + 1).min(500));
    }
    assert_eq!(state.entries[0].ts, 20);
    assert_eq!(state.entries[499].ts, 519);
    let loaded = load_entries(Some(&contents));
    assert_eq!(loaded.len(), 520);
    for (a, b) in loaded[20..].iter().zip(&state.entries) {
        assert_eq!(a.ts, b.ts);
    }
}

#[test]
fn a_long_file_is_cut_with_the_next_entry() {
    let contents: String = (0..700).map(|ts| format!("{ts}\tmood\tsoft\t#fff\t\n")).collect();
    let mut state = AppState { data_path: String::new(), entries: load_entries(Some(&contents)) };
    assert_eq!(state.entries.len(), 700);
    let (_, _, entry) = append(add_entry_at(&state, "mood", "soft", "#fff", "", 700));
    entry_saved(&mut state, entry, Ok(()));
    assert_eq!(state.entries.len(), 500);
    assert_eq!(state.entries[0].ts, 201);
}

#[test]
fn the_next_visitor_finds_the_note() {
    let mut state = state();
    let (_, _, entry) = append(route(&request("POST", "/api/note", "text=be+kind"), &state));
    entry_saved(&mut state, entry, Ok(()));
    let page = reply(route(&request("GET", "/", ""), &state));
    assert!(page.contains("<blockquote id=\"note\">\"be kind\"</blockquote>"));
}

#[test]
fn forms_are_taken_as_they_were_filled_in() {
    let note = "text=Don%27t+worry%2C+na%c3%afve+100%25&color=%237bdff2";
    let (_, line, _) = append(route_at(&request("POST", "/api/note", note), &state(), 1));
    assert_eq!(line, "1\tnote\tkind\t#7bdff2\tDon't worry, na\u{ef}ve 100%\n");
    let quest = "text=Drink+water%21";
    let (_, line, _) = append(route_at(&request("POST", "/api/quest", quest), &state(), 2));
    assert_eq!(line, "2\tquest\tdone\t#c3f584\tDrink water!\n");
    let mood = "color=%23b8b5ff&text=rain+%26+tea&mood=quiet";
    let (_, line, _) = append(route_at(&request("POST", "/api/mood", mood), &state(), 3));
    assert_eq!(line, "3\tmood\tquiet\t#b8b5ff\train & tea\n");
}

#[test]
fn the_reply_to_an_entry_is_the_next_state() {
    let mut state = state();
    for body in ["mood=soft", "mood=wild&text=hi"] {
        let (_, _, entry) = append(route(&request("POST", "/api/mood", body), &state));
        let answer = entry_saved(&mut state, entry, Ok(()));
        assert_eq!(answer, reply(route(&request("GET", "/api/state", ""), &state)));
    }
    assert_eq!(state.entries.len(), 2);
}

#[test]
fn bodies_have_no_more_characters_than_bytes() {
    for bytes in [vec![255; 40], vec![0xe2, 0x82, 0x41, 0xf0, 0x90, 0x80], vec![0xc3, 0xa9]] {
        let request = finish_request(head(&["POST / HTTP/1.1"]), &bytes);
        assert!(request.body.chars().count() <= bytes.len());
    }
    let request = finish_request(head(&["POST / HTTP/1.1"]), &[255, 255]);
    assert_eq!(request.body, "\u{fffd}\u{fffd}");
}

#[test]
fn some_replies_need_no_state() {
    let now = |method: &str, path: &str, body: &str| reply_without_state(&request(method, path, body));
    assert_eq!(now("GET", "/health", ""), Some(response("200 OK", "text/plain; charset=utf-8", "ok")));
    assert_eq!(now("GET", "/styles.css", ""), Some(css_response(STYLES)));
    assert_eq!(now("GET", "/app.js", ""), Some(js_response(APP_JS)));
    assert_eq!(now("GET", "/nowhere", ""), Some(not_found_response()));
    assert_eq!(now("PUT", "/", ""), Some(not_found_response()));
    assert_eq!(now("POST", "/", ""), Some(not_found_response()));
    let refusal = error_response("A little text makes this bloom.");
    assert_eq!(now("POST", "/api/note", "text=+"), Some(refusal));
    assert_eq!(now("GET", "/", ""), None);
    assert_eq!(now("GET", "/api/state", ""), None);
    assert_eq!(now("POST", "/api/note", "text=hi"), None);
    assert_eq!(now("POST", "/api/mood", ""), None);
}
