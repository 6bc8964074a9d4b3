use spark_garden::entry::{latest_note, stats, Entry, Stats};
use spark_garden::escape::{escape_html, escape_json, escape_tsv, unescape_tsv};
use spark_garden::record::{decode_all, decode_entry, encode_entry, escape_field, unescape_field};
use spark_garden::store::{append_entry, load_entries};

fn entry(ts: u64, kind: &str, mood: &str, color: &str, text: &str) -> Entry {
    Entry {
        kind: kind.to_string(),
        mood: mood.to_string(),
        color: color.to_string(),
        text: text.to_string(),
        ts,
    }
}

fn fields(e: &Entry) -> (u64, &str, &str, &str, &str) {
    (e.ts, e.kind.as_str(), e.mood.as_str(), e.color.as_str(), e.text.as_str())
}

const TEXTS: &[&str] = &[
    "",
    "plain",
    "a\tb\nc\rd\\e",
    "\\t\\n\\\\",
    "<b class=\"x\">&amp; &lt;</b>",
    "\u{0}\u{7f}\u{9f}\u{a0}",
    "na\u{ef}ve \u{1f331}",
    "\\",
    "\r\r\n",
];

#[test]
fn html_escapes_like_replacing_one_character_after_another() {
    for s in TEXTS {
        let expected = s
            .replace('&', "&amp;")
            .replace('<', "&lt;")
            .replace('>', "&gt;")
            .replace('"', "&quot;");
        assert_eq!(escape_html(s), expected);
        assert!(!escape_html(s).contains(['<', '>', '"']));
    }
    assert_eq!(escape_html("<a href=\"x\">&</a>"), "&lt;a href=&quot;x&quot;&gt;&amp;&lt;/a&gt;");
}

#[test]
fn json_escapes_and_drops_controls() {
    assert_eq!(escape_json("a\\b\"c\nd\re\tf"), "a\\\\b\\\"c\\nd\\re\\tf");
    assert_eq!(escape_json("\u{0}x\u{7f}y\u{85}z"), "xyz");
    assert_eq!(escape_json("\u{1f331} <>"), "\u{1f331} <>");
}

#[test]
fn tsv_escapes_like_replacing_one_character_after_another() {
    for s in TEXTS {
        let expected = s
            .replace('\\', "\\\\")
            .replace('\t', "\\t")
            .replace('\n', "\\n")
            .replace('\r', "");
        assert_eq!(escape_tsv(s), expected);
        assert_eq!(escape_field(s), expected);
        assert_eq!(unescape_tsv(&expected), s.replace('\r', ""));
        assert_eq!(unescape_field(&expected), s.replace('\r', ""));
    }
}

#[test]
fn unescaping_takes_unknown_escapes_as_they_are() {
    assert_eq!(unescape_tsv("\\x\\t\\n\\\\y"), "x\t\n\\y");
    assert_eq!(unescape_tsv("end\\"), "end");
}

#[test]
fn entries_are_encoded_in_five_fields() {
    let e = entry(1_700_000_000, "note", "kind", "#7bdff2", "tab\there\nnew\\line");
    assert_eq!(
        encode_entry(&e),
        "1700000000\tnote\tkind\t#7bdff2\ttab\\there\\nnew\\\\line"
    );
}

#[test]
fn entries_are_read_back() {
    let e = entry(u64::MAX, "mood", "br\\ight", "#fff", "one\ttwo\nthree");
    let back = decode_entry(&encode_entry(&e)).expect("an entry");
    assert_eq!(fields(&back), fields(&e));
    let carriage = entry(3, "a\rb", "", "\r", "x\r\ny");
    let back = decode_entry(&encode_entry(&carriage)).expect("an entry");
    assert_eq!(fields(&back), (3, "ab", "", "", "x\ny"));
}

#[test]
fn broken_lines_stand_for_nothing() {
    for line in [
        "",
        "1\ta\tb\tc",
        "1\ta\tb\tc\td\te",
        "x\ta\tb\tc\td",
        "-1\ta\tb\tc\td",
        "18446744073709551616\ta\tb\tc\td",
    ] {
        assert!(decode_entry(line).is_none(), "{line:?}");
    }
    let rows = vec!["1\ta\tb\tc\td".to_string(), "bad".to_string(), "+2\t\t\t\t".to_string()];
    let entries = decode_all(&rows);
    assert_eq!(entries.len(), 2);
    assert_eq!(fields(&entries[0]), (1, "a", "b", "c", "d"));
    assert_eq!(fields(&entries[1]), (2, "", "", "", ""));
}

#[test]
fn a_missing_file_holds_nothing() {
    assert!(load_entries(None).is_empty());
    assert!(load_entries(Some("")).is_empty());
}

#[test]
fn what_is_appended_is_loaded() {
    let entries = vec![
        entry(5, "mood", "soft", "#f7a8b8", "a\\b"),
        entry(4, "note", "kind", "#7bdff2", "line\nline"),
        entry(9, "quest", "done", "#c3f584", "tab\t"),
    ];
    let mut contents = String::new();
    for e in &entries {
        contents.push_str(&append_entry(e));
    }
    let loaded = load_entries(Some(&contents));
    assert_eq!(loaded.len(), 3);
    for (a, b) in loaded.iter().zip(&entries) {
        assert_eq!(fields(a), fields(b));
    }
}

#[test]
fn files_with_windows_line_endings_are_loaded() {
    let loaded = load_entries(Some("1\tmood\tsoft\t#fff\thi\r\n\r\nnonsense\n2\tnote\tkind\t#000\tlast"));
    assert_eq!(loaded.len(), 2);
    assert_eq!(fields(&loaded[0]), (1, "mood", "soft", "#fff", "hi"));
    assert_eq!(fields(&loaded[1]), (2, "note", "kind", "#000", "last"));
}

#[test]
fn kinds_are_counted() {
    let entries = vec![
        entry(1, "mood", "", "", ""),
        entry(2, "note", "", "", ""),
        entry(3, "mood", "", "", ""),
        entry(4, "quest", "", "", ""),
        entry(5, "Mood", "", "", ""),
    ];
    assert_eq!(stats(&entries), Stats { moods: 2, notes: 1, quests: 1 });
    assert_eq!(stats(&[]), Stats::default());
}

#[test]
fn the_last_written_note_is_found() {
    let entries = vec![
        entry(1, "note", "", "", "first"),
        entry(2, "note", "", "", " second "),
        entry(3, "note", "", "", " \n\u{a0}"),
        entry(4, "mood", "", "", "a mood"),
    ];
    assert_eq!(latest_note(&entries).as_deref(), Some(" second "));
    assert_eq!(latest_note(&entries[..1]).as_deref(), Some("first"));
    assert_eq!(latest_note(&entries[2..]), None);
}

#[test]
fn a_cloned_entry_is_the_same() {
    let e = entry(7, "note", "kind", "#7bdff2", "hello");
    assert_eq!(fields(&e.clone()), fields(&e));
}
