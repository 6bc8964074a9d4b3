use spark_garden::entry::Entry;
use spark_garden::garden::{
    garden_petals, ghost_delay_of, ghost_petal_html, petal_delay_of, petal_html,
};
use spark_garden::page::{render_home, render_page, state_json};
use spark_garden::quest::{now, quest_for, quest_for_day, timestamp};
use spark_garden::server::AppState;

const QUESTS: &[&str] = &[
    "Send one sincere compliment",
    "Drink water like you mean it",
    "Take a ten minute no-phone walk",
    "Play one song and move around",
    "Text someone a tiny thank-you",
    "Put one annoying thing back where it belongs",
    "Look outside until you notice three colors",
    "Write one sentence you want to remember",
];

fn entry(ts: u64, kind: &str, mood: &str, color: &str, text: &str) -> Entry {
    Entry {
        kind: kind.to_string(),
        mood: mood.to_string(),
        color: color.to_string(),
        text: text.to_string(),
        ts,
    }
}

#[test]
fn delays_are_printed_like_single_precision_numbers() {
    for i in 0..50usize {
        assert_eq!(ghost_delay_of(i), format!("{}", (i % 7) as f32 * 0.18));
        assert_eq!(petal_delay_of(i), format!("{}", (i % 9) as f32 * 0.12));
    }
}

#[test]
fn an_empty_garden_shows_pale_petals() {
    let mut expected = String::new();
    for i in 0..18 {
        let x = 8 + (i * 19) % 84;
        let y = 14 + (i * 29) % 72;
        let delay = (i % 7) as f32 * 0.18;
        expected.push_str(&format!(
            r#"<span class="petal ghost" style="--x:{x}%;--y:{y}%;--c:#d8f3dc;--d:{delay}s"></span>"#
        ));
    }
    assert_eq!(garden_petals(&[]), expected);
    assert_eq!(garden_petals(&[entry(1, "note", "kind", "#fff", "hi")]), expected);
    assert!(expected.starts_with(&ghost_petal_html(0)));
}

#[test]
fn a_petal_has_its_place() {
    let mood = entry(1_700_000_000, "mood", "so\"ft", "<red>", "");
    let x = 7 + (2 * 17 + 1_700_000_000usize % 11) % 86;
    let y = 10 + (2 * 23 + 1_700_000_000usize % 13) % 76;
    let size = 18 + (5 * 3 + 2) % 28;
    assert_eq!(
        petal_html(2, &mood),
        format!(
            "<span class=\"petal\" title=\"so&quot;ft\" style=\"--x:{x}%;--y:{y}%;--s:{size}px;--c:&lt;red&gt;;--d:0.24s\"></span>"
        )
    );
}

#[test]
fn a_garden_shows_the_latest_moods_first() {
    let mut entries = Vec::new();
    for i in 0..60u64 {
        entries.push(entry(i, "mood", &format!("m{i}"), "#fff", ""));
        entries.push(entry(i, "quest", "done", "#c3f584", "x"));
    }
    let mut expected = String::new();
    for (i, mood) in entries.iter().filter(|e| e.kind == "mood").rev().take(42).enumerate() {
        let x = 7 + (i * 17 + mood.ts as usize % 11) % 86;
        let y = 10 + (i * 23 + mood.ts as usize % 13) % 76;
        let size = 18 + (mood.mood.len() * 3 + i) % 28;
        let delay = (i % 9) as f32 * 0.12;
        expected.push_str(&format!(
            r#"<span class="petal" title="{}" style="--x:{x}%;--y:{y}%;--s:{size}px;--c:{};--d:{delay}s"></span>"#,
            mood.mood, mood.color
        ));
    }
    let garden = garden_petals(&entries);
    assert_eq!(garden, expected);
    assert!(garden.contains("title=\"m59\""));
    assert!(!garden.contains("title=\"m17\""));
}

#[test]
fn quests_change_each_day() {
    for (day, quest) in QUESTS.iter().enumerate() {
        let start = day as u64 * 86_400;
        assert_eq!(quest_for(start), *quest);
        assert_eq!(quest_for(start + 86_399), *quest);
        assert_eq!(quest_for(start + 8 * 86_400), *quest);
    }
    assert_eq!(quest_for(u64::MAX), QUESTS[(u64::MAX / 86_400 % 8) as usize]);
}

#[test]
fn the_clock_is_read() {
    let ts = now();
    assert!(ts > 1_500_000_000);
    assert_eq!(timestamp(None), 0);
    assert_eq!(timestamp(Some(7)), 7);
    assert!(QUESTS.contains(&quest_for_day()));
}

#[test]
fn the_page_is_rendered() {
    let entries = vec![
        entry(1, "mood", "soft", "#f7a8b8", ""),
        entry(2, "note", "kind", "#7bdff2", "you & <me>"),
        entry(3, "quest", "done", "#c3f584", "walk"),
        entry(4, "quest", "done", "#c3f584", "rest"),
    ];
    let page = render_page(&entries, QUESTS[2]);
    assert!(page.starts_with("<!doctype html>\n<html lang=\"en\">"));
    assert!(page.ends_with("</html>"));
    assert!(page.contains("<blockquote id=\"note\">\"you &amp; &lt;me&gt;\"</blockquote>"));
    assert!(page.contains("<h2>Take a ten minute no-phone walk</h2>"));
    assert!(page.contains("name=\"text\" value=\"Take a ten minute no-phone walk\">"));
    assert!(page.contains("<strong id=\"moods\">1</strong><span>moods planted</span>"));
    assert!(page.contains("<strong id=\"quests\">2</strong><span>tiny quests done</span>"));
    assert!(page.contains("<strong id=\"notes\">1</strong><span>notes shared</span>"));
    assert!(page.contains(&garden_petals(&entries)));
    assert!(page.contains("data-color=\"#ffcf5a\" type=\"submit\">Sunny</button>"));
}

#[test]
fn the_page_invites_to_leave_a_note() {
    let state = AppState { data_path: String::new(), entries: Vec::new() };
    let page = render_home(&state);
    assert!(page.contains("\"Leave a kind note and the next person gets to find it.\""));
    assert!(QUESTS.iter().any(|quest| page == render_page(&[], quest)));
}

#[test]
fn the_state_is_json() {
    let entries = vec![
        entry(1, "note", "kind", "#7bdff2", "say \"hi\"\nplease"),
        entry(2, "quest", "done", "#c3f584", "walk"),
    ];
    let json = state_json(&entries);
    let garden = garden_petals(&entries).replace('"', "\\\"");
    assert_eq!(
        json,
        format!(
            "{{\"moods\":0,\"notes\":1,\"quests\":1,\"note\":\"say \\\"hi\\\"\\nplease\",\"garden\":\"{garden}\"}}"
        )
    );
    assert!(state_json(&[]).starts_with("{\"moods\":0,\"notes\":0,\"quests\":0,\"note\":\"\",\"garden\":\"<span"));
}

#[test]
fn quests_need_no_escaping() {
    for day in 0..8 {
        assert!(!quest_for(day * 86_400).contains(['&', '<', '>', '"']));
    }
}

#[test]
fn a_new_mood_is_the_first_petal() {
    let mut entries = vec![entry(1, "mood", "old", "#fff", "")];
    entries.push(entry(2, "mood", "new", "#000", ""));
    let garden = garden_petals(&entries);
    assert!(garden.starts_with(&petal_html(0, &entries[1])));
    assert!(garden.ends_with(&petal_html(1, &entries[0])));
}
