//! Fixed texts: the parts of the page, its script and its style sheet.

use vstd::prelude::*;
use crate::text;

verus! {

/// The page up to the garden.
pub const PAGE_HEAD: &'static str = r##"<!doctype html>
<html lang="en">
<head>
  <meta charset="utf-8">
  <meta name="viewport" content="width=device-width, initial-scale=1">
  <title>Spark Garden</title>
  <link rel="stylesheet" href="/styles.css">
</head>
<body>
  <main class="shell">
    <section class="hero">
      <div class="hero-copy">
        <p class="kicker">No accounts. No ads. Just a tiny shared ritual.</p>
        <h1>Spark Garden</h1>
        <p class="subtitle">Plant today's mood, finish one small quest, and leave a kind note for whoever arrives next.</p>
      </div>
      <div class="garden" id="garden" aria-label="A living garden built from recent moods">
        "##;

/// From the garden to the heading of the quest.
pub const PAGE_MOODS_PANEL: &'static str = r##"
      </div>
    </section>

    <section class="panels" aria-label="Daily actions">
      <form class="panel mood-panel" data-action="/api/mood">
        <div>
          <p class="eyebrow">Plant a mood</p>
          <h2>How's your weather?</h2>
        </div>
        <div class="mood-grid">
          <button name="mood" value="bright" data-color="#ffcf5a" type="submit">Sunny</button>
          <button name="mood" value="soft" data-color="#f7a8b8" type="submit">Soft</button>
          <button name="mood" value="wild" data-color="#7bdff2" type="submit">Wild</button>
          <button name="mood" value="quiet" data-color="#b8b5ff" type="submit">Quiet</button>
        </div>
        <input type="hidden" name="color" value="#ffcf5a">
        <label>
          <span>Optional note</span>
          <input name="text" maxlength="140" placeholder="A sentence for future you">
        </label>
      </form>

      <form class="panel quest-panel" data-action="/api/quest">
        <div>
          <p class="eyebrow">Tiny quest</p>
          <h2>"##;

/// From the heading of the quest to its form field.
pub const PAGE_QUEST_FIELD: &'static str = r##"</h2>
        </div>
        <input type="hidden" name="text" value=""##;

/// From the form field of the quest to the note.
pub const PAGE_NOTE_PANEL: &'static str = r##"">
        <button class="primary" type="submit">I did this</button>
      </form>

      <form class="panel note-panel" data-action="/api/note">
        <div>
          <p class="eyebrow">Message bottle</p>
          <h2>For the next visitor</h2>
        </div>
        <blockquote id="note">""##;

/// From the note to the number of moods.
pub const PAGE_PULSE: &'static str = r##""</blockquote>
        <label>
          <span>Your note</span>
          <textarea name="text" maxlength="180" placeholder="Something true, kind, or oddly specific"></textarea>
        </label>
        <input type="hidden" name="color" value="#7bdff2">
        <button class="primary" type="submit">Float it forward</button>
      </form>
    </section>

    <section class="pulse" aria-label="Garden pulse">
      <div><strong id="moods">"##;

/// From the number of moods to the number of quests.
pub const PAGE_AFTER_MOODS: &'static str = r##"</strong><span>moods planted</span></div>
      <div><strong id="quests">"##;

/// From the number of quests to the number of notes.
pub const PAGE_AFTER_QUESTS: &'static str = r##"</strong><span>tiny quests done</span></div>
      <div><strong id="notes">"##;

/// The rest of the page.
pub const PAGE_FOOT: &'static str = r##"</strong><span>notes shared</span></div>
    </section>
  </main>
  <script src="/app.js"></script>
</body>
</html>"##;

/// The script of the page.
pub const APP_JS: &'static str = r##"
const garden = document.querySelector('#garden');
const moodCount = document.querySelector('#moods');
const noteCount = document.querySelector('#notes');
const questCount = document.querySelector('#quests');
const note = document.querySelector('#note');

function update(data) {
  moodCount.textContent = data.moods;
  noteCount.textContent = data.notes;
  questCount.textContent = data.quests;
  if (data.note) note.textContent = `"${data.note}"`;
  garden.innerHTML = data.garden;
}

document.querySelectorAll('form[data-action]').forEach((form) => {
  form.addEventListener('click', (event) => {
    const button = event.target.closest('button[data-color]');
    if (!button) return;
    form.querySelector('input[name="color"]').value = button.dataset.color;
  });

  form.addEventListener('submit', async (event) => {
    event.preventDefault();
    const submitter = event.submitter;
    const body = new URLSearchParams(new FormData(form));
    if (submitter && submitter.name) body.set(submitter.name, submitter.value);

    form.classList.add('saving');
    const response = await fetch(form.dataset.action, { method: 'POST', body });
    const data = await response.json();
    form.classList.remove('saving');
    if (data.error) {
      form.animate([{ transform: 'translateX(-4px)' }, { transform: 'translateX(4px)' }, { transform: 'translateX(0)' }], 180);
      return;
    }
    update(data);
    form.reset();
  });
});
"##;

/// The style sheet of the page.
pub const STYLES: &'static str = r##"
:root {
  color-scheme: light;
  --ink: #202124;
  --muted: #6b6862;
  --paper: #fffaf0;
  --line: rgba(32, 33, 36, .14);
  --green: #2f7d5c;
  --blue: #276b96;
  --rose: #c75173;
  --gold: #d7951d;
}

* { box-sizing: border-box; }

body {
  margin: 0;
  min-height: 100vh;
  font-family: ui-sans-serif, system-ui, -apple-system, BlinkMacSystemFont, "Segoe UI", sans-serif;
  color: var(--ink);
  background:
    radial-gradient(circle at 20% 10%, rgba(255, 207, 90, .28), transparent 30%),
    radial-gradient(circle at 88% 12%, rgba(123, 223, 242, .24), transparent 28%),
    linear-gradient(135deg, #fffaf0 0%, #f6fbf4 48%, #eef7ff 100%);
}

button, input, textarea {
  font: inherit;
}

.shell {
  width: min(1180px, calc(100% - 32px));
  margin: 0 auto;
  padding: 32px 0;
}

.hero {
  min-height: 52vh;
  display: grid;
  grid-template-columns: minmax(0, .85fr) minmax(320px, 1.15fr);
  gap: 28px;
  align-items: stretch;
}

.hero-copy {
  display: flex;
  flex-direction: column;
  justify-content: center;
}

.kicker, .eyebrow {
  margin: 0 0 10px;
  color: var(--green);
  font-size: .78rem;
  font-weight: 800;
  letter-spacing: 0;
  text-transform: uppercase;
}

h1 {
  margin: 0;
  font-family: ui-serif, Georgia, Cambria, "Times New Roman", serif;
  font-size: clamp(4rem, 9vw, 8.8rem);
  line-height: .86;
  letter-spacing: 0;
}

.subtitle {
  max-width: 40rem;
  margin: 24px 0 0;
  color: #4d4942;
  font-size: clamp(1.05rem, 2vw, 1.35rem);
  line-height: 1.55;
}

.garden {
  position: relative;
  min-height: 420px;
  overflow: hidden;
  border: 1px solid var(--line);
  border-radius: 8px;
  background:
    linear-gradient(180deg, rgba(255,255,255,.64), rgba(255,255,255,.2)),
    repeating-linear-gradient(90deg, rgba(47, 125, 92, .08) 0 1px, transparent 1px 72px),
    linear-gradient(180deg, #dff6ff 0%, #fbffe8 54%, #d7f0c4 100%);
  box-shadow: 0 22px 70px rgba(32, 33, 36, .12);
}

.garden::before {
  content: "";
  position: absolute;
  inset: auto 0 0;
  height: 35%;
  background: linear-gradient(180deg, transparent, rgba(47, 125, 92, .28));
}

.petal {
  position: absolute;
  left: var(--x);
  top: var(--y);
  width: var(--s, 28px);
  aspect-ratio: 1;
  border-radius: 55% 45% 55% 45%;
  background: var(--c);
  box-shadow: 0 10px 20px rgba(32,33,36,.16), inset -5px -7px 0 rgba(0,0,0,.08);
  transform: rotate(20deg);
  animation: bob 3.4s ease-in-out infinite;
  animation-delay: var(--d);
}

.petal::after {
  content: "";
  position: absolute;
  left: 48%;
  top: 75%;
  width: 2px;
  height: 62px;
  background: rgba(47, 125, 92, .5);
  transform: rotate(-18deg);
  transform-origin: top;
  z-index: -1;
}

.petal.ghost {
  opacity: .45;
  filter: saturate(.65);
}

@keyframes bob {
  50% { translate: 0 -9px; rotate: 8deg; }
}

.panels {
  display: grid;
  grid-template-columns: 1fr 1fr 1fr;
  gap: 16px;
  margin-top: 18px;
}

.panel {
  min-height: 330px;
  display: flex;
  flex-direction: column;
  justify-content: space-between;
  gap: 18px;
  padding: 22px;
  border: 1px solid var(--line);
  border-radius: 8px;
  background: rgba(255,255,255,.66);
  box-shadow: 0 14px 44px rgba(32, 33, 36, .08);
  backdrop-filter: blur(14px);
}

.panel h2 {
  margin: 0;
  font-size: 1.55rem;
  line-height: 1.1;
  letter-spacing: 0;
}

.mood-grid {
  display: grid;
  grid-template-columns: repeat(2, minmax(0, 1fr));
  gap: 10px;
}

.mood-grid button, .primary {
  min-height: 48px;
  border: 1px solid rgba(32,33,36,.18);
  border-radius: 8px;
  color: #171717;
  background: #ffffff;
  cursor: pointer;
  transition: transform .16s ease, box-shadow .16s ease, background .16s ease;
}

.mood-grid button:nth-child(1) { background: #ffdf7d; }
.mood-grid button:nth-child(2) { background: #ffc4d1; }
.mood-grid button:nth-child(3) { background: #a7edf8; }
.mood-grid button:nth-child(4) { background: #cbc8ff; }

.mood-grid button:hover, .primary:hover {
  transform: translateY(-2px);
  box-shadow: 0 10px 22px rgba(32,33,36,.13);
}

.primary {
  width: 100%;
  color: white;
  background: #202124;
}

label {
  display: grid;
  gap: 8px;
  color: var(--muted);
  font-size: .9rem;
}

input, textarea {
  width: 100%;
  border: 1px solid var(--line);
  border-radius: 8px;
  padding: 12px 13px;
  color: var(--ink);
  background: rgba(255,255,255,.78);
  outline: none;
}

textarea {
  min-height: 92px;
  resize: vertical;
}

input:focus, textarea:focus {
  border-color: rgba(39, 107, 150, .72);
  box-shadow: 0 0 0 4px rgba(123, 223, 242, .24);
}

blockquote {
  margin: 0;
  padding: 16px;
  border-left: 4px solid var(--rose);
  color: #413d37;
  background: rgba(255,255,255,.58);
  line-height: 1.5;
}

.pulse {
  display: grid;
  grid-template-columns: repeat(3, 1fr);
  gap: 14px;
  margin-top: 16px;
}

.pulse div {
  padding: 18px;
  border: 1px solid var(--line);
  border-radius: 8px;
  background: rgba(255,255,255,.52);
}

.pulse strong {
  display: block;
  font-size: 2.4rem;
  line-height: 1;
}

.pulse span {
  color: var(--muted);
}

.saving {
  opacity: .72;
  pointer-events: none;
}

@media (max-width: 900px) {
  .hero, .panels, .pulse {
    grid-template-columns: 1fr;
  }

  .hero {
    min-height: auto;
  }

  .garden {
    min-height: 360px;
  }
}

@media (max-width: 520px) {
  .shell {
    width: min(100% - 20px, 1180px);
    padding: 18px 0;
  }

  h1 {
    font-size: 4rem;
  }

  .panel {
    min-height: 300px;
    padding: 18px;
  }

  .mood-grid {
    grid-template-columns: 1fr;
  }
}
"##;

// ---------------------------------------------------------------------------
// Where things stand on the page
// ---------------------------------------------------------------------------

/// What opens the garden.
pub const GARDEN_MARK: &'static str = "<div class=\"garden\" id=\"garden\" aria-label=\"A living garden built from recent moods\">";

/// What goes before the heading of the quest.
pub const QUEST_MARK: &'static str = "<p class=\"eyebrow\">Tiny quest</p>\n          <h2>";

/// What goes before the quest in its form.
pub const FIELD_MARK: &'static str = "<input type=\"hidden\" name=\"text\" value=\"";

/// What goes before the note.
pub const NOTE_MARK: &'static str = "<blockquote id=\"note\">\"";

/// What goes before the number of moods.
pub const MOODS_MARK: &'static str = "<strong id=\"moods\">";

/// What goes before the number of quests.
pub const QUESTS_MARK: &'static str = "<strong id=\"quests\">";

/// What goes before the number of notes.
pub const NOTES_MARK: &'static str = "<strong id=\"notes\">";

/// Reveals the marks: each begins a tag, and by their next characters, or a
/// later one, they are told apart.
pub proof fn lemma_marks()
    ensures
        GARDEN_MARK@.len() == 85 && GARDEN_MARK@[0] == '<' && GARDEN_MARK@[1] == 'd',
        GARDEN_MARK@[2] == 'i' && GARDEN_MARK@[12] == 'g',
        QUEST_MARK@.len() == 48 && QUEST_MARK@[0] == '<' && QUEST_MARK@[1] == 'p',
        QUEST_MARK@[2] == ' ' && QUEST_MARK@[19] == 'T',
        FIELD_MARK@.len() == 40 && FIELD_MARK@[0] == '<' && FIELD_MARK@[1] == 'i',
        FIELD_MARK@[2] == 'n' && FIELD_MARK@[27] == 't',
        NOTE_MARK@.len() == 23 && NOTE_MARK@[0] == '<' && NOTE_MARK@[1] == 'b',
        NOTE_MARK@[2] == 'l' && NOTE_MARK@[12] == 'i',
        MOODS_MARK@.len() == 19 && MOODS_MARK@[0] == '<' && MOODS_MARK@[1] == 's',
        MOODS_MARK@[2] == 't' && MOODS_MARK@[12] == 'm',
        QUESTS_MARK@.len() == 20 && QUESTS_MARK@[0] == '<' && QUESTS_MARK@[1] == 's',
        QUESTS_MARK@[2] == 't' && QUESTS_MARK@[12] == 'q',
        NOTES_MARK@.len() == 19 && NOTES_MARK@[0] == '<' && NOTES_MARK@[1] == 's',
        NOTES_MARK@[2] == 't' && NOTES_MARK@[12] == 'n',
{
    reveal_strlit("<div class=\"garden\" id=\"garden\" aria-label=\"A living garden built from recent moods\">");
    reveal_strlit("<p class=\"eyebrow\">Tiny quest</p>\n          <h2>");
    reveal_strlit("<input type=\"hidden\" name=\"text\" value=\"");
    reveal_strlit("<blockquote id=\"note\">\"");
    reveal_strlit("<strong id=\"moods\">");
    reveal_strlit("<strong id=\"quests\">");
    reveal_strlit("<strong id=\"notes\">");
}

proof fn lemma_page_head_tags(i: int)
    requires
        0 <= i < PAGE_HEAD@.len(),
        PAGE_HEAD@[i] == '<',
    ensures
        i + 12 < PAGE_HEAD@.len(),
        i < 557 ==> i + 12 < 557,
        i < 557 && PAGE_HEAD@[i + 1] == 'd' && PAGE_HEAD@[i + 2] == 'i' ==> PAGE_HEAD@[i + 12] != 'g',
        !(PAGE_HEAD@[i + 1] == 's' && PAGE_HEAD@[i + 2] == 't'),
        !(PAGE_HEAD@[i + 1] == 'b' && PAGE_HEAD@[i + 2] == 'l'),
        !(PAGE_HEAD@[i + 1] == 'i' && PAGE_HEAD@[i + 2] == 'n'),
        PAGE_HEAD@[i + 1] == 'p' && PAGE_HEAD@[i + 2] == ' ' ==> i + 19 < PAGE_HEAD@.len() && PAGE_HEAD@[i + 19] != 'T',
{
    reveal_strlit(
        r##"<!doctype html>
<html lang="en">
<head>
  <meta charset="utf-8">
  <meta name="viewport" content="width=device-width, initial-scale=1">
  <title>Spark Garden</title>
  <link rel="stylesheet" href="/styles.css">
</head>
<body>
  <main class="shell">
    <section class="hero">
      <div class="hero-copy">
        <p class="kicker">No accounts. No ads. Just a tiny shared ritual.</p>
        <h1>Spark Garden</h1>
        <p class="subtitle">Plant today's mood, finish one small quest, and leave a kind note for whoever arrives next.</p>
      </div>
      <div class="garden" id="garden" aria-label="A living garden built from recent moods">
        "##,
    );
}

proof fn lemma_page_head_parts()
    ensures
        PAGE_HEAD@.len() == 651,
        PAGE_HEAD@ == PAGE_HEAD@.take(557) + GARDEN_MARK@ + "\n        "@,
{
    reveal_strlit(
        r##"<!doctype html>
<html lang="en">
<head>
  <meta charset="utf-8">
  <meta name="viewport" content="width=device-width, initial-scale=1">
  <title>Spark Garden</title>
  <link rel="stylesheet" href="/styles.css">
</head>
<body>
  <main class="shell">
    <section class="hero">
      <div class="hero-copy">
        <p class="kicker">No accounts. No ads. Just a tiny shared ritual.</p>
        <h1>Spark Garden</h1>
        <p class="subtitle">Plant today's mood, finish one small quest, and leave a kind note for whoever arrives next.</p>
      </div>
      <div class="garden" id="garden" aria-label="A living garden built from recent moods">
        "##,
    );
    reveal_strlit("<div class=\"garden\" id=\"garden\" aria-label=\"A living garden built from recent moods\">");
    reveal_strlit("\n        ");
    assert(PAGE_HEAD@ =~= PAGE_HEAD@.take(557) + GARDEN_MARK@ + "\n        "@);
}

/// The page up to the garden ends with what opens the garden.
pub proof fn lemma_page_head()
    ensures
        PAGE_HEAD@ == PAGE_HEAD@.take(557) + GARDEN_MARK@ + "\n        "@,
        text::apart(PAGE_HEAD@.take(557), GARDEN_MARK@, 12),
        text::apart(PAGE_HEAD@, QUEST_MARK@, 19),
        text::apart(PAGE_HEAD@, FIELD_MARK@, 27),
        text::apart(PAGE_HEAD@, NOTE_MARK@, 12),
        text::apart(PAGE_HEAD@, MOODS_MARK@, 12),
        text::apart(PAGE_HEAD@, QUESTS_MARK@, 12),
        text::apart(PAGE_HEAD@, NOTES_MARK@, 12),
{
    lemma_marks();
    lemma_page_head_parts();
    assert forall|i: int| 0 <= i < PAGE_HEAD@.len() && #[trigger] PAGE_HEAD@[i] == '<' implies {
        &&& i + 12 < PAGE_HEAD@.len()
        &&& i < 557 ==> i + 12 < 557
        &&& i < 557 && PAGE_HEAD@[i + 1] == 'd' && PAGE_HEAD@[i + 2] == 'i' ==> PAGE_HEAD@[i + 12] != 'g'
        &&& !(PAGE_HEAD@[i + 1] == 's' && PAGE_HEAD@[i + 2] == 't')
        &&& !(PAGE_HEAD@[i + 1] == 'b' && PAGE_HEAD@[i + 2] == 'l')
        &&& !(PAGE_HEAD@[i + 1] == 'i' && PAGE_HEAD@[i + 2] == 'n')
        &&& PAGE_HEAD@[i + 1] == 'p' && PAGE_HEAD@[i + 2] == ' ' ==> i + 19 < PAGE_HEAD@.len() && PAGE_HEAD@[i + 19] != 'T'
    } by {
        lemma_page_head_tags(i);
    }
    let before = PAGE_HEAD@.take(557);
    assert forall|i: int| 0 <= i < before.len() && #[trigger] before[i] == '<' implies {
        ||| i + 1 < before.len() && before[i + 1] != GARDEN_MARK@[1]
        ||| i + 2 < before.len() && before[i + 2] != GARDEN_MARK@[2]
        ||| i + 12 < before.len() && before[i + 12] != GARDEN_MARK@[12]
    } by {
        assert(PAGE_HEAD@[i] == '<');
    }
}

proof fn lemma_page_moods_panel_tags(i: int)
    requires
        0 <= i < PAGE_MOODS_PANEL@.len(),
        PAGE_MOODS_PANEL@[i] == '<',
    ensures
        i + 2 < PAGE_MOODS_PANEL@.len(),
        i < 1000 ==> i + 2 < 1000,
        i < 1000 && PAGE_MOODS_PANEL@[i + 1] == 'p' && PAGE_MOODS_PANEL@[i + 2] == ' ' ==> i + 19 < 1000 && PAGE_MOODS_PANEL@[i + 19] != 'T',
        !(PAGE_MOODS_PANEL@[i + 1] == 's' && PAGE_MOODS_PANEL@[i + 2] == 't'),
        !(PAGE_MOODS_PANEL@[i + 1] == 'b' && PAGE_MOODS_PANEL@[i + 2] == 'l'),
        PAGE_MOODS_PANEL@[i + 1] == 'i' && PAGE_MOODS_PANEL@[i + 2] == 'n' ==> i + 27 < PAGE_MOODS_PANEL@.len() && PAGE_MOODS_PANEL@[i + 27] != 't',
{
    reveal_strlit(
        r##"
      </div>
    </section>

    <section class="panels" aria-label="Daily actions">
      <form class="panel mood-panel" data-action="/api/mood">
        <div>
          <p class="eyebrow">Plant a mood</p>
          <h2>How's your weather?</h2>
        </div>
        <div class="mood-grid">
          <button name="mood" value="bright" data-color="#ffcf5a" type="submit">Sunny</button>
          <button name="mood" value="soft" data-color="#f7a8b8" type="submit">Soft</button>
          <button name="mood" value="wild" data-color="#7bdff2" type="submit">Wild</button>
          <button name="mood" value="quiet" data-color="#b8b5ff" type="submit">Quiet</button>
        </div>
        <input type="hidden" name="color" value="#ffcf5a">
        <label>
          <span>Optional note</span>
          <input name="text" maxlength="140" placeholder="A sentence for future you">
        </label>
      </form>

      <form class="panel quest-panel" data-action="/api/quest">
        <div>
          <p class="eyebrow">Tiny quest</p>
          <h2>"##,
    );
}

proof fn lemma_page_moods_panel_parts()
    ensures
        PAGE_MOODS_PANEL@.len() == 1048,
        PAGE_MOODS_PANEL@ == PAGE_MOODS_PANEL@.take(1000) + QUEST_MARK@,
        PAGE_MOODS_PANEL@ == "\n      "@ + "</div>"@ + PAGE_MOODS_PANEL@.skip(13),
{
    reveal_strlit(
        r##"
      </div>
    </section>

    <section class="panels" aria-label="Daily actions">
      <form class="panel mood-panel" data-action="/api/mood">
        <div>
          <p class="eyebrow">Plant a mood</p>
          <h2>How's your weather?</h2>
        </div>
        <div class="mood-grid">
          <button name="mood" value="bright" data-color="#ffcf5a" type="submit">Sunny</button>
          <button name="mood" value="soft" data-color="#f7a8b8" type="submit">Soft</button>
          <button name="mood" value="wild" data-color="#7bdff2" type="submit">Wild</button>
          <button name="mood" value="quiet" data-color="#b8b5ff" type="submit">Quiet</button>
        </div>
        <input type="hidden" name="color" value="#ffcf5a">
        <label>
          <span>Optional note</span>
          <input name="text" maxlength="140" placeholder="A sentence for future you">
        </label>
      </form>

      <form class="panel quest-panel" data-action="/api/quest">
        <div>
          <p class="eyebrow">Tiny quest</p>
          <h2>"##,
    );
    reveal_strlit("<p class=\"eyebrow\">Tiny quest</p>\n          <h2>");
    reveal_strlit("\n      ");
    reveal_strlit("</div>");
    assert(PAGE_MOODS_PANEL@ =~= PAGE_MOODS_PANEL@.take(1000) + QUEST_MARK@);
    assert(PAGE_MOODS_PANEL@ =~= "\n      "@ + "</div>"@ + PAGE_MOODS_PANEL@.skip(13));
}

/// What follows the garden closes it, and ends with what goes before the quest.
pub proof fn lemma_page_moods_panel()
    ensures
        PAGE_MOODS_PANEL@ == PAGE_MOODS_PANEL@.take(1000) + QUEST_MARK@,
        text::apart(PAGE_MOODS_PANEL@.take(1000), QUEST_MARK@, 19),
        text::apart(PAGE_MOODS_PANEL@, FIELD_MARK@, 27),
        text::apart(PAGE_MOODS_PANEL@, NOTE_MARK@, 12),
        text::apart(PAGE_MOODS_PANEL@, MOODS_MARK@, 12),
        text::apart(PAGE_MOODS_PANEL@, QUESTS_MARK@, 12),
        text::apart(PAGE_MOODS_PANEL@, NOTES_MARK@, 12),
        PAGE_MOODS_PANEL@ == "\n      "@ + "</div>"@ + PAGE_MOODS_PANEL@.skip(13),
{
    lemma_marks();
    lemma_page_moods_panel_parts();
    assert forall|i: int| 0 <= i < PAGE_MOODS_PANEL@.len() && #[trigger] PAGE_MOODS_PANEL@[i] == '<' implies {
        &&& i + 2 < PAGE_MOODS_PANEL@.len()
        &&& i < 1000 ==> i + 2 < 1000
        &&& i < 1000 && PAGE_MOODS_PANEL@[i + 1] == 'p' && PAGE_MOODS_PANEL@[i + 2] == ' ' ==> i + 19 < 1000 && PAGE_MOODS_PANEL@[i + 19] != 'T'
        &&& !(PAGE_MOODS_PANEL@[i + 1] == 's' && PAGE_MOODS_PANEL@[i + 2] == 't')
        &&& !(PAGE_MOODS_PANEL@[i + 1] == 'b' && PAGE_MOODS_PANEL@[i + 2] == 'l')
        &&& PAGE_MOODS_PANEL@[i + 1] == 'i' && PAGE_MOODS_PANEL@[i + 2] == 'n' ==> i + 27 < PAGE_MOODS_PANEL@.len() && PAGE_MOODS_PANEL@[i + 27] != 't'
    } by {
        lemma_page_moods_panel_tags(i);
    }
    let before = PAGE_MOODS_PANEL@.take(1000);
    assert forall|i: int| 0 <= i < before.len() && #[trigger] before[i] == '<' implies {
        ||| i + 1 < before.len() && before[i + 1] != QUEST_MARK@[1]
        ||| i + 2 < before.len() && before[i + 2] != QUEST_MARK@[2]
        ||| i + 19 < before.len() && before[i + 19] != QUEST_MARK@[19]
    } by {
        assert(PAGE_MOODS_PANEL@[i] == '<');
    }
}

/// What follows the heading of the quest ends with what goes before the quest in
/// its form.
pub proof fn lemma_page_quest_field()
    ensures
        PAGE_QUEST_FIELD@ == PAGE_QUEST_FIELD@.take(29) + FIELD_MARK@,
        text::apart(PAGE_QUEST_FIELD@.take(29), FIELD_MARK@, 27),
        text::apart(PAGE_QUEST_FIELD@, NOTE_MARK@, 12),
        text::apart(PAGE_QUEST_FIELD@, MOODS_MARK@, 12),
        text::apart(PAGE_QUEST_FIELD@, QUESTS_MARK@, 12),
        text::apart(PAGE_QUEST_FIELD@, NOTES_MARK@, 12),
        PAGE_QUEST_FIELD@.len() > 0 && PAGE_QUEST_FIELD@[0] == '<',
{
    lemma_marks();
    reveal_strlit(
        r##"</h2>
        </div>
        <input type="hidden" name="text" value=""##,
    );
    reveal_strlit("<input type=\"hidden\" name=\"text\" value=\"");
    assert(PAGE_QUEST_FIELD@ =~= PAGE_QUEST_FIELD@.take(29) + FIELD_MARK@);
}

/// What follows the quest in its form ends with what goes before the note.
pub proof fn lemma_page_note_panel()
    ensures
        PAGE_NOTE_PANEL@ == PAGE_NOTE_PANEL@.take(271) + NOTE_MARK@,
        text::apart(PAGE_NOTE_PANEL@.take(271), NOTE_MARK@, 12),
        text::apart(PAGE_NOTE_PANEL@, MOODS_MARK@, 12),
        text::apart(PAGE_NOTE_PANEL@, QUESTS_MARK@, 12),
        text::apart(PAGE_NOTE_PANEL@, NOTES_MARK@, 12),
        PAGE_NOTE_PANEL@.len() > 0 && PAGE_NOTE_PANEL@[0] == '"',
{
    lemma_marks();
    reveal_strlit(
        r##"">
        <button class="primary" type="submit">I did this</button>
      </form>

      <form class="panel note-panel" data-action="/api/note">
        <div>
          <p class="eyebrow">Message bottle</p>
          <h2>For the next visitor</h2>
        </div>
        <blockquote id="note">""##,
    );
    reveal_strlit("<blockquote id=\"note\">\"");
    assert(PAGE_NOTE_PANEL@ =~= PAGE_NOTE_PANEL@.take(271) + NOTE_MARK@);
}

/// What follows the note ends with what goes before the number of moods.
pub proof fn lemma_page_pulse()
    ensures
        PAGE_PULSE@ == PAGE_PULSE@.take(421) + MOODS_MARK@,
        text::apart(PAGE_PULSE@.take(421), MOODS_MARK@, 12),
        text::apart(PAGE_PULSE@, QUESTS_MARK@, 12),
        text::apart(PAGE_PULSE@, NOTES_MARK@, 12),
        PAGE_PULSE@.len() > 0 && PAGE_PULSE@[0] == '"',
{
    lemma_marks();
    reveal_strlit(
        r##""</blockquote>
        <label>
          <span>Your note</span>
          <textarea name="text" maxlength="180" placeholder="Something true, kind, or oddly specific"></textarea>
        </label>
        <input type="hidden" name="color" value="#7bdff2">
        <button class="primary" type="submit">Float it forward</button>
      </form>
    </section>

    <section class="pulse" aria-label="Garden pulse">
      <div><strong id="moods">"##,
    );
    reveal_strlit("<strong id=\"moods\">");
    assert(PAGE_PULSE@ =~= PAGE_PULSE@.take(421) + MOODS_MARK@);
}

/// What follows the number of moods ends with what goes before that of quests.
pub proof fn lemma_page_after_moods()
    ensures
        PAGE_AFTER_MOODS@ == PAGE_AFTER_MOODS@.take(53) + QUESTS_MARK@,
        text::apart(PAGE_AFTER_MOODS@.take(53), QUESTS_MARK@, 12),
        text::apart(PAGE_AFTER_MOODS@, NOTES_MARK@, 12),
        PAGE_AFTER_MOODS@.len() > 0 && PAGE_AFTER_MOODS@[0] == '<',
{
    lemma_marks();
    reveal_strlit(
        r##"</strong><span>moods planted</span></div>
      <div><strong id="quests">"##,
    );
    reveal_strlit("<strong id=\"quests\">");
    assert(PAGE_AFTER_MOODS@ =~= PAGE_AFTER_MOODS@.take(53) + QUESTS_MARK@);
}

/// What follows the number of quests ends with what goes before that of notes.
pub proof fn lemma_page_after_quests()
    ensures
        PAGE_AFTER_QUESTS@ == PAGE_AFTER_QUESTS@.take(56) + NOTES_MARK@,
        text::apart(PAGE_AFTER_QUESTS@.take(56), NOTES_MARK@, 12),
        PAGE_AFTER_QUESTS@.len() > 0 && PAGE_AFTER_QUESTS@[0] == '<',
{
    lemma_marks();
    reveal_strlit(
        r##"</strong><span>tiny quests done</span></div>
      <div><strong id="notes">"##,
    );
    reveal_strlit("<strong id=\"notes\">");
    assert(PAGE_AFTER_QUESTS@ =~= PAGE_AFTER_QUESTS@.take(56) + NOTES_MARK@);
}

/// What follows the number of notes closes its element.
pub proof fn lemma_page_foot()
    ensures
        PAGE_FOOT@.len() > 0 && PAGE_FOOT@[0] == '<',
{
    reveal_strlit(
        r##"</strong><span>notes shared</span></div>
    </section>
  </main>
  <script src="/app.js"></script>
</body>
</html>"##,
    );
}

} // verus!
