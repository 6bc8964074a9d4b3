//! Escaping text for HTML, for JSON strings and for tab-separated lines.

use vstd::prelude::*;
use crate::text;
use crate::text::{char_is_control, chars_of};

verus! {

// ---------------------------------------------------------------------------
// HTML
// ---------------------------------------------------------------------------

/// What stands for one character in HTML text or in a quoted attribute.
pub open spec fn html_char(c: char) -> Seq<char> {
    if c == '&' {
        "&amp;"@
    } else if c == '<' {
        "&lt;"@
    } else if c == '>' {
        "&gt;"@
    } else if c == '"' {
        "&quot;"@
    } else {
        seq![c]
    }
}

/// `s` with every character replaced by what stands for it in HTML.
pub open spec fn html_escaped(s: Seq<char>) -> Seq<char>
    decreases s.len(),
{
    if s.len() == 0 {
        Seq::empty()
    } else {
        html_char(s[0]) + html_escaped(s.drop_first())
    }
}

/// Escapes `value` for HTML text and quoted attributes.
pub fn escape_html(value: &str) -> (r: String)
    ensures
        r@ == html_escaped(value@),
{
    let v: Vec<char> = chars_of(value);
    let mut out: String = String::new();
    let mut i: usize = 0;
    assert(v@.skip(0) =~= value@);
    while i < v.len()
        invariant
            v@ == value@,
            i <= v@.len(),
            out@ + html_escaped(v@.skip(i as int)) == html_escaped(value@),
        decreases v.len() - i,
    {
        let ghost done = out@;
        let c: char = v[i];
        if c == '&' {
            out.append("&amp;");
        } else if c == '<' {
            out.append("&lt;");
        } else if c == '>' {
            out.append("&gt;");
        } else if c == '"' {
            out.append("&quot;");
        } else {
            out.push(c);
        }
        assert(v@.skip(i as int).drop_first() =~= v@.skip(i + 1));
        assert(out@ =~= done + html_char(c));
        assert(out@ + html_escaped(v@.skip(i + 1)) =~= done + (html_char(c) + html_escaped(
            v@.skip(i + 1),
        )));
        i = i + 1;
    }
    assert(v@.skip(i as int) =~= Seq::<char>::empty());
    assert(out@ =~= html_escaped(value@));
    out
}

/// Escaped HTML text can neither open or close a tag nor end a quoted
/// attribute: it holds no `<`, no `>` and no `"`.
pub proof fn law_html_escaped_is_inert(s: Seq<char>, i: int)
    requires
        0 <= i < html_escaped(s).len(),
    ensures
        html_escaped(s)[i] != '<',
        html_escaped(s)[i] != '>',
        html_escaped(s)[i] != '"',
    decreases s.len(),
{
    reveal_strlit("&amp;");
    reveal_strlit("&lt;");
    reveal_strlit("&gt;");
    reveal_strlit("&quot;");
    let head = html_char(s[0]);
    if i >= head.len() {
        law_html_escaped_is_inert(s.drop_first(), i - head.len());
    }
}

/// The text that HTML text with the four entities stands for.
pub open spec fn html_value(s: Seq<char>) -> Seq<char>
    decreases s.len(),
{
    if s.len() == 0 {
        Seq::empty()
    } else if s.len() >= 5 && text::begins_with(s, "&amp;"@) {
        seq!['&'] + html_value(s.skip(5))
    } else if s.len() >= 4 && text::begins_with(s, "&lt;"@) {
        seq!['<'] + html_value(s.skip(4))
    } else if s.len() >= 4 && text::begins_with(s, "&gt;"@) {
        seq!['>'] + html_value(s.skip(4))
    } else if s.len() >= 6 && text::begins_with(s, "&quot;"@) {
        seq!['"'] + html_value(s.skip(6))
    } else {
        seq![s[0]] + html_value(s.drop_first())
    }
}

/// Escaped HTML text stands for the text itself.
pub proof fn law_html_escaped_read_back(s: Seq<char>)
    ensures
        html_value(html_escaped(s)) == s,
    decreases s.len(),
{
    reveal_strlit("&amp;");
    reveal_strlit("&lt;");
    reveal_strlit("&gt;");
    reveal_strlit("&quot;");
    if s.len() > 0 {
        let c = s[0];
        let all = html_escaped(s);
        let rest = html_escaped(s.drop_first());
        law_html_escaped_read_back(s.drop_first());
        assert(all.skip(html_char(c).len() as int) =~= rest);
        assert(all.take(html_char(c).len() as int) =~= html_char(c));
        assert(all[0] == html_char(c)[0]);
        assert(all.len() >= 2 && html_char(c).len() >= 2 ==> all[1] == html_char(c)[1]);
        if c == '&' || c == '<' || c == '>' || c == '"' {
            assert(all.len() >= 5 && text::begins_with(all, "&amp;"@) ==> all[1] == 'a');
            assert(all.len() >= 4 && text::begins_with(all, "&lt;"@) ==> all[1] == 'l');
            assert(all.len() >= 4 && text::begins_with(all, "&gt;"@) ==> all[1] == 'g');
        } else {
            assert(all.len() >= 5 && text::begins_with(all, "&amp;"@) ==> all[0] == '&');
            assert(all.len() >= 4 && text::begins_with(all, "&lt;"@) ==> all[0] == '&');
            assert(all.len() >= 4 && text::begins_with(all, "&gt;"@) ==> all[0] == '&');
            assert(all.len() >= 6 && text::begins_with(all, "&quot;"@) ==> all[0] == '&');
            assert(all.drop_first() =~= rest);
        }
        assert(html_value(all) =~= seq![c] + s.drop_first());
        assert(seq![c] + s.drop_first() =~= s);
    }
}

// ---------------------------------------------------------------------------
// JSON
// ---------------------------------------------------------------------------

/// What stands for one character inside a JSON string. Control characters
/// other than line feed, carriage return and tab are left out.
pub open spec fn json_char(c: char) -> Seq<char> {
    if c == '\\' {
        "\\\\"@
    } else if c == '"' {
        "\\\""@
    } else if c == '\n' {
        "\\n"@
    } else if c == '\r' {
        "\\r"@
    } else if c == '\t' {
        "\\t"@
    } else if text::is_control(c) {
        Seq::empty()
    } else {
        seq![c]
    }
}

/// `s` with every character replaced by what stands for it in a JSON string.
pub open spec fn json_escaped(s: Seq<char>) -> Seq<char>
    decreases s.len(),
{
    if s.len() == 0 {
        Seq::empty()
    } else {
        json_char(s[0]) + json_escaped(s.drop_first())
    }
}

/// Escapes `value` for the inside of a JSON string.
pub fn escape_json(value: &str) -> (r: String)
    ensures
        r@ == json_escaped(value@),
{
    let v: Vec<char> = chars_of(value);
    let mut out: String = String::new();
    let mut i: usize = 0;
    assert(v@.skip(0) =~= value@);
    while i < v.len()
        invariant
            v@ == value@,
            i <= v@.len(),
            out@ + json_escaped(v@.skip(i as int)) == json_escaped(value@),
        decreases v.len() - i,
    {
        let ghost done = out@;
        let c: char = v[i];
        if c == '\\' {
            out.append("\\\\");
        } else if c == '"' {
            out.append("\\\"");
        } else if c == '\n' {
            out.append("\\n");
        } else if c == '\r' {
            out.append("\\r");
        } else if c == '\t' {
            out.append("\\t");
        } else if !char_is_control(c) {
            out.push(c);
        }
        assert(v@.skip(i as int).drop_first() =~= v@.skip(i + 1));
        assert(out@ =~= done + json_char(c));
        assert(out@ + json_escaped(v@.skip(i + 1)) =~= done + (json_char(c) + json_escaped(
            v@.skip(i + 1),
        )));
        i = i + 1;
    }
    assert(v@.skip(i as int) =~= Seq::<char>::empty());
    assert(out@ =~= json_escaped(value@));
    out
}

/// What the character after a backslash stands for in a JSON string, for the
/// two-character escapes of quotes, backslashes and white space.
pub open spec fn json_escape_value(c: char) -> Option<char> {
    if c == '\\' || c == '"' || c == '/' {
        Some(c)
    } else if c == 'n' {
        Some('\n')
    } else if c == 'r' {
        Some('\r')
    } else if c == 't' {
        Some('\t')
    } else {
        None
    }
}

/// The text that the inside of a JSON string stands for. There is none if a
/// quote or a control character below U+0020 stands in it unescaped, or an
/// escape that `json_escape_value` does not give a value.
pub open spec fn json_string_value(s: Seq<char>) -> Option<Seq<char>>
    decreases s.len(),
{
    if s.len() == 0 {
        Some(Seq::empty())
    } else if s[0] == '"' || (s[0] as u32) < 0x20 {
        None
    } else if s[0] == '\\' {
        if s.len() == 1 {
            None
        } else {
            match (json_escape_value(s[1]), json_string_value(s.skip(2))) {
                (Some(c), Some(rest)) => Some(seq![c] + rest),
                _ => None,
            }
        }
    } else {
        match json_string_value(s.drop_first()) {
            Some(rest) => Some(seq![s[0]] + rest),
            None => None,
        }
    }
}

/// `s` without the control characters other than line feed, carriage return
/// and tab.
pub open spec fn without_controls(s: Seq<char>) -> Seq<char>
    decreases s.len(),
{
    if s.len() == 0 {
        Seq::empty()
    } else if text::is_control(s[0]) && s[0] != '\n' && s[0] != '\r' && s[0] != '\t' {
        without_controls(s.drop_first())
    } else {
        seq![s[0]] + without_controls(s.drop_first())
    }
}

/// Escaped text is the inside of one JSON string, which stands for the text
/// itself, without control characters other than line feed, carriage return
/// and tab.
pub proof fn law_json_escaped_read_back(s: Seq<char>)
    ensures
        json_string_value(json_escaped(s)) == Some(without_controls(s)),
    decreases s.len(),
{
    reveal_strlit("\\\\");
    reveal_strlit("\\\"");
    reveal_strlit("\\n");
    reveal_strlit("\\r");
    reveal_strlit("\\t");
    if s.len() > 0 {
        let rest = json_escaped(s.drop_first());
        law_json_escaped_read_back(s.drop_first());
        let head = json_char(s[0]);
        if head.len() == 0 {
            assert(json_escaped(s) =~= rest);
        } else if head.len() == 1 {
            assert(json_escaped(s).drop_first() =~= rest);
        } else {
            assert(json_escaped(s).skip(2) =~= rest);
        }
    }
}

/// A text whose only control characters are line feeds is read from a JSON
/// string exactly as it is.
pub proof fn law_clean_text_in_json(s: Seq<char>)
    requires
        forall|i: int| 0 <= i < s.len() ==> !text::is_control(#[trigger] s[i]) || s[i] == '\n',
    ensures
        json_string_value(json_escaped(s)) == Some(s),
{
    law_json_escaped_read_back(s);
    lemma_without_controls_keeps(s);
}

proof fn lemma_without_controls_keeps(s: Seq<char>)
    requires
        forall|i: int| 0 <= i < s.len() ==> !text::is_control(#[trigger] s[i]) || s[i] == '\n',
    ensures
        without_controls(s) == s,
    decreases s.len(),
{
    if s.len() > 0 {
        let rest = s.drop_first();
        assert forall|i: int| 0 <= i < rest.len() implies !text::is_control(#[trigger] rest[i])
            || rest[i] == '\n' by {
            assert(rest[i] == s[i + 1]);
        }
        lemma_without_controls_keeps(rest);
        assert(!text::is_control(s[0]) || s[0] == '\n');
        assert(seq![s[0]] + rest =~= s);
    }
}

// ---------------------------------------------------------------------------
// Tab-separated lines
// ---------------------------------------------------------------------------

/// What stands for one character in a field of a stored line.
pub open spec fn tsv_char(c: char) -> Seq<char> {
    if c == '\\' {
        "\\\\"@
    } else if c == '\t' {
        "\\t"@
    } else if c == '\n' {
        "\\n"@
    } else if c == '\r' {
        Seq::empty()
    } else {
        seq![c]
    }
}

/// `s` with every character replaced by what stands for it in a field.
pub open spec fn tsv_escaped(s: Seq<char>) -> Seq<char>
    decreases s.len(),
{
    if s.len() == 0 {
        Seq::empty()
    } else {
        tsv_char(s[0]) + tsv_escaped(s.drop_first())
    }
}

/// What the character after a backslash stands for in a field.
pub open spec fn tsv_escape_value(c: char) -> char {
    if c == 't' {
        '\t'
    } else if c == 'n' {
        '\n'
    } else {
        c
    }
}

/// The text that a field stands for. A backslash at the very end is left out.
pub open spec fn tsv_unescaped(s: Seq<char>) -> Seq<char>
    decreases s.len(),
{
    if s.len() == 0 {
        Seq::empty()
    } else if s[0] != '\\' {
        seq![s[0]] + tsv_unescaped(s.drop_first())
    } else if s.len() == 1 {
        Seq::empty()
    } else {
        seq![tsv_escape_value(s[1])] + tsv_unescaped(s.skip(2))
    }
}

/// Escapes `value` for a field of a stored line.
pub fn escape_tsv(value: &str) -> (r: String)
    ensures
        r@ == tsv_escaped(value@),
{
    let v: Vec<char> = chars_of(value);
    let mut out: String = String::new();
    let mut i: usize = 0;
    assert(v@.skip(0) =~= value@);
    while i < v.len()
        invariant
            v@ == value@,
            i <= v@.len(),
            out@ + tsv_escaped(v@.skip(i as int)) == tsv_escaped(value@),
        decreases v.len() - i,
    {
        let ghost done = out@;
        let c: char = v[i];
        if c == '\\' {
            out.append("\\\\");
        } else if c == '\t' {
            out.append("\\t");
        } else if c == '\n' {
            out.append("\\n");
        } else if c != '\r' {
            out.push(c);
        }
        assert(v@.skip(i as int).drop_first() =~= v@.skip(i + 1));
        assert(out@ =~= done + tsv_char(c));
        assert(out@ + tsv_escaped(v@.skip(i + 1)) =~= done + (tsv_char(c) + tsv_escaped(
            v@.skip(i + 1),
        )));
        i = i + 1;
    }
    assert(v@.skip(i as int) =~= Seq::<char>::empty());
    assert(out@ =~= tsv_escaped(value@));
    out
}

/// Reads the text that a field stands for.
pub fn unescape_tsv(value: &str) -> (r: String)
    ensures
        r@ == tsv_unescaped(value@),
{
    let v: Vec<char> = chars_of(value);
    let mut out: String = String::new();
    let mut i: usize = 0;
    assert(v@.skip(0) =~= value@);
    while i < v.len()
        invariant
            v@ == value@,
            i <= v@.len(),
            out@ + tsv_unescaped(v@.skip(i as int)) == tsv_unescaped(value@),
        decreases v.len() - i,
    {
        let ghost done = out@;
        let ghost rest = v@.skip(i as int);
        if v[i] != '\\' {
            out.push(v[i]);
            assert(rest.drop_first() =~= v@.skip(i + 1));
            assert(out@ + tsv_unescaped(v@.skip(i + 1)) =~= done + tsv_unescaped(rest));
            i = i + 1;
        } else if i + 1 == v.len() {
            assert(out@ + Seq::<char>::empty() =~= done + tsv_unescaped(rest));
            i = i + 1;
            assert(v@.skip(i as int) =~= Seq::<char>::empty());
        } else {
            let c: char = v[i + 1];
            if c == 't' {
                out.push('\t');
            } else if c == 'n' {
                out.push('\n');
            } else {
                out.push(c);
            }
            assert(rest.skip(2) =~= v@.skip(i + 2));
            assert(out@ + tsv_unescaped(v@.skip(i + 2)) =~= done + tsv_unescaped(rest));
            i = i + 2;
        }
    }
    assert(v@.skip(i as int) =~= Seq::<char>::empty());
    assert(out@ =~= tsv_unescaped(value@));
    out
}

/// `s` without its carriage returns.
pub open spec fn without_cr(s: Seq<char>) -> Seq<char>
    decreases s.len(),
{
    if s.len() == 0 {
        Seq::empty()
    } else if s[0] == '\r' {
        without_cr(s.drop_first())
    } else {
        seq![s[0]] + without_cr(s.drop_first())
    }
}

/// What is escaped and read again is the text itself, without its carriage
/// returns.
pub proof fn law_tsv_read_back(s: Seq<char>)
    ensures
        tsv_unescaped(tsv_escaped(s)) == without_cr(s),
    decreases s.len(),
{
    reveal_strlit("\\\\");
    reveal_strlit("\\n");
    reveal_strlit("\\t");
    if s.len() > 0 {
        let rest = tsv_escaped(s.drop_first());
        law_tsv_read_back(s.drop_first());
        let head = tsv_char(s[0]);
        if head.len() == 0 {
            assert(tsv_escaped(s) =~= rest);
        } else if head.len() == 1 {
            assert(tsv_escaped(s).drop_first() =~= rest);
        } else {
            assert(tsv_escaped(s).skip(2) =~= rest);
        }
    }
}

/// A text without carriage returns is read again as it is.
pub proof fn law_without_cr_keeps(s: Seq<char>)
    requires
        !s.contains('\r'),
    ensures
        without_cr(s) == s,
    decreases s.len(),
{
    if s.len() > 0 {
        assert(s[0] != '\r');
        assert forall|i: int| 0 <= i < s.drop_first().len() implies s.drop_first()[i] != '\r' by {
            assert(s[i + 1] != '\r');
        }
        law_without_cr_keeps(s.drop_first());
        assert(seq![s[0]] + s.drop_first() =~= s);
    }
}

/// An escaped field holds no tab, no line feed and no carriage return, so it
/// can neither end its field nor its line.
pub proof fn law_tsv_escaped_stays_in_field(s: Seq<char>, i: int)
    requires
        0 <= i < tsv_escaped(s).len(),
    ensures
        tsv_escaped(s)[i] != '\t',
        tsv_escaped(s)[i] != '\n',
        tsv_escaped(s)[i] != '\r',
    decreases s.len(),
{
    reveal_strlit("\\\\");
    reveal_strlit("\\n");
    reveal_strlit("\\t");
    let head = tsv_char(s[0]);
    if i >= head.len() {
        law_tsv_escaped_stays_in_field(s.drop_first(), i - head.len());
    }
}

// ---------------------------------------------------------------------------
// What the escapes mean
// ---------------------------------------------------------------------------

/// Escaping for HTML goes character by character, and changes none but `&`, `<`,
/// `>` and `"`.
pub proof fn law_html_escaped_by_character(a: Seq<char>, b: Seq<char>)
    ensures
        html_escaped(a + b) == html_escaped(a) + html_escaped(b),
        !a.contains('&') && !a.contains('<') && !a.contains('>') && !a.contains('"')
            ==> html_escaped(a) == a,
    decreases a.len(),
{
    if a.len() == 0 {
        assert(a + b =~= b);
        assert(html_escaped(a) + html_escaped(b) =~= html_escaped(b));
        assert(html_escaped(a) =~= a);
    } else {
        let rest = a.drop_first();
        law_html_escaped_by_character(rest, b);
        assert((a + b).drop_first() =~= rest + b);
        assert(html_escaped(a + b) =~= html_escaped(a) + html_escaped(b));
        if !a.contains('&') && !a.contains('<') && !a.contains('>') && !a.contains('"') {
            assert(a.contains(a[0]));
            assert forall|i: int| 0 <= i < rest.len() implies a.contains(#[trigger] rest[i]) by {
                assert(rest[i] == a[i + 1]);
            }
            assert(html_escaped(a) =~= a);
        }
    }
}

/// In HTML, the four entities stand for the four characters, and any character
/// but `&` stands for itself.
pub proof fn law_html_entities(c: char, s: Seq<char>)
    requires
        c != '&',
    ensures
        html_value("&amp;"@ + s) == seq!['&'] + html_value(s),
        html_value("&lt;"@ + s) == seq!['<'] + html_value(s),
        html_value("&gt;"@ + s) == seq!['>'] + html_value(s),
        html_value("&quot;"@ + s) == seq!['"'] + html_value(s),
        html_value(seq![c] + s) == seq![c] + html_value(s),
        html_value(Seq::empty()) == Seq::<char>::empty(),
{
    reveal_strlit("&amp;");
    reveal_strlit("&lt;");
    reveal_strlit("&gt;");
    reveal_strlit("&quot;");
    let amp = "&amp;"@ + s;
    let lt = "&lt;"@ + s;
    let gt = "&gt;"@ + s;
    let quot = "&quot;"@ + s;
    let other = seq![c] + s;
    assert(amp.take(5) =~= "&amp;"@ && amp.skip(5) =~= s);
    assert(lt.take(4) =~= "&lt;"@ && lt.skip(4) =~= s);
    assert(gt.take(4) =~= "&gt;"@ && gt.skip(4) =~= s);
    assert(quot.take(6) =~= "&quot;"@ && quot.skip(6) =~= s);
    assert(other.drop_first() =~= s);
    lemma_entity_letter(lt);
    lemma_entity_letter(gt);
    lemma_entity_letter(quot);
    lemma_entity_letter(other);
}

proof fn lemma_entity_letter(s: Seq<char>)
    ensures
        text::begins_with(s, "&amp;"@) ==> s[0] == '&' && s[1] == 'a',
        text::begins_with(s, "&lt;"@) ==> s[0] == '&' && s[1] == 'l',
        text::begins_with(s, "&gt;"@) ==> s[0] == '&' && s[1] == 'g',
        text::begins_with(s, "&quot;"@) ==> s[0] == '&' && s[1] == 'q',
{
    reveal_strlit("&amp;");
    reveal_strlit("&lt;");
    reveal_strlit("&gt;");
    reveal_strlit("&quot;");
    assert(text::begins_with(s, "&amp;"@) ==> s[0] == s.take(5)[0] && s[1] == s.take(5)[1]);
    assert(text::begins_with(s, "&lt;"@) ==> s[0] == s.take(4)[0] && s[1] == s.take(4)[1]);
    assert(text::begins_with(s, "&gt;"@) ==> s[0] == s.take(4)[0] && s[1] == s.take(4)[1]);
    assert(text::begins_with(s, "&quot;"@) ==> s[0] == s.take(6)[0] && s[1] == s.take(6)[1]);
}

/// What is read back from a JSON string is the text without those control
/// characters that are neither line feed, carriage return nor tab: every other
/// character is there, in order.
pub proof fn law_json_keeps_all_but_controls(s: Seq<char>)
    ensures
        json_string_value(json_escaped(s)) == Some(
            s.filter(
                |c: char| !text::is_control(c) || c == '\n' || c == '\r' || c == '\t',
            ),
        ),
{
    law_json_escaped_read_back(s);
    lemma_without_controls_is_filter(s);
}

proof fn lemma_without_controls_is_filter(s: Seq<char>)
    ensures
        without_controls(s) == s.filter(
            |c: char| !text::is_control(c) || c == '\n' || c == '\r' || c == '\t',
        ),
    decreases s.len(),
{
    let p = |c: char| !text::is_control(c) || c == '\n' || c == '\r' || c == '\t';
    reveal(Seq::filter);
    if s.len() > 0 {
        let rest = s.drop_first();
        lemma_without_controls_is_filter(rest);
        Seq::filter_distributes_over_add(seq![s[0]], rest, p);
        assert(seq![s[0]] + rest =~= s);
        assert(seq![s[0]].drop_last() =~= Seq::<char>::empty());
        assert(Seq::<char>::empty().filter(p) =~= Seq::<char>::empty());
        assert(seq![s[0]].filter(p) =~= if p(s[0]) {
            seq![s[0]]
        } else {
            Seq::empty()
        });
        assert(without_controls(s) =~= s.filter(p));
    }
}

/// In a JSON string, a backslash with `n`, `r` or `t` stands for line feed,
/// carriage return or tab, one with a quote or a backslash for that character,
/// and any other character from U+0020 on for itself.
pub proof fn law_json_escapes(c: char, s: Seq<char>, value: Seq<char>)
    requires
        c != '"',
        c != '\\',
        c as u32 >= 0x20,
        json_string_value(s) == Some(value),
    ensures
        json_string_value("\\n"@ + s) == Some(seq!['\n'] + value),
        json_string_value("\\r"@ + s) == Some(seq!['\r'] + value),
        json_string_value("\\t"@ + s) == Some(seq!['\t'] + value),
        json_string_value("\\\""@ + s) == Some(seq!['"'] + value),
        json_string_value("\\\\"@ + s) == Some(seq!['\\'] + value),
        json_string_value(seq![c] + s) == Some(seq![c] + value),
        json_string_value(Seq::empty()) == Some(Seq::<char>::empty()),
        json_string_value(seq!['"'] + s) is None,
{
    reveal_strlit("\\\\");
    reveal_strlit("\\\"");
    reveal_strlit("\\n");
    reveal_strlit("\\r");
    reveal_strlit("\\t");
    assert(("\\n"@ + s).skip(2) =~= s);
    assert(("\\r"@ + s).skip(2) =~= s);
    assert(("\\t"@ + s).skip(2) =~= s);
    assert(("\\\""@ + s).skip(2) =~= s);
    assert(("\\\\"@ + s).skip(2) =~= s);
    assert((seq![c] + s).drop_first() =~= s);
}

/// What is read back from a stored field is the text without its carriage
/// returns: every other character is there, in order.
pub proof fn law_tsv_keeps_all_but_cr(s: Seq<char>)
    ensures
        tsv_unescaped(tsv_escaped(s)) == s.filter(|c: char| c != '\r'),
{
    law_tsv_read_back(s);
    lemma_without_cr_is_filter(s);
}

proof fn lemma_without_cr_is_filter(s: Seq<char>)
    ensures
        without_cr(s) == s.filter(|c: char| c != '\r'),
    decreases s.len(),
{
    let p = |c: char| c != '\r';
    reveal(Seq::filter);
    if s.len() > 0 {
        let rest = s.drop_first();
        lemma_without_cr_is_filter(rest);
        Seq::filter_distributes_over_add(seq![s[0]], rest, p);
        assert(seq![s[0]] + rest =~= s);
        assert(seq![s[0]].drop_last() =~= Seq::<char>::empty());
        assert(Seq::<char>::empty().filter(p) =~= Seq::<char>::empty());
        assert(without_cr(s) =~= s.filter(p));
    }
}

/// In a stored field, a backslash with `t` or `n` stands for a tab or a line
/// feed, one with any other character for that character, one at the end for
/// nothing, and every other character for itself.
pub proof fn law_tsv_escapes(c: char, s: Seq<char>)
    ensures
        tsv_unescaped("\\t"@ + s) == seq!['\t'] + tsv_unescaped(s),
        tsv_unescaped("\\n"@ + s) == seq!['\n'] + tsv_unescaped(s),
        c != 't' && c != 'n' ==> tsv_unescaped(seq!['\\', c] + s) == seq![c] + tsv_unescaped(s),
        c != '\\' ==> tsv_unescaped(seq![c] + s) == seq![c] + tsv_unescaped(s),
        tsv_unescaped(seq!['\\']) == Seq::<char>::empty(),
        tsv_unescaped(Seq::empty()) == Seq::<char>::empty(),
{
    reveal_strlit("\\n");
    reveal_strlit("\\t");
    assert(("\\t"@ + s).skip(2) =~= s);
    assert(("\\n"@ + s).skip(2) =~= s);
    assert((seq!['\\', c] + s).skip(2) =~= s);
    assert((seq![c] + s).drop_first() =~= s);
}

/// A text without tabs, line feeds, carriage returns and backslashes is stored as
/// it is.
pub proof fn law_plain_text_is_stored_as_it_is(s: Seq<char>)
    requires
        !s.contains('\t'),
        !s.contains('\n'),
        !s.contains('\r'),
        !s.contains('\\'),
    ensures
        tsv_escaped(s) == s,
    decreases s.len(),
{
    if s.len() > 0 {
        let rest = s.drop_first();
        assert(s.contains(s[0]));
        assert forall|i: int| 0 <= i < rest.len() implies s.contains(#[trigger] rest[i]) by {
            assert(rest[i] == s[i + 1]);
        }
        law_plain_text_is_stored_as_it_is(rest);
        assert(tsv_escaped(s) =~= s);
    }
}

} // verus!
