//! Characters and text: classes of characters, trimming, splitting, comparing.
//!
//! Texts are modelled as `Seq<char>`.

use vstd::prelude::*;

verus! {

/// `String::push` of the standard library: the character is added at the end,
/// and nothing else changes.
pub assume_specification[ String::push ](s: &mut String, c: char)
    ensures
        final(s)@ == old(s)@.push(c),
;

// ---------------------------------------------------------------------------
// Classes of characters
// ---------------------------------------------------------------------------

/// The characters with the Unicode property `White_Space`.
pub open spec fn is_space(c: char) -> bool {
    ||| 0x9 <= c as u32 <= 0xd
    ||| c as u32 == 0x20
    ||| c as u32 == 0x85
    ||| c as u32 == 0xa0
    ||| c as u32 == 0x1680
    ||| 0x2000 <= c as u32 <= 0x200a
    ||| c as u32 == 0x2028
    ||| c as u32 == 0x2029
    ||| c as u32 == 0x202f
    ||| c as u32 == 0x205f
    ||| c as u32 == 0x3000
}

/// The control characters, Unicode's general category `Cc`.
pub open spec fn is_control(c: char) -> bool {
    c as u32 <= 0x1f || 0x7f <= c as u32 <= 0x9f
}

/// Tells whether `c` is white space.
pub fn char_is_space(c: char) -> (r: bool)
    ensures
        r == is_space(c),
{
    let u: u32 = c as u32;
    (0x9 <= u && u <= 0xd) || u == 0x20 || u == 0x85 || u == 0xa0 || u == 0x1680 || (0x2000 <= u
        && u <= 0x200a) || u == 0x2028 || u == 0x2029 || u == 0x202f || u == 0x205f || u == 0x3000
}

/// Tells whether `c` is a control character.
pub fn char_is_control(c: char) -> (r: bool)
    ensures
        r == is_control(c),
{
    let u: u32 = c as u32;
    u <= 0x1f || (0x7f <= u && u <= 0x9f)
}

// ---------------------------------------------------------------------------
// Between strings and vectors of characters
// ---------------------------------------------------------------------------

/// The characters of a string, in order.
pub fn chars_of(s: &str) -> (r: Vec<char>)
    ensures
        r@ == s@,
{
    let mut v: Vec<char> = Vec::new();
    for c in it: s.chars()
        invariant
            it.seq() == s@,
            v@ == s@.take(it.index()),
    {
        v.push(c);
    }
    v
}

/// Adds the characters of `v` from position `from` up to, not including, `to`.
pub fn push_range(out: &mut String, v: &Vec<char>, from: usize, to: usize)
    requires
        from <= to <= v@.len(),
    ensures
        final(out)@ == old(out)@ + v@.subrange(from as int, to as int),
{
    let ghost before = out@;
    let mut i: usize = from;
    while i < to
        invariant
            from <= i <= to <= v@.len(),
            out@ == before + v@.subrange(from as int, i as int),
        decreases to - i,
    {
        out.push(v[i]);
        i = i + 1;
    }
}

/// The string made of the characters of `v` from `from` up to, not including, `to`.
pub fn string_range(v: &Vec<char>, from: usize, to: usize) -> (r: String)
    requires
        from <= to <= v@.len(),
    ensures
        r@ == v@.subrange(from as int, to as int),
{
    let mut out: String = String::new();
    push_range(&mut out, v, from, to);
    out
}

/// Tells whether two strings hold the same characters.
pub fn same_text(a: &str, b: &str) -> (r: bool)
    ensures
        r == (a@ == b@),
{
    let x: Vec<char> = chars_of(a);
    let y: Vec<char> = chars_of(b);
    if x.len() != y.len() {
        return false;
    }
    let mut i: usize = 0;
    while i < x.len()
        invariant
            x@ == a@,
            y@ == b@,
            x@.len() == y@.len(),
            i <= x@.len(),
            forall|j: int| 0 <= j < i ==> x@[j] == y@[j],
        decreases x.len() - i,
    {
        if x[i] != y[i] {
            assert(a@[i as int] != b@[i as int]);
            return false;
        }
        i = i + 1;
    }
    assert(a@ =~= b@);
    true
}

// ---------------------------------------------------------------------------
// Trimming
// ---------------------------------------------------------------------------

/// `s` without the white space at its start.
pub open spec fn trimmed_start(s: Seq<char>) -> Seq<char>
    decreases s.len(),
{
    if s.len() > 0 && is_space(s[0]) {
        trimmed_start(s.drop_first())
    } else {
        s
    }
}

/// `s` without the white space at its end.
pub open spec fn trimmed_end(s: Seq<char>) -> Seq<char>
    decreases s.len(),
{
    if s.len() > 0 && is_space(s.last()) {
        trimmed_end(s.drop_last())
    } else {
        s
    }
}

/// `s` without the white space at either end.
pub open spec fn trimmed(s: Seq<char>) -> Seq<char> {
    trimmed_end(trimmed_start(s))
}

/// The position at which `v` starts, from `from` on, once white space is skipped.
pub fn skip_space(v: &Vec<char>, from: usize) -> (start: usize)
    requires
        from <= v@.len(),
    ensures
        from <= start <= v@.len(),
        v@.skip(start as int) == trimmed_start(v@.skip(from as int)),
{
    let mut i: usize = from;
    while i < v.len() && char_is_space(v[i])
        invariant
            from <= i <= v@.len(),
            trimmed_start(v@.skip(i as int)) == trimmed_start(v@.skip(from as int)),
        decreases v.len() - i,
    {
        assert(v@.skip(i as int).drop_first() =~= v@.skip(i + 1));
        i = i + 1;
    }
    i
}

/// Where `v`, from `from` on, ends once white space at the end is left out.
pub fn space_end(v: &Vec<char>, from: usize) -> (end: usize)
    requires
        from <= v@.len(),
    ensures
        from <= end <= v@.len(),
        v@.subrange(from as int, end as int) == trimmed_end(v@.skip(from as int)),
{
    let mut i: usize = v.len();
    assert(v@.subrange(from as int, i as int) =~= v@.skip(from as int));
    while i > from && char_is_space(v[i - 1])
        invariant
            from <= i <= v@.len(),
            trimmed_end(v@.subrange(from as int, i as int)) == trimmed_end(v@.skip(from as int)),
        decreases i,
    {
        assert(v@.subrange(from as int, i as int).drop_last() =~= v@.subrange(
            from as int,
            i - 1,
        ));
        i = i - 1;
    }
    i
}

/// `s` without the white space at either end.
pub fn trim(s: &str) -> (r: String)
    ensures
        r@ == trimmed(s@),
{
    let v: Vec<char> = chars_of(s);
    let from: usize = skip_space(&v, 0);
    assert(v@.skip(0) =~= s@);
    let to: usize = space_end(&v, from);
    string_range(&v, from, to)
}

/// `s` without the white space at its end.
pub fn trim_end(s: &str) -> (r: String)
    ensures
        r@ == trimmed_end(s@),
{
    let v: Vec<char> = chars_of(s);
    assert(v@.skip(0) =~= s@);
    let to: usize = space_end(&v, 0);
    string_range(&v, 0, to)
}

/// Tells whether `s` holds nothing but white space.
pub fn is_blank(s: &str) -> (r: bool)
    ensures
        r == (trimmed(s@).len() == 0),
{
    trim(s).as_str().is_empty()
}

// ---------------------------------------------------------------------------
// Finding, splitting, prefixes
// ---------------------------------------------------------------------------

/// The position of the first `c` in `s`, or the length of `s` if there is none.
pub open spec fn find(s: Seq<char>, c: char) -> int
    decreases s.len(),
{
    if s.len() == 0 || s[0] == c {
        0
    } else {
        1 + find(s.drop_first(), c)
    }
}

/// What `find` gives: every earlier character differs from `c`.
pub proof fn lemma_find(s: Seq<char>, c: char)
    ensures
        0 <= find(s, c) <= s.len(),
        find(s, c) < s.len() ==> s[find(s, c)] == c,
        forall|j: int| 0 <= j < find(s, c) ==> s[j] != c,
    decreases s.len(),
{
    if s.len() > 0 && s[0] != c {
        let rest = s.drop_first();
        lemma_find(rest, c);
        assert forall|j: int| 0 <= j < find(s, c) implies s[j] != c by {
            if j > 0 {
                assert(rest[j - 1] == s[j]);
            }
        }
    }
}

/// A position is the one `find` gives if `c` stands there and nowhere before.
pub proof fn lemma_find_is(s: Seq<char>, c: char, i: int)
    requires
        0 <= i <= s.len(),
        i < s.len() ==> s[i] == c,
        forall|j: int| 0 <= j < i ==> s[j] != c,
    ensures
        find(s, c) == i,
{
    lemma_find(s, c);
    let k = find(s, c);
    if k < i {
        assert(s[k] == c);
    }
    if i < k {
        assert(s[i] != c);
    }
}

/// The part of `s` before the first `c`; all of `s` if there is none.
pub open spec fn before(s: Seq<char>, c: char) -> Seq<char> {
    s.take(find(s, c))
}

/// The part of `s` after the first `c`; nothing if there is none.
pub open spec fn after(s: Seq<char>, c: char) -> Seq<char> {
    if find(s, c) < s.len() {
        s.skip(find(s, c) + 1)
    } else {
        Seq::empty()
    }
}

/// The parts of `s` between the occurrences of `c`: one more than there are
/// occurrences, some perhaps empty.
pub open spec fn split(s: Seq<char>, c: char) -> Seq<Seq<char>>
    decreases s.len(),
{
    proof {
        lemma_find(s, c);
    }
    if find(s, c) < s.len() {
        seq![before(s, c)] + split(after(s, c), c)
    } else {
        seq![s]
    }
}

/// The first position from `from` on at which `c` stands in `v`.
pub fn find_from(v: &Vec<char>, c: char, from: usize) -> (i: usize)
    requires
        from <= v@.len(),
    ensures
        from <= i <= v@.len(),
        i - from == find(v@.skip(from as int), c),
{
    let mut i: usize = from;
    while i < v.len() && v[i] != c
        invariant
            from <= i <= v@.len(),
            forall|j: int| from <= j < i ==> v@[j] != c,
        decreases v.len() - i,
    {
        i = i + 1;
    }
    proof {
        lemma_find_is(v@.skip(from as int), c, i - from);
    }
    i
}

/// The part of `s` before the first `c`; all of `s` if there is none.
pub fn text_before(s: &str, c: char) -> (r: String)
    ensures
        r@ == before(s@, c),
{
    let v: Vec<char> = chars_of(s);
    assert(v@.skip(0) =~= s@);
    let i: usize = find_from(&v, c, 0);
    string_range(&v, 0, i)
}

/// The part of `s` after the first `c`; empty if there is none.
pub fn text_after(s: &str, c: char) -> (r: String)
    ensures
        r@ == after(s@, c),
{
    let v: Vec<char> = chars_of(s);
    assert(v@.skip(0) =~= s@);
    let i: usize = find_from(&v, c, 0);
    if i < v.len() {
        string_range(&v, i + 1, v.len())
    } else {
        String::new()
    }
}

/// The views of a sequence of strings.
pub open spec fn texts(strings: Seq<String>) -> Seq<Seq<char>> {
    Seq::new(strings.len(), |i: int| strings[i]@)
}

/// The parts of `s` between the occurrences of `c`.
pub fn split_text(s: &str, c: char) -> (r: Vec<String>)
    ensures
        texts(r@) == split(s@, c),
{
    let v: Vec<char> = chars_of(s);
    let mut parts: Vec<String> = Vec::new();
    let mut from: usize = 0;
    assert(v@.skip(0) =~= s@);
    assert(texts(parts@) + split(s@, c) =~= split(s@, c));
    loop
        invariant
            v@ == s@,
            from <= v@.len(),
            texts(parts@) + split(v@.skip(from as int), c) == split(s@, c),
        decreases v.len() - from,
    {
        let ghost rest = v@.skip(from as int);
        let ghost done = texts(parts@);
        let i: usize = find_from(&v, c, from);
        let part: String = string_range(&v, from, i);
        parts.push(part);
        assert(texts(parts@) =~= done.push(part@));
        if i == v.len() {
            assert(part@ =~= rest);
            assert(texts(parts@) =~= done + split(rest, c));
            return parts;
        }
        assert(part@ =~= before(rest, c));
        assert(after(rest, c) =~= v@.skip(i + 1));
        assert(texts(parts@) + split(v@.skip(i + 1), c) =~= done + split(rest, c));
        from = i + 1;
    }
}

/// Splitting two texts joined by `c` gives the parts of the one, then those of
/// the other.
pub proof fn lemma_split_join(a: Seq<char>, b: Seq<char>, c: char)
    ensures
        split(a + seq![c] + b, c) == split(a, c) + split(b, c),
    decreases a.len(),
{
    let s = a + seq![c] + b;
    lemma_find(a, c);
    let i = find(a, c);
    assert forall|j: int| 0 <= j < i implies s[j] != c by {
        assert(a[j] != c);
    }
    assert(s[i] == c);
    lemma_find_is(s, c, i);
    if i < a.len() {
        let rest = after(a, c);
        assert(before(s, c) =~= before(a, c));
        assert(after(s, c) =~= rest + seq![c] + b);
        lemma_split_join(rest, b, c);
    } else {
        assert(before(s, c) =~= a);
        assert(after(s, c) =~= b);
    }
    assert(split(s, c) =~= split(a, c) + split(b, c));
}

/// Tells whether `s` begins with `prefix`.
pub open spec fn begins_with(s: Seq<char>, prefix: Seq<char>) -> bool {
    s.len() >= prefix.len() && s.take(prefix.len() as int) == prefix
}

/// Tells whether `s` begins with `prefix`.
pub fn text_begins_with(s: &str, prefix: &str) -> (r: bool)
    ensures
        r == begins_with(s@, prefix@),
{
    strip_text(s, prefix).is_some()
}

/// What follows `prefix` in `s`, if `s` begins with it.
pub fn strip_text(s: &str, prefix: &str) -> (r: Option<String>)
    ensures
        r is Some <==> begins_with(s@, prefix@),
        r matches Some(rest) ==> rest@ == s@.skip(prefix@.len() as int),
{
    let v: Vec<char> = chars_of(s);
    let p: Vec<char> = chars_of(prefix);
    if v.len() < p.len() {
        return None;
    }
    let mut i: usize = 0;
    while i < p.len()
        invariant
            v@ == s@,
            p@ == prefix@,
            p@.len() <= v@.len(),
            i <= p@.len(),
            forall|j: int| 0 <= j < i ==> v@[j] == p@[j],
        decreases p.len() - i,
    {
        if v[i] != p[i] {
            assert(s@.take(prefix@.len() as int)[i as int] != prefix@[i as int]);
            return None;
        }
        i = i + 1;
    }
    assert(s@.take(prefix@.len() as int) =~= prefix@);
    Some(string_range(&v, p.len(), v.len()))
}

// ---------------------------------------------------------------------------
// Words and lines
// ---------------------------------------------------------------------------

/// The position of the first white space in `s`, or the length of `s` if there is none.
pub open spec fn find_space(s: Seq<char>) -> int
    decreases s.len(),
{
    if s.len() == 0 || is_space(s[0]) {
        0
    } else {
        1 + find_space(s.drop_first())
    }
}

/// The first word of `s`: what stands between white space; empty if `s` has no word.
pub open spec fn first_word(s: Seq<char>) -> Seq<char> {
    trimmed_start(s).take(find_space(trimmed_start(s)))
}

/// What follows the first word of `s`.
pub open spec fn after_first_word(s: Seq<char>) -> Seq<char> {
    trimmed_start(s).skip(find_space(trimmed_start(s)))
}

/// The first two words of `s`; each is empty if there is no such word.
pub fn two_words(s: &str) -> (r: (String, String))
    ensures
        r.0@ == first_word(s@),
        r.1@ == first_word(after_first_word(s@)),
{
    let v: Vec<char> = chars_of(s);
    assert(v@.skip(0) =~= s@);
    let a: usize = skip_space(&v, 0);
    let b: usize = find_space_from(&v, a);
    assert(v@.subrange(a as int, b as int) =~= first_word(s@));
    assert(v@.skip(b as int) =~= after_first_word(s@));
    let c: usize = skip_space(&v, b);
    let d: usize = find_space_from(&v, c);
    assert(v@.subrange(c as int, d as int) =~= first_word(after_first_word(s@)));
    (string_range(&v, a, b), string_range(&v, c, d))
}

/// The first position from `from` on at which white space stands in `v`.
fn find_space_from(v: &Vec<char>, from: usize) -> (i: usize)
    requires
        from <= v@.len(),
    ensures
        from <= i <= v@.len(),
        i - from == find_space(v@.skip(from as int)),
{
    let mut i: usize = from;
    while i < v.len() && !char_is_space(v[i])
        invariant
            from <= i <= v@.len(),
            i - from + find_space(v@.skip(i as int)) == find_space(v@.skip(from as int)),
        decreases v.len() - i,
    {
        assert(v@.skip(i as int).drop_first() =~= v@.skip(i + 1));
        i = i + 1;
    }
    i
}

/// `s` without one carriage return at its end.
pub open spec fn without_final_cr(s: Seq<char>) -> Seq<char> {
    if s.len() > 0 && s.last() == '\r' {
        s.drop_last()
    } else {
        s
    }
}

/// The lines of `s`. A line ends at a line feed, or at a carriage return followed
/// by a line feed; the ending of the last line may be missing.
pub open spec fn lines(s: Seq<char>) -> Seq<Seq<char>>
    decreases s.len(),
{
    proof {
        lemma_find(s, '\n');
    }
    if s.len() == 0 {
        Seq::empty()
    } else if find(s, '\n') < s.len() {
        seq![without_final_cr(before(s, '\n'))] + lines(after(s, '\n'))
    } else {
        seq![s]
    }
}

/// The lines of `s`.
pub fn lines_of(s: &str) -> (r: Vec<String>)
    ensures
        texts(r@) == lines(s@),
{
    let v: Vec<char> = chars_of(s);
    let mut out: Vec<String> = Vec::new();
    let mut from: usize = 0;
    assert(v@.skip(0) =~= s@);
    assert(texts(out@) + lines(s@) =~= lines(s@));
    while from < v.len()
        invariant
            v@ == s@,
            from <= v@.len(),
            texts(out@) + lines(v@.skip(from as int)) == lines(s@),
        decreases v.len() - from,
    {
        let ghost rest = v@.skip(from as int);
        let ghost done = texts(out@);
        let i: usize = find_from(&v, '\n', from);
        if i == v.len() {
            let line: String = string_range(&v, from, i);
            out.push(line);
            assert(line@ =~= rest);
            assert(texts(out@) =~= done + lines(rest));
            return out;
        }
        let end: usize = if i > from && v[i - 1] == '\r' {
            i - 1
        } else {
            i
        };
        let line: String = string_range(&v, from, end);
        out.push(line);
        assert(line@ =~= without_final_cr(before(rest, '\n')));
        assert(texts(out@) =~= done.push(line@));
        assert(after(rest, '\n') =~= v@.skip(i + 1));
        assert(texts(out@) + lines(v@.skip(i + 1)) =~= done + lines(rest));
        from = i + 1;
    }
    assert(texts(out@) =~= lines(s@));
    out
}

/// Lines do not run across a text that ends with a line feed: the lines of such
/// a text followed by another are the lines of the one, then those of the other.
pub proof fn lemma_lines_concat(a: Seq<char>, b: Seq<char>)
    requires
        a.len() == 0 || a.last() == '\n',
    ensures
        lines(a + b) == lines(a) + lines(b),
    decreases a.len(),
{
    if a.len() == 0 {
        assert(a + b =~= b);
        assert(lines(a) + lines(b) =~= lines(b));
    } else {
        lemma_find(a, '\n');
        let i = find(a, '\n');
        assert(i < a.len());
        assert forall|j: int| 0 <= j < i implies (a + b)[j] != '\n' by {
            assert(a[j] != '\n');
        }
        lemma_find_is(a + b, '\n', i);
        let rest = after(a, '\n');
        assert(before(a + b, '\n') =~= before(a, '\n'));
        assert(after(a + b, '\n') =~= rest + b);
        lemma_lines_concat(rest, b);
        assert(lines(a + b) =~= lines(a) + lines(b));
    }
}

// ---------------------------------------------------------------------------
// Laws
// ---------------------------------------------------------------------------

/// Tells whether `s` holds nothing but white space.
pub open spec fn all_space(s: Seq<char>) -> bool {
    forall|i: int| 0 <= i < s.len() ==> is_space(#[trigger] s[i])
}

/// Tells whether `s` holds no white space.
pub open spec fn no_space(s: Seq<char>) -> bool {
    forall|i: int| 0 <= i < s.len() ==> !is_space(#[trigger] s[i])
}

/// White space at the start is taken away, and nothing else.
pub proof fn law_trimmed_start(a: Seq<char>, s: Seq<char>)
    requires
        all_space(a),
        s.len() > 0 ==> !is_space(s[0]),
    ensures
        trimmed_start(a + s) == s,
    decreases a.len(),
{
    if a.len() == 0 {
        assert(a + s =~= s);
    } else {
        assert(is_space(a[0]));
        let rest = a.drop_first();
        assert forall|i: int| 0 <= i < rest.len() implies is_space(#[trigger] rest[i]) by {
            assert(rest[i] == a[i + 1]);
        }
        assert((a + s).drop_first() =~= rest + s);
        law_trimmed_start(rest, s);
    }
}

/// White space at the end is taken away, and nothing else.
pub proof fn law_trimmed_end(s: Seq<char>, b: Seq<char>)
    requires
        all_space(b),
        s.len() > 0 ==> !is_space(s.last()),
    ensures
        trimmed_end(s + b) == s,
    decreases b.len(),
{
    if b.len() == 0 {
        assert(s + b =~= s);
    } else {
        assert(is_space(b[b.len() - 1]));
        let rest = b.drop_last();
        assert forall|i: int| 0 <= i < rest.len() implies is_space(#[trigger] rest[i]) by {
            assert(rest[i] == b[i]);
        }
        assert((s + b).drop_last() =~= s + rest);
        law_trimmed_end(s, rest);
    }
}

/// Trimming gives what stands between the white space at either end, whatever
/// it holds inside.
pub proof fn law_trimmed(a: Seq<char>, s: Seq<char>, b: Seq<char>)
    requires
        all_space(a),
        all_space(b),
        s.len() > 0 ==> !is_space(s[0]) && !is_space(s.last()),
    ensures
        trimmed(a + s + b) == s,
{
    if s.len() == 0 {
        let all = a + s + b;
        assert forall|i: int| 0 <= i < all.len() implies is_space(#[trigger] all[i]) by {
            if i < a.len() {
                assert(all[i] == a[i]);
            } else {
                assert(all[i] == b[i - a.len()]);
            }
        }
        assert(all + s =~= all);
        law_trimmed_start(all, s);
    } else {
        assert(a + s + b =~= a + (s + b));
        law_trimmed_start(a, s + b);
        law_trimmed_end(s, b);
    }
}

/// A text is blank exactly if it holds nothing but white space.
pub proof fn law_blank(s: Seq<char>)
    ensures
        trimmed(s).len() == 0 <==> all_space(s),
    decreases s.len(),
{
    if all_space(s) {
        let none = Seq::<char>::empty();
        assert(s + none + none =~= s);
        law_trimmed(s, none, none);
    } else if is_space(s[0]) {
        let rest = s.drop_first();
        if all_space(rest) {
            assert forall|i: int| 0 <= i < s.len() implies is_space(#[trigger] s[i]) by {
                if i > 0 {
                    assert(s[i] == rest[i - 1]);
                }
            }
        }
        law_blank(rest);
    } else {
        lemma_trimmed_end_keeps_first(s);
    }
}

proof fn lemma_trimmed_end_keeps_first(s: Seq<char>)
    requires
        s.len() > 0,
        !is_space(s[0]),
    ensures
        trimmed_end(s).len() > 0,
    decreases s.len(),
{
    if is_space(s.last()) {
        lemma_trimmed_end_keeps_first(s.drop_last());
    }
}

/// The first `c` parts a text in two; a text without it is all before it.
pub proof fn law_first_parts(a: Seq<char>, c: char, b: Seq<char>)
    requires
        !a.contains(c),
    ensures
        before(a + seq![c] + b, c) == a,
        after(a + seq![c] + b, c) == b,
        before(a, c) == a,
        after(a, c) == Seq::<char>::empty(),
{
    let s = a + seq![c] + b;
    assert forall|j: int| 0 <= j < a.len() implies s[j] != c && a[j] != c by {
        assert(a.contains(a[j]));
        assert(s[j] == a[j]);
    }
    lemma_find_is(s, c, a.len() as int);
    lemma_find_is(a, c, a.len() as int);
    assert(before(s, c) =~= a);
    assert(after(s, c) =~= b);
    assert(before(a, c) =~= a);
}

/// The parts, with `c` between each and the next.
pub open spec fn joined(parts: Seq<Seq<char>>, c: char) -> Seq<char>
    decreases parts.len(),
{
    if parts.len() == 0 {
        Seq::empty()
    } else if parts.len() == 1 {
        parts[0]
    } else {
        parts[0] + seq![c] + joined(parts.drop_first(), c)
    }
}

/// Splitting undoes joining: any parts that do not hold `c` are found again,
/// all of them and in order.
pub proof fn law_split_undoes_join(parts: Seq<Seq<char>>, c: char)
    requires
        parts.len() > 0,
        forall|i: int| 0 <= i < parts.len() ==> !(#[trigger] parts[i]).contains(c),
    ensures
        split(joined(parts, c), c) == parts,
    decreases parts.len(),
{
    let s = joined(parts, c);
    assert(!parts[0].contains(c));
    if parts.len() == 1 {
        law_first_parts(parts[0], c, Seq::empty());
        lemma_find(s, c);
        assert(find(s, c) == s.len()) by {
            if find(s, c) < s.len() {
                assert(s.contains(s[find(s, c)]));
            }
        }
        assert(split(s, c) =~= parts);
    } else {
        let rest = parts.drop_first();
        assert forall|i: int| 0 <= i < rest.len() implies !(#[trigger] rest[i]).contains(c) by {
            assert(rest[i] == parts[i + 1]);
        }
        law_split_undoes_join(rest, c);
        law_first_parts(parts[0], c, joined(rest, c));
        lemma_find(s, c);
        assert(s[parts[0].len() as int] == c);
        assert(find(s, c) < s.len());
        assert(split(s, c) =~= parts);
    }
}

/// A text begins with another exactly if it is that one followed by something.
pub proof fn law_begins_with(prefix: Seq<char>, rest: Seq<char>, s: Seq<char>)
    ensures
        begins_with(prefix + rest, prefix),
        begins_with(s, prefix) ==> s == prefix + s.skip(prefix.len() as int),
{
    assert((prefix + rest).take(prefix.len() as int) =~= prefix);
    if begins_with(s, prefix) {
        assert(s =~= s.take(prefix.len() as int) + s.skip(prefix.len() as int));
    }
}

proof fn lemma_find_space(w: Seq<char>, rest: Seq<char>)
    requires
        no_space(w),
        rest.len() > 0 ==> is_space(rest[0]),
    ensures
        find_space(w + rest) == w.len(),
    decreases w.len(),
{
    if w.len() == 0 {
        assert(w + rest =~= rest);
    } else {
        assert(!is_space(w[0]));
        let tail = w.drop_first();
        assert forall|i: int| 0 <= i < tail.len() implies !is_space(#[trigger] tail[i]) by {
            assert(tail[i] == w[i + 1]);
        }
        assert((w + rest).drop_first() =~= tail + rest);
        lemma_find_space(tail, rest);
    }
}

/// The first word is what stands, after any white space, up to the next white
/// space or the end. White space alone has no word.
pub proof fn law_first_word(a: Seq<char>, word: Seq<char>, rest: Seq<char>)
    requires
        all_space(a),
        no_space(word),
        word.len() > 0,
        rest.len() > 0 ==> is_space(rest[0]),
    ensures
        first_word(a + word + rest) == word,
        after_first_word(a + word + rest) == rest,
        first_word(a).len() == 0,
{
    assert(!is_space(word[0]));
    assert(a + word + rest =~= a + (word + rest));
    law_trimmed_start(a, word + rest);
    lemma_find_space(word, rest);
    assert((word + rest).take(word.len() as int) =~= word);
    assert((word + rest).skip(word.len() as int) =~= rest);
    let none = Seq::<char>::empty();
    assert(a + none =~= a);
    law_trimmed_start(a, none);
    assert(first_word(a) =~= none);
}

/// A line ends at a line feed, or at a carriage return and a line feed, which do
/// not belong to it; what follows are further lines. Without either, a text is
/// one line, and an empty text has none.
pub proof fn law_lines(line: Seq<char>, rest: Seq<char>)
    requires
        !line.contains('\n'),
    ensures
        line.len() == 0 || line.last() != '\r' ==> lines(line + seq!['\n'] + rest) == seq![line]
            + lines(rest),
        lines(line + seq!['\r', '\n'] + rest) == seq![line] + lines(rest),
        line.len() > 0 ==> lines(line) == seq![line],
        lines(Seq::empty()) == Seq::<Seq<char>>::empty(),
{
    law_first_parts(line, '\n', rest);
    let s = line + seq!['\n'] + rest;
    lemma_find(s, '\n');
    assert(s[line.len() as int] == '\n');
    let cr = line.push('\r');
    let t = line + seq!['\r', '\n'] + rest;
    assert forall|i: int| 0 <= i < cr.len() implies cr[i] != '\n' by {
        if i < line.len() {
            assert(line.contains(line[i]));
        }
    }
    assert(t =~= cr + seq!['\n'] + rest);
    law_first_parts(cr, '\n', rest);
    lemma_find(t, '\n');
    assert(t[cr.len() as int] == '\n');
    assert(cr.drop_last() =~= line);
    lemma_find(line, '\n');
    assert(find(line, '\n') == line.len()) by {
        if find(line, '\n') < line.len() {
            assert(line.contains(line[find(line, '\n')]));
        }
    }
}

// ---------------------------------------------------------------------------
// Reading what stands behind a mark
// ---------------------------------------------------------------------------

/// The first position at which `mark` stands in `s`, or the length of `s` if it
/// stands nowhere.
pub open spec fn find_text(s: Seq<char>, mark: Seq<char>) -> int
    decreases s.len(),
{
    if s.len() == 0 || begins_with(s, mark) {
        0
    } else {
        1 + find_text(s.drop_first(), mark)
    }
}

/// What stands in `s` before the first `mark`.
pub open spec fn before_text(s: Seq<char>, mark: Seq<char>) -> Seq<char> {
    s.take(find_text(s, mark))
}

/// What stands in `s` after the first `mark`; nothing if there is none.
pub open spec fn after_text(s: Seq<char>, mark: Seq<char>) -> Seq<char> {
    if find_text(s, mark) + mark.len() <= s.len() {
        s.skip(find_text(s, mark) + mark.len())
    } else {
        Seq::empty()
    }
}

/// Tells whether no `mark` begins in `t`, whatever follows: wherever the first
/// character of `mark` stands in `t`, the second, the third or the one at `d` is
/// another, still in `t`.
pub open spec fn apart(t: Seq<char>, mark: Seq<char>, d: int) -> bool {
    forall|i: int|
        0 <= i < t.len() && #[trigger] t[i] == mark[0] ==> {
            ||| i + 1 < t.len() && t[i + 1] != mark[1]
            ||| i + 2 < t.len() && t[i + 2] != mark[2]
            ||| i + d < t.len() && t[i + d] != mark[d]
        }
}

/// Texts that are apart from a mark are so together.
pub proof fn lemma_apart_concat(a: Seq<char>, b: Seq<char>, mark: Seq<char>, d: int)
    requires
        apart(a, mark, d),
        apart(b, mark, d),
        d >= 0,
    ensures
        apart(a + b, mark, d),
{
    let t = a + b;
    assert forall|i: int| 0 <= i < t.len() && #[trigger] t[i] == mark[0] implies {
        ||| i + 1 < t.len() && t[i + 1] != mark[1]
        ||| i + 2 < t.len() && t[i + 2] != mark[2]
        ||| i + d < t.len() && t[i + d] != mark[d]
    } by {
        if i < a.len() {
            assert(a[i] == mark[0]);
        } else {
            let j = i - a.len();
            assert(b[j] == mark[0]);
        }
    }
}

/// The first mark stands behind a text that is apart from it.
pub proof fn lemma_find_text(a: Seq<char>, mark: Seq<char>, b: Seq<char>, d: int)
    requires
        mark.len() > 2,
        0 <= d < mark.len(),
        apart(a, mark, d),
    ensures
        find_text(a + mark + b, mark) == a.len(),
        before_text(a + mark + b, mark) == a,
        after_text(a + mark + b, mark) == b,
    decreases a.len(),
{
    let s = a + mark + b;
    if a.len() == 0 {
        assert(s.take(mark.len() as int) =~= mark);
    } else {
        if begins_with(s, mark) {
            let head = s.take(mark.len() as int);
            assert(head == mark);
            assert(a[0] == head[0]);
            assert(s[1] == head[1] && s[2] == head[2] && s[d] == head[d]);
            assert(false);
        }
        let rest = a.drop_first();
        assert forall|i: int| 0 <= i < rest.len() && #[trigger] rest[i] == mark[0] implies {
            ||| i + 1 < rest.len() && rest[i + 1] != mark[1]
            ||| i + 2 < rest.len() && rest[i + 2] != mark[2]
            ||| i + d < rest.len() && rest[i + d] != mark[d]
        } by {
            assert(a[i + 1] == mark[0]);
        }
        assert(s.drop_first() =~= rest + mark + b);
        lemma_find_text(rest, mark, b, d);
    }
    assert(before_text(s, mark) =~= a);
    assert(after_text(s, mark) =~= b);
}

/// What stands before and after the first mark, and the mark between them, make
/// up the text, if the mark stands in it at all.
pub proof fn law_mark_parts(s: Seq<char>, mark: Seq<char>)
    requires
        mark.len() > 0,
    ensures
        0 <= find_text(s, mark) <= s.len(),
        find_text(s, mark) < s.len() ==> s == before_text(s, mark) + mark + after_text(s, mark),
        forall|i: int| 0 <= i < find_text(s, mark) ==> !begins_with(#[trigger] s.skip(i), mark),
    decreases s.len(),
{
    if s.len() == 0 {
    } else if begins_with(s, mark) {
        assert(s =~= s.take(0) + s.take(mark.len() as int) + s.skip(mark.len() as int));
    } else {
        let rest = s.drop_first();
        law_mark_parts(rest, mark);
        let k = find_text(rest, mark);
        assert forall|i: int| 0 <= i < find_text(s, mark) implies !begins_with(
            #[trigger] s.skip(i),
            mark,
        ) by {
            if i == 0 {
                assert(s.skip(0) =~= s);
            } else {
                assert(s.skip(i) =~= rest.skip(i - 1));
            }
        }
        if k < rest.len() {
            assert(rest.len() == k + mark.len() + after_text(rest, mark).len());
            assert(before_text(s, mark) =~= seq![s[0]] + before_text(rest, mark));
            assert(after_text(s, mark) =~= after_text(rest, mark));
            assert(s =~= seq![s[0]] + rest);
        }
    }
}

} // verus!
