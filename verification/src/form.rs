//! What visitors submit: URL-encoded forms and their fields.

use vstd::prelude::*;
use vstd::hash_map::StringHashMap;
use crate::text;
use crate::text::{char_is_control, chars_of, skip_space, space_end, split_text, text_after, text_before};

verus! {

// ---------------------------------------------------------------------------
// Percent decoding
// ---------------------------------------------------------------------------

/// The value of a hexadecimal digit, given as an ASCII byte.
pub open spec fn hex_value(byte: u8) -> Option<u8> {
    if 48 <= byte <= 57 {
        Some((byte - 48) as u8)
    } else if 97 <= byte <= 102 {
        Some((byte - 87) as u8)
    } else if 65 <= byte <= 70 {
        Some((byte - 55) as u8)
    } else {
        None
    }
}

/// The value of a hexadecimal digit of either case.
pub fn hex(byte: u8) -> (r: Option<u8>)
    ensures
        r == hex_value(byte),
{
    if 48 <= byte && byte <= 57 {
        Some(byte - 48)
    } else if 97 <= byte && byte <= 102 {
        Some(byte - 87)
    } else if 65 <= byte && byte <= 70 {
        Some(byte - 55)
    } else {
        None
    }
}

/// The byte that a percent sign followed by `rest` stands for. There is none if
/// two hexadecimal digits do not follow.
pub open spec fn percent_value(rest: Seq<u8>) -> Option<u8> {
    if rest.len() < 2 {
        None
    } else {
        match (hex_value(rest[0]), hex_value(rest[1])) {
            (Some(hi), Some(lo)) => Some((hi * 16 + lo) as u8),
            _ => None,
        }
    }
}

/// The bytes that URL-encoded bytes stand for: a plus sign stands for a space,
/// a percent sign and the two bytes after it for the byte they give in
/// hexadecimal, or for nothing if they give none.
pub open spec fn url_bytes(s: Seq<u8>) -> Seq<u8>
    decreases s.len(),
{
    if s.len() == 0 {
        Seq::empty()
    } else if s[0] == 43 {
        seq![32u8] + url_bytes(s.drop_first())
    } else if s[0] == 37 {
        let rest = s.drop_first();
        let tail = if rest.len() < 2 {
            Seq::empty()
        } else {
            rest.skip(2)
        };
        match percent_value(rest) {
            Some(byte) => seq![byte] + url_bytes(tail),
            None => url_bytes(tail),
        }
    } else {
        seq![s[0]] + url_bytes(s.drop_first())
    }
}

/// The bytes that a URL-encoded text stands for.
pub fn percent_decode(value: &str) -> (r: Vec<u8>)
    ensures
        r@ == url_bytes(vstd::utf8::encode_utf8(value@)),
{
    let bytes: &[u8] = value.as_bytes();
    let ghost all = vstd::utf8::encode_utf8(value@);
    let mut out: Vec<u8> = Vec::new();
    let mut i: usize = 0;
    assert(bytes@.skip(0) =~= all);
    while i < bytes.len()
        invariant
            bytes@ == all,
            i <= bytes@.len(),
            out@ + url_bytes(bytes@.skip(i as int)) == url_bytes(all),
        decreases bytes.len() - i,
    {
        let ghost done = out@;
        let ghost s = bytes@.skip(i as int);
        let byte: u8 = bytes[i];
        assert(s.drop_first() =~= bytes@.skip(i + 1));
        if byte == 43 {
            out.push(32);
            i = i + 1;
            assert(out@ + url_bytes(bytes@.skip(i as int)) =~= done + url_bytes(s));
        } else if byte == 37 {
            if bytes.len() - i <= 2 {
                i = bytes.len();
                assert(bytes@.skip(i as int) =~= Seq::<u8>::empty());
            } else {
                assert(s.drop_first().skip(2) =~= bytes@.skip(i + 3));
                if let (Some(hi), Some(lo)) = (hex(bytes[i + 1]), hex(bytes[i + 2])) {
                    assert((hi << 4u8) | lo == hi * 16 + lo) by (bit_vector)
                        requires
                            hi < 16,
                            lo < 16,
                    ;
                    out.push((hi << 4u8) | lo);
                }
                i = i + 3;
            }
            assert(out@ + url_bytes(bytes@.skip(i as int)) =~= done + url_bytes(s));
        } else {
            out.push(byte);
            i = i + 1;
            assert(out@ + url_bytes(bytes@.skip(i as int)) =~= done + url_bytes(s));
        }
    }
    assert(bytes@.skip(i as int) =~= Seq::<u8>::empty());
    assert(out@ =~= url_bytes(all));
    out
}

/// The text that bytes stand for which are not UTF-8: what is not UTF-8 in them
/// stands for replacement characters.
pub uninterp spec fn lossy_text(bytes: Seq<u8>) -> Seq<char>;

/// The text that bytes stand for: the one they encode where they are UTF-8,
/// else one with replacement characters.
pub open spec fn utf8_text(bytes: Seq<u8>) -> Seq<char> {
    if vstd::utf8::valid_utf8(bytes) {
        vstd::utf8::decode_utf8(bytes)
    } else {
        lossy_text(bytes)
    }
}

/// `String::from_utf8_lossy` of the standard library: the text that the bytes
/// encode where they are UTF-8. Where they are not, each sequence of bytes that
/// is not UTF-8 gives a replacement character; where those fall is left to
/// `lossy_text`. Every character stands for a byte or more, so the text has no
/// more characters than there are bytes.
#[verifier::external_body]
pub(crate) fn from_utf8_lossy(bytes: &[u8]) -> (r: String)
    ensures
        r@ == if vstd::utf8::valid_utf8(bytes@) {
            vstd::utf8::decode_utf8(bytes@)
        } else {
            lossy_text(bytes@)
        },
        r@.len() <= bytes@.len(),
{
    String::from_utf8_lossy(bytes).to_string()
}

/// The text that a URL-encoded text stands for.
pub open spec fn url_decoded(s: Seq<char>) -> Seq<char> {
    utf8_text(url_bytes(vstd::utf8::encode_utf8(s)))
}

/// Decodes a URL-encoded text.
pub fn url_decode(value: &str) -> (r: String)
    ensures
        r@ == url_decoded(value@),
{
    let bytes: Vec<u8> = percent_decode(value);
    from_utf8_lossy(bytes.as_slice())
}

/// Tells whether encoded bytes write the given bytes in URL encoding. Each byte
/// is written in one of three ways: as itself, if it is neither a plus nor a
/// percent sign; as a plus sign, if it is a space; as a percent sign and two
/// hexadecimal digits of either case.
pub open spec fn writes_bytes(encoded: Seq<u8>, bytes: Seq<u8>) -> bool
    decreases bytes.len(),
{
    if bytes.len() == 0 {
        encoded.len() == 0
    } else {
        ||| {
            &&& encoded.len() >= 1
            &&& encoded[0] == bytes[0]
            &&& encoded[0] != 43
            &&& encoded[0] != 37
            &&& writes_bytes(encoded.drop_first(), bytes.drop_first())
        }
        ||| {
            &&& encoded.len() >= 1
            &&& encoded[0] == 43
            &&& bytes[0] == 32
            &&& writes_bytes(encoded.drop_first(), bytes.drop_first())
        }
        ||| {
            &&& encoded.len() >= 3
            &&& encoded[0] == 37
            &&& hex_value(encoded[1]) is Some
            &&& hex_value(encoded[2]) is Some
            &&& bytes[0] == hex_value(encoded[1]).unwrap() * 16 + hex_value(encoded[2]).unwrap()
            &&& writes_bytes(encoded.skip(3), bytes.drop_first())
        }
    }
}

/// Tells whether an encoded text writes the given text in URL encoding.
pub open spec fn writes_text(encoded: Seq<char>, s: Seq<char>) -> bool {
    writes_bytes(vstd::utf8::encode_utf8(encoded), vstd::utf8::encode_utf8(s))
}

/// However bytes are written in URL encoding, they are read back.
pub proof fn law_encoded_bytes_read_back(encoded: Seq<u8>, bytes: Seq<u8>)
    requires
        writes_bytes(encoded, bytes),
    ensures
        url_bytes(encoded) == bytes,
    decreases bytes.len(),
{
    if bytes.len() > 0 {
        let rest = bytes.drop_first();
        assert(seq![bytes[0]] + rest =~= bytes);
        if encoded[0] == 37 {
            assert(encoded.drop_first().skip(2) =~= encoded.skip(3));
            law_encoded_bytes_read_back(encoded.skip(3), rest);
        } else {
            law_encoded_bytes_read_back(encoded.drop_first(), rest);
        }
    }
}

/// However a text is written in URL encoding, it is read back.
pub proof fn law_encoded_text_read_back(encoded: Seq<char>, s: Seq<char>)
    requires
        writes_text(encoded, s),
    ensures
        url_decoded(encoded) == s,
{
    law_encoded_bytes_read_back(vstd::utf8::encode_utf8(encoded), vstd::utf8::encode_utf8(s));
    vstd::utf8::encode_utf8_valid_utf8(s);
    vstd::utf8::encode_utf8_decode_utf8(s);
}

/// A text without plus and percent signs writes itself, and so it is read as it
/// stands.
pub proof fn law_plain_text_stays(s: Seq<char>)
    requires
        !s.contains('+'),
        !s.contains('%'),
    ensures
        writes_text(s, s),
        url_decoded(s) == s,
{
    lemma_plain_bytes(s);
    lemma_plain_writes_itself(vstd::utf8::encode_utf8(s));
    law_encoded_text_read_back(s, s);
}

proof fn lemma_plain_scalar(c: char)
    requires
        c != '+',
        c != '%',
    ensures
        forall|i: int|
            0 <= i < vstd::utf8::encode_scalar(c as u32).len() ==> {
                &&& #[trigger] vstd::utf8::encode_scalar(c as u32)[i] != 43
                &&& vstd::utf8::encode_scalar(c as u32)[i] != 37
            },
{
    let u = c as u32;
    assert(u != 43 && u != 37);
    assert(u <= 0x7f ==> (u & 0x7f) as u8 == u) by (bit_vector);
    assert(0xc0u8 | ((u >> 6) & 0x1f) as u8 >= 0xc0u8) by (bit_vector);
    assert(0xe0u8 | ((u >> 12) & 0x0f) as u8 >= 0xe0u8) by (bit_vector);
    assert(0xf0u8 | ((u >> 18) & 0x7) as u8 >= 0xf0u8) by (bit_vector);
    assert(0x80u8 | (u & 0x3f) as u8 >= 0x80u8) by (bit_vector);
    assert(0x80u8 | ((u >> 6) & 0x3f) as u8 >= 0x80u8) by (bit_vector);
    assert(0x80u8 | ((u >> 12) & 0x3f) as u8 >= 0x80u8) by (bit_vector);
}

/// The UTF-8 form of a text without plus and percent signs has no such byte.
proof fn lemma_plain_bytes(s: Seq<char>)
    requires
        !s.contains('+'),
        !s.contains('%'),
    ensures
        forall|i: int|
            0 <= i < vstd::utf8::encode_utf8(s).len() ==> {
                &&& #[trigger] vstd::utf8::encode_utf8(s)[i] != 43
                &&& vstd::utf8::encode_utf8(s)[i] != 37
            },
    decreases s.len(),
{
    if s.len() > 0 {
        assert(s[0] != '+' && s[0] != '%');
        let rest = s.drop_first();
        assert forall|i: int| 0 <= i < rest.len() implies rest[i] != '+' && rest[i] != '%' by {
            assert(s[i + 1] != '+' && s[i + 1] != '%');
        }
        lemma_plain_scalar(s[0]);
        lemma_plain_bytes(rest);
        let head = vstd::utf8::encode_scalar(s[0] as u32);
        let tail = vstd::utf8::encode_utf8(rest);
        assert(vstd::utf8::encode_utf8(s) =~= head + tail);
        assert forall|i: int| 0 <= i < (head + tail).len() implies {
            &&& #[trigger] (head + tail)[i] != 43
            &&& (head + tail)[i] != 37
        } by {
            if i >= head.len() {
                assert((head + tail)[i] == tail[i - head.len()]);
            }
        }
    }
}

/// Bytes without plus and percent signs write themselves.
proof fn lemma_plain_writes_itself(s: Seq<u8>)
    requires
        forall|i: int| 0 <= i < s.len() ==> #[trigger] s[i] != 43 && s[i] != 37,
    ensures
        writes_bytes(s, s),
    decreases s.len(),
{
    if s.len() > 0 {
        let rest = s.drop_first();
        assert forall|i: int| 0 <= i < rest.len() implies #[trigger] rest[i] != 43 && rest[i]
            != 37 by {
            assert(s[i + 1] != 43 && s[i + 1] != 37);
        }
        lemma_plain_writes_itself(rest);
    }
}

/// Bytes in URL encoding, each as a percent sign and two hexadecimal digits.
pub open spec fn percent_encoded(bytes: Seq<u8>) -> Seq<char>
    decreases bytes.len(),
{
    if bytes.len() == 0 {
        Seq::empty()
    } else {
        seq!['%', hex_digit(bytes[0] / 16), hex_digit(bytes[0] % 16)] + percent_encoded(
            bytes.drop_first(),
        )
    }
}

/// The upper-case hexadecimal digit of the given value.
pub open spec fn hex_digit(value: u8) -> char {
    if value < 10 {
        (48 + value) as char
    } else {
        (55 + value) as char
    }
}

/// Any text can be written in URL encoding, with none of the signs that part
/// the fields of a form.
pub proof fn law_any_text_can_be_written(s: Seq<char>)
    ensures
        writes_text(percent_encoded(vstd::utf8::encode_utf8(s)), s),
        !percent_encoded(vstd::utf8::encode_utf8(s)).contains('&'),
        !percent_encoded(vstd::utf8::encode_utf8(s)).contains('='),
{
    let bytes = vstd::utf8::encode_utf8(s);
    let encoded = percent_encoded(bytes);
    lemma_percent_encoding_writes(bytes);
    assert forall|i: int| 0 <= i < encoded.len() implies encoded[i] != '&' && encoded[i]
        != '=' by {
        lemma_percent_encoded_chars(bytes, i);
    }
}

proof fn lemma_percent_encoding_writes(bytes: Seq<u8>)
    ensures
        writes_bytes(vstd::utf8::encode_utf8(percent_encoded(bytes)), bytes),
    decreases bytes.len(),
{
    let encoded = percent_encoded(bytes);
    let all = vstd::utf8::encode_utf8(encoded);
    if bytes.len() > 0 {
        let rest = percent_encoded(bytes.drop_first());
        lemma_percent_encoding_writes(bytes.drop_first());
        let hi = hex_digit(bytes[0] / 16);
        let lo = hex_digit(bytes[0] % 16);
        assert(encoded.drop_first().drop_first().drop_first() =~= rest);
        assert(encoded[0] == '%' && encoded[1] == hi && encoded[2] == lo);
        assert(encoded.drop_first()[0] == hi);
        assert(encoded.drop_first().drop_first()[0] == lo);
        reveal_with_fuel(vstd::utf8::encode_utf8, 4);
        lemma_ascii_scalar('%');
        lemma_ascii_scalar(hi);
        lemma_ascii_scalar(lo);
        assert(all =~= seq![37u8, hi as u8, lo as u8] + vstd::utf8::encode_utf8(rest));
        assert(all.skip(3) =~= vstd::utf8::encode_utf8(rest));
    }
}

proof fn lemma_ascii_scalar(c: char)
    requires
        c as u32 <= 0x7f,
    ensures
        vstd::utf8::encode_scalar(c as u32) == seq![c as u8],
{
    let u = c as u32;
    assert(u <= 0x7f ==> (u & 0x7f) as u8 == u as u8) by (bit_vector);
}

proof fn lemma_percent_encoded_chars(bytes: Seq<u8>, i: int)
    requires
        0 <= i < percent_encoded(bytes).len(),
    ensures
        percent_encoded(bytes)[i] != '&',
        percent_encoded(bytes)[i] != '=',
    decreases bytes.len(),
{
    if i >= 3 {
        lemma_percent_encoded_chars(bytes.drop_first(), i - 3);
    }
}

// ---------------------------------------------------------------------------
// Forms
// ---------------------------------------------------------------------------

/// The fields of a form whose name and value pairs are given: the last pair of
/// a name gives its value, and pairs without a name are passed over.
pub open spec fn form_fields(pairs: Seq<Seq<char>>) -> Map<Seq<char>, Seq<char>>
    decreases pairs.len(),
{
    if pairs.len() == 0 {
        Map::empty()
    } else {
        with_field(
            form_fields(pairs.drop_last()),
            url_decoded(text::before(pairs.last(), '=')),
            url_decoded(text::after(pairs.last(), '=')),
        )
    }
}

/// The fields once a name has been given a value; a field without a name is
/// passed over.
pub open spec fn with_field(
    fields: Map<Seq<char>, Seq<char>>,
    name: Seq<char>,
    value: Seq<char>,
) -> Map<Seq<char>, Seq<char>> {
    if name.len() > 0 {
        fields.insert(name, value)
    } else {
        fields
    }
}

/// The fields of a form, given its body.
pub open spec fn form(body: Seq<char>) -> Map<Seq<char>, Seq<char>> {
    form_fields(text::split(body, '&'))
}

/// The fields that a map of strings holds.
pub open spec fn fields_of(map: Map<Seq<char>, String>) -> Map<Seq<char>, Seq<char>> {
    map.map_values(|value: String| value@)
}

/// Gives a name its value, unless the name is empty.
pub fn set_field(map: &mut StringHashMap<String>, name: String, value: String)
    ensures
        fields_of(final(map)@) == with_field(fields_of(old(map)@), name@, value@),
{
    if !name.as_str().is_empty() {
        map.insert(name, value);
    }
    assert(fields_of(map@) =~= with_field(fields_of(old(map)@), name@, value@));
}

/// Reads the fields of a form.
pub fn parse_form(body: &str) -> (r: StringHashMap<String>)
    ensures
        fields_of(r@) == form(body@),
{
    let mut map: StringHashMap<String> = StringHashMap::new();
    let pairs: Vec<String> = split_text(body, '&');
    let ghost all = text::split(body@, '&');
    let mut i: usize = 0;
    assert(all.take(0) =~= Seq::<Seq<char>>::empty());
    assert(fields_of(map@) =~= Map::<Seq<char>, Seq<char>>::empty());
    while i < pairs.len()
        invariant
            all == text::texts(pairs@),
            i <= pairs@.len(),
            fields_of(map@) == form_fields(all.take(i as int)),
        decreases pairs.len() - i,
    {
        assert(all.take(i + 1).drop_last() =~= all.take(i as int));
        assert(all.take(i + 1).last() == pairs@[i as int]@);
        let pair: &str = pairs[i].as_str();
        let name: String = url_decode(text_before(pair, '=').as_str());
        let value: String = url_decode(text_after(pair, '=').as_str());
        set_field(&mut map, name, value);
        i = i + 1;
    }
    assert(all.take(i as int) =~= all);
    map
}

proof fn lemma_fields_join(a: Seq<Seq<char>>, b: Seq<Seq<char>>)
    ensures
        form_fields(a + b) == form_fields(a).union_prefer_right(form_fields(b)),
    decreases b.len(),
{
    if b.len() == 0 {
        assert(a + b =~= a);
        assert(form_fields(a).union_prefer_right(form_fields(b)) =~= form_fields(a));
    } else {
        assert((a + b).drop_last() =~= a + b.drop_last());
        lemma_fields_join(a, b.drop_last());
        assert(form_fields(a + b) =~= form_fields(a).union_prefer_right(form_fields(b)));
    }
}

/// Two forms joined by an ampersand are one form with the fields of both; where
/// both have a field, the second gives its value.
pub proof fn law_later_fields_count(a: Seq<char>, b: Seq<char>)
    ensures
        form(a + "&"@ + b) == form(a).union_prefer_right(form(b)),
{
    reveal_strlit("&");
    assert("&"@ =~= seq!['&']);
    text::lemma_split_join(a, b, '&');
    lemma_fields_join(text::split(a, '&'), text::split(b, '&'));
}

/// A name and a value, both as they are written, as a field of a form.
pub open spec fn pair(encoded_name: Seq<char>, encoded: Seq<char>) -> Seq<char> {
    encoded_name + "="@ + encoded
}

/// Tells whether an encoded text can stand in a form for the given value: it
/// writes the value in URL encoding, and the sign that parts fields is not
/// written plainly.
pub open spec fn submits(encoded: Seq<char>, value: Seq<char>) -> bool {
    writes_text(encoded, value) && !encoded.contains('&')
}

/// A field is read as it was meant, however its name and its value are written
/// in URL encoding, unless the sign that parts the two is written plainly in the
/// name.
pub proof fn law_submitted_value_is_read(
    encoded_name: Seq<char>,
    name: Seq<char>,
    encoded: Seq<char>,
    value: Seq<char>,
)
    requires
        name.len() > 0,
        submits(encoded_name, name),
        !encoded_name.contains('='),
        submits(encoded, value),
    ensures
        form(pair(encoded_name, encoded)) == Map::empty().insert(name, value),
{
    reveal_strlit("=");
    let body = pair(encoded_name, encoded);
    assert forall|i: int| 0 <= i < body.len() implies body[i] != '&' by {
        if i < encoded_name.len() {
            assert(encoded_name[i] != '&');
        } else if i > encoded_name.len() {
            assert(body[i] == encoded[i - encoded_name.len() - 1]);
        }
    }
    text::lemma_find_is(body, '&', body.len() as int);
    let pairs = text::split(body, '&');
    assert(pairs == seq![body]);
    assert(pairs.drop_last() =~= Seq::<Seq<char>>::empty());
    assert forall|i: int| 0 <= i < encoded_name.len() implies body[i] != '=' by {
        assert(encoded_name[i] != '=');
    }
    text::lemma_find_is(body, '=', encoded_name.len() as int);
    assert(text::before(body, '=') =~= encoded_name);
    assert(text::after(body, '=') =~= encoded);
    law_encoded_text_read_back(encoded_name, name);
    law_encoded_text_read_back(encoded, value);
    assert(form_fields(pairs.drop_last()) =~= Map::<Seq<char>, Seq<char>>::empty());
}

/// The value of a field, or `default` if the form does not have it.
pub open spec fn field_or(
    fields: Map<Seq<char>, Seq<char>>,
    name: Seq<char>,
    default: Seq<char>,
) -> Seq<char> {
    if fields.contains_key(name) {
        fields[name]
    } else {
        default
    }
}

// ---------------------------------------------------------------------------
// Cleaning
// ---------------------------------------------------------------------------

/// Tells whether a character may stand in a field: control characters may not,
/// except line feeds.
pub open spec fn may_stand(c: char) -> bool {
    !text::is_control(c) || c == '\n'
}

/// `s` without the characters that may not stand in a field.
pub open spec fn allowed(s: Seq<char>) -> Seq<char> {
    s.filter(|c: char| may_stand(c))
}

/// The first `max` characters of `s`, or all if there are fewer.
pub open spec fn at_most(s: Seq<char>, max: nat) -> Seq<char> {
    if s.len() <= max {
        s
    } else {
        s.take(max as int)
    }
}

/// A field as it is kept: without white space around it, without control
/// characters except line feeds, and of at most `max` characters.
pub open spec fn cleaned(s: Seq<char>, max: nat) -> Seq<char> {
    at_most(allowed(text::trimmed(s)), max)
}

/// Cleans a field.
pub fn clean_field(value: &str, max_chars: usize) -> (r: String)
    ensures
        r@ == cleaned(value@, max_chars as nat),
{
    let v: Vec<char> = chars_of(value);
    let ghost s = text::trimmed(value@);
    assert(v@.skip(0) =~= value@);
    let from: usize = skip_space(&v, 0);
    let to: usize = space_end(&v, from);
    assert(s == v@.subrange(from as int, to as int));
    let mut out: String = String::new();
    let mut count: usize = 0;
    let mut i: usize = from;
    proof {
        reveal(Seq::filter);
        assert(s.take(0) =~= Seq::<char>::empty());
    }
    while i < to
        invariant
            from <= i <= to <= v@.len(),
            s == v@.subrange(from as int, to as int),
            out@ == at_most(allowed(s.take(i - from)), max_chars as nat),
            count == out@.len(),
            count <= max_chars,
        decreases to - i,
    {
        let c: char = v[i];
        proof {
            reveal(Seq::filter);
            assert(s.take(i + 1 - from).drop_last() =~= s.take(i - from));
            assert(s.take(i + 1 - from).last() == c);
        }
        if count < max_chars && (!char_is_control(c) || c == '\n') {
            out.push(c);
            count = count + 1;
        }
        assert(out@ =~= at_most(allowed(s.take(i + 1 - from)), max_chars as nat));
        i = i + 1;
    }
    assert(s.take(to - from) =~= s);
    out
}

/// A cleaned field has at most `max` characters, none of them a control
/// character other than a line feed.
pub proof fn law_cleaned(s: Seq<char>, max: nat)
    ensures
        cleaned(s, max).len() <= max,
        forall|i: int| 0 <= i < cleaned(s, max).len() ==> may_stand(#[trigger] cleaned(s, max)[i]),
{
    let kept = allowed(text::trimmed(s));
    assert forall|i: int| 0 <= i < cleaned(s, max).len() implies may_stand(
        #[trigger] cleaned(s, max)[i],
    ) by {
        text::trimmed(s).lemma_filter_pred(|c: char| may_stand(c), i);
        assert(cleaned(s, max)[i] == kept[i]);
    }
}

/// A cleaned field holds no carriage return, so it is stored exactly.
pub proof fn law_cleaned_is_free_of_cr(s: Seq<char>, max: nat)
    ensures
        !cleaned(s, max).contains('\r'),
{
    law_cleaned(s, max);
}

/// Cleaning loses nothing but what it must: of the text between the white space
/// at either end, exactly the characters stay that are no control characters or
/// are line feeds, in order, up to `max` of them. So a text in which every
/// character may stay, and which is not too long, is kept as it is.
pub proof fn law_cleaning_keeps_what_may_stay(
    a: Seq<char>,
    s: Seq<char>,
    b: Seq<char>,
    max: nat,
)
    requires
        text::all_space(a),
        text::all_space(b),
        s.len() > 0 ==> !text::is_space(s[0]) && !text::is_space(s.last()),
    ensures
        ({
            let kept = s.filter(|c: char| !text::is_control(c) || c == '\n');
            &&& kept.len() <= max ==> cleaned(a + s + b, max) == kept
            &&& kept.len() > max ==> cleaned(a + s + b, max) == kept.take(max as int)
        }),
        s.len() <= max && (forall|i: int|
            0 <= i < s.len() ==> !text::is_control(#[trigger] s[i]) || s[i] == '\n') ==> cleaned(
            a + s + b,
            max,
        ) == s,
{
    text::law_trimmed(a, s, b);
    let p = |c: char| !text::is_control(c) || c == '\n';
    assert((|c: char| may_stand(c)) =~= p);
    if forall|i: int| 0 <= i < s.len() ==> !text::is_control(#[trigger] s[i]) || s[i] == '\n' {
        lemma_filter_keeps_all(s, p);
    }
}

proof fn lemma_filter_keeps_all(s: Seq<char>, p: spec_fn(char) -> bool)
    requires
        forall|i: int| 0 <= i < s.len() ==> p(#[trigger] s[i]),
    ensures
        s.filter(p) == s,
    decreases s.len(),
{
    reveal(Seq::filter);
    if s.len() > 0 {
        let init = s.drop_last();
        assert forall|i: int| 0 <= i < init.len() implies p(#[trigger] init[i]) by {
            assert(init[i] == s[i]);
        }
        lemma_filter_keeps_all(init, p);
        assert(p(s[s.len() - 1]));
        assert(init.push(s.last()) =~= s);
    }
}

/// What is cleaned stays as it is when it is cleaned again, unless white space
/// has come to stand at an end.
pub proof fn law_clean_text_stays(s: Seq<char>, max: nat)
    requires
        cleaned(s, max).len() > 0 ==> !text::is_space(cleaned(s, max)[0]) && !text::is_space(
            cleaned(s, max).last(),
        ),
    ensures
        cleaned(cleaned(s, max), max) == cleaned(s, max),
{
    let none = Seq::<char>::empty();
    let once = cleaned(s, max);
    law_cleaned(s, max);
    assert forall|i: int| 0 <= i < once.len() implies !text::is_control(#[trigger] once[i])
        || once[i] == '\n' by {
        assert(may_stand(once[i]));
    }
    law_cleaning_keeps_what_may_stay(none, once, none, max);
    assert(none + once + none =~= once);
}

/// What is written in URL encoding is read for itself, whatever follows. A
/// percent sign that two hexadecimal digits do not follow is left out with the
/// two bytes after it, as far as there are any.
pub proof fn law_encoding_is_read_in_turn(encoded: Seq<u8>, bytes: Seq<u8>, rest: Seq<u8>)
    requires
        writes_bytes(encoded, bytes),
    ensures
        url_bytes(encoded + rest) == bytes + url_bytes(rest),
        rest.len() > 0 && rest[0] == 37 && rest.len() <= 2 ==> url_bytes(encoded + rest) == bytes,
        rest.len() >= 3 && rest[0] == 37 && (hex_value(rest[1]) is None || hex_value(
            rest[2],
        ) is None) ==> url_bytes(encoded + rest) == bytes + url_bytes(rest.skip(3)),
    decreases bytes.len(),
{
    let all = encoded + rest;
    if bytes.len() == 0 {
        assert(all =~= rest);
        assert(bytes + url_bytes(rest) =~= url_bytes(rest));
    } else {
        let tail = bytes.drop_first();
        if encoded[0] == 37 {
            assert(all.drop_first().skip(2) =~= encoded.skip(3) + rest);
            law_encoding_is_read_in_turn(encoded.skip(3), tail, rest);
        } else {
            assert(all.drop_first() =~= encoded.drop_first() + rest);
            law_encoding_is_read_in_turn(encoded.drop_first(), tail, rest);
        }
        assert(seq![bytes[0]] + (tail + url_bytes(rest)) =~= bytes + url_bytes(rest));
        assert(url_bytes(all) =~= bytes + url_bytes(rest));
    }
    if rest.len() > 0 && rest[0] == 37 {
        if rest.len() <= 2 {
            assert(url_bytes(Seq::empty()) =~= Seq::<u8>::empty());
            assert(percent_value(rest.drop_first()) is None);
            assert(url_bytes(rest) =~= Seq::<u8>::empty());
            assert(bytes + url_bytes(rest) =~= bytes);
        } else {
            assert(rest.drop_first().skip(2) =~= rest.skip(3));
        }
    }
}

/// One field gives its decoded name its decoded value; without an equals sign
/// the value is empty, and without a name there is no field.
pub proof fn law_one_field(encoded_name: Seq<char>, encoded: Seq<char>)
    requires
        !encoded_name.contains('&'),
        !encoded_name.contains('='),
        !encoded.contains('&'),
    ensures
        url_decoded(encoded_name).len() > 0 ==> {
            &&& form(pair(encoded_name, encoded)) == Map::empty().insert(
                url_decoded(encoded_name),
                url_decoded(encoded),
            )
            &&& form(encoded_name) == Map::empty().insert(
                url_decoded(encoded_name),
                Seq::<char>::empty(),
            )
        },
        url_decoded(encoded_name).len() == 0 ==> {
            &&& form(pair(encoded_name, encoded)) == Map::<Seq<char>, Seq<char>>::empty()
            &&& form(encoded_name) == Map::<Seq<char>, Seq<char>>::empty()
        },
{
    reveal_strlit("=");
    assert("="@ =~= seq!['=']);
    let none = Seq::<char>::empty();
    let body = pair(encoded_name, encoded);
    assert forall|i: int| 0 <= i < body.len() implies body[i] != '&' by {
        if i < encoded_name.len() {
            assert(encoded_name.contains(encoded_name[i]));
        } else if i > encoded_name.len() {
            assert(encoded.contains(encoded[i - encoded_name.len() - 1]));
        }
    }
    text::law_split_undoes_join(seq![body], '&');
    text::law_split_undoes_join(seq![encoded_name], '&');
    text::law_first_parts(encoded_name, '=', encoded);
    law_plain_text_stays(none);
    assert(seq![body].drop_last() =~= Seq::<Seq<char>>::empty());
    assert(seq![encoded_name].drop_last() =~= Seq::<Seq<char>>::empty());
    assert(form_fields(Seq::empty()) =~= Map::<Seq<char>, Seq<char>>::empty());
}

/// A text without white space at its ends, in which every character may stand
/// and which has at most `max` characters, is cleaned to itself.
pub proof fn law_tidy_text_stays(s: Seq<char>, max: nat)
    requires
        s.len() <= max,
        s.len() > 0 ==> !text::is_space(s[0]) && !text::is_space(s.last()),
        forall|i: int| 0 <= i < s.len() ==> !text::is_control(#[trigger] s[i]) || s[i] == '\n',
    ensures
        cleaned(s, max) == s,
{
    let none = Seq::<char>::empty();
    assert(none + s + none =~= s);
    law_cleaning_keeps_what_may_stay(none, s, none, max);
}

} // verus!
