//! Text for machines: JSON strings, lists and one-line events.

use vstd::prelude::*;
use vstd::utf8::*;

use crate::json::{
    after_space, code_at, escape_at, hex_value, parsed, plain_end, read_string, read_text, scalar,
    Fault, MAX_BYTES, Value,
};
use crate::text::{
    cat3, cat5, decimal, decimal_of, hex_char, hex_digit, join, joined, lemma_views_push, views,
};

verus! {

// ------------------------------------------------------------ JSON strings

/// A character as it stands inside a JSON string.
pub open spec fn escape(c: char) -> Seq<char> {
    if c == '"' {
        seq!['\\', '"']
    } else if c == '\\' {
        seq!['\\', '\\']
    } else if c == '\n' {
        seq!['\\', 'n']
    } else if c == '\r' {
        seq!['\\', 'r']
    } else if c == '\t' {
        seq!['\\', 't']
    } else if c <= '\u{1f}' {
        seq![
            '\\',
            'u',
            '0',
            '0',
            hex_digit((c as int) / 16, false),
            hex_digit((c as int) % 16, false),
        ]
    } else {
        seq![c]
    }
}

/// A text as it stands between the quotes of a JSON string.
pub open spec fn escaped(s: Seq<char>) -> Seq<char>
    decreases s.len(),
{
    if s.len() == 0 {
        seq![]
    } else {
        escape(s[0]) + escaped(s.skip(1))
    }
}

/// A text as a JSON string.
pub open spec fn json_text(s: Seq<char>) -> Seq<char> {
    seq!['"'] + escaped(s) + seq!['"']
}

proof fn lemma_escaped_push(s: Seq<char>, c: char)
    ensures
        escaped(s.push(c)) == escaped(s) + escape(c),
    decreases s.len(),
{
    if s.len() == 0 {
        let t = s.push(c);
        assert(t[0] == c);
        assert(t.skip(1).len() == 0);
        assert(escaped(t.skip(1)).len() == 0);
        assert(escaped(s.push(c)) =~= escaped(s) + escape(c));
    } else {
        lemma_escaped_push(s.skip(1), c);
        assert(s.push(c).skip(1) =~= s.skip(1).push(c));
        assert(escaped(s.push(c)) =~= escaped(s) + escape(c));
    }
}

/// Add a character as it stands inside a JSON string.
fn push_escaped(out: &mut String, c: char)
    ensures
        final(out)@ == old(out)@ + escape(c),
{
    if c == '"' {
        out.push('\\');
        out.push('"');
    } else if c == '\\' {
        out.push('\\');
        out.push('\\');
    } else if c == '\n' {
        out.push('\\');
        out.push('n');
    } else if c == '\r' {
        out.push('\\');
        out.push('r');
    } else if c == '\t' {
        out.push('\\');
        out.push('t');
    } else if c <= '\u{1f}' {
        let code: u8 = c as u8;
        out.push('\\');
        out.push('u');
        out.push('0');
        out.push('0');
        out.push(hex_char(code / 16, false));
        out.push(hex_char(code % 16, false));
    } else {
        out.push(c);
    }
    assert(out@ =~= old(out)@ + escape(c));
}

/// Write a text as a JSON string.
pub fn json_string(value: &str) -> (out: String)
    ensures
        out@ == json_text(value@),
{
    let mut out = String::new();
    out.push('"');
    assert(value@.take(0) =~= seq![]);
    assert(out@ =~= seq!['"'] + escaped(value@.take(0)));
    for c in it: value.chars()
        invariant
            it.seq() == value@,
            out@ == seq!['"'] + escaped(value@.take(it.index())),
    {
        push_escaped(&mut out, c);
        proof {
            lemma_escaped_push(value@.take(it.index()), c);
            assert(value@.take(it.index() + 1) =~= value@.take(it.index()).push(c));
            assert(out@ =~= seq!['"'] + escaped(value@.take(it.index() + 1)));
        }
    }
    out.push('"');
    assert(value@.take(value@.len() as int) =~= value@);
    assert(out@ =~= json_text(value@));
    out
}

// --------------------------------------------------- reading one back again

/// Whether a character stands as itself inside a JSON string.
pub open spec fn is_plain(c: char) -> bool {
    c != '"' && c != '\\' && c > '\u{1f}'
}

/// How many characters come before the first one that is escaped.
pub open spec fn plain_len(s: Seq<char>) -> nat
    decreases s.len(),
{
    if s.len() == 0 || !is_plain(s[0]) {
        0
    } else {
        1 + plain_len(s.skip(1))
    }
}

pub proof fn lemma_encode_concat(a: Seq<char>, b: Seq<char>)
    ensures
        encode_utf8(a + b) == encode_utf8(a) + encode_utf8(b),
    decreases a.len(),
{
    if a.len() == 0 {
        assert(a + b =~= b);
        assert(encode_utf8(a) + encode_utf8(b) =~= encode_utf8(b));
    } else {
        lemma_encode_concat(a.drop_first(), b);
        assert((a + b).drop_first() =~= a.drop_first() + b);
        assert(encode_utf8(a + b) =~= encode_utf8(a) + encode_utf8(b));
    }
}

/// No byte of plain text is a quote or a backslash.
proof fn lemma_plain_bytes(s: Seq<char>)
    requires
        forall|i: int| 0 <= i < s.len() ==> is_plain(#[trigger] s[i]),
    ensures
        forall|i: int|
            0 <= i < encode_utf8(s).len() ==> #[trigger] encode_utf8(s)[i] != 0x22
                && encode_utf8(s)[i] != 0x5c,
    decreases s.len(),
{
    if s.len() > 0 {
        lemma_plain_bytes(s.drop_first());
        let c = s[0] as u32;
        assert(is_plain(s[0]));
        char_is_scalar(s[0]);
        if has_width_1_encoding(c) {
            assert(leading_byte_width_1(c) == c as u8) by (bit_vector)
                requires
                    c <= 0x7f,
            ;
            char_u32_cast(s[0], c);
            assert(c != 0x22 && c != 0x5c);
            assert(encode_scalar(c) =~= seq![c as u8]);
        } else {
            lemma_high_bytes(c);
        }
        assert forall|i: int| 0 <= i < encode_utf8(s).len() implies #[trigger] encode_utf8(s)[i]
            != 0x22 && encode_utf8(s)[i] != 0x5c by {
            let n = encode_scalar(c).len();
            if i < n {
                assert(encode_utf8(s)[i] == encode_scalar(c)[i]);
            } else {
                assert(encode_utf8(s)[i] == encode_utf8(s.drop_first())[i - n]);
            }
        }
    }
}

pub proof fn lemma_high_bytes(c: u32)
    ensures
        leading_byte_width_2(c) >= 0x80,
        leading_byte_width_3(c) >= 0x80,
        leading_byte_width_4(c) >= 0x80,
        last_continuation_byte(c) >= 0x80,
        second_last_continuation_byte(c) >= 0x80,
        third_last_continuation_byte(c) >= 0x80,
{
    assert(leading_byte_width_2(c) >= 0x80 && leading_byte_width_3(c) >= 0x80
        && leading_byte_width_4(c) >= 0x80 && last_continuation_byte(c) >= 0x80
        && second_last_continuation_byte(c) >= 0x80 && third_last_continuation_byte(c) >= 0x80)
        by (bit_vector);
}

proof fn lemma_plain_end(b: Seq<u8>, p: int, end: int)
    requires
        0 <= p <= end < b.len(),
        forall|i: int| p <= i < end ==> #[trigger] b[i] != 0x22 && b[i] != 0x5c,
        b[end] == 0x22 || b[end] == 0x5c,
    ensures
        plain_end(b, p) == end,
    decreases end - p,
{
    if p < end {
        lemma_plain_end(b, p + 1, end);
    }
}

/// Where `text` stands in `b` from `p` on, byte for byte.
pub open spec fn stands_at(b: Seq<u8>, p: int, text: Seq<u8>) -> bool {
    &&& 0 <= p
    &&& p + text.len() <= b.len()
    &&& forall|i: int| 0 <= i < text.len() ==> #[trigger] b[p + i] == text[i]
}

pub proof fn lemma_stands_split(b: Seq<u8>, p: int, left: Seq<u8>, right: Seq<u8>)
    requires
        stands_at(b, p, left + right),
    ensures
        stands_at(b, p, left),
        stands_at(b, p + left.len(), right),
{
    assert forall|i: int| 0 <= i < left.len() implies #[trigger] b[p + i] == left[i] by {
        assert((left + right)[i] == left[i]);
    }
    assert forall|i: int| 0 <= i < right.len() implies #[trigger] b[p + left.len() + i]
        == right[i] by {
        assert((left + right)[left.len() + i] == right[i]);
        assert(b[p + (left.len() + i)] == right[i]);
    }
}

proof fn lemma_escape_ascii(c: char)
    requires
        c <= '\u{7f}',
    ensures
        is_ascii_chars(escape(c)),
{
}

/// An escape stands for the character it was written for.
proof fn lemma_escape_back(b: Seq<u8>, p: int, c: char)
    requires
        !is_plain(c),
        stands_at(b, p, encode_utf8(escape(c))),
    ensures
        escape_at(b, p) == Ok::<(char, int), Fault>((c, p + encode_utf8(escape(c)).len())),
        b[p] == 0x5c,
{
    let e = escape(c);
    let bytes = encode_utf8(e);
    lemma_escape_ascii(c);
    is_ascii_chars_encode_utf8(e);
    assert(b[p + 0] == bytes[0]);
    assert(b[p + 1] == bytes[1]);
    if bytes.len() > 2 {
        let v = c as int;
        assert(b[p + 2] == bytes[2]);
        assert(b[p + 3] == bytes[3]);
        assert(b[p + 4] == bytes[4]);
        assert(b[p + 5] == bytes[5]);
        assert(0 <= v < 32);
        lemma_hex_back(v / 16);
        lemma_hex_back(v % 16);
        assert(v / 16 * 16 + v % 16 == v);
        assert(code_at(b, p + 2) == v);
        char_u32_cast(c, c as u32);
        assert(scalar(v) == c);
    }
}

proof fn lemma_hex_back(v: int)
    requires
        0 <= v < 16,
    ensures
        hex_value(hex_digit(v, false) as u8) == v,
        hex_digit(v, false) as u32 != 0x2b,
{
}

proof fn lemma_plain_len(s: Seq<char>)
    ensures
        plain_len(s) <= s.len(),
        forall|i: int| 0 <= i < plain_len(s) ==> is_plain(#[trigger] s[i]),
        plain_len(s) < s.len() ==> !is_plain(s[plain_len(s) as int]),
        escaped(s) == s.take(plain_len(s) as int) + escaped(s.skip(plain_len(s) as int)),
    decreases s.len(),
{
    let n = plain_len(s) as int;
    if s.len() == 0 || !is_plain(s[0]) {
        assert(s.take(0) + escaped(s.skip(0)) =~= escaped(s)) by {
            assert(s.skip(0) =~= s);
        }
    } else {
        let rest = s.skip(1);
        lemma_plain_len(rest);
        assert forall|i: int| 0 <= i < n implies is_plain(#[trigger] s[i]) by {
            if i > 0 {
                assert(rest[i - 1] == s[i]);
            }
        }
        assert(rest.skip(n - 1) =~= s.skip(n));
        assert(s.take(n) =~= seq![s[0]] + rest.take(n - 1));
        assert(escaped(s) =~= s.take(n) + escaped(s.skip(n)));
    }
}

/// A text that was written inside a JSON string is read as it was.
proof fn lemma_text_back(b: Seq<u8>, p: int, s: Seq<char>)
    requires
        stands_at(b, p, encode_utf8(escaped(s))),
        p + encode_utf8(escaped(s)).len() < b.len(),
        b[p + encode_utf8(escaped(s)).len()] == 0x22,
    ensures
        read_text(b, p) == Ok::<(Seq<char>, int), Fault>(
            (s, p + encode_utf8(escaped(s)).len() + 1),
        ),
    decreases s.len(),
{
    let n = plain_len(s) as int;
    let head = s.take(n);
    let tail = s.skip(n);
    lemma_plain_len(s);
    let he = encode_utf8(head);
    let te = encode_utf8(escaped(tail));
    lemma_encode_concat(head, escaped(tail));
    lemma_stands_split(b, p, he, te);
    let end = p + he.len();
    lemma_plain_bytes(head);
    assert forall|i: int| p <= i < end implies #[trigger] b[i] != 0x22 && b[i] != 0x5c by {
        assert(b[p + (i - p)] == he[i - p]);
    }
    assert(b.subrange(p, end) =~= he) by {
        assert forall|i: int| 0 <= i < he.len() implies b.subrange(p, end)[i] == he[i] by {
            assert(b[p + i] == he[i]);
        }
    }
    encode_utf8_decode_utf8(head);
    if n < s.len() {
        let c = tail[0];
        let rest = tail.skip(1);
        let ce = encode_utf8(escape(c));
        let re = encode_utf8(escaped(rest));
        lemma_encode_concat(escape(c), escaped(rest));
        lemma_stands_split(b, end, ce, re);
        lemma_escape_back(b, end, c);
        lemma_plain_end(b, p, end);
        lemma_text_back(b, end + ce.len(), rest);
        assert(head.push(c) + rest =~= s);
    } else {
        assert(te.len() == 0);
        lemma_plain_end(b, p, end);
        assert(head =~= s);
    }
}

/// A JSON string is read as the text it was written for, wherever it stands
/// and whatever follows it.
pub proof fn lemma_string_back(b: Seq<u8>, p: int, s: Seq<char>)
    requires
        stands_at(b, p, encode_utf8(json_text(s))),
    ensures
        read_string(b, p) == Ok::<(Seq<char>, int), Fault>(
            (s, p + encode_utf8(json_text(s)).len()),
        ),
        b[p] == 0x22,
        encode_utf8(json_text(s)).len() >= 2,
{
    let q = seq!['"'];
    assert(json_text(s) =~= q + (escaped(s) + q));
    lemma_encode_concat(q, escaped(s) + q);
    lemma_encode_concat(escaped(s), q);
    assert(is_ascii_chars(q));
    is_ascii_chars_encode_utf8(q);
    let qe = encode_utf8(q);
    let se = encode_utf8(escaped(s));
    assert(qe =~= seq![0x22u8]);
    lemma_stands_split(b, p, qe, se + qe);
    lemma_stands_split(b, p + 1, se, qe);
    assert(b[p + 0] == qe[0]);
    assert(b[p + 1 + se.len() + 0] == qe[0]);
    lemma_text_back(b, p + 1, s);
}

/// A document that is one JSON string is read as the text it was written for,
/// whatever is in it.
pub proof fn lemma_json_string_reads_back(s: Seq<char>)
    requires
        encode_utf8(json_text(s)).len() <= MAX_BYTES,
    ensures
        parsed(encode_utf8(json_text(s))) == Ok::<Value, Fault>(Value::Text(s)),
{
    let b = encode_utf8(json_text(s));
    lemma_string_back(b, 0, s);
    assert(after_space(b, 0) == 0);
    assert(after_space(b, b.len() as int) == b.len());
}

// ------------------------------------------------------- lists and choices

/// Texts as the inside of a JSON list of strings.
pub open spec fn quoted_all(items: Seq<Seq<char>>) -> Seq<Seq<char>> {
    items.map_values(|t: Seq<char>| json_text(t))
}

pub open spec fn list_text(items: Seq<Seq<char>>) -> Seq<char> {
    joined(quoted_all(items), ", "@)
}

pub fn json_list(items: &Vec<String>) -> (out: String)
    ensures
        out@ == list_text(views(items@)),
{
    let mut quoted: Vec<String> = Vec::new();
    for i in 0..items.len()
        invariant
            views(quoted@) == quoted_all(views(items@).take(i as int)),
    {
        let one = json_string(items[i].as_str());
        proof {
            lemma_views_push(quoted@, one);
            assert(views(items@).take(i + 1) =~= views(items@).take(i as int).push(items@[i as int]@));
            assert(quoted_all(views(items@).take(i + 1)) =~= quoted_all(
                views(items@).take(i as int),
            ).push(one@));
        }
        quoted.push(one);
    }
    assert(views(items@).take(items@.len() as int) =~= views(items@));
    join(&quoted, ", ")
}

/// Texts as a JSON list of strings.
pub open spec fn bracketed_text(items: Seq<Seq<char>>) -> Seq<char> {
    "["@ + list_text(items) + "]"@
}

pub fn json_bracketed(items: &Vec<String>) -> (out: String)
    ensures
        out@ == bracketed_text(views(items@)),
{
    cat3("[", json_list(items).as_str(), "]")
}

/// A text as a JSON string, or `null` where there is none.
pub open spec fn optional_text(value: Option<String>) -> Seq<char> {
    match value {
        Some(t) => json_text(t@),
        None => "null"@,
    }
}

pub fn json_optional(value: &Option<String>) -> (out: String)
    ensures
        out@ == optional_text(*value),
{
    match value {
        Some(t) => json_string(t.as_str()),
        None => "null".to_owned(),
    }
}

/// A member of an object, on a line of its own.
pub open spec fn member_text(indent: Seq<char>, key: Seq<char>, value: Seq<char>) -> Seq<char> {
    indent + "  "@ + json_text(key) + ": "@ + value
}

pub fn member(indent: &str, key: &str, value: &str) -> (out: String)
    ensures
        out@ == member_text(indent@, key@, value@),
{
    cat5(indent, "  ", json_string(key).as_str(), ": ", value)
}

/// An object with each member on a line of its own.
pub open spec fn object_text(indent: Seq<char>, members: Seq<Seq<char>>) -> Seq<char> {
    "{\n"@ + joined(members, ",\n"@) + "\n"@ + indent + "}"@
}

pub fn json_object(indent: &str, members: &Vec<String>) -> (out: String)
    ensures
        out@ == object_text(indent@, views(members@)),
{
    cat5("{\n", join(members, ",\n").as_str(), "\n", indent, "}")
}

/// A number, or `null` where there is none.
pub open spec fn optional_number(value: Option<u64>) -> Seq<char> {
    match value {
        Some(n) => decimal_of(n as nat),
        None => "null"@,
    }
}

pub fn json_number(value: Option<u64>) -> (out: String)
    ensures
        out@ == optional_number(value),
{
    match value {
        Some(n) => decimal(n),
        None => "null".to_owned(),
    }
}

pub open spec fn truth(value: bool) -> Seq<char> {
    if value {
        "true"@
    } else {
        "false"@
    }
}

pub fn json_bool(value: bool) -> (out: &'static str)
    ensures
        out@ == truth(value),
{
    if value {
        "true"
    } else {
        "false"
    }
}

// ------------------------------------------------------------------ events

/// The start of one line of machine-readable progress.
///
/// A frontend needs to know which phase the work is in, because that is what
/// decides whether stopping is safe. Reading that out of printed prose is the
/// coupling this design exists to avoid, so the phases are given as data: one
/// JSON object per line, so a reader can act on each as it arrives.
pub open spec fn event_start_text(event: Seq<char>) -> Seq<char> {
    "{\"event\": "@ + json_text(event)
}

pub fn event_start(event: &str) -> (out: String)
    ensures
        out@ == event_start_text(event@),
{
    let mut out = "{\"event\": ".to_owned();
    out.append(json_string(event).as_str());
    out
}

/// One more field of such a line. The value is given as it stands there.
pub open spec fn event_field_text(key: Seq<char>, value: Seq<char>) -> Seq<char> {
    ", "@ + json_text(key) + ": "@ + value
}

pub fn event_field(key: &str, value: &str) -> (out: String)
    ensures
        out@ == event_field_text(key@, value@),
{
    let mut out = ", ".to_owned();
    out.append(json_string(key).as_str());
    out.append(": ");
    out.append(value);
    out
}

/// The fields of such a line one after another.
pub open spec fn event_fields(keys: Seq<Seq<char>>, values: Seq<Seq<char>>) -> Seq<char>
    decreases keys.len(),
{
    if keys.len() == 0 {
        seq![]
    } else {
        event_fields(keys.drop_last(), values.drop_last()) + event_field_text(
            keys.last(),
            values.last(),
        )
    }
}

/// A whole line: what happened, and the fields that go with it.
pub open spec fn event_line(
    event: Seq<char>,
    keys: Seq<Seq<char>>,
    values: Seq<Seq<char>>,
) -> Seq<char> {
    event_start_text(event) + event_fields(keys, values) + "}\n"@
}

/// The fields are written one after another: the next comes after those that
/// are there.
pub proof fn lemma_event_field(
    start: Seq<char>,
    keys: Seq<Seq<char>>,
    values: Seq<Seq<char>>,
    n: int,
)
    requires
        0 <= n < keys.len(),
        keys.len() == values.len(),
    ensures
        start + event_fields(keys.take(n + 1), values.take(n + 1)) == start + event_fields(
            keys.take(n),
            values.take(n),
        ) + event_field_text(keys[n], values[n]),
{
    assert(keys.take(n + 1).drop_last() =~= keys.take(n));
    assert(values.take(n + 1).drop_last() =~= values.take(n));
    assert(start + event_fields(keys.take(n + 1), values.take(n + 1)) =~= start + event_fields(
        keys.take(n),
        values.take(n),
    ) + event_field_text(keys[n], values[n]));
}

/// None of the fields is written at first, and all of them at the end.
pub proof fn lemma_event_ends(start: Seq<char>, keys: Seq<Seq<char>>, values: Seq<Seq<char>>)
    requires
        keys.len() == values.len(),
    ensures
        start + event_fields(keys.take(0), values.take(0)) == start,
        keys.take(keys.len() as int) == keys,
        values.take(values.len() as int) == values,
{
    assert(start + event_fields(keys.take(0), values.take(0)) =~= start);
    assert(keys.take(keys.len() as int) =~= keys);
    assert(values.take(values.len() as int) =~= values);
}

/// A line with no fields, where machine output is asked for at all.
pub open spec fn emit_text(json: bool, event: Seq<char>) -> Seq<char> {
    if json {
        event_line(event, seq![], seq![])
    } else {
        seq![]
    }
}

pub fn emit(json: bool, event: &str) -> (out: String)
    ensures
        out@ == emit_text(json, event@),
{
    if json {
        let mut out = event_start(event);
        proof {
            lemma_event_ends(out@, seq![], seq![]);
        }
        out.append("}\n");
        out
    } else {
        String::new()
    }
}

/// A line with one field.
pub open spec fn emit_with_text(
    json: bool,
    event: Seq<char>,
    key: Seq<char>,
    value: Seq<char>,
) -> Seq<char> {
    if json {
        event_line(event, seq![key], seq![value])
    } else {
        seq![]
    }
}

pub fn emit_with(json: bool, event: &str, key: &str, value: &str) -> (out: String)
    ensures
        out@ == emit_with_text(json, event@, key@, value@),
{
    if json {
        let mut out = event_start(event);
        proof {
            lemma_event_ends(out@, seq![key@], seq![value@]);
            lemma_event_field(out@, seq![key@], seq![value@], 0);
        }
        out.append(event_field(key, value).as_str());
        out.append("}\n");
        out
    } else {
        String::new()
    }
}

/// A line with two fields.
pub open spec fn emit_with_two_text(
    json: bool,
    event: Seq<char>,
    key: Seq<char>,
    value: Seq<char>,
    key2: Seq<char>,
    value2: Seq<char>,
) -> Seq<char> {
    if json {
        event_line(event, seq![key, key2], seq![value, value2])
    } else {
        seq![]
    }
}

pub fn emit_with_two(
    json: bool,
    event: &str,
    key: &str,
    value: &str,
    key2: &str,
    value2: &str,
) -> (out: String)
    ensures
        out@ == emit_with_two_text(json, event@, key@, value@, key2@, value2@),
{
    if json {
        let mut out = event_start(event);
        proof {
            let keys = seq![key@, key2@];
            let values = seq![value@, value2@];
            lemma_event_ends(out@, keys, values);
            lemma_event_field(out@, keys, values, 0);
            lemma_event_field(out@, keys, values, 1);
        }
        out.append(event_field(key, value).as_str());
        out.append(event_field(key2, value2).as_str());
        out.append("}\n");
        out
    } else {
        String::new()
    }
}

/// What is for machines is only written where that was asked for.
pub proof fn lemma_events_are_for_machines(
    json: bool,
    event: Seq<char>,
    key: Seq<char>,
    value: Seq<char>,
    key2: Seq<char>,
    value2: Seq<char>,
)
    ensures
        !json ==> emit_text(json, event).len() == 0,
        !json ==> emit_with_text(json, event, key, value).len() == 0,
        !json ==> emit_with_two_text(json, event, key, value, key2, value2).len() == 0,
        json ==> emit_text(json, event) == event_line(event, seq![], seq![]),
        json ==> emit_with_text(json, event, key, value) == event_line(
            event,
            seq![key],
            seq![value],
        ),
        json ==> emit_with_two_text(json, event, key, value, key2, value2) == event_line(
            event,
            seq![key, key2],
            seq![value, value2],
        ),
{
}

} // verus!
