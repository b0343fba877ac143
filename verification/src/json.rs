//! A small, bounded JSON reader.

use vstd::prelude::*;
use vstd::utf8::*;

use crate::number::{is_literal, literal, whole, whole_number};
use crate::ordered::{lemma_entry_smaller, TextMap};
use crate::text::{cat2, cat3, decimal, decimal_of};

verus! {

broadcast use lemma_entry_smaller;

/// A JSON value. A number is kept as the text it was written as.
#[derive(Debug)]
pub enum Json {
    Null,
    Bool(bool),
    Number(String),
    String(String),
    Array(Vec<Json>),
    Object(TextMap<Json>),
}

/// What a JSON value means.
pub enum Value {
    Null,
    Bool(bool),
    Number(Seq<char>),
    Text(Seq<char>),
    Array(Seq<Value>),
    Object(Map<Seq<char>, Value>),
}

impl View for Json {
    type V = Value;

    open spec fn view(&self) -> Value
        decreases self,
    {
        match self {
            Json::Null => Value::Null,
            Json::Bool(b) => Value::Bool(*b),
            Json::Number(t) => Value::Number(t@),
            Json::String(t) => Value::Text(t@),
            Json::Array(items) => Value::Array(
                Seq::new(
                    items@.len(),
                    |i: int| if 0 <= i < items@.len() { items@[i].view() } else { Value::Null },
                ),
            ),
            Json::Object(map) => Value::Object(
                Map::new(
                    |key: Seq<char>| map@.contains_key(key),
                    |key: Seq<char>|
                        if map@.contains_key(key) {
                            map@[key].view()
                        } else {
                            Value::Null
                        },
                ),
            ),
        }
    }
}

/// How deep values may nest.
pub const MAX_DEPTH: usize = 32;

/// How long an input may be.
pub const MAX_BYTES: usize = 16777216;

/// Why an input is not read.
#[derive(Debug, Clone, Copy, PartialEq, Eq, Structural)]
pub enum Fault {
    TooLong { bytes: usize },
    TooDeep,
    Ended,
    Trailing { at: usize },
    Expected { byte: u8, at: usize },
    Literal { at: usize },
    CommaOrBrace { at: usize },
    CommaOrBracket { at: usize },
    Number { at: usize },
    OpenString,
    OpenEscape,
    ShortUnicode,
    BadUnicode,
    Escape { byte: u8 },
}

impl Fault {
    pub open spec fn text(self) -> Seq<char> {
        match self {
            Fault::TooLong { bytes } => "input is "@ + decimal_of(bytes as nat)
                + " bytes, over the limit"@,
            Fault::TooDeep => "nesting is deeper than the parser allows"@,
            Fault::Ended => "input ended early"@,
            Fault::Trailing { at } => "trailing content at byte "@ + decimal_of(at as nat),
            Fault::Expected { byte, at } => "expected '"@ + seq![byte as char] + "' at byte "@
                + decimal_of(at as nat),
            Fault::Literal { at } => "unrecognised literal at byte "@ + decimal_of(at as nat),
            Fault::CommaOrBrace { at } => "expected ',' or '}' at byte "@ + decimal_of(at as nat),
            Fault::CommaOrBracket { at } => "expected ',' or ']' at byte "@ + decimal_of(at as nat),
            Fault::Number { at } => "bad number at byte "@ + decimal_of(at as nat),
            Fault::OpenString => "unterminated string"@,
            Fault::OpenEscape => "unterminated escape"@,
            Fault::ShortUnicode => "truncated \\u escape"@,
            Fault::BadUnicode => "bad \\u escape"@,
            Fault::Escape { byte } => "unknown escape '\\"@ + seq![byte as char] + "'"@,
        }
    }

    pub fn message(&self) -> (text: String)
        ensures
            text@ == self.text(),
    {
        match *self {
            Fault::TooLong { bytes } => cat3(
                "input is ",
                decimal(bytes as u64).as_str(),
                " bytes, over the limit",
            ),
            Fault::TooDeep => "nesting is deeper than the parser allows".to_owned(),
            Fault::Ended => "input ended early".to_owned(),
            Fault::Trailing { at } => cat2("trailing content at byte ", decimal(at as u64).as_str()),
            Fault::Expected { byte, at } => {
                let mut out = "expected '".to_owned();
                out.push(byte as char);
                out.append("' at byte ");
                out.append(decimal(at as u64).as_str());
                assert("expected '"@ + seq![byte as char] =~= "expected '"@.push(byte as char));
                out
            },
            Fault::Literal { at } => cat2(
                "unrecognised literal at byte ",
                decimal(at as u64).as_str(),
            ),
            Fault::CommaOrBrace { at } => cat2(
                "expected ',' or '}' at byte ",
                decimal(at as u64).as_str(),
            ),
            Fault::CommaOrBracket { at } => cat2(
                "expected ',' or ']' at byte ",
                decimal(at as u64).as_str(),
            ),
            Fault::Number { at } => cat2("bad number at byte ", decimal(at as u64).as_str()),
            Fault::OpenString => "unterminated string".to_owned(),
            Fault::OpenEscape => "unterminated escape".to_owned(),
            Fault::ShortUnicode => "truncated \\u escape".to_owned(),
            Fault::BadUnicode => "bad \\u escape".to_owned(),
            Fault::Escape { byte } => {
                let mut out = "unknown escape '\\".to_owned();
                out.push(byte as char);
                out.append("'");
                assert("unknown escape '\\"@ + seq![byte as char] =~= "unknown escape '\\"@.push(
                    byte as char,
                ));
                out
            },
        }
    }
}

// ------------------------------------------------------------- the grammar

/// Space, tab, line feed, form feed and carriage return.
pub open spec fn is_space(b: u8) -> bool {
    b == 0x20 || b == 0x09 || b == 0x0a || b == 0x0c || b == 0x0d
}

/// The first place at or after `p` with no space.
pub open spec fn after_space(b: Seq<u8>, p: int) -> int
    decreases b.len() - p,
{
    if 0 <= p < b.len() && is_space(b[p]) {
        after_space(b, p + 1)
    } else {
        p
    }
}

/// The first quote or backslash at or after `p`, or the length.
pub open spec fn plain_end(b: Seq<u8>, p: int) -> int
    decreases b.len() - p,
{
    if 0 <= p < b.len() && b[p] != 0x22 && b[p] != 0x5c {
        plain_end(b, p + 1)
    } else {
        p
    }
}

pub proof fn lemma_plain_end_onward(b: Seq<u8>, p: int)
    ensures
        p <= plain_end(b, p),
        p <= b.len() ==> plain_end(b, p) <= b.len(),
    decreases b.len() - p,
{
    if 0 <= p < b.len() && b[p] != 0x22 && b[p] != 0x5c {
        lemma_plain_end_onward(b, p + 1);
    }
}

/// The value of a hexadecimal digit, or -1.
pub open spec fn hex_value(b: u8) -> int {
    if 0x30 <= b <= 0x39 {
        b - 0x30
    } else if 0x61 <= b <= 0x66 {
        b - 0x61 + 10
    } else if 0x41 <= b <= 0x46 {
        b - 0x41 + 10
    } else {
        -1
    }
}

/// The value of the four bytes at `p` read as hexadecimal, the first of which
/// may be a plus sign, or -1.
pub open spec fn code_at(b: Seq<u8>, p: int) -> int {
    let first = if b[p] == 0x2b { 0 } else { hex_value(b[p]) };
    if first < 0 || hex_value(b[p + 1]) < 0 || hex_value(b[p + 2]) < 0 || hex_value(b[p + 3]) < 0 {
        -1
    } else {
        first * 4096 + hex_value(b[p + 1]) * 256 + hex_value(b[p + 2]) * 16 + hex_value(b[p + 3])
    }
}

/// The character with a code, or the replacement character where the code is
/// half of a surrogate pair.
pub open spec fn scalar(code: int) -> char {
    if 0xd800 <= code <= 0xdfff {
        '\u{fffd}'
    } else {
        code as char
    }
}

/// What a one-letter escape stands for.
pub open spec fn short_escape(b: u8) -> Option<char> {
    if b == 0x22 {
        Some('"')
    } else if b == 0x5c {
        Some('\\')
    } else if b == 0x2f {
        Some('/')
    } else if b == 0x6e {
        Some('\n')
    } else if b == 0x74 {
        Some('\t')
    } else if b == 0x72 {
        Some('\r')
    } else if b == 0x62 {
        Some('\u{8}')
    } else if b == 0x66 {
        Some('\u{c}')
    } else {
        None
    }
}

/// A reading with `head` put before what it read.
pub open spec fn prefixed(head: Seq<char>, r: Result<(Seq<char>, int), Fault>) -> Result<
    (Seq<char>, int),
    Fault,
> {
    match r {
        Ok((tail, end)) => Ok((head + tail, end)),
        Err(f) => Err(f),
    }
}

/// The escape whose backslash is at `p`: what it stands for, and where it ends.
pub open spec fn escape_at(b: Seq<u8>, p: int) -> Result<(char, int), Fault> {
    if p + 1 >= b.len() {
        Err(Fault::OpenEscape)
    } else if b[p + 1] == 0x75 {
        if p + 6 > b.len() {
            Err(Fault::ShortUnicode)
        } else if code_at(b, p + 2) < 0 {
            Err(Fault::BadUnicode)
        } else {
            Ok((scalar(code_at(b, p + 2)), p + 6))
        }
    } else {
        match short_escape(b[p + 1]) {
            Some(c) => Ok((c, p + 2)),
            None => Err(Fault::Escape { byte: b[p + 1] }),
        }
    }
}

/// What is left of a string from `p` on, up to its closing quote, and where it
/// ends: text as it stands, with escapes in between.
pub open spec fn read_text(b: Seq<u8>, p: int) -> Result<(Seq<char>, int), Fault>
    decreases b.len() - p,
{
    proof {
        lemma_plain_end_onward(b, p);
    }
    let end = plain_end(b, p);
    let text = decode_utf8(b.subrange(p, end));
    if end >= b.len() {
        Err(Fault::OpenString)
    } else if b[end] == 0x22 {
        Ok((text, end + 1))
    } else {
        match escape_at(b, end) {
            Ok((c, after)) => prefixed(text.push(c), read_text(b, after)),
            Err(f) => Err(f),
        }
    }
}

/// A string that starts at `p`, and where it ends.
pub open spec fn read_string(b: Seq<u8>, p: int) -> Result<(Seq<char>, int), Fault> {
    if p >= b.len() || b[p] != 0x22 {
        Err(Fault::Expected { byte: 0x22, at: p as usize })
    } else {
        read_text(b, p + 1)
    }
}

/// The bytes a number can hold.
pub open spec fn is_number_byte(b: u8) -> bool {
    (0x30 <= b <= 0x39) || b == 0x2d || b == 0x2b || b == 0x2e || b == 0x65 || b == 0x45
}

pub open spec fn number_end(b: Seq<u8>, p: int) -> int
    decreases b.len() - p,
{
    if 0 <= p < b.len() && is_number_byte(b[p]) {
        number_end(b, p + 1)
    } else {
        p
    }
}

/// Bytes as the characters with the same codes.
pub open spec fn ascii_chars(b: Seq<u8>) -> Seq<char> {
    b.map_values(|x: u8| x as char)
}

/// A number that starts at `p`, and where it ends.
pub open spec fn read_number(b: Seq<u8>, p: int) -> Result<(Value, int), Fault> {
    let end = number_end(b, p);
    let t = ascii_chars(b.subrange(p, end));
    if is_literal(t) {
        Ok((Value::Number(t), end))
    } else {
        Err(Fault::Number { at: p as usize })
    }
}

/// Whether `word` stands at `p`.
pub open spec fn word_at(b: Seq<u8>, p: int, word: Seq<u8>) -> bool {
    p + word.len() <= b.len() && b.subrange(p, p + word.len()) == word
}

pub open spec fn read_word(b: Seq<u8>, p: int, word: Seq<u8>, v: Value) -> Result<
    (Value, int),
    Fault,
> {
    if word_at(b, p, word) {
        Ok((v, p + word.len()))
    } else {
        Err(Fault::Literal { at: p as usize })
    }
}

pub open spec fn true_word() -> Seq<u8> {
    seq![0x74, 0x72, 0x75, 0x65]
}

pub open spec fn false_word() -> Seq<u8> {
    seq![0x66, 0x61, 0x6c, 0x73, 0x65]
}

pub open spec fn null_word() -> Seq<u8> {
    seq![0x6e, 0x75, 0x6c, 0x6c]
}

/// A value at `p`, at a nesting depth, and where it ends.
pub open spec fn read_value(b: Seq<u8>, p: int, depth: nat) -> Result<(Value, int), Fault>
    decreases 34 - depth, 3int, 0int,
{
    let q = after_space(b, p);
    if depth > MAX_DEPTH {
        Err(Fault::TooDeep)
    } else if q >= b.len() {
        Err(Fault::Ended)
    } else if b[q] == 0x7b {
        let r = after_space(b, q + 1);
        if r < b.len() && b[r] == 0x7d {
            Ok((Value::Object(Map::empty()), r + 1))
        } else {
            read_members(b, r, depth, Map::empty())
        }
    } else if b[q] == 0x5b {
        let r = after_space(b, q + 1);
        if r < b.len() && b[r] == 0x5d {
            Ok((Value::Array(seq![]), r + 1))
        } else {
            read_items(b, r, depth, seq![])
        }
    } else if b[q] == 0x22 {
        match read_string(b, q) {
            Ok((t, end)) => Ok((Value::Text(t), end)),
            Err(f) => Err(f),
        }
    } else if b[q] == 0x74 {
        read_word(b, q, true_word(), Value::Bool(true))
    } else if b[q] == 0x66 {
        read_word(b, q, false_word(), Value::Bool(false))
    } else if b[q] == 0x6e {
        read_word(b, q, null_word(), Value::Null)
    } else {
        read_number(b, q)
    }
}

/// The members of an object from `p` on, after those already read. A key that
/// comes again replaces what it had.
pub open spec fn read_members(
    b: Seq<u8>,
    p: int,
    depth: nat,
    seen: Map<Seq<char>, Value>,
) -> Result<(Value, int), Fault>
    decreases 34 - depth, 2int, b.len() - p,
{
    if depth > MAX_DEPTH {
        Err(Fault::TooDeep)
    } else {
        match read_string(b, after_space(b, p)) {
            Err(f) => Err(f),
            Ok((key, key_end)) => {
                let colon = after_space(b, key_end);
                if colon >= b.len() || b[colon] != 0x3a {
                    Err(Fault::Expected { byte: 0x3a, at: colon as usize })
                } else {
                    match read_value(b, colon + 1, depth + 1) {
                        Err(f) => Err(f),
                        Ok((v, value_end)) => {
                            let q = after_space(b, value_end);
                            if p <= q < b.len() && b[q] == 0x2c {
                                read_members(b, q + 1, depth, seen.insert(key, v))
                            } else if q < b.len() && b[q] == 0x7d {
                                Ok((Value::Object(seen.insert(key, v)), q + 1))
                            } else {
                                Err(Fault::CommaOrBrace { at: q as usize })
                            }
                        },
                    }
                }
            },
        }
    }
}

/// The items of an array from `p` on, after those already read.
pub open spec fn read_items(b: Seq<u8>, p: int, depth: nat, seen: Seq<Value>) -> Result<
    (Value, int),
    Fault,
>
    decreases 34 - depth, 2int, b.len() - p,
{
    if depth > MAX_DEPTH {
        Err(Fault::TooDeep)
    } else {
        match read_value(b, p, depth + 1) {
            Err(f) => Err(f),
            Ok((v, value_end)) => {
                let q = after_space(b, value_end);
                if p <= q < b.len() && b[q] == 0x2c {
                    read_items(b, q + 1, depth, seen.push(v))
                } else if q < b.len() && b[q] == 0x5d {
                    Ok((Value::Array(seen.push(v)), q + 1))
                } else {
                    Err(Fault::CommaOrBracket { at: q as usize })
                }
            },
        }
    }
}

/// What a whole input holds: one value, with nothing but space around it.
pub open spec fn parsed(b: Seq<u8>) -> Result<Value, Fault> {
    if b.len() > MAX_BYTES {
        Err(Fault::TooLong { bytes: b.len() as usize })
    } else {
        match read_value(b, after_space(b, 0), 0) {
            Err(f) => Err(f),
            Ok((v, end)) => if after_space(b, end) < b.len() {
                Err(Fault::Trailing { at: after_space(b, end) as usize })
            } else {
                Ok(v)
            },
        }
    }
}

// -------------------------------------------------------------- the reader

/// A reader part way through an input.
pub struct Parser<'a> {
    input: &'a str,
    bytes: &'a [u8],
    pos: usize,
}

/// The members of a map with each value as what it means.
pub open spec fn members(map: Map<Seq<char>, Json>) -> Map<Seq<char>, Value> {
    Map::new(
        |key: Seq<char>| map.contains_key(key),
        |key: Seq<char>|
            if map.contains_key(key) {
                map[key]@
            } else {
                Value::Null
            },
    )
}

/// The items of an array with each as what it means.
pub open spec fn items_of(items: Seq<Json>) -> Seq<Value> {
    Seq::new(
        items.len(),
        |i: int| if 0 <= i < items.len() { items[i]@ } else { Value::Null },
    )
}

pub proof fn lemma_members_insert(map: Map<Seq<char>, Json>, key: Seq<char>, v: Json)
    ensures
        members(map.insert(key, v)) == members(map).insert(key, v@),
{
    assert(members(map.insert(key, v)) =~= members(map).insert(key, v@));
}

pub proof fn lemma_object_view(map: TextMap<Json>)
    ensures
        Json::Object(map)@ == Value::Object(members(map@)),
{
    let j = Json::Object(map);
    assert(j@->Object_0 =~= members(map@));
}

pub proof fn lemma_array_view(items: Vec<Json>)
    ensures
        Json::Array(items)@ == Value::Array(items_of(items@)),
{
    let j = Json::Array(items);
    assert(j@->Array_0 =~= items_of(items@));
}

/// What a method leaves behind: the same input, read no less far.
pub open spec fn moved_on(before: Parser, after: Parser) -> bool {
    &&& after.wf()
    &&& after.source() == before.source()
    &&& after.place() >= before.place()
}

/// A method's outcome is the one the grammar gives.
pub open spec fn agrees(
    got: Result<Json, Fault>,
    after: Parser,
    want: Result<(Value, int), Fault>,
) -> bool {
    match want {
        Ok((v, end)) => got matches Ok(j) && j@ == v && after.place() == end,
        Err(f) => got matches Err(g) && g == f,
    }
}

impl<'a> Parser<'a> {
    pub closed spec fn source(self) -> Seq<u8> {
        self.bytes@
    }

    pub closed spec fn place(self) -> int {
        self.pos as int
    }

    pub closed spec fn wf(self) -> bool {
        &&& self.bytes@ == encode_utf8(self.input@)
        &&& self.pos <= self.bytes@.len() <= MAX_BYTES
    }

    fn peek(&self) -> (b: Option<u8>)
        requires
            self.wf(),
        ensures
            b == (if self.place() < self.source().len() {
                Some(self.source()[self.place()])
            } else {
                None
            }),
    {
        if self.pos < self.bytes.len() {
            Some(self.bytes[self.pos])
        } else {
            None
        }
    }

    fn skip_whitespace(&mut self)
        requires
            old(self).wf(),
        ensures
            moved_on(*old(self), *final(self)),
            final(self).place() == after_space(old(self).source(), old(self).place()),
    {
        while self.pos < self.bytes.len() && (self.bytes[self.pos] == 0x20 || self.bytes[self.pos]
            == 0x09 || self.bytes[self.pos] == 0x0a || self.bytes[self.pos] == 0x0c
            || self.bytes[self.pos] == 0x0d)
            invariant
                moved_on(*old(self), *self),
                after_space(old(self).source(), old(self).place()) == after_space(
                    self.source(),
                    self.place(),
                ),
            decreases self.bytes@.len() - self.pos,
        {
            self.pos = self.pos + 1;
        }
    }

    fn expect(&mut self, byte: u8) -> (r: Result<(), Fault>)
        requires
            old(self).wf(),
        ensures
            moved_on(*old(self), *final(self)),
            match r {
                Ok(()) => {
                    &&& old(self).place() < old(self).source().len()
                    &&& old(self).source()[old(self).place()] == byte
                    &&& final(self).place() == old(self).place() + 1
                },
                Err(f) => {
                    &&& !(old(self).place() < old(self).source().len()
                        && old(self).source()[old(self).place()] == byte)
                    &&& f == (Fault::Expected { byte, at: old(self).place() as usize })
                },
            },
    {
        if self.pos < self.bytes.len() && self.bytes[self.pos] == byte {
            self.pos = self.pos + 1;
            Ok(())
        } else {
            Err(Fault::Expected { byte, at: self.pos })
        }
    }

    /// The input between two places that stand between characters.
    fn slice(&self, from: usize, to: usize) -> (t: String)
        requires
            self.wf(),
            from <= to <= self.source().len(),
            is_char_boundary(self.source(), from as int),
            is_char_boundary(self.source(), to as int),
        ensures
            t@ == decode_utf8(self.source().subrange(from as int, to as int)),
    {
        let ghost b = self.source();
        proof {
            encode_utf8_valid_utf8(self.input@);
            valid_utf8_split(b, to as int);
            lemma_boundary_in_head(b, from as int, to as int);
        }
        let (head, _) = self.input.split_at(to);
        let (_, piece) = head.split_at(from);
        proof {
            assert(b.subrange(0, to as int).subrange(from as int, to as int) =~= b.subrange(
                from as int,
                to as int,
            ));
            encode_utf8_decode_utf8(piece@);
        }
        piece.to_owned()
    }

    fn string(&mut self) -> (r: Result<String, Fault>)
        requires
            old(self).wf(),
        ensures
            moved_on(*old(self), *final(self)),
            match read_string(old(self).source(), old(self).place()) {
                Ok((t, end)) => {
                    &&& r matches Ok(s) && s@ == t
                    &&& final(self).place() == end
                    &&& end > old(self).place()
                },
                Err(f) => r matches Err(g) && g == f,
            },
    {
        let ghost b = self.source();
        let ghost want = read_string(b, self.place());
        match self.expect(0x22) {
            Ok(()) => {},
            Err(f) => {
                return Err(f);
            },
        }
        let mut out = String::new();
        proof {
            encode_utf8_valid_utf8(self.input@);
            lemma_after_ascii(b, self.place() - 1);
            lemma_prefixed_by_nothing(read_text(b, self.place()));
        }
        loop
            invariant
                moved_on(*old(self), *self),
                b == self.source(),
                valid_utf8(b),
                is_char_boundary(b, self.place()),
                self.place() > old(self).place(),
                want == read_string(old(self).source(), old(self).place()),
                want == prefixed(out@, read_text(b, self.place())),
            decreases self.bytes@.len() - self.pos,
        {
            let ghost had = out@;
            let ghost here = self.place();
            let start = self.pos;
            while self.pos < self.bytes.len() && self.bytes[self.pos] != 0x22
                && self.bytes[self.pos] != 0x5c
                invariant
                    moved_on(*old(self), *self),
                    b == self.source(),
                    start <= self.pos,
                    plain_end(b, start as int) == plain_end(b, self.place()),
                decreases self.bytes@.len() - self.pos,
            {
                self.pos = self.pos + 1;
            }
            if self.pos >= self.bytes.len() {
                return Err(Fault::OpenString);
            }
            proof {
                lemma_ascii_boundary(b, self.place());
            }
            let text = self.slice(start, self.pos);
            out.append(text.as_str());
            if self.bytes[self.pos] == 0x22 {
                self.pos = self.pos + 1;
                return Ok(out);
            }
            match self.escape() {
                Ok(c) => {
                    out.push(c);
                    proof {
                        lemma_after_ascii(b, self.place() - 1);
                        lemma_prefixed_twice(had, text@.push(c), read_text(b, self.place()));
                        assert(out@ =~= had + text@.push(c));
                    }
                },
                Err(f) => {
                    return Err(f);
                },
            }
        }
    }

    /// The escape that starts here.
    fn escape(&mut self) -> (r: Result<char, Fault>)
        requires
            old(self).wf(),
            old(self).place() < old(self).source().len(),
        ensures
            moved_on(*old(self), *final(self)),
            match escape_at(old(self).source(), old(self).place()) {
                Ok((c, after)) => {
                    &&& r == Ok::<char, Fault>(c)
                    &&& final(self).place() == after
                    &&& final(self).source()[after - 1] < 0x80
                },
                Err(f) => r == Err::<char, Fault>(f),
            },
    {
        if self.pos + 1 >= self.bytes.len() {
            return Err(Fault::OpenEscape);
        }
        let escaped = self.bytes[self.pos + 1];
        if escaped == 0x75 {
            if self.bytes.len() - self.pos < 6 {
                return Err(Fault::ShortUnicode);
            }
            match self.code(self.pos + 2) {
                None => Err(Fault::BadUnicode),
                Some(code) => {
                    self.pos = self.pos + 6;
                    Ok(scalar_of(code))
                },
            }
        } else {
            match escape_of(escaped) {
                None => Err(Fault::Escape { byte: escaped }),
                Some(c) => {
                    self.pos = self.pos + 2;
                    Ok(c)
                },
            }
        }
    }

    /// The four hexadecimal digits at a place.
    fn code(&self, at: usize) -> (code: Option<u16>)
        requires
            self.wf(),
            at + 4 <= self.source().len(),
        ensures
            match code {
                Some(v) => v == code_at(self.source(), at as int),
                None => code_at(self.source(), at as int) < 0,
            },
    {
        let first = if self.bytes[at] == 0x2b {
            Some(0u8)
        } else {
            hex_of(self.bytes[at])
        };
        match (first, hex_of(self.bytes[at + 1]), hex_of(self.bytes[at + 2]), hex_of(self.bytes[at + 3])) {
            (Some(a), Some(b), Some(c), Some(d)) => Some(
                a as u16 * 4096 + b as u16 * 256 + c as u16 * 16 + d as u16,
            ),
            _ => None,
        }
    }

    fn number(&mut self) -> (r: Result<Json, Fault>)
        requires
            old(self).wf(),
        ensures
            moved_on(*old(self), *final(self)),
            agrees(r, *final(self), read_number(old(self).source(), old(self).place())),
    {
        let ghost b = self.source();
        let start = self.pos;
        let mut chars: Vec<char> = Vec::new();
        while self.pos < self.bytes.len() && number_byte(self.bytes[self.pos])
            invariant
                moved_on(*old(self), *self),
                b == self.source(),
                start == old(self).place(),
                number_end(b, start as int) == number_end(b, self.place()),
                chars@ == ascii_chars(b.subrange(start as int, self.place())),
            decreases self.bytes@.len() - self.pos,
        {
            chars.push(self.bytes[self.pos] as char);
            self.pos = self.pos + 1;
            assert(chars@ =~= ascii_chars(b.subrange(start as int, self.place())));
        }
        if literal(&chars) {
            let text = crate::text::text_of(&chars, 0, chars.len());
            assert(chars@.subrange(0, chars@.len() as int) =~= chars@);
            Ok(Json::Number(text))
        } else {
            Err(Fault::Number { at: start })
        }
    }

    fn literal(&mut self, word: &[u8], value: Json) -> (r: Result<Json, Fault>)
        requires
            old(self).wf(),
        ensures
            moved_on(*old(self), *final(self)),
            agrees(
                r,
                *final(self),
                read_word(old(self).source(), old(self).place(), word@, value@),
            ),
    {
        let ghost b = self.source();
        if self.bytes.len() - self.pos < word.len() {
            return Err(Fault::Literal { at: self.pos });
        }
        for i in 0..word.len()
            invariant
                *self == *old(self),
                self.wf(),
                b == self.source(),
                self.place() + word@.len() <= b.len(),
                forall|k: int| 0 <= k < i ==> b[self.place() + k] == word@[k],
        {
            if self.bytes[self.pos + i] != word[i] {
                assert(b.subrange(self.place(), self.place() + word@.len())[i as int] != word@[i as int]);
                return Err(Fault::Literal { at: self.pos });
            }
        }
        assert(b.subrange(self.place(), self.place() + word@.len()) =~= word@);
        self.pos = self.pos + word.len();
        Ok(value)
    }

    fn value(&mut self, depth: usize) -> (r: Result<Json, Fault>)
        requires
            old(self).wf(),
            depth <= MAX_DEPTH + 1,
        ensures
            moved_on(*old(self), *final(self)),
            agrees(r, *final(self), read_value(old(self).source(), old(self).place(), depth as nat)),
        decreases 40 - depth, 1int,
    {
        if depth > MAX_DEPTH {
            return Err(Fault::TooDeep);
        }
        self.skip_whitespace();
        match self.peek() {
            None => Err(Fault::Ended),
            Some(0x7b) => self.object(depth),
            Some(0x5b) => self.array(depth),
            Some(0x22) => match self.string() {
                Ok(t) => Ok(Json::String(t)),
                Err(f) => Err(f),
            },
            Some(0x74) => {
                let word: [u8; 4] = [0x74, 0x72, 0x75, 0x65];
                assert(word@ =~= true_word());
                self.literal(word.as_slice(), Json::Bool(true))
            },
            Some(0x66) => {
                let word: [u8; 5] = [0x66, 0x61, 0x6c, 0x73, 0x65];
                assert(word@ =~= false_word());
                self.literal(word.as_slice(), Json::Bool(false))
            },
            Some(0x6e) => {
                let word: [u8; 4] = [0x6e, 0x75, 0x6c, 0x6c];
                assert(word@ =~= null_word());
                self.literal(word.as_slice(), Json::Null)
            },
            Some(_) => self.number(),
        }
    }

    fn object(&mut self, depth: usize) -> (r: Result<Json, Fault>)
        requires
            old(self).wf(),
            depth <= MAX_DEPTH,
            old(self).place() < old(self).source().len(),
            old(self).source()[old(self).place()] == 0x7b,
        ensures
            moved_on(*old(self), *final(self)),
            agrees(r, *final(self), read_value(old(self).source(), old(self).place(), depth as nat)),
        decreases 40 - depth, 0int,
    {
        let ghost b = self.source();
        let ghost want = read_value(b, self.place(), depth as nat);
        self.pos = self.pos + 1;
        let mut map: TextMap<Json> = TextMap::new();
        self.skip_whitespace();
        proof {
            lemma_object_view(map);
            assert(members(map@) =~= Map::empty());
        }
        if self.pos < self.bytes.len() && self.bytes[self.pos] == 0x7d {
            self.pos = self.pos + 1;
            return Ok(Json::Object(map));
        }
        loop
            invariant
                moved_on(*old(self), *self),
                b == self.source(),
                b == old(self).source(),
                depth <= MAX_DEPTH,
                want == read_value(old(self).source(), old(self).place(), depth as nat),
                want == read_members(b, self.place(), depth as nat, members(map@)),
            decreases self.bytes@.len() - self.pos,
        {
            let ghost p = self.place();
            self.skip_whitespace();
            let key = match self.string() {
                Ok(key) => key,
                Err(f) => {
                    return Err(f);
                },
            };
            self.skip_whitespace();
            match self.expect(0x3a) {
                Ok(()) => {},
                Err(f) => {
                    return Err(f);
                },
            }
            let value = match self.value(depth + 1) {
                Ok(value) => value,
                Err(f) => {
                    return Err(f);
                },
            };
            proof {
                lemma_members_insert(map@, key@, value);
            }
            map.insert(key, value);
            self.skip_whitespace();
            if self.pos < self.bytes.len() && self.bytes[self.pos] == 0x2c {
                self.pos = self.pos + 1;
            } else if self.pos < self.bytes.len() && self.bytes[self.pos] == 0x7d {
                self.pos = self.pos + 1;
                proof {
                    lemma_object_view(map);
                }
                return Ok(Json::Object(map));
            } else {
                return Err(Fault::CommaOrBrace { at: self.pos });
            }
        }
    }

    fn array(&mut self, depth: usize) -> (r: Result<Json, Fault>)
        requires
            old(self).wf(),
            depth <= MAX_DEPTH,
            old(self).place() < old(self).source().len(),
            old(self).source()[old(self).place()] == 0x5b,
        ensures
            moved_on(*old(self), *final(self)),
            agrees(r, *final(self), read_value(old(self).source(), old(self).place(), depth as nat)),
        decreases 40 - depth, 0int,
    {
        let ghost b = self.source();
        let ghost want = read_value(b, self.place(), depth as nat);
        self.pos = self.pos + 1;
        let mut items: Vec<Json> = Vec::new();
        self.skip_whitespace();
        proof {
            lemma_array_view(items);
            assert(items_of(items@) =~= seq![]);
        }
        if self.pos < self.bytes.len() && self.bytes[self.pos] == 0x5d {
            self.pos = self.pos + 1;
            return Ok(Json::Array(items));
        }
        loop
            invariant
                moved_on(*old(self), *self),
                b == self.source(),
                b == old(self).source(),
                depth <= MAX_DEPTH,
                want == read_value(old(self).source(), old(self).place(), depth as nat),
                want == read_items(b, self.place(), depth as nat, items_of(items@)),
            decreases self.bytes@.len() - self.pos,
        {
            let item = match self.value(depth + 1) {
                Ok(item) => item,
                Err(f) => {
                    return Err(f);
                },
            };
            let ghost had = items@;
            items.push(item);
            assert(items_of(items@) =~= items_of(had).push(item@));
            self.skip_whitespace();
            if self.pos < self.bytes.len() && self.bytes[self.pos] == 0x2c {
                self.pos = self.pos + 1;
            } else if self.pos < self.bytes.len() && self.bytes[self.pos] == 0x5d {
                self.pos = self.pos + 1;
                proof {
                    lemma_array_view(items);
                }
                return Ok(Json::Array(items));
            } else {
                return Err(Fault::CommaOrBracket { at: self.pos });
            }
        }
    }
}

proof fn lemma_prefixed_twice(
    head: Seq<char>,
    more: Seq<char>,
    r: Result<(Seq<char>, int), Fault>,
)
    ensures
        prefixed(head, prefixed(more, r)) == prefixed(head + more, r),
{
    if let Ok((tail, end)) = r {
        assert(head + (more + tail) =~= head + more + tail);
    }
}

proof fn lemma_prefixed_by_nothing(r: Result<(Seq<char>, int), Fault>)
    ensures
        prefixed(seq![], r) == r,
{
    if let Ok((tail, end)) = r {
        assert(Seq::<char>::empty() + tail =~= tail);
    }
}

/// An ASCII byte of well-formed text starts a character.
pub proof fn lemma_ascii_boundary(b: Seq<u8>, i: int)
    requires
        valid_utf8(b),
        0 <= i < b.len(),
        b[i] < 0x80,
    ensures
        is_char_boundary(b, i),
{
    is_char_boundary_iff_not_is_continuation_byte(b, i);
    let x = b[i];
    assert(x < 0x80 ==> !is_continuation_byte(x));
}

/// What follows an ASCII byte of well-formed text starts a character.
pub proof fn lemma_after_ascii(b: Seq<u8>, i: int)
    requires
        valid_utf8(b),
        0 <= i < b.len(),
        b[i] < 0x80,
    ensures
        is_char_boundary(b, i + 1),
    decreases b.len(),
{
    let n = length_of_first_scalar(b);
    if i == 0 {
        assert(n == 1);
        reveal_with_fuel(is_char_boundary, 2);
    } else {
        lemma_ascii_boundary(b, i);
        let rest = pop_first_scalar(b);
        assert(i >= n) by {
            reveal_with_fuel(is_char_boundary, 2);
        }
        assert(rest[i - n] == b[i]);
        lemma_after_ascii(rest, i - n);
    }
}

/// A boundary of a text is one of any of its beginnings that reach it.
pub proof fn lemma_boundary_in_head(b: Seq<u8>, from: int, to: int)
    requires
        valid_utf8(b),
        is_char_boundary(b, from),
        is_char_boundary(b, to),
        0 <= from <= to <= b.len(),
    ensures
        valid_utf8(b.subrange(0, to)),
        is_char_boundary(b.subrange(0, to), from),
{
    let head = b.subrange(0, to);
    valid_utf8_split(b, to);
    if from == to {
        is_char_boundary_start_end_of_seq(head);
    } else {
        is_char_boundary_iff_not_is_continuation_byte(b, from);
        is_char_boundary_iff_not_is_continuation_byte(head, from);
    }
}

fn hex_of(b: u8) -> (v: Option<u8>)
    ensures
        match v {
            Some(x) => x == hex_value(b) && x < 16,
            None => hex_value(b) < 0,
        },
{
    if 0x30 <= b && b <= 0x39 {
        Some(b - 0x30)
    } else if 0x61 <= b && b <= 0x66 {
        Some(b - 0x61 + 10)
    } else if 0x41 <= b && b <= 0x46 {
        Some(b - 0x41 + 10)
    } else {
        None
    }
}

fn scalar_of(code: u16) -> (c: char)
    ensures
        c == scalar(code as int),
{
    match char::from_u32(code as u32) {
        Some(c) => {
            proof {
                char_is_scalar(c);
                char_u32_cast(c, code as u32);
            }
            c
        },
        None => '\u{fffd}',
    }
}

fn number_byte(b: u8) -> (yes: bool)
    ensures
        yes == is_number_byte(b),
{
    (0x30 <= b && b <= 0x39) || b == 0x2d || b == 0x2b || b == 0x2e || b == 0x65 || b == 0x45
}

fn escape_of(b: u8) -> (c: Option<char>)
    ensures
        c == short_escape(b),
{
    if b == 0x22 {
        Some('"')
    } else if b == 0x5c {
        Some('\\')
    } else if b == 0x2f {
        Some('/')
    } else if b == 0x6e {
        Some('\n')
    } else if b == 0x74 {
        Some('\t')
    } else if b == 0x72 {
        Some('\r')
    } else if b == 0x62 {
        Some('\u{8}')
    } else if b == 0x66 {
        Some('\u{c}')
    } else {
        None
    }
}

/// Read a whole input.
pub fn parse(input: &str) -> (r: Result<Json, String>)
    ensures
        match parsed(encode_utf8(input@)) {
            Ok(v) => r matches Ok(j) && j@ == v,
            Err(f) => r matches Err(m) && m@ == f.text(),
        },
{
    match read(input) {
        Ok(j) => Ok(j),
        Err(f) => Err(f.message()),
    }
}

/// Read a whole input, with what is wrong as a value.
pub fn read(input: &str) -> (r: Result<Json, Fault>)
    ensures
        match parsed(encode_utf8(input@)) {
            Ok(v) => r matches Ok(j) && j@ == v,
            Err(f) => r matches Err(g) && g == f,
        },
{
    let bytes = input.as_bytes();
    if bytes.len() > MAX_BYTES {
        return Err(Fault::TooLong { bytes: bytes.len() });
    }
    let mut parser = Parser { input, bytes, pos: 0 };
    parser.skip_whitespace();
    match parser.value(0) {
        Err(f) => Err(f),
        Ok(value) => {
            parser.skip_whitespace();
            if parser.pos < parser.bytes.len() {
                Err(Fault::Trailing { at: parser.pos })
            } else {
                Ok(value)
            }
        },
    }
}

// -------------------------------------------------------------- the fields

impl Value {
    pub open spec fn get(self, key: Seq<char>) -> Option<Value> {
        match self {
            Value::Object(map) if map.contains_key(key) => Some(map[key]),
            _ => None,
        }
    }

    pub open spec fn as_str(self) -> Option<Seq<char>> {
        match self {
            Value::Text(t) => Some(t),
            _ => None,
        }
    }

    pub open spec fn as_array(self) -> Seq<Value> {
        match self {
            Value::Array(items) => items,
            _ => seq![],
        }
    }

    pub open spec fn as_bool(self) -> Option<bool> {
        match self {
            Value::Bool(b) => Some(b),
            _ => None,
        }
    }

    pub open spec fn as_u64(self) -> Option<u64> {
        match self {
            Value::Number(t) => whole(t),
            _ => None,
        }
    }

    pub open spec fn string(self, key: Seq<char>) -> Option<Seq<char>> {
        match self.get(key) {
            Some(v) => v.as_str(),
            None => None,
        }
    }

    /// The items under a key, none if there is no array there.
    pub open spec fn list(self, key: Seq<char>) -> Seq<Value> {
        match self.get(key) {
            Some(v) => v.as_array(),
            None => seq![],
        }
    }
}

impl Json {
    pub fn get(&self, key: &str) -> (found: Option<&Json>)
        ensures
            match self@.get(key@) {
                Some(v) => found matches Some(j) && j@ == v,
                None => found is None,
            },
    {
        match self {
            Json::Object(map) => {
                proof {
                    lemma_object_view(*map);
                }
                map.get(key)
            },
            _ => None,
        }
    }

    pub fn as_str(&self) -> (text: Option<&str>)
        ensures
            match self@.as_str() {
                Some(t) => text matches Some(s) && s@ == t,
                None => text is None,
            },
    {
        match self {
            Json::String(s) => Some(s.as_str()),
            _ => None,
        }
    }

    pub fn as_array(&self) -> (items: &[Json])
        ensures
            items_of(items@) == self@.as_array(),
    {
        match self {
            Json::Array(items) => {
                proof {
                    lemma_array_view(*items);
                }
                items.as_slice()
            },
            _ => {
                let none: &[Json] = &[];
                assert(items_of(none@) =~= self@.as_array());
                none
            },
        }
    }

    pub fn as_bool(&self) -> (value: Option<bool>)
        ensures
            value == self@.as_bool(),
    {
        match self {
            Json::Bool(b) => Some(*b),
            _ => None,
        }
    }

    /// A whole number, for ids that come back from an API. A negative or
    /// fractional value is not one, and reading it as one would be a guess.
    pub fn as_u64(&self) -> (value: Option<u64>)
        ensures
            value == self@.as_u64(),
    {
        match self {
            Json::Number(t) => whole_number(t.as_str()),
            _ => None,
        }
    }

    /// String value of a key, for the common "read one field" case.
    pub fn string(&self, key: &str) -> (text: Option<String>)
        ensures
            match self@.string(key@) {
                Some(t) => text matches Some(s) && s@ == t,
                None => text is None,
            },
    {
        match self.get(key) {
            Some(value) => match value.as_str() {
                Some(s) => Some(s.to_owned()),
                None => None,
            },
            None => None,
        }
    }

    /// The items under a key, none if there is no array there.
    pub fn list(&self, key: &str) -> (items: &[Json])
        ensures
            items_of(items@) == self@.list(key@),
    {
        match self.get(key) {
            Some(value) => value.as_array(),
            None => {
                let none: &[Json] = &[];
                assert(items_of(none@) =~= self@.list(key@));
                none
            },
        }
    }
}

// ---------------------------------------------------- what holds of the input

/// Only a space, a tab, a line feed, a form feed and a carriage return are passed
/// over, and all of them are.
pub proof fn lemma_space_is_passed_over(b: Seq<u8>, p: int)
    requires
        0 <= p <= b.len(),
    ensures
        p <= after_space(b, p) <= b.len(),
        forall|i: int|
            p <= i < after_space(b, p) ==> #[trigger] b[i] == 0x20 || b[i] == 0x09 || b[i] == 0x0a
                || b[i] == 0x0c || b[i] == 0x0d,
        after_space(b, p) < b.len() ==> {
            let x = b[after_space(b, p)];
            x != 0x20 && x != 0x09 && x != 0x0a && x != 0x0c && x != 0x0d
        },
    decreases b.len() - p,
{
    if p < b.len() && is_space(b[p]) {
        lemma_space_is_passed_over(b, p + 1);
    }
}

/// An input of more than sixteen mebibytes is not read, and no other is too long.
/// An input with anything behind its value is not read either.
pub proof fn lemma_one_value_and_no_more(b: Seq<u8>)
    requires
        b.len() <= usize::MAX,
    ensures
        b.len() > 16777216 <==> parsed(b) is Err && parsed(b)->Err_0 is TooLong,
        b.len() <= 16777216 && read_value(b, 0, 0) is Ok && after_space(
            b,
            read_value(b, 0, 0)->Ok_0.1,
        ) >= b.len() ==> parsed(b) == Ok::<Value, Fault>(read_value(b, 0, 0)->Ok_0.0),
        parsed(b) is Ok ==> read_value(b, 0, 0) is Ok && after_space(
            b,
            read_value(b, 0, 0)->Ok_0.1,
        ) >= b.len(),
{
    lemma_space_is_passed_over(b, 0);
    let q = after_space(b, 0);
    assert(after_space(b, q) == q);
    assert(read_value(b, q, 0) == read_value(b, 0, 0));
    lemma_no_value_is_too_long(b, q, 0);
}

proof fn lemma_no_text_is_too_long(b: Seq<u8>, p: int)
    ensures
        read_text(b, p) matches Err(f) ==> !(f is TooLong),
    decreases b.len() - p,
{
    lemma_plain_end_onward(b, p);
    let end = plain_end(b, p);
    if end < b.len() && b[end] != 0x22 {
        match escape_at(b, end) {
            Ok((c, after)) => {
                lemma_no_text_is_too_long(b, after);
            },
            Err(f) => {},
        }
    }
}

proof fn lemma_no_value_is_too_long(b: Seq<u8>, p: int, depth: nat)
    ensures
        read_value(b, p, depth) matches Err(f) ==> !(f is TooLong),
    decreases 34 - depth, 3int, 0int,
{
    let q = after_space(b, p);
    if depth <= MAX_DEPTH && q < b.len() {
        if b[q] == 0x7b {
            lemma_no_members_are_too_long(b, after_space(b, q + 1), depth, Map::empty());
        } else if b[q] == 0x5b {
            lemma_no_items_are_too_long(b, after_space(b, q + 1), depth, seq![]);
        } else if b[q] == 0x22 {
            lemma_no_text_is_too_long(b, q + 1);
        }
    }
}

proof fn lemma_no_members_are_too_long(
    b: Seq<u8>,
    p: int,
    depth: nat,
    seen: Map<Seq<char>, Value>,
)
    ensures
        read_members(b, p, depth, seen) matches Err(f) ==> !(f is TooLong),
    decreases 34 - depth, 2int, b.len() - p,
{
    if depth <= MAX_DEPTH {
        let at = after_space(b, p);
        lemma_no_text_is_too_long(b, at + 1);
        match read_string(b, at) {
            Err(f) => {},
            Ok((key, key_end)) => {
                let colon = after_space(b, key_end);
                if colon < b.len() && b[colon] == 0x3a {
                    lemma_no_value_is_too_long(b, colon + 1, depth + 1);
                    match read_value(b, colon + 1, depth + 1) {
                        Err(f) => {},
                        Ok((v, value_end)) => {
                            let q = after_space(b, value_end);
                            if p <= q < b.len() && b[q] == 0x2c {
                                lemma_no_members_are_too_long(
                                    b,
                                    q + 1,
                                    depth,
                                    seen.insert(key, v),
                                );
                            }
                        },
                    }
                }
            },
        }
    }
}

proof fn lemma_no_items_are_too_long(b: Seq<u8>, p: int, depth: nat, seen: Seq<Value>)
    ensures
        read_items(b, p, depth, seen) matches Err(f) ==> !(f is TooLong),
    decreases 34 - depth, 2int, b.len() - p,
{
    if depth <= MAX_DEPTH {
        lemma_no_value_is_too_long(b, p, depth + 1);
        match read_value(b, p, depth + 1) {
            Err(f) => {},
            Ok((v, value_end)) => {
                let q = after_space(b, value_end);
                if p <= q < b.len() && b[q] == 0x2c {
                    lemma_no_items_are_too_long(b, q + 1, depth, seen.push(v));
                }
            },
        }
    }
}

/// Lists may nest thirty-two deep below the outermost value, and no deeper: what
/// opens one more is not read.
pub proof fn lemma_nesting_is_bounded(b: Seq<u8>, p: int, depth: nat)
    requires
        0 <= p,
        depth <= 33,
        p + (33 - depth) <= b.len(),
        forall|i: int| p <= i < p + (33 - depth) ==> #[trigger] b[i] == 0x5b,
        p + (33 - depth) < b.len() ==> !is_space(b[p + (33 - depth)]) && b[p + (33 - depth)] != 0x5d,
    ensures
        read_value(b, p, depth) == Err::<(Value, int), Fault>(Fault::TooDeep),
    decreases 33 - depth,
{
    if depth <= 32 {
        assert(b[p] == 0x5b);
        assert(after_space(b, p) == p);
        lemma_nesting_is_bounded(b, p + 1, depth + 1);
        if depth < 32 {
            assert(b[p + 1] == 0x5b);
        }
        assert(after_space(b, p + 1) == p + 1);
    }
}

/// Brackets that open and close, up to the depth that is allowed, are read as
/// lists inside each other.
pub open spec fn nested(n: nat) -> Value
    decreases n,
{
    if n == 0 {
        Value::Array(seq![])
    } else {
        Value::Array(seq![nested((n - 1) as nat)])
    }
}

pub proof fn lemma_nesting_is_allowed(b: Seq<u8>, p: int, n: nat, depth: nat)
    requires
        0 <= p,
        depth + n <= 32,
        p + 2 * (n + 1) <= b.len(),
        forall|i: int| p <= i < p + n + 1 ==> #[trigger] b[i] == 0x5b,
        forall|i: int| p + n + 1 <= i < p + 2 * (n + 1) ==> #[trigger] b[i] == 0x5d,
    ensures
        read_value(b, p, depth) == Ok::<(Value, int), Fault>((nested(n), p + 2 * (n + 1))),
    decreases n,
{
    assert(b[p] == 0x5b);
    assert(after_space(b, p) == p);
    if n == 0 {
        assert(b[p + 1] == 0x5d);
        assert(after_space(b, p + 1) == p + 1);
    } else {
        assert(b[p + 1] == 0x5b);
        assert(after_space(b, p + 1) == p + 1);
        lemma_nesting_is_allowed(b, p + 1, (n - 1) as nat, depth + 1);
        let end = p + 1 + 2 * n;
        assert(b[end] == 0x5d);
        assert(after_space(b, end) == end);
        let inner = nested((n - 1) as nat);
        assert(read_value(b, p + 1, depth + 1) == Ok::<(Value, int), Fault>((inner, end)));
        assert(read_items(b, p + 1, depth, seq![]) == Ok::<(Value, int), Fault>(
            (Value::Array(Seq::<Value>::empty().push(inner)), end + 1),
        ));
        assert(Seq::<Value>::empty().push(inner) =~= seq![inner]);
    }
}

/// An escape in a string stands for one character, and reading goes on behind
/// it: a quote, a backslash, a slash, a line feed, a tab, a carriage return, a
/// backspace or a form feed by a letter. Any other letter but `u` is refused.
pub proof fn lemma_letter_escapes(b: Seq<u8>, p: int, c: char)
    requires
        0 <= p,
        p + 1 < b.len(),
        b[p] == 0x5c,
        (b[p + 1] == 0x22 && c == '"') || (b[p + 1] == 0x5c && c == '\\') || (b[p + 1] == 0x2f && c
            == '/') || (b[p + 1] == 0x6e && c == '\n') || (b[p + 1] == 0x74 && c == '\t') || (b[p
            + 1] == 0x72 && c == '\r') || (b[p + 1] == 0x62 && c == '\u{8}') || (b[p + 1] == 0x66
            && c == '\u{c}'),
    ensures
        read_text(b, p) == prefixed(seq![c], read_text(b, p + 2)),
{
    assert(plain_end(b, p) == p);
    let none = decode_utf8(b.subrange(p, p));
    lemma_decode_nothing(b, p);
    assert(none.push(c) =~= seq![c]);
    assert(escape_at(b, p) == Ok::<(char, int), Fault>((c, p + 2)));
}

proof fn lemma_decode_nothing(b: Seq<u8>, p: int)
    requires
        0 <= p <= b.len(),
    ensures
        decode_utf8(b.subrange(p, p)).len() == 0,
{
    assert(b.subrange(p, p) =~= encode_utf8(seq![]));
    encode_utf8_decode_utf8(seq![]);
}

/// A letter that stands for nothing is refused.
pub proof fn lemma_other_escapes_are_refused(b: Seq<u8>, p: int)
    requires
        0 <= p,
        p + 1 < b.len(),
        b[p] == 0x5c,
        b[p + 1] != 0x22 && b[p + 1] != 0x5c && b[p + 1] != 0x2f && b[p + 1] != 0x6e && b[p + 1]
            != 0x74 && b[p + 1] != 0x72 && b[p + 1] != 0x62 && b[p + 1] != 0x66 && b[p + 1] != 0x75,
    ensures
        read_text(b, p) == Err::<(Seq<char>, int), Fault>(Fault::Escape { byte: b[p + 1] }),
{
    assert(plain_end(b, p) == p);
}

/// Whether a byte is the hexadecimal digit for a value, small or capital.
pub open spec fn writes_hex(byte: u8, v: int) -> bool {
    &&& 0 <= v < 16
    &&& v < 10 ==> byte == 0x30 + v
    &&& v >= 10 ==> byte == 0x61 + (v - 10) || byte == 0x41 + (v - 10)
}

/// Four hexadecimal digits behind `\u` stand for the character with that code,
/// and for the replacement character where it is half of a surrogate pair.
pub proof fn lemma_code_escapes(b: Seq<u8>, p: int, w: int, x: int, y: int, z: int)
    requires
        0 <= p,
        p + 6 <= b.len(),
        b[p] == 0x5c,
        b[p + 1] == 0x75,
        writes_hex(b[p + 2], w),
        writes_hex(b[p + 3], x),
        writes_hex(b[p + 4], y),
        writes_hex(b[p + 5], z),
    ensures
        ({
            let code = w * 4096 + x * 256 + y * 16 + z;
            let c = if 0xd800 <= code <= 0xdfff {
                '\u{fffd}'
            } else {
                code as char
            };
            read_text(b, p) == prefixed(seq![c], read_text(b, p + 6))
        }),
{
    assert(plain_end(b, p) == p);
    let code = w * 4096 + x * 256 + y * 16 + z;
    lemma_decode_nothing(b, p);
    assert(code_at(b, p + 2) == code);
    let c = scalar(code);
    assert(decode_utf8(b.subrange(p, p)).push(c) =~= seq![c]);
    assert(escape_at(b, p) == Ok::<(char, int), Fault>((c, p + 6)));
}

/// A string ends at its first quote that no backslash comes before, and an input
/// that ends sooner is refused.
pub proof fn lemma_where_a_string_ends(b: Seq<u8>, p: int, end: int)
    requires
        0 <= p <= end <= b.len(),
        forall|i: int| p <= i < end ==> #[trigger] b[i] != 0x22 && b[i] != 0x5c,
    ensures
        end < b.len() && b[end] == 0x22 ==> read_text(b, p) == Ok::<(Seq<char>, int), Fault>(
            (decode_utf8(b.subrange(p, end)), end + 1),
        ),
        end == b.len() ==> read_text(b, p) == Err::<(Seq<char>, int), Fault>(Fault::OpenString),
    decreases end - p,
{
    if end == b.len() || b[end] == 0x22 {
        lemma_plain_run(b, p, end);
    }
}

proof fn lemma_plain_run(b: Seq<u8>, p: int, end: int)
    requires
        0 <= p <= end <= b.len(),
        forall|i: int| p <= i < end ==> #[trigger] b[i] != 0x22 && b[i] != 0x5c,
        end == b.len() || b[end] == 0x22,
    ensures
        plain_end(b, p) == end,
    decreases end - p,
{
    if p < end {
        lemma_plain_run(b, p + 1, end);
    }
}

/// What is under a key of an object is what was put there. What is no object has
/// nothing under any key, and what is no text or no list gives none.
pub proof fn lemma_what_is_under_a_key(m: Map<Seq<char>, Value>, key: Seq<char>, v: Value)
    ensures
        Value::Object(m.insert(key, v)).get(key) == Some(v),
        Value::Object(m.remove(key)).get(key) is None,
        !(v is Object) ==> v.get(key) is None && v.string(key) is None && v.list(key).len() == 0,
        v matches Value::Text(t) ==> Value::Object(m.insert(key, v)).string(key) == Some(t),
        !(v is Text) ==> Value::Object(m.insert(key, v)).string(key) is None,
        v matches Value::Array(items) ==> Value::Object(m.insert(key, v)).list(key) == items,
        !(v is Array) ==> Value::Object(m.insert(key, v)).list(key).len() == 0,
        v matches Value::Bool(b) ==> v.as_bool() == Some(b),
        !(v is Bool) ==> v.as_bool() is None,
        v matches Value::Number(t) ==> v.as_u64() == whole(t),
        !(v is Number) ==> v.as_u64() is None,
{
}


/// Members that were read before stay, but for those that are read again: the
/// last value of a key counts.
pub proof fn lemma_last_member_counts(
    b: Seq<u8>,
    p: int,
    depth: nat,
    seen: Map<Seq<char>, Value>,
)
    ensures
        read_members(b, p, depth, seen) matches Ok((v, end)) ==> (read_members(
            b,
            p,
            depth,
            Map::empty(),
        ) matches Ok((w, same)) && same == end && v is Object && w is Object && v->Object_0
            == seen.union_prefer_right(w->Object_0)),
        read_members(b, p, depth, seen) matches Err(f) ==> read_members(
            b,
            p,
            depth,
            Map::empty(),
        ) == Err::<(Value, int), Fault>(f),
    decreases b.len() - p,
{
    if depth <= MAX_DEPTH {
        if let Ok((key, key_end)) = read_string(b, after_space(b, p)) {
            let colon = after_space(b, key_end);
            if colon < b.len() && b[colon] == 0x3a {
                if let Ok((v, value_end)) = read_value(b, colon + 1, depth + 1) {
                    let q = after_space(b, value_end);
                    let one = Map::<Seq<char>, Value>::empty().insert(key, v);
                    let more = seen.insert(key, v);
                    if p <= q < b.len() && b[q] == 0x2c {
                        lemma_last_member_counts(b, q + 1, depth, more);
                        lemma_last_member_counts(b, q + 1, depth, one);
                        if let Ok((rest, _)) = read_members(b, q + 1, depth, Map::empty()) {
                            let m = rest->Object_0;
                            assert(more.union_prefer_right(m) =~= seen.union_prefer_right(
                                one.union_prefer_right(m),
                            ));
                        }
                    } else if q < b.len() && b[q] == 0x7d {
                        assert(more =~= seen.union_prefer_right(one));
                    }
                }
            }
        }
    }
}

/// Items are kept in the order in which they stand.
pub proof fn lemma_items_are_read_in_order(b: Seq<u8>, p: int, depth: nat, seen: Seq<Value>)
    ensures
        read_items(b, p, depth, seen) matches Ok((v, end)) ==> (read_items(b, p, depth, seq![])
            matches Ok((w, same)) && same == end && v is Array && w is Array && v->Array_0 == seen
            + w->Array_0),
        read_items(b, p, depth, seen) matches Err(f) ==> read_items(b, p, depth, seq![]) == Err::<
            (Value, int),
            Fault,
        >(f),
    decreases b.len() - p,
{
    if depth <= MAX_DEPTH {
        if let Ok((v, value_end)) = read_value(b, p, depth + 1) {
            let q = after_space(b, value_end);
            let one = Seq::<Value>::empty().push(v);
            if p <= q < b.len() && b[q] == 0x2c {
                lemma_items_are_read_in_order(b, q + 1, depth, seen.push(v));
                lemma_items_are_read_in_order(b, q + 1, depth, one);
                if let Ok((rest, _)) = read_items(b, q + 1, depth, seq![]) {
                    assert(seen.push(v) + rest->Array_0 =~= seen + (one + rest->Array_0));
                }
            } else if q < b.len() && b[q] == 0x5d {
                assert(seen.push(v) =~= seen + one);
            }
        }
    }
}

} // verus!
