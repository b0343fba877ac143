//! What the reader makes of the documents that are written.

use vstd::prelude::*;
use vstd::utf8::*;

use crate::document::{
    escape, escaped, event_field_text, event_fields, event_line, event_start_text, json_text,
    lemma_encode_concat, lemma_stands_split, lemma_string_back, member_text, object_text,
    optional_number, optional_text, stands_at, truth,
};
use crate::json::{
    after_space, ascii_chars, false_word, is_number_byte, is_space, null_word, number_end, parsed,
    read_items, read_members, read_number, read_string, read_value, true_word, word_at, Fault,
    MAX_BYTES, MAX_DEPTH, Value,
};
use crate::number::{after_sign, digits, digits_end, is_literal, lemma_whole_one, whole};
use crate::text::{decimal_of, is_digit, joined};

verus! {

// ----------------------------------------------------------- texts in bytes

/// Two texts one after the other stand where their bytes do.
pub proof fn lemma_stands_sum(b: Seq<u8>, p: int, left: Seq<char>, right: Seq<char>)
    requires
        stands_at(b, p, encode_utf8(left + right)),
    ensures
        stands_at(b, p, encode_utf8(left)),
        stands_at(b, p + encode_utf8(left).len(), encode_utf8(right)),
        encode_utf8(left + right).len() == encode_utf8(left).len() + encode_utf8(right).len(),
{
    lemma_encode_concat(left, right);
    lemma_stands_split(b, p, encode_utf8(left), encode_utf8(right));
}

/// An ASCII text stands where its characters do.
proof fn lemma_stands_ascii(b: Seq<u8>, p: int, t: Seq<char>)
    requires
        stands_at(b, p, encode_utf8(t)),
        is_ascii_chars(t),
    ensures
        encode_utf8(t).len() == t.len(),
        p + t.len() <= b.len(),
        forall|i: int| 0 <= i < t.len() ==> #[trigger] b[p + i] == t[i] as u8,
{
    is_ascii_chars_encode_utf8(t);
    assert forall|i: int| 0 <= i < t.len() implies #[trigger] b[p + i] == t[i] as u8 by {
        assert(b[p + i] == encode_utf8(t)[i]);
    }
}

/// Whether a text is nothing but spaces and line ends.
pub open spec fn is_gap(w: Seq<char>) -> bool {
    forall|i: int| 0 <= i < w.len() ==> #[trigger] w[i] == ' ' || w[i] == '\n'
}

proof fn lemma_after_gap(b: Seq<u8>, p: int, w: Seq<char>)
    requires
        is_gap(w),
        stands_at(b, p, encode_utf8(w)),
    ensures
        encode_utf8(w).len() == w.len(),
        after_space(b, p) == after_space(b, p + w.len()),
    decreases w.len(),
{
    assert(is_ascii_chars(w));
    lemma_stands_ascii(b, p, w);
    if w.len() > 0 {
        let head = w.take(1);
        let rest = w.skip(1);
        assert(head + rest =~= w);
        lemma_stands_sum(b, p, head, rest);
        assert(is_ascii_chars(head));
        lemma_stands_ascii(b, p, head);
        lemma_after_gap(b, p + 1, rest);
        assert(b[p + 0] == w[0] as u8);
    }
}

proof fn lemma_after_space(b: Seq<u8>, p: int)
    ensures
        after_space(b, p) >= p,
        after_space(b, after_space(b, p)) == after_space(b, p),
    decreases b.len() - p,
{
    if 0 <= p < b.len() && is_space(b[p]) {
        lemma_after_space(b, p + 1);
    }
}

/// A value is read from where the spaces before it end.
proof fn lemma_value_after_space(b: Seq<u8>, p: int, q: int, depth: nat)
    requires
        after_space(b, p) == after_space(b, q),
    ensures
        read_value(b, p, depth) == read_value(b, q, depth),
{
}

// ------------------------------------------------------------------- values

/// Whether a number that ends at `p` ends there.
pub open spec fn closes(b: Seq<u8>, p: int) -> bool {
    p >= b.len() || !is_number_byte(b[p])
}

/// Whether a text is read as a value, wherever it stands.
#[verifier::opaque]
pub open spec fn reads_as(t: Seq<char>, v: Value, depth: nat) -> bool {
    forall|b: Seq<u8>, p: int|
        stands_at(b, p, encode_utf8(t)) && closes(b, p + encode_utf8(t).len()) ==> (
        #[trigger] read_value(b, p, depth)) == Ok::<(Value, int), Fault>(
            (v, p + encode_utf8(t).len()),
        ) && after_space(b, p) < p + encode_utf8(t).len()
}

pub proof fn lemma_reads_gap(w: Seq<char>, t: Seq<char>, v: Value, depth: nat)
    requires
        is_gap(w),
        reads_as(t, v, depth),
    ensures
        reads_as(w + t, v, depth),
{
    reveal(reads_as);
    assert forall|b: Seq<u8>, p: int|
        stands_at(b, p, encode_utf8(w + t)) && closes(b, p + encode_utf8(w + t).len()) implies (
    #[trigger] read_value(b, p, depth)) == Ok::<(Value, int), Fault>(
        (v, p + encode_utf8(w + t).len()),
    ) && after_space(b, p) < p + encode_utf8(w + t).len() by {
        lemma_stands_sum(b, p, w, t);
        lemma_after_gap(b, p, w);
        lemma_value_after_space(b, p, p + w.len(), depth);
        assert(read_value(b, p + w.len(), depth) is Ok);
    }
}

pub proof fn lemma_reads_text(s: Seq<char>, depth: nat)
    requires
        depth <= MAX_DEPTH,
    ensures
        reads_as(json_text(s), Value::Text(s), depth),
{
    reveal(reads_as);
    let t = json_text(s);
    assert forall|b: Seq<u8>, p: int|
        stands_at(b, p, encode_utf8(t)) && closes(b, p + encode_utf8(t).len()) implies (
    #[trigger] read_value(b, p, depth)) == Ok::<(Value, int), Fault>(
        (Value::Text(s), p + encode_utf8(t).len()),
    ) && after_space(b, p) < p + encode_utf8(t).len() by {
        lemma_string_back(b, p, s);
        assert(after_space(b, p) == p);
    }
}

/// What an optional text is read as.
pub open spec fn optional_value(t: Option<String>) -> Value {
    match t {
        Some(s) => Value::Text(s@),
        None => Value::Null,
    }
}

pub proof fn lemma_reads_optional(t: Option<String>, depth: nat)
    requires
        depth <= MAX_DEPTH,
    ensures
        reads_as(optional_text(t), optional_value(t), depth),
{
    reveal(reads_as);
    match t {
        Some(s) => {
            lemma_reads_text(s@, depth);
        },
        None => {
            reveal_strlit("null");
            let w = "null"@;
            assert forall|b: Seq<u8>, p: int|
                stands_at(b, p, encode_utf8(w)) && closes(b, p + encode_utf8(w).len()) implies (
            #[trigger] read_value(b, p, depth)) == Ok::<(Value, int), Fault>(
                (Value::Null, p + encode_utf8(w).len()),
            ) && after_space(b, p) < p + encode_utf8(w).len() by {
                assert(is_ascii_chars(w));
                lemma_stands_ascii(b, p, w);
                assert(b[p + 0] == 0x6e && b[p + 1] == 0x75 && b[p + 2] == 0x6c && b[p + 3] == 0x6c);
                assert(b.subrange(p, p + 4) =~= null_word());
                assert(after_space(b, p) == p);
                assert(word_at(b, p, null_word()));
            }
        },
    }
}

pub proof fn lemma_reads_truth(yes: bool, depth: nat)
    requires
        depth <= MAX_DEPTH,
    ensures
        reads_as(truth(yes), Value::Bool(yes), depth),
{
    reveal(reads_as);
    reveal_strlit("true");
    reveal_strlit("false");
    let w = truth(yes);
    assert forall|b: Seq<u8>, p: int|
        stands_at(b, p, encode_utf8(w)) && closes(b, p + encode_utf8(w).len()) implies (
    #[trigger] read_value(b, p, depth)) == Ok::<(Value, int), Fault>(
        (Value::Bool(yes), p + encode_utf8(w).len()),
    ) && after_space(b, p) < p + encode_utf8(w).len() by {
        assert(is_ascii_chars(w));
        lemma_stands_ascii(b, p, w);
        assert(b[p + 0] == w[0] as u8 && b[p + 1] == w[1] as u8 && b[p + 2] == w[2] as u8 && b[p + 3]
            == w[3] as u8);
        if yes {
            assert(b.subrange(p, p + 4) =~= true_word());
            assert(word_at(b, p, true_word()));
        } else {
            assert(b[p + 4] == w[4] as u8);
            assert(b.subrange(p, p + 5) =~= false_word());
            assert(word_at(b, p, false_word()));
        }
        assert(after_space(b, p) == p);
    }
}

/// Whether a text is a row of digits.
pub open spec fn is_digits(t: Seq<char>) -> bool {
    t.len() > 0 && forall|i: int| 0 <= i < t.len() ==> is_digit(#[trigger] t[i])
}

proof fn lemma_number_end(b: Seq<u8>, p: int, end: int)
    requires
        0 <= p <= end <= b.len(),
        forall|i: int| p <= i < end ==> is_number_byte(#[trigger] b[i]),
        closes(b, end),
    ensures
        number_end(b, p) == end,
    decreases end - p,
{
    if p < end {
        lemma_number_end(b, p + 1, end);
    }
}

proof fn lemma_all_digits_end(t: Seq<char>, from: int)
    requires
        is_digits(t),
        0 <= from <= t.len(),
    ensures
        digits_end(t, from) == t.len(),
    decreases t.len() - from,
{
    if from < t.len() {
        assert(is_digit(t[from]));
        lemma_all_digits_end(t, from + 1);
    }
}

proof fn lemma_digits_are_literal(t: Seq<char>)
    requires
        is_digits(t),
    ensures
        is_literal(t),
        digits(t) == t,
{
    assert(is_digit(t[0]));
    assert(after_sign(t, 0) == 0);
    lemma_all_digits_end(t, 0);
    assert(digits(t) =~= t);
}

pub proof fn lemma_reads_number(t: Seq<char>, depth: nat)
    requires
        depth <= MAX_DEPTH,
        is_digits(t),
    ensures
        reads_as(t, Value::Number(t), depth),
{
    reveal(reads_as);
    assert forall|b: Seq<u8>, p: int|
        stands_at(b, p, encode_utf8(t)) && closes(b, p + encode_utf8(t).len()) implies (
    #[trigger] read_value(b, p, depth)) == Ok::<(Value, int), Fault>(
        (Value::Number(t), p + encode_utf8(t).len()),
    ) && after_space(b, p) < p + encode_utf8(t).len() by {
        assert(is_ascii_chars(t)) by {
            assert forall|i: int| 0 <= i < t.len() implies '\0' <= #[trigger] t[i] <= '\u{7f}' by {
                assert(is_digit(t[i]));
            }
        }
        lemma_stands_ascii(b, p, t);
        let end = p + t.len();
        assert forall|i: int| p <= i < end implies is_number_byte(#[trigger] b[i]) by {
            assert(is_digit(t[i - p]));
            assert(b[p + (i - p)] == t[i - p] as u8);
        }
        lemma_number_end(b, p, end);
        lemma_digits_are_literal(t);
        assert(ascii_chars(b.subrange(p, end)) =~= t) by {
            assert forall|i: int| 0 <= i < t.len() implies ascii_chars(b.subrange(p, end))[i]
                == t[i] by {
                assert(is_digit(t[i]));
                assert(b[p + i] == t[i] as u8);
            }
        }
        assert(is_digit(t[0]));
        assert(b[p + 0] == t[0] as u8);
        assert(after_space(b, p) == p);
        assert(read_number(b, p) == Ok::<(Value, int), Fault>((Value::Number(t), end)));
    }
}

pub proof fn lemma_decimal_is_digits(n: nat)
    ensures
        is_digits(decimal_of(n)),
    decreases n,
{
    if n >= 10 {
        lemma_decimal_is_digits(n / 10);
    }
}

pub proof fn lemma_one_is_one()
    ensures
        whole("1"@) == Some(1u64),
        is_digits("1"@),
{
    reveal_strlit("1");
    let t = "1"@;
    assert(is_digits(t));
    lemma_digits_are_literal(t);
    lemma_whole_one(t);
}

// -------------------------------------------------------------------- lists

/// The texts with a gap before each but the first.
pub open spec fn spaced(ts: Seq<Seq<char>>, gap: Seq<char>) -> Seq<Seq<char>> {
    Seq::new(ts.len(), |i: int| if i == 0 { ts[i] } else { gap + ts[i] })
}

/// A gap after a separator is as good as one before what follows.
proof fn lemma_joined_spaced(ts: Seq<Seq<char>>, sep: Seq<char>, gap: Seq<char>)
    ensures
        joined(ts, sep + gap) == joined(spaced(ts, gap), sep),
    decreases ts.len(),
{
    if ts.len() > 1 {
        lemma_joined_spaced(ts.drop_last(), sep, gap);
        assert(spaced(ts, gap).drop_last() =~= spaced(ts.drop_last(), gap));
        assert(joined(ts.drop_last(), sep + gap) + (sep + gap) + ts.last() =~= joined(
            spaced(ts, gap).drop_last(),
            sep,
        ) + sep + (gap + ts.last()));
    }
}

proof fn lemma_joined_front(ts: Seq<Seq<char>>, sep: Seq<char>)
    requires
        ts.len() > 1,
    ensures
        joined(ts, sep) == ts[0] + sep + joined(ts.skip(1), sep),
    decreases ts.len(),
{
    let rest = ts.skip(1);
    let front = ts.drop_last();
    if ts.len() == 2 {
        assert(joined(front, sep) == front[0]);
        assert(joined(rest, sep) == rest[0]);
    } else {
        lemma_joined_front(front, sep);
        assert(front.skip(1) =~= rest.drop_last());
        assert(joined(rest, sep) == joined(rest.drop_last(), sep) + sep + rest.last());
        assert(joined(ts, sep) =~= ts[0] + sep + joined(rest, sep));
    }
}

/// A gap and a closing byte stand where they do, and close a number.
proof fn lemma_tail(b: Seq<u8>, p: int, gap: Seq<char>, close: char)
    requires
        is_gap(gap),
        stands_at(b, p, encode_utf8(gap + seq![close])),
        close == ']' || close == '}' || close == ',',
    ensures
        closes(b, p),
        after_space(b, p) == p + gap.len(),
        p + gap.len() < b.len(),
        b[p + gap.len()] == close as u8,
        encode_utf8(gap + seq![close]).len() == gap.len() + 1,
{
    let c = seq![close];
    lemma_stands_sum(b, p, gap, c);
    lemma_after_gap(b, p, gap);
    assert(is_ascii_chars(c));
    lemma_stands_ascii(b, p + gap.len(), c);
    assert(b[p + gap.len() + 0] == close as u8);
    if gap.len() > 0 {
        assert(is_ascii_chars(gap));
        lemma_stands_ascii(b, p, gap);
        assert(b[p + 0] == gap[0] as u8);
    }
}

/// The items of a list are read one by one.
proof fn lemma_items_back(
    b: Seq<u8>,
    p: int,
    start: int,
    depth: nat,
    seen: Seq<Value>,
    ts: Seq<Seq<char>>,
    vs: Seq<Value>,
    gap: Seq<char>,
)
    requires
        ts.len() > 0,
        ts.len() == vs.len(),
        depth <= MAX_DEPTH,
        forall|i: int| 0 <= i < ts.len() ==> reads_as(#[trigger] ts[i], vs[i], depth + 1),
        is_gap(gap),
        stands_at(b, p, encode_utf8(joined(ts, ","@) + (gap + "]"@))),
        start == p || start == after_space(b, p),
    ensures
        read_items(b, start, depth, seen) == Ok::<(Value, int), Fault>(
            (
                Value::Array(seen + vs),
                p + encode_utf8(joined(ts, ","@) + (gap + "]"@)).len(),
            ),
        ),
    decreases ts.len(),
{
    reveal(reads_as);
    reveal_strlit(",");
    reveal_strlit("]");
    let t = ts[0];
    let v = vs[0];
    let whole = joined(ts, ","@) + (gap + "]"@);
    let end = p + encode_utf8(t).len();
    assert(reads_as(ts[0], vs[0], depth + 1));
    lemma_after_space(b, p);
    lemma_value_after_space(b, start, p, depth + 1);
    if ts.len() == 1 {
        assert("]"@ =~= seq![']']);
        lemma_stands_sum(b, p, t, gap + "]"@);
        lemma_tail(b, end, gap, ']');
        assert(read_value(b, p, depth + 1) is Ok);
        assert(seen.push(v) =~= seen + vs);
    } else {
        let rest = ts.skip(1);
        let more = joined(rest, ","@) + (gap + "]"@);
        lemma_joined_front(ts, ","@);
        assert(whole =~= t + (","@ + more));
        lemma_stands_sum(b, p, t, ","@ + more);
        lemma_stands_sum(b, end, ","@, more);
        let none = Seq::<char>::empty();
        assert(none + seq![','] =~= ","@);
        lemma_tail(b, end, none, ',');
        assert(read_value(b, p, depth + 1) is Ok);
        assert forall|i: int| 0 <= i < rest.len() implies reads_as(
            #[trigger] rest[i],
            vs.skip(1)[i],
            depth + 1,
        ) by {
            assert(reads_as(ts[i + 1], vs[i + 1], depth + 1));
        }
        lemma_items_back(b, end + 1, end + 1, depth, seen.push(v), rest, vs.skip(1), gap);
        assert(seen.push(v) + vs.skip(1) =~= seen + vs);
    }
}

/// No value starts with a closing bracket.
proof fn lemma_not_closed(b: Seq<u8>, r: int, depth: nat)
    requires
        0 <= r < b.len(),
        b[r] == 0x5d,
        depth <= MAX_DEPTH,
    ensures
        read_items(b, r, depth, seq![]) is Err,
{
    assert(after_space(b, r) == r);
    assert(number_end(b, r) == r);
    assert(ascii_chars(b.subrange(r, r)).len() == 0);
    assert(!is_literal(ascii_chars(b.subrange(r, r))));
    assert(read_value(b, r, depth + 1) is Err);
}

/// A list that stands somewhere is read as the values of its items.
proof fn lemma_list_at(
    b: Seq<u8>,
    p: int,
    head: Seq<char>,
    us: Seq<Seq<char>>,
    gap: Seq<char>,
    vs: Seq<Value>,
    depth: nat,
)
    requires
        us.len() == vs.len(),
        depth <= MAX_DEPTH,
        forall|i: int| 0 <= i < us.len() ==> reads_as(#[trigger] us[i], vs[i], depth + 1),
        is_gap(head),
        is_gap(gap),
        stands_at(b, p, encode_utf8("["@ + (head + (joined(us, ","@) + (gap + "]"@))))),
    ensures
        read_value(b, p, depth) == Ok::<(Value, int), Fault>(
            (
                Value::Array(vs),
                p + encode_utf8("["@ + (head + (joined(us, ","@) + (gap + "]"@)))).len(),
            ),
        ),
        after_space(b, p) < p + encode_utf8(
            "["@ + (head + (joined(us, ","@) + (gap + "]"@))),
        ).len(),
{
    reveal_strlit("[");
    reveal_strlit("]");
    assert("]"@ =~= seq![']']);
    let inside = joined(us, ","@) + (gap + "]"@);
    lemma_stands_sum(b, p, "["@, head + inside);
    assert(is_ascii_chars("["@));
    lemma_stands_ascii(b, p, "["@);
    assert(b[p + 0] == 0x5b);
    assert(after_space(b, p) == p);
    lemma_stands_sum(b, p + 1, head, inside);
    lemma_after_gap(b, p + 1, head);
    let q = p + 1 + head.len();
    if us.len() == 0 {
        assert(inside =~= gap + seq![']']);
        lemma_tail(b, q, gap, ']');
        assert(vs =~= seq![]);
    } else {
        lemma_after_space(b, q);
        let r = after_space(b, q);
        lemma_items_back(b, q, r, depth, seq![], us, vs, gap);
        assert(Seq::<Value>::empty() + vs =~= vs);
        if r < b.len() && b[r] == 0x5d {
            lemma_not_closed(b, r, depth);
        }
    }
}

/// A list is read as the values of its items.
pub proof fn lemma_reads_list(
    head: Seq<char>,
    ts: Seq<Seq<char>>,
    sep: Seq<char>,
    gap: Seq<char>,
    vs: Seq<Value>,
    depth: nat,
)
    requires
        ts.len() == vs.len(),
        depth <= MAX_DEPTH,
        forall|i: int| 0 <= i < ts.len() ==> reads_as(#[trigger] ts[i], vs[i], depth + 1),
        is_gap(head),
        is_gap(sep),
        is_gap(gap),
    ensures
        reads_as(
            "["@ + head + joined(ts, ","@ + sep) + (gap + "]"@),
            Value::Array(vs),
            depth,
        ),
{
    let us = spaced(ts, sep);
    lemma_joined_spaced(ts, ","@, sep);
    assert forall|i: int| 0 <= i < us.len() implies reads_as(
        #[trigger] us[i],
        vs[i],
        depth + 1,
    ) by {
        assert(reads_as(ts[i], vs[i], depth + 1));
        if i > 0 {
            lemma_reads_gap(sep, ts[i], vs[i], depth + 1);
        }
    }
    let t = "["@ + head + joined(ts, ","@ + sep) + (gap + "]"@);
    assert(t =~= "["@ + (head + (joined(us, ","@) + (gap + "]"@))));
    assert(reads_as(t, Value::Array(vs), depth)) by {
        assert forall|b: Seq<u8>, p: int|
            stands_at(b, p, encode_utf8(t)) && closes(b, p + encode_utf8(t).len()) implies (
        #[trigger] read_value(b, p, depth)) == Ok::<(Value, int), Fault>(
            (Value::Array(vs), p + encode_utf8(t).len()),
        ) && after_space(b, p) < p + encode_utf8(t).len() by {
            lemma_list_at(b, p, head, us, gap, vs, depth);
        }
        reveal(reads_as);
    }
}

// ------------------------------------------------------------------ objects

/// The member that is read from a place: its key, its value and where it ends.
pub open spec fn member_at(b: Seq<u8>, p: int, depth: nat) -> Option<(Seq<char>, Value, int)> {
    match read_string(b, after_space(b, p)) {
        Err(_) => None,
        Ok((key, key_end)) => {
            let colon = after_space(b, key_end);
            if colon >= b.len() || b[colon] != 0x3a {
                None
            } else {
                match read_value(b, colon + 1, depth + 1) {
                    Err(_) => None,
                    Ok((v, end)) => Some((key, v, end)),
                }
            }
        },
    }
}

/// Whether a text is read as a member, wherever it stands.
#[verifier::opaque]
pub open spec fn is_member(t: Seq<char>, key: Seq<char>, v: Value, depth: nat) -> bool {
    forall|b: Seq<u8>, p: int|
        stands_at(b, p, encode_utf8(t)) && closes(b, p + encode_utf8(t).len()) ==> (
        #[trigger] member_at(b, p, depth)) == Some((key, v, p + encode_utf8(t).len()))
            && after_space(b, p) < p + encode_utf8(t).len()
}

proof fn lemma_member_at(
    b: Seq<u8>,
    p: int,
    lead: Seq<char>,
    key: Seq<char>,
    text: Seq<char>,
    v: Value,
    depth: nat,
)
    requires
        is_gap(lead),
        reads_as(text, v, depth + 1),
        stands_at(b, p, encode_utf8(lead + (json_text(key) + (": "@ + text)))),
        closes(b, p + encode_utf8(lead + (json_text(key) + (": "@ + text))).len()),
    ensures
        member_at(b, p, depth) == Some(
            (key, v, p + encode_utf8(lead + (json_text(key) + (": "@ + text))).len()),
        ),
        after_space(b, p) < p + encode_utf8(lead + (json_text(key) + (": "@ + text))).len(),
{
    reveal(reads_as);
    reveal_strlit(": ");
    lemma_stands_sum(b, p, lead, json_text(key) + (": "@ + text));
    lemma_after_gap(b, p, lead);
    let at = p + lead.len();
    lemma_stands_sum(b, at, json_text(key), ": "@ + text);
    lemma_string_back(b, at, key);
    assert(after_space(b, at) == at);
    let colon = at + encode_utf8(json_text(key)).len();
    lemma_stands_sum(b, colon, ": "@, text);
    assert(is_ascii_chars(": "@));
    lemma_stands_ascii(b, colon, ": "@);
    assert(b[colon + 0] == 0x3a);
    assert(b[colon + 1] == 0x20);
    assert(after_space(b, colon) == colon);
    assert(after_space(b, colon + 1) == after_space(b, colon + 2));
    lemma_value_after_space(b, colon + 1, colon + 2, depth + 1);
    assert(read_value(b, colon + 2, depth + 1) is Ok);
}

pub proof fn lemma_is_member(
    indent: Seq<char>,
    key: Seq<char>,
    text: Seq<char>,
    v: Value,
    depth: nat,
)
    requires
        is_gap(indent),
        reads_as(text, v, depth + 1),
    ensures
        is_member(member_text(indent, key, text), key, v, depth),
{
    reveal(is_member);
    let lead = indent + "  "@;
    let t = member_text(indent, key, text);
    assert(is_gap(lead)) by {
        reveal_strlit("  ");
    }
    assert(t =~= lead + (json_text(key) + (": "@ + text)));
    assert forall|b: Seq<u8>, p: int|
        stands_at(b, p, encode_utf8(t)) && closes(b, p + encode_utf8(t).len()) implies (
    #[trigger] member_at(b, p, depth)) == Some((key, v, p + encode_utf8(t).len())) && after_space(
        b,
        p,
    ) < p + encode_utf8(t).len() by {
        lemma_member_at(b, p, lead, key, text, v, depth);
    }
}

proof fn lemma_member_gap(w: Seq<char>, t: Seq<char>, key: Seq<char>, v: Value, depth: nat)
    requires
        is_gap(w),
        is_member(t, key, v, depth),
    ensures
        is_member(w + t, key, v, depth),
{
    reveal(is_member);
    assert forall|b: Seq<u8>, p: int|
        stands_at(b, p, encode_utf8(w + t)) && closes(b, p + encode_utf8(w + t).len()) implies (
    #[trigger] member_at(b, p, depth)) == Some((key, v, p + encode_utf8(w + t).len()))
        && after_space(b, p) < p + encode_utf8(w + t).len() by {
        lemma_stands_sum(b, p, w, t);
        lemma_after_gap(b, p, w);
        assert(member_at(b, p + w.len(), depth) is Some);
    }
}

/// What is known after members were read on top of what was.
pub open spec fn with_members(
    seen: Map<Seq<char>, Value>,
    keys: Seq<Seq<char>>,
    vs: Seq<Value>,
) -> Map<Seq<char>, Value>
    decreases keys.len(),
{
    if keys.len() == 0 {
        seen
    } else {
        with_members(seen.insert(keys[0], vs[0]), keys.skip(1), vs.skip(1))
    }
}

/// A key has the value of its last member.
pub proof fn lemma_with_members(
    seen: Map<Seq<char>, Value>,
    keys: Seq<Seq<char>>,
    vs: Seq<Value>,
    key: Seq<char>,
    at: int,
)
    requires
        keys.len() == vs.len(),
        -1 <= at < keys.len(),
        at >= 0 ==> keys[at] == key,
        forall|i: int| at < i < keys.len() ==> #[trigger] keys[i] != key,
    ensures
        at >= 0 ==> with_members(seen, keys, vs).contains_key(key) && with_members(
            seen,
            keys,
            vs,
        )[key] == vs[at],
        at < 0 ==> with_members(seen, keys, vs).contains_key(key) == seen.contains_key(key)
            && with_members(seen, keys, vs)[key] == seen[key],
    decreases keys.len(),
{
    if keys.len() > 0 {
        let next = if at >= 0 {
            at - 1
        } else {
            -1
        };
        assert forall|i: int| next < i < keys.len() - 1 implies #[trigger] keys.skip(1)[i]
            != key by {
            assert(keys[i + 1] != key);
        }
        lemma_with_members(seen.insert(keys[0], vs[0]), keys.skip(1), vs.skip(1), key, next);
        if at < 0 {
            assert(keys[0] != key);
        }
    }
}

/// The members of an object are read one by one.
proof fn lemma_members_back(
    b: Seq<u8>,
    p: int,
    start: int,
    depth: nat,
    seen: Map<Seq<char>, Value>,
    ts: Seq<Seq<char>>,
    keys: Seq<Seq<char>>,
    vs: Seq<Value>,
    gap: Seq<char>,
)
    requires
        ts.len() > 0,
        ts.len() == vs.len(),
        ts.len() == keys.len(),
        depth <= MAX_DEPTH,
        forall|i: int| 0 <= i < ts.len() ==> is_member(#[trigger] ts[i], keys[i], vs[i], depth),
        is_gap(gap),
        stands_at(b, p, encode_utf8(joined(ts, ","@) + (gap + "}"@))),
        start == p || start == after_space(b, p),
    ensures
        read_members(b, start, depth, seen) == Ok::<(Value, int), Fault>(
            (
                Value::Object(with_members(seen, keys, vs)),
                p + encode_utf8(joined(ts, ","@) + (gap + "}"@)).len(),
            ),
        ),
        after_space(b, p) < b.len() && b[after_space(b, p)] == 0x22,
    decreases ts.len(),
{
    reveal(is_member);
    reveal_strlit(",");
    reveal_strlit("}");
    let t = ts[0];
    let v = vs[0];
    let key = keys[0];
    let whole = joined(ts, ","@) + (gap + "}"@);
    let end = p + encode_utf8(t).len();
    assert(is_member(ts[0], keys[0], vs[0], depth));
    lemma_after_space(b, p);
    assert(member_at(b, start, depth) == member_at(b, p, depth));
    if ts.len() == 1 {
        assert("}"@ =~= seq!['}']);
        lemma_stands_sum(b, p, t, gap + "}"@);
        lemma_tail(b, end, gap, '}');
        assert(member_at(b, p, depth) is Some);
        assert(keys.skip(1).len() == 0);
        assert(with_members(seen.insert(key, v), keys.skip(1), vs.skip(1)) == seen.insert(key, v));
    } else {
        let rest = ts.skip(1);
        let more = joined(rest, ","@) + (gap + "}"@);
        lemma_joined_front(ts, ","@);
        assert(whole =~= t + (","@ + more));
        lemma_stands_sum(b, p, t, ","@ + more);
        lemma_stands_sum(b, end, ","@, more);
        let none = Seq::<char>::empty();
        assert(none + seq![','] =~= ","@);
        lemma_tail(b, end, none, ',');
        assert(member_at(b, p, depth) is Some);
        assert forall|i: int| 0 <= i < rest.len() implies is_member(
            #[trigger] rest[i],
            keys.skip(1)[i],
            vs.skip(1)[i],
            depth,
        ) by {
            assert(is_member(ts[i + 1], keys[i + 1], vs[i + 1], depth));
        }
        lemma_members_back(
            b,
            end + 1,
            end + 1,
            depth,
            seen.insert(key, v),
            rest,
            keys.skip(1),
            vs.skip(1),
            gap,
        );
    }
}

/// What stands between braces is read as what its members say.
proof fn lemma_reads_braces(
    head: Seq<char>,
    ts: Seq<Seq<char>>,
    sep: Seq<char>,
    gap: Seq<char>,
    keys: Seq<Seq<char>>,
    vs: Seq<Value>,
    depth: nat,
)
    requires
        ts.len() > 0,
        ts.len() == vs.len(),
        ts.len() == keys.len(),
        depth <= MAX_DEPTH,
        forall|i: int| 0 <= i < ts.len() ==> is_member(#[trigger] ts[i], keys[i], vs[i], depth),
        is_gap(head),
        is_gap(sep),
        is_gap(gap),
    ensures
        reads_as(
            "{"@ + head + joined(ts, ","@ + sep) + (gap + "}"@),
            Value::Object(with_members(Map::empty(), keys, vs)),
            depth,
        ),
{
    reveal(reads_as);
    reveal_strlit("{");
    let us = spaced(ts, sep);
    lemma_joined_spaced(ts, ","@, sep);
    assert forall|i: int| 0 <= i < us.len() implies is_member(
        #[trigger] us[i],
        keys[i],
        vs[i],
        depth,
    ) by {
        assert(is_member(ts[i], keys[i], vs[i], depth));
        if i > 0 {
            lemma_member_gap(sep, ts[i], keys[i], vs[i], depth);
        }
    }
    let inside = joined(us, ","@) + (gap + "}"@);
    let t = "{"@ + head + joined(ts, ","@ + sep) + (gap + "}"@);
    assert(t =~= "{"@ + (head + inside));
    assert forall|b: Seq<u8>, p: int|
        stands_at(b, p, encode_utf8(t)) && closes(b, p + encode_utf8(t).len()) implies (
    #[trigger] read_value(b, p, depth)) == Ok::<(Value, int), Fault>(
        (
            Value::Object(with_members(Map::empty(), keys, vs)),
            p + encode_utf8(t).len(),
        ),
    ) && after_space(b, p) < p + encode_utf8(t).len() by {
        lemma_stands_sum(b, p, "{"@, head + inside);
        assert(is_ascii_chars("{"@));
        lemma_stands_ascii(b, p, "{"@);
        assert(b[p + 0] == 0x7b);
        assert(after_space(b, p) == p);
        lemma_stands_sum(b, p + 1, head, inside);
        lemma_after_gap(b, p + 1, head);
        let q = p + 1 + head.len();
        let r = after_space(b, q);
        lemma_after_space(b, q);
        lemma_members_back(b, q, r, depth, Map::empty(), us, keys, vs, gap);
    }
}

/// An object is read as what its members say.
pub proof fn lemma_reads_object(
    indent: Seq<char>,
    ts: Seq<Seq<char>>,
    keys: Seq<Seq<char>>,
    vs: Seq<Value>,
    depth: nat,
)
    requires
        ts.len() > 0,
        ts.len() == vs.len(),
        ts.len() == keys.len(),
        depth <= MAX_DEPTH,
        forall|i: int| 0 <= i < ts.len() ==> is_member(#[trigger] ts[i], keys[i], vs[i], depth),
        is_gap(indent),
    ensures
        reads_as(
            object_text(indent, ts),
            Value::Object(with_members(Map::empty(), keys, vs)),
            depth,
        ),
{
    reveal_strlit("{\n");
    reveal_strlit("{");
    reveal_strlit(",");
    reveal_strlit("\n");
    reveal_strlit(",\n");
    let line = "\n"@;
    assert("{"@ + line =~= "{\n"@);
    assert(","@ + line =~= ",\n"@);
    lemma_reads_braces(line, ts, line, line + indent, keys, vs, depth);
    assert("{"@ + line + joined(ts, ","@ + line) + (line + indent + "}"@) =~= object_text(
        indent,
        ts,
    ));
}

/// A document that is a value and a line end reads as that value.
pub proof fn lemma_document_reads(t: Seq<char>, v: Value)
    requires
        reads_as(t, v, 0),
        encode_utf8(t + "\n"@).len() <= MAX_BYTES,
    ensures
        parsed(encode_utf8(t + "\n"@)) == Ok::<Value, Fault>(v),
{
    reveal(reads_as);
    reveal_strlit("\n");
    let b = encode_utf8(t + "\n"@);
    lemma_stands_sum(b, 0, t, "\n"@);
    let end = encode_utf8(t).len() as int;
    assert(is_ascii_chars("\n"@));
    lemma_stands_ascii(b, end, "\n"@);
    assert(b[end + 0] == 0x0a);
    assert(read_value(b, 0, 0) is Ok);
    lemma_after_space(b, 0);
    lemma_value_after_space(b, after_space(b, 0), 0, 0);
    assert(after_space(b, end) == after_space(b, end + 1));
}

// ------------------------------------------------------------------- events

/// A member with nothing before it.
spec fn bare_member(key: Seq<char>, text: Seq<char>) -> Seq<char> {
    json_text(key) + (": "@ + text)
}

proof fn lemma_is_bare_member(key: Seq<char>, text: Seq<char>, v: Value, depth: nat)
    requires
        reads_as(text, v, depth + 1),
    ensures
        is_member(bare_member(key, text), key, v, depth),
{
    reveal(is_member);
    let none = Seq::<char>::empty();
    let t = bare_member(key, text);
    assert(t =~= none + t);
    assert forall|b: Seq<u8>, p: int|
        stands_at(b, p, encode_utf8(t)) && closes(b, p + encode_utf8(t).len()) implies (
    #[trigger] member_at(b, p, depth)) == Some((key, v, p + encode_utf8(t).len())) && after_space(
        b,
        p,
    ) < p + encode_utf8(t).len() by {
        lemma_member_at(b, p, none, key, text, v, depth);
    }
}

/// The members of an event.
spec fn event_members(
    event: Seq<char>,
    keys: Seq<Seq<char>>,
    values: Seq<Seq<char>>,
) -> Seq<Seq<char>> {
    seq![bare_member("event"@, json_text(event))] + Seq::new(
        keys.len(),
        |i: int| bare_member(keys[i], values[i]),
    )
}

proof fn lemma_event_start(event: Seq<char>)
    ensures
        "{"@ + bare_member("event"@, json_text(event)) == event_start_text(event),
{
    reveal_strlit("{");
    reveal_strlit(": ");
    reveal_strlit("event");
    reveal_strlit("{\"event\": ");
    assert(escaped("event"@) =~= "event"@) by {
        reveal_with_fuel(escaped, 6);
        assert("event"@.skip(1).skip(1).skip(1).skip(1).skip(1).len() == 0);
    }
    assert("{"@ + bare_member("event"@, json_text(event)) =~= event_start_text(event));
}

proof fn lemma_event_joined(event: Seq<char>, keys: Seq<Seq<char>>, values: Seq<Seq<char>>)
    requires
        keys.len() == values.len(),
    ensures
        "{"@ + joined(event_members(event, keys, values), ", "@) == event_start_text(event)
            + event_fields(keys, values),
    decreases keys.len(),
{
    let ts = event_members(event, keys, values);
    lemma_event_start(event);
    if keys.len() == 0 {
        assert(ts =~= seq![bare_member("event"@, json_text(event))]);
        assert(event_start_text(event) + event_fields(keys, values) =~= event_start_text(event));
    } else {
        lemma_event_joined(event, keys.drop_last(), values.drop_last());
        assert(ts.drop_last() =~= event_members(event, keys.drop_last(), values.drop_last()));
        assert(ts.last() == bare_member(keys.last(), values.last()));
        assert("{"@ + joined(ts, ", "@) =~= "{"@ + joined(ts.drop_last(), ", "@)
            + event_field_text(keys.last(), values.last()));
        assert(event_start_text(event) + event_fields(keys, values) =~= event_start_text(event)
            + event_fields(keys.drop_last(), values.drop_last()) + event_field_text(
            keys.last(),
            values.last(),
        ));
    }
}

/// An event is one object: it reads as what happened and the fields with it.
pub proof fn lemma_event_reads_back(
    event: Seq<char>,
    keys: Seq<Seq<char>>,
    values: Seq<Seq<char>>,
    vs: Seq<Value>,
)
    requires
        keys.len() == values.len(),
        keys.len() == vs.len(),
        forall|i: int| 0 <= i < values.len() ==> reads_as(#[trigger] values[i], vs[i], 1),
        encode_utf8(event_line(event, keys, values)).len() <= MAX_BYTES,
    ensures
        parsed(encode_utf8(event_line(event, keys, values))) == Ok::<Value, Fault>(
            Value::Object(
                with_members(
                    Map::empty(),
                    seq!["event"@] + keys,
                    seq![Value::Text(event)] + vs,
                ),
            ),
        ),
{
    reveal_strlit(",");
    reveal_strlit(" ");
    reveal_strlit(", ");
    reveal_strlit("}\n");
    reveal_strlit("}");
    reveal_strlit("\n");
    let none = Seq::<char>::empty();
    let ts = event_members(event, keys, values);
    let all_keys = seq!["event"@] + keys;
    let all_values = seq![Value::Text(event)] + vs;
    lemma_event_start(event);
    lemma_event_joined(event, keys, values);
    assert forall|i: int| 0 <= i < ts.len() implies is_member(
        #[trigger] ts[i],
        all_keys[i],
        all_values[i],
        0,
    ) by {
        if i == 0 {
            lemma_reads_text(event, 1);
            lemma_is_bare_member("event"@, json_text(event), all_values[0], 0);
        } else {
            assert(reads_as(values[i - 1], vs[i - 1], 1));
            lemma_is_bare_member(keys[i - 1], values[i - 1], vs[i - 1], 0);
        }
    }
    assert(","@ + " "@ =~= ", "@);
    lemma_reads_braces(none, ts, " "@, none, all_keys, all_values, 0);
    let t = "{"@ + none + joined(ts, ", "@) + (none + "}"@);
    assert(t =~= "{"@ + joined(ts, ", "@) + "}"@);
    assert(event_line(event, keys, values) =~= t + "\n"@);
    lemma_document_reads(t, Value::Object(with_members(Map::empty(), all_keys, all_values)));
}

/// Whether a text has no line end.
pub open spec fn one_line(s: Seq<char>) -> bool {
    forall|i: int| 0 <= i < s.len() ==> #[trigger] s[i] != '\n'
}

/// A JSON string has no line end, whatever is in it.
pub proof fn lemma_json_text_is_one_line(s: Seq<char>)
    ensures
        one_line(json_text(s)),
{
    lemma_escaped_is_one_line(s);
}

proof fn lemma_escaped_is_one_line(s: Seq<char>)
    ensures
        one_line(escaped(s)),
    decreases s.len(),
{
    if s.len() > 0 {
        lemma_escaped_is_one_line(s.skip(1));
        lemma_escape_is_one_line(s[0]);
    }
}

proof fn lemma_escape_is_one_line(c: char)
    ensures
        one_line(escape(c)),
{
}

/// An event is one line: its only line end is its last character. So a reader
/// can act on each as it arrives.
pub proof fn lemma_event_is_one_line(
    event: Seq<char>,
    keys: Seq<Seq<char>>,
    values: Seq<Seq<char>>,
)
    requires
        keys.len() == values.len(),
        forall|i: int| 0 <= i < values.len() ==> one_line(#[trigger] values[i]),
    ensures
        event_line(event, keys, values).last() == '\n',
        one_line(event_line(event, keys, values).drop_last()),
{
    reveal_strlit("{\"event\": ");
    reveal_strlit("}\n");
    lemma_json_text_is_one_line(event);
    lemma_fields_are_one_line(keys, values);
    let line = event_line(event, keys, values);
    let most = event_start_text(event) + event_fields(keys, values);
    assert forall|i: int| 0 <= i < line.drop_last().len() implies #[trigger] line.drop_last()[i]
        != '\n' by {
        if i < most.len() {
            assert(line[i] == most[i]);
        }
    }
}

proof fn lemma_fields_are_one_line(keys: Seq<Seq<char>>, values: Seq<Seq<char>>)
    requires
        keys.len() == values.len(),
        forall|i: int| 0 <= i < values.len() ==> one_line(#[trigger] values[i]),
    ensures
        one_line(event_fields(keys, values)),
    decreases keys.len(),
{
    if keys.len() > 0 {
        reveal_strlit(", ");
        reveal_strlit(": ");
        let fewer = values.drop_last();
        assert forall|i: int| 0 <= i < fewer.len() implies one_line(#[trigger] fewer[i]) by {
            assert(one_line(values[i]));
        }
        lemma_fields_are_one_line(keys.drop_last(), fewer);
        lemma_json_text_is_one_line(keys.last());
        assert(one_line(values.last()));
    }
}

/// A number that may be missing is read as that number, or as nothing.
pub proof fn lemma_reads_optional_number(n: Option<u64>, depth: nat)
    requires
        depth <= MAX_DEPTH,
    ensures
        n matches Some(v) ==> reads_as(
            optional_number(n),
            Value::Number(decimal_of(v as nat)),
            depth,
        ),
        n is None ==> reads_as(optional_number(n), Value::Null, depth),
{
    match n {
        Some(v) => {
            lemma_decimal_is_digits(v as nat);
            lemma_reads_number(decimal_of(v as nat), depth);
        },
        None => {
            lemma_reads_optional(None, depth);
        },
    }
}

} // verus!
