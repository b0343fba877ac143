//! Text as a sequence of characters: the pieces every other module builds its
//! output from.

use vstd::prelude::*;

verus! {

/// `String::push` appends one character.
pub assume_specification[ std::string::String::push ](s: &mut std::string::String, c: char)
    ensures
        final(s)@ == old(s)@.push(c),
;

/// `char::from_u32` gives the character with a code, and nothing for a code
/// past the last one or in the surrogate range.
pub assume_specification[ char::from_u32 ](code: u32) -> (c: Option<char>)
    ensures
        match c {
            Some(x) => x as u32 == code,
            None => 0xd800 <= code <= 0xdfff || code > 0x10ffff,
        },
;

/// The characters of a text.
pub fn chars_of(text: &str) -> (chars: Vec<char>)
    ensures
        chars@ == text@,
{
    let mut chars: Vec<char> = Vec::new();
    for c in it: text.chars()
        invariant
            chars@ == text@.take(it.index()),
            it.seq() == text@,
    {
        chars.push(c);
    }
    assert(text@.take(text@.len() as int) =~= text@);
    chars
}

/// The characters from `from` up to `to`, as a text.
pub fn text_of(chars: &Vec<char>, from: usize, to: usize) -> (text: String)
    requires
        from <= to <= chars@.len(),
    ensures
        text@ == chars@.subrange(from as int, to as int),
{
    let mut text = String::new();
    for i in from..to
        invariant
            from <= to <= chars@.len(),
            text@ == chars@.subrange(from as int, i as int),
    {
        text.push(chars[i]);
        assert(chars@.subrange(from as int, i + 1) =~= chars@.subrange(from as int, i as int).push(
            chars@[i as int],
        ));
    }
    text
}

/// Two texts are the same when their characters are.
pub fn same_text(a: &str, b: &str) -> (same: bool)
    ensures
        same == (a@ == b@),
{
    let left = chars_of(a);
    let right = chars_of(b);
    if left.len() != right.len() {
        return false;
    }
    for i in 0..left.len()
        invariant
            left@.len() == right@.len(),
            left@ == a@,
            right@ == b@,
            forall|k: int| 0 <= k < i ==> left@[k] == right@[k],
    {
        if left[i] != right[i] {
            return false;
        }
    }
    assert(left@ =~= right@);
    true
}


/// The characters that count as blank: Unicode's `White_Space` property.
pub open spec fn is_blank(c: char) -> bool {
    let u = c as u32;
    ||| 0x09 <= u <= 0x0d
    ||| u == 0x20
    ||| u == 0x85
    ||| u == 0xa0
    ||| u == 0x1680
    ||| 0x2000 <= u <= 0x200a
    ||| u == 0x2028
    ||| u == 0x2029
    ||| u == 0x202f
    ||| u == 0x205f
    ||| u == 0x3000
}

pub fn blank(c: char) -> (yes: bool)
    ensures
        yes == is_blank(c),
{
    let u: u32 = c as u32;
    (0x09 <= u && u <= 0x0d) || u == 0x20 || u == 0x85 || u == 0xa0 || u == 0x1680 || (0x2000 <= u
        && u <= 0x200a) || u == 0x2028 || u == 0x2029 || u == 0x202f || u == 0x205f || u == 0x3000
}

/// What can be trimmed from the ends of a text.
#[derive(Clone, Copy, PartialEq, Eq, Structural)]
pub enum Edge {
    Blank,
    Dash,
    Quote,
}

pub open spec fn on_edge(edge: Edge, c: char) -> bool {
    match edge {
        Edge::Blank => is_blank(c),
        Edge::Dash => c == '-',
        Edge::Quote => c == '\'' || c == '"',
    }
}

fn edge_has(edge: Edge, c: char) -> (yes: bool)
    ensures
        yes == on_edge(edge, c),
{
    match edge {
        Edge::Blank => blank(c),
        Edge::Dash => c == '-',
        Edge::Quote => c == '\'' || c == '"',
    }
}

/// A text without the leading characters of one kind.
pub open spec fn trim_front(s: Seq<char>, edge: Edge) -> Seq<char>
    decreases s.len(),
{
    if s.len() > 0 && on_edge(edge, s.first()) {
        trim_front(s.drop_first(), edge)
    } else {
        s
    }
}

/// A text without the trailing characters of one kind.
pub open spec fn trim_back(s: Seq<char>, edge: Edge) -> Seq<char>
    decreases s.len(),
{
    if s.len() > 0 && on_edge(edge, s.last()) {
        trim_back(s.drop_last(), edge)
    } else {
        s
    }
}

/// A text without the characters of one kind at either end.
pub open spec fn trimmed_of(s: Seq<char>, edge: Edge) -> Seq<char> {
    trim_back(trim_front(s, edge), edge)
}

/// A text without the blanks at either end.
pub open spec fn trimmed(s: Seq<char>) -> Seq<char> {
    trimmed_of(s, Edge::Blank)
}

pub fn trim_edge(text: &str, edge: Edge) -> (out: String)
    ensures
        out@ == trimmed_of(text@, edge),
{
    let chars = chars_of(text);
    let n = chars.len();
    let mut from: usize = 0;
    assert(chars@.skip(0) =~= chars@);
    while from < n && edge_has(edge, chars[from])
        invariant
            from <= n == chars@.len(),
            trim_front(chars@, edge) == trim_front(chars@.skip(from as int), edge),
        decreases n - from,
    {
        assert(chars@.skip(from as int).drop_first() =~= chars@.skip(from + 1));
        from = from + 1;
    }
    assert(trim_front(chars@, edge) =~= chars@.skip(from as int));
    let mut to: usize = n;
    assert(chars@.subrange(from as int, n as int) =~= chars@.skip(from as int));
    while to > from && edge_has(edge, chars[to - 1])
        invariant
            from <= to <= n == chars@.len(),
            trimmed_of(chars@, edge) == trim_back(chars@.subrange(from as int, to as int), edge),
        decreases to,
    {
        assert(chars@.subrange(from as int, to as int).drop_last() =~= chars@.subrange(
            from as int,
            to - 1,
        ));
        to = to - 1;
    }
    text_of(&chars, from, to)
}

pub fn trim(text: &str) -> (out: String)
    ensures
        out@ == trimmed(text@),
{
    trim_edge(text, Edge::Blank)
}

/// The first place at or after `from` where `c` stands, or the length.
pub open spec fn find_from(s: Seq<char>, c: char, from: int) -> int
    decreases s.len() - from,
{
    if from < 0 || from >= s.len() {
        s.len() as int
    } else if s[from] == c {
        from
    } else {
        find_from(s, c, from + 1)
    }
}

pub proof fn lemma_find_from(s: Seq<char>, c: char, from: int)
    requires
        0 <= from <= s.len(),
    ensures
        from <= find_from(s, c, from) <= s.len(),
        find_from(s, c, from) < s.len() ==> s[find_from(s, c, from)] == c,
        forall|k: int| from <= k < find_from(s, c, from) ==> s[k] != c,
    decreases s.len() - from,
{
    if from < s.len() && s[from] != c {
        lemma_find_from(s, c, from + 1);
    }
}

pub fn find_char(chars: &Vec<char>, c: char, from: usize) -> (at: usize)
    requires
        from <= chars@.len(),
    ensures
        at == find_from(chars@, c, from as int),
        from <= at <= chars@.len(),
{
    let mut at: usize = from;
    while at < chars.len() && chars[at] != c
        invariant
            from <= at <= chars@.len(),
            find_from(chars@, c, from as int) == find_from(chars@, c, at as int),
        decreases chars@.len() - at,
    {
        at = at + 1;
    }
    at
}

/// The pieces of a text between the places where `c` stands.
pub open spec fn split_at_char(s: Seq<char>, c: char) -> Seq<Seq<char>>
    decreases s.len(),
{
    let at = find_from(s, c, 0);
    if 0 <= at < s.len() {
        seq![s.take(at)] + split_at_char(s.skip(at + 1), c)
    } else {
        seq![s]
    }
}

/// The characters of each text.
pub open spec fn views(texts: Seq<String>) -> Seq<Seq<char>> {
    texts.map_values(|t: String| t@)
}

pub proof fn lemma_views_push(texts: Seq<String>, t: String)
    ensures
        views(texts.push(t)) == views(texts).push(t@),
{
    assert(views(texts.push(t)) =~= views(texts).push(t@));
}

pub fn split_char(text: &str, c: char) -> (pieces: Vec<String>)
    ensures
        views(pieces@) == split_at_char(text@, c),
{
    let chars = chars_of(text);
    let mut pieces: Vec<String> = Vec::new();
    let mut from: usize = 0;
    assert(chars@.skip(0) =~= chars@);
    assert(views(pieces@) + split_at_char(chars@, c) =~= split_at_char(chars@, c));
    loop
        invariant
            from <= chars@.len(),
            chars@ == text@,
            split_at_char(text@, c) == views(pieces@) + split_at_char(chars@.skip(from as int), c),
        decreases chars@.len() - from,
    {
        let at = find_char(&chars, c, from);
        let piece = text_of(&chars, from, at);
        let ghost rest = chars@.skip(from as int);
        proof {
            lemma_find_from(chars@, c, from as int);
            lemma_find_from(rest, c, 0);
            lemma_find_unique(chars@, from as int, c);
            lemma_views_push(pieces@, piece);
            assert(rest.take(at - from) =~= chars@.subrange(from as int, at as int));
        }
        let ghost before = views(pieces@);
        pieces.push(piece);
        if at >= chars.len() {
            proof {
                assert(rest =~= piece@);
                assert(before + seq![rest] =~= before.push(piece@));
            }
            return pieces;
        }
        proof {
            assert(rest.skip(at - from + 1) =~= chars@.skip(at + 1));
            assert(before + (seq![piece@] + split_at_char(chars@.skip(at + 1), c)) =~= before.push(
                piece@,
            ) + split_at_char(chars@.skip(at + 1), c));
        }
        from = at + 1;
    }
}

/// Searching a tail finds the same place as searching the whole from there.
pub proof fn lemma_find_unique(s: Seq<char>, from: int, c: char)
    requires
        0 <= from <= s.len(),
    ensures
        find_from(s.skip(from), c, 0) == find_from(s, c, from) - from,
{
    lemma_find_from(s, c, from);
    lemma_find_from(s.skip(from), c, 0);
    let a = find_from(s, c, from);
    let b = find_from(s.skip(from), c, 0);
    if b < a - from {
        assert(s.skip(from)[b] == s[from + b]);
    }
    if b > a - from {
        assert(s.skip(from)[a - from] == s[a]);
    }
}


/// The words of a text: its pieces between runs of blanks.
pub open spec fn words_of(s: Seq<char>) -> Seq<Seq<char>>
    decreases s.len(),
{
    let rest = trim_front(s, Edge::Blank);
    if rest.len() == 0 {
        seq![]
    } else {
        proof {
            lemma_trim_front_shrinks(s, Edge::Blank);
            lemma_word_end(rest, 1);
        }
        seq![rest.take(word_end(rest, 0))] + words_of(rest.skip(word_end(rest, 0)))
    }
}

/// The first blank at or after `from`, or the length.
pub open spec fn word_end(s: Seq<char>, from: int) -> int
    decreases s.len() - from,
{
    if from < 0 || from >= s.len() {
        s.len() as int
    } else if is_blank(s[from]) {
        from
    } else {
        word_end(s, from + 1)
    }
}

pub proof fn lemma_word_end(s: Seq<char>, from: int)
    requires
        0 <= from <= s.len(),
    ensures
        from <= word_end(s, from) <= s.len(),
        forall|base: int| 0 <= base <= from ==> #[trigger] word_end(s.skip(base), from - base)
            == word_end(s, from) - base,
    decreases s.len() - from,
{
    if from < s.len() && !is_blank(s[from]) {
        lemma_word_end(s, from + 1);
        assert forall|base: int| 0 <= base <= from implies #[trigger] word_end(
            s.skip(base),
            from - base,
        ) == word_end(s, from) - base by {
            assert(s.skip(base)[from - base] == s[from]);
            assert(word_end(s.skip(base), from + 1 - base) == word_end(s, from + 1) - base);
        }
    } else {
        assert forall|base: int| 0 <= base <= from implies #[trigger] word_end(
            s.skip(base),
            from - base,
        ) == word_end(s, from) - base by {
            if from < s.len() {
                assert(s.skip(base)[from - base] == s[from]);
            }
        }
    }
}

pub proof fn lemma_trim_front_shrinks(s: Seq<char>, edge: Edge)
    ensures
        trim_front(s, edge).len() <= s.len(),
        trim_front(s, edge).len() > 0 ==> !on_edge(edge, trim_front(s, edge)[0]),
    decreases s.len(),
{
    if s.len() > 0 && on_edge(edge, s.first()) {
        lemma_trim_front_shrinks(s.drop_first(), edge);
    }
}

pub fn words(text: &str) -> (found: Vec<String>)
    ensures
        views(found@) == words_of(text@),
{
    let chars = chars_of(text);
    let n = chars.len();
    let mut found: Vec<String> = Vec::new();
    let mut from: usize = 0;
    proof {
        assert(chars@.skip(0) =~= chars@);
        assert(views(found@) + words_of(chars@) =~= words_of(chars@));
    }
    loop
        invariant
            from <= n == chars@.len(),
            chars@ == text@,
            words_of(text@) == views(found@) + words_of(chars@.skip(from as int)),
        decreases n - from,
    {
        let ghost tail = chars@.skip(from as int);
        let mut start: usize = from;
        while start < n && blank(chars[start])
            invariant
                from <= start <= n == chars@.len(),
                tail == chars@.skip(from as int),
                trim_front(tail, Edge::Blank) == trim_front(chars@.skip(start as int), Edge::Blank),
            decreases n - start,
        {
            assert(chars@.skip(start as int).drop_first() =~= chars@.skip(start + 1));
            start = start + 1;
        }
        let ghost rest = chars@.skip(start as int);
        assert(trim_front(tail, Edge::Blank) == rest);
        if start >= n {
            assert(views(found@) + words_of(tail) =~= views(found@));
            return found;
        }
        let mut end: usize = start;
        while end < n && !blank(chars[end])
            invariant
                start <= end <= n == chars@.len(),
                word_end(chars@, start as int) == word_end(chars@, end as int),
            decreases n - end,
        {
            end = end + 1;
        }
        proof {
            lemma_word_end(chars@, start as int);
            assert(word_end(chars@.skip(start as int), start as int - start as int) == word_end(
                chars@,
                start as int,
            ) - start);
            assert(word_end(rest, 0) == end - start);
            assert(!is_blank(chars@[start as int]));
            assert(end > start);
            assert(rest.take(end - start) =~= chars@.subrange(start as int, end as int));
            assert(rest.skip(end - start) =~= chars@.skip(end as int));
        }
        let word = text_of(&chars, start, end);
        proof {
            lemma_views_push(found@, word);
            assert(words_of(tail) == seq![word@] + words_of(chars@.skip(end as int)));
            assert(views(found@) + (seq![word@] + words_of(chars@.skip(end as int))) =~= views(
                found@,
            ).push(word@) + words_of(chars@.skip(end as int)));
        }
        found.push(word);
        from = end;
    }
}

pub open spec fn begins(s: Seq<char>, start: Seq<char>) -> bool {
    start.len() <= s.len() && s.take(start.len() as int) == start
}

pub open spec fn ends(s: Seq<char>, end: Seq<char>) -> bool {
    end.len() <= s.len() && s.skip(s.len() - end.len()) == end
}

pub fn starts_with(text: &str, start: &str) -> (yes: bool)
    ensures
        yes == begins(text@, start@),
{
    let whole = chars_of(text);
    let part = chars_of(start);
    if part.len() > whole.len() {
        return false;
    }
    let piece = text_of(&whole, 0, part.len());
    assert(whole@.subrange(0, part@.len() as int) =~= whole@.take(part@.len() as int));
    same_text(&piece, start)
}

pub fn ends_with(text: &str, end: &str) -> (yes: bool)
    ensures
        yes == ends(text@, end@),
{
    let whole = chars_of(text);
    let part = chars_of(end);
    if part.len() > whole.len() {
        return false;
    }
    let piece = text_of(&whole, whole.len() - part.len(), whole.len());
    assert(whole@.subrange(whole@.len() - part@.len(), whole@.len() as int) =~= whole@.skip(
        whole@.len() - part@.len(),
    ));
    same_text(&piece, end)
}

/// One character with an ASCII capital made small.
pub open spec fn ascii_small(c: char) -> char {
    if 'A' <= c && c <= 'Z' {
        ((c as u32 + 32) as u32) as char
    } else {
        c
    }
}

pub fn ascii_lower_char(c: char) -> (small: char)
    ensures
        small == ascii_small(c),
{
    if 'A' <= c && c <= 'Z' {
        ((c as u8) + 32) as char
    } else {
        c
    }
}

pub open spec fn ascii_lowered(s: Seq<char>) -> Seq<char> {
    s.map_values(|c: char| ascii_small(c))
}

pub fn ascii_lower(text: &str) -> (out: String)
    ensures
        out@ == ascii_lowered(text@),
{
    let mut out = String::new();
    for c in it: text.chars()
        invariant
            out@ == ascii_lowered(text@.take(it.index())),
            it.seq() == text@,
    {
        out.push(ascii_lower_char(c));
        assert(ascii_lowered(text@.take(it.index() + 1)) =~= ascii_lowered(
            text@.take(it.index()),
        ).push(ascii_small(c)));
    }
    assert(text@.take(text@.len() as int) =~= text@);
    out
}

pub open spec fn is_digit(c: char) -> bool {
    '0' <= c && c <= '9'
}

pub open spec fn is_ascii_letter(c: char) -> bool {
    ('a' <= c && c <= 'z') || ('A' <= c && c <= 'Z')
}

pub open spec fn is_ascii_alnum(c: char) -> bool {
    is_digit(c) || is_ascii_letter(c)
}

pub fn ascii_alnum(c: char) -> (yes: bool)
    ensures
        yes == is_ascii_alnum(c),
{
    ('0' <= c && c <= '9') || ('a' <= c && c <= 'z') || ('A' <= c && c <= 'Z')
}

/// The character for a value below sixteen.
pub open spec fn hex_digit(v: int, capital: bool) -> char {
    if v < 10 {
        (48 + v) as char
    } else if capital {
        (55 + v) as char
    } else {
        (87 + v) as char
    }
}

pub fn hex_char(v: u8, capital: bool) -> (c: char)
    requires
        v < 16,
    ensures
        c == hex_digit(v as int, capital),
{
    if v < 10 {
        (48 + v) as char
    } else if capital {
        (55 + v) as char
    } else {
        (87 + v) as char
    }
}

/// A number in decimal, with no leading zeros.
pub open spec fn decimal_of(n: nat) -> Seq<char>
    decreases n,
{
    if n < 10 {
        seq![hex_digit(n as int, false)]
    } else {
        decimal_of(n / 10).push(hex_digit((n % 10) as int, false))
    }
}

pub fn decimal(n: u64) -> (out: String)
    ensures
        out@ == decimal_of(n as nat),
    decreases n,
{
    if n < 10 {
        let mut out = String::new();
        out.push(hex_char(n as u8, false));
        assert(out@ =~= decimal_of(n as nat));
        out
    } else {
        let mut out = decimal(n / 10);
        out.push(hex_char((n % 10) as u8, false));
        out
    }
}

/// Texts one after another with `sep` between them.
pub open spec fn joined(parts: Seq<Seq<char>>, sep: Seq<char>) -> Seq<char>
    decreases parts.len(),
{
    if parts.len() == 0 {
        seq![]
    } else if parts.len() == 1 {
        parts[0]
    } else {
        joined(parts.drop_last(), sep) + sep + parts.last()
    }
}

pub fn join(parts: &Vec<String>, sep: &str) -> (out: String)
    ensures
        out@ == joined(views(parts@), sep@),
{
    let mut out = String::new();
    let ghost all = views(parts@);
    for i in 0..parts.len()
        invariant
            all == views(parts@),
            out@ == joined(all.take(i as int), sep@),
    {
        if i > 0 {
            out.append(sep);
        }
        out.append(parts[i].as_str());
        proof {
            assert(all.take(i + 1).drop_last() =~= all.take(i as int));
            assert(all[i as int] == parts@[i as int]@);
            if i == 0 {
                assert(out@ =~= all[0]);
            }
        }
    }
    assert(all.take(parts@.len() as int) =~= all);
    out
}

pub fn cat2(a: &str, b: &str) -> (out: String)
    ensures
        out@ == a@ + b@,
{
    a.to_owned().concat(b)
}

pub fn cat3(a: &str, b: &str, c: &str) -> (out: String)
    ensures
        out@ == a@ + b@ + c@,
{
    a.to_owned().concat(b).concat(c)
}

pub fn cat4(a: &str, b: &str, c: &str, d: &str) -> (out: String)
    ensures
        out@ == a@ + b@ + c@ + d@,
{
    a.to_owned().concat(b).concat(c).concat(d)
}

pub fn cat5(a: &str, b: &str, c: &str, d: &str, e: &str) -> (out: String)
    ensures
        out@ == a@ + b@ + c@ + d@ + e@,
{
    a.to_owned().concat(b).concat(c).concat(d).concat(e)
}

/// A text followed by spaces until it is `width` characters long.
pub open spec fn padded(s: Seq<char>, width: nat) -> Seq<char> {
    if s.len() >= width {
        s
    } else {
        s + Seq::new((width - s.len()) as nat, |i: int| ' ')
    }
}

pub fn pad(text: &str, width: usize) -> (out: String)
    ensures
        out@ == padded(text@, width as nat),
{
    let mut out = text.to_owned();
    let mut n = chars_of(text).len();
    while n < width
        invariant
            n == out@.len(),
            out@ == text@ + Seq::new((n - text@.len()) as nat, |i: int| ' '),
            text@.len() <= n,
            n <= width || n == text@.len(),
        decreases width - n,
    {
        out.push(' ');
        n = n + 1;
        assert(out@ =~= text@ + Seq::new((n - text@.len()) as nat, |i: int| ' '));
    }
    assert(out@ =~= padded(text@, width as nat));
    out
}

/// No more than the first ten.
pub open spec fn first_ten(parts: Seq<Seq<char>>) -> Seq<Seq<char>> {
    if parts.len() <= 10 {
        parts
    } else {
        parts.take(10)
    }
}

/// The first ten texts with `sep` between them.
pub fn join_ten(parts: &Vec<String>, sep: &str) -> (out: String)
    ensures
        out@ == joined(first_ten(views(parts@)), sep@),
{
    let mut few: Vec<String> = Vec::new();
    let n = if parts.len() <= 10 {
        parts.len()
    } else {
        10
    };
    assert(views(few@) =~= views(parts@).take(0));
    for i in 0..n
        invariant
            n <= parts@.len(),
            views(few@) == views(parts@).take(i as int),
    {
        let one = parts[i].clone();
        proof {
            lemma_views_push(few@, one);
            assert(views(parts@).take(i + 1) =~= views(parts@).take(i as int).push(one@));
        }
        few.push(one);
    }
    assert(views(parts@).take(parts@.len() as int) =~= views(parts@));
    join(&few, sep)
}

/// Every text in turn, with `head` before it and `tail` after it.
pub open spec fn each(parts: Seq<Seq<char>>, head: Seq<char>, tail: Seq<char>) -> Seq<char>
    decreases parts.len(),
{
    if parts.len() == 0 {
        seq![]
    } else {
        each(parts.drop_last(), head, tail) + head + parts.last() + tail
    }
}

pub fn for_each(parts: &Vec<String>, head: &str, tail: &str) -> (out: String)
    ensures
        out@ == each(views(parts@), head@, tail@),
{
    let mut out = String::new();
    let ghost all = views(parts@);
    for i in 0..parts.len()
        invariant
            all == views(parts@),
            out@ == each(all.take(i as int), head@, tail@),
    {
        out.append(head);
        out.append(parts[i].as_str());
        out.append(tail);
        assert(all.take(i + 1).drop_last() =~= all.take(i as int));
    }
    assert(all.take(parts@.len() as int) =~= all);
    out
}

/// A text that may be missing.
pub open spec fn maybe(text: Option<String>) -> Option<Seq<char>> {
    match text {
        Some(t) => Some(t@),
        None => None,
    }
}

/// A number in decimal, with a minus sign where it is negative.
pub open spec fn signed_of(n: int) -> Seq<char> {
    if n < 0 {
        "-"@ + decimal_of((-n) as nat)
    } else {
        decimal_of(n as nat)
    }
}

pub fn signed(n: i32) -> (out: String)
    ensures
        out@ == signed_of(n as int),
{
    if n < 0 {
        let positive: i64 = -(n as i64);
        cat2("-", decimal(positive as u64).as_str())
    } else {
        decimal(n as u64)
    }
}

/// Whether a text holds a whole number that fits: digits, and before them a
/// plus sign or nothing.
pub open spec fn unsigned_of(s: Seq<char>) -> Option<u64> {
    let d = without_plus(s);
    if d.len() == 0 || !digits_only(d) {
        None
    } else if number_in(d) > u64::MAX {
        None
    } else {
        Some(number_in(d) as u64)
    }
}

pub open spec fn without_plus(s: Seq<char>) -> Seq<char> {
    if s.len() > 0 && s[0] == '+' {
        s.skip(1)
    } else {
        s
    }
}

pub open spec fn digits_only(d: Seq<char>) -> bool {
    forall|i: int| 0 <= i < d.len() ==> is_digit(#[trigger] d[i])
}

/// The number that digits make.
pub open spec fn number_in(d: Seq<char>) -> nat
    decreases d.len(),
{
    if d.len() == 0 {
        0
    } else {
        (number_in(d.drop_last()) * 10 + ((d.last() as u32) - 48)) as nat
    }
}

fn digit_value(c: char) -> (v: u64)
    requires
        is_digit(c),
    ensures
        v == (c as u32) - 48,
        v < 10,
{
    ((c as u8) - 48) as u64
}

/// A number only grows as digits are added.
proof fn lemma_number_grows(d: Seq<char>, n: int)
    requires
        0 <= n <= d.len(),
        forall|i: int| 0 <= i < d.len() ==> is_digit(#[trigger] d[i]),
    ensures
        number_in(d.take(n)) <= number_in(d),
    decreases d.len(),
{
    if n < d.len() {
        let head = d.drop_last();
        assert forall|i: int| 0 <= i < head.len() implies is_digit(#[trigger] head[i]) by {
            assert(head[i] == d[i]);
        }
        lemma_number_grows(head, n);
        assert(head.take(n) =~= d.take(n));
        assert(is_digit(d[d.len() - 1]));
    } else {
        assert(d.take(n) =~= d);
    }
}

/// Read a whole number.
pub fn unsigned(text: &str) -> (r: Option<u64>)
    ensures
        r == unsigned_of(text@),
{
    let chars = chars_of(text);
    let from: usize = if chars.len() > 0 && chars[0] == '+' {
        1
    } else {
        0
    };
    let ghost d = text@.skip(from as int);
    assert(text@.skip(0) =~= text@);
    if from == chars.len() {
        return None;
    }
    for i in from..chars.len()
        invariant
            chars@ == text@,
            from <= chars@.len(),
            d == text@.skip(from as int),
            d == without_plus(text@),
            forall|k: int| from <= k < i ==> is_digit(#[trigger] chars@[k]),
    {
        if !('0' <= chars[i] && chars[i] <= '9') {
            assert(d[i - from] == chars@[i as int]);
            assert(!digits_only(d));
            return None;
        }
    }
    assert forall|i: int| 0 <= i < d.len() implies is_digit(#[trigger] d[i]) by {
        assert(d[i] == chars@[from + i]);
    }
    let mut n: u64 = 0;
    assert(d.take(0) =~= seq![]);
    for i in from..chars.len()
        invariant
            chars@ == text@,
            from <= chars@.len(),
            d == text@.skip(from as int),
            d.len() > 0,
            d == without_plus(text@),
            forall|k: int| 0 <= k < d.len() ==> is_digit(#[trigger] d[k]),
            n == number_in(d.take(i - from)),
    {
        let ghost k = i - from;
        assert(d[k] == chars@[i as int]);
        let v = digit_value(chars[i]);
        proof {
            assert(d.take(k + 1).drop_last() =~= d.take(k));
            assert(number_in(d.take(k + 1)) == n * 10 + v);
            lemma_number_grows(d, k + 1);
        }
        match n.checked_mul(10) {
            None => {
                return None;
            },
            Some(m) => match m.checked_add(v) {
                None => {
                    return None;
                },
                Some(s) => {
                    n = s;
                },
            },
        }
    }
    assert(d.take(d.len() as int) =~= d);
    Some(n)
}

// --------------------------------------------------- what holds of every text

/// Whether a text stands somewhere in another.
#[verifier::opaque]
pub open spec fn mentions(whole: Seq<char>, part: Seq<char>) -> bool {
    exists|at: int| #[trigger] stands_in(whole, part, at)
}

/// Whether a text stands in another from a place on.
pub open spec fn stands_in(whole: Seq<char>, part: Seq<char>, at: int) -> bool {
    &&& 0 <= at
    &&& at + part.len() <= whole.len()
    &&& whole.subrange(at, at + part.len()) == part
}

/// What stands in a piece of a text stands in the text.
pub proof fn lemma_mentions_in(before: Seq<char>, whole: Seq<char>, after: Seq<char>, part: Seq<char>)
    requires
        mentions(whole, part),
    ensures
        mentions(before + whole + after, part),
        mentions(before + whole, part),
        mentions(whole + after, part),
{
    reveal(mentions);
    let at = choose|at: int| #[trigger] stands_in(whole, part, at);
    let n = part.len();
    let k = before.len() + at;
    assert((before + whole + after).subrange(k, k + n) =~= whole.subrange(at, at + n));
    assert(stands_in(before + whole + after, part, k));
    assert((before + whole).subrange(k, k + n) =~= whole.subrange(at, at + n));
    assert(stands_in(before + whole, part, k));
    assert((whole + after).subrange(at, at + n) =~= whole.subrange(at, at + n));
    assert(stands_in(whole + after, part, at));
}

pub proof fn lemma_mentions_self(part: Seq<char>)
    ensures
        mentions(part, part),
{
    reveal(mentions);
    assert(part.subrange(0, part.len() as int) =~= part);
    assert(stands_in(part, part, 0));
}

/// A text with something before and after it stands there.
pub proof fn lemma_mentions_piece(before: Seq<char>, part: Seq<char>, after: Seq<char>)
    ensures
        mentions(before + part + after, part),
        mentions(before + part, part),
        mentions(part + after, part),
{
    lemma_mentions_self(part);
    lemma_mentions_in(before, part, after, part);
}

/// Every text that is joined stands in what they are joined to.
pub proof fn lemma_joined_mentions(parts: Seq<Seq<char>>, sep: Seq<char>, i: int)
    requires
        0 <= i < parts.len(),
    ensures
        mentions(joined(parts, sep), parts[i]),
    decreases parts.len(),
{
    if parts.len() == 1 {
        lemma_mentions_self(parts[0]);
    } else if i == parts.len() - 1 {
        lemma_mentions_piece(joined(parts.drop_last(), sep) + sep, parts.last(), seq![]);
    } else {
        lemma_joined_mentions(parts.drop_last(), sep, i);
        assert(parts.drop_last()[i] == parts[i]);
        let head = joined(parts.drop_last(), sep);
        lemma_mentions_in(seq![], head, sep + parts.last(), parts[i]);
        assert(head + (sep + parts.last()) =~= head + sep + parts.last());
    }
}

/// Every text stands among all of them, with what goes before and after each.
pub proof fn lemma_each_mentions(
    parts: Seq<Seq<char>>,
    head: Seq<char>,
    tail: Seq<char>,
    i: int,
)
    requires
        0 <= i < parts.len(),
    ensures
        mentions(each(parts, head, tail), head + parts[i] + tail),
    decreases parts.len(),
{
    let rest = each(parts.drop_last(), head, tail);
    let one = head + parts.last() + tail;
    assert(each(parts, head, tail) =~= rest + one);
    if i == parts.len() - 1 {
        lemma_mentions_piece(rest, one, seq![]);
    } else {
        lemma_each_mentions(parts.drop_last(), head, tail, i);
        assert(parts.drop_last()[i] == parts[i]);
        lemma_mentions_in(seq![], rest, one, head + parts[i] + tail);
    }
}

proof fn lemma_trim_front_cut(s: Seq<char>, edge: Edge) -> (a: int)
    ensures
        0 <= a <= s.len(),
        trim_front(s, edge) == s.skip(a),
        forall|i: int| 0 <= i < a ==> on_edge(edge, #[trigger] s[i]),
        a < s.len() ==> !on_edge(edge, s[a]),
    decreases s.len(),
{
    if s.len() > 0 && on_edge(edge, s.first()) {
        let rest = s.drop_first();
        let b = lemma_trim_front_cut(rest, edge);
        assert(rest.skip(b) =~= s.skip(b + 1));
        assert forall|i: int| 0 <= i < b + 1 implies on_edge(edge, #[trigger] s[i]) by {
            if i > 0 {
                assert(rest[i - 1] == s[i]);
            }
        }
        b + 1
    } else {
        assert(s.skip(0) =~= s);
        0
    }
}

proof fn lemma_trim_back_cut(s: Seq<char>, edge: Edge) -> (b: int)
    ensures
        0 <= b <= s.len(),
        trim_back(s, edge) == s.take(b),
        forall|i: int| b <= i < s.len() ==> on_edge(edge, #[trigger] s[i]),
        b > 0 ==> !on_edge(edge, s[b - 1]),
    decreases s.len(),
{
    if s.len() > 0 && on_edge(edge, s.last()) {
        let rest = s.drop_last();
        let b = lemma_trim_back_cut(rest, edge);
        assert(rest.take(b) =~= s.take(b));
        assert forall|i: int| b <= i < s.len() implies on_edge(edge, #[trigger] s[i]) by {
            if i < rest.len() {
                assert(rest[i] == s[i]);
            }
        }
        b
    } else {
        assert(s.take(s.len() as int) =~= s);
        s.len() as int
    }
}

/// Trimming cuts what is of the kind from both ends and nothing else: what is
/// left stands in one piece, and neither end of it is of the kind.
pub proof fn lemma_trimmed_is_the_middle(s: Seq<char>, edge: Edge) -> (cut: (int, int))
    ensures
        0 <= cut.0 <= cut.1 <= s.len(),
        trimmed_of(s, edge) == s.subrange(cut.0, cut.1),
        forall|i: int| 0 <= i < cut.0 ==> on_edge(edge, #[trigger] s[i]),
        forall|i: int| cut.1 <= i < s.len() ==> on_edge(edge, #[trigger] s[i]),
        cut.0 < cut.1 ==> !on_edge(edge, s[cut.0]) && !on_edge(edge, s[cut.1 - 1]),
{
    let a = lemma_trim_front_cut(s, edge);
    let rest = s.skip(a);
    let b = lemma_trim_back_cut(rest, edge);
    assert(rest.take(b) =~= s.subrange(a, a + b));
    assert forall|i: int| a + b <= i < s.len() implies on_edge(edge, #[trigger] s[i]) by {
        assert(rest[i - a] == s[i]);
    }
    if b > 0 {
        assert(rest[0] == s[a]);
        assert(rest[b - 1] == s[a + b - 1]);
    }
    (a, a + b)
}

/// There is one way to cut a text down to where neither end is of the kind.
pub proof fn lemma_trimmed_by(s: Seq<char>, edge: Edge, a: int, b: int)
    requires
        0 <= a <= b <= s.len(),
        forall|i: int| 0 <= i < a ==> on_edge(edge, #[trigger] s[i]),
        forall|i: int| b <= i < s.len() ==> on_edge(edge, #[trigger] s[i]),
        a < b ==> !on_edge(edge, s[a]) && !on_edge(edge, s[b - 1]),
    ensures
        trimmed_of(s, edge) == s.subrange(a, b),
{
    let cut = lemma_trimmed_is_the_middle(s, edge);
    if a < b {
        assert(cut.0 <= a);
        assert(cut.1 >= b);
        if cut.0 < a {
            assert(on_edge(edge, s[cut.0]));
        }
        if cut.1 > b {
            assert(on_edge(edge, s[cut.1 - 1]));
        }
    } else if cut.0 < cut.1 {
        if cut.0 < a {
            assert(on_edge(edge, s[cut.0]));
        } else {
            assert(on_edge(edge, s[cut.0]));
        }
    } else {
        assert(s.subrange(a, b) =~= s.subrange(cut.0, cut.1));
    }
}

/// Blanks are space, tab, the line ends and what else Unicode calls white
/// space. No visible ASCII character is one.
pub proof fn lemma_blanks(c: char)
    ensures
        (c as u32) < 0x80 ==> (is_blank(c) <==> c == ' ' || c == '\t' || c == '\n' || c == '\r' || c
            == '\u{b}' || c == '\u{c}'),
        is_blank('\u{85}') && is_blank('\u{a0}') && is_blank('\u{3000}') && is_blank('\u{2003}'),
{
}

/// A text is cut at every one of the characters, and nowhere else: the pieces
/// put together again with it are the text.
pub proof fn lemma_split_rejoins(s: Seq<char>, c: char)
    ensures
        split_at_char(s, c).len() > 0,
        joined(split_at_char(s, c), seq![c]) == s,
        forall|i: int|
            0 <= i < split_at_char(s, c).len() ==> !(#[trigger] split_at_char(s, c)[i]).contains(c),
    decreases s.len(),
{
    let at = find_from(s, c, 0);
    lemma_find_from(s, c, 0);
    if at < s.len() {
        let head = s.take(at);
        let rest = s.skip(at + 1);
        lemma_split_rejoins(rest, c);
        let tail = split_at_char(rest, c);
        lemma_joined_with(head, tail, seq![c]);
        assert(head + seq![c] + rest =~= s);
        assert(!head.contains(c));
        assert forall|i: int| 0 <= i < split_at_char(s, c).len() implies !(
        #[trigger] split_at_char(s, c)[i]).contains(c) by {
            if i > 0 {
                assert(split_at_char(s, c)[i] == tail[i - 1]);
            }
        }
    } else {
        assert(!s.contains(c));
    }
}

/// One more text in front is joined like the others.
pub proof fn lemma_joined_with(head: Seq<char>, parts: Seq<Seq<char>>, sep: Seq<char>)
    requires
        parts.len() > 0,
    ensures
        joined(seq![head] + parts, sep) == head + sep + joined(parts, sep),
    decreases parts.len(),
{
    let all = seq![head] + parts;
    if parts.len() == 1 {
        assert(all.drop_last() =~= seq![head]);
        assert(joined(all.drop_last(), sep) == head);
    } else {
        lemma_joined_with(head, parts.drop_last(), sep);
        assert(all.drop_last() =~= seq![head] + parts.drop_last());
        assert(head + sep + (joined(parts.drop_last(), sep) + sep + parts.last()) =~= head + sep
            + joined(parts.drop_last(), sep) + sep + parts.last());
    }
}

/// A number that is written in decimal is read as itself, and so is it with a
/// plus sign before it.
pub proof fn lemma_decimal_reads_back(n: nat)
    requires
        n <= u64::MAX,
    ensures
        unsigned_of(decimal_of(n)) == Some(n as u64),
        unsigned_of("+"@ + decimal_of(n)) == Some(n as u64),
{
    reveal_strlit("+");
    lemma_decimal_digits(n);
    let plus = "+"@ + decimal_of(n);
    assert(plus.skip(1) =~= decimal_of(n));
}

/// The digits of a number are those of its tens and that of its ones.
pub proof fn lemma_decimal_digits(n: nat)
    ensures
        decimal_of(n).len() > 0,
        digits_only(decimal_of(n)),
        number_in(decimal_of(n)) == n,
        n < 10 ==> decimal_of(n).len() == 1,
        n < 10 ==> decimal_of(n)[0] as u32 == '0' as u32 + n,
        n >= 10 ==> decimal_of(n).drop_last() == decimal_of(n / 10),
        n >= 10 ==> decimal_of(n).last() as u32 == '0' as u32 + n % 10,
        n > 0 ==> decimal_of(n)[0] != '0',
    decreases n,
{
    let d = decimal_of(n);
    if n >= 10 {
        lemma_decimal_digits(n / 10);
        assert(d.drop_last() =~= decimal_of(n / 10));
        assert forall|i: int| 0 <= i < d.len() implies is_digit(#[trigger] d[i]) by {
            if i < d.len() - 1 {
                assert(d.drop_last()[i] == d[i]);
            }
        }
        assert(d[0] == decimal_of(n / 10)[0]);
    } else {
        assert(d.drop_last() =~= seq![]);
        assert(number_in(d.drop_last()) == 0);
    }
}

/// What is padded is the text with spaces after it, up to the width, and a text
/// that is as long is left as it is.
pub proof fn lemma_padded(s: Seq<char>, width: nat)
    ensures
        padded(s, width).len() == if s.len() < width { width } else { s.len() },
        padded(s, width).take(s.len() as int) == s,
        forall|i: int| s.len() <= i < padded(s, width).len() ==> #[trigger] padded(s, width)[i] == ' ',
{
    assert(padded(s, width).take(s.len() as int) =~= s);
}

/// A list of what is wrong is cut after its tenth line.
pub proof fn lemma_first_ten(parts: Seq<Seq<char>>)
    ensures
        first_ten(parts).len() == if parts.len() < 10 { parts.len() } else { 10 },
        forall|i: int| 0 <= i < first_ten(parts).len() ==> #[trigger] first_ten(parts)[i] == parts[i],
{
}

/// Only the ASCII capitals change, and each becomes the small letter at its
/// place in the alphabet.
pub proof fn lemma_ascii_small(c: char)
    ensures
        'A' <= c <= 'Z' ==> 'a' <= ascii_small(c) <= 'z' && ascii_small(c) as u32 - 'a' as u32 == c
            as u32 - 'A' as u32,
        !('A' <= c <= 'Z') ==> ascii_small(c) == c,
{
}

/// What comes before the first of the characters is the first piece.
pub proof fn lemma_split_piece(head: Seq<char>, c: char, rest: Seq<char>)
    requires
        !head.contains(c),
    ensures
        split_at_char(head + seq![c] + rest, c) == seq![head] + split_at_char(rest, c),
{
    let s = head + seq![c] + rest;
    lemma_find_from(s, c, 0);
    let at = find_from(s, c, 0);
    assert(s[head.len() as int] == c);
    if at < head.len() {
        assert(head[at] == c);
    }
    assert(s.take(at) =~= head);
    assert(s.skip(at + 1) =~= rest);
}

proof fn lemma_words_after_blank(s: Seq<char>)
    ensures
        words_of(s) == words_of(trim_front(s, Edge::Blank)),
{
    lemma_trim_front_shrinks(s, Edge::Blank);
    let rest = trim_front(s, Edge::Blank);
    assert(trim_front(rest, Edge::Blank) == rest);
}

/// The words before a blank and the words after it are all the words.
pub proof fn lemma_words_concat(a: Seq<char>, blank: char, b: Seq<char>)
    requires
        is_blank(blank),
    ensures
        words_of(a + seq![blank] + b) == words_of(a) + words_of(b),
    decreases a.len(),
{
    let s = a + seq![blank] + b;
    if a.len() == 0 {
        assert(s.first() == blank);
        assert(s.drop_first() =~= b);
        assert(trim_front(s, Edge::Blank) == trim_front(b, Edge::Blank));
        lemma_words_after_blank(s);
        lemma_words_after_blank(b);
        assert(words_of(a) + words_of(b) =~= words_of(b));
    } else if is_blank(a[0]) {
        let rest = a.drop_first();
        lemma_words_concat(rest, blank, b);
        assert(s.drop_first() =~= rest + seq![blank] + b);
        lemma_words_after_blank(s);
        lemma_words_after_blank(s.drop_first());
        lemma_words_after_blank(a);
        lemma_words_after_blank(rest);
    } else {
        let n = word_end(a, 0);
        lemma_word_at(a, 0);
        lemma_word_at(s, 0);
        let m = word_end(s, 0);
        assert(s[a.len() as int] == blank);
        if m < n {
            assert(s[m] == a[m]);
        }
        if n < m {
            if n < a.len() {
                assert(s[n] == a[n]);
            }
        }
        assert(m == n);
        assert(s.take(n) =~= a.take(n));
        if n < a.len() {
            let more = a.skip(n);
            assert(s.skip(n) =~= more + seq![blank] + b);
            lemma_words_concat(more, blank, b);
            assert(n > 0);
            assert(seq![a.take(n)] + (words_of(more) + words_of(b)) =~= seq![a.take(n)] + words_of(
                more,
            ) + words_of(b));
        } else {
            assert(s.skip(n) =~= Seq::<char>::empty() + seq![blank] + b);
            lemma_words_concat(seq![], blank, b);
            assert(a.skip(n) =~= seq![]);
            assert(words_of(a) =~= seq![a.take(n)]);
            assert(words_of(Seq::<char>::empty()) + words_of(b) =~= words_of(b));
        }
    }
}

proof fn lemma_word_at(s: Seq<char>, from: int)
    requires
        0 <= from <= s.len(),
    ensures
        from <= word_end(s, from) <= s.len(),
        word_end(s, from) < s.len() ==> is_blank(s[word_end(s, from)]),
        forall|k: int| from <= k < word_end(s, from) ==> !is_blank(#[trigger] s[k]),
    decreases s.len() - from,
{
    if from < s.len() && !is_blank(s[from]) {
        lemma_word_at(s, from + 1);
    }
}

/// A text without a blank is one word, and a blank text has none.
pub proof fn lemma_one_word(s: Seq<char>)
    requires
        forall|i: int| 0 <= i < s.len() ==> !is_blank(#[trigger] s[i]),
    ensures
        words_of(s) == if s.len() == 0 { seq![] } else { seq![s] },
{
    if s.len() > 0 {
        lemma_word_at(s, 0);
        assert(word_end(s, 0) == s.len());
        assert(s.take(s.len() as int) =~= s);
        assert(s.skip(s.len() as int) =~= seq![]);
        assert(words_of(s.skip(s.len() as int)) =~= seq![]);
        assert(words_of(s) =~= seq![s]);
    }
}

/// What stands in what stands in a text stands in the text.
pub proof fn lemma_mentions_through(whole: Seq<char>, block: Seq<char>, part: Seq<char>)
    requires
        mentions(whole, block),
        mentions(block, part),
    ensures
        mentions(whole, part),
{
    reveal(mentions);
    let at = choose|at: int| #[trigger] stands_in(whole, block, at);
    let k = choose|k: int| #[trigger] stands_in(block, part, k);
    let n = part.len();
    assert(whole.subrange(at + k, at + k + n) =~= block.subrange(k, k + n)) by {
        assert forall|j: int| 0 <= j < n implies #[trigger] whole.subrange(at + k, at + k + n)[j]
            == block.subrange(k, k + n)[j] by {
            assert(whole.subrange(at, at + block.len())[k + j] == block[k + j]);
        }
    }
    assert(stands_in(whole, part, at + k));
}

/// The blanks are the characters with the property `White_Space`, and no others.
pub proof fn lemma_which_characters_are_blank(c: char)
    ensures
        is_blank(c) <==> c == '\t' || c == '\n' || c == '\u{b}' || c == '\u{c}' || c == '\r' || c
            == ' ' || c == '\u{85}' || c == '\u{a0}' || c == '\u{1680}' || ('\u{2000}' <= c
            <= '\u{200a}') || c == '\u{2028}' || c == '\u{2029}' || c == '\u{202f}' || c
            == '\u{205f}' || c == '\u{3000}',
{
}

/// A text begins with what stands first in it and ends with what stands last.
/// What it begins or ends with can be taken off it.
pub proof fn lemma_beginnings_and_endings(a: Seq<char>, b: Seq<char>, s: Seq<char>)
    ensures
        begins(a + b, a),
        ends(a + b, b),
        begins(s, a) <==> s.len() >= a.len() && s == a + s.skip(a.len() as int),
        ends(s, b) <==> s.len() >= b.len() && s == s.take(s.len() - b.len()) + b,
{
    assert((a + b).take(a.len() as int) =~= a);
    assert((a + b).skip(a.len() as int) =~= b);
    if begins(s, a) {
        assert(s =~= a + s.skip(a.len() as int));
    }
    if s.len() >= a.len() && s == a + s.skip(a.len() as int) {
        assert((a + s.skip(a.len() as int)).take(a.len() as int) =~= a);
    }
    if ends(s, b) {
        assert(s =~= s.take(s.len() - b.len()) + b);
    }
    if s.len() >= b.len() && s == s.take(s.len() - b.len()) + b {
        let n = s.len() - b.len();
        assert((s.take(n) + b).skip(n) =~= b);
    }
}

/// A digit for a value below sixteen is the one that hexadecimal has.
pub proof fn lemma_hexadecimal_digits(v: int)
    requires
        0 <= v < 16,
    ensures
        hex_digit(v, true) == "0123456789ABCDEF"@[v],
        hex_digit(v, false) == "0123456789abcdef"@[v],
{
    reveal_strlit("0123456789ABCDEF");
    reveal_strlit("0123456789abcdef");
}

/// A whole number is read digit by digit, each worth ten times the next. What has
/// no digit or anything but digits behind its plus is none, and so is what does
/// not fit.
pub proof fn lemma_numbers_are_read_digit_by_digit(d: Seq<char>, c: char, v: nat)
    requires
        digits_only(d),
        c as u32 == 48 + v,
        v < 10,
    ensures
        digits_only(d.push(c)),
        number_in(d.push(c)) == number_in(d) * 10 + v,
        number_in(seq![]) == 0,
        number_in(d.push(c)) <= u64::MAX ==> unsigned_of(d.push(c)) == Some(
            (number_in(d) * 10 + v) as u64,
        ),
        number_in(d.push(c)) > u64::MAX ==> unsigned_of(d.push(c)) is None,
        unsigned_of(seq![]) is None,
        unsigned_of(seq!['+']) is None,
{
    let t = d.push(c);
    assert(t.drop_last() =~= d);
    assert forall|i: int| 0 <= i < t.len() implies is_digit(#[trigger] t[i]) by {
        if i < d.len() {
            assert(t[i] == d[i]);
        }
    }
    assert(is_digit(t[0]));
    assert(seq!['+'].skip(1) =~= Seq::<char>::empty());
}

/// A character that is no digit, behind the sign, makes a text no number.
pub proof fn lemma_no_number_has_other_characters(a: Seq<char>, c: char, b: Seq<char>)
    requires
        !is_digit(c),
        a.len() > 0 || c != '+',
    ensures
        unsigned_of(a + seq![c] + b) is None,
{
    let s = a + seq![c] + b;
    let d = without_plus(s);
    assert(s[a.len() as int] == c);
    if s[0] == '+' {
        assert(d[a.len() - 1] == c);
    } else {
        assert(d[a.len() as int] == c);
    }
}

/// A negative number has a minus before its digits, and no other has.
pub proof fn lemma_signs(n: int)
    ensures
        n < 0 ==> signed_of(n) == seq!['-'] + decimal_of((-n) as nat),
        n >= 0 ==> signed_of(n) == decimal_of(n as nat),
{
    reveal_strlit("-");
    assert("-"@ =~= seq!['-']);
}

/// Texts are written one after another, each between its own head and tail.
pub proof fn lemma_each_in_turn(
    parts: Seq<Seq<char>>,
    part: Seq<char>,
    head: Seq<char>,
    tail: Seq<char>,
)
    ensures
        each(parts.push(part), head, tail) == each(parts, head, tail) + head + part + tail,
        each(seq![], head, tail).len() == 0,
        joined(seq![part], head) == part,
        joined(seq![], head).len() == 0,
        parts.len() > 0 ==> joined(parts.push(part), head) == joined(parts, head) + head + part,
{
    assert(parts.push(part).drop_last() =~= parts);
}

} // verus!
