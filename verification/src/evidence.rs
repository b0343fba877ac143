//! What has and has not been established about a library.
//!
//! A repair establishes that the files copied and verified. It establishes
//! nothing about whether a game runs, and the two are kept apart here so a
//! completed repair never reads as a working game.

use vstd::prelude::*;

use crate::document::{json_bool, json_string, json_text, truth};
use crate::library::{Library, Options};
use crate::text::{
    chars_of, decimal, decimal_of, find_char, find_from, join, joined, lemma_find_from,
    lemma_joined_mentions, lemma_mentions_in, lemma_mentions_piece, lemma_mentions_through,
    lemma_padded, lemma_views_push, mentions, pad, padded, text_of, views,
};

verus! {

/// One thing that can be established, and what is known of it.
#[derive(Debug)]
pub struct Row {
    pub field: String,
    /// The field in words.
    pub described: String,
    /// What was found, in words.
    pub label: String,
    /// Whether it was looked at at all.
    pub checked: bool,
    pub when: u64,
    /// Whether it was looked at by this tool rather than by a person.
    pub by_tool: bool,
}

/// What is asked of the evidence.
#[derive(Debug)]
pub enum Request {
    Show,
    Record { field: String, answer: String },
    /// What was to be recorded is no pair.
    NotPair,
}

/// Where a text is divided by its first equals sign.
pub open spec fn equals_at(pair: Seq<char>) -> int {
    find_from(pair, '=', 0)
}

/// Whether this is what is asked.
pub open spec fn asks(record: Option<String>, r: Request) -> bool {
    match record {
        None => r is Show,
        Some(pair) => if equals_at(pair@) < pair@.len() {
            &&& r matches Request::Record { field, answer }
            &&& field@ == pair@.take(equals_at(pair@))
            &&& answer@ == pair@.skip(equals_at(pair@) + 1)
        } else {
            r is NotPair
        },
    }
}

/// Read what is asked.
pub fn request(o: &Options) -> (r: Request)
    ensures
        asks(o.record, r),
{
    match &o.record {
        None => Request::Show,
        Some(pair) => {
            let chars = chars_of(pair.as_str());
            let at = find_char(&chars, '=', 0);
            proof {
                lemma_find_from(pair@, '=', 0);
            }
            if at < chars.len() {
                let field = text_of(&chars, 0, at);
                let answer = text_of(&chars, at + 1, chars.len());
                assert(field@ =~= pair@.take(at as int));
                assert(answer@ =~= pair@.skip(at + 1));
                Request::Record { field, answer }
            } else {
                Request::NotPair
            }
        },
    }
}

/// What is said of a text that is no pair.
pub open spec fn not_pair_text() -> Seq<char> {
    "--record takes field=answer, for example launch=yes"@
}

pub fn not_pair() -> (out: String)
    ensures
        out@ == not_pair_text(),
{
    "--record takes field=answer, for example launch=yes".to_owned()
}

/// What is said of an answer that is none.
pub open spec fn not_answer_text(answer: Seq<char>) -> Seq<char> {
    "'"@ + answer + "' is not an answer. Use yes, no or na."@
}

pub fn not_answer(answer: &str) -> (out: String)
    ensures
        out@ == not_answer_text(answer@),
{
    let mut out = "'".to_owned();
    out.append(answer);
    out.append("' is not an answer. Use yes, no or na.");
    out
}

pub open spec fn recorded_text(field: Seq<char>, label: Seq<char>) -> Seq<char> {
    "Recorded "@ + field + ": "@ + label + "\n"@
}

pub fn recorded(field: &str, label: &str) -> (out: String)
    ensures
        out@ == recorded_text(field@, label@),
{
    let mut out = "Recorded ".to_owned();
    out.append(field);
    out.append(": ");
    out.append(label);
    out.append("\n");
    out
}

/// Whether an answer is written down. A dry run changes no file.
pub fn writes_answer(o: &Options) -> (yes: bool)
    ensures
        yes == !o.dry_run,
{
    !o.dry_run
}

pub open spec fn would_record_text(field: Seq<char>, label: Seq<char>) -> Seq<char> {
    "Would record "@ + field + ": "@ + label + "\nDry run. Nothing was changed.\n"@
}

/// What a dry run says of an answer.
pub fn would_record(field: &str, label: &str) -> (out: String)
    ensures
        out@ == would_record_text(field@, label@),
{
    let mut out = "Would record ".to_owned();
    out.append(field);
    out.append(": ");
    out.append(label);
    out.append("\nDry run. Nothing was changed.\n");
    out
}

/// Who found it out, where anyone has looked.
pub open spec fn who_text(row: Row) -> Seq<char> {
    if !row.checked {
        seq![]
    } else if row.by_tool {
        "  (checked by LibraryBridge)"@
    } else {
        "  (reported by you)"@
    }
}

fn who(row: &Row) -> (out: String)
    ensures
        out@ == who_text(*row),
{
    if !row.checked {
        String::new()
    } else if row.by_tool {
        "  (checked by LibraryBridge)".to_owned()
    } else {
        "  (reported by you)".to_owned()
    }
}

pub open spec fn row_line_text(row: Row) -> Seq<char> {
    "  "@ + padded(row.described@, 44) + " "@ + row.label@ + who_text(row) + "\n"@
}

fn row_line(row: &Row) -> (out: String)
    ensures
        out@ == row_line_text(*row),
{
    let mut out = "  ".to_owned();
    out.append(pad(row.described.as_str(), 44).as_str());
    out.append(" ");
    out.append(row.label.as_str());
    out.append(who(row).as_str());
    out.append("\n");
    out
}

pub open spec fn row_json_text(row: Row) -> Seq<char> {
    "    {\"field\": "@ + json_text(row.field@) + ", \"result\": "@ + json_text(row.label@)
        + ", \"when\": "@ + decimal_of(row.when as nat) + ", \"by_tool\": "@ + truth(row.by_tool)
        + "}"@
}

fn row_json(row: &Row) -> (out: String)
    ensures
        out@ == row_json_text(*row),
{
    let mut out = "    {\"field\": ".to_owned();
    out.append(json_string(row.field.as_str()).as_str());
    out.append(", \"result\": ");
    out.append(json_string(row.label.as_str()).as_str());
    out.append(", \"when\": ");
    out.append(decimal(row.when as u64).as_str());
    out.append(", \"by_tool\": ");
    out.append(json_bool(row.by_tool));
    out.append("}");
    out
}

pub open spec fn lines_text(rows: Seq<Row>) -> Seq<char>
    decreases rows.len(),
{
    if rows.len() == 0 {
        seq![]
    } else {
        lines_text(rows.drop_last()) + row_line_text(rows.last())
    }
}

fn lines(rows: &Vec<Row>) -> (out: String)
    ensures
        out@ == lines_text(rows@),
{
    let mut out = String::new();
    for i in 0..rows.len()
        invariant
            out@ == lines_text(rows@.take(i as int)),
    {
        out.append(row_line(&rows[i]).as_str());
        assert(rows@.take(i + 1).drop_last() =~= rows@.take(i as int));
    }
    assert(rows@.take(rows@.len() as int) =~= rows@);
    out
}

pub open spec fn rows_json(rows: Seq<Row>) -> Seq<Seq<char>> {
    rows.map_values(|r: Row| row_json_text(r))
}

fn quoted_rows(rows: &Vec<Row>) -> (out: Vec<String>)
    ensures
        views(out@) == rows_json(rows@),
{
    let mut out: Vec<String> = Vec::new();
    assert(views(out@) =~= rows_json(rows@.take(0)));
    for i in 0..rows.len()
        invariant
            views(out@) == rows_json(rows@.take(i as int)),
    {
        let one = row_json(&rows[i]);
        proof {
            lemma_views_push(out@, one);
            assert(rows_json(rows@.take(i + 1)) =~= rows_json(rows@.take(i as int)).push(one@));
        }
        out.push(one);
    }
    assert(rows@.take(rows@.len() as int) =~= rows@);
    out
}

pub open spec fn evidence_text(json: bool, l: Library, rows: Seq<Row>) -> Seq<char> {
    if json {
        "{\n  \"schema\": 1,\n  \"library_id\": "@ + json_text(l.id@) + ",\n  \"evidence\": [\n"@
            + joined(rows_json(rows), ",\n"@) + "\n  ]\n}\n"@
    } else {
        "Library     "@ + l.name@ + "\n\n"@ + lines_text(rows)
            + "\nRecord an answer with, for example:\n    librarybridge evidence "@ + l.id@
            + " --record launch=yes\n"@
    }
}

/// Show what has been established.
pub fn evidence(o: &Options, l: &Library, rows: &Vec<Row>) -> (out: String)
    ensures
        out@ == evidence_text(o.json, *l, rows@),
{
    if o.json {
        let mut out = "{\n  \"schema\": 1,\n  \"library_id\": ".to_owned();
        out.append(json_string(l.id.as_str()).as_str());
        out.append(",\n  \"evidence\": [\n");
        out.append(join(&quoted_rows(rows), ",\n").as_str());
        out.append("\n  ]\n}\n");
        out
    } else {
        let mut out = "Library     ".to_owned();
        out.append(l.name.as_str());
        out.append("\n\n");
        out.append(lines(rows).as_str());
        out.append("\nRecord an answer with, for example:\n    librarybridge evidence ");
        out.append(l.id.as_str());
        out.append(" --record launch=yes\n");
        out
    }
}

// ----------------------------------------------- what holds of the evidence

/// What is to be recorded is divided at its first equals sign: the field is what
/// stands before it and the answer is all that stands behind it. With no equals
/// sign in it, it is no pair.
pub proof fn lemma_first_equals_divides(
    record: Option<String>,
    r: Request,
    a: Seq<char>,
    b: Seq<char>,
)
    requires
        asks(record, r),
        !a.contains('='),
    ensures
        record is None <==> r is Show,
        record is Some && record->Some_0@ == a + seq!['='] + b ==> r is Record && r->field@ == a
            && r->answer@ == b,
        record is Some && record->Some_0@ == a ==> r is NotPair,
{
    if record is Some {
        let pair = record->Some_0@;
        lemma_find_from(pair, '=', 0);
        let at = equals_at(pair);
        if pair == a + seq!['='] + b {
            assert(pair[a.len() as int] == '=');
            if at < a.len() {
                assert(a[at] == '=');
            }
            assert(at == a.len());
            assert(pair.take(at) =~= a);
            assert(pair.skip(at + 1) =~= b);
        }
        if pair == a && at < pair.len() {
            assert(a[at] == '=');
        }
    }
}

/// Who found something out is told only where it was looked at, and the tool is
/// told apart from the person.
pub proof fn lemma_who_is_told(row: Row)
    ensures
        who_text(row).len() == 0 <==> !row.checked,
        row.checked ==> (who_text(row) == "  (checked by LibraryBridge)"@ <==> row.by_tool),
        row.checked ==> (who_text(row) == "  (reported by you)"@ <==> !row.by_tool),
{
    reveal_strlit("  (checked by LibraryBridge)");
    reveal_strlit("  (reported by you)");
    assert("  (checked by LibraryBridge)"@.len() != "  (reported by you)"@.len());
}

proof fn lemma_line_has_label(row: Row)
    ensures
        mentions(row_line_text(row), row.described@),
        mentions(row_line_text(row), row.label@ + who_text(row)),
{
    let d = row.described@;
    let p = padded(d, 44);
    lemma_padded(d, 44);
    assert(p =~= d + p.skip(d.len() as int)) by {
        assert(p.take(d.len() as int) == d);
    }
    lemma_mentions_piece(seq![], d, p.skip(d.len() as int));
    assert(Seq::<char>::empty() + d + p.skip(d.len() as int) =~= p);
    let a = "  "@ + p;
    let b = a + " "@;
    let c = b + row.label@;
    let e = c + who_text(row);
    lemma_mentions_in("  "@, p, seq![], d);
    lemma_mentions_in(seq![], a, " "@, d);
    lemma_mentions_in(seq![], b, row.label@, d);
    lemma_mentions_in(seq![], c, who_text(row), d);
    lemma_mentions_in(seq![], e, "\n"@, d);
    let part = row.label@ + who_text(row);
    assert(row_line_text(row) =~= b + part + "\n"@);
    lemma_mentions_piece(b, part, "\n"@);
}

proof fn lemma_lines_has(rows: Seq<Row>, i: int)
    requires
        0 <= i < rows.len(),
    ensures
        mentions(lines_text(rows), row_line_text(rows[i])),
    decreases rows.len(),
{
    let head = lines_text(rows.drop_last());
    let line = row_line_text(rows.last());
    if i == rows.len() - 1 {
        lemma_mentions_piece(head, line, seq![]);
    } else {
        lemma_lines_has(rows.drop_last(), i);
        lemma_mentions_in(seq![], head, line, row_line_text(rows[i]));
    }
}

/// Everything that can be established is shown with what was found and, where it
/// was looked at, by whom. A document has the same.
pub proof fn lemma_everything_is_shown(json: bool, l: Library, rows: Seq<Row>, i: int)
    requires
        0 <= i < rows.len(),
    ensures
        !json ==> mentions(evidence_text(json, l, rows), rows[i].described@) && mentions(
            evidence_text(json, l, rows),
            rows[i].label@ + who_text(rows[i]),
        ),
        json ==> mentions(
            evidence_text(json, l, rows),
            "{\"field\": "@ + json_text(rows[i].field@) + ", \"result\": "@ + json_text(
                rows[i].label@,
            ),
        ),
{
    let row = rows[i];
    if json {
        let part = "{\"field\": "@ + json_text(row.field@) + ", \"result\": "@ + json_text(
            row.label@,
        );
        let all = rows_json(rows);
        let tail = ", \"when\": "@ + decimal_of(row.when as nat) + ", \"by_tool\": "@ + truth(
            row.by_tool,
        ) + "}"@;
        reveal_strlit("    {\"field\": ");
        reveal_strlit("{\"field\": ");
        let pad = seq![' ', ' ', ' ', ' '];
        assert(all[i] == row_json_text(row));
        assert(row_json_text(row) =~= pad + part + tail);
        lemma_mentions_piece(pad, part, tail);
        lemma_joined_mentions(all, ",\n"@, i);
        lemma_mentions_through(joined(all, ",\n"@), all[i], part);
        let head = "{\n  \"schema\": 1,\n  \"library_id\": "@ + json_text(l.id@)
            + ",\n  \"evidence\": [\n"@;
        lemma_mentions_in(head, joined(all, ",\n"@), "\n  ]\n}\n"@, part);
    } else {
        lemma_line_has_label(row);
        lemma_lines_has(rows, i);
        let lines = lines_text(rows);
        let line = row_line_text(row);
        lemma_mentions_through(lines, line, row.described@);
        lemma_mentions_through(lines, line, row.label@ + who_text(row));
        lemma_evidence_has_lines(l, rows, row.described@);
        lemma_evidence_has_lines(l, rows, row.label@ + who_text(row));
    }
}

proof fn lemma_evidence_has_lines(l: Library, rows: Seq<Row>, part: Seq<char>)
    requires
        mentions(lines_text(rows), part),
    ensures
        mentions(evidence_text(false, l, rows), part),
{
    let head = "Library     "@ + l.name@ + "\n\n"@;
    let a = head + lines_text(rows);
    let b = a + "\nRecord an answer with, for example:\n    librarybridge evidence "@;
    let c = b + l.id@;
    lemma_mentions_in(head, lines_text(rows), seq![], part);
    lemma_mentions_in(
        seq![],
        a,
        "\nRecord an answer with, for example:\n    librarybridge evidence "@,
        part,
    );
    lemma_mentions_in(seq![], b, l.id@, part);
    lemma_mentions_in(seq![], c, " --record launch=yes\n"@, part);
}

} // verus!
