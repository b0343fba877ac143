//! What a repair says: the plan it shows, the progress it reports and the
//! reasons it gives.

use vstd::arithmetic::div_mod::*;
use vstd::arithmetic::power::*;
use vstd::prelude::*;
use vstd::utf8::*;

use crate::document::{
    emit, emit_text, emit_with, emit_with_text, emit_with_two, emit_with_two_text, event_line,
    json_list, json_number, json_string, json_text, lemma_high_bytes, list_text, optional_number,
};
use crate::fix::{
    has_source, next, source_exists, Both, Copied, Ending, Escape, Extent, Facts, FixNext,
    GROWTH_RESERVE, Inventory, Refusal, Scope, Standing, Step,
};
use crate::library::{Library, Mount, Options, Report, Size, State};
use crate::path::{parent, parent_of};
use crate::protocol::{
    cannot_tell, cannot_tell_text, link_fault_message, link_fault_text, mounted_read_only,
    mounted_read_only_text, still_running, still_running_text, Known, Unready,
};
use crate::sorting::{in_order_by, lemma_in_order, lemma_strings_in_order, sort, texts_in_order};
use crate::text::{
    begins, cat2, cat3, cat4, cat5, chars_of, decimal, decimal_of, first_ten, join, join_ten,
    joined, lemma_decimal_digits, lemma_first_ten, lemma_joined_mentions, lemma_mentions_in,
    lemma_mentions_piece, lemma_mentions_self, lemma_mentions_through, lemma_views_push, mentions,
    same_text, text_of, views,
};

verus! {

/// How amounts that are not measured are shown.
#[derive(Debug)]
pub struct Amounts {
    /// No bytes at all.
    pub nothing: String,
    /// The room that is kept free.
    pub reserve: String,
}

/// The directory the destination goes into.
pub open spec fn target_parent(l: Library) -> Seq<char> {
    match parent_of(l.effective_target@) {
        Some(p) => p,
        None => "/"@,
    }
}

pub fn parent_of_target(l: &Library) -> (p: String)
    ensures
        p@ == target_parent(*l),
{
    match parent(l.effective_target.as_str()) {
        Some(p) => p,
        None => "/".to_owned(),
    }
}

// ---------------------------------------------------------- the identity

/// A number as eight bytes, the lowest first.
pub open spec fn low_first(n: nat, count: nat) -> Seq<u8>
    decreases count,
{
    if count == 0 {
        seq![]
    } else {
        seq![(n % 256) as u8] + low_first(n / 256, (count - 1) as nat)
    }
}

fn push_number(out: &mut Vec<u8>, n: u64)
    ensures
        final(out)@ == old(out)@ + low_first(n as nat, 8),
{
    let ghost start = out@;
    let ghost whole = low_first(n as nat, 8);
    let mut rest = n;
    let mut i: usize = 0;
    assert(start + whole =~= out@ + low_first(rest as nat, 8));
    while i < 8
        invariant
            i <= 8,
            start + whole == out@ + low_first(rest as nat, (8 - i) as nat),
        decreases 8 - i,
    {
        let ghost had = out@;
        let ghost tail = low_first(rest as nat / 256, (8 - i - 1) as nat);
        out.push((rest % 256) as u8);
        assert(had + (seq![(rest as nat % 256) as u8] + tail) =~= out@ + tail);
        rest = rest / 256;
        i = i + 1;
    }
    assert(out@ + low_first(rest as nat, 0) =~= out@);
}

/// A text's bytes, and a zero byte to mark where they end.
pub open spec fn ended(s: Seq<char>) -> Seq<u8> {
    encode_utf8(s) + seq![0u8]
}

fn push_ended(out: &mut Vec<u8>, text: &str)
    ensures
        final(out)@ == old(out)@ + ended(text@),
{
    push_text(out, text);
    out.push(0);
    assert(out@ =~= old(out)@ + ended(text@));
}

fn push_text(out: &mut Vec<u8>, text: &str)
    ensures
        final(out)@ == old(out)@ + encode_utf8(text@),
{
    let bytes = text.as_bytes();
    let ghost start = out@;
    assert(start + bytes@.take(0) =~= start);
    for i in 0..bytes.len()
        invariant
            bytes@ == encode_utf8(text@),
            out@ == start + bytes@.take(i as int),
    {
        out.push(bytes[i]);
        assert(start + bytes@.take(i + 1) =~= (start + bytes@.take(i as int)).push(bytes@[i as int]));
    }
    assert(bytes@.take(bytes@.len() as int) =~= bytes@);
}

/// What a repair is known by: which library, from where, to where, in what
/// state, and which source contents.
pub open spec fn identity(
    l: Library,
    report: Report,
    entries: nat,
    bytes: nat,
    digest: Seq<char>,
) -> Seq<u8> {
    ended(l.id@) + ended(l.path@) + ended(l.compatdata@) + ended(l.effective_target@)
        + ended(report.code@) + low_first(entries, 8) + low_first(bytes, 8) + encode_utf8(digest)
}

/// The bytes whose digest is the plan's identity.
pub fn identity_bytes(l: &Library, report: &Report, inventory: Option<&Inventory>) -> (out: Vec<u8>)
    ensures
        out@ == match inventory {
            Some(i) => identity(*l, *report, i.entries as nat, i.bytes.bytes as nat, i.digest@),
            None => identity(*l, *report, 0, 0, seq![]),
        },
{
    let mut out: Vec<u8> = Vec::new();
    push_ended(&mut out, l.id.as_str());
    assert(out@ =~= ended(l.id@));
    push_ended(&mut out, l.path.as_str());
    push_ended(&mut out, l.compatdata.as_str());
    push_ended(&mut out, l.effective_target.as_str());
    push_ended(&mut out, report.code.as_str());
    match inventory {
        Some(i) => {
            push_number(&mut out, i.entries as u64);
            push_number(&mut out, i.bytes.bytes);
            push_text(&mut out, i.digest.as_str());
        },
        None => {
            push_number(&mut out, 0);
            push_number(&mut out, 0);
            assert(out@ + encode_utf8(seq![]) =~= out@);
        },
    }
    out
}

/// The first sixteen characters.
pub open spec fn shortened(hex: Seq<char>) -> Seq<char> {
    if hex.len() <= 16 {
        hex
    } else {
        hex.take(16)
    }
}

/// A short identity for what is about to happen, from the digest of the
/// identity bytes.
pub fn plan_fingerprint(hex: &str) -> (short: String)
    ensures
        short@ == shortened(hex@),
{
    let chars = chars_of(hex);
    if chars.len() <= 16 {
        hex.to_owned()
    } else {
        let short = text_of(&chars, 0, 16);
        assert(short@ =~= hex@.take(16));
        short
    }
}

/// Whether a text has no zero character, as no path has.
pub open spec fn no_zero(s: Seq<char>) -> bool {
    forall|i: int| 0 <= i < s.len() ==> #[trigger] s[i] != '\0'
}

proof fn lemma_no_zero_byte(s: Seq<char>)
    requires
        no_zero(s),
    ensures
        forall|i: int| 0 <= i < encode_utf8(s).len() ==> #[trigger] encode_utf8(s)[i] != 0,
    decreases s.len(),
{
    if s.len() > 0 {
        let c = s[0] as u32;
        lemma_no_zero_byte(s.drop_first());
        char_is_scalar(s[0]);
        char_u32_cast(s[0], c);
        assert(s[0] != '\0');
        if has_width_1_encoding(c) {
            assert(leading_byte_width_1(c) == c as u8) by (bit_vector)
                requires
                    c <= 0x7f,
            ;
            assert(c != 0);
            assert(encode_scalar(c) =~= seq![c as u8]);
        } else {
            lemma_high_bytes(c);
        }
        assert forall|i: int| 0 <= i < encode_utf8(s).len() implies #[trigger] encode_utf8(s)[i]
            != 0 by {
            let n = encode_scalar(c).len();
            if i < n {
                assert(encode_utf8(s)[i] == encode_scalar(c)[i]);
            } else {
                assert(encode_utf8(s)[i] == encode_utf8(s.drop_first())[i - n]);
            }
        }
    }
}

proof fn lemma_ended_apart(a: Seq<char>, x: Seq<u8>, b: Seq<char>, y: Seq<u8>)
    requires
        no_zero(a),
        no_zero(b),
        ended(a) + x == ended(b) + y,
    ensures
        a == b,
        x == y,
{
    let ea = encode_utf8(a);
    let eb = encode_utf8(b);
    let all = ended(a) + x;
    lemma_no_zero_byte(a);
    lemma_no_zero_byte(b);
    assert(all[ea.len() as int] == 0);
    assert((ended(b) + y)[eb.len() as int] == 0);
    if ea.len() < eb.len() {
        assert((ended(b) + y)[ea.len() as int] == eb[ea.len() as int]);
    }
    if eb.len() < ea.len() {
        assert(all[eb.len() as int] == ea[eb.len() as int]);
    }
    assert(ea =~= eb) by {
        assert forall|i: int| 0 <= i < ea.len() implies ea[i] == eb[i] by {
            assert(all[i] == ea[i]);
            assert((ended(b) + y)[i] == eb[i]);
        }
    }
    encode_utf8_decode_utf8(a);
    encode_utf8_decode_utf8(b);
    assert(x =~= all.skip(ended(a).len() as int));
    assert(y =~= (ended(b) + y).skip(ended(b).len() as int));
}

proof fn lemma_low_first(n: nat, count: nat)
    ensures
        low_first(n, count).len() == count,
    decreases count,
{
    if count > 0 {
        lemma_low_first(n / 256, (count - 1) as nat);
    }
}

proof fn lemma_low_first_apart(n: nat, m: nat, count: nat)
    requires
        n < pow(256, count),
        m < pow(256, count),
        low_first(n, count) == low_first(m, count),
    ensures
        n == m,
    decreases count,
{
    if count == 0 {
        lemma_pow0(256);
    } else {
        let k = (count - 1) as nat;
        let a = low_first(n, count);
        let b = low_first(m, count);
        assert(a[0] == (n % 256) as u8);
        assert(b[0] == (m % 256) as u8);
        assert(a.skip(1) =~= low_first(n / 256, k));
        assert(b.skip(1) =~= low_first(m / 256, k));
        reveal_with_fuel(pow, 2);
        assert(pow(256, count) == 256 * pow(256, k));
        lemma_low_first_apart(n / 256, m / 256, k);
    }
}

/// The source contents of a plan, as they stand in its identity.
spec fn contents(entries: nat, bytes: nat, digest: Seq<char>) -> Seq<u8> {
    low_first(entries, 8) + (low_first(bytes, 8) + encode_utf8(digest))
}

proof fn lemma_contents_apart(
    e1: nat,
    b1: nat,
    d1: Seq<char>,
    e2: nat,
    b2: nat,
    d2: Seq<char>,
)
    requires
        e1 <= u64::MAX && b1 <= u64::MAX && e2 <= u64::MAX && b2 <= u64::MAX,
        contents(e1, b1, d1) == contents(e2, b2, d2),
    ensures
        e1 == e2,
        b1 == b2,
        d1 == d2,
{
    let t1 = contents(e1, b1, d1);
    let t2 = contents(e2, b2, d2);
    lemma_low_first(e1, 8);
    lemma_low_first(b1, 8);
    lemma_low_first(e2, 8);
    lemma_low_first(b2, 8);
    assert(low_first(e1, 8) =~= t1.take(8));
    assert(low_first(e2, 8) =~= t2.take(8));
    assert(low_first(b1, 8) =~= t1.subrange(8, 16));
    assert(low_first(b2, 8) =~= t2.subrange(8, 16));
    assert(encode_utf8(d1) =~= t1.skip(16));
    assert(encode_utf8(d2) =~= t2.skip(16));
    assert(pow(256, 8) == 18446744073709551616) by {
        reveal_with_fuel(pow, 9);
    }
    lemma_low_first_apart(e1, e2, 8);
    lemma_low_first_apart(b1, b2, 8);
    encode_utf8_decode_utf8(d1);
    encode_utf8_decode_utf8(d2);
}

proof fn lemma_identity_in_turn(l: Library, report: Report, entries: nat, bytes: nat, digest: Seq<char>)
    ensures
        identity(l, report, entries, bytes, digest) == ended(l.id@) + (ended(l.path@) + (ended(
            l.compatdata@,
        ) + (ended(l.effective_target@) + (ended(report.code@) + contents(
            entries,
            bytes,
            digest,
        ))))),
{
    let a = ended(l.id@);
    let b = ended(l.path@);
    let c = ended(l.compatdata@);
    let d = ended(l.effective_target@);
    let e = ended(report.code@);
    let n = low_first(entries, 8);
    let m = low_first(bytes, 8);
    let x = encode_utf8(digest);
    lemma_regroup(a + b + c + d + e, n, m, x);
    lemma_regroup(a + b + c, d, e, n + (m + x));
    lemma_regroup(a, b, c, d + (e + (n + (m + x))));
}

proof fn lemma_regroup(a: Seq<u8>, b: Seq<u8>, c: Seq<u8>, d: Seq<u8>)
    ensures
        a + b + c + d == a + (b + (c + d)),
{
    assert(a + b + c + d =~= a + (b + (c + d)));
}

/// Anything that would change the operation changes the bytes its identity is
/// the digest of.
pub proof fn lemma_identity_tells_plans_apart(
    l1: Library,
    r1: Report,
    i1: Inventory,
    l2: Library,
    r2: Report,
    i2: Inventory,
)
    requires
        no_zero(l1.id@) && no_zero(l1.path@) && no_zero(l1.compatdata@),
        no_zero(l1.effective_target@) && no_zero(r1.code@),
        no_zero(l2.id@) && no_zero(l2.path@) && no_zero(l2.compatdata@),
        no_zero(l2.effective_target@) && no_zero(r2.code@),
        identity(l1, r1, i1.entries as nat, i1.bytes.bytes as nat, i1.digest@) == identity(
            l2,
            r2,
            i2.entries as nat,
            i2.bytes.bytes as nat,
            i2.digest@,
        ),
    ensures
        l1.id@ == l2.id@,
        l1.path@ == l2.path@,
        l1.compatdata@ == l2.compatdata@,
        l1.effective_target@ == l2.effective_target@,
        r1.code@ == r2.code@,
        i1.entries == i2.entries,
        i1.bytes.bytes == i2.bytes.bytes,
        i1.digest@ == i2.digest@,
{
    let t1 = contents(i1.entries as nat, i1.bytes.bytes as nat, i1.digest@);
    let t2 = contents(i2.entries as nat, i2.bytes.bytes as nat, i2.digest@);
    let p1 = ended(l1.effective_target@) + (ended(r1.code@) + t1);
    let p2 = ended(l2.effective_target@) + (ended(r2.code@) + t2);
    lemma_identity_in_turn(l1, r1, i1.entries as nat, i1.bytes.bytes as nat, i1.digest@);
    lemma_identity_in_turn(l2, r2, i2.entries as nat, i2.bytes.bytes as nat, i2.digest@);
    lemma_ended_apart(
        l1.id@,
        ended(l1.path@) + (ended(l1.compatdata@) + p1),
        l2.id@,
        ended(l2.path@) + (ended(l2.compatdata@) + p2),
    );
    lemma_ended_apart(
        l1.path@,
        ended(l1.compatdata@) + p1,
        l2.path@,
        ended(l2.compatdata@) + p2,
    );
    lemma_ended_apart(l1.compatdata@, p1, l2.compatdata@, p2);
    lemma_ended_apart(
        l1.effective_target@,
        ended(r1.code@) + t1,
        l2.effective_target@,
        ended(r2.code@) + t2,
    );
    lemma_ended_apart(r1.code@, t1, r2.code@, t2);
    lemma_contents_apart(
        i1.entries as nat,
        i1.bytes.bytes as nat,
        i1.digest@,
        i2.entries as nat,
        i2.bytes.bytes as nat,
        i2.digest@,
    );
}

// -------------------------------------------------------------- the plan

/// What is copied: nothing where the library has no data yet.
pub open spec fn copy_bytes(f: Facts) -> u64 {
    if has_source(f.report->Got_0) {
        f.inventory->Got_0.bytes.bytes
    } else {
        0
    }
}

pub open spec fn copy_shown(f: Facts, a: Amounts) -> Seq<char> {
    if has_source(f.report->Got_0) {
        f.inventory->Got_0.bytes.shown@
    } else {
        a.nothing@
    }
}

/// The folders with no installed game, in order.
pub open spec fn strangers(folders: Seq<Seq<char>>, installed: Seq<Seq<char>>) -> Seq<Seq<char>>
    decreases folders.len(),
{
    if folders.len() == 0 {
        seq![]
    } else if installed.contains(folders.last()) {
        strangers(folders.drop_last(), installed)
    } else {
        strangers(folders.drop_last(), installed).push(folders.last())
    }
}

/// The folders that are looked at: none where the library has no data yet.
pub open spec fn seen_folders(source: bool, scope: Scope) -> Seq<Seq<char>> {
    if source {
        views(scope.folders@)
    } else {
        seq![]
    }
}

pub open spec fn unknown_of(source: bool, scope: Scope) -> Seq<Seq<char>> {
    texts_in_order(strangers(seen_folders(source, scope), views(scope.installed@)))
}

fn holds(texts: &Vec<String>, wanted: &str) -> (yes: bool)
    ensures
        yes == views(texts@).contains(wanted@),
{
    for i in 0..texts.len()
        invariant
            forall|k: int| 0 <= k < i ==> texts@[k]@ != wanted@,
    {
        if same_text(texts[i].as_str(), wanted) {
            assert(views(texts@)[i as int] == wanted@);
            return true;
        }
    }
    assert forall|k: int| 0 <= k < views(texts@).len() implies views(texts@)[k] != wanted@ by {
        assert(views(texts@)[k] == texts@[k]@);
    }
    false
}

/// The folders in the library's compatdata that belong to no installed game.
pub fn unknown_folders(source: bool, scope: &Scope) -> (out: Vec<String>)
    ensures
        views(out@) == unknown_of(source, *scope),
{
    let mut found: Vec<String> = Vec::new();
    assert(views(found@) =~= seq![]);
    if source {
        let ghost all = views(scope.folders@);
        for i in 0..scope.folders.len()
            invariant
                all == views(scope.folders@),
                views(found@) == strangers(all.take(i as int), views(scope.installed@)),
        {
            assert(all.take(i + 1).drop_last() =~= all.take(i as int));
            assert(all[i as int] == scope.folders@[i as int]@);
            if !holds(&scope.installed, scope.folders[i].as_str()) {
                let one = scope.folders[i].clone();
                proof {
                    lemma_views_push(found@, one);
                }
                found.push(one);
            }
        }
        assert(all.take(scope.folders@.len() as int) =~= all);
    }
    proof {
        lemma_strings_in_order(found@);
    }
    sort(found)
}

fn count_folders(source: bool, scope: &Scope) -> (n: usize)
    ensures
        n == seen_folders(source, *scope).len(),
{
    if source {
        scope.folders.len()
    } else {
        0
    }
}

pub open spec fn unknown_line_text(unknown: Seq<Seq<char>>) -> Seq<char> {
    if unknown.len() > 0 {
        "Unknown     "@ + decimal_of(unknown.len()) + " folders with no installed game: "@
            + joined(unknown, ", "@) + "\n"@
    } else {
        seq![]
    }
}

fn unknown_line(unknown: &Vec<String>) -> (out: String)
    ensures
        out@ == unknown_line_text(views(unknown@)),
{
    if unknown.len() > 0 {
        let mut out = "Unknown     ".to_owned();
        out.append(decimal(unknown.len() as u64).as_str());
        out.append(" folders with no installed game: ");
        out.append(join(unknown, ", ").as_str());
        out.append("\n");
        out
    } else {
        String::new()
    }
}

pub open spec fn shared_line_text(i: Inventory) -> Seq<char> {
    if i.hard_linked > 0 {
        "Shared      "@ + decimal_of(i.hard_linked as nat)
            + " files have more than one name; each name becomes an independent file\n"@
    } else {
        seq![]
    }
}

fn shared_line(i: &Inventory) -> (out: String)
    ensures
        out@ == shared_line_text(*i),
{
    if i.hard_linked > 0 {
        let mut out = "Shared      ".to_owned();
        out.append(decimal(i.hard_linked as u64).as_str());
        out.append(" files have more than one name; each name becomes an independent file\n");
        out
    } else {
        String::new()
    }
}

pub open spec fn sparse_line_text(i: Inventory) -> Seq<char> {
    if i.sparse > 0 {
        "Sparse      "@ + decimal_of(i.sparse as nat)
            + " files are stored with holes. The copy fills them, so it will need up to "@
            + i.sparse_saving.shown@ + " more room than the size above.\n"@
    } else {
        seq![]
    }
}

fn sparse_line(i: &Inventory) -> (out: String)
    ensures
        out@ == sparse_line_text(*i),
{
    if i.sparse > 0 {
        let mut out = "Sparse      ".to_owned();
        out.append(decimal(i.sparse as u64).as_str());
        out.append(" files are stored with holes. The copy fills them, so it will need up to ");
        out.append(i.sparse_saving.shown.as_str());
        out.append(" more room than the size above.\n");
        out
    } else {
        String::new()
    }
}

pub open spec fn described_text(mount: Option<Mount>) -> Seq<char> {
    match mount {
        Some(m) => m.described@,
        None => "unknown"@,
    }
}

fn described(mount: &Option<Mount>) -> (out: String)
    ensures
        out@ == described_text(*mount),
{
    match mount {
        Some(m) => m.described.clone(),
        None => "unknown".to_owned(),
    }
}

pub open spec fn aside_line_text(report: Report, scope: Scope) -> Seq<char> {
    if report.existing_destination is Some {
        "Note        a copy is already at the destination and will be renamed to "@ + scope.aside@
            + "\n"@
    } else {
        seq![]
    }
}

fn aside_line(report: &Report, scope: &Scope) -> (out: String)
    ensures
        out@ == aside_line_text(*report, *scope),
{
    if report.existing_destination.is_some() {
        let mut out = "Note        a copy is already at the destination and will be renamed to ".to_owned();
        out.append(scope.aside.as_str());
        out.append("\n");
        out
    } else {
        String::new()
    }
}

pub open spec fn backup_line_text(source: bool, scope: Scope) -> Seq<char> {
    if source {
        "Backup      "@ + scope.backup@ + " (the original, kept in place)\n"@
    } else {
        "Backup      not needed, this library has no Proton data yet\n"@
    }
}

fn backup_line(source: bool, scope: &Scope) -> (out: String)
    ensures
        out@ == backup_line_text(source, *scope),
{
    if source {
        cat3("Backup      ", scope.backup.as_str(), " (the original, kept in place)\n")
    } else {
        "Backup      not needed, this library has no Proton data yet\n".to_owned()
    }
}

pub open spec fn containment_text(enforced: bool) -> Seq<char> {
    if enforced {
        "enforced by the kernel"@
    } else {
        "checked by this tool only, which is weaker"@
    }
}

fn containment(enforced: bool) -> (out: &'static str)
    ensures
        out@ == containment_text(enforced),
{
    if enforced {
        "enforced by the kernel"
    } else {
        "checked by this tool only, which is weaker"
    }
}

/// What the library actually holds, so the scope of the repair is visible
/// before it is approved rather than summarised as a number of bytes.
pub open spec fn games_line_text(source: bool, scope: Scope) -> Seq<char> {
    "Games       "@ + decimal_of(scope.installed@.len()) + " installed, "@
        + decimal_of(seen_folders(source, scope).len()) + " prefix folders\n"@
}

fn games_line(source: bool, scope: &Scope) -> (out: String)
    ensures
        out@ == games_line_text(source, *scope),
{
    let mut out = "Games       ".to_owned();
    out.append(decimal(scope.installed.len() as u64).as_str());
    out.append(" installed, ");
    out.append(decimal(count_folders(source, scope) as u64).as_str());
    out.append(" prefix folders\n");
    out
}

/// What is out of the ordinary about the data.
pub open spec fn peculiar_text(f: Facts) -> Seq<char> {
    if has_source(f.report->Got_0) {
        shared_line_text(f.inventory->Got_0) + sparse_line_text(f.inventory->Got_0)
    } else {
        seq![]
    }
}

pub open spec fn plan_text(l: Library, f: Facts, a: Amounts, contained: bool) -> Seq<char> {
    let source = has_source(f.report->Got_0);
    let scope = f.scope->Got_0;
    games_line_text(source, scope) + unknown_line_text(unknown_of(source, scope)) + peculiar_text(f)
        + "Filesystem  "@ + described_text(f.mount->Got_0) + "\nSource      "@ + l.compatdata@
        + "\nDestination "@ + l.effective_target@ + "\nTo copy     "@ + copy_shown(f, a) + "\n"@
        + aside_line_text(f.report->Got_0, scope) + backup_line_text(source, scope)
        + "Plan        "@ + f.fingerprint->Got_0@
        + "\nChecks      symlink support is tested when you apply; path containment is "@
        + containment_text(contained) + "\n"@
}

/// The plan as it is shown.
pub fn plan_shown(l: &Library, f: &Facts, a: &Amounts, contained: bool) -> (out: String)
    requires
        f.report is Got && f.mount is Got && f.scope is Got && f.fingerprint is Got,
        has_source(f.report->Got_0) ==> f.inventory is Got,
    ensures
        out@ == plan_text(*l, *f, *a, contained),
{
    match (&f.report, &f.mount, &f.scope, &f.fingerprint) {
        (Known::Got(report), Known::Got(mount), Known::Got(scope), Known::Got(fingerprint)) => {
            let source = source_exists(report);
            let mut out = games_line(source, scope);
            out.append(unknown_line(&unknown_folders(source, scope)).as_str());
            let mut copied = a.nothing.clone();
            match &f.inventory {
                Known::Got(i) if source => {
                    let mut lines = shared_line(i);
                    lines.append(sparse_line(i).as_str());
                    out.append(lines.as_str());
                    copied = i.bytes.shown.clone();
                },
                _ => {
                    proof {
                        assert(out@ =~= out@ + Seq::<char>::empty());
                    }
                },
            }
            out.append("Filesystem  ");
            out.append(described(mount).as_str());
            out.append("\nSource      ");
            out.append(l.compatdata.as_str());
            out.append("\nDestination ");
            out.append(l.effective_target.as_str());
            out.append("\nTo copy     ");
            out.append(copied.as_str());
            out.append("\n");
            out.append(aside_line(report, scope).as_str());
            out.append(backup_line(source, scope).as_str());
            out.append("Plan        ");
            out.append(fingerprint.as_str());
            out.append("\nChecks      symlink support is tested when you apply; path containment is ");
            out.append(containment(contained));
            out.append("\n");
            out
        },
        _ => String::new(),
    }
}

// ------------------------------------------------- the plan as a document

/// What is left free once the copy is there.
pub open spec fn remaining_of(available: Option<u64>, copy: u64) -> Option<u64> {
    match available {
        Some(free) => Some(if free >= copy { (free - copy) as u64 } else { 0 }),
        None => None,
    }
}

fn remaining(available: Option<u64>, copy: u64) -> (left: Option<u64>)
    ensures
        left == remaining_of(available, copy),
{
    match available {
        Some(free) => Some(if free >= copy { free - copy } else { 0 }),
        None => None,
    }
}

pub open spec fn many_names_text(hard_linked: usize) -> Seq<char> {
    decimal_of(hard_linked as nat)
        + " files have more than one name. The copy does not preserve hard links: each name becomes \
            an independent file."@
}

fn many_names(hard_linked: usize) -> (out: String)
    ensures
        out@ == many_names_text(hard_linked),
{
    let mut out = decimal(hard_linked as u64);
    out.append(" files have more than one name. The copy does not preserve hard links: each name \
        becomes an independent file.");
    out
}

/// What a repair entails, one sentence each.
pub open spec fn consequences_of(flatpak: bool, hard_linked: usize) -> Seq<Seq<char>> {
    let always = seq!["Game installation files stay on the game drive."@];
    let first = if flatpak {
        always.push(
            "The data will live inside Steam's Flatpak directory. Removing Steam and its data would \
                remove it too."@,
        )
    } else {
        always
    };
    if hard_linked > 0 {
        first.push(many_names_text(hard_linked))
    } else {
        first
    }
}

fn consequences(flatpak: bool, hard_linked: usize) -> (out: Vec<String>)
    ensures
        views(out@) == consequences_of(flatpak, hard_linked),
{
    let mut out: Vec<String> = Vec::new();
    out.push("Game installation files stay on the game drive.".to_owned());
    assert(views(out@) =~= seq!["Game installation files stay on the game drive."@]);
    if flatpak {
        let one = "The data will live inside Steam's Flatpak directory. Removing Steam and its data \
            would remove it too.".to_owned();
        proof {
            lemma_views_push(out@, one);
        }
        out.push(one);
    }
    if hard_linked > 0 {
        let one = many_names(hard_linked);
        proof {
            lemma_views_push(out@, one);
        }
        out.push(one);
    }
    out
}

/// The reviewed plan as data, so a frontend does not have to read prose to
/// find out what is about to happen.
pub open spec fn plan_json_text(
    l: Library,
    report: Report,
    backup: Seq<char>,
    copy: u64,
    reserve: u64,
    available: Option<u64>,
    installed: usize,
    prefixes: usize,
    unknown: Seq<Seq<char>>,
    hard_linked: usize,
    fingerprint: Seq<char>,
) -> Seq<char> {
    "{\n  \"schema\": 1,\n  \"fingerprint\": "@ + json_text(fingerprint)
        + ",\n  \"kind\": \"repair\",\n  \"library_id\": "@ + json_text(l.id@)
        + ",\n  \"library\": "@ + json_text(l.path@) + ",\n  \"state\": "@
        + json_text(report.code@) + ",\n  \"steam\": "@ + json_text(l.steam@)
        + ",\n  \"source\": "@ + json_text(l.compatdata@) + ",\n  \"destination\": "@
        + json_text(l.effective_target@) + ",\n  \"backup\": "@ + json_text(backup)
        + ",\n  \"copy_bytes\": "@ + decimal_of(copy as nat) + ",\n  \"reserve_bytes\": "@
        + decimal_of(reserve as nat) + ",\n  \"available_bytes\": "@ + optional_number(available)
        + ",\n  \"expected_remaining_bytes\": "@ + optional_number(remaining_of(available, copy))
        + ",\n  \"installed_games\": "@ + decimal_of(installed as nat)
        + ",\n  \"prefix_folders\": "@ + decimal_of(prefixes as nat)
        + ",\n  \"unknown_folders\": ["@ + list_text(unknown) + "],\n  \"consequences\": ["@
        + list_text(consequences_of(l.flatpak, hard_linked)) + "]\n}\n"@
}

pub fn plan_json(
    l: &Library,
    report: &Report,
    backup: &str,
    copy: u64,
    reserve: u64,
    available: Option<u64>,
    installed: usize,
    prefixes: usize,
    unknown: &Vec<String>,
    hard_linked: usize,
    fingerprint: &str,
) -> (out: String)
    ensures
        out@ == plan_json_text(
            *l,
            *report,
            backup@,
            copy,
            reserve,
            available,
            installed,
            prefixes,
            views(unknown@),
            hard_linked,
            fingerprint@,
        ),
{
    let mut out = "{\n  \"schema\": 1,\n  \"fingerprint\": ".to_owned();
    out.append(json_string(fingerprint).as_str());
    out.append(",\n  \"kind\": \"repair\",\n  \"library_id\": ");
    out.append(json_string(l.id.as_str()).as_str());
    out.append(",\n  \"library\": ");
    out.append(json_string(l.path.as_str()).as_str());
    out.append(",\n  \"state\": ");
    out.append(json_string(report.code.as_str()).as_str());
    out.append(",\n  \"steam\": ");
    out.append(json_string(l.steam.as_str()).as_str());
    out.append(",\n  \"source\": ");
    out.append(json_string(l.compatdata.as_str()).as_str());
    out.append(",\n  \"destination\": ");
    out.append(json_string(l.effective_target.as_str()).as_str());
    out.append(",\n  \"backup\": ");
    out.append(json_string(backup).as_str());
    out.append(",\n  \"copy_bytes\": ");
    out.append(decimal(copy as u64).as_str());
    out.append(",\n  \"reserve_bytes\": ");
    out.append(decimal(reserve as u64).as_str());
    out.append(",\n  \"available_bytes\": ");
    out.append(json_number(available).as_str());
    out.append(",\n  \"expected_remaining_bytes\": ");
    out.append(json_number(remaining(available, copy)).as_str());
    out.append(",\n  \"installed_games\": ");
    out.append(decimal(installed as u64).as_str());
    out.append(",\n  \"prefix_folders\": ");
    out.append(decimal(prefixes as u64).as_str());
    out.append(",\n  \"unknown_folders\": [");
    out.append(json_list(unknown).as_str());
    out.append("],\n  \"consequences\": [");
    out.append(json_list(&consequences(l.flatpak, hard_linked)).as_str());
    out.append("]\n}\n");
    out
}

// ------------------------------------------------------------- the reasons

pub open spec fn wrong_state_text(l: Library, report: Report) -> Seq<char> {
    l.path@ + ": cannot repair while the library is in the state '"@ + report.headline@
        + "'. Run `librarybridge scan` for details."@
}

fn wrong_state(l: &Library, report: &Report) -> (out: String)
    ensures
        out@ == wrong_state_text(*l, *report),
{
    let mut out = l.path.clone();
    out.append(": cannot repair while the library is in the state '");
    out.append(report.headline.as_str());
    out.append("'. Run `librarybridge scan` for details.");
    out
}

pub open spec fn no_symlinks_text(l: Library, mount: Mount) -> Seq<char> {
    l.path@ + " is on "@ + mount.fs_type@
        + ", which has no symlink support. This repair cannot work there. Use Steam to move the \
            library to a Linux filesystem instead."@
}

fn no_symlinks(l: &Library, mount: &Mount) -> (out: String)
    ensures
        out@ == no_symlinks_text(*l, *mount),
{
    let mut out = l.path.clone();
    out.append(" is on ");
    out.append(mount.fs_type.as_str());
    out.append(", which has no symlink support. This repair cannot work there. Use Steam to move \
        the library to a Linux filesystem instead.");
    out
}

pub open spec fn already_native_text(l: Library, mount: Mount) -> Seq<char> {
    l.path@ + " is already on "@ + mount.fs_type@
        + ", a Linux filesystem. There is nothing to repair. Pass --force to do it anyway."@
}

fn already_native(l: &Library, mount: &Mount) -> (out: String)
    ensures
        out@ == already_native_text(*l, *mount),
{
    let mut out = l.path.clone();
    out.append(" is already on ");
    out.append(mount.fs_type.as_str());
    out.append(", a Linux filesystem. There is nothing to repair. Pass --force to do it anyway.");
    out
}

pub open spec fn unidentified_text(l: Library) -> Seq<char> {
    "the filesystem under "@ + l.path@
        + " could not be identified, so there is no way to tell whether this repair applies or \
            would even work. This is expected off Linux, where there is no mount table to read. \
            Pass --force to proceed anyway."@
}

fn unidentified(l: &Library) -> (out: String)
    ensures
        out@ == unidentified_text(*l),
{
    let mut out = "the filesystem under ".to_owned();
    out.append(l.path.as_str());
    out.append(" could not be identified, so there is no way to tell whether this repair applies or \
        would even work. This is expected off Linux, where there is no mount table to read. Pass \
        --force to proceed anyway.");
    out
}

pub open spec fn same_filesystem_text(l: Library) -> Seq<char> {
    "the destination "@ + l.effective_target@
        + " is on the same filesystem as the library. Moving the data there would not fix anything."@
}

fn same_filesystem(l: &Library) -> (out: String)
    ensures
        out@ == same_filesystem_text(*l),
{
    let mut out = "the destination ".to_owned();
    out.append(l.effective_target.as_str());
    out.append(" is on the same filesystem as the library. Moving the data there would not fix \
        anything.");
    out
}

pub open spec fn unfit_destination_text(l: Library, mount: Mount) -> Seq<char> {
    "the destination "@ + l.effective_target@ + " is on "@ + mount.fs_type@
        + ", where Proton data cannot live. Choose a Linux filesystem with --data-dir."@
}

fn unfit_destination(l: &Library, mount: &Mount) -> (out: String)
    ensures
        out@ == unfit_destination_text(*l, *mount),
{
    let mut out = "the destination ".to_owned();
    out.append(l.effective_target.as_str());
    out.append(" is on ");
    out.append(mount.fs_type.as_str());
    out.append(", where Proton data cannot live. Choose a Linux filesystem with --data-dir.");
    out
}

pub open spec fn same_directory_text(l: Library) -> Seq<char> {
    "the destination "@ + l.effective_target@
        + " is the same directory as the library itself. Moving the data there would not fix \
            anything."@
}

fn same_directory(l: &Library) -> (out: String)
    ensures
        out@ == same_directory_text(*l),
{
    let mut out = "the destination ".to_owned();
    out.append(l.effective_target.as_str());
    out.append(" is the same directory as the library itself. Moving the data there would not fix \
        anything.");
    out
}

pub open spec fn escape_line_text(e: Escape) -> Seq<char> {
    "  "@ + e.from@ + " -> "@ + e.to@
}

pub fn escape_line(e: &Escape) -> (out: String)
    ensures
        out@ == escape_line_text(*e),
{
    let mut out = "  ".to_owned();
    out.append(e.from.as_str());
    out.append(" -> ");
    out.append(e.to.as_str());
    out
}

pub open spec fn escape_lines_of(escaping: Seq<Escape>) -> Seq<Seq<char>> {
    escaping.map_values(|e: Escape| escape_line_text(e))
}

/// Links that lead out of a tree, one to a line.
pub fn escape_lines(escaping: &Vec<Escape>) -> (lines: Vec<String>)
    ensures
        views(lines@) == escape_lines_of(escaping@),
{
    let mut lines: Vec<String> = Vec::new();
    assert(views(lines@) =~= escape_lines_of(escaping@.take(0)));
    for i in 0..escaping.len()
        invariant
            views(lines@) == escape_lines_of(escaping@.take(i as int)),
    {
        let line = escape_line(&escaping[i]);
        proof {
            lemma_views_push(lines@, line);
            assert(escape_lines_of(escaping@.take(i + 1)) =~= escape_lines_of(
                escaping@.take(i as int),
            ).push(line@));
        }
        lines.push(line);
    }
    assert(escaping@.take(escaping@.len() as int) =~= escaping@);
    lines
}

pub open spec fn links_escape_text(lines: Seq<Seq<char>>) -> Seq<char> {
    "this prefix contains relative links that point outside it, and moving the tree would change \
        where they lead:\n"@
        + joined(first_ten(lines), "\n"@)
        + "\n\nCopying them unchanged would leave them pointing at the wrong place, and rewriting \
            them is a separate decision this tool does not make on its own. Nothing was changed."@
}

fn links_escape(lines: &Vec<String>) -> (out: String)
    ensures
        out@ == links_escape_text(views(lines@)),
{
    let mut out = "this prefix contains relative links that point outside it, and moving the tree \
        would change where they lead:\n".to_owned();
    out.append(join_ten(lines, "\n").as_str());
    out.append("\n\nCopying them unchanged would leave them pointing at the wrong place, and \
        rewriting them is a separate decision this tool does not make on its own. Nothing was \
        changed.");
    out
}

pub open spec fn no_room_text(l: Library, copied: Seq<char>, a: Amounts, free: Size) -> Seq<char> {
    "not enough room at "@ + target_parent(l) + ". The copy needs "@ + copied + " plus "@
        + a.reserve@ + " spare, and only "@ + free.shown@ + " is free."@
}

fn no_room(l: &Library, copied: &str, a: &Amounts, free: &Size) -> (out: String)
    ensures
        out@ == no_room_text(*l, copied@, *a, *free),
{
    let mut out = "not enough room at ".to_owned();
    out.append(parent_of_target(l).as_str());
    out.append(". The copy needs ");
    out.append(copied);
    out.append(" plus ");
    out.append(a.reserve.as_str());
    out.append(" spare, and only ");
    out.append(free.shown.as_str());
    out.append(" is free.");
    out
}

pub open spec fn plan_changed_text(expect: Seq<char>, fingerprint: Seq<char>) -> Seq<char> {
    "this library has changed since the plan was reviewed. It was "@ + expect + " and is now "@
        + fingerprint + ". Nothing was done. Review it again."@
}

pub fn plan_changed(expect: &str, fingerprint: &str) -> (out: String)
    ensures
        out@ == plan_changed_text(expect@, fingerprint@),
{
    let mut out = "this library has changed since the plan was reviewed. It was ".to_owned();
    out.append(expect);
    out.append(" and is now ");
    out.append(fingerprint);
    out.append(". Nothing was done. Review it again.");
    out
}

pub open spec fn copy_differs_text(problems: Seq<Seq<char>>) -> Seq<char> {
    "the copy does not match the source, so nothing on the game drive was touched.\n  "@
        + joined(first_ten(problems), "\n  "@)
}

fn copy_differs(problems: &Vec<String>) -> (out: String)
    ensures
        out@ == copy_differs_text(views(problems@)),
{
    let mut out = "the copy does not match the source, so nothing on the game drive was touched.\n  ".to_owned();
    out.append(join_ten(problems, "\n  ").as_str());
    out
}

pub open spec fn source_changed_text(changed: Seq<Seq<char>>) -> Seq<char> {
    "the source changed while it was being copied, so nothing on the game drive was touched. Make \
        sure Steam is closed and try again.\n  "@
        + joined(first_ten(changed), "\n  "@)
}

fn source_changed(changed: &Vec<String>) -> (out: String)
    ensures
        out@ == source_changed_text(views(changed@)),
{
    let mut out = "the source changed while it was being copied, so nothing on the game drive was \
        touched. Make sure Steam is closed and try again.\n  ".to_owned();
    out.append(join_ten(changed, "\n  ").as_str());
    out
}

pub open spec fn source_replaced_text(l: Library, source: Standing) -> Seq<char> {
    l.compatdata@ + " is a "@ + source.label@
        + " now, not a directory. Something changed it since this repair was planned, so nothing \
            was moved."@
}

fn source_replaced(l: &Library, source: &Standing) -> (out: String)
    ensures
        out@ == source_replaced_text(*l, *source),
{
    let mut out = l.compatdata.clone();
    out.append(" is a ");
    out.append(source.label.as_str());
    out.append(" now, not a directory. Something changed it since this repair was planned, so \
        nothing was moved.");
    out
}

pub open spec fn source_moved_text(l: Library) -> Seq<char> {
    l.compatdata@ + " no longer resolves inside "@ + l.steamapps@
        + ". Something replaced a directory along that path since this repair was planned, so \
            nothing was moved."@
}

fn source_moved(l: &Library) -> (out: String)
    ensures
        out@ == source_moved_text(*l),
{
    let mut out = l.compatdata.clone();
    out.append(" no longer resolves inside ");
    out.append(l.steamapps.as_str());
    out.append(". Something replaced a directory along that path since this repair was planned, so \
        nothing was moved.");
    out
}

/// How much is at a path, in brackets.
pub open spec fn extent_text(path: Seq<char>, e: Extent) -> Seq<char> {
    path + " ("@ + decimal_of(e.files as nat) + " files, "@ + e.bytes.shown@ + ")"@
}

fn extent(path: &str, e: &Extent) -> (out: String)
    ensures
        out@ == extent_text(path@, *e),
{
    let mut out = path.to_owned();
    out.append(" (");
    out.append(decimal(e.files as u64).as_str());
    out.append(" files, ");
    out.append(e.bytes.shown.as_str());
    out.append(")");
    out
}

pub open spec fn here_text(l: Library, here: Option<Extent>) -> Seq<char> {
    match here {
        Some(e) => extent_text(l.compatdata@, e),
        None => l.compatdata@ + " (nothing there)"@,
    }
}

fn here(l: &Library, e: &Option<Extent>) -> (out: String)
    ensures
        out@ == here_text(*l, *e),
{
    match e {
        Some(e) => extent(l.compatdata.as_str(), e),
        None => cat2(l.compatdata.as_str(), " (nothing there)"),
    }
}

pub open spec fn conflict_message_text(
    l: Library,
    destination: Seq<char>,
    both: Both,
) -> Seq<char> {
    "two different sets of Proton data exist, and only you can say which one counts.\n\n  at the \
        destination: "@
        + extent_text(destination, both.there) + "\n  on the game drive:  "@
        + here_text(l, both.here)
        + "\n\nThis usually means an earlier repair was interrupted and Steam recreated\n\
            compatdata before it could be finished. If so, the destination holds your \
            real\nprefixes and the game drive holds a fresh empty one.\n\nNothing has been changed. \
            Look at both, then choose:\n\n  librarybridge fix "@
        + l.id@
        + " --keep-destination     keep the destination, set the game drive copy aside\n  \
            librarybridge fix "@
        + l.id@
        + " --replace-destination  keep the game drive copy, set the destination aside\n\
            \nEither way, both copies are kept."@
}

pub fn conflict_message(l: &Library, destination: &str, both: &Both) -> (out: String)
    ensures
        out@ == conflict_message_text(*l, destination@, *both),
{
    let mut out = "two different sets of Proton data exist, and only you can say which one \
        counts.\n\n  at the destination: ".to_owned();
    out.append(extent(destination, &both.there).as_str());
    out.append("\n  on the game drive:  ");
    out.append(here(l, &both.here).as_str());
    out.append("\n\nThis usually means an earlier repair was interrupted and Steam \
        recreated\ncompatdata before it could be finished. If so, the destination holds your \
        real\nprefixes and the game drive holds a fresh empty one.\n\nNothing has been changed. \
        Look at both, then choose:\n\n  librarybridge fix ");
    out.append(l.id.as_str());
    out.append(" --keep-destination     keep the destination, set the game drive copy aside\n  \
        librarybridge fix ");
    out.append(l.id.as_str());
    out.append(" --replace-destination  keep the game drive copy, set the destination \
        aside\n\nEither way, both copies are kept.");
    out
}

/// Why a repair is refused.
pub open spec fn refusal_text(o: Options, l: Library, f: Facts, a: Amounts, r: Refusal) -> Seq<char> {
    match r {
        Refusal::Unready(Unready::Running) => still_running_text(f.running->Got_0),
        Refusal::Unready(Unready::ReadOnly) => mounted_read_only_text(f.mount->Got_0->Some_0),
        Refusal::State => wrong_state_text(l, f.report->Got_0),
        Refusal::NoSymlinks => no_symlinks_text(l, f.mount->Got_0->Some_0),
        Refusal::Native => already_native_text(l, f.mount->Got_0->Some_0),
        Refusal::Unidentified => unidentified_text(l),
        Refusal::SameFilesystem => same_filesystem_text(l),
        Refusal::Destination => unfit_destination_text(l, f.target_mount->Got_0->Some_0),
        Refusal::SameDirectory => same_directory_text(l),
        Refusal::Escaping => links_escape_text(escape_lines_of(f.inventory->Got_0.escaping@)),
        Refusal::Conflict => conflict_message_text(
            l,
            f.report->Got_0.existing_destination->Some_0@,
            f.extents->Got_0,
        ),
        Refusal::NoRoom => no_room_text(l, copy_shown(f, a), a, f.free->Got_0->Some_0),
        Refusal::Changed => plan_changed_text(o.expect->Some_0@, f.fingerprint->Got_0@),
        Refusal::ChangedAgain => plan_changed_text(o.expect->Some_0@, f.fingerprint_again->Got_0@),
        Refusal::CopyDiffers => copy_differs_text(views(f.problems->Got_0@)),
        Refusal::SourceChanged => source_changed_text(views(f.changed->Got_0@)),
        Refusal::SourceReplaced => source_replaced_text(l, f.source->Got_0),
        Refusal::SourceMoved => source_moved_text(l),
        Refusal::Link(fault) => link_fault_text(
            fault,
            l.compatdata@,
            l.effective_target@,
            f.link->Got_0,
        ),
    }
}

fn shown_copy(f: &Facts, a: &Amounts) -> (out: String)
    requires
        f.report is Got,
        has_source(f.report->Got_0) ==> f.inventory is Got,
    ensures
        out@ == copy_shown(*f, *a),
{
    match (&f.report, &f.inventory) {
        (Known::Got(report), Known::Got(i)) if source_exists(report) => i.bytes.shown.clone(),
        _ => a.nothing.clone(),
    }
}

/// Say why a repair is refused.
pub fn refusal(o: &Options, l: &Library, f: &Facts, a: &Amounts, r: Refusal) -> (out: String)
    requires
        next(*o, *l, *f) == FixNext::Stop(Ending::Refused(r)),
    ensures
        out@ == refusal_text(*o, *l, *f, *a, r),
{
    match r {
        Refusal::Unready(Unready::Running) => match &f.running {
            Known::Got(running) => still_running(running),
            _ => String::new(),
        },
        Refusal::Unready(Unready::ReadOnly) => match &f.mount {
            Known::Got(Some(mount)) => mounted_read_only(mount),
            _ => String::new(),
        },
        Refusal::State => match &f.report {
            Known::Got(report) => wrong_state(l, report),
            _ => String::new(),
        },
        Refusal::NoSymlinks => match &f.mount {
            Known::Got(Some(mount)) => no_symlinks(l, mount),
            _ => String::new(),
        },
        Refusal::Native => match &f.mount {
            Known::Got(Some(mount)) => already_native(l, mount),
            _ => String::new(),
        },
        Refusal::Unidentified => unidentified(l),
        Refusal::SameFilesystem => same_filesystem(l),
        Refusal::Destination => match &f.target_mount {
            Known::Got(Some(mount)) => unfit_destination(l, mount),
            _ => String::new(),
        },
        Refusal::SameDirectory => same_directory(l),
        Refusal::Escaping => match &f.inventory {
            Known::Got(i) => links_escape(&escape_lines(&i.escaping)),
            _ => String::new(),
        },
        Refusal::Conflict => match (&f.report, &f.extents) {
            (Known::Got(report), Known::Got(both)) => match &report.existing_destination {
                Some(destination) => conflict_message(l, destination.as_str(), both),
                None => String::new(),
            },
            _ => String::new(),
        },
        Refusal::NoRoom => match &f.free {
            Known::Got(Some(free)) => no_room(l, shown_copy(f, a).as_str(), a, free),
            _ => String::new(),
        },
        Refusal::Changed => match (&o.expect, &f.fingerprint) {
            (Some(expect), Known::Got(now)) => plan_changed(expect.as_str(), now.as_str()),
            _ => String::new(),
        },
        Refusal::ChangedAgain => match (&o.expect, &f.fingerprint_again) {
            (Some(expect), Known::Got(now)) => plan_changed(expect.as_str(), now.as_str()),
            _ => String::new(),
        },
        Refusal::CopyDiffers => match &f.problems {
            Known::Got(problems) => copy_differs(problems),
            _ => String::new(),
        },
        Refusal::SourceChanged => match &f.changed {
            Known::Got(changed) => source_changed(changed),
            _ => String::new(),
        },
        Refusal::SourceReplaced => match &f.source {
            Known::Got(source) => source_replaced(l, source),
            _ => String::new(),
        },
        Refusal::SourceMoved => source_moved(l),
        Refusal::Link(fault) => match &f.link {
            Known::Got(seen) => link_fault_message(
                fault,
                l.compatdata.as_str(),
                l.effective_target.as_str(),
                seen,
            ),
            _ => String::new(),
        },
    }
}

/// What is said where a step fails, given the reason it gave.
pub open spec fn failure_text(l: Library, s: Step, reason: Seq<char>) -> Seq<char> {
    match s {
        Step::Processes => cannot_tell_text(reason),
        Step::MoveOriginal => reason + ". The copy is complete at "@ + l.effective_target@
            + ", and the original is untouched."@,
        _ => reason,
    }
}

pub fn failure(l: &Library, s: Step, reason: &str) -> (out: String)
    ensures
        out@ == failure_text(*l, s, reason@),
{
    match s {
        Step::Processes => cannot_tell(reason),
        Step::MoveOriginal => cat4(
            reason,
            ". The copy is complete at ",
            l.effective_target.as_str(),
            ", and the original is untouched.",
        ),
        _ => reason.to_owned(),
    }
}

// ------------------------------------------------------------ the progress

/// Which library this is. Machine output carries these fields itself.
pub open spec fn header_text(l: Library, json: bool) -> Seq<char> {
    if !json {
        "Library     "@ + l.path@ + "\nName        "@ + l.name@ + "\n"@
    } else {
        seq![]
    }
}

fn header(l: &Library, json: bool) -> (out: String)
    ensures
        out@ == header_text(*l, json),
{
    if !json {
        let mut out = "Library     ".to_owned();
        out.append(l.path.as_str());
        out.append("\nName        ");
        out.append(l.name.as_str());
        out.append("\n");
        out
    } else {
        String::new()
    }
}

pub open spec fn space_text(free: Option<Size>) -> Seq<char> {
    if free is None {
        "Space       could not be checked on this system\n"@
    } else {
        seq![]
    }
}

fn space(free: &Option<Size>) -> (out: String)
    ensures
        out@ == space_text(*free),
{
    if free.is_none() {
        "Space       could not be checked on this system\n".to_owned()
    } else {
        String::new()
    }
}

pub open spec fn set_aside_text(f: Facts) -> Seq<char> {
    if f.target_present->Got_0 {
        "Set aside a copy from an earlier repair: "@ + f.set_aside->Got_0@ + "\n"@
    } else {
        seq![]
    }
}

fn set_aside(f: &Facts) -> (out: String)
    requires
        f.target_present is Got,
        f.target_present->Got_0 ==> f.set_aside is Got,
    ensures
        out@ == set_aside_text(*f),
{
    match (&f.target_present, &f.set_aside) {
        (Known::Got(true), Known::Got(moved)) => cat3(
            "Set aside a copy from an earlier repair: ",
            moved.as_str(),
            "\n",
        ),
        _ => String::new(),
    }
}

pub open spec fn copying_line_text(json: bool) -> Seq<char> {
    if !json {
        "\nCopying...\n"@
    } else {
        seq![]
    }
}

fn copying_line(json: bool) -> (out: String)
    ensures
        out@ == copying_line_text(json),
{
    if !json {
        "\nCopying...\n".to_owned()
    } else {
        String::new()
    }
}

pub open spec fn independent_text(c: Copied) -> Seq<char> {
    if c.hard_linked > 0 {
        "  note: "@ + decimal_of(c.hard_linked as nat)
            + " files were hard links and are now independent copies\n"@
    } else {
        seq![]
    }
}

fn independent(c: &Copied) -> (out: String)
    ensures
        out@ == independent_text(*c),
{
    if c.hard_linked > 0 {
        let mut out = "  note: ".to_owned();
        out.append(decimal(c.hard_linked as u64).as_str());
        out.append(" files were hard links and are now independent copies\n");
        out
    } else {
        String::new()
    }
}

pub open spec fn copied_text(c: Copied) -> Seq<char> {
    "  "@ + decimal_of(c.files as nat) + " files, "@ + decimal_of(c.dirs as nat)
        + " directories, "@ + decimal_of(c.symlinks as nat) + " symlinks, "@ + c.bytes.shown@
        + "\n"@ + independent_text(c)
}

fn copied(c: &Copied) -> (out: String)
    ensures
        out@ == copied_text(*c),
{
    let mut out = "  ".to_owned();
    out.append(decimal(c.files as u64).as_str());
    out.append(" files, ");
    out.append(decimal(c.dirs as u64).as_str());
    out.append(" directories, ");
    out.append(decimal(c.symlinks as u64).as_str());
    out.append(" symlinks, ");
    out.append(c.bytes.shown.as_str());
    out.append("\n");
    out.append(independent(c).as_str());
    out
}

/// How far a copy is, every two hundred and fifty files.
pub open spec fn progress_text(json: bool, files: usize, bytes: Size) -> Seq<char> {
    if files % 250 != 0 {
        seq![]
    } else if json {
        "{\"event\": \"progress\", \"files\": "@ + decimal_of(files as nat) + ", \"bytes\": "@
            + decimal_of(bytes.bytes as nat) + "}\n"@
    } else {
        "\r  "@ + decimal_of(files as nat) + " files, "@ + bytes.shown@
    }
}

/// Report how far a copy is. Machine output goes to the standard output, the
/// rest to the standard error.
pub fn progress(json: bool, files: usize, bytes: &Size) -> (out: String)
    ensures
        out@ == progress_text(json, files, *bytes),
{
    if files % 250 != 0 {
        String::new()
    } else if json {
        cat5(
            "{\"event\": \"progress\", \"files\": ",
            decimal(files as u64).as_str(),
            ", \"bytes\": ",
            decimal(bytes.bytes).as_str(),
            "}\n",
        )
    } else {
        cat4("\r  ", decimal(files as u64).as_str(), " files, ", bytes.shown.as_str())
    }
}

/// What is said before a step is taken.
pub open spec fn announcement(
    o: Options,
    l: Library,
    f: Facts,
    a: Amounts,
    contained: bool,
    s: Step,
) -> Seq<char> {
    match s {
        Step::Processes => header_text(l, o.json),
        Step::Scope => space_text(f.free->Got_0),
        Step::ShowPlan => plan_text(l, f, a, contained),
        Step::Confirm => "\nContinue? [y/N] "@,
        Step::Probe => emit_text(o.json, "preparing"@),
        Step::Copy => set_aside_text(f) + copying_line_text(o.json) + emit_with_text(
            o.json,
            "copying"@,
            "total_bytes"@,
            decimal_of(copy_bytes(f) as nat),
        ),
        Step::CreateTarget => set_aside_text(f),
        Step::CheckCopy => copied_text(f.copy->Got_0) + emit_text(o.json, "verifying"@)
            + "Checking every file...\n"@,
        Step::NameBackup => "  every file matches\n"@ + emit_text(o.json, "committing"@),
        Step::OpenLibrary => "\nMoving the original aside...\n"@,
        Step::MakeLink => if has_source(f.report->Got_0) {
            "  "@ + f.backup->Got_0@ + "\nLinking...\n"@
        } else {
            "Linking...\n"@
        },
        _ => seq![],
    }
}

/// Say what there is to say before a step is taken.
pub fn announce(o: &Options, l: &Library, f: &Facts, a: &Amounts, contained: bool, s: Step) -> (out:
    String)
    requires
        next(*o, *l, *f) == FixNext::Take(s),
    ensures
        out@ == announcement(*o, *l, *f, *a, contained, s),
{
    match s {
        Step::Processes => header(l, o.json),
        Step::Scope => match &f.free {
            Known::Got(free) => space(free),
            _ => String::new(),
        },
        Step::ShowPlan => plan_shown(l, f, a, contained),
        Step::Confirm => "\nContinue? [y/N] ".to_owned(),
        Step::Probe => emit(o.json, "preparing"),
        Step::Copy => {
            let mut out = set_aside(f);
            out.append(copying_line(o.json).as_str());
            let total = match &f.inventory {
                Known::Got(i) => i.bytes.bytes,
                _ => 0,
            };
            out.append(
                emit_with(o.json, "copying", "total_bytes", decimal(total).as_str()).as_str(),
            );
            out
        },
        Step::CreateTarget => set_aside(f),
        Step::CheckCopy => match &f.copy {
            Known::Got(c) => {
                let mut out = copied(c);
                out.append(emit(o.json, "verifying").as_str());
                out.append("Checking every file...\n");
                out
            },
            _ => String::new(),
        },
        Step::NameBackup => cat2("  every file matches\n", emit(o.json, "committing").as_str()),
        Step::OpenLibrary => "\nMoving the original aside...\n".to_owned(),
        Step::MakeLink => match (&f.report, &f.backup) {
            (Known::Got(report), Known::Got(backup)) if source_exists(report) => cat3(
                "  ",
                backup.as_str(),
                "\nLinking...\n",
            ),
            _ => "Linking...\n".to_owned(),
        },
        _ => String::new(),
    }
}

pub open spec fn kept_note_text(l: Library, source: bool) -> Seq<char> {
    if source {
        "\nThe original is still on the game drive. Do not delete it by hand. Once a game\n\
            has launched and loaded a save, `librarybridge backup "@
            + l.id@ + "` can remove it to\nreclaim the space.\n"@
    } else {
        seq![]
    }
}

fn kept_note(l: &Library, source: bool) -> (out: String)
    ensures
        out@ == kept_note_text(*l, source),
{
    if source {
        let mut out = "\nThe original is still on the game drive. Do not delete it by hand. Once a \
            game\nhas launched and loaded a save, `librarybridge backup ".to_owned();
        out.append(l.id.as_str());
        out.append("` can remove it to\nreclaim the space.\n");
        out
    } else {
        String::new()
    }
}

pub open spec fn found_backup_text(f: Facts) -> Seq<char> {
    match f.found_backup {
        Known::Got(Some(b)) => b@,
        _ => seq![],
    }
}

fn found_backup(f: &Facts) -> (out: String)
    ensures
        out@ == found_backup_text(*f),
{
    match &f.found_backup {
        Known::Got(Some(b)) => b.clone(),
        _ => String::new(),
    }
}

pub open spec fn done_text(o: Options, l: Library, source: bool, kept: Seq<char>) -> Seq<char> {
    emit_with_two_text(
        o.json,
        "applied"@,
        "destination"@,
        json_text(l.effective_target@),
        "backup"@,
        json_text(kept),
    )
        + "\nDone.\n  Proton data now lives at   "@ + l.effective_target@
        + "\n  Steam still sees it at     "@ + l.compatdata@ + "\n"@ + kept_note_text(l, source)
}

fn done(o: &Options, l: &Library, source: bool, kept: &str) -> (out: String)
    ensures
        out@ == done_text(*o, *l, source, kept@),
{
    let mut out = emit_with_two(
        o.json,
        "applied",
        "destination",
        json_string(l.effective_target.as_str()).as_str(),
        "backup",
        json_string(kept).as_str(),
    );
    out.append("\nDone.\n  Proton data now lives at   ");
    out.append(l.effective_target.as_str());
    out.append("\n  Steam still sees it at     ");
    out.append(l.compatdata.as_str());
    out.append("\n");
    out.append(kept_note(l, source).as_str());
    out
}

pub open spec fn repaired_text(report: Report) -> Seq<char> {
    "State       already repaired, pointing at "@ + report.state->Repaired_target@
        + "\nNothing to do.\n"@
}

/// What is said where a run ends without being refused.
pub open spec fn closing_text(o: Options, l: Library, f: Facts, e: Ending) -> Seq<char> {
    let source = has_source(f.report->Got_0);
    match e {
        Ending::AlreadyRepaired => repaired_text(f.report->Got_0),
        Ending::Plan => plan_json_text(
            l,
            f.report->Got_0,
            f.scope->Got_0.backup@,
            copy_bytes(f),
            GROWTH_RESERVE,
            match f.free->Got_0 {
                Some(free) => Some(free.bytes),
                None => None,
            },
            f.scope->Got_0.installed@.len() as usize,
            seen_folders(source, f.scope->Got_0).len() as usize,
            unknown_of(source, f.scope->Got_0),
            if source {
                f.inventory->Got_0.hard_linked
            } else {
                0
            },
            f.fingerprint->Got_0@,
        ),
        Ending::DryRun => "\nDry run. Nothing was changed.\n"@,
        Ending::Cancelled => "Cancelled. Nothing was changed.\n"@,
        Ending::Applied => done_text(o, l, source, found_backup_text(f)),
        _ => seq![],
    }
}

/// Say what there is to say where a run ends without being refused.
pub fn closing(o: &Options, l: &Library, f: &Facts, e: Ending) -> (out: String)
    requires
        next(*o, *l, *f) == FixNext::Stop(e),
    ensures
        out@ == closing_text(*o, *l, *f, e),
{
    match e {
        Ending::AlreadyRepaired => match &f.report {
            Known::Got(report) => match &report.state {
                State::Repaired { target, .. } => cat3(
                    "State       already repaired, pointing at ",
                    target.as_str(),
                    "\nNothing to do.\n",
                ),
                _ => String::new(),
            },
            _ => String::new(),
        },
        Ending::Plan => plan_document(l, f),
        Ending::DryRun => "\nDry run. Nothing was changed.\n".to_owned(),
        Ending::Cancelled => "Cancelled. Nothing was changed.\n".to_owned(),
        Ending::Applied => match &f.report {
            Known::Got(report) => done(o, l, source_exists(report), found_backup(f).as_str()),
            _ => String::new(),
        },
        _ => String::new(),
    }
}

fn plan_document(l: &Library, f: &Facts) -> (out: String)
    requires
        f.report is Got && f.scope is Got && f.fingerprint is Got && f.free is Got,
        has_source(f.report->Got_0) ==> f.inventory is Got,
    ensures
        forall|o: Options| #![trigger closing_text(o, *l, *f, Ending::Plan)]
            out@ == closing_text(o, *l, *f, Ending::Plan),
{
    match (&f.report, &f.scope, &f.fingerprint, &f.free) {
        (Known::Got(report), Known::Got(scope), Known::Got(fingerprint), Known::Got(free)) => {
            let source = source_exists(report);
            let (copy, hard_linked) = match &f.inventory {
                Known::Got(i) if source => (i.bytes.bytes, i.hard_linked),
                _ => (0, 0),
            };
            let available = match free {
                Some(size) => Some(size.bytes),
                None => None,
            };
            plan_json(
                l,
                report,
                scope.backup.as_str(),
                copy,
                GROWTH_RESERVE,
                available,
                scope.installed.len(),
                count_folders(source, scope),
                &unknown_folders(source, scope),
                hard_linked,
                fingerprint.as_str(),
            )
        },
        _ => String::new(),
    }
}

// ------------------------------------------------ what holds of what is said

/// What is copied is all the data there is, and none where there is none yet.
/// What is left free is what was free less what is copied, and never less than
/// nothing.
pub proof fn lemma_what_is_copied_and_left(f: Facts, available: Option<u64>, copy: u64)
    ensures
        has_source(f.report->Got_0) ==> copy_bytes(f) == f.inventory->Got_0.bytes.bytes,
        !has_source(f.report->Got_0) ==> copy_bytes(f) == 0,
        available is None <==> remaining_of(available, copy) is None,
        available matches Some(free) ==> (copy <= free ==> remaining_of(available, copy)->Some_0
            + copy == free) && (copy > free ==> remaining_of(available, copy) == Some(0u64)),
{
}

proof fn lemma_strangers_push(folders: Seq<Seq<char>>, folder: Seq<char>, installed: Seq<Seq<char>>)
    ensures
        strangers(folders.push(folder), installed) == if installed.contains(folder) {
            strangers(folders, installed)
        } else {
            strangers(folders, installed).push(folder)
        },
{
    assert(folders.push(folder).drop_last() =~= folders);
}

proof fn lemma_strangers(folders: Seq<Seq<char>>, installed: Seq<Seq<char>>, t: Seq<char>)
    ensures
        strangers(folders, installed).contains(t) <==> folders.contains(t)
            && !installed.contains(t),
    decreases folders.len(),
{
    if folders.len() > 0 {
        let head = folders.drop_last();
        let last = folders.last();
        assert(folders =~= head.push(last));
        lemma_strangers(head, installed, t);
        lemma_strangers_push(head, last, installed);
        let was = strangers(head, installed);
        let now = strangers(folders, installed);
        if head.contains(t) {
            let k = choose|k: int| 0 <= k < head.len() && head[k] == t;
            assert(folders[k] == t);
        }
        if folders.contains(t) && t != last {
            let k = choose|k: int| 0 <= k < folders.len() && folders[k] == t;
            assert(head[k] == t);
        }
        assert(folders.contains(last)) by {
            assert(folders[folders.len() - 1] == last);
        }
        if was.contains(t) {
            let k = choose|k: int| 0 <= k < was.len() && was[k] == t;
            assert(now[k] == t);
        }
        if now.contains(t) && t != last {
            let k = choose|k: int| 0 <= k < now.len() && now[k] == t;
            assert(was[k] == t);
        }
        if !installed.contains(last) {
            assert(now.last() == last);
        } else if now.contains(last) {
            assert(was.contains(last));
        }
    }
}

/// A folder is told as unknown exactly where it is among the data of the library
/// and no installed game has it.
pub proof fn lemma_which_folders_are_unknown(source: bool, scope: Scope, t: Seq<char>)
    ensures
        unknown_of(source, scope).contains(t) <==> source && views(scope.folders@).contains(t)
            && !views(scope.installed@).contains(t),
{
    broadcast use vstd::seq_lib::group_to_multiset_ensures;

    let found = strangers(seen_folders(source, scope), views(scope.installed@));
    lemma_strangers(seen_folders(source, scope), views(scope.installed@), t);
    let same = |x: Seq<char>| x;
    lemma_in_order(found, same);
    let sorted = unknown_of(source, scope);
    assert(sorted == in_order_by(found, same));
    assert(sorted.to_multiset().count(t) > 0 <==> sorted.contains(t));
    assert(found.to_multiset().count(t) > 0 <==> found.contains(t));
}

/// What a repair entails is told: where the data goes with a Flatpak, and how
/// many files have more than one name where any has.
pub proof fn lemma_consequences_are_told(flatpak: bool, hard_linked: usize)
    ensures
        consequences_of(flatpak, hard_linked).len() == 1 + (if flatpak {
            1int
        } else {
            0int
        }) + (if hard_linked > 0 {
            1int
        } else {
            0int
        }),
        consequences_of(flatpak, hard_linked)[0]
            == "Game installation files stay on the game drive."@,
        hard_linked > 0 ==> mentions(
            consequences_of(flatpak, hard_linked).last(),
            decimal_of(hard_linked as nat),
        ),
        flatpak ==> mentions(
            consequences_of(flatpak, hard_linked)[1],
            "inside Steam's Flatpak directory"@,
        ),
{
    lemma_mentions_piece(
        seq![],
        decimal_of(hard_linked as nat),
        " files have more than one name. The copy does not preserve hard links: each name becomes \
            an independent file."@,
    );
    reveal_strlit(
        "The data will live inside Steam's Flatpak directory. Removing Steam and its data would \
            remove it too.",
    );
    reveal_strlit("inside Steam's Flatpak directory");
    let whole =
        "The data will live inside Steam's Flatpak directory. Removing Steam and its data would \
            remove it too."@;
    let part = "inside Steam's Flatpak directory"@;
    assert(whole =~= whole.take(19) + part + whole.skip(51));
    lemma_mentions_piece(whole.take(19), part, whole.skip(51));
}

/// The short identity is the first sixteen characters.
pub proof fn lemma_identity_is_shortened(hex: Seq<char>, i: int)
    ensures
        shortened(hex).len() == if hex.len() < 16 { hex.len() } else { 16 },
        0 <= i < shortened(hex).len() ==> shortened(hex)[i] == hex[i],
{
}

/// How far a copy is is told at every two hundred and fiftieth file, with the
/// number of files, and at no other.
pub proof fn lemma_when_progress_is_told(json: bool, files: usize, bytes: Size)
    ensures
        progress_text(json, files, bytes).len() > 0 <==> files % 250 == 0,
        files % 250 == 0 ==> mentions(progress_text(json, files, bytes), decimal_of(files as nat)),
        files % 250 == 0 && json ==> mentions(
            progress_text(json, files, bytes),
            decimal_of(bytes.bytes as nat),
        ),
{
    let n = decimal_of(files as nat);
    let m = decimal_of(bytes.bytes as nat);
    lemma_decimal_digits(files as nat);
    let a = "{\"event\": \"progress\", \"files\": "@;
    lemma_mentions_piece(a, n, seq![]);
    lemma_mentions_in(seq![], a + n, ", \"bytes\": "@, n);
    lemma_mentions_in(seq![], a + n + ", \"bytes\": "@, m, n);
    lemma_mentions_in(seq![], a + n + ", \"bytes\": "@ + m, "}\n"@, n);
    lemma_mentions_piece(a + n + ", \"bytes\": "@, m, "}\n"@);
    lemma_mentions_piece("\r  "@, n, seq![]);
    lemma_mentions_in(seq![], "\r  "@ + n, " files, "@, n);
    lemma_mentions_in(seq![], "\r  "@ + n + " files, "@, bytes.shown@, n);
}

/// A failure says why. Where only the move of the original failed it says where
/// the copy is.
pub proof fn lemma_failure_says_why(l: Library, s: Step, reason: Seq<char>)
    ensures
        mentions(failure_text(l, s, reason), reason),
        s is MoveOriginal ==> mentions(failure_text(l, s, reason), l.effective_target@),
        !(s is MoveOriginal) && !(s is Processes) ==> failure_text(l, s, reason) == reason,
{
    lemma_mentions_self(reason);
    lemma_mentions_piece(
        seq![],
        reason,
        ". LibraryBridge will not change a library while it cannot tell whether Steam is running, \
            because writes made during the move would be lost."@,
    );
    let a = reason + ". The copy is complete at "@;
    lemma_mentions_piece(seq![], reason, ". The copy is complete at "@);
    lemma_mentions_in(seq![], a, l.effective_target@, reason);
    lemma_mentions_in(
        seq![],
        a + l.effective_target@,
        ", and the original is untouched."@,
        reason,
    );
    lemma_mentions_piece(a, l.effective_target@, ", and the original is untouched."@);
}

proof fn lemma_plan_has_folders(l: Library, f: Facts, a: Amounts, contained: bool)
    ensures
        ({
            let source = has_source(f.report->Got_0);
            let scope = f.scope->Got_0;
            mentions(plan_text(l, f, a, contained), unknown_line_text(unknown_of(source, scope)))
        }),
{
    let source = has_source(f.report->Got_0);
    let scope = f.scope->Got_0;
    let head = games_line_text(source, scope);
    let part = unknown_line_text(unknown_of(source, scope));
    lemma_mentions_piece(head, part, seq![]);
    let t1 = head + part;
    lemma_mentions_in(seq![], t1, peculiar_text(f), part);
    let t2 = t1 + peculiar_text(f);
    lemma_mentions_in(seq![], t2, "Filesystem  "@, part);
    let t3 = t2 + "Filesystem  "@;
    lemma_mentions_in(seq![], t3, described_text(f.mount->Got_0), part);
    let t4 = t3 + described_text(f.mount->Got_0);
    lemma_mentions_in(seq![], t4, "\nSource      "@, part);
    let t5 = t4 + "\nSource      "@;
    lemma_mentions_in(seq![], t5, l.compatdata@, part);
    let t6 = t5 + l.compatdata@;
    lemma_mentions_in(seq![], t6, "\nDestination "@, part);
    let t7 = t6 + "\nDestination "@;
    lemma_mentions_in(seq![], t7, l.effective_target@, part);
    let t8 = t7 + l.effective_target@;
    lemma_mentions_in(seq![], t8, "\nTo copy     "@, part);
    let t9 = t8 + "\nTo copy     "@;
    lemma_mentions_in(seq![], t9, copy_shown(f, a), part);
    let t10 = t9 + copy_shown(f, a);
    lemma_mentions_in(seq![], t10, "\n"@, part);
    let t11 = t10 + "\n"@;
    lemma_mentions_in(seq![], t11, aside_line_text(f.report->Got_0, scope), part);
    let t12 = t11 + aside_line_text(f.report->Got_0, scope);
    lemma_mentions_in(seq![], t12, backup_line_text(source, scope), part);
    let t13 = t12 + backup_line_text(source, scope);
    lemma_mentions_in(seq![], t13, "Plan        "@, part);
    let t14 = t13 + "Plan        "@;
    lemma_mentions_in(seq![], t14, f.fingerprint->Got_0@, part);
    let t15 = t14 + f.fingerprint->Got_0@;
    lemma_mentions_in(seq![], t15,
        "\nChecks      symlink support is tested when you apply; path containment is "@, part);
    let t16 = t15 + "\nChecks      symlink support is tested when you apply; path containment is "@;
    lemma_mentions_in(seq![], t16, containment_text(contained), part);
    let t17 = t16 + containment_text(contained);
    lemma_mentions_in(seq![], t17, "\n"@, part);
}

proof fn lemma_plan_has_peculiar(l: Library, f: Facts, a: Amounts, contained: bool)
    ensures
        ({
            let source = has_source(f.report->Got_0);
            let scope = f.scope->Got_0;
            mentions(plan_text(l, f, a, contained), peculiar_text(f))
        }),
{
    let source = has_source(f.report->Got_0);
    let scope = f.scope->Got_0;
    let head = games_line_text(source, scope) + unknown_line_text(unknown_of(source, scope));
    let part = peculiar_text(f);
    lemma_mentions_piece(head, part, seq![]);
    let t2 = head + part;
    lemma_mentions_in(seq![], t2, "Filesystem  "@, part);
    let t3 = t2 + "Filesystem  "@;
    lemma_mentions_in(seq![], t3, described_text(f.mount->Got_0), part);
    let t4 = t3 + described_text(f.mount->Got_0);
    lemma_mentions_in(seq![], t4, "\nSource      "@, part);
    let t5 = t4 + "\nSource      "@;
    lemma_mentions_in(seq![], t5, l.compatdata@, part);
    let t6 = t5 + l.compatdata@;
    lemma_mentions_in(seq![], t6, "\nDestination "@, part);
    let t7 = t6 + "\nDestination "@;
    lemma_mentions_in(seq![], t7, l.effective_target@, part);
    let t8 = t7 + l.effective_target@;
    lemma_mentions_in(seq![], t8, "\nTo copy     "@, part);
    let t9 = t8 + "\nTo copy     "@;
    lemma_mentions_in(seq![], t9, copy_shown(f, a), part);
    let t10 = t9 + copy_shown(f, a);
    lemma_mentions_in(seq![], t10, "\n"@, part);
    let t11 = t10 + "\n"@;
    lemma_mentions_in(seq![], t11, aside_line_text(f.report->Got_0, scope), part);
    let t12 = t11 + aside_line_text(f.report->Got_0, scope);
    lemma_mentions_in(seq![], t12, backup_line_text(source, scope), part);
    let t13 = t12 + backup_line_text(source, scope);
    lemma_mentions_in(seq![], t13, "Plan        "@, part);
    let t14 = t13 + "Plan        "@;
    lemma_mentions_in(seq![], t14, f.fingerprint->Got_0@, part);
    let t15 = t14 + f.fingerprint->Got_0@;
    lemma_mentions_in(seq![], t15,
        "\nChecks      symlink support is tested when you apply; path containment is "@, part);
    let t16 = t15 + "\nChecks      symlink support is tested when you apply; path containment is "@;
    lemma_mentions_in(seq![], t16, containment_text(contained), part);
    let t17 = t16 + containment_text(contained);
    lemma_mentions_in(seq![], t17, "\n"@, part);
}

proof fn lemma_plan_has_paths(l: Library, f: Facts, a: Amounts, contained: bool)
    ensures
        ({
            let source = has_source(f.report->Got_0);
            let scope = f.scope->Got_0;
            mentions(plan_text(l, f, a, contained), l.compatdata@ + "\nDestination "@
                + l.effective_target@)
        }),
{
    let source = has_source(f.report->Got_0);
    let scope = f.scope->Got_0;
    let head = games_line_text(source, scope) + unknown_line_text(unknown_of(source, scope))
        + peculiar_text(f) + "Filesystem  "@ + described_text(f.mount->Got_0) + "\nSource      "@;
    let part = l.compatdata@ + "\nDestination "@ + l.effective_target@;
    let t8 = head + l.compatdata@ + "\nDestination "@ + l.effective_target@;
    assert(t8 =~= head + part);
    lemma_mentions_piece(head, part, seq![]);
    lemma_mentions_in(seq![], t8, "\nTo copy     "@, part);
    let t9 = t8 + "\nTo copy     "@;
    lemma_mentions_in(seq![], t9, copy_shown(f, a), part);
    let t10 = t9 + copy_shown(f, a);
    lemma_mentions_in(seq![], t10, "\n"@, part);
    let t11 = t10 + "\n"@;
    lemma_mentions_in(seq![], t11, aside_line_text(f.report->Got_0, scope), part);
    let t12 = t11 + aside_line_text(f.report->Got_0, scope);
    lemma_mentions_in(seq![], t12, backup_line_text(source, scope), part);
    let t13 = t12 + backup_line_text(source, scope);
    lemma_mentions_in(seq![], t13, "Plan        "@, part);
    let t14 = t13 + "Plan        "@;
    lemma_mentions_in(seq![], t14, f.fingerprint->Got_0@, part);
    let t15 = t14 + f.fingerprint->Got_0@;
    lemma_mentions_in(seq![], t15,
        "\nChecks      symlink support is tested when you apply; path containment is "@, part);
    let t16 = t15 + "\nChecks      symlink support is tested when you apply; path containment is "@;
    lemma_mentions_in(seq![], t16, containment_text(contained), part);
    let t17 = t16 + containment_text(contained);
    lemma_mentions_in(seq![], t17, "\n"@, part);
}

proof fn lemma_plan_has_amount(l: Library, f: Facts, a: Amounts, contained: bool)
    ensures
        ({
            let source = has_source(f.report->Got_0);
            let scope = f.scope->Got_0;
            mentions(plan_text(l, f, a, contained), copy_shown(f, a))
        }),
{
    let source = has_source(f.report->Got_0);
    let scope = f.scope->Got_0;
    let head = games_line_text(source, scope) + unknown_line_text(unknown_of(source, scope))
        + peculiar_text(f) + "Filesystem  "@ + described_text(f.mount->Got_0) + "\nSource      "@
        + l.compatdata@ + "\nDestination "@ + l.effective_target@ + "\nTo copy     "@;
    let part = copy_shown(f, a);
    lemma_mentions_piece(head, part, seq![]);
    let t10 = head + part;
    lemma_mentions_in(seq![], t10, "\n"@, part);
    let t11 = t10 + "\n"@;
    lemma_mentions_in(seq![], t11, aside_line_text(f.report->Got_0, scope), part);
    let t12 = t11 + aside_line_text(f.report->Got_0, scope);
    lemma_mentions_in(seq![], t12, backup_line_text(source, scope), part);
    let t13 = t12 + backup_line_text(source, scope);
    lemma_mentions_in(seq![], t13, "Plan        "@, part);
    let t14 = t13 + "Plan        "@;
    lemma_mentions_in(seq![], t14, f.fingerprint->Got_0@, part);
    let t15 = t14 + f.fingerprint->Got_0@;
    lemma_mentions_in(seq![], t15,
        "\nChecks      symlink support is tested when you apply; path containment is "@, part);
    let t16 = t15 + "\nChecks      symlink support is tested when you apply; path containment is "@;
    lemma_mentions_in(seq![], t16, containment_text(contained), part);
    let t17 = t16 + containment_text(contained);
    lemma_mentions_in(seq![], t17, "\n"@, part);
}

proof fn lemma_plan_has_aside(l: Library, f: Facts, a: Amounts, contained: bool)
    ensures
        ({
            let source = has_source(f.report->Got_0);
            let scope = f.scope->Got_0;
            mentions(plan_text(l, f, a, contained), aside_line_text(f.report->Got_0, scope))
        }),
{
    let source = has_source(f.report->Got_0);
    let scope = f.scope->Got_0;
    let head = games_line_text(source, scope) + unknown_line_text(unknown_of(source, scope))
        + peculiar_text(f) + "Filesystem  "@ + described_text(f.mount->Got_0) + "\nSource      "@
        + l.compatdata@ + "\nDestination "@ + l.effective_target@ + "\nTo copy     "@
        + copy_shown(f, a) + "\n"@;
    let part = aside_line_text(f.report->Got_0, scope);
    lemma_mentions_piece(head, part, seq![]);
    let t12 = head + part;
    lemma_mentions_in(seq![], t12, backup_line_text(source, scope), part);
    let t13 = t12 + backup_line_text(source, scope);
    lemma_mentions_in(seq![], t13, "Plan        "@, part);
    let t14 = t13 + "Plan        "@;
    lemma_mentions_in(seq![], t14, f.fingerprint->Got_0@, part);
    let t15 = t14 + f.fingerprint->Got_0@;
    lemma_mentions_in(seq![], t15,
        "\nChecks      symlink support is tested when you apply; path containment is "@, part);
    let t16 = t15 + "\nChecks      symlink support is tested when you apply; path containment is "@;
    lemma_mentions_in(seq![], t16, containment_text(contained), part);
    let t17 = t16 + containment_text(contained);
    lemma_mentions_in(seq![], t17, "\n"@, part);
}

proof fn lemma_plan_has_backup(l: Library, f: Facts, a: Amounts, contained: bool)
    ensures
        ({
            let source = has_source(f.report->Got_0);
            let scope = f.scope->Got_0;
            mentions(plan_text(l, f, a, contained), backup_line_text(source, scope))
        }),
{
    let source = has_source(f.report->Got_0);
    let scope = f.scope->Got_0;
    let head = games_line_text(source, scope) + unknown_line_text(unknown_of(source, scope))
        + peculiar_text(f) + "Filesystem  "@ + described_text(f.mount->Got_0) + "\nSource      "@
        + l.compatdata@ + "\nDestination "@ + l.effective_target@ + "\nTo copy     "@
        + copy_shown(f, a) + "\n"@ + aside_line_text(f.report->Got_0, scope);
    let part = backup_line_text(source, scope);
    lemma_mentions_piece(head, part, seq![]);
    let t13 = head + part;
    lemma_mentions_in(seq![], t13, "Plan        "@, part);
    let t14 = t13 + "Plan        "@;
    lemma_mentions_in(seq![], t14, f.fingerprint->Got_0@, part);
    let t15 = t14 + f.fingerprint->Got_0@;
    lemma_mentions_in(seq![], t15,
        "\nChecks      symlink support is tested when you apply; path containment is "@, part);
    let t16 = t15 + "\nChecks      symlink support is tested when you apply; path containment is "@;
    lemma_mentions_in(seq![], t16, containment_text(contained), part);
    let t17 = t16 + containment_text(contained);
    lemma_mentions_in(seq![], t17, "\n"@, part);
}

proof fn lemma_plan_has_identity(l: Library, f: Facts, a: Amounts, contained: bool)
    ensures
        ({
            let source = has_source(f.report->Got_0);
            let scope = f.scope->Got_0;
            mentions(plan_text(l, f, a, contained), "Plan        "@ + f.fingerprint->Got_0@)
        }),
{
    let source = has_source(f.report->Got_0);
    let scope = f.scope->Got_0;
    let head = games_line_text(source, scope) + unknown_line_text(unknown_of(source, scope))
        + peculiar_text(f) + "Filesystem  "@ + described_text(f.mount->Got_0) + "\nSource      "@
        + l.compatdata@ + "\nDestination "@ + l.effective_target@ + "\nTo copy     "@
        + copy_shown(f, a) + "\n"@ + aside_line_text(f.report->Got_0, scope)
        + backup_line_text(source, scope);
    let part = "Plan        "@ + f.fingerprint->Got_0@;
    let t15 = head + "Plan        "@ + f.fingerprint->Got_0@;
    assert(t15 =~= head + part);
    lemma_mentions_piece(head, part, seq![]);
    lemma_mentions_in(seq![], t15,
        "\nChecks      symlink support is tested when you apply; path containment is "@, part);
    let t16 = t15 + "\nChecks      symlink support is tested when you apply; path containment is "@;
    lemma_mentions_in(seq![], t16, containment_text(contained), part);
    let t17 = t16 + containment_text(contained);
    lemma_mentions_in(seq![], t17, "\n"@, part);
}

/// The plan that is shown before anything is agreed to names where the data is
/// and where it goes, how much it is, what it is known by, where the original is
/// kept, every folder of no installed game, and what is set aside.
pub proof fn lemma_plan_says_what_will_happen(
    l: Library,
    f: Facts,
    a: Amounts,
    contained: bool,
    i: int,
)
    ensures
        mentions(
            plan_text(l, f, a, contained),
            l.compatdata@ + "\nDestination "@ + l.effective_target@,
        ),
        mentions(plan_text(l, f, a, contained), "Plan        "@ + f.fingerprint->Got_0@),
        has_source(f.report->Got_0) ==> mentions(
            plan_text(l, f, a, contained),
            f.inventory->Got_0.bytes.shown@,
        ) && mentions(plan_text(l, f, a, contained), f.scope->Got_0.backup@),
        has_source(f.report->Got_0) && f.inventory->Got_0.sparse > 0 ==> mentions(
            plan_text(l, f, a, contained),
            f.inventory->Got_0.sparse_saving.shown@,
        ),
        f.report->Got_0.existing_destination is Some ==> mentions(
            plan_text(l, f, a, contained),
            f.scope->Got_0.aside@,
        ),
        0 <= i < unknown_of(has_source(f.report->Got_0), f.scope->Got_0).len() ==> mentions(
            plan_text(l, f, a, contained),
            unknown_of(has_source(f.report->Got_0), f.scope->Got_0)[i],
        ),
{
    let whole = plan_text(l, f, a, contained);
    let source = has_source(f.report->Got_0);
    let scope = f.scope->Got_0;
    lemma_plan_has_paths(l, f, a, contained);
    lemma_plan_has_identity(l, f, a, contained);
    if source {
        lemma_plan_has_amount(l, f, a, contained);
        lemma_plan_has_backup(l, f, a, contained);
        lemma_mentions_piece(
            "Backup      "@,
            scope.backup@,
            " (the original, kept in place)\n"@,
        );
        lemma_mentions_through(whole, backup_line_text(source, scope), scope.backup@);
        if f.inventory->Got_0.sparse > 0 {
            let inv = f.inventory->Got_0;
            let shown = inv.sparse_saving.shown@;
            let head = "Sparse      "@ + decimal_of(inv.sparse as nat)
                + " files are stored with holes. The copy fills them, so it will need up to "@;
            lemma_plan_has_peculiar(l, f, a, contained);
            lemma_mentions_piece(head, shown, " more room than the size above.\n"@);
            lemma_mentions_in(shared_line_text(inv), sparse_line_text(inv), seq![], shown);
            lemma_mentions_through(whole, peculiar_text(f), shown);
        }
    }
    if f.report->Got_0.existing_destination is Some {
        lemma_plan_has_aside(l, f, a, contained);
        lemma_mentions_piece(
            "Note        a copy is already at the destination and will be renamed to "@,
            scope.aside@,
            "\n"@,
        );
        lemma_mentions_through(whole, aside_line_text(f.report->Got_0, scope), scope.aside@);
    }
    let unknown = unknown_of(source, scope);
    if 0 <= i < unknown.len() {
        lemma_plan_has_folders(l, f, a, contained);
        lemma_joined_mentions(unknown, ", "@, i);
        let head = "Unknown     "@ + decimal_of(unknown.len())
            + " folders with no installed game: "@;
        lemma_mentions_in(head, joined(unknown, ", "@), "\n"@, unknown[i]);
        lemma_mentions_through(whole, unknown_line_text(unknown), unknown[i]);
    }
}

proof fn lemma_document_has_identity(
    l: Library,
    report: Report,
    backup: Seq<char>,
    copy: u64,
    reserve: u64,
    available: Option<u64>,
    installed: usize,
    prefixes: usize,
    unknown: Seq<Seq<char>>,
    hard_linked: usize,
    fingerprint: Seq<char>,
)
    ensures
        mentions(plan_json_text(
                l,
                report,
                backup,
                copy,
                reserve,
                available,
                installed,
                prefixes,
                unknown,
                hard_linked,
                fingerprint,
            ), "{\n  \"schema\": 1,\n  \"fingerprint\": "@ + json_text(fingerprint)
                + ",\n  \"kind\": \"repair\",\n  \"library_id\": "@ + json_text(l.id@)),
{
    let part = "{\n  \"schema\": 1,\n  \"fingerprint\": "@ + json_text(fingerprint)
        + ",\n  \"kind\": \"repair\",\n  \"library_id\": "@ + json_text(l.id@);
    lemma_mentions_self(part);
    let t3 = part;
    lemma_mentions_in(seq![], t3, ",\n  \"library\": "@, part);
    let t4 = t3 + ",\n  \"library\": "@;
    lemma_mentions_in(seq![], t4, json_text(l.path@), part);
    let t5 = t4 + json_text(l.path@);
    lemma_mentions_in(seq![], t5, ",\n  \"state\": "@, part);
    let t6 = t5 + ",\n  \"state\": "@;
    lemma_mentions_in(seq![], t6, json_text(report.code@), part);
    let t7 = t6 + json_text(report.code@);
    lemma_mentions_in(seq![], t7, ",\n  \"steam\": "@, part);
    let t8 = t7 + ",\n  \"steam\": "@;
    lemma_mentions_in(seq![], t8, json_text(l.steam@), part);
    let t9 = t8 + json_text(l.steam@);
    lemma_mentions_in(seq![], t9, ",\n  \"source\": "@, part);
    let t10 = t9 + ",\n  \"source\": "@;
    lemma_mentions_in(seq![], t10, json_text(l.compatdata@), part);
    let t11 = t10 + json_text(l.compatdata@);
    lemma_mentions_in(seq![], t11, ",\n  \"destination\": "@, part);
    let t12 = t11 + ",\n  \"destination\": "@;
    lemma_mentions_in(seq![], t12, json_text(l.effective_target@), part);
    let t13 = t12 + json_text(l.effective_target@);
    lemma_mentions_in(seq![], t13, ",\n  \"backup\": "@, part);
    let t14 = t13 + ",\n  \"backup\": "@;
    lemma_mentions_in(seq![], t14, json_text(backup), part);
    let t15 = t14 + json_text(backup);
    lemma_mentions_in(seq![], t15, ",\n  \"copy_bytes\": "@, part);
    let t16 = t15 + ",\n  \"copy_bytes\": "@;
    lemma_mentions_in(seq![], t16, decimal_of(copy as nat), part);
    let t17 = t16 + decimal_of(copy as nat);
    lemma_mentions_in(seq![], t17, ",\n  \"reserve_bytes\": "@, part);
    let t18 = t17 + ",\n  \"reserve_bytes\": "@;
    lemma_mentions_in(seq![], t18, decimal_of(reserve as nat), part);
    let t19 = t18 + decimal_of(reserve as nat);
    lemma_mentions_in(seq![], t19, ",\n  \"available_bytes\": "@, part);
    let t20 = t19 + ",\n  \"available_bytes\": "@;
    lemma_mentions_in(seq![], t20, optional_number(available), part);
    let t21 = t20 + optional_number(available);
    lemma_mentions_in(seq![], t21, ",\n  \"expected_remaining_bytes\": "@, part);
    let t22 = t21 + ",\n  \"expected_remaining_bytes\": "@;
    lemma_mentions_in(seq![], t22, optional_number(remaining_of(available, copy)), part);
    let t23 = t22 + optional_number(remaining_of(available, copy));
    lemma_mentions_in(seq![], t23, ",\n  \"installed_games\": "@, part);
    let t24 = t23 + ",\n  \"installed_games\": "@;
    lemma_mentions_in(seq![], t24, decimal_of(installed as nat), part);
    let t25 = t24 + decimal_of(installed as nat);
    lemma_mentions_in(seq![], t25, ",\n  \"prefix_folders\": "@, part);
    let t26 = t25 + ",\n  \"prefix_folders\": "@;
    lemma_mentions_in(seq![], t26, decimal_of(prefixes as nat), part);
    let t27 = t26 + decimal_of(prefixes as nat);
    lemma_mentions_in(seq![], t27, ",\n  \"unknown_folders\": ["@, part);
    let t28 = t27 + ",\n  \"unknown_folders\": ["@;
    lemma_mentions_in(seq![], t28, list_text(unknown), part);
    let t29 = t28 + list_text(unknown);
    lemma_mentions_in(seq![], t29, "],\n  \"consequences\": ["@, part);
    let t30 = t29 + "],\n  \"consequences\": ["@;
    lemma_mentions_in(seq![], t30, list_text(consequences_of(l.flatpak, hard_linked)), part);
    let t31 = t30 + list_text(consequences_of(l.flatpak, hard_linked));
    lemma_mentions_in(seq![], t31, "]\n}\n"@, part);
}

proof fn lemma_document_has_paths(
    l: Library,
    report: Report,
    backup: Seq<char>,
    copy: u64,
    reserve: u64,
    available: Option<u64>,
    installed: usize,
    prefixes: usize,
    unknown: Seq<Seq<char>>,
    hard_linked: usize,
    fingerprint: Seq<char>,
)
    ensures
        mentions(plan_json_text(
                l,
                report,
                backup,
                copy,
                reserve,
                available,
                installed,
                prefixes,
                unknown,
                hard_linked,
                fingerprint,
            ), ",\n  \"source\": "@ + json_text(l.compatdata@) + ",\n  \"destination\": "@
                + json_text(l.effective_target@) + ",\n  \"backup\": "@ + json_text(backup)),
{
    let head = "{\n  \"schema\": 1,\n  \"fingerprint\": "@ + json_text(fingerprint)
        + ",\n  \"kind\": \"repair\",\n  \"library_id\": "@ + json_text(l.id@)
        + ",\n  \"library\": "@ + json_text(l.path@) + ",\n  \"state\": "@
        + json_text(report.code@) + ",\n  \"steam\": "@ + json_text(l.steam@);
    let part = ",\n  \"source\": "@ + json_text(l.compatdata@) + ",\n  \"destination\": "@
        + json_text(l.effective_target@) + ",\n  \"backup\": "@ + json_text(backup);
    let t15 = head + ",\n  \"source\": "@ + json_text(l.compatdata@) + ",\n  \"destination\": "@
        + json_text(l.effective_target@) + ",\n  \"backup\": "@ + json_text(backup);
    assert(t15 =~= head + part);
    lemma_mentions_piece(head, part, seq![]);
    lemma_mentions_in(seq![], t15, ",\n  \"copy_bytes\": "@, part);
    let t16 = t15 + ",\n  \"copy_bytes\": "@;
    lemma_mentions_in(seq![], t16, decimal_of(copy as nat), part);
    let t17 = t16 + decimal_of(copy as nat);
    lemma_mentions_in(seq![], t17, ",\n  \"reserve_bytes\": "@, part);
    let t18 = t17 + ",\n  \"reserve_bytes\": "@;
    lemma_mentions_in(seq![], t18, decimal_of(reserve as nat), part);
    let t19 = t18 + decimal_of(reserve as nat);
    lemma_mentions_in(seq![], t19, ",\n  \"available_bytes\": "@, part);
    let t20 = t19 + ",\n  \"available_bytes\": "@;
    lemma_mentions_in(seq![], t20, optional_number(available), part);
    let t21 = t20 + optional_number(available);
    lemma_mentions_in(seq![], t21, ",\n  \"expected_remaining_bytes\": "@, part);
    let t22 = t21 + ",\n  \"expected_remaining_bytes\": "@;
    lemma_mentions_in(seq![], t22, optional_number(remaining_of(available, copy)), part);
    let t23 = t22 + optional_number(remaining_of(available, copy));
    lemma_mentions_in(seq![], t23, ",\n  \"installed_games\": "@, part);
    let t24 = t23 + ",\n  \"installed_games\": "@;
    lemma_mentions_in(seq![], t24, decimal_of(installed as nat), part);
    let t25 = t24 + decimal_of(installed as nat);
    lemma_mentions_in(seq![], t25, ",\n  \"prefix_folders\": "@, part);
    let t26 = t25 + ",\n  \"prefix_folders\": "@;
    lemma_mentions_in(seq![], t26, decimal_of(prefixes as nat), part);
    let t27 = t26 + decimal_of(prefixes as nat);
    lemma_mentions_in(seq![], t27, ",\n  \"unknown_folders\": ["@, part);
    let t28 = t27 + ",\n  \"unknown_folders\": ["@;
    lemma_mentions_in(seq![], t28, list_text(unknown), part);
    let t29 = t28 + list_text(unknown);
    lemma_mentions_in(seq![], t29, "],\n  \"consequences\": ["@, part);
    let t30 = t29 + "],\n  \"consequences\": ["@;
    lemma_mentions_in(seq![], t30, list_text(consequences_of(l.flatpak, hard_linked)), part);
    let t31 = t30 + list_text(consequences_of(l.flatpak, hard_linked));
    lemma_mentions_in(seq![], t31, "]\n}\n"@, part);
}

proof fn lemma_document_has_amounts(
    l: Library,
    report: Report,
    backup: Seq<char>,
    copy: u64,
    reserve: u64,
    available: Option<u64>,
    installed: usize,
    prefixes: usize,
    unknown: Seq<Seq<char>>,
    hard_linked: usize,
    fingerprint: Seq<char>,
)
    ensures
        mentions(plan_json_text(
                l,
                report,
                backup,
                copy,
                reserve,
                available,
                installed,
                prefixes,
                unknown,
                hard_linked,
                fingerprint,
            ), ",\n  \"copy_bytes\": "@ + decimal_of(copy as nat) + ",\n  \"reserve_bytes\": "@
                + decimal_of(reserve as nat)),
{
    let head = "{\n  \"schema\": 1,\n  \"fingerprint\": "@ + json_text(fingerprint)
        + ",\n  \"kind\": \"repair\",\n  \"library_id\": "@ + json_text(l.id@)
        + ",\n  \"library\": "@ + json_text(l.path@) + ",\n  \"state\": "@
        + json_text(report.code@) + ",\n  \"steam\": "@ + json_text(l.steam@)
        + ",\n  \"source\": "@ + json_text(l.compatdata@) + ",\n  \"destination\": "@
        + json_text(l.effective_target@) + ",\n  \"backup\": "@ + json_text(backup);
    let part = ",\n  \"copy_bytes\": "@ + decimal_of(copy as nat) + ",\n  \"reserve_bytes\": "@
        + decimal_of(reserve as nat);
    let t19 = head + ",\n  \"copy_bytes\": "@ + decimal_of(copy as nat)
        + ",\n  \"reserve_bytes\": "@ + decimal_of(reserve as nat);
    assert(t19 =~= head + part);
    lemma_mentions_piece(head, part, seq![]);
    lemma_mentions_in(seq![], t19, ",\n  \"available_bytes\": "@, part);
    let t20 = t19 + ",\n  \"available_bytes\": "@;
    lemma_mentions_in(seq![], t20, optional_number(available), part);
    let t21 = t20 + optional_number(available);
    lemma_mentions_in(seq![], t21, ",\n  \"expected_remaining_bytes\": "@, part);
    let t22 = t21 + ",\n  \"expected_remaining_bytes\": "@;
    lemma_mentions_in(seq![], t22, optional_number(remaining_of(available, copy)), part);
    let t23 = t22 + optional_number(remaining_of(available, copy));
    lemma_mentions_in(seq![], t23, ",\n  \"installed_games\": "@, part);
    let t24 = t23 + ",\n  \"installed_games\": "@;
    lemma_mentions_in(seq![], t24, decimal_of(installed as nat), part);
    let t25 = t24 + decimal_of(installed as nat);
    lemma_mentions_in(seq![], t25, ",\n  \"prefix_folders\": "@, part);
    let t26 = t25 + ",\n  \"prefix_folders\": "@;
    lemma_mentions_in(seq![], t26, decimal_of(prefixes as nat), part);
    let t27 = t26 + decimal_of(prefixes as nat);
    lemma_mentions_in(seq![], t27, ",\n  \"unknown_folders\": ["@, part);
    let t28 = t27 + ",\n  \"unknown_folders\": ["@;
    lemma_mentions_in(seq![], t28, list_text(unknown), part);
    let t29 = t28 + list_text(unknown);
    lemma_mentions_in(seq![], t29, "],\n  \"consequences\": ["@, part);
    let t30 = t29 + "],\n  \"consequences\": ["@;
    lemma_mentions_in(seq![], t30, list_text(consequences_of(l.flatpak, hard_linked)), part);
    let t31 = t30 + list_text(consequences_of(l.flatpak, hard_linked));
    lemma_mentions_in(seq![], t31, "]\n}\n"@, part);
}

proof fn lemma_document_has_room(
    l: Library,
    report: Report,
    backup: Seq<char>,
    copy: u64,
    reserve: u64,
    available: Option<u64>,
    installed: usize,
    prefixes: usize,
    unknown: Seq<Seq<char>>,
    hard_linked: usize,
    fingerprint: Seq<char>,
)
    ensures
        mentions(plan_json_text(
                l,
                report,
                backup,
                copy,
                reserve,
                available,
                installed,
                prefixes,
                unknown,
                hard_linked,
                fingerprint,
            ), ",\n  \"available_bytes\": "@ + optional_number(available)
                + ",\n  \"expected_remaining_bytes\": "@
                + optional_number(remaining_of(available, copy))),
{
    let head = "{\n  \"schema\": 1,\n  \"fingerprint\": "@ + json_text(fingerprint)
        + ",\n  \"kind\": \"repair\",\n  \"library_id\": "@ + json_text(l.id@)
        + ",\n  \"library\": "@ + json_text(l.path@) + ",\n  \"state\": "@
        + json_text(report.code@) + ",\n  \"steam\": "@ + json_text(l.steam@)
        + ",\n  \"source\": "@ + json_text(l.compatdata@) + ",\n  \"destination\": "@
        + json_text(l.effective_target@) + ",\n  \"backup\": "@ + json_text(backup)
        + ",\n  \"copy_bytes\": "@ + decimal_of(copy as nat) + ",\n  \"reserve_bytes\": "@
        + decimal_of(reserve as nat);
    let part = ",\n  \"available_bytes\": "@ + optional_number(available)
        + ",\n  \"expected_remaining_bytes\": "@ + optional_number(remaining_of(available, copy));
    let t23 = head + ",\n  \"available_bytes\": "@ + optional_number(available)
        + ",\n  \"expected_remaining_bytes\": "@ + optional_number(remaining_of(available, copy));
    assert(t23 =~= head + part);
    lemma_mentions_piece(head, part, seq![]);
    lemma_mentions_in(seq![], t23, ",\n  \"installed_games\": "@, part);
    let t24 = t23 + ",\n  \"installed_games\": "@;
    lemma_mentions_in(seq![], t24, decimal_of(installed as nat), part);
    let t25 = t24 + decimal_of(installed as nat);
    lemma_mentions_in(seq![], t25, ",\n  \"prefix_folders\": "@, part);
    let t26 = t25 + ",\n  \"prefix_folders\": "@;
    lemma_mentions_in(seq![], t26, decimal_of(prefixes as nat), part);
    let t27 = t26 + decimal_of(prefixes as nat);
    lemma_mentions_in(seq![], t27, ",\n  \"unknown_folders\": ["@, part);
    let t28 = t27 + ",\n  \"unknown_folders\": ["@;
    lemma_mentions_in(seq![], t28, list_text(unknown), part);
    let t29 = t28 + list_text(unknown);
    lemma_mentions_in(seq![], t29, "],\n  \"consequences\": ["@, part);
    let t30 = t29 + "],\n  \"consequences\": ["@;
    lemma_mentions_in(seq![], t30, list_text(consequences_of(l.flatpak, hard_linked)), part);
    let t31 = t30 + list_text(consequences_of(l.flatpak, hard_linked));
    lemma_mentions_in(seq![], t31, "]\n}\n"@, part);
}

proof fn lemma_document_has_games(
    l: Library,
    report: Report,
    backup: Seq<char>,
    copy: u64,
    reserve: u64,
    available: Option<u64>,
    installed: usize,
    prefixes: usize,
    unknown: Seq<Seq<char>>,
    hard_linked: usize,
    fingerprint: Seq<char>,
)
    ensures
        mentions(plan_json_text(
                l,
                report,
                backup,
                copy,
                reserve,
                available,
                installed,
                prefixes,
                unknown,
                hard_linked,
                fingerprint,
            ), ",\n  \"installed_games\": "@ + decimal_of(installed as nat)
                + ",\n  \"prefix_folders\": "@ + decimal_of(prefixes as nat)
                + ",\n  \"unknown_folders\": ["@ + list_text(unknown)),
{
    let head = "{\n  \"schema\": 1,\n  \"fingerprint\": "@ + json_text(fingerprint)
        + ",\n  \"kind\": \"repair\",\n  \"library_id\": "@ + json_text(l.id@)
        + ",\n  \"library\": "@ + json_text(l.path@) + ",\n  \"state\": "@
        + json_text(report.code@) + ",\n  \"steam\": "@ + json_text(l.steam@)
        + ",\n  \"source\": "@ + json_text(l.compatdata@) + ",\n  \"destination\": "@
        + json_text(l.effective_target@) + ",\n  \"backup\": "@ + json_text(backup)
        + ",\n  \"copy_bytes\": "@ + decimal_of(copy as nat) + ",\n  \"reserve_bytes\": "@
        + decimal_of(reserve as nat) + ",\n  \"available_bytes\": "@ + optional_number(available)
        + ",\n  \"expected_remaining_bytes\": "@ + optional_number(remaining_of(available, copy));
    let part = ",\n  \"installed_games\": "@ + decimal_of(installed as nat)
        + ",\n  \"prefix_folders\": "@ + decimal_of(prefixes as nat)
        + ",\n  \"unknown_folders\": ["@ + list_text(unknown);
    let t29 = head + ",\n  \"installed_games\": "@ + decimal_of(installed as nat)
        + ",\n  \"prefix_folders\": "@ + decimal_of(prefixes as nat)
        + ",\n  \"unknown_folders\": ["@ + list_text(unknown);
    assert(t29 =~= head + part);
    lemma_mentions_piece(head, part, seq![]);
    lemma_mentions_in(seq![], t29, "],\n  \"consequences\": ["@, part);
    let t30 = t29 + "],\n  \"consequences\": ["@;
    lemma_mentions_in(seq![], t30, list_text(consequences_of(l.flatpak, hard_linked)), part);
    let t31 = t30 + list_text(consequences_of(l.flatpak, hard_linked));
    lemma_mentions_in(seq![], t31, "]\n}\n"@, part);
}

proof fn lemma_document_has_consequences(
    l: Library,
    report: Report,
    backup: Seq<char>,
    copy: u64,
    reserve: u64,
    available: Option<u64>,
    installed: usize,
    prefixes: usize,
    unknown: Seq<Seq<char>>,
    hard_linked: usize,
    fingerprint: Seq<char>,
)
    ensures
        mentions(plan_json_text(
                l,
                report,
                backup,
                copy,
                reserve,
                available,
                installed,
                prefixes,
                unknown,
                hard_linked,
                fingerprint,
            ), "],\n  \"consequences\": ["@ + list_text(consequences_of(l.flatpak, hard_linked))
                + "]\n}\n"@),
{
    let head = "{\n  \"schema\": 1,\n  \"fingerprint\": "@ + json_text(fingerprint)
        + ",\n  \"kind\": \"repair\",\n  \"library_id\": "@ + json_text(l.id@)
        + ",\n  \"library\": "@ + json_text(l.path@) + ",\n  \"state\": "@
        + json_text(report.code@) + ",\n  \"steam\": "@ + json_text(l.steam@)
        + ",\n  \"source\": "@ + json_text(l.compatdata@) + ",\n  \"destination\": "@
        + json_text(l.effective_target@) + ",\n  \"backup\": "@ + json_text(backup)
        + ",\n  \"copy_bytes\": "@ + decimal_of(copy as nat) + ",\n  \"reserve_bytes\": "@
        + decimal_of(reserve as nat) + ",\n  \"available_bytes\": "@ + optional_number(available)
        + ",\n  \"expected_remaining_bytes\": "@ + optional_number(remaining_of(available, copy))
        + ",\n  \"installed_games\": "@ + decimal_of(installed as nat)
        + ",\n  \"prefix_folders\": "@ + decimal_of(prefixes as nat)
        + ",\n  \"unknown_folders\": ["@ + list_text(unknown);
    let part = "],\n  \"consequences\": ["@ + list_text(consequences_of(l.flatpak, hard_linked))
        + "]\n}\n"@;
    let t32 = head + "],\n  \"consequences\": ["@
        + list_text(consequences_of(l.flatpak, hard_linked)) + "]\n}\n"@;
    assert(t32 =~= head + part);
    lemma_mentions_piece(head, part, seq![]);
}

/// The plan as a document says the same: by what it is known and for which
/// library it is, from where to where and what is kept, what is copied, kept free
/// and left, which games and folders there are, and what it entails.
pub proof fn lemma_plan_document_says_what_will_happen(
    l: Library,
    report: Report,
    backup: Seq<char>,
    copy: u64,
    reserve: u64,
    available: Option<u64>,
    installed: usize,
    prefixes: usize,
    unknown: Seq<Seq<char>>,
    hard_linked: usize,
    fingerprint: Seq<char>,
)
    ensures
        ({
            let whole = plan_json_text(
                l,
                report,
                backup,
                copy,
                reserve,
                available,
                installed,
                prefixes,
                unknown,
                hard_linked,
                fingerprint,
            );
            &&& mentions(whole, "{\n  \"schema\": 1,\n  \"fingerprint\": "@
                + json_text(fingerprint) + ",\n  \"kind\": \"repair\",\n  \"library_id\": "@
                + json_text(l.id@))
            &&& mentions(whole, ",\n  \"source\": "@ + json_text(l.compatdata@)
                + ",\n  \"destination\": "@ + json_text(l.effective_target@)
                + ",\n  \"backup\": "@ + json_text(backup))
            &&& mentions(whole, ",\n  \"copy_bytes\": "@ + decimal_of(copy as nat)
                + ",\n  \"reserve_bytes\": "@ + decimal_of(reserve as nat))
            &&& mentions(whole, ",\n  \"available_bytes\": "@ + optional_number(available)
                + ",\n  \"expected_remaining_bytes\": "@
                + optional_number(remaining_of(available, copy)))
            &&& mentions(whole, ",\n  \"installed_games\": "@ + decimal_of(installed as nat)
                + ",\n  \"prefix_folders\": "@ + decimal_of(prefixes as nat)
                + ",\n  \"unknown_folders\": ["@ + list_text(unknown))
            &&& mentions(whole, "],\n  \"consequences\": ["@
                + list_text(consequences_of(l.flatpak, hard_linked)) + "]\n}\n"@)
        }),
{
    lemma_document_has_identity(l, report, backup, copy, reserve, available, installed, prefixes,
        unknown, hard_linked, fingerprint);
    lemma_document_has_paths(l, report, backup, copy, reserve, available, installed, prefixes,
        unknown, hard_linked, fingerprint);
    lemma_document_has_amounts(l, report, backup, copy, reserve, available, installed, prefixes,
        unknown, hard_linked, fingerprint);
    lemma_document_has_room(l, report, backup, copy, reserve, available, installed, prefixes,
        unknown, hard_linked, fingerprint);
    lemma_document_has_games(l, report, backup, copy, reserve, available, installed, prefixes,
        unknown, hard_linked, fingerprint);
    lemma_document_has_consequences(l, report, backup, copy, reserve, available, installed,
        prefixes, unknown, hard_linked, fingerprint);
}

/// The document of a plan tells what is copied, what is free and that two
/// gibibytes are kept.
pub proof fn lemma_plan_ending_tells_amounts(o: Options, l: Library, f: Facts)
    ensures
        mentions(
            closing_text(o, l, f, Ending::Plan),
            ",\n  \"copy_bytes\": "@ + decimal_of(copy_bytes(f) as nat)
                + ",\n  \"reserve_bytes\": "@ + decimal_of(2147483648),
        ),
        f.free->Got_0 matches Some(free) ==> mentions(
            closing_text(o, l, f, Ending::Plan),
            ",\n  \"available_bytes\": "@ + decimal_of(free.bytes as nat),
        ),
{
    let source = has_source(f.report->Got_0);
    let available = match f.free->Got_0 {
        Some(free) => Some(free.bytes),
        None => None,
    };
    let hard_linked = if source {
        f.inventory->Got_0.hard_linked
    } else {
        0
    };
    lemma_document_has_amounts(
        l,
        f.report->Got_0,
        f.scope->Got_0.backup@,
        copy_bytes(f),
        GROWTH_RESERVE,
        available,
        f.scope->Got_0.installed@.len() as usize,
        seen_folders(source, f.scope->Got_0).len() as usize,
        unknown_of(source, f.scope->Got_0),
        hard_linked,
        f.fingerprint->Got_0@,
    );
    lemma_document_has_room(
        l,
        f.report->Got_0,
        f.scope->Got_0.backup@,
        copy_bytes(f),
        GROWTH_RESERVE,
        available,
        f.scope->Got_0.installed@.len() as usize,
        seen_folders(source, f.scope->Got_0).len() as usize,
        unknown_of(source, f.scope->Got_0),
        hard_linked,
        f.fingerprint->Got_0@,
    );
    if f.free->Got_0 is Some {
        let part = ",\n  \"available_bytes\": "@ + optional_number(available);
        let rest = ",\n  \"expected_remaining_bytes\": "@;
        let left = optional_number(remaining_of(available, copy_bytes(f)));
        lemma_mentions_self(part);
        lemma_mentions_in(seq![], part, rest, part);
        lemma_mentions_in(seq![], part + rest, left, part);
        lemma_mentions_through(closing_text(o, l, f, Ending::Plan), part + rest + left, part);
    }
}

/// A repair that was made says where the data lives now and where Steam sees it,
/// and a document says what was kept.
pub proof fn lemma_done_says_where_the_data_is(o: Options, l: Library, source: bool,
    kept: Seq<char>)
    ensures
        mentions(
            done_text(o, l, source, kept),
            "\nDone.\n  Proton data now lives at   "@ + l.effective_target@
                + "\n  Steam still sees it at     "@ + l.compatdata@ + "\n"@,
        ),
        source ==> mentions(done_text(o, l, source, kept), "`librarybridge backup "@ + l.id@
            + "`"@),
{
    let event = emit_with_two_text(
        o.json,
        "applied"@,
        "destination"@,
        json_text(l.effective_target@),
        "backup"@,
        json_text(kept),
    );
    let part = "\nDone.\n  Proton data now lives at   "@ + l.effective_target@
        + "\n  Steam still sees it at     "@ + l.compatdata@ + "\n"@;
    let note = kept_note_text(l, source);
    let before = event + "\nDone.\n  Proton data now lives at   "@ + l.effective_target@
        + "\n  Steam still sees it at     "@ + l.compatdata@ + "\n"@;
    assert(before =~= event + part);
    lemma_mentions_piece(event, part, seq![]);
    lemma_mentions_in(seq![], before, note, part);
    if source {
        let told = "`librarybridge backup "@ + l.id@ + "`"@;
        lemma_kept_note(l);
        lemma_mentions_in(before, note, seq![], told);
    }
}

proof fn lemma_kept_note(l: Library)
    ensures
        mentions(kept_note_text(l, true), "`librarybridge backup "@ + l.id@ + "`"@),
{
    reveal_strlit(
        "\nThe original is still on the game drive. Do not delete it by hand. Once a game\n\
            has launched and loaded a save, `librarybridge backup ",
    );
    reveal_strlit("`librarybridge backup ");
    reveal_strlit("`");
    reveal_strlit("` can remove it to\nreclaim the space.\n");
    let first =
        "\nThe original is still on the game drive. Do not delete it by hand. Once a game\n\
            has launched and loaded a save, `librarybridge backup "@;
    let last = "` can remove it to\nreclaim the space.\n"@;
    let call = "`librarybridge backup "@;
    let n = first.len() - call.len();
    assert(first =~= first.take(n) + call);
    assert(last =~= "`"@ + last.skip(1));
    let told = call + l.id@ + "`"@;
    assert(kept_note_text(l, true) =~= first.take(n) + told + last.skip(1));
    lemma_mentions_piece(first.take(n), told, last.skip(1));
}

proof fn lemma_wrong_state_has_path(l: Library, report: Report)
    ensures
        mentions(wrong_state_text(l, report), l.path@),
{
    let part = l.path@;
    lemma_mentions_self(part);
    let t0 = part;
    lemma_mentions_in(seq![], t0, ": cannot repair while the library is in the state '"@, part);
    let t1 = t0 + ": cannot repair while the library is in the state '"@;
    lemma_mentions_in(seq![], t1, report.headline@, part);
    let t2 = t1 + report.headline@;
    lemma_mentions_in(seq![], t2, "'. Run `librarybridge scan` for details."@, part);
}

proof fn lemma_wrong_state_has_headline(l: Library, report: Report)
    ensures
        mentions(wrong_state_text(l, report), report.headline@),
{
    let head = l.path@ + ": cannot repair while the library is in the state '"@;
    let part = report.headline@;
    lemma_mentions_piece(head, part, seq![]);
    let t2 = head + part;
    lemma_mentions_in(seq![], t2, "'. Run `librarybridge scan` for details."@, part);
}

proof fn lemma_no_symlinks_has_path(l: Library, mount: Mount)
    ensures
        mentions(no_symlinks_text(l, mount), l.path@),
{
    let part = l.path@;
    lemma_mentions_self(part);
    let t0 = part;
    lemma_mentions_in(seq![], t0, " is on "@, part);
    let t1 = t0 + " is on "@;
    lemma_mentions_in(seq![], t1, mount.fs_type@, part);
    let t2 = t1 + mount.fs_type@;
    lemma_mentions_in(seq![], t2, ", which has no symlink support. This repair cannot work there. Use Steam to move the \
            library to a Linux filesystem instead."@, part);
}

proof fn lemma_no_symlinks_has_kind(l: Library, mount: Mount)
    ensures
        mentions(no_symlinks_text(l, mount), mount.fs_type@),
{
    let head = l.path@ + " is on "@;
    let part = mount.fs_type@;
    lemma_mentions_piece(head, part, seq![]);
    let t2 = head + part;
    lemma_mentions_in(seq![], t2, ", which has no symlink support. This repair cannot work there. Use Steam to move the \
            library to a Linux filesystem instead."@, part);
}

proof fn lemma_native_has_path(l: Library, mount: Mount)
    ensures
        mentions(already_native_text(l, mount), l.path@),
{
    let part = l.path@;
    lemma_mentions_self(part);
    let t0 = part;
    lemma_mentions_in(seq![], t0, " is already on "@, part);
    let t1 = t0 + " is already on "@;
    lemma_mentions_in(seq![], t1, mount.fs_type@, part);
    let t2 = t1 + mount.fs_type@;
    lemma_mentions_in(seq![], t2,
        ", a Linux filesystem. There is nothing to repair. Pass --force to do it anyway."@, part);
}

proof fn lemma_native_has_kind(l: Library, mount: Mount)
    ensures
        mentions(already_native_text(l, mount), mount.fs_type@),
{
    let head = l.path@ + " is already on "@;
    let part = mount.fs_type@;
    lemma_mentions_piece(head, part, seq![]);
    let t2 = head + part;
    lemma_mentions_in(seq![], t2,
        ", a Linux filesystem. There is nothing to repair. Pass --force to do it anyway."@, part);
}

proof fn lemma_unfit_has_target(l: Library, mount: Mount)
    ensures
        mentions(unfit_destination_text(l, mount), l.effective_target@),
{
    let head = "the destination "@;
    let part = l.effective_target@;
    lemma_mentions_piece(head, part, seq![]);
    let t1 = head + part;
    lemma_mentions_in(seq![], t1, " is on "@, part);
    let t2 = t1 + " is on "@;
    lemma_mentions_in(seq![], t2, mount.fs_type@, part);
    let t3 = t2 + mount.fs_type@;
    lemma_mentions_in(seq![], t3,
        ", where Proton data cannot live. Choose a Linux filesystem with --data-dir."@, part);
}

proof fn lemma_unfit_has_kind(l: Library, mount: Mount)
    ensures
        mentions(unfit_destination_text(l, mount), mount.fs_type@),
{
    let head = "the destination "@ + l.effective_target@ + " is on "@;
    let part = mount.fs_type@;
    lemma_mentions_piece(head, part, seq![]);
    let t3 = head + part;
    lemma_mentions_in(seq![], t3,
        ", where Proton data cannot live. Choose a Linux filesystem with --data-dir."@, part);
}

proof fn lemma_room_has_amount(l: Library, copied: Seq<char>, a: Amounts, free: Size)
    ensures
        mentions(no_room_text(l, copied, a, free), copied),
{
    let head = "not enough room at "@ + target_parent(l) + ". The copy needs "@;
    let part = copied;
    lemma_mentions_piece(head, part, seq![]);
    let t3 = head + part;
    lemma_mentions_in(seq![], t3, " plus "@, part);
    let t4 = t3 + " plus "@;
    lemma_mentions_in(seq![], t4, a.reserve@, part);
    let t5 = t4 + a.reserve@;
    lemma_mentions_in(seq![], t5, " spare, and only "@, part);
    let t6 = t5 + " spare, and only "@;
    lemma_mentions_in(seq![], t6, free.shown@, part);
    let t7 = t6 + free.shown@;
    lemma_mentions_in(seq![], t7, " is free."@, part);
}

proof fn lemma_room_has_reserve(l: Library, copied: Seq<char>, a: Amounts, free: Size)
    ensures
        mentions(no_room_text(l, copied, a, free), a.reserve@),
{
    let head = "not enough room at "@ + target_parent(l) + ". The copy needs "@ + copied
        + " plus "@;
    let part = a.reserve@;
    lemma_mentions_piece(head, part, seq![]);
    let t5 = head + part;
    lemma_mentions_in(seq![], t5, " spare, and only "@, part);
    let t6 = t5 + " spare, and only "@;
    lemma_mentions_in(seq![], t6, free.shown@, part);
    let t7 = t6 + free.shown@;
    lemma_mentions_in(seq![], t7, " is free."@, part);
}

proof fn lemma_room_has_free(l: Library, copied: Seq<char>, a: Amounts, free: Size)
    ensures
        mentions(no_room_text(l, copied, a, free), free.shown@),
{
    let head = "not enough room at "@ + target_parent(l) + ". The copy needs "@ + copied
        + " plus "@ + a.reserve@ + " spare, and only "@;
    let part = free.shown@;
    lemma_mentions_piece(head, part, seq![]);
    let t7 = head + part;
    lemma_mentions_in(seq![], t7, " is free."@, part);
}

proof fn lemma_changed_has_quoted(expect: Seq<char>, fingerprint: Seq<char>)
    ensures
        mentions(plan_changed_text(expect, fingerprint), expect),
{
    let head = "this library has changed since the plan was reviewed. It was "@;
    let part = expect;
    lemma_mentions_piece(head, part, seq![]);
    let t1 = head + part;
    lemma_mentions_in(seq![], t1, " and is now "@, part);
    let t2 = t1 + " and is now "@;
    lemma_mentions_in(seq![], t2, fingerprint, part);
    let t3 = t2 + fingerprint;
    lemma_mentions_in(seq![], t3, ". Nothing was done. Review it again."@, part);
}

proof fn lemma_changed_has_current(expect: Seq<char>, fingerprint: Seq<char>)
    ensures
        mentions(plan_changed_text(expect, fingerprint), fingerprint),
{
    let head = "this library has changed since the plan was reviewed. It was "@ + expect
        + " and is now "@;
    let part = fingerprint;
    lemma_mentions_piece(head, part, seq![]);
    let t3 = head + part;
    lemma_mentions_in(seq![], t3, ". Nothing was done. Review it again."@, part);
}

/// A refusal names what it is about: the state, the filesystem, the room that is
/// asked for and there, the plan that was quoted and the one there is, the links
/// that lead out, and what differs.
pub proof fn lemma_refusal_says_why(
    o: Options,
    l: Library,
    f: Facts,
    a: Amounts,
    r: Refusal,
    i: int,
)
    ensures
        ({
            let said = refusal_text(o, l, f, a, r);
            &&& r is State ==> mentions(said, l.path@) && mentions(said, f.report->Got_0.headline@)
            &&& r is NoSymlinks || r is Native ==> mentions(said, l.path@) && mentions(
                said,
                f.mount->Got_0->Some_0.fs_type@,
            )
            &&& r is Unidentified ==> mentions(said, l.path@)
            &&& r is SameFilesystem || r is SameDirectory ==> mentions(said, l.effective_target@)
            &&& r is Destination ==> mentions(said, l.effective_target@) && mentions(
                said,
                f.target_mount->Got_0->Some_0.fs_type@,
            )
            &&& r is NoRoom ==> mentions(said, copy_shown(f, a)) && mentions(said, a.reserve@)
                && mentions(said, f.free->Got_0->Some_0.shown@)
            &&& r is Changed ==> mentions(said, o.expect->Some_0@) && mentions(
                said,
                f.fingerprint->Got_0@,
            )
            &&& r is ChangedAgain ==> mentions(said, o.expect->Some_0@) && mentions(
                said,
                f.fingerprint_again->Got_0@,
            )
            &&& r is CopyDiffers && 0 <= i < 10 && i < f.problems->Got_0@.len() ==> mentions(
                said,
                f.problems->Got_0@[i]@,
            )
            &&& r is SourceChanged && 0 <= i < 10 && i < f.changed->Got_0@.len() ==> mentions(
                said,
                f.changed->Got_0@[i]@,
            )
            &&& r is Escaping && 0 <= i < 10 && i < f.inventory->Got_0.escaping@.len() ==> mentions(
                said,
                f.inventory->Got_0.escaping@[i].from@ + " -> "@
                    + f.inventory->Got_0.escaping@[i].to@,
            )
        }),
{
    match r {
        Refusal::State => {
            lemma_wrong_state_has_path(l, f.report->Got_0);
            lemma_wrong_state_has_headline(l, f.report->Got_0);
        },
        Refusal::NoSymlinks => {
            lemma_no_symlinks_has_path(l, f.mount->Got_0->Some_0);
            lemma_no_symlinks_has_kind(l, f.mount->Got_0->Some_0);
        },
        Refusal::Native => {
            lemma_native_has_path(l, f.mount->Got_0->Some_0);
            lemma_native_has_kind(l, f.mount->Got_0->Some_0);
        },
        Refusal::Unidentified => {
            lemma_mentions_piece(
                "the filesystem under "@,
                l.path@,
                " could not be identified, so there is no way to tell whether this repair applies \
                    or would even work. This is expected off Linux, where there is no mount table \
                    to read. Pass --force to proceed anyway."@,
            );
        },
        Refusal::SameFilesystem => {
            lemma_mentions_piece(
                "the destination "@,
                l.effective_target@,
                " is on the same filesystem as the library. Moving the data there would not fix \
                    anything."@,
            );
        },
        Refusal::SameDirectory => {
            lemma_mentions_piece(
                "the destination "@,
                l.effective_target@,
                " is the same directory as the library itself. Moving the data there would not fix \
                    anything."@,
            );
        },
        Refusal::Destination => {
            lemma_unfit_has_target(l, f.target_mount->Got_0->Some_0);
            lemma_unfit_has_kind(l, f.target_mount->Got_0->Some_0);
        },
        Refusal::NoRoom => {
            lemma_room_has_amount(l, copy_shown(f, a), a, f.free->Got_0->Some_0);
            lemma_room_has_reserve(l, copy_shown(f, a), a, f.free->Got_0->Some_0);
            lemma_room_has_free(l, copy_shown(f, a), a, f.free->Got_0->Some_0);
        },
        Refusal::Changed => {
            lemma_changed_has_quoted(o.expect->Some_0@, f.fingerprint->Got_0@);
            lemma_changed_has_current(o.expect->Some_0@, f.fingerprint->Got_0@);
        },
        Refusal::ChangedAgain => {
            lemma_changed_has_quoted(o.expect->Some_0@, f.fingerprint_again->Got_0@);
            lemma_changed_has_current(o.expect->Some_0@, f.fingerprint_again->Got_0@);
        },
        Refusal::CopyDiffers => {
            let all = views(f.problems->Got_0@);
            if 0 <= i < 10 && i < all.len() {
                assert(all[i] == f.problems->Got_0@[i]@);
                lemma_ten_are_named(
                    "the copy does not match the source, so nothing on the game drive was \
                        touched.\n  "@,
                    all,
                    "\n  "@,
                    seq![],
                    i,
                );
            }
        },
        Refusal::SourceChanged => {
            let all = views(f.changed->Got_0@);
            if 0 <= i < 10 && i < all.len() {
                assert(all[i] == f.changed->Got_0@[i]@);
                lemma_ten_are_named(
                    "the source changed while it was being copied, so nothing on the game drive was \
                        touched. Make sure Steam is closed and try again.\n  "@,
                    all,
                    "\n  "@,
                    seq![],
                    i,
                );
            }
        },
        Refusal::Escaping => {
            let all = f.inventory->Got_0.escaping@;
            if 0 <= i < 10 && i < all.len() {
                let lines = escape_lines_of(all);
                let part = all[i].from@ + " -> "@ + all[i].to@;
                assert(lines[i] =~= "  "@ + part);
                lemma_mentions_piece("  "@, part, seq![]);
                lemma_ten_are_named(
                    "this prefix contains relative links that point outside it, and moving the tree \
                        would change where they lead:\n"@,
                    lines,
                    "\n"@,
                    "\n\nCopying them unchanged would leave them pointing at the wrong place, and \
                        rewriting them is a separate decision this tool does not make on its own. \
                        Nothing was changed."@,
                    i,
                );
                lemma_mentions_through(links_escape_text(lines), lines[i], part);
            }
        },
        _ => {},
    }
}

/// Of what is listed, the first ten are named.
pub proof fn lemma_ten_are_named(
    head: Seq<char>,
    parts: Seq<Seq<char>>,
    sep: Seq<char>,
    tail: Seq<char>,
    i: int,
)
    requires
        0 <= i < 10,
        i < parts.len(),
    ensures
        mentions(head + joined(first_ten(parts), sep), parts[i]),
        mentions(head + joined(first_ten(parts), sep) + tail, parts[i]),
{
    lemma_first_ten(parts);
    assert(first_ten(parts)[i] == parts[i]);
    lemma_joined_mentions(first_ten(parts), sep, i);
    lemma_mentions_in(head, joined(first_ten(parts), sep), tail, parts[i]);
}

/// Where two sets of data exist, both are told with how much they are, and what
/// to do about it is told by the library's id.
pub proof fn lemma_conflict_tells_both(l: Library, destination: Seq<char>, both: Both)
    ensures
        mentions(
            conflict_message_text(l, destination, both),
            destination + " ("@ + decimal_of(both.there.files as nat) + " files, "@
                + both.there.bytes.shown@ + ")"@,
        ),
        both.here matches Some(e) ==> mentions(
            conflict_message_text(l, destination, both),
            l.compatdata@ + " ("@ + decimal_of(e.files as nat) + " files, "@ + e.bytes.shown@
                + ")"@,
        ),
{
    lemma_conflict_has_there(l, destination, both);
    lemma_conflict_has_here(l, destination, both);
}

proof fn lemma_conflict_has_there(l: Library, destination: Seq<char>, both: Both)
    ensures
        mentions(conflict_message_text(l, destination, both), extent_text(destination, both.there)),
{
    let head = "two different sets of Proton data exist, and only you can say which one counts.\n\n  at the \
        destination: "@;
    let part = extent_text(destination, both.there);
    lemma_mentions_piece(head, part, seq![]);
    let t1 = head + part;
    lemma_mentions_in(seq![], t1, "\n  on the game drive:  "@, part);
    let t2 = t1 + "\n  on the game drive:  "@;
    lemma_mentions_in(seq![], t2, here_text(l, both.here), part);
    let t3 = t2 + here_text(l, both.here);
    lemma_mentions_in(seq![], t3, "\n\nThis usually means an earlier repair was interrupted and Steam recreated\n\
            compatdata before it could be finished. If so, the destination holds your \
            real\nprefixes and the game drive holds a fresh empty one.\n\nNothing has been changed. \
            Look at both, then choose:\n\n  librarybridge fix "@, part);
    let t4 = t3 + "\n\nThis usually means an earlier repair was interrupted and Steam recreated\n\
            compatdata before it could be finished. If so, the destination holds your \
            real\nprefixes and the game drive holds a fresh empty one.\n\nNothing has been changed. \
            Look at both, then choose:\n\n  librarybridge fix "@;
    lemma_mentions_in(seq![], t4, l.id@, part);
    let t5 = t4 + l.id@;
    lemma_mentions_in(seq![], t5, " --keep-destination     keep the destination, set the game drive copy aside\n  \
            librarybridge fix "@, part);
    let t6 = t5 + " --keep-destination     keep the destination, set the game drive copy aside\n  \
            librarybridge fix "@;
    lemma_mentions_in(seq![], t6, l.id@, part);
    let t7 = t6 + l.id@;
    lemma_mentions_in(seq![], t7, " --replace-destination  keep the game drive copy, set the destination aside\n\
            \nEither way, both copies are kept."@, part);
}

proof fn lemma_conflict_has_here(l: Library, destination: Seq<char>, both: Both)
    ensures
        mentions(conflict_message_text(l, destination, both), here_text(l, both.here)),
{
    let head = "two different sets of Proton data exist, and only you can say which one counts.\n\n  at the \
        destination: "@ + extent_text(destination, both.there) + "\n  on the game drive:  "@;
    let part = here_text(l, both.here);
    lemma_mentions_piece(head, part, seq![]);
    let t3 = head + part;
    lemma_mentions_in(seq![], t3, "\n\nThis usually means an earlier repair was interrupted and Steam recreated\n\
            compatdata before it could be finished. If so, the destination holds your \
            real\nprefixes and the game drive holds a fresh empty one.\n\nNothing has been changed. \
            Look at both, then choose:\n\n  librarybridge fix "@, part);
    let t4 = t3 + "\n\nThis usually means an earlier repair was interrupted and Steam recreated\n\
            compatdata before it could be finished. If so, the destination holds your \
            real\nprefixes and the game drive holds a fresh empty one.\n\nNothing has been changed. \
            Look at both, then choose:\n\n  librarybridge fix "@;
    lemma_mentions_in(seq![], t4, l.id@, part);
    let t5 = t4 + l.id@;
    lemma_mentions_in(seq![], t5, " --keep-destination     keep the destination, set the game drive copy aside\n  \
            librarybridge fix "@, part);
    let t6 = t5 + " --keep-destination     keep the destination, set the game drive copy aside\n  \
            librarybridge fix "@;
    lemma_mentions_in(seq![], t6, l.id@, part);
    let t7 = t6 + l.id@;
    lemma_mentions_in(seq![], t7, " --replace-destination  keep the game drive copy, set the destination aside\n\
            \nEither way, both copies are kept."@, part);
}


/// Before it copies, a repair names what was set aside and, to a machine, how
/// much there is to copy.
pub proof fn lemma_copying_is_announced(
    o: Options,
    l: Library,
    f: Facts,
    a: Amounts,
    contained: bool,
)
    ensures
        f.target_present->Got_0 ==> mentions(
            announcement(o, l, f, a, contained, Step::Copy),
            f.set_aside->Got_0@,
        ) && mentions(
            announcement(o, l, f, a, contained, Step::CreateTarget),
            f.set_aside->Got_0@,
        ),
        !f.target_present->Got_0 ==> announcement(
            o,
            l,
            f,
            a,
            contained,
            Step::CreateTarget,
        ).len() == 0,
        o.json && f.report->Got_0.state is NotRepaired ==> mentions(
            announcement(o, l, f, a, contained, Step::Copy),
            event_line(
                "copying"@,
                seq!["total_bytes"@],
                seq![decimal_of(f.inventory->Got_0.bytes.bytes as nat)],
            ),
        ),
        o.json && !(f.report->Got_0.state is NotRepaired) ==> mentions(
            announcement(o, l, f, a, contained, Step::Copy),
            event_line("copying"@, seq!["total_bytes"@], seq![decimal_of(0)]),
        ),
        !o.json ==> mentions(
            announcement(o, l, f, a, contained, Step::Copy),
            "\nCopying...\n"@,
        ),
{
    let aside = set_aside_text(f);
    let line = copying_line_text(o.json);
    let event = emit_with_text(
        o.json,
        "copying"@,
        "total_bytes"@,
        decimal_of(copy_bytes(f) as nat),
    );
    if f.target_present->Got_0 {
        lemma_mentions_piece(
            "Set aside a copy from an earlier repair: "@,
            f.set_aside->Got_0@,
            "\n"@,
        );
        lemma_mentions_in(seq![], aside, line, f.set_aside->Got_0@);
        lemma_mentions_in(seq![], aside + line, event, f.set_aside->Got_0@);
    }
    lemma_mentions_piece(aside + line, event, seq![]);
    lemma_mentions_piece(aside, line, event);
}

/// A person is told which library is looked at, what was copied and where the
/// original went; a machine is told how far the repair has come.
pub proof fn lemma_progress_is_announced(
    o: Options,
    l: Library,
    f: Facts,
    a: Amounts,
    contained: bool,
)
    ensures
        !o.json ==> mentions(announcement(o, l, f, a, contained, Step::Processes), l.path@)
            && mentions(announcement(o, l, f, a, contained, Step::Processes), l.name@),
        o.json ==> announcement(o, l, f, a, contained, Step::Processes).len() == 0,
        f.free->Got_0 is Some ==> announcement(o, l, f, a, contained, Step::Scope).len() == 0,
        f.free->Got_0 is None ==> mentions(
            announcement(o, l, f, a, contained, Step::Scope),
            "could not be checked on this system"@,
        ),
        announcement(o, l, f, a, contained, Step::Confirm) == "\nContinue? [y/N] "@,
        o.json ==> announcement(o, l, f, a, contained, Step::Probe) == event_line(
            "preparing"@,
            seq![],
            seq![],
        ),
        o.json ==> mentions(
            announcement(o, l, f, a, contained, Step::CheckCopy),
            event_line("verifying"@, seq![], seq![]),
        ),
        o.json ==> mentions(
            announcement(o, l, f, a, contained, Step::NameBackup),
            event_line("committing"@, seq![], seq![]),
        ),
        mentions(
            announcement(o, l, f, a, contained, Step::CheckCopy),
            decimal_of(f.copy->Got_0.files as nat) + " files, "@ + decimal_of(
                f.copy->Got_0.dirs as nat,
            ) + " directories, "@ + decimal_of(f.copy->Got_0.symlinks as nat) + " symlinks, "@
                + f.copy->Got_0.bytes.shown@,
        ),
        f.copy->Got_0.hard_linked > 0 ==> mentions(
            announcement(o, l, f, a, contained, Step::CheckCopy),
            decimal_of(f.copy->Got_0.hard_linked as nat)
                + " files were hard links and are now independent copies"@,
        ),
        f.report->Got_0.state is NotRepaired ==> mentions(
            announcement(o, l, f, a, contained, Step::MakeLink),
            f.backup->Got_0@,
        ),
        mentions(announcement(o, l, f, a, contained, Step::MakeLink), "Linking...\n"@),
{
    lemma_mentions_piece("Library     "@, l.path@, "\nName        "@);
    lemma_mentions_in(
        seq![],
        "Library     "@ + l.path@ + "\nName        "@,
        l.name@ + "\n"@,
        l.path@,
    );
    assert("Library     "@ + l.path@ + "\nName        "@ + (l.name@ + "\n"@) =~= "Library     "@
        + l.path@ + "\nName        "@ + l.name@ + "\n"@);
    lemma_mentions_piece("Library     "@ + l.path@ + "\nName        "@, l.name@, "\n"@);
    lemma_unchecked_room();
    let c = f.copy->Got_0;
    let amounts = decimal_of(c.files as nat) + " files, "@ + decimal_of(c.dirs as nat)
        + " directories, "@ + decimal_of(c.symlinks as nat) + " symlinks, "@ + c.bytes.shown@;
    let event = emit_text(o.json, "verifying"@);
    let tail = event + "Checking every file...\n"@;
    assert(copied_text(c) =~= "  "@ + amounts + ("\n"@ + independent_text(c)));
    lemma_mentions_piece("  "@, amounts, "\n"@ + independent_text(c));
    lemma_mentions_in(seq![], copied_text(c), tail, amounts);
    assert(copied_text(c) + tail =~= copied_text(c) + event + "Checking every file...\n"@);
    lemma_mentions_piece(copied_text(c), event, "Checking every file...\n"@);
    if c.hard_linked > 0 {
        let many = decimal_of(c.hard_linked as nat)
            + " files were hard links and are now independent copies"@;
        lemma_note_ends_its_line();
        assert(independent_text(c) =~= "  note: "@ + many + "\n"@);
        lemma_mentions_piece("  note: "@, many, "\n"@);
        lemma_mentions_in("  "@ + amounts + "\n"@, independent_text(c), tail, many);
        assert("  "@ + amounts + "\n"@ + independent_text(c) =~= copied_text(c));
    }
    lemma_mentions_piece("  every file matches\n"@, emit_text(o.json, "committing"@), seq![]);
    lemma_linking_is_told(f.backup->Got_0@);
}

proof fn lemma_unchecked_room()
    ensures
        mentions(
            "Space       could not be checked on this system\n"@,
            "could not be checked on this system"@,
        ),
{
    reveal_strlit("Space       could not be checked on this system\n");
    reveal_strlit("could not be checked on this system");
    reveal_strlit("Space       ");
    reveal_strlit("\n");
    assert("Space       could not be checked on this system\n"@ =~= "Space       "@
        + "could not be checked on this system"@ + "\n"@);
    lemma_mentions_piece("Space       "@, "could not be checked on this system"@, "\n"@);
}

proof fn lemma_note_ends_its_line()
    ensures
        " files were hard links and are now independent copies\n"@
            == " files were hard links and are now independent copies"@ + "\n"@,
{
    reveal_strlit(" files were hard links and are now independent copies\n");
    reveal_strlit(" files were hard links and are now independent copies");
    reveal_strlit("\n");
    assert(" files were hard links and are now independent copies\n"@
        =~= " files were hard links and are now independent copies"@ + "\n"@);
}

proof fn lemma_linking_is_told(backup: Seq<char>)
    ensures
        mentions("  "@ + backup + "\nLinking...\n"@, backup),
        mentions("  "@ + backup + "\nLinking...\n"@, "Linking...\n"@),
        mentions("Linking...\n"@, "Linking...\n"@),
{
    lemma_mentions_piece("  "@, backup, "\nLinking...\n"@);
    lemma_mentions_self("Linking...\n"@);
    reveal_strlit("\nLinking...\n");
    reveal_strlit("Linking...\n");
    reveal_strlit("\n");
    assert("\nLinking...\n"@ =~= "\n"@ + "Linking...\n"@);
    assert("  "@ + backup + "\nLinking...\n"@ =~= "  "@ + backup + "\n"@ + "Linking...\n"@);
    lemma_mentions_piece("  "@ + backup + "\n"@, "Linking...\n"@, seq![]);
}


/// A plan tells how many games and prefixes there are, what the library is on,
/// what a copy cannot keep, and how far paths are held to.
pub proof fn lemma_plan_tells_what_is_peculiar(l: Library, f: Facts, a: Amounts, contained: bool)
    ensures
        f.report->Got_0.state is NotRepaired ==> mentions(
            plan_text(l, f, a, contained),
            "Games       "@ + decimal_of(f.scope->Got_0.installed@.len()) + " installed, "@
                + decimal_of(f.scope->Got_0.folders@.len()) + " prefix folders\n"@,
        ),
        !(f.report->Got_0.state is NotRepaired) ==> mentions(
            plan_text(l, f, a, contained),
            "Games       "@ + decimal_of(f.scope->Got_0.installed@.len()) + " installed, "@
                + decimal_of(0) + " prefix folders\n"@,
        ),
        f.report->Got_0.state is NotRepaired && f.inventory->Got_0.hard_linked > 0 ==> mentions(
            plan_text(l, f, a, contained),
            "Shared      "@ + decimal_of(f.inventory->Got_0.hard_linked as nat)
                + " files have more than one name; each name becomes an independent file\n"@,
        ),
        f.mount->Got_0 matches Some(m) ==> mentions(plan_text(l, f, a, contained), m.described@),
        f.mount->Got_0 is None ==> mentions(plan_text(l, f, a, contained), "unknown"@),
        !(f.report->Got_0.state is NotRepaired) ==> mentions(
            plan_text(l, f, a, contained),
            "Backup      not needed, this library has no Proton data yet\n"@,
        ) && mentions(plan_text(l, f, a, contained), a.nothing@),
        contained ==> mentions(plan_text(l, f, a, contained), "enforced by the kernel"@),
        !contained ==> mentions(
            plan_text(l, f, a, contained),
            "checked by this tool only, which is weaker"@,
        ),
{
    lemma_plan_lines(l, f, a, contained);
    if f.report->Got_0.state is NotRepaired && f.inventory->Got_0.hard_linked > 0 {
        let i = f.inventory->Got_0;
        lemma_mentions_piece(seq![], shared_line_text(i), sparse_line_text(i));
        lemma_mentions_through(plan_text(l, f, a, contained), peculiar_text(f),
            shared_line_text(i));
    }
}

proof fn lemma_plan_lines(l: Library, f: Facts, a: Amounts, contained: bool)
    ensures
        mentions(plan_text(l, f, a, contained), games_line_text(has_source(f.report->Got_0),
            f.scope->Got_0)),
        mentions(plan_text(l, f, a, contained), peculiar_text(f)),
        mentions(plan_text(l, f, a, contained), described_text(f.mount->Got_0)),
        mentions(plan_text(l, f, a, contained), copy_shown(f, a)),
        mentions(plan_text(l, f, a, contained), backup_line_text(has_source(f.report->Got_0),
            f.scope->Got_0)),
        mentions(plan_text(l, f, a, contained), containment_text(contained)),
{
    let a0 = games_line_text(has_source(f.report->Got_0), f.scope->Got_0);
    let a1 = a0 + unknown_line_text(unknown_of(has_source(f.report->Got_0), f.scope->Got_0));
    let a2 = a1 + peculiar_text(f);
    let a3 = a2 + "Filesystem  "@;
    let a4 = a3 + described_text(f.mount->Got_0);
    let a5 = a4 + "\nSource      "@;
    let a6 = a5 + l.compatdata@;
    let a7 = a6 + "\nDestination "@;
    let a8 = a7 + l.effective_target@;
    let a9 = a8 + "\nTo copy     "@;
    let a10 = a9 + copy_shown(f, a);
    let a11 = a10 + "\n"@;
    let a12 = a11 + aside_line_text(f.report->Got_0, f.scope->Got_0);
    let a13 = a12 + backup_line_text(has_source(f.report->Got_0), f.scope->Got_0);
    let a14 = a13 + "Plan        "@;
    let a15 = a14 + f.fingerprint->Got_0@;
    let a16 = a15 + "\nChecks      symlink support is tested when you apply; path containment is "@;
    let a17 = a16 + containment_text(contained);
    let a18 = a17 + "\n"@;
    lemma_mentions_self(a0);
    lemma_mentions_in(seq![], a0, unknown_line_text(unknown_of(has_source(f.report->Got_0),
        f.scope->Got_0)), games_line_text(has_source(f.report->Got_0), f.scope->Got_0));
    lemma_mentions_in(seq![], a1, peculiar_text(f), games_line_text(has_source(f.report->Got_0),
        f.scope->Got_0));
    lemma_mentions_in(seq![], a2, "Filesystem  "@, games_line_text(has_source(f.report->Got_0),
        f.scope->Got_0));
    lemma_mentions_in(seq![], a3, described_text(f.mount->Got_0),
        games_line_text(has_source(f.report->Got_0), f.scope->Got_0));
    lemma_mentions_in(seq![], a4, "\nSource      "@, games_line_text(has_source(f.report->Got_0),
        f.scope->Got_0));
    lemma_mentions_in(seq![], a5, l.compatdata@, games_line_text(has_source(f.report->Got_0),
        f.scope->Got_0));
    lemma_mentions_in(seq![], a6, "\nDestination "@, games_line_text(has_source(f.report->Got_0),
        f.scope->Got_0));
    lemma_mentions_in(seq![], a7, l.effective_target@, games_line_text(has_source(f.report->Got_0),
        f.scope->Got_0));
    lemma_mentions_in(seq![], a8, "\nTo copy     "@, games_line_text(has_source(f.report->Got_0),
        f.scope->Got_0));
    lemma_mentions_in(seq![], a9, copy_shown(f, a), games_line_text(has_source(f.report->Got_0),
        f.scope->Got_0));
    lemma_mentions_in(seq![], a10, "\n"@, games_line_text(has_source(f.report->Got_0),
        f.scope->Got_0));
    lemma_mentions_in(seq![], a11, aside_line_text(f.report->Got_0, f.scope->Got_0),
        games_line_text(has_source(f.report->Got_0), f.scope->Got_0));
    lemma_mentions_in(seq![], a12, backup_line_text(has_source(f.report->Got_0), f.scope->Got_0),
        games_line_text(has_source(f.report->Got_0), f.scope->Got_0));
    lemma_mentions_in(seq![], a13, "Plan        "@, games_line_text(has_source(f.report->Got_0),
        f.scope->Got_0));
    lemma_mentions_in(seq![], a14, f.fingerprint->Got_0@,
        games_line_text(has_source(f.report->Got_0), f.scope->Got_0));
    lemma_mentions_in(seq![], a15,
        "\nChecks      symlink support is tested when you apply; path containment is "@,
        games_line_text(has_source(f.report->Got_0), f.scope->Got_0));
    lemma_mentions_in(seq![], a16, containment_text(contained),
        games_line_text(has_source(f.report->Got_0), f.scope->Got_0));
    lemma_mentions_in(seq![], a17, "\n"@, games_line_text(has_source(f.report->Got_0),
        f.scope->Got_0));
    lemma_mentions_piece(a1, peculiar_text(f), seq![]);
    lemma_mentions_in(seq![], a2, "Filesystem  "@, peculiar_text(f));
    lemma_mentions_in(seq![], a3, described_text(f.mount->Got_0), peculiar_text(f));
    lemma_mentions_in(seq![], a4, "\nSource      "@, peculiar_text(f));
    lemma_mentions_in(seq![], a5, l.compatdata@, peculiar_text(f));
    lemma_mentions_in(seq![], a6, "\nDestination "@, peculiar_text(f));
    lemma_mentions_in(seq![], a7, l.effective_target@, peculiar_text(f));
    lemma_mentions_in(seq![], a8, "\nTo copy     "@, peculiar_text(f));
    lemma_mentions_in(seq![], a9, copy_shown(f, a), peculiar_text(f));
    lemma_mentions_in(seq![], a10, "\n"@, peculiar_text(f));
    lemma_mentions_in(seq![], a11, aside_line_text(f.report->Got_0, f.scope->Got_0),
        peculiar_text(f));
    lemma_mentions_in(seq![], a12, backup_line_text(has_source(f.report->Got_0), f.scope->Got_0),
        peculiar_text(f));
    lemma_mentions_in(seq![], a13, "Plan        "@, peculiar_text(f));
    lemma_mentions_in(seq![], a14, f.fingerprint->Got_0@, peculiar_text(f));
    lemma_mentions_in(seq![], a15,
        "\nChecks      symlink support is tested when you apply; path containment is "@,
        peculiar_text(f));
    lemma_mentions_in(seq![], a16, containment_text(contained), peculiar_text(f));
    lemma_mentions_in(seq![], a17, "\n"@, peculiar_text(f));
    lemma_mentions_piece(a3, described_text(f.mount->Got_0), seq![]);
    lemma_mentions_in(seq![], a4, "\nSource      "@, described_text(f.mount->Got_0));
    lemma_mentions_in(seq![], a5, l.compatdata@, described_text(f.mount->Got_0));
    lemma_mentions_in(seq![], a6, "\nDestination "@, described_text(f.mount->Got_0));
    lemma_mentions_in(seq![], a7, l.effective_target@, described_text(f.mount->Got_0));
    lemma_mentions_in(seq![], a8, "\nTo copy     "@, described_text(f.mount->Got_0));
    lemma_mentions_in(seq![], a9, copy_shown(f, a), described_text(f.mount->Got_0));
    lemma_mentions_in(seq![], a10, "\n"@, described_text(f.mount->Got_0));
    lemma_mentions_in(seq![], a11, aside_line_text(f.report->Got_0, f.scope->Got_0),
        described_text(f.mount->Got_0));
    lemma_mentions_in(seq![], a12, backup_line_text(has_source(f.report->Got_0), f.scope->Got_0),
        described_text(f.mount->Got_0));
    lemma_mentions_in(seq![], a13, "Plan        "@, described_text(f.mount->Got_0));
    lemma_mentions_in(seq![], a14, f.fingerprint->Got_0@, described_text(f.mount->Got_0));
    lemma_mentions_in(seq![], a15,
        "\nChecks      symlink support is tested when you apply; path containment is "@,
        described_text(f.mount->Got_0));
    lemma_mentions_in(seq![], a16, containment_text(contained), described_text(f.mount->Got_0));
    lemma_mentions_in(seq![], a17, "\n"@, described_text(f.mount->Got_0));
    lemma_mentions_piece(a9, copy_shown(f, a), seq![]);
    lemma_mentions_in(seq![], a10, "\n"@, copy_shown(f, a));
    lemma_mentions_in(seq![], a11, aside_line_text(f.report->Got_0, f.scope->Got_0), copy_shown(f,
        a));
    lemma_mentions_in(seq![], a12, backup_line_text(has_source(f.report->Got_0), f.scope->Got_0),
        copy_shown(f, a));
    lemma_mentions_in(seq![], a13, "Plan        "@, copy_shown(f, a));
    lemma_mentions_in(seq![], a14, f.fingerprint->Got_0@, copy_shown(f, a));
    lemma_mentions_in(seq![], a15,
        "\nChecks      symlink support is tested when you apply; path containment is "@,
        copy_shown(f, a));
    lemma_mentions_in(seq![], a16, containment_text(contained), copy_shown(f, a));
    lemma_mentions_in(seq![], a17, "\n"@, copy_shown(f, a));
    lemma_mentions_piece(a12, backup_line_text(has_source(f.report->Got_0), f.scope->Got_0),
        seq![]);
    lemma_mentions_in(seq![], a13, "Plan        "@, backup_line_text(has_source(f.report->Got_0),
        f.scope->Got_0));
    lemma_mentions_in(seq![], a14, f.fingerprint->Got_0@,
        backup_line_text(has_source(f.report->Got_0), f.scope->Got_0));
    lemma_mentions_in(seq![], a15,
        "\nChecks      symlink support is tested when you apply; path containment is "@,
        backup_line_text(has_source(f.report->Got_0), f.scope->Got_0));
    lemma_mentions_in(seq![], a16, containment_text(contained),
        backup_line_text(has_source(f.report->Got_0), f.scope->Got_0));
    lemma_mentions_in(seq![], a17, "\n"@, backup_line_text(has_source(f.report->Got_0),
        f.scope->Got_0));
    lemma_mentions_piece(a16, containment_text(contained), seq![]);
    lemma_mentions_in(seq![], a17, "\n"@, containment_text(contained));
    assert(a18 == plan_text(l, f, a, contained));
}

/// A plan for a machine tells the amounts that were measured: what there is to
/// copy when there is a source, and nothing when there is none.
pub proof fn lemma_plan_ending_tells_what_was_measured(o: Options, l: Library, f: Facts)
    requires
        f.scope->Got_0.installed@.len() <= usize::MAX,
        f.scope->Got_0.folders@.len() <= usize::MAX,
    ensures
        f.report->Got_0.state is NotRepaired ==> mentions(
            closing_text(o, l, f, Ending::Plan),
            ",\n  \"copy_bytes\": "@ + decimal_of(f.inventory->Got_0.bytes.bytes as nat)
                + ",\n  \"reserve_bytes\": "@ + decimal_of(2147483648),
        ) && mentions(
            closing_text(o, l, f, Ending::Plan),
            ",\n  \"installed_games\": "@ + decimal_of(f.scope->Got_0.installed@.len())
                + ",\n  \"prefix_folders\": "@ + decimal_of(f.scope->Got_0.folders@.len())
                + ",\n  \"unknown_folders\": ["@ + list_text(
                unknown_of(true, f.scope->Got_0),
            ),
        ) && mentions(
            closing_text(o, l, f, Ending::Plan),
            "],\n  \"consequences\": ["@ + list_text(
                consequences_of(l.flatpak, f.inventory->Got_0.hard_linked),
            ) + "]\n}\n"@,
        ),
        !(f.report->Got_0.state is NotRepaired) ==> mentions(
            closing_text(o, l, f, Ending::Plan),
            ",\n  \"copy_bytes\": "@ + decimal_of(0) + ",\n  \"reserve_bytes\": "@ + decimal_of(
                2147483648,
            ),
        ),
        mentions(
            closing_text(o, l, f, Ending::Plan),
            ",\n  \"source\": "@ + json_text(l.compatdata@) + ",\n  \"destination\": "@
                + json_text(l.effective_target@) + ",\n  \"backup\": "@ + json_text(
                f.scope->Got_0.backup@,
            ),
        ),
        mentions(
            closing_text(o, l, f, Ending::Plan),
            "{\n  \"schema\": 1,\n  \"fingerprint\": "@ + json_text(f.fingerprint->Got_0@)
                + ",\n  \"kind\": \"repair\",\n  \"library_id\": "@ + json_text(l.id@),
        ),
{
    let source = has_source(f.report->Got_0);
    let available = match f.free->Got_0 {
        Some(free) => Some(free.bytes),
        None => None,
    };
    let hard_linked = if source {
        f.inventory->Got_0.hard_linked
    } else {
        0
    };
    lemma_plan_document_says_what_will_happen(
        l,
        f.report->Got_0,
        f.scope->Got_0.backup@,
        copy_bytes(f),
        GROWTH_RESERVE,
        available,
        f.scope->Got_0.installed@.len() as usize,
        seen_folders(source, f.scope->Got_0).len() as usize,
        unknown_of(source, f.scope->Got_0),
        hard_linked,
        f.fingerprint->Got_0@,
    );
}

/// How a repair that came to its end says so. A machine is told where the data
/// and the original are.
pub proof fn lemma_each_ending_is_told(o: Options, l: Library, f: Facts)
    ensures
        closing_text(o, l, f, Ending::DryRun) == "\nDry run. Nothing was changed.\n"@,
        closing_text(o, l, f, Ending::Cancelled) == "Cancelled. Nothing was changed.\n"@,
        f.report->Got_0.state matches State::Repaired { target, .. } ==> mentions(
            closing_text(o, l, f, Ending::AlreadyRepaired),
            "already repaired, pointing at "@ + target@,
        ),
        mentions(
            closing_text(o, l, f, Ending::Applied),
            "\nDone.\n  Proton data now lives at   "@ + l.effective_target@
                + "\n  Steam still sees it at     "@ + l.compatdata@ + "\n"@,
        ),
        f.report->Got_0.state is NotRepaired ==> mentions(
            closing_text(o, l, f, Ending::Applied),
            "`librarybridge backup "@ + l.id@ + "`"@,
        ),
        o.json ==> (f.found_backup matches Known::Got(Some(b)) ==> begins(
            closing_text(o, l, f, Ending::Applied),
            event_line(
                "applied"@,
                seq!["destination"@, "backup"@],
                seq![json_text(l.effective_target@), json_text(b@)],
            ),
        )),
        o.json && !(f.found_backup is Got && f.found_backup->Got_0 is Some) ==> begins(
            closing_text(o, l, f, Ending::Applied),
            event_line(
                "applied"@,
                seq!["destination"@, "backup"@],
                seq![json_text(l.effective_target@), json_text(seq![])],
            ),
        ),
{
    lemma_done_says_where_the_data_is(
        o,
        l,
        has_source(f.report->Got_0),
        found_backup_text(f),
    );
    if f.report->Got_0.state is Repaired {
        let target = f.report->Got_0.state->Repaired_target@;
        reveal_strlit("State       already repaired, pointing at ");
        reveal_strlit("State       ");
        reveal_strlit("already repaired, pointing at ");
        let part = "already repaired, pointing at "@ + target;
        assert(repaired_text(f.report->Got_0) =~= "State       "@ + part
            + "\nNothing to do.\n"@);
        lemma_mentions_piece("State       "@, part, "\nNothing to do.\n"@);
    }
    if o.json {
        let event = emit_with_two_text(
            true,
            "applied"@,
            "destination"@,
            json_text(l.effective_target@),
            "backup"@,
            json_text(found_backup_text(f)),
        );
        let whole = closing_text(o, l, f, Ending::Applied);
        assert(whole.take(event.len() as int) =~= event);
    }
}

/// Where there is not enough room is the directory that holds the destination.
pub proof fn lemma_where_there_is_no_room(o: Options, l: Library, f: Facts, a: Amounts)
    ensures
        parent_of(l.effective_target@) matches Some(p) ==> mentions(
            refusal_text(o, l, f, a, Refusal::NoRoom),
            "not enough room at "@ + p + ". The copy needs "@,
        ),
        parent_of(l.effective_target@) is None ==> mentions(
            refusal_text(o, l, f, a, Refusal::NoRoom),
            "not enough room at "@ + "/"@ + ". The copy needs "@,
        ),
        f.report->Got_0.state is NotRepaired ==> mentions(
            refusal_text(o, l, f, a, Refusal::NoRoom),
            f.inventory->Got_0.bytes.shown@,
        ),
        !(f.report->Got_0.state is NotRepaired) ==> mentions(
            refusal_text(o, l, f, a, Refusal::NoRoom),
            a.nothing@,
        ),
{
    let copied = copy_shown(f, a);
    let shown = f.free->Got_0->Some_0.shown@;
    let head = "not enough room at "@ + target_parent(l) + ". The copy needs "@;
    lemma_mentions_piece(seq![], head, copied);
    lemma_mentions_in(seq![], head + copied, " plus "@, head);
    lemma_mentions_in(seq![], head + copied + " plus "@, a.reserve@, head);
    lemma_mentions_in(seq![], head + copied + " plus "@ + a.reserve@, " spare, and only "@, head);
    let b = head + copied + " plus "@ + a.reserve@ + " spare, and only "@;
    lemma_mentions_in(seq![], b, shown, head);
    lemma_mentions_in(seq![], b + shown, " is free."@, head);
    lemma_refusal_says_why(o, l, f, a, Refusal::NoRoom, 0);
}


/// A number stands with its lowest byte first.
pub proof fn lemma_numbers_stand_lowest_byte_first(n: nat, count: nat, i: int)
    ensures
        low_first(n, count).len() == count,
        0 <= i < count ==> low_first(n, count)[i] == (n as int / pow(256, i as nat)) % 256,
    decreases count,
{
    if count > 0 {
        let rest = (count - 1) as nat;
        lemma_numbers_stand_lowest_byte_first(n / 256, rest, i - 1);
        lemma_pow0(256);
        if 0 < i < count {
            let p = pow(256, (i - 1) as nat);
            lemma_pow_positive(256, (i - 1) as nat);
            lemma_pow_adds(256, 1, (i - 1) as nat);
            lemma_pow1(256);
            lemma_div_denominator(n as int, 256, p);
            assert(low_first(n, count)[i] == low_first(n / 256, rest)[i - 1]);
        }
    }
}

/// What identifies a plan: where the library is, where its data goes, its
/// state, and how much there is, each text with a zero behind it.
pub proof fn lemma_what_identifies_a_plan(
    l: Library,
    report: Report,
    entries: nat,
    bytes: nat,
    digest: Seq<char>,
)
    ensures
        identity(l, report, entries, bytes, digest) == encode_utf8(l.id@) + seq![0u8]
            + encode_utf8(l.path@) + seq![0u8] + encode_utf8(l.compatdata@) + seq![0u8]
            + encode_utf8(l.effective_target@) + seq![0u8] + encode_utf8(report.code@)
            + seq![0u8] + low_first(entries, 8) + low_first(bytes, 8) + encode_utf8(digest),
{
    let z = seq![0u8];
    let a = encode_utf8(l.id@);
    let b = encode_utf8(l.path@);
    let c = encode_utf8(l.compatdata@);
    let d = encode_utf8(l.effective_target@);
    let e = encode_utf8(report.code@);
    assert(a + z + (b + z) =~= a + z + b + z);
    assert(a + z + b + z + (c + z) =~= a + z + b + z + c + z);
    assert(a + z + b + z + c + z + (d + z) =~= a + z + b + z + c + z + d + z);
    assert(a + z + b + z + c + z + d + z + (e + z) =~= a + z + b + z + c + z + d + z + e + z);
}

} // verus!
