//! Forgetting an import: removing the record of it, and nothing else.

use vstd::prelude::*;
use vstd::utf8::*;

use crate::document::{json_text, object_text};
use crate::import::{exe_text, record_members, record_provenance_text};
use crate::json::{parse, parsed, MAX_BYTES, Value};
use crate::library::Options;
use crate::lutris::{is_slug_char, lemma_slug_is_url_shaped, slug_of, Definition};
use crate::path::{lemma_steps_under, rooted, steps, under};
use crate::protocol::{Known, Next};
use crate::text::{
    ascii_alnum, cat2, cat3, chars_of, decimal_of, is_ascii_alnum, lemma_mentions_in,
    lemma_mentions_piece, mentions, same_text,
};
use crate::written::{
    is_member, lemma_decimal_is_digits, lemma_document_reads, lemma_is_member, lemma_one_is_one,
    lemma_reads_number, lemma_reads_object, lemma_reads_text, lemma_with_members, with_members,
};

verus! {

/// A slug names one import record. It is not a path, and anything that could
/// leave the records directory is refused rather than sanitised, because a
/// guess about what the user meant ends in a deleted file.
pub open spec fn is_valid_slug(s: Seq<char>) -> bool {
    &&& 0 < s.len() <= 80
    &&& forall|i: int|
        0 <= i < s.len() ==> is_ascii_alnum(#[trigger] s[i]) || s[i] == '-' || s[i] == '_'
}

pub fn valid_slug(slug: &str) -> (yes: bool)
    ensures
        yes == is_valid_slug(slug@),
{
    let chars = chars_of(slug);
    if chars.len() == 0 || chars.len() > 80 {
        return false;
    }
    for i in 0..chars.len()
        invariant
            chars@ == slug@,
            forall|k: int|
                0 <= k < i ==> is_ascii_alnum(#[trigger] chars@[k]) || chars@[k] == '-' || chars@[k]
                    == '_',
    {
        if !ascii_alnum(chars[i]) && chars[i] != '-' && chars[i] != '_' {
            assert(!(is_ascii_alnum(slug@[i as int]) || slug@[i as int] == '-' || slug@[i as int]
                == '_'));
            return false;
        }
    }
    true
}

/// Every slug that an import makes is one that can be forgotten.
pub proof fn lemma_imported_slugs_can_be_forgotten(name: Seq<char>)
    ensures
        is_valid_slug(slug_of(name)),
{
    lemma_slug_is_url_shaped(name);
    assert forall|i: int| 0 <= i < slug_of(name).len() implies is_ascii_alnum(
        #[trigger] slug_of(name)[i],
    ) || slug_of(name)[i] == '-' || slug_of(name)[i] == '_' by {
        assert(is_slug_char(slug_of(name)[i]));
    }
}

/// A record is directly in the records directory and nowhere else: its path is
/// one step longer than that of the directory.
pub proof fn lemma_record_stays_inside(dir: Seq<char>, slug: Seq<char>)
    requires
        is_valid_slug(slug),
    ensures
        rooted(under(dir, slug + ".json"@)) == rooted(dir),
        steps(under(dir, slug + ".json"@)) == steps(dir).push(slug + ".json"@),
{
    reveal_strlit(".json");
    reveal_strlit(".");
    let name = slug + ".json"@;
    assert(name[0] == slug[0]);
    assert(name != "."@) by {
        assert(name.len() > 1);
    }
    lemma_steps_under(dir, name);
}

#[derive(Debug, Clone, Copy, PartialEq, Eq, Structural)]
pub enum ForgetStep {
    /// See what the record is, without following a link.
    Look,
    Read,
    Remove,
}

#[derive(Debug, Clone, Copy, PartialEq, Eq, Structural)]
pub enum ForgetRefusal {
    NoEntry,
    NotSlug,
    Symlink,
    NoRecord,
    Unreadable,
    NotRecord,
}

#[derive(Debug, Clone, Copy, PartialEq, Eq, Structural)]
pub enum ForgetEnding {
    DryRun,
    Forgotten,
    Refused(ForgetRefusal),
}

pub type ForgetNext = Next<ForgetStep, ForgetEnding>;

/// What stands where a record would.
#[derive(Debug, Clone, Copy, PartialEq, Eq, Structural)]
pub struct Look {
    pub symlink: bool,
    pub file: bool,
}

/// What is known of forgetting an import.
#[derive(Debug)]
pub struct ForgetFacts {
    /// What stands where the record would, once that was looked up. Where it
    /// cannot be told, it is neither.
    pub look: Option<Look>,
    /// What the record holds.
    pub text: Known<String>,
    pub remove: Known<()>,
}

/// Whether a document is the record of an import under a slug. It must look
/// like one of ours, not merely sit in the right place with the right
/// extension.
pub open spec fn is_record(v: Value, slug: Seq<char>) -> bool {
    v.get("schema"@) is Some && v.string("slug"@) == Some(slug)
}

/// What comes next in forgetting an import.
pub open spec fn forget_next(o: Options, f: ForgetFacts) -> ForgetNext {
    if o.entry is None {
        Next::Stop(ForgetEnding::Refused(ForgetRefusal::NoEntry))
    } else if !is_valid_slug(o.entry->Some_0@) {
        Next::Stop(ForgetEnding::Refused(ForgetRefusal::NotSlug))
    } else {
        match f.look {
            None => Next::Take(ForgetStep::Look),
            Some(look) => if look.symlink {
                Next::Stop(ForgetEnding::Refused(ForgetRefusal::Symlink))
            } else if !look.file {
                Next::Stop(ForgetEnding::Refused(ForgetRefusal::NoRecord))
            } else {
                match f.text {
                    Known::NotYet => Next::Take(ForgetStep::Read),
                    Known::Failed => Next::Failed(ForgetStep::Read),
                    Known::Got(text) => match parsed(encode_utf8(text@)) {
                        Err(_) => Next::Stop(ForgetEnding::Refused(ForgetRefusal::Unreadable)),
                        Ok(v) => if !is_record(v, o.entry->Some_0@) {
                            Next::Stop(ForgetEnding::Refused(ForgetRefusal::NotRecord))
                        } else if o.dry_run {
                            Next::Stop(ForgetEnding::DryRun)
                        } else {
                            match f.remove {
                                Known::NotYet => Next::Take(ForgetStep::Remove),
                                Known::Failed => Next::Failed(ForgetStep::Remove),
                                Known::Got(_) => Next::Stop(ForgetEnding::Forgotten),
                            }
                        },
                    },
                }
            },
        }
    }
}

/// Say what comes next in forgetting an import.
pub fn forget(o: &Options, f: &ForgetFacts) -> (n: ForgetNext)
    ensures
        n == forget_next(*o, *f),
{
    let wanted = match &o.entry {
        None => return Next::Stop(ForgetEnding::Refused(ForgetRefusal::NoEntry)),
        Some(w) => w,
    };
    if !valid_slug(wanted.as_str()) {
        return Next::Stop(ForgetEnding::Refused(ForgetRefusal::NotSlug));
    }
    let look = match &f.look {
        None => return Next::Take(ForgetStep::Look),
        Some(x) => x,
    };
    if look.symlink {
        return Next::Stop(ForgetEnding::Refused(ForgetRefusal::Symlink));
    }
    if !look.file {
        return Next::Stop(ForgetEnding::Refused(ForgetRefusal::NoRecord));
    }
    let text = match &f.text {
        Known::NotYet => return Next::Take(ForgetStep::Read),
        Known::Failed => return Next::Failed(ForgetStep::Read),
        Known::Got(x) => x,
    };
    let record = match parse(text.as_str()) {
        Err(_) => return Next::Stop(ForgetEnding::Refused(ForgetRefusal::Unreadable)),
        Ok(record) => record,
    };
    let ours = match record.string("slug") {
        Some(slug) => record.get("schema").is_some() && same_text(slug.as_str(), wanted.as_str()),
        None => false,
    };
    if !ours {
        return Next::Stop(ForgetEnding::Refused(ForgetRefusal::NotRecord));
    }
    if o.dry_run {
        return Next::Stop(ForgetEnding::DryRun);
    }
    match &f.remove {
        Known::NotYet => Next::Take(ForgetStep::Remove),
        Known::Failed => Next::Failed(ForgetStep::Remove),
        Known::Got(_) => Next::Stop(ForgetEnding::Forgotten),
    }
}

/// What is removed is a regular file in the records directory that is the
/// record of that import, and never on a dry run.
pub proof fn lemma_only_own_records_are_removed(o: Options, f: ForgetFacts)
    requires
        forget_next(o, f) == ForgetNext::Take(ForgetStep::Remove),
    ensures
        !o.dry_run,
        o.entry is Some && is_valid_slug(o.entry->Some_0@),
        f.look == Some(Look { symlink: false, file: true }),
        parsed(encode_utf8(f.text->Got_0@)) is Ok,
        is_record(parsed(encode_utf8(f.text->Got_0@))->Ok_0, o.entry->Some_0@),
{
}

// ------------------------------------------ a record that was written before

spec fn record_keys() -> Seq<Seq<char>> {
    seq!["schema"@, "created"@, "slug"@, "name"@, "runner"@, "exe"@, "lutris_config"@]
}

spec fn record_values(d: Definition, config: Seq<char>, created: u64) -> Seq<Value> {
    seq![
        Value::Number("1"@),
        Value::Number(decimal_of(created as nat)),
        Value::Text(d.slug@),
        Value::Text(d.name@),
        Value::Text(d.runner@),
        Value::Text(exe_text(d)),
        Value::Text(config),
    ]
}

proof fn lemma_reads_record_member(d: Definition, config: Seq<char>, created: u64, i: int)
    requires
        0 <= i < 7,
    ensures
        is_member(
            record_members(d, config, created)[i],
            record_keys()[i],
            record_values(d, config, created)[i],
            0,
        ),
{
    reveal_strlit("");
    let key = record_keys()[i];
    let value = record_values(d, config, created)[i];
    if i == 0 {
        reveal_strlit("schema");
        lemma_one_is_one();
        lemma_reads_number("1"@, 1);
        lemma_is_member(""@, key, "1"@, value, 0);
    } else if i == 1 {
        reveal_strlit("created");
        lemma_decimal_is_digits(created as nat);
        lemma_reads_number(decimal_of(created as nat), 1);
        lemma_is_member(""@, key, decimal_of(created as nat), value, 0);
    } else if i == 2 {
        reveal_strlit("slug");
        lemma_reads_text(d.slug@, 1);
        lemma_is_member(""@, key, json_text(d.slug@), value, 0);
    } else if i == 3 {
        reveal_strlit("name");
        lemma_reads_text(d.name@, 1);
        lemma_is_member(""@, key, json_text(d.name@), value, 0);
    } else if i == 4 {
        reveal_strlit("runner");
        lemma_reads_text(d.runner@, 1);
        lemma_is_member(""@, key, json_text(d.runner@), value, 0);
    } else if i == 5 {
        reveal_strlit("exe");
        lemma_reads_text(exe_text(d), 1);
        lemma_is_member(""@, key, json_text(exe_text(d)), value, 0);
    } else {
        reveal_strlit("lutris_config");
        lemma_reads_text(config, 1);
        lemma_is_member(""@, key, json_text(config), value, 0);
    }
}

/// The record that an import leaves is the one that forgetting it recognises,
/// and it names the config that the import became.
pub proof fn lemma_own_record_is_recognised(d: Definition, config: Seq<char>, created: u64)
    requires
        is_valid_slug(d.slug@),
        encode_utf8(record_provenance_text(d, config, created)).len() <= MAX_BYTES,
    ensures
        parsed(encode_utf8(record_provenance_text(d, config, created))) is Ok,
        is_record(
            parsed(encode_utf8(record_provenance_text(d, config, created)))->Ok_0,
            d.slug@,
        ),
        config_in(record_provenance_text(d, config, created)) == config,
{
    let keys = record_keys();
    let vs = record_values(d, config, created);
    let ts = record_members(d, config, created);
    assert forall|i: int| 0 <= i < ts.len() implies is_member(#[trigger] ts[i], keys[i], vs[i], 0) by {
        lemma_reads_record_member(d, config, created, i);
    }
    reveal_strlit("");
    lemma_reads_object(""@, ts, keys, vs, 0);
    let v = Value::Object(with_members(Map::empty(), keys, vs));
    lemma_document_reads(object_text(""@, ts), v);
    reveal_strlit("schema");
    reveal_strlit("created");
    reveal_strlit("slug");
    reveal_strlit("name");
    reveal_strlit("runner");
    reveal_strlit("exe");
    reveal_strlit("lutris_config");
    lemma_with_members(Map::empty(), keys, vs, "schema"@, 0);
    assert("slug"@ != "name"@) by {
        assert("slug"@[0] != "name"@[0]);
    }
    lemma_with_members(Map::empty(), keys, vs, "slug"@, 2);
    lemma_with_members(Map::empty(), keys, vs, "lutris_config"@, 6);
}

/// The config file a record names.
pub open spec fn config_in(text: Seq<char>) -> Seq<char> {
    match parsed(encode_utf8(text)) {
        Err(_) => seq![],
        Ok(v) => match v.string("lutris_config"@) {
            Some(c) => c,
            None => seq![],
        },
    }
}

fn config_of(text: &str) -> (out: String)
    ensures
        out@ == config_in(text@),
{
    match parse(text) {
        Err(_) => String::new(),
        Ok(record) => match record.string("lutris_config") {
            Some(c) => c,
            None => String::new(),
        },
    }
}

pub open spec fn not_slug_text(wanted: Seq<char>) -> Seq<char> {
    "'"@ + wanted
        + "' is not an import record name. Use the slug shown by `librarybridge lutris import`: \
            letters, digits, dashes and underscores only, and no path."@
}

fn not_slug(wanted: &str) -> (out: String)
    ensures
        out@ == not_slug_text(wanted@),
{
    let mut out = "'".to_owned();
    out.append(wanted);
    out.append("' is not an import record name. Use the slug shown by `librarybridge lutris \
        import`: letters, digits, dashes and underscores only, and no path.");
    out
}

pub open spec fn no_record_text(wanted: Seq<char>) -> Seq<char> {
    "LibraryBridge has no record of importing '"@ + wanted
        + "'. It will not touch entries it did not create."@
}

fn no_record(wanted: &str) -> (out: String)
    ensures
        out@ == no_record_text(wanted@),
{
    let mut out = "LibraryBridge has no record of importing '".to_owned();
    out.append(wanted);
    out.append("'. It will not touch entries it did not create.");
    out
}

pub open spec fn would_forget_text(wanted: Seq<char>, path: Seq<char>) -> Seq<char> {
    "Dry run. Would remove the import record for '"@ + wanted + "'.\n"@ + path + "\n"@
}

fn would_forget(wanted: &str, path: &str) -> (out: String)
    ensures
        out@ == would_forget_text(wanted@, path@),
{
    let mut out = "Dry run. Would remove the import record for '".to_owned();
    out.append(wanted);
    out.append("'.\n");
    out.append(path);
    out.append("\n");
    out
}

pub open spec fn config_note_text(config: Seq<char>) -> Seq<char> {
    if config.len() == 0 {
        seq![]
    } else {
        "Its config file is "@ + config + "\n"@
    }
}

fn config_note(config: &str) -> (out: String)
    ensures
        out@ == config_note_text(config@),
{
    proof {
        reveal_strlit("");
        if config@.len() == 0 {
            assert(config@ =~= ""@);
        }
    }
    if same_text(config, "") {
        String::new()
    } else {
        cat3("Its config file is ", config, "\n")
    }
}

pub open spec fn forgotten_text(wanted: Seq<char>, config: Seq<char>) -> Seq<char> {
    "Removed LibraryBridge's record of '"@ + wanted
        + "'.\n\nThe Lutris entry itself is still there. LibraryBridge does not write to \
            Lutris's\ndatabase, so removing the game is done in Lutris: right-click it and \
            remove.\n"@
        + config_note_text(config)
        + "Nothing was deleted from your game files, prefix or saves.\n"@
}

fn forgotten(wanted: &str, config: &str) -> (out: String)
    ensures
        out@ == forgotten_text(wanted@, config@),
{
    let mut out = "Removed LibraryBridge's record of '".to_owned();
    out.append(wanted);
    out.append("'.\n\nThe Lutris entry itself is still there. LibraryBridge does not write to \
        Lutris's\ndatabase, so removing the game is done in Lutris: right-click it and remove.\n");
    out.append(config_note(config).as_str());
    out.append("Nothing was deleted from your game files, prefix or saves.\n");
    out
}

/// What is wrong with a record that cannot be read.
pub open spec fn fault_in(text: Seq<char>) -> Seq<char> {
    match parsed(encode_utf8(text)) {
        Err(f) => f.text(),
        Ok(_) => seq![],
    }
}

fn fault_of(text: &str) -> (out: String)
    ensures
        out@ == fault_in(text@),
{
    match parse(text) {
        Err(e) => e,
        Ok(_) => String::new(),
    }
}

/// What is said where the run ends. `path` is the file of the record.
pub open spec fn forget_closing_text(
    o: Options,
    path: Seq<char>,
    f: ForgetFacts,
    e: ForgetEnding,
) -> Seq<char> {
    match e {
        ForgetEnding::DryRun => would_forget_text(o.entry->Some_0@, path),
        ForgetEnding::Forgotten => forgotten_text(
            o.entry->Some_0@,
            config_in(f.text->Got_0@),
        ),
        ForgetEnding::Refused(r) => match r {
            ForgetRefusal::NoEntry =>
                "forget needs --entry SLUG, as shown by `librarybridge lutris import`"@,
            ForgetRefusal::NotSlug => not_slug_text(o.entry->Some_0@),
            ForgetRefusal::Symlink => path
                + ": the record is a symlink, which LibraryBridge will not follow to delete \
                    something else."@,
            ForgetRefusal::NoRecord => no_record_text(o.entry->Some_0@),
            ForgetRefusal::Unreadable => path + ": "@ + fault_in(f.text->Got_0@),
            ForgetRefusal::NotRecord => path
                + ": this file is not a LibraryBridge import record, so it will not be removed."@,
        },
    }
}

/// Say what there is to say where the run ends.
pub fn forget_closing(o: &Options, path: &str, f: &ForgetFacts, e: ForgetEnding) -> (out: String)
    requires
        forget_next(*o, *f) == ForgetNext::Stop(e),
    ensures
        out@ == forget_closing_text(*o, path@, *f, e),
{
    let wanted = match &o.entry {
        None => {
            return "forget needs --entry SLUG, as shown by `librarybridge lutris import`".to_owned();
        },
        Some(w) => w.as_str(),
    };
    match e {
        ForgetEnding::DryRun => would_forget(wanted, path),
        ForgetEnding::Forgotten => match &f.text {
            Known::Got(text) => forgotten(wanted, config_of(text.as_str()).as_str()),
            _ => String::new(),
        },
        ForgetEnding::Refused(r) => match r {
            ForgetRefusal::NoEntry => String::new(),
            ForgetRefusal::NotSlug => not_slug(wanted),
            ForgetRefusal::Symlink => cat2(
                path,
                ": the record is a symlink, which LibraryBridge will not follow to delete something \
                    else.",
            ),
            ForgetRefusal::NoRecord => no_record(wanted),
            ForgetRefusal::Unreadable => match &f.text {
                Known::Got(text) => cat3(path, ": ", fault_of(text.as_str()).as_str()),
                _ => String::new(),
            },
            ForgetRefusal::NotRecord => cat2(
                path,
                ": this file is not a LibraryBridge import record, so it will not be removed.",
            ),
        },
    }
}

// ------------------------------------------------- what holds of forgetting

/// A slug is made of ASCII letters, digits, dashes and underscores, at least one
/// and at most eighty. Anything with another character in it is none: no slash,
/// no dot and no blank can be in one.
pub proof fn lemma_what_a_slug_is(a: Seq<char>, c: char, b: Seq<char>)
    ensures
        is_valid_slug(a + seq![c] + b) ==> ('a' <= c <= 'z') || ('A' <= c <= 'Z') || ('0' <= c
            <= '9') || c == '-' || c == '_',
        is_valid_slug(a + seq![c] + b) ==> a.len() + b.len() < 80,
        is_valid_slug(a) && is_valid_slug(b) && a.len() + b.len() < 80 && (('a' <= c <= 'z') || (
        'A' <= c <= 'Z') || ('0' <= c <= '9') || c == '-' || c == '_') ==> is_valid_slug(
            a + seq![c] + b,
        ),
        (('a' <= c <= 'z') || ('A' <= c <= 'Z') || ('0' <= c <= '9') || c == '-' || c == '_')
            ==> is_valid_slug(seq![c]),
        !is_valid_slug(seq![]),
{
    let s = a + seq![c] + b;
    assert(s[a.len() as int] == c);
    if is_valid_slug(a) && is_valid_slug(b) && a.len() + b.len() < 80 && (('a' <= c <= 'z') || ('A'
        <= c <= 'Z') || ('0' <= c <= '9') || c == '-' || c == '_') {
        assert forall|i: int| 0 <= i < s.len() implies is_ascii_alnum(#[trigger] s[i]) || s[i]
            == '-' || s[i] == '_' by {
            if i < a.len() {
                assert(s[i] == a[i]);
            } else if i > a.len() {
                assert(s[i] == b[i - a.len() - 1]);
            }
        }
    }
}

/// Whether a text is the record of an import under a slug.
pub open spec fn records(text: Seq<char>, slug: Seq<char>) -> bool {
    parsed(encode_utf8(text)) matches Ok(Value::Object(m)) && m.contains_key("schema"@)
        && m.contains_key("slug"@) && m["slug"@] == Value::Text(slug)
}

/// Forgetting is refused for the reason that is told, and for no other.
pub proof fn lemma_forget_refusals_have_a_reason(o: Options, f: ForgetFacts)
    ensures
        forget_next(o, f) == ForgetNext::Stop(ForgetEnding::Refused(ForgetRefusal::NoEntry))
            <==> o.entry is None,
        forget_next(o, f) == ForgetNext::Stop(ForgetEnding::Refused(ForgetRefusal::NotSlug))
            <==> o.entry is Some && !is_valid_slug(o.entry->Some_0@),
        forget_next(o, f) == ForgetNext::Stop(ForgetEnding::Refused(ForgetRefusal::Symlink))
            ==> f.look is Some && f.look->Some_0.symlink,
        forget_next(o, f) == ForgetNext::Stop(ForgetEnding::Refused(ForgetRefusal::NoRecord))
            ==> f.look is Some && !f.look->Some_0.file,
        forget_next(o, f) == ForgetNext::Stop(ForgetEnding::Refused(ForgetRefusal::Unreadable))
            ==> f.text is Got && parsed(encode_utf8(f.text->Got_0@)) is Err,
        forget_next(o, f) == ForgetNext::Stop(ForgetEnding::Refused(ForgetRefusal::NotRecord))
            ==> f.text is Got && !records(f.text->Got_0@, o.entry->Some_0@),
        forget_next(o, f) == ForgetNext::Stop(ForgetEnding::DryRun) ==> o.dry_run,
        forget_next(o, f) == ForgetNext::Stop(ForgetEnding::Forgotten) ==> f.remove is Got
            && !o.dry_run,
        forget_next(o, f) == ForgetNext::Failed(ForgetStep::Read) ==> f.text is Failed,
        forget_next(o, f) == ForgetNext::Failed(ForgetStep::Remove) ==> f.remove is Failed,
        forget_next(o, f) != ForgetNext::Failed(ForgetStep::Look),
{
}

/// A record of ours is forgotten: it is looked at, read and removed. On a dry run
/// it is read and left.
pub proof fn lemma_forgetting_goes_through(o: Options, f: ForgetFacts)
    requires
        o.entry is Some,
        is_valid_slug(o.entry->Some_0@),
    ensures
        f.look is None ==> forget_next(o, f) == ForgetNext::Take(ForgetStep::Look),
        f.look is Some && !f.look->Some_0.symlink && f.look->Some_0.file && f.text is NotYet
            ==> forget_next(o, f) == ForgetNext::Take(ForgetStep::Read),
        f.look is Some && !f.look->Some_0.symlink && f.look->Some_0.file && f.text is Got
            && records(f.text->Got_0@, o.entry->Some_0@) ==> {
            &&& o.dry_run ==> forget_next(o, f) == ForgetNext::Stop(ForgetEnding::DryRun)
            &&& !o.dry_run && f.remove is NotYet ==> forget_next(o, f) == ForgetNext::Take(
                ForgetStep::Remove,
            )
            &&& !o.dry_run && f.remove is Got ==> forget_next(o, f) == ForgetNext::Stop(
                ForgetEnding::Forgotten,
            )
        },
{
}

/// What is said at the end names the record by its slug or its file, and the
/// config file that is left where the record names one.
pub proof fn lemma_forget_closing_names_it(
    o: Options,
    path: Seq<char>,
    f: ForgetFacts,
    e: ForgetEnding,
)
    requires
        o.entry is Some,
    ensures
        e is DryRun ==> mentions(forget_closing_text(o, path, f, e), o.entry->Some_0@) && mentions(
            forget_closing_text(o, path, f, e),
            path,
        ),
        e is Forgotten ==> mentions(forget_closing_text(o, path, f, e), o.entry->Some_0@)
            && mentions(forget_closing_text(o, path, f, e), config_in(f.text->Got_0@)),
        e matches ForgetEnding::Refused(r) ==> (r is NotSlug || r is NoRecord ==> mentions(
            forget_closing_text(o, path, f, e),
            o.entry->Some_0@,
        )),
        e matches ForgetEnding::Refused(r) ==> (r is Symlink || r is Unreadable || r is NotRecord
            ==> mentions(forget_closing_text(o, path, f, e), path)),
{
    let w = o.entry->Some_0@;
    let whole = forget_closing_text(o, path, f, e);
    match e {
        ForgetEnding::DryRun => {
            let a = "Dry run. Would remove the import record for '"@ + w;
            let b = a + "'.\n"@;
            let c = b + path;
            lemma_mentions_piece("Dry run. Would remove the import record for '"@, w, seq![]);
            lemma_mentions_in(seq![], a, "'.\n"@, w);
            lemma_mentions_in(seq![], b, path, w);
            lemma_mentions_in(seq![], c, "\n"@, w);
            lemma_mentions_piece(b, path, seq![]);
            lemma_mentions_in(seq![], c, "\n"@, path);
        },
        ForgetEnding::Forgotten => {
            let config = config_in(f.text->Got_0@);
            let note = config_note_text(config);
            let said =
                "'.\n\nThe Lutris entry itself is still there. LibraryBridge does not write to \
                Lutris's\ndatabase, so removing the game is done in Lutris: right-click it and \
                remove.\n"@;
            let end = "Nothing was deleted from your game files, prefix or saves.\n"@;
            let a = "Removed LibraryBridge's record of '"@ + w;
            let b = a + said;
            let c = b + note;
            lemma_mentions_piece("Removed LibraryBridge's record of '"@, w, seq![]);
            lemma_mentions_in(seq![], a, said, w);
            lemma_mentions_in(seq![], b, note, w);
            lemma_mentions_in(seq![], c, end, w);
            if config.len() == 0 {
                assert(Seq::<char>::empty() + config + end =~= end);
                lemma_mentions_piece(seq![], config, end);
                lemma_mentions_in(c, end, seq![], config);
            } else {
                lemma_mentions_piece("Its config file is "@, config, "\n"@);
                lemma_mentions_in(b, note, seq![], config);
                lemma_mentions_in(seq![], c, end, config);
            }
        },
        ForgetEnding::Refused(r) => {
            lemma_mentions_piece(
                "'"@,
                w,
                "' is not an import record name. Use the slug shown by `librarybridge lutris \
                    import`: letters, digits, dashes and underscores only, and no path."@,
            );
            lemma_mentions_piece(
                "LibraryBridge has no record of importing '"@,
                w,
                "'. It will not touch entries it did not create."@,
            );
            lemma_mentions_piece(
                seq![],
                path,
                ": the record is a symlink, which LibraryBridge will not follow to delete something \
                    else."@,
            );
            lemma_mentions_piece(seq![], path, ": "@);
            lemma_mentions_in(seq![], path + ": "@, fault_in(f.text->Got_0@), path);
            lemma_mentions_piece(
                seq![],
                path,
                ": this file is not a LibraryBridge import record, so it will not be removed."@,
            );
        },
    }
}

/// The record of an import can be read again, and says which game it is of and
/// which config it became.
pub proof fn lemma_record_reads_back(d: Definition, config: Seq<char>, created: u64)
    requires
        encode_utf8(record_provenance_text(d, config, created)).len() <= MAX_BYTES,
    ensures
        parsed(encode_utf8(record_provenance_text(d, config, created))) matches Ok(v) && {
            &&& v.string("slug"@) == Some(d.slug@)
            &&& v.string("name"@) == Some(d.name@)
            &&& v.string("runner"@) == Some(d.runner@)
            &&& d.exe is Some ==> v.string("exe"@) == Some(d.exe->Some_0@)
            &&& d.exe is None ==> v.string("exe"@) == Some(Seq::<char>::empty())
            &&& v.string("lutris_config"@) == Some(config)
        },
{
    let keys = record_keys();
    let vs = record_values(d, config, created);
    let ts = record_members(d, config, created);
    assert forall|i: int| 0 <= i < ts.len() implies is_member(#[trigger] ts[i], keys[i], vs[i], 0) by {
        lemma_reads_record_member(d, config, created, i);
    }
    reveal_strlit("");
    lemma_reads_object(""@, ts, keys, vs, 0);
    let v = Value::Object(with_members(Map::empty(), keys, vs));
    lemma_document_reads(object_text(""@, ts), v);
    reveal_strlit("schema");
    reveal_strlit("created");
    reveal_strlit("slug");
    reveal_strlit("name");
    reveal_strlit("runner");
    reveal_strlit("exe");
    reveal_strlit("lutris_config");
    assert("slug"@[0] == 's' && "name"@[0] == 'n');
    lemma_with_members(Map::empty(), keys, vs, "slug"@, 2);
    lemma_with_members(Map::empty(), keys, vs, "name"@, 3);
    lemma_with_members(Map::empty(), keys, vs, "runner"@, 4);
    lemma_with_members(Map::empty(), keys, vs, "exe"@, 5);
    lemma_with_members(Map::empty(), keys, vs, "lutris_config"@, 6);
}


/// A record that is a symlink, or no file, or that cannot be read is never
/// looked into; what cannot be read is told.
pub proof fn lemma_what_is_looked_into(o: Options, f: ForgetFacts)
    requires
        o.entry is Some,
        is_valid_slug(o.entry->Some_0@),
        f.look is Some,
    ensures
        f.look->Some_0.symlink ==> forget_next(o, f) == ForgetNext::Stop(
            ForgetEnding::Refused(ForgetRefusal::Symlink),
        ),
        !f.look->Some_0.symlink && !f.look->Some_0.file ==> forget_next(o, f) == ForgetNext::Stop(
            ForgetEnding::Refused(ForgetRefusal::NoRecord),
        ),
        !f.look->Some_0.symlink && f.look->Some_0.file && f.text is Failed ==> forget_next(o, f)
            == ForgetNext::Failed(ForgetStep::Read),
        !f.look->Some_0.symlink && f.look->Some_0.file && f.text is Got && parsed(
            encode_utf8(f.text->Got_0@),
        ) is Err ==> forget_next(o, f) == ForgetNext::Stop(
            ForgetEnding::Refused(ForgetRefusal::Unreadable),
        ),
        !f.look->Some_0.symlink && f.look->Some_0.file && f.text is Got && parsed(
            encode_utf8(f.text->Got_0@),
        ) is Ok && !records(f.text->Got_0@, o.entry->Some_0@) ==> forget_next(o, f)
            == ForgetNext::Stop(ForgetEnding::Refused(ForgetRefusal::NotRecord)),
        !f.look->Some_0.symlink && f.look->Some_0.file && f.text is Got && records(
            f.text->Got_0@,
            o.entry->Some_0@,
        ) && !o.dry_run && f.remove is Failed ==> forget_next(o, f) == ForgetNext::Failed(
            ForgetStep::Remove,
        ),
{
}

} // verus!
