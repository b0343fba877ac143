//! Unix paths as text.

use vstd::prelude::*;

use crate::text::{
    cat2, cat3, chars_of, ends, ends_with, find_from, join as join_texts, joined, lemma_find_from,
    lemma_split_rejoins, lemma_views_push, same_text, split_at_char, split_char, starts_with, text_of, views,
};

verus! {

/// Whether a path starts at the root.
pub open spec fn rooted(s: Seq<char>) -> bool {
    s.len() > 0 && s[0] == '/'
}

pub fn is_absolute(path: &str) -> (yes: bool)
    ensures
        yes == rooted(path@),
{
    proof {
        reveal_strlit("/");
        if path@.len() > 0 {
            assert(path@.take(1)[0] == path@[0]);
            if path@[0] == '/' {
                assert(path@.take(1) =~= "/"@);
            }
        }
    }
    starts_with(path, "/")
}

/// The texts between the slashes of a path.
pub open spec fn pieces(s: Seq<char>) -> Seq<Seq<char>> {
    split_at_char(s, '/')
}

/// Whether the piece at a place names anything: an empty piece does not, and a
/// dot only does at the very start.
pub open spec fn names(p: Seq<Seq<char>>, i: int) -> bool {
    p[i].len() > 0 && (i == 0 || p[i] != "."@)
}

/// The last piece before `n` that names something, or -1.
pub open spec fn last_name(p: Seq<Seq<char>>, n: int) -> int
    decreases n,
{
    if n <= 0 {
        -1
    } else if names(p, n - 1) {
        n - 1
    } else {
        last_name(p, n - 1)
    }
}

/// The pieces before `n` that name something.
pub open spec fn names_of(p: Seq<Seq<char>>, n: int) -> Seq<Seq<char>>
    decreases n,
{
    if n <= 0 {
        seq![]
    } else if names(p, n - 1) {
        names_of(p, n - 1).push(p[n - 1])
    } else {
        names_of(p, n - 1)
    }
}

/// What a path names, step by step from where it starts.
pub open spec fn steps(s: Seq<char>) -> Seq<Seq<char>> {
    names_of(pieces(s), pieces(s).len() as int)
}

/// Whether two paths are the same step by step. Slashes that say nothing do
/// not count.
pub open spec fn alike(a: Seq<char>, b: Seq<char>) -> bool {
    rooted(a) == rooted(b) && steps(a) == steps(b)
}

/// The path up to a piece that names something.
pub open spec fn up_to(p: Seq<Seq<char>>, at: int, from_root: bool) -> Seq<char> {
    if at >= 0 {
        joined(p.take(at + 1), "/"@)
    } else if from_root {
        "/"@
    } else {
        seq![]
    }
}

/// The path without its last step.
pub open spec fn parent_of(s: Seq<char>) -> Option<Seq<char>> {
    let p = pieces(s);
    let k = last_name(p, p.len() as int);
    if k < 0 {
        None
    } else {
        Some(up_to(p, last_name(p, k), rooted(s)))
    }
}

/// The last step of a path, if it is a name.
pub open spec fn file_name_of(s: Seq<char>) -> Option<Seq<char>> {
    let p = pieces(s);
    let k = last_name(p, p.len() as int);
    if k < 0 || p[k] == "."@ || p[k] == ".."@ {
        None
    } else {
        Some(p[k])
    }
}

/// A path, then that path without its last step, and so on.
pub open spec fn climb(p: Seq<Seq<char>>, n: int, from_root: bool) -> Seq<Seq<char>>
    decreases n,
{
    let k = last_name(p, n);
    if n <= 0 || k < 0 || k >= n {
        seq![]
    } else {
        seq![up_to(p, last_name(p, k), from_root)] + climb(p, k, from_root)
    }
}

pub open spec fn ancestors_of(s: Seq<char>) -> Seq<Seq<char>> {
    seq![s] + climb(pieces(s), pieces(s).len() as int, rooted(s))
}

/// One path inside another. An absolute path stays what it is.
pub open spec fn under(base: Seq<char>, rest: Seq<char>) -> Seq<char> {
    if rooted(rest) {
        rest
    } else if base.len() == 0 || base.last() == '/' {
        base + rest
    } else {
        base + "/"@ + rest
    }
}

pub proof fn lemma_last_name(p: Seq<Seq<char>>, n: int)
    ensures
        n <= 0 ==> last_name(p, n) == -1,
        n > 0 ==> -1 <= last_name(p, n) < n,
        last_name(p, n) >= 0 ==> names(p, last_name(p, n)),
    decreases n,
{
    if n > 0 && !names(p, n - 1) {
        lemma_last_name(p, n - 1);
    }
}

pub fn join(base: &str, rest: &str) -> (path: String)
    ensures
        path@ == under(base@, rest@),
{
    proof {
        reveal_strlit("/");
    }
    if is_absolute(rest) {
        rest.to_owned()
    } else if same_text(base, "") || ends_with(base, "/") {
        proof {
            reveal_strlit("");
            if base@.len() > 0 {
                assert(base@.last() == '/') by {
                    assert(ends(base@, "/"@));
                    assert(base@.subrange(base@.len() - 1, base@.len() as int)[0] == "/"@[0]);
                }
            }
        }
        cat2(base, rest)
    } else {
        proof {
            reveal_strlit("");
            if base@.len() == 0 {
                assert(base@ =~= ""@);
            } else if base@.last() == '/' {
                assert(base@.subrange(base@.len() - 1, base@.len() as int) =~= "/"@);
            }
        }
        cat3(base, "/", rest)
    }
}

proof fn lemma_split_concat(s: Seq<char>, t: Seq<char>)
    ensures
        split_at_char(s + seq!['/'] + t, '/') == split_at_char(s, '/') + split_at_char(t, '/'),
    decreases s.len(),
{
    let whole = s + seq!['/'] + t;
    let at = find_from(s, '/', 0);
    lemma_find_from(s, '/', 0);
    lemma_find_from(whole, '/', 0);
    let found = find_from(whole, '/', 0);
    assert(forall|k: int| 0 <= k < s.len() ==> whole[k] == s[k]);
    assert(whole[s.len() as int] == '/');
    if found < at {
        assert(s[found] != '/');
    }
    if at < found {
        assert(whole[at] != '/');
    }
    assert(found == at);
    assert(whole.take(at) =~= s.take(at));
    if at < s.len() {
        lemma_split_concat(s.skip(at + 1), t);
        assert(whole.skip(at + 1) =~= s.skip(at + 1) + seq!['/'] + t);
        assert(split_at_char(whole, '/') =~= split_at_char(s, '/') + split_at_char(t, '/'));
    } else {
        assert(whole.skip(at + 1) =~= t);
        assert(s.take(at) =~= s);
    }
}

proof fn lemma_names_of_prefix(p: Seq<Seq<char>>, q: Seq<Seq<char>>, n: int)
    requires
        n <= p.len(),
        n <= q.len(),
        forall|k: int| 0 <= k < n ==> p[k] == q[k],
    ensures
        names_of(p, n) == names_of(q, n),
    decreases n,
{
    if n > 0 {
        lemma_names_of_prefix(p, q, n - 1);
    }
}

/// A name inside a directory is one step more than the directory.
pub proof fn lemma_steps_under(dir: Seq<char>, name: Seq<char>)
    requires
        name.len() > 0,
        name != "."@,
        forall|k: int| 0 <= k < name.len() ==> name[k] != '/',
    ensures
        rooted(under(dir, name)) == rooted(dir),
        steps(under(dir, name)) == steps(dir).push(name),
{
    reveal_strlit("/");
    lemma_find_from(name, '/', 0);
    assert(split_at_char(name, '/') == seq![name]);
    if dir.len() == 0 {
        assert(under(dir, name) =~= name);
        lemma_find_from(dir, '/', 0);
        assert(split_at_char(dir, '/') == seq![dir]);
        reveal_with_fuel(names_of, 2);
        assert(steps(name) =~= steps(dir).push(name));
    } else if dir.last() == '/' {
        let before = dir.drop_last();
        let none = Seq::<char>::empty();
        lemma_split_concat(before, name);
        lemma_split_concat(before, none);
        lemma_find_from(none, '/', 0);
        assert(split_at_char(none, '/') == seq![none]);
        assert(dir =~= before + seq!['/'] + none);
        assert(under(dir, name) =~= before + seq!['/'] + name);
        let p = pieces(before);
        let n = p.len() as int;
        assert(pieces(dir) =~= p.push(none));
        assert(pieces(under(dir, name)) =~= p.push(name));
        lemma_names_of_prefix(p, p.push(none), n);
        lemma_names_of_prefix(p, p.push(name), n);
        lemma_split_len(before);
    } else {
        lemma_split_concat(dir, name);
        assert("/"@ =~= seq!['/']);
        let p = pieces(dir);
        let n = p.len() as int;
        assert(pieces(under(dir, name)) =~= p.push(name));
        lemma_names_of_prefix(p, p.push(name), n);
    }
}

proof fn lemma_split_len(s: Seq<char>)
    ensures
        split_at_char(s, '/').len() > 0,
{
}

fn names_something(p: &Vec<String>, i: usize) -> (yes: bool)
    requires
        i < p@.len(),
    ensures
        yes == names(views(p@), i as int),
{
    proof {
        reveal_strlit("");
        assert(views(p@)[i as int] == p@[i as int]@);
        if p@[i as int]@.len() == 0 {
            assert(p@[i as int]@ =~= ""@);
        }
    }
    !same_text(p[i].as_str(), "") && (i == 0 || !same_text(p[i].as_str(), "."))
}

/// One past the last piece before `n` that names something, or zero.
fn find_last_name(p: &Vec<String>, n: usize) -> (after: usize)
    requires
        n <= p@.len(),
    ensures
        after == last_name(views(p@), n as int) + 1,
        after <= n,
{
    let mut after = n;
    while after > 0 && !names_something(p, after - 1)
        invariant
            after <= n <= p@.len(),
            last_name(views(p@), n as int) == last_name(views(p@), after as int),
        decreases after,
    {
        after = after - 1;
    }
    proof {
        lemma_last_name(views(p@), after as int);
    }
    after
}

fn steps_of(path: &str) -> (found: Vec<String>)
    ensures
        views(found@) == steps(path@),
{
    let p = split_char(path, '/');
    let mut found: Vec<String> = Vec::new();
    assert(views(found@) =~= seq![]);
    for i in 0..p.len()
        invariant
            views(p@) == pieces(path@),
            views(found@) == names_of(views(p@), i as int),
    {
        if names_something(&p, i) {
            let piece = p[i].clone();
            proof {
                lemma_views_push(found@, piece);
            }
            found.push(piece);
        }
    }
    found
}

/// Whether two lists hold the same texts in the same order.
pub fn same_texts(a: &Vec<String>, b: &Vec<String>) -> (same: bool)
    ensures
        same == (views(a@) == views(b@)),
{
    if a.len() != b.len() {
        assert(views(a@).len() != views(b@).len());
        return false;
    }
    for i in 0..a.len()
        invariant
            a@.len() == b@.len(),
            forall|k: int| 0 <= k < i ==> a@[k]@ == b@[k]@,
    {
        if !same_text(a[i].as_str(), b[i].as_str()) {
            assert(views(a@)[i as int] != views(b@)[i as int]);
            return false;
        }
    }
    assert(views(a@) =~= views(b@));
    true
}

/// Whether two paths name the same thing, step by step.
pub fn same_path(a: &str, b: &str) -> (same: bool)
    ensures
        same == alike(a@, b@),
{
    is_absolute(a) == is_absolute(b) && same_texts(&steps_of(a), &steps_of(b))
}

fn prefix_text(p: &Vec<String>, after: usize, from_root: bool) -> (text: String)
    requires
        after <= p@.len(),
    ensures
        text@ == up_to(views(p@), after - 1, from_root),
{
    if after > 0 {
        let mut head: Vec<String> = Vec::new();
        assert(views(head@) =~= views(p@).take(0));
        for i in 0..after
            invariant
                after <= p@.len(),
                views(head@) == views(p@).take(i as int),
        {
            let piece = p[i].clone();
            proof {
                lemma_views_push(head@, piece);
                assert(views(p@).take(i + 1) =~= views(p@).take(i as int).push(piece@));
            }
            head.push(piece);
        }
        join_texts(&head, "/")
    } else if from_root {
        "/".to_owned()
    } else {
        String::new()
    }
}

pub fn parent(path: &str) -> (above: Option<String>)
    ensures
        match parent_of(path@) {
            Some(t) => above matches Some(s) && s@ == t,
            None => above is None,
        },
{
    let p = split_char(path, '/');
    let n = find_last_name(&p, p.len());
    if n == 0 {
        None
    } else {
        let m = find_last_name(&p, n - 1);
        Some(prefix_text(&p, m, is_absolute(path)))
    }
}

/// The last component of a path, which is what a call relative to an open
/// directory takes.
pub fn last_component(path: &str) -> (name: Option<String>)
    ensures
        match file_name_of(path@) {
            Some(t) => name matches Some(s) && s@ == t,
            None => name is None,
        },
{
    let p = split_char(path, '/');
    let n = find_last_name(&p, p.len());
    if n == 0 || same_text(p[n - 1].as_str(), ".") || same_text(p[n - 1].as_str(), "..") {
        None
    } else {
        Some(p[n - 1].clone())
    }
}

/// A path, then that path without its last step, and so on.
pub fn ancestors(path: &str) -> (all: Vec<String>)
    ensures
        views(all@) == ancestors_of(path@),
{
    let p = split_char(path, '/');
    let from_root = is_absolute(path);
    let mut all: Vec<String> = Vec::new();
    all.push(path.to_owned());
    let mut n = p.len();
    let ghost whole = climb(views(p@), p@.len() as int, from_root);
    proof {
        assert(views(all@) =~= seq![path@]);
        assert(views(all@) + whole =~= seq![path@] + whole);
    }
    loop
        invariant_except_break
            n <= p@.len(),
            views(p@) == pieces(path@),
            from_root == rooted(path@),
            views(all@) + climb(views(p@), n as int, from_root) == ancestors_of(path@),
        ensures
            views(all@) == ancestors_of(path@),
        decreases n,
    {
        let k = find_last_name(&p, n);
        let ghost rest = climb(views(p@), n as int, from_root);
        if k == 0 {
            assert(rest.len() == 0);
            assert(views(all@) =~= views(all@) + rest);
            break;
        }
        let m = find_last_name(&p, k - 1);
        let text = prefix_text(&p, m, from_root);
        proof {
            lemma_views_push(all@, text);
            assert(views(all@) + rest =~= views(all@).push(text@) + climb(
                views(p@),
                k - 1,
                from_root,
            ));
        }
        all.push(text);
        n = k - 1;
    }
    all
}

/// The first of a path and what is above it that is there, or the root.
pub open spec fn first_there(all: Seq<Seq<char>>, there: Seq<bool>) -> Seq<char>
    decreases all.len(),
{
    if all.len() == 0 || there.len() == 0 {
        "/"@
    } else if there[0] {
        all[0]
    } else {
        first_there(all.skip(1), there.skip(1))
    }
}

/// The nearest existing directory at or above a path. `there` says of the path
/// and of each of its ancestors in turn whether it exists.
pub fn existing_ancestor(path: &str, there: &Vec<bool>) -> (found: String)
    ensures
        found@ == first_there(ancestors_of(path@), there@),
{
    let all = ancestors(path);
    let mut i: usize = 0;
    assert(views(all@).skip(0) =~= views(all@));
    assert(there@.skip(0) =~= there@);
    while i < all.len() && i < there.len()
        invariant
            i <= all@.len(),
            i <= there@.len(),
            first_there(views(all@).skip(i as int), there@.skip(i as int)) == first_there(
                views(all@),
                there@,
            ),
            views(all@) == ancestors_of(path@),
        decreases all@.len() - i,
    {
        assert(views(all@).skip(i as int)[0] == all@[i as int]@);
        if there[i] {
            return all[i].clone();
        }
        assert(views(all@).skip(i as int).skip(1) =~= views(all@).skip(i + 1));
        assert(there@.skip(i as int).skip(1) =~= there@.skip(i + 1));
        i = i + 1;
    }
    "/".to_owned()
}

// ----------------------------------------------------------- file extensions

/// The last place of a character in a text, or -1.
pub open spec fn last_of(s: Seq<char>, c: char) -> int
    decreases s.len(),
{
    if s.len() == 0 {
        -1
    } else if s.last() == c {
        s.len() - 1
    } else {
        last_of(s.drop_last(), c)
    }
}

pub fn find_last(chars: &Vec<char>, c: char) -> (after: usize)
    ensures
        after == last_of(chars@, c) + 1,
        after <= chars@.len(),
        after > 0 ==> chars@[after - 1] == c,
{
    let mut n = chars.len();
    assert(chars@.take(n as int) =~= chars@);
    while n > 0
        invariant
            n <= chars@.len(),
            last_of(chars@.take(n as int), c) == last_of(chars@, c),
        decreases n,
    {
        assert(chars@.take(n as int).last() == chars@[n - 1]);
        if chars[n - 1] == c {
            return n;
        }
        assert(chars@.take(n as int).drop_last() =~= chars@.take(n - 1));
        n = n - 1;
    }
    0
}

/// What follows the last dot of a path's last step.
pub open spec fn extension_of(s: Seq<char>) -> Option<Seq<char>> {
    match file_name_of(s) {
        Some(f) if last_of(f, '.') > 0 => Some(f.skip(last_of(f, '.') + 1)),
        _ => None,
    }
}

/// What comes before it.
pub open spec fn stem_of(s: Seq<char>) -> Seq<char> {
    match file_name_of(s) {
        Some(f) => if last_of(f, '.') > 0 {
            f.take(last_of(f, '.'))
        } else {
            f
        },
        None => seq![],
    }
}

/// Whether a path ends in an extension.
pub fn has_extension(path: &str, extension: &str) -> (yes: bool)
    ensures
        yes == (extension_of(path@) == Some(extension@)),
{
    match last_component(path) {
        None => false,
        Some(name) => {
            let chars = chars_of(name.as_str());
            let dot = find_last(&chars, '.');
            if dot <= 1 {
                false
            } else {
                let tail = text_of(&chars, dot, chars.len());
                assert(tail@ =~= name@.skip(dot as int));
                same_text(tail.as_str(), extension)
            }
        },
    }
}

/// The last step of a path without its extension, empty where there is none.
pub fn stem(path: &str) -> (text: String)
    ensures
        text@ == stem_of(path@),
{
    match last_component(path) {
        None => String::new(),
        Some(name) => {
            let chars = chars_of(name.as_str());
            let dot = find_last(&chars, '.');
            if dot <= 1 {
                name
            } else {
                let head = text_of(&chars, 0, dot - 1);
                assert(head@ =~= name@.take(dot - 1));
                head
            }
        },
    }
}

// ------------------------------------------------------ what holds of paths

proof fn lemma_names_of_concat(p: Seq<Seq<char>>, q: Seq<Seq<char>>, n: int)
    requires
        p.len() > 0,
        0 <= n <= q.len(),
    ensures
        names_of(p + q, p.len() + n) == names_of(p, p.len() as int) + names_of_after(q, n),
    decreases n,
{
    if n == 0 {
        lemma_names_of_prefix(p + q, p, p.len() as int);
        assert(names_of(p, p.len() as int) + names_of_after(q, 0) =~= names_of(p, p.len() as int));
    } else {
        lemma_names_of_concat(p, q, n - 1);
        assert((p + q)[p.len() + n - 1] == q[n - 1]);
        assert(names_of(p + q, p.len() + n) =~= names_of(p, p.len() as int) + names_of_after(q, n));
    }
}

/// The pieces before `n` that name something where others stand before them: no
/// dot does.
spec fn names_of_after(q: Seq<Seq<char>>, n: int) -> Seq<Seq<char>>
    decreases n,
{
    if n <= 0 {
        seq![]
    } else if q[n - 1].len() > 0 && q[n - 1] != "."@ {
        names_of_after(q, n - 1).push(q[n - 1])
    } else {
        names_of_after(q, n - 1)
    }
}

/// More slashes than one between two steps, a slash at the end and a dot as a
/// step say nothing. What is the same otherwise is the same path.
pub proof fn lemma_what_says_nothing(a: Seq<char>, b: Seq<char>)
    requires
        a.len() > 0,
    ensures
        alike(a + seq!['/'], a),
        alike(a + seq!['/', '/'] + b, a + seq!['/'] + b),
        alike(a + seq!['/', '.', '/'] + b, a + seq!['/'] + b),
{
    reveal_strlit(".");
    let none = Seq::<char>::empty();
    let dot = seq!['.'];
    lemma_find_from(none, '/', 0);
    lemma_find_from(dot, '/', 0);
    assert(split_at_char(none, '/') == seq![none]);
    assert(split_at_char(dot, '/') == seq![dot]);
    assert("."@ =~= dot);
    let p = pieces(a);
    let q = pieces(b);
    lemma_split_len(a);
    lemma_split_len(b);
    lemma_split_concat(a, none);
    assert(a + seq!['/'] + none =~= a + seq!['/']);
    lemma_names_of_concat(p, seq![none], 1);
    reveal_with_fuel(names_of_after, 2);
    assert(steps(a + seq!['/']) =~= steps(a));
    lemma_split_concat(a, b);
    lemma_names_of_concat(p, q, q.len() as int);
    lemma_split_concat(a + seq!['/'], b);
    assert(a + seq!['/'] + seq!['/'] + b =~= a + seq!['/', '/'] + b);
    let r = p + seq![none];
    lemma_names_of_concat(r, q, q.len() as int);
    assert(names_of(r, r.len() as int) =~= steps(a));
    assert(steps(a + seq!['/', '/'] + b) =~= steps(a + seq!['/'] + b));
    lemma_split_concat(a, dot);
    lemma_split_concat(a + seq!['/'] + dot, b);
    assert(a + seq!['/'] + dot + seq!['/'] + b =~= a + seq!['/', '.', '/'] + b);
    let d = p + seq![dot];
    lemma_names_of_concat(p, seq![dot], 1);
    lemma_names_of_concat(d, q, q.len() as int);
    assert(names_of(d, d.len() as int) =~= steps(a));
    assert(steps(a + seq!['/', '.', '/'] + b) =~= steps(a + seq!['/'] + b));
}

/// Two names in one directory are two paths, and so is a name in two
/// directories. A path from the root is never the same as one that is not.
pub proof fn lemma_names_tell_paths_apart(
    dir: Seq<char>,
    other: Seq<char>,
    a: Seq<char>,
    b: Seq<char>,
)
    requires
        a.len() > 0 && a != "."@ && !a.contains('/'),
        b.len() > 0 && b != "."@ && !b.contains('/'),
    ensures
        alike(under(dir, a), under(other, b)) <==> a == b && alike(dir, other),
        !alike(dir, under(dir, a)),
        forall|s: Seq<char>, t: Seq<char>|
            s.len() > 0 && s[0] == '/' && (t.len() == 0 || t[0] != '/') ==> !#[trigger] alike(s, t),
{
    assert forall|k: int| 0 <= k < a.len() implies a[k] != '/' by {}
    assert forall|k: int| 0 <= k < b.len() implies b[k] != '/' by {}
    lemma_steps_under(dir, a);
    lemma_steps_under(other, b);
    let x = steps(dir).push(a);
    let y = steps(other).push(b);
    if x == y {
        assert(x.last() == a && y.last() == b);
        assert(steps(dir) =~= x.drop_last());
        assert(steps(other) =~= y.drop_last());
    }
    assert(x.len() != steps(dir).len());
}

proof fn lemma_last_name_skips(p: Seq<Seq<char>>, n: int, k: int)
    requires
        0 <= k < n,
        names(p, k),
        forall|j: int| k < j < n ==> !#[trigger] names(p, j),
    ensures
        last_name(p, n) == k,
    decreases n - k,
{
    if k < n - 1 {
        assert(!names(p, n - 1));
        lemma_last_name_skips(p, n - 1, k);
    }
}

/// Whether a path ends in a name: in no slash and no dot that says nothing.
pub open spec fn ends_in_a_name(s: Seq<char>) -> bool {
    pieces(s).last().len() > 0 && pieces(s).last() != "."@
}

/// A name in a directory is the last component of the two together, and the
/// directory is what is above it. The directories above it are those above the
/// directory.
pub proof fn lemma_name_and_directory(dir: Seq<char>, name: Seq<char>)
    requires
        ends_in_a_name(dir),
        name.len() > 0,
        name != "."@,
        !name.contains('/'),
    ensures
        parent_of(dir + seq!['/'] + name) == Some(dir),
        name != ".."@ ==> file_name_of(dir + seq!['/'] + name) == Some(name),
        name == ".."@ ==> file_name_of(dir + seq!['/'] + name) is None,
        ancestors_of(dir + seq!['/'] + name) == seq![dir + seq!['/'] + name] + ancestors_of(dir),
{
    reveal_strlit("/");
    assert("/"@ =~= seq!['/']);
    assert forall|k: int| 0 <= k < name.len() implies name[k] != '/' by {}
    lemma_find_from(name, '/', 0);
    assert(split_at_char(name, '/') == seq![name]);
    let s = dir + seq!['/'] + name;
    let d = pieces(dir);
    lemma_split_len(dir);
    lemma_split_concat(dir, name);
    let p = pieces(s);
    let n = p.len() as int;
    assert(p =~= d.push(name));
    assert(names(p, n - 1));
    lemma_last_name_skips(p, n, n - 1);
    assert(p[n - 2] == d.last());
    assert(names(p, n - 2));
    lemma_last_name_skips(p, n - 1, n - 2);
    assert(p.take(n - 1) =~= d);
    lemma_split_rejoins(dir, '/');
    assert(up_to(p, n - 2, rooted(s)) == dir);
    if dir.len() == 0 {
        lemma_find_from(dir, '/', 0);
        assert(d =~= seq![dir]);
    }
    assert(rooted(s) == rooted(dir));
    lemma_climb_prefix(p, d, n - 1, rooted(s));
    assert(ancestors_of(s) =~= seq![s] + ancestors_of(dir));
}

proof fn lemma_last_name_prefix(p: Seq<Seq<char>>, q: Seq<Seq<char>>, n: int)
    requires
        n <= p.len(),
        n <= q.len(),
        forall|k: int| 0 <= k < n ==> p[k] == q[k],
    ensures
        last_name(p, n) == last_name(q, n),
    decreases n,
{
    if n > 0 {
        assert(p[n - 1] == q[n - 1]);
        lemma_last_name_prefix(p, q, n - 1);
    }
}

proof fn lemma_climb_prefix(p: Seq<Seq<char>>, q: Seq<Seq<char>>, n: int, from_root: bool)
    requires
        n <= p.len(),
        n <= q.len(),
        forall|k: int| 0 <= k < n ==> p[k] == q[k],
    ensures
        climb(p, n, from_root) == climb(q, n, from_root),
    decreases n,
{
    lemma_last_name_prefix(p, q, n);
    lemma_last_name(p, n);
    let k = last_name(p, n);
    if n > 0 && k >= 0 {
        lemma_last_name_prefix(p, q, k);
        lemma_last_name(p, k);
        let j = last_name(p, k);
        if j >= 0 {
            assert(p.take(j + 1) =~= q.take(j + 1));
        }
        lemma_climb_prefix(p, q, k, from_root);
    }
}

/// The first path that is there is told, and the root where none is.
pub proof fn lemma_nearest_is_found(all: Seq<Seq<char>>, there: Seq<bool>, i: int)
    requires
        0 <= i <= all.len(),
        i <= there.len(),
        forall|j: int| 0 <= j < i ==> !#[trigger] there[j],
        i < all.len() && i < there.len() ==> there[i],
    ensures
        i < all.len() && i < there.len() ==> first_there(all, there) == all[i],
        i == all.len() || i == there.len() ==> first_there(all, there) == "/"@,
    decreases i,
{
    if i > 0 {
        assert(!there[0]);
        let rest = there.skip(1);
        assert forall|j: int| 0 <= j < i - 1 implies !#[trigger] rest[j] by {
            assert(rest[j] == there[j + 1]);
        }
        lemma_nearest_is_found(all.skip(1), rest, i - 1);
    }
}

proof fn lemma_last_of(s: Seq<char>, c: char, tail: Seq<char>)
    requires
        !tail.contains(c),
    ensures
        last_of(s + seq![c] + tail, c) == s.len(),
        last_of(tail, c) == -1,
    decreases tail.len(),
{
    let whole = s + seq![c] + tail;
    if tail.len() == 0 {
        assert(whole.last() == c);
    } else {
        let rest = tail.drop_last();
        assert(tail.contains(tail.last()));
        assert(!rest.contains(c)) by {
            if rest.contains(c) {
                let k = choose|k: int| 0 <= k < rest.len() && rest[k] == c;
                assert(tail[k] == c);
            }
        }
        lemma_last_of(s, c, rest);
        assert(whole.drop_last() =~= s + seq![c] + rest);
        assert(whole.last() == tail.last());
    }
}

/// The extension of a file is what stands behind the last dot of its name, and
/// the stem is what stands before it. A name with no dot, or with none but the
/// one it starts with, has no extension and is its own stem.
pub proof fn lemma_extension_and_stem(path: Seq<char>, a: Seq<char>, b: Seq<char>)
    requires
        !b.contains('.'),
    ensures
        a.len() > 0 && file_name_of(path) == Some(a + seq!['.'] + b) ==> extension_of(path) == Some(b)
            && stem_of(path) == a,
        file_name_of(path) == Some(b) ==> extension_of(path) is None && stem_of(path) == b,
        file_name_of(path) == Some(seq!['.'] + b) ==> extension_of(path) is None && stem_of(path)
            == seq!['.'] + b,
        file_name_of(path) is None ==> extension_of(path) is None && stem_of(path).len() == 0,
{
    lemma_last_of(a, '.', b);
    lemma_last_of(seq![], '.', b);
    let f = a + seq!['.'] + b;
    assert(f.skip(a.len() as int + 1) =~= b);
    assert(f.take(a.len() as int) =~= a);
    assert(Seq::<char>::empty() + seq!['.'] + b =~= seq!['.'] + b);
}

/// A path inside another is the two with one slash between them. A path from the
/// root stays what it is.
pub proof fn lemma_inside(base: Seq<char>, rest: Seq<char>)
    ensures
        rest.len() > 0 && rest[0] == '/' ==> under(base, rest) == rest,
        !(rest.len() > 0 && rest[0] == '/') && base.len() > 0 && base.last() != '/' ==> under(
            base,
            rest,
        ) == base + seq!['/'] + rest && under(base + seq!['/'], rest) == base + seq!['/'] + rest,
        !(rest.len() > 0 && rest[0] == '/') && base.len() == 0 ==> under(base, rest) == rest,
{
    reveal_strlit("/");
    assert("/"@ =~= seq!['/']);
    if base.len() == 0 {
        assert(base + rest =~= rest);
    }
    assert((base + seq!['/']).last() == '/');
}

/// A name alone is in the directory the path starts from, and a name behind a
/// slash is in the root. Neither has the root or nothing at all a parent or a
/// last component. A slash behind a path makes no difference to either.
pub proof fn lemma_parents_at_the_top(s: Seq<char>, name: Seq<char>)
    requires
        name.len() > 0,
        name != "."@,
        name != ".."@,
        !name.contains('/'),
        ends_in_a_name(s),
    ensures
        parent_of(name) == Some(Seq::<char>::empty()),
        file_name_of(name) == Some(name),
        parent_of(seq!['/'] + name) == Some("/"@),
        file_name_of(seq!['/'] + name) == Some(name),
        parent_of(seq!['/']) is None,
        file_name_of(seq!['/']) is None,
        parent_of(seq![]) is None,
        parent_of(s + seq!['/']) == parent_of(s),
        file_name_of(s + seq!['/']) == file_name_of(s),
{
    let none = Seq::<char>::empty();
    assert forall|k: int| 0 <= k < name.len() implies name[k] != '/' by {}
    lemma_find_from(name, '/', 0);
    lemma_find_from(none, '/', 0);
    assert(pieces(name) == seq![name]);
    assert(pieces(none) == seq![none]);
    reveal_with_fuel(last_name, 3);
    lemma_split_concat(none, name);
    assert(none + seq!['/'] + name =~= seq!['/'] + name);
    assert(pieces(seq!['/'] + name) =~= seq![none, name]);
    lemma_split_concat(none, none);
    assert(none + seq!['/'] + none =~= seq!['/']);
    assert(pieces(seq!['/']) =~= seq![none, none]);
    assert(!rooted(name));
    let p = pieces(s);
    let n = p.len() as int;
    lemma_split_len(s);
    lemma_split_concat(s, none);
    assert(s + seq!['/'] + none =~= s + seq!['/']);
    let q = pieces(s + seq!['/']);
    assert(q =~= p.push(none));
    assert(names(p, n - 1));
    assert(names(q, n - 1));
    assert(!names(q, n));
    lemma_last_name_skips(p, n, n - 1);
    lemma_last_name_skips(q, n + 1, n - 1);
    lemma_last_name_prefix(p, q, n - 1);
    lemma_last_name(p, n - 1);
    let j = last_name(p, n - 1);
    if j >= 0 {
        assert(p.take(j + 1) =~= q.take(j + 1));
    }
    if s.len() == 0 {
        assert(pieces(s) =~= seq![s]);
    }
    assert(rooted(s + seq!['/']) == rooted(s));
}

} // verus!
