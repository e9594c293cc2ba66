//! Unix paths as text.

use vstd::prelude::*;
use vstd::string::StringExecFns;

use crate::text::{
    first_index, lemma_first_index, lemma_first_index_is, push_char, same_text, text_between,
    to_chars,
};

verus! {

/// `t` cut at every slash.
pub open spec fn pieces(t: Seq<char>) -> Seq<Seq<char>>
    decreases t.len(),
    via pieces_decreases
{
    let n = first_index(t, '/');
    if n >= t.len() {
        seq![t]
    } else {
        seq![t.take(n)] + pieces(t.skip(n + 1))
    }
}

#[via_fn]
proof fn pieces_decreases(t: Seq<char>) {
    lemma_first_index(t, '/');
}

/// Whether a piece names something: it is not empty and not `.`.
pub open spec fn names_something(piece: Seq<char>) -> bool {
    piece.len() > 0 && piece != "."@
}

/// The pieces that name something, in order.
pub open spec fn named(ps: Seq<Seq<char>>) -> Seq<Seq<char>>
    decreases ps.len(),
{
    if ps.len() == 0 {
        Seq::empty()
    } else if names_something(ps.first()) {
        seq![ps.first()] + named(ps.drop_first())
    } else {
        named(ps.drop_first())
    }
}

/// Whether a path starts at the root.
pub open spec fn is_rooted(path: Seq<char>) -> bool {
    path.len() > 0 && path[0] == '/'
}

/// The components of a path. The root is a component of its own, written `/`. A
/// `.` counts only at the front of a path that does not start at the root.
pub open spec fn components(path: Seq<char>) -> Seq<Seq<char>> {
    let ps = pieces(path);
    if is_rooted(path) {
        seq!["/"@] + named(ps)
    } else if ps.first() == "."@ {
        seq!["."@] + named(ps.drop_first())
    } else {
        named(ps)
    }
}

/// Whether the components of `path` begin with those of `root`.
pub open spec fn under(path: Seq<char>, root: Seq<char>) -> bool {
    let p = components(path);
    let r = components(root);
    r.len() <= p.len() && p.take(r.len() as int) == r
}

/// Whether a path starts at the root.
pub fn is_absolute(path: &str) -> (r: bool)
    ensures
        r == is_rooted(path@),
{
    let chars = to_chars(path);
    chars.len() > 0 && chars[0] == '/'
}

fn split_pieces(path: &str) -> (r: Vec<String>)
    ensures
        r.deep_view() == pieces(path@),
{
    let chars = to_chars(path);
    let mut out: Vec<String> = Vec::new();
    let mut start: usize = 0;
    let mut i: usize = 0;
    assert(path@.skip(0) =~= path@);
    assert(out.deep_view() + pieces(path@.skip(0)) =~= pieces(path@));
    while i < chars.len()
        invariant
            chars@ == path@,
            start <= i <= chars@.len(),
            forall|k: int| start <= k < i ==> chars@[k] != '/',
            out.deep_view() + pieces(path@.skip(start as int)) == pieces(path@),
        decreases chars@.len() - i,
    {
        if chars[i] == '/' {
            let ghost rest = path@.skip(start as int);
            let ghost before = out.deep_view();
            let piece = text_between(&chars, start, i);
            proof {
                assert forall|k: int| 0 <= k < i - start implies rest[k] != '/' by {
                    assert(rest[k] == chars@[start + k]);
                }
                lemma_first_index_is(rest, '/', i - start);
                assert(piece@ =~= rest.take(i - start));
                assert(rest.skip(i - start + 1) =~= path@.skip(i + 1));
            }
            out.push(piece);
            assert(out.deep_view() =~= before.push(piece@));
            assert(out.deep_view() + pieces(path@.skip(i + 1)) =~= before + pieces(rest));
            start = i + 1;
        }
        i += 1;
    }
    let ghost rest = path@.skip(start as int);
    let ghost before = out.deep_view();
    let piece = text_between(&chars, start, chars.len());
    proof {
        assert(piece@ =~= rest);
        assert forall|k: int| 0 <= k < rest.len() implies rest[k] != '/' by {
            assert(rest[k] == chars@[start + k]);
        }
        lemma_first_index_is(rest, '/', rest.len() as int);
    }
    out.push(piece);
    assert(out.deep_view() =~= before + pieces(rest));
    out
}

/// The components of a path.
pub fn split_components(path: &str) -> (r: Vec<String>)
    ensures
        r.deep_view() == components(path@),
{
    let ps = split_pieces(path);
    let ghost views = ps.deep_view();
    proof {
        lemma_pieces_not_empty(path@);
    }
    let mut out: Vec<String> = Vec::new();
    let mut i: usize = 0;
    if is_absolute(path) {
        out.push("/".to_owned());
    } else if same_text(ps[0].as_str(), ".") {
        out.push(".".to_owned());
        i = 1;
    }
    assert(views.skip(0) =~= views);
    assert(views.skip(1) =~= views.drop_first());
    assert(out.deep_view() + named(views.skip(i as int)) =~= components(path@));
    while i < ps.len()
        invariant
            views == ps.deep_view(),
            i <= ps@.len(),
            out.deep_view() + named(views.skip(i as int)) == components(path@),
        decreases ps@.len() - i,
    {
        let ghost rest = views.skip(i as int);
        let ghost before = out.deep_view();
        assert(rest.first() == ps@[i as int]@);
        assert(rest.drop_first() =~= views.skip(i + 1));
        if !ps[i].as_str().is_empty() && !same_text(ps[i].as_str(), ".") {
            out.push(ps[i].clone());
            assert(out.deep_view() =~= before.push(rest.first()));
            assert(out.deep_view() + named(views.skip(i + 1)) =~= before + named(rest));
        }
        i += 1;
    }
    assert(out.deep_view() =~= out.deep_view() + named(views.skip(views.len() as int)));
    out
}

proof fn lemma_pieces_not_empty(t: Seq<char>)
    ensures
        pieces(t).len() > 0,
{
}

/// Whether the components of `path` begin with those of `root`.
pub fn starts_with(path: &str, root: &str) -> (r: bool)
    ensures
        r == under(path@, root@),
{
    let p = split_components(path);
    let q = split_components(root);
    if q.len() > p.len() {
        return false;
    }
    let ghost pv = components(path@);
    let ghost qv = components(root@);
    for i in 0..q.len()
        invariant
            pv == components(path@),
            qv == components(root@),
            p.deep_view() == pv,
            q.deep_view() == qv,
            q@.len() <= p@.len(),
            forall|k: int| 0 <= k < i ==> pv[k] == qv[k],
    {
        assert(pv[i as int] == p@[i as int]@ && qv[i as int] == q@[i as int]@);
        if !same_text(p[i].as_str(), q[i].as_str()) {
            assert(pv.take(qv.len() as int)[i as int] != qv[i as int]);
            return false;
        }
    }
    assert(pv.take(qv.len() as int) =~= qv);
    true
}

/// Whether `path` is under one of `roots`.
pub open spec fn under_any(path: Seq<char>, roots: Seq<Seq<char>>) -> bool {
    exists|i: int| 0 <= i < roots.len() && under(path, #[trigger] roots[i])
}

/// Whether `path` is under one of `roots`.
pub fn starts_with_any(path: &str, roots: &Vec<String>) -> (r: bool)
    ensures
        r == under_any(path@, roots.deep_view()),
{
    for i in 0..roots.len()
        invariant
            forall|k: int| 0 <= k < i ==> !under(path@, #[trigger] roots.deep_view()[k]),
    {
        assert(roots.deep_view()[i as int] == roots@[i as int]@);
        if starts_with(path, roots[i].as_str()) {
            assert(under(path@, roots.deep_view()[i as int]));
            return true;
        }
    }
    false
}

/// The last name of a path, or no text where it ends at the root, in `.` or in
/// `..`.
pub open spec fn last_name(path: Seq<char>) -> Seq<char> {
    let c = components(path);
    if c.len() == 0 || c.last() == "/"@ || c.last() == "."@ || c.last() == ".."@ {
        Seq::empty()
    } else {
        c.last()
    }
}

/// The last name of a path.
pub fn file_name(path: &str) -> (r: String)
    ensures
        r@ == last_name(path@),
{
    let c = split_components(path);
    if c.len() == 0 {
        return String::new();
    }
    let last = c[c.len() - 1].as_str();
    assert(components(path@).last() == last@);
    if same_text(last, "/") || same_text(last, ".") || same_text(last, "..") {
        return String::new();
    }
    last.to_owned()
}

/// `name` in the directory `dir`. A name that starts at the root stands for
/// itself.
pub open spec fn joined_path(dir: Seq<char>, name: Seq<char>) -> Seq<char> {
    if is_rooted(name) || dir.len() == 0 {
        name
    } else if dir.last() == '/' {
        dir + name
    } else {
        dir.push('/') + name
    }
}

/// `name` in the directory `dir`.
pub fn join_path(dir: &str, name: &str) -> (r: String)
    ensures
        r@ == joined_path(dir@, name@),
{
    let chars = to_chars(dir);
    if is_absolute(name) || chars.len() == 0 {
        return name.to_owned();
    }
    let mut out = dir.to_owned();
    if chars[chars.len() - 1] != '/' {
        push_char(&mut out, '/');
    }
    out.append(name);
    out
}

/// `t` without the characters behind its last slash.
pub open spec fn without_name(t: Seq<char>) -> Seq<char>
    decreases t.len(),
{
    if t.len() == 0 || t.last() == '/' {
        t
    } else {
        without_name(t.drop_last())
    }
}

/// The directory that holds `path`. The root is its own.
pub open spec fn parent_of(path: Seq<char>) -> Seq<char> {
    let dir = without_name(path);
    if dir.len() > 1 {
        dir.drop_last()
    } else {
        dir
    }
}

/// `path` after `n` steps up.
pub open spec fn climbed(path: Seq<char>, n: nat) -> Seq<char>
    decreases n,
{
    if n == 0 {
        path
    } else {
        climbed(parent_of(path), (n - 1) as nat)
    }
}

/// The directory that holds `path`.
fn parent_path(path: &str) -> (r: String)
    ensures
        r@ == parent_of(path@),
{
    let chars = to_chars(path);
    let mut n: usize = chars.len();
    assert(chars@.take(n as int) =~= path@);
    while n > 0 && chars[n - 1] != '/'
        invariant
            n <= chars@.len(),
            chars@ == path@,
            without_name(chars@.take(n as int)) == without_name(path@),
        decreases n,
    {
        assert(chars@.take(n as int).drop_last() =~= chars@.take(n - 1));
        n -= 1;
    }
    if n > 1 {
        n -= 1;
        assert(chars@.take(n + 1).drop_last() =~= chars@.take(n as int));
    }
    assert(chars@.subrange(0, n as int) =~= chars@.take(n as int));
    text_between(&chars, 0, n)
}

/// Takes `n` steps up from `path`.
pub fn climb(path: &str, n: usize) -> (r: String)
    ensures
        r@ == climbed(path@, n as nat),
{
    let mut at = path.to_owned();
    for i in 0..n
        invariant
            climbed(at@, (n - i) as nat) == climbed(path@, n as nat),
    {
        at = parent_path(at.as_str());
    }
    at
}

/// A path is under itself, and what is under a path is under whatever that path is
/// under.
pub proof fn law_under_is_a_partial_order(a: Seq<char>, b: Seq<char>, c: Seq<char>)
    ensures
        under(a, a),
        under(a, b) && under(b, c) ==> under(a, c),
{
    let pa = components(a);
    let pb = components(b);
    let pc = components(c);
    assert(pa.take(pa.len() as int) =~= pa);
    if under(a, b) && under(b, c) {
        assert(pa.take(pc.len() as int) =~= pb.take(pc.len() as int));
    }
}

/// Whether a text is one piece: no slash stands in it.
pub open spec fn one_piece(t: Seq<char>) -> bool {
    forall|k: int| 0 <= k < t.len() ==> t[k] != '/'
}

/// Slashes, and nothing else, cut a path into pieces.
pub proof fn law_slashes_cut(a: Seq<char>, b: Seq<char>)
    ensures
        pieces(a + seq!['/'] + b) == pieces(a) + pieces(b),
        one_piece(a) ==> pieces(a) == seq![a],
    decreases a.len(),
{
    let all = a + seq!['/'] + b;
    let n = first_index(a, '/');
    lemma_first_index(a, '/');
    if one_piece(a) {
        lemma_first_index_is(a, '/', a.len() as int);
    }
    if n < a.len() {
        assert forall|k: int| 0 <= k < n implies all[k] != '/' by {
            assert(all[k] == a[k]);
        }
        assert(all[n] == a[n]);
        lemma_first_index_is(all, '/', n);
        assert(all.take(n) =~= a.take(n));
        assert(all.skip(n + 1) =~= a.skip(n + 1) + seq!['/'] + b);
        law_slashes_cut(a.skip(n + 1), b);
        assert(pieces(all) =~= pieces(a) + pieces(b));
    } else {
        assert forall|k: int| 0 <= k < a.len() implies all[k] != '/' by {
            assert(all[k] == a[k]);
        }
        lemma_first_index_is(all, '/', a.len() as int);
        assert(all.take(a.len() as int) =~= a);
        assert(all.skip(a.len() as int + 1) =~= b);
        assert(pieces(all) =~= pieces(a) + pieces(b));
    }
}

proof fn lemma_named_add(a: Seq<Seq<char>>, b: Seq<Seq<char>>)
    ensures
        named(a + b) == named(a) + named(b),
    decreases a.len(),
{
    if a.len() == 0 {
        assert(a + b =~= b);
        assert(named(a + b) =~= named(a) + named(b));
    } else {
        assert((a + b).first() == a.first());
        assert((a + b).drop_first() =~= a.drop_first() + b);
        lemma_named_add(a.drop_first(), b);
        assert(named(a + b) =~= named(a) + named(b));
    }
}

proof fn lemma_named_one(x: Seq<char>)
    ensures
        named(seq![x]) == (if x.len() == 0 || x == "."@ {
            Seq::<Seq<char>>::empty()
        } else {
            seq![x]
        }),
{
    assert(seq![x].drop_first() =~= Seq::empty());
    assert(named(seq![x].drop_first()) =~= Seq::empty());
    assert(named(seq![x]) =~= (if x.len() == 0 || x == "."@ {
        Seq::<Seq<char>>::empty()
    } else {
        seq![x]
    }));
}

/// The components of a path: each name behind a slash is one more, except that
/// neither nothing nor `.` counts there; at the front, the root and `.` do.
pub proof fn law_each_name_is_a_component(dir: Seq<char>, name: Seq<char>)
    requires
        one_piece(name),
    ensures
        dir.len() > 0 ==> components(dir + seq!['/'] + name) == (if name.len() == 0 || name
            == "."@ {
            components(dir)
        } else {
            components(dir).push(name)
        }),
        components(seq!['/'] + name) == (if name.len() == 0 || name == "."@ {
            seq!["/"@]
        } else {
            seq!["/"@, name]
        }),
        components(name) == (if name.len() == 0 {
            Seq::<Seq<char>>::empty()
        } else {
            seq![name]
        }),
{
    let none = Seq::<char>::empty();
    let all = dir + seq!['/'] + name;
    law_slashes_cut(dir, name);
    law_slashes_cut(name, name);
    law_slashes_cut(none, name);
    lemma_named_one(name);
    lemma_named_one(none);
    lemma_pieces_not_empty(dir);
    if dir.len() > 0 {
        assert(all[0] == dir[0]);
        let ps = pieces(dir);
        assert(pieces(all).first() == ps.first());
        assert(pieces(all).drop_first() =~= ps.drop_first() + seq![name]);
        lemma_named_add(ps, seq![name]);
        lemma_named_add(ps.drop_first(), seq![name]);
        assert(components(all) =~= (if name.len() == 0 || name == "."@ {
            components(dir)
        } else {
            components(dir).push(name)
        }));
    }
    assert(none + seq!['/'] + name =~= seq!['/'] + name);
    assert(pieces(seq!['/'] + name) =~= seq![none] + seq![name]);
    lemma_named_add(seq![none], seq![name]);
    assert(components(seq!['/'] + name) =~= (if name.len() == 0 || name == "."@ {
        seq!["/"@]
    } else {
        seq!["/"@, name]
    }));
    assert(seq![name].drop_first() =~= Seq::empty());
    assert(named(seq![name].drop_first()) =~= Seq::empty());
    reveal_strlit(".");
    assert("."@.len() == 1);
    if name.len() > 0 {
        assert(name[0] != '/');
    }
    assert(components(name) =~= (if name.len() == 0 {
        Seq::<Seq<char>>::empty()
    } else {
        seq![name]
    }));
}

/// A path is under another where its components begin with those of the other: what
/// is in a directory is under it, whatever the directory is under.
pub proof fn law_what_is_under(dir: Seq<char>, name: Seq<char>, root: Seq<char>)
    requires
        dir.len() > 0,
        one_piece(name),
        name.len() > 0,
        name != "."@,
    ensures
        under(dir, root) <==> components(root).is_prefix_of(components(dir)),
        under(dir + seq!['/'] + name, dir),
        under(dir + seq!['/'] + name, root) <==> under(dir, root) || components(root)
            == components(dir).push(name),
{
    law_each_name_is_a_component(dir, name);
    let d = components(dir);
    let p = d.push(name);
    let r = components(root);
    if r.len() <= d.len() {
        assert(p.take(r.len() as int) =~= d.take(r.len() as int));
        assert(d.take(r.len() as int) =~= d.subrange(0, r.len() as int));
    }
    assert(p.take(d.len() as int) =~= d);
    assert(p.take(p.len() as int) =~= p);
}

/// The last name of a path is what stands behind its last slash; nothing and `.`
/// there do not count, and `..` is no name.
pub proof fn law_last_name(dir: Seq<char>, name: Seq<char>)
    requires
        one_piece(name),
    ensures
        name.len() > 0 && name != "."@ && name != ".."@ ==> last_name(dir + seq!['/'] + name)
            == name && last_name(name) == name,
        last_name(dir + seq!['/'] + ".."@) == Seq::<char>::empty(),
        dir.len() > 0 && (name.len() == 0 || name == "."@) ==> last_name(dir + seq!['/'] + name)
            == last_name(dir),
{
    reveal_strlit(".");
    reveal_strlit("..");
    reveal_strlit("/");
    assert(".."@.len() == 2 && "."@.len() == 1 && "/"@[0] == '/' && "/"@.len() == 1);
    assert(one_piece(".."@));
    law_each_name_is_a_component(dir, name);
    law_each_name_is_a_component(dir, ".."@);
    if dir.len() == 0 {
        assert(dir + seq!['/'] + name =~= seq!['/'] + name);
        assert(dir + seq!['/'] + ".."@ =~= seq!['/'] + ".."@);
    }
    if name.len() > 0 {
        assert(name[0] != '/');
        assert(name != "/"@);
    }
}

/// A name in a directory stands behind one slash, and the directory's components are
/// followed by it. A name that starts at the root, or in no directory, is the path.
pub proof fn law_joining(dir: Seq<char>, name: Seq<char>)
    ensures
        name.len() > 0 && name[0] == '/' ==> joined_path(dir, name) == name,
        dir.len() == 0 ==> joined_path(dir, name) == name,
        dir.len() > 0 && dir.last() != '/' && one_piece(name) ==> joined_path(dir, name) == dir
            + seq!['/'] + name,
        one_piece(name) ==> joined_path(dir.push('/'), name) == dir + seq!['/'] + name,
        dir.len() > 0 && one_piece(name) && name.len() > 0 && name != "."@ ==> components(
            joined_path(dir, name),
        ) == components(dir).push(name),
{
    if one_piece(name) {
        assert(dir.push('/') =~= dir + seq!['/']);
        assert(joined_path(dir.push('/'), name) =~= dir + seq!['/'] + name);
        if dir.len() > 0 && name.len() > 0 && name != "."@ {
            assert(name[0] != '/');
            law_each_name_is_a_component(dir, name);
            if dir.last() == '/' {
                let above = dir.drop_last();
                assert(one_piece(Seq::<char>::empty()));
                law_each_name_is_a_component(above, name);
                law_each_name_is_a_component(above, Seq::empty());
                assert(above + seq!['/'] + name =~= dir + name);
                assert(above + seq!['/'] + Seq::<char>::empty() =~= dir);
                if above.len() == 0 {
                    assert(dir + name =~= seq!['/'] + name);
                    assert(dir =~= seq!['/'] + Seq::<char>::empty());
                    assert(components(dir).push(name) =~= seq!["/"@, name]);
                }
            }
        }
    }
}

proof fn lemma_without_name(dir: Seq<char>, name: Seq<char>)
    requires
        one_piece(name),
    ensures
        without_name(dir + seq!['/'] + name) == dir.push('/'),
        without_name(name) == Seq::<char>::empty(),
    decreases name.len(),
{
    let all = dir + seq!['/'] + name;
    if name.len() == 0 {
        assert(all =~= dir.push('/'));
    } else {
        let less = name.drop_last();
        assert(one_piece(less));
        lemma_without_name(dir, less);
        assert(all.last() == name.last());
        assert(name.last() == name[name.len() - 1]);
        assert(all.drop_last() =~= dir + seq!['/'] + less);
    }
}

/// One step up takes the last name off with its slash. The root stays.
pub proof fn law_a_step_up(dir: Seq<char>, name: Seq<char>, n: nat)
    requires
        one_piece(name),
    ensures
        dir.len() > 0 ==> climbed(dir + seq!['/'] + name, n + 1) == climbed(dir, n),
        climbed(seq!['/'] + name, n + 1) == seq!['/'],
        climbed(name, 0) == name,
    decreases n,
{
    let none = Seq::<char>::empty();
    lemma_without_name(dir, name);
    lemma_without_name(none, name);
    assert(none + seq!['/'] + name =~= seq!['/'] + name);
    assert(none.push('/') =~= seq!['/']);
    if dir.len() > 0 {
        assert(dir.push('/').drop_last() =~= dir);
    }
    assert(parent_of(seq!['/'] + name) == seq!['/']);
    assert(climbed(seq!['/'] + name, n + 1) == climbed(seq!['/'], n));
    if n > 0 {
        assert(one_piece(none));
        law_a_step_up(dir, none, (n - 1) as nat);
        assert(seq!['/'] + none =~= seq!['/']);
    }
}

/// A path is under one of some roots where it is under one of them.
pub proof fn law_one_root_is_enough(path: Seq<char>, roots: Seq<Seq<char>>, i: int)
    ensures
        0 <= i < roots.len() && under(path, roots[i]) ==> under_any(path, roots),
        (forall|k: int| 0 <= k < roots.len() ==> !under(path, #[trigger] roots[k])) ==> !under_any(
            path,
            roots,
        ),
{
}

} // verus!
