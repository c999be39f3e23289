//! A model of Unix paths as `std::path` reads them.
//!
//! A path is held as its text.  Its components are character sequences:
//! `"/"` stands for the root, `"."` for a leading current-directory
//! component, `".."` for a parent-directory component, and any other
//! sequence is a normal component (never empty, never holding `'/'`).
use vstd::prelude::*;
use crate::text::{
    after_last_char, after_last_char_exec, append_chars, before_char, chars_eq, concat, copy_chars,
    has_char, lemma_split_pieces, lemma_split_scan_append, lemma_split_scan_first,
    lemma_split_scan_last, lemma_split_scan_sep, slice, split_char, split_on, split_scan, views,
};

verus! {

pub open spec fn root_comp() -> Seq<char> {
    seq!['/']
}

pub open spec fn cur_comp() -> Seq<char> {
    seq!['.']
}

pub open spec fn parent_comp() -> Seq<char> {
    seq!['.', '.']
}

/// A component that names a file or directory.
pub open spec fn is_normal(c: Seq<char>) -> bool {
    c != root_comp() && c != cur_comp() && c != parent_comp()
}

/// The parts between separators that become components: empty parts and
/// `"."` parts are dropped.
pub open spec fn kept_parts(ps: Seq<Seq<char>>) -> Seq<Seq<char>>
    decreases ps.len(),
{
    if ps.len() == 0 {
        Seq::empty()
    } else {
        let r = kept_parts(ps.drop_last());
        let x = ps.last();
        if x.len() == 0 || x == cur_comp() {
            r
        } else {
            r.push(x)
        }
    }
}

pub open spec fn has_root(p: Seq<char>) -> bool {
    p.len() > 0 && p[0] == '/'
}

/// The path starts with a current-directory component (`"."` or `"./..."`).
pub open spec fn has_cur_dir(p: Seq<char>) -> bool {
    !has_root(p) && split_on(p, '/')[0] == cur_comp()
}

/// `Path::components`, each component written as described above.
pub open spec fn components(p: Seq<char>) -> Seq<Seq<char>> {
    let ps = split_on(p, '/');
    if has_root(p) {
        seq![root_comp()] + kept_parts(ps)
    } else if has_cur_dir(p) {
        seq![cur_comp()] + kept_parts(ps.drop_first())
    } else {
        kept_parts(ps)
    }
}

/// Two paths are equal as `Path`s (`==` compares components).
pub open spec fn same_path(a: Seq<char>, b: Seq<char>) -> bool {
    components(a) == components(b)
}

/// `Path::starts_with`: the components of `base` begin those of `p`.
pub open spec fn path_starts_with(p: Seq<char>, base: Seq<char>) -> bool {
    let c = components(p);
    let b = components(base);
    b.len() <= c.len() && c.take(b.len() as int) == b
}

/// `Path::parent`, by its components.
pub open spec fn parent_of(c: Seq<Seq<char>>) -> Option<Seq<Seq<char>>> {
    if c.len() > 0 && c.last() != root_comp() {
        Some(c.drop_last())
    } else {
        None
    }
}

/// `Path::file_name`, by components.
pub open spec fn file_name_of(c: Seq<Seq<char>>) -> Option<Seq<char>> {
    if c.len() > 0 && is_normal(c.last()) {
        Some(c.last())
    } else {
        None
    }
}

pub open spec fn file_name(p: Seq<char>) -> Option<Seq<char>> {
    file_name_of(components(p))
}

/// The index of the dot that separates a file name's stem from its
/// extension: the last dot, unless it is the first character.
pub open spec fn ext_dot(name: Seq<char>) -> Option<int> {
    let a = after_last_char(name, '.');
    if a.len() == name.len() || a.len() + 1 == name.len() {
        None
    } else {
        Some(name.len() - a.len() - 1)
    }
}

/// The stem of a file name (`Path::file_stem` of a name).
pub open spec fn stem_of_name(name: Seq<char>) -> Seq<char> {
    match ext_dot(name) {
        Some(k) => name.take(k),
        None => name,
    }
}

/// The extension of a file name (`Path::extension` of a name).
pub open spec fn ext_of_name(name: Seq<char>) -> Option<Seq<char>> {
    match ext_dot(name) {
        Some(k) => Some(name.skip(k + 1)),
        None => None,
    }
}

pub open spec fn file_stem(p: Seq<char>) -> Option<Seq<char>> {
    match file_name(p) {
        Some(n) => Some(stem_of_name(n)),
        None => None,
    }
}

pub open spec fn extension(p: Seq<char>) -> Option<Seq<char>> {
    match file_name(p) {
        Some(n) => ext_of_name(n),
        None => None,
    }
}

/// `Path::join`: an absolute `b` replaces `a`; otherwise a separator is put
/// between them unless `a` is empty or already ends with one.
pub open spec fn join_path(a: Seq<char>, b: Seq<char>) -> Seq<char> {
    if has_root(b) {
        b
    } else if a.len() > 0 && a.last() != '/' {
        a + seq!['/'] + b
    } else {
        a + b
    }
}

/// The text of a path's parent (`Path::parent`, written back as text).
pub uninterp spec fn path_parent(p: Seq<char>) -> Option<Seq<char>>;

/// `std::path::Path::parent`, as text.  The result is named, not stated.
#[verifier::external_body]
pub(crate) fn parent_text(p: &str) -> (r: Option<String>)
    ensures
        match r {
            Some(x) => path_parent(p@) == Some(x@),
            None => path_parent(p@) is None,
        },
{
    match std::path::Path::new(p).parent() {
        Some(x) => Some(x.to_string_lossy().into_owned()),
        None => None,
    }
}

// ---------------------------------------------------------------------------
// Facts about joining and naming
// ---------------------------------------------------------------------------

/// A name that `join_path` adds as one last component: not empty, no
/// separator, not `"."`.
pub open spec fn single_name(b: Seq<char>) -> bool {
    b.len() > 0 && !has_char(b, '/') && b != cur_comp()
}

proof fn lemma_kept_parts_push(ps: Seq<Seq<char>>, b: Seq<char>)
    ensures
        single_name(b) ==> kept_parts(ps.push(b)) == kept_parts(ps).push(b),
        kept_parts(ps.push(Seq::empty())) == kept_parts(ps),
{
    assert(ps.push(b).drop_last() =~= ps);
    assert(ps.push(Seq::<char>::empty()).drop_last() =~= ps);
}

/// Joining a single name adds it as the last component.
pub proof fn lemma_components_join(a: Seq<char>, b: Seq<char>)
    requires
        single_name(b),
    ensures
        components(join_path(a, b)) == components(a).push(b),
{
    let j = join_path(a, b);
    assert(!has_root(b)) by {
        if has_root(b) {
            assert(b[0] == '/');
        }
    }
    lemma_kept_parts_push(Seq::empty(), b);
    lemma_split_scan_append(Seq::<char>::empty(), b, '/');
    assert(Seq::<char>::empty() + b =~= b);
    if a.len() == 0 {
        assert(j =~= b);
        assert(split_on(b, '/') =~= seq![b]);
        assert(split_on(a, '/') =~= seq![Seq::<char>::empty()]);
        assert(kept_parts(seq![Seq::<char>::empty()]) =~= Seq::<Seq<char>>::empty()) by {
            assert(seq![Seq::<char>::empty()].drop_last() =~= Seq::<Seq<char>>::empty());
        }
        assert(kept_parts(seq![b]) =~= seq![b]) by {
            assert(seq![b].drop_last() =~= Seq::<Seq<char>>::empty());
        }
        assert(components(a) =~= Seq::<Seq<char>>::empty());
        assert(components(j) =~= seq![b]);
    } else {
        let ps = split_on(a, '/');
        let (d0, c0) = split_scan(a, '/');
        if a.last() != '/' {
            lemma_split_scan_sep(a, '/');
            lemma_split_scan_append(a.push('/'), b, '/');
            assert(j =~= a.push('/') + b);
            assert(split_on(j, '/') =~= ps.push(b));
            assert(j[0] == a[0]);
            assert(ps.push(b)[0] == ps[0]);
            lemma_kept_parts_push(ps, b);
            lemma_kept_parts_push(ps.drop_first(), b);
            assert(ps.push(b).drop_first() =~= ps.drop_first().push(b));
            if has_root(a) {
                assert(components(j) =~= components(a).push(b));
            } else if has_cur_dir(a) {
                assert(components(j) =~= components(a).push(b));
            } else {
                assert(components(j) =~= components(a).push(b));
            }
        } else {
            let a0 = a.drop_last();
            assert(a0.push('/') =~= a);
            lemma_split_scan_sep(a0, '/');
            let d = split_scan(a0, '/').0.push(split_scan(a0, '/').1);
            assert(split_scan(a, '/') == (d, Seq::<char>::empty()));
            lemma_split_scan_append(a, b, '/');
            assert(j =~= a + b);
            assert(split_scan(a, '/').1 + b =~= b);
            assert(split_on(j, '/') =~= d.push(b));
            assert(ps =~= d.push(Seq::<char>::empty()));
            assert(j[0] == a[0]);
            assert(d.push(b)[0] == d[0]);
            assert(d.push(Seq::<char>::empty())[0] == d[0]);
            lemma_kept_parts_push(d, b);
            lemma_kept_parts_push(d.drop_first(), b);
            assert(d.push(b).drop_first() =~= d.drop_first().push(b));
            assert(d.push(Seq::<char>::empty()).drop_first() =~= d.drop_first().push(Seq::<char>::empty()));
            if has_root(a) {
                assert(components(j) =~= components(a).push(b));
            } else if has_cur_dir(a) {
                assert(components(j) =~= components(a).push(b));
            } else {
                assert(components(j) =~= components(a).push(b));
            }
        }
    }
}

/// The stem of `base.ext` is `base` when the extension holds no dot.
pub proof fn lemma_stem_of_dotted(base: Seq<char>, e: Seq<char>)
    requires
        base.len() > 0,
        !has_char(e, '.'),
    ensures
        stem_of_name(base + seq!['.'] + e) == base,
{
    let name = base + seq!['.'] + e;
    lemma_split_scan_sep(base, '.');
    lemma_split_scan_append(base.push('.'), e, '.');
    assert(name =~= base.push('.') + e);
    assert(split_scan(base.push('.'), '.').1 + e =~= e);
    assert(after_last_char(name, '.') == e);
    assert(name.take(base.len() as int) =~= base);
}

/// Components other than the root hold no separator.
pub proof fn lemma_components_no_slash(p: Seq<char>)
    ensures
        forall|i: int|
            0 <= i < components(p).len() ==> #[trigger] components(p)[i] == root_comp() || !has_char(
                components(p)[i],
                '/',
            ),
{
    lemma_split_pieces(p, '/');
    let ps = split_on(p, '/');
    lemma_kept_parts_no_slash(ps);
    lemma_kept_parts_no_slash(ps.drop_first());
    assert forall|i: int| 0 <= i < ps.drop_first().len() implies !has_char(
        #[trigger] ps.drop_first()[i],
        '/',
    ) by {
        assert(ps.drop_first()[i] == ps[i + 1]);
    }
    let c = components(p);
    assert forall|i: int| 0 <= i < c.len() implies #[trigger] c[i] == root_comp() || !has_char(
        c[i],
        '/',
    ) by {
        if has_root(p) {
            if i > 0 {
                assert(c[i] == kept_parts(ps)[i - 1]);
            }
        } else if has_cur_dir(p) {
            if i > 0 {
                assert(c[i] == kept_parts(ps.drop_first())[i - 1]);
            } else {
                assert(c[0] == cur_comp());
                assert(!has_char(cur_comp(), '/')) by {
                    if has_char(cur_comp(), '/') {
                        let k = choose|k: int| 0 <= k < cur_comp().len() && cur_comp()[k] == '/';
                        assert(cur_comp()[0] == '.');
                    }
                }
            }
        }
    }
}

proof fn lemma_kept_parts_no_slash(ps: Seq<Seq<char>>)
    ensures
        (forall|i: int| 0 <= i < ps.len() ==> !has_char(#[trigger] ps[i], '/')) ==> forall|i: int|
            0 <= i < kept_parts(ps).len() ==> !has_char(#[trigger] kept_parts(ps)[i], '/'),
    decreases ps.len(),
{
    if ps.len() > 0 {
        lemma_kept_parts_no_slash(ps.drop_last());
        if forall|i: int| 0 <= i < ps.len() ==> !has_char(#[trigger] ps[i], '/') {
            assert forall|i: int| 0 <= i < ps.drop_last().len() implies !has_char(
                #[trigger] ps.drop_last()[i],
                '/',
            ) by {
                assert(ps.drop_last()[i] == ps[i]);
            }
            let r = kept_parts(ps.drop_last());
            assert(!has_char(ps.last(), '/')) by {
                assert(ps[ps.len() - 1] == ps.last());
            }
            assert forall|i: int| 0 <= i < r.push(ps.last()).len() implies !has_char(
                #[trigger] r.push(ps.last())[i],
                '/',
            ) by {
                if i < r.len() {
                    assert(r.push(ps.last())[i] == r[i]);
                }
            }
        }
    }
}

/// A path's extension holds neither a dot nor a separator.
pub proof fn lemma_extension_plain(p: Seq<char>)
    ensures
        extension(p) matches Some(e) ==> !has_char(e, '.') && !has_char(e, '/'),
{
    if let Some(e) = extension(p) {
        let c = components(p);
        lemma_components_no_slash(p);
        let n = c.last();
        assert(c[c.len() - 1] == n);
        assert(!has_char(n, '/'));
        let a = after_last_char(n, '.');
        lemma_split_scan_last(n, '.');
        let k = n.len() - a.len() - 1;
        assert(n.skip(n.len() - a.len()) == a);
        assert(e =~= a);
        assert forall|i: int| 0 <= i < e.len() implies e[i] != '/' by {
            assert(e[i] == n[k + 1 + i]);
        }
    }
}

// ---------------------------------------------------------------------------
// Exec
// ---------------------------------------------------------------------------

fn is_cur(x: &Vec<char>) -> (r: bool)
    ensures
        r == (x@ == cur_comp()),
{
    let r = x.len() == 1 && x[0] == '.';
    proof {
        if r {
            assert(x@ =~= cur_comp());
        }
    }
    r
}

proof fn lemma_kept_parts_step(ps: Seq<Seq<char>>, lo: int, i: int)
    requires
        0 <= lo <= i < ps.len(),
    ensures
        kept_parts(ps.subrange(lo, i + 1)) == (if ps[i].len() == 0 || ps[i] == cur_comp() {
            kept_parts(ps.subrange(lo, i))
        } else {
            kept_parts(ps.subrange(lo, i)).push(ps[i])
        }),
{
    assert(ps.subrange(lo, i + 1).drop_last() =~= ps.subrange(lo, i));
}

/// `Path::components` of a path's text.
pub fn components_exec(p: &Vec<char>) -> (r: Vec<Vec<char>>)
    ensures
        views(r@) == components(p@),
{
    let ps = split_char(p, '/');
    let ghost pv = views(ps@);
    let root = p.len() > 0 && p[0] == '/';
    let mut out: Vec<Vec<char>> = Vec::new();
    let mut start: usize = 0;
    proof {
        lemma_split_scan_first(p@, '/');
        assert(pv.len() >= 1);
        assert(pv[0] == before_char(p@, '/'));
    }
    if root {
        let r: Vec<char> = vec!['/'];
        assert(r@ =~= root_comp());
        out.push(r);
        assert(views(out@) =~= seq![root_comp()]);
    } else if is_cur(&ps[0]) {
        let r: Vec<char> = vec!['.'];
        assert(r@ =~= cur_comp());
        out.push(r);
        start = 1;
        assert(views(out@) =~= seq![cur_comp()]);
    }
    let ghost head = views(out@);
    assert(pv.subrange(start as int, start as int) =~= Seq::<Seq<char>>::empty());
    let mut i: usize = start;
    while i < ps.len()
        invariant
            start <= i <= ps.len(),
            pv == views(ps@),
            views(out@) == head + kept_parts(pv.subrange(start as int, i as int)),
        decreases ps.len() - i,
    {
        proof {
            lemma_kept_parts_step(pv, start as int, i as int);
        }
        if ps[i].len() > 0 && !is_cur(&ps[i]) {
            let w = copy_chars(&ps[i]);
            let ghost before = views(out@);
            out.push(w);
            assert(views(out@) =~= before.push(pv[i as int]));
            assert(head + kept_parts(pv.subrange(start as int, i as int)).push(pv[i as int])
                =~= (head + kept_parts(pv.subrange(start as int, i as int))).push(pv[i as int]));
        }
        i = i + 1;
    }
    proof {
        assert(pv.subrange(start as int, pv.len() as int) =~= (if start == 1 {
            pv.drop_first()
        } else {
            pv
        }));
        if !root && start == 0 {
            assert(head =~= Seq::<Seq<char>>::empty());
            assert(head + kept_parts(pv) =~= kept_parts(pv));
        }
    }
    out
}

/// Whether a component names a file or directory.
pub fn is_normal_exec(c: &Vec<char>) -> (r: bool)
    ensures
        r == is_normal(c@),
{
    let root: Vec<char> = vec!['/'];
    let cur: Vec<char> = vec!['.'];
    let par: Vec<char> = vec!['.', '.'];
    assert(root@ =~= root_comp());
    assert(cur@ =~= cur_comp());
    assert(par@ =~= parent_comp());
    !chars_eq(c, &root) && !chars_eq(c, &cur) && !chars_eq(c, &par)
}

/// The file name of a path given by its components.
pub fn file_name_of_exec(c: &Vec<Vec<char>>) -> (r: Option<Vec<char>>)
    ensures
        match file_name_of(views(c@)) {
            Some(n) => r.is_some() && r.unwrap()@ == n,
            None => r.is_none(),
        },
{
    if c.len() > 0 && is_normal_exec(&c[c.len() - 1]) {
        Some(copy_chars(&c[c.len() - 1]))
    } else {
        None
    }
}

/// `Path::file_name` of a path's text.
pub fn file_name_exec(p: &Vec<char>) -> (r: Option<Vec<char>>)
    ensures
        match file_name(p@) {
            Some(n) => r.is_some() && r.unwrap()@ == n,
            None => r.is_none(),
        },
{
    let c = components_exec(p);
    file_name_of_exec(&c)
}

pub fn ext_dot_exec(name: &Vec<char>) -> (r: Option<usize>)
    ensures
        match ext_dot(name@) {
            Some(k) => r == Some(k as usize),
            None => r.is_none(),
        },
{
    let a = after_last_char_exec(name, '.');
    proof {
        lemma_split_scan_last(name@, '.');
    }
    if a.len() == name.len() || a.len() + 1 == name.len() {
        None
    } else {
        Some(name.len() - a.len() - 1)
    }
}

pub fn stem_of_name_exec(name: &Vec<char>) -> (r: Vec<char>)
    ensures
        r@ == stem_of_name(name@),
{
    proof {
        lemma_split_scan_last(name@, '.');
    }
    match ext_dot_exec(name) {
        Some(k) => slice(name, 0, k),
        None => copy_chars(name),
    }
}

pub fn ext_of_name_exec(name: &Vec<char>) -> (r: Option<Vec<char>>)
    ensures
        match ext_of_name(name@) {
            Some(e) => r.is_some() && r.unwrap()@ == e,
            None => r.is_none(),
        },
{
    proof {
        lemma_split_scan_last(name@, '.');
    }
    match ext_dot_exec(name) {
        Some(k) => {
            assert(k < name.len());
            let e = slice(name, k + 1, name.len());
            assert(e@ =~= name@.skip(k + 1));
            Some(e)
        },
        None => None,
    }
}

/// `Path::file_stem` of a path's text.
pub fn file_stem_exec(p: &Vec<char>) -> (r: Option<Vec<char>>)
    ensures
        match file_stem(p@) {
            Some(n) => r.is_some() && r.unwrap()@ == n,
            None => r.is_none(),
        },
{
    match file_name_exec(p) {
        Some(n) => Some(stem_of_name_exec(&n)),
        None => None,
    }
}

/// `Path::extension` of a path's text.
pub fn extension_exec(p: &Vec<char>) -> (r: Option<Vec<char>>)
    ensures
        match extension(p@) {
            Some(n) => r.is_some() && r.unwrap()@ == n,
            None => r.is_none(),
        },
{
    match file_name_exec(p) {
        Some(n) => ext_of_name_exec(&n),
        None => None,
    }
}

/// Component-wise equality of two component lists.
pub fn comps_eq(a: &Vec<Vec<char>>, b: &Vec<Vec<char>>) -> (r: bool)
    ensures
        r == (views(a@) == views(b@)),
{
    if a.len() != b.len() {
        assert(views(a@).len() != views(b@).len());
        return false;
    }
    let mut i: usize = 0;
    while i < a.len()
        invariant
            a.len() == b.len(),
            i <= a.len(),
            forall|j: int| 0 <= j < i ==> views(a@)[j] == views(b@)[j],
        decreases a.len() - i,
    {
        if !chars_eq(&a[i], &b[i]) {
            assert(views(a@)[i as int] != views(b@)[i as int]);
            return false;
        }
        i = i + 1;
    }
    assert(views(a@) =~= views(b@));
    true
}

/// Whether `b` is a prefix of `a`, component-wise.
pub fn comps_prefix(a: &Vec<Vec<char>>, b: &Vec<Vec<char>>) -> (r: bool)
    ensures
        r == (views(b@).len() <= views(a@).len() && views(a@).take(views(b@).len() as int)
            == views(b@)),
{
    if b.len() > a.len() {
        return false;
    }
    let mut i: usize = 0;
    while i < b.len()
        invariant
            b.len() <= a.len(),
            i <= b.len(),
            forall|j: int| 0 <= j < i ==> views(a@)[j] == views(b@)[j],
        decreases b.len() - i,
    {
        if !chars_eq(&a[i], &b[i]) {
            assert(views(a@).take(b.len() as int)[i as int] != views(b@)[i as int]);
            return false;
        }
        i = i + 1;
    }
    assert(views(a@).take(b.len() as int) =~= views(b@));
    true
}

/// `a == b` as paths.
pub fn same_path_exec(a: &Vec<char>, b: &Vec<char>) -> (r: bool)
    ensures
        r == same_path(a@, b@),
{
    let ca = components_exec(a);
    let cb = components_exec(b);
    comps_eq(&ca, &cb)
}

/// `p.starts_with(base)` as paths.
pub fn path_starts_with_exec(p: &Vec<char>, base: &Vec<char>) -> (r: bool)
    ensures
        r == path_starts_with(p@, base@),
{
    let cp = components_exec(p);
    let cb = components_exec(base);
    comps_prefix(&cp, &cb)
}

/// `Path::join`.
pub fn join_path_exec(a: &Vec<char>, b: &Vec<char>) -> (r: Vec<char>)
    ensures
        r@ == join_path(a@, b@),
{
    if b.len() > 0 && b[0] == '/' {
        copy_chars(b)
    } else if a.len() > 0 && a[a.len() - 1] != '/' {
        let mut r = copy_chars(a);
        r.push('/');
        append_chars(&mut r, b);
        r
    } else {
        concat(a, b)
    }
}

} // verus!
