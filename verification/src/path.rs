//! Path utilities for filesystem implementations.
//!
//! Paths are Unix paths held as strings. Their structure follows the component model of
//! Unix paths: an optional root `/`, an optional leading `.` (current directory) when
//! there is no root, then the `/`-separated body segments, where empty segments and `.`
//! segments carry no meaning, `..` names the parent directory, and any other segment is
//! a normal name.
use vstd::prelude::*;
use crate::text::{chars_of, string_of};

verus! {

// ---------------------------------------------------------------------------
// The component model
// ---------------------------------------------------------------------------

/// One component of a path, as a mathematical value.
pub enum Comp {
    Root,
    Cur,
    Parent,
    Normal(Seq<char>),
}

/// `s` splits at every `/` into segments; there is always one more segment than there
/// are separators.
pub open spec fn split_slash(s: Seq<char>) -> Seq<Seq<char>>
    decreases s.len(),
{
    if s.len() == 0 {
        seq![Seq::<char>::empty()]
    } else {
        let r = split_slash(s.drop_last());
        if s.last() == '/' {
            r.push(Seq::<char>::empty())
        } else {
            r.update(r.len() - 1, r.last().push(s.last()))
        }
    }
}

pub open spec fn has_root(s: Seq<char>) -> bool {
    s.len() > 0 && s[0] == '/'
}

/// A relative path that begins with the segment `.` keeps it as a current-directory
/// component.
pub open spec fn has_cur(s: Seq<char>) -> bool {
    !has_root(s) && s.len() > 0 && s[0] == '.' && (s.len() == 1 || s[1] == '/')
}

/// Length of the part before the body: the root, or the leading `.`.
pub open spec fn body_start(s: Seq<char>) -> nat {
    if has_root(s) || has_cur(s) {
        1
    } else {
        0
    }
}

pub open spec fn body(s: Seq<char>) -> Seq<char> {
    s.subrange(body_start(s) as int, s.len() as int)
}

pub open spec fn is_dot(seg: Seq<char>) -> bool {
    seg =~= seq!['.']
}

pub open spec fn is_dotdot(seg: Seq<char>) -> bool {
    seg =~= seq!['.', '.']
}

/// Whether a body segment stands for a component (empty and `.` segments do not).
pub open spec fn significant(seg: Seq<char>) -> bool {
    seg.len() > 0 && !is_dot(seg)
}

pub open spec fn seg_comp(seg: Seq<char>) -> Comp {
    if is_dotdot(seg) {
        Comp::Parent
    } else {
        Comp::Normal(seg)
    }
}

/// The components that a sequence of body segments stands for.
pub open spec fn seg_comps(segs: Seq<Seq<char>>) -> Seq<Comp>
    decreases segs.len(),
{
    if segs.len() == 0 {
        Seq::empty()
    } else {
        let rest = seg_comps(segs.drop_last());
        if significant(segs.last()) {
            rest.push(seg_comp(segs.last()))
        } else {
            rest
        }
    }
}

/// The components of a path.
pub open spec fn comps(s: Seq<char>) -> Seq<Comp> {
    let head: Seq<Comp> = if has_root(s) {
        seq![Comp::Root]
    } else if has_cur(s) {
        seq![Comp::Cur]
    } else {
        Seq::empty()
    };
    head + seg_comps(split_slash(body(s)))
}

// ---------------------------------------------------------------------------
// Normalization
// ---------------------------------------------------------------------------

/// The effect of one body segment on the stack of names kept by normalization.
pub open spec fn apply_seg(stack: Seq<Seq<char>>, seg: Seq<char>) -> Seq<Seq<char>> {
    if !significant(seg) {
        stack
    } else if is_dotdot(seg) {
        if stack.len() > 0 {
            stack.drop_last()
        } else {
            stack
        }
    } else {
        stack.push(seg)
    }
}

pub open spec fn fold_segs(segs: Seq<Seq<char>>) -> Seq<Seq<char>>
    decreases segs.len(),
{
    if segs.len() == 0 {
        Seq::empty()
    } else {
        apply_seg(fold_segs(segs.drop_last()), segs.last())
    }
}

/// Names joined with `/`.
pub open spec fn join_names(names: Seq<Seq<char>>) -> Seq<char>
    decreases names.len(),
{
    if names.len() == 0 {
        Seq::empty()
    } else if names.len() == 1 {
        names[0]
    } else {
        join_names(names.drop_last()) + seq!['/'] + names.last()
    }
}

/// Normalized form of a path: the root if there is one, then the names that remain
/// once `.` is dropped and each `..` has removed the name before it.
pub open spec fn normalized(s: Seq<char>) -> Seq<char> {
    let root: Seq<char> = if has_root(s) {
        seq!['/']
    } else {
        Seq::empty()
    };
    root + join_names(fold_segs(split_slash(s)))
}

/// Splitting a longer prefix: one more character either starts a new segment or extends
/// the last one.
proof fn lemma_split_push(s: Seq<char>, i: int)
    requires
        0 <= i < s.len(),
    ensures
        split_slash(s.subrange(0, i + 1)) == (if s[i] == '/' {
            split_slash(s.subrange(0, i)).push(Seq::<char>::empty())
        } else {
            let r = split_slash(s.subrange(0, i));
            r.update(r.len() - 1, r.last().push(s[i]))
        }),
{
    let t = s.subrange(0, i + 1);
    assert(t.drop_last() =~= s.subrange(0, i));
}

proof fn lemma_split_nonempty(s: Seq<char>)
    ensures
        split_slash(s).len() >= 1,
    decreases s.len(),
{
    if s.len() > 0 {
        lemma_split_nonempty(s.drop_last());
    }
}

/// Seq of Vec<char> views.
pub open spec fn views(v: Seq<Vec<char>>) -> Seq<Seq<char>> {
    Seq::new(v.len(), |i: int| v[i]@)
}

fn vec_eq(a: &Vec<char>, b: &[char]) -> (r: bool)
    ensures
        r == (a@ =~= b@),
{
    if a.len() != b.len() {
        return false;
    }
    let mut i: usize = 0;
    while i < a.len()
        invariant
            a@.len() == b@.len(),
            i <= a@.len(),
            forall|k: int| 0 <= k < i ==> a@[k] == b@[k],
        decreases a.len() - i,
    {
        if a[i] != b[i] {
            return false;
        }
        i = i + 1;
    }
    true
}

fn is_significant(seg: &Vec<char>) -> (r: bool)
    ensures
        r == significant(seg@),
{
    let dot = ['.'];
    !(seg.len() == 0 || vec_eq(seg, &dot))
}

fn is_parent_seg(seg: &Vec<char>) -> (r: bool)
    ensures
        r == is_dotdot(seg@),
{
    let dd = ['.', '.'];
    vec_eq(seg, &dd)
}

fn apply_seg_exec(stack: &mut Vec<Vec<char>>, seg: Vec<char>)
    ensures
        views(final(stack)@) == apply_seg(views(old(stack)@), seg@),
{
    if !is_significant(&seg) {
    } else if is_parent_seg(&seg) {
        if stack.len() > 0 {
            stack.pop();
            proof {
                assert(views(stack@) =~= views(old(stack)@).drop_last());
            }
        }
    } else {
        stack.push(seg);
        proof {
            assert(views(stack@) =~= views(old(stack)@).push(seg@));
        }
    }
}

/// The segments of `s` at `/`, with their effect on a stack of names folded in as the
/// characters are read: on return the stack holds `fold_segs(split_slash(s))`.
fn fold_path(s: &Vec<char>) -> (stack: Vec<Vec<char>>)
    ensures
        views(stack@) == fold_segs(split_slash(s@)),
{
    let mut stack: Vec<Vec<char>> = Vec::new();
    let mut cur: Vec<char> = Vec::new();
    let ghost mut done: Seq<Seq<char>> = Seq::empty();
    let mut i: usize = 0;
    proof {
        assert(s@.subrange(0, 0) =~= Seq::<char>::empty());
        assert(views(stack@) =~= Seq::<Seq<char>>::empty());
    }
    while i < s.len()
        invariant
            i <= s@.len(),
            split_slash(s@.subrange(0, i as int)) == done.push(cur@),
            views(stack@) == fold_segs(done),
        decreases s.len() - i,
    {
        let c = s[i];
        proof {
            lemma_split_push(s@, i as int);
        }
        if c == '/' {
            let seg = cur;
            cur = Vec::new();
            proof {
                assert(done.push(seg@).drop_last() =~= done);
            }
            apply_seg_exec(&mut stack, seg);
            proof {
                done = done.push(seg@);
                assert(split_slash(s@.subrange(0, i + 1)) =~= done.push(cur@));
            }
        } else {
            cur.push(c);
            proof {
                assert(split_slash(s@.subrange(0, i + 1)) =~= done.push(cur@));
            }
        }
        i = i + 1;
    }
    proof {
        assert(s@.subrange(0, s@.len() as int) =~= s@);
        assert(done.push(cur@).drop_last() =~= done);
    }
    apply_seg_exec(&mut stack, cur);
    stack
}

fn join_stack(names: &Vec<Vec<char>>, out: &mut Vec<char>)
    ensures
        final(out)@ == old(out)@ + join_names(views(names@)),
{
    let mut i: usize = 0;
    proof {
        assert(views(names@).subrange(0, 0) =~= Seq::<Seq<char>>::empty());
        assert(old(out)@ + join_names(Seq::<Seq<char>>::empty()) =~= old(out)@);
    }
    while i < names.len()
        invariant
            i <= names@.len(),
            out@ == old(out)@ + join_names(views(names@).subrange(0, i as int)),
        decreases names.len() - i,
    {
        let ghost before = out@;
        let ghost pre = views(names@).subrange(0, i as int);
        let ghost next = views(names@).subrange(0, i + 1);
        proof {
            assert(next.drop_last() =~= pre);
            assert(next.last() == names@[i as int]@);
        }
        if i > 0 {
            out.push('/');
        }
        let name = &names[i];
        let mut k: usize = 0;
        let ghost mid = out@;
        while k < name.len()
            invariant
                k <= name@.len(),
                out@ == mid + name@.subrange(0, k as int),
            decreases name.len() - k,
        {
            out.push(name[k]);
            proof {
                assert(mid + name@.subrange(0, k + 1) =~= (mid + name@.subrange(0, k as int)).push(
                    name@[k as int],
                ));
            }
            k = k + 1;
        }
        proof {
            assert(name@.subrange(0, name@.len() as int) =~= name@);
            if i == 0 {
                assert(next =~= seq![name@]);
                assert(pre =~= Seq::<Seq<char>>::empty());
                assert(out@ =~= old(out)@ + join_names(next));
            } else {
                assert(out@ =~= old(out)@ + join_names(next));
            }
        }
        i = i + 1;
    }
    proof {
        assert(views(names@).subrange(0, names@.len() as int) =~= views(names@));
    }
}

/// Normalize a path by removing `.` and `..` components.
pub fn normalize_path(path: &str) -> (r: String)
    ensures
        r@ == normalized(path@),
{
    let s = chars_of(path);
    let stack = fold_path(&s);
    let mut out: Vec<char> = Vec::new();
    if s.len() > 0 && s[0] == '/' {
        out.push('/');
    }
    join_stack(&stack, &mut out);
    proof {
        if has_root(path@) {
            assert(out@ =~= seq!['/'] + join_names(fold_segs(split_slash(path@))));
        } else {
            assert(out@ =~= join_names(fold_segs(split_slash(path@))));
        }
    }
    string_of(out.as_slice())
}


/// No segment of a split contains a separator.
proof fn lemma_split_plain(s: Seq<char>)
    ensures
        forall|i: int| 0 <= i < split_slash(s).len() ==> !(#[trigger] split_slash(s)[i]).contains('/'),
    decreases s.len(),
{
    if s.len() > 0 {
        lemma_split_plain(s.drop_last());
        lemma_split_nonempty(s.drop_last());
        let r = split_slash(s.drop_last());
        if s.last() != '/' {
            assert forall|i: int| 0 <= i < split_slash(s).len() implies !(#[trigger] split_slash(s)[i]).contains('/') by {
                if i == r.len() - 1 {
                    let seg = r.last().push(s.last());
                    if seg.contains('/') {
                        let j = choose|j: int| 0 <= j < seg.len() && seg[j] == '/';
                        if j < r.last().len() {
                            assert(r.last()[j] == '/');
                            assert(r[r.len() - 1].contains('/'));
                        }
                    }
                }
            }
        } else {
            assert forall|i: int| 0 <= i < split_slash(s).len() implies !(#[trigger] split_slash(s)[i]).contains('/') by {
                if i == r.len() {
                    assert(split_slash(s)[i] =~= Seq::<char>::empty());
                }
            }
        }
    }
}

/// The names kept by normalization are significant, are not `..`, and hold no
/// separator.
proof fn lemma_fold_clean(segs: Seq<Seq<char>>)
    requires
        forall|i: int| 0 <= i < segs.len() ==> !(#[trigger] segs[i]).contains('/'),
    ensures
        forall|i: int| 0 <= i < fold_segs(segs).len() ==> significant(#[trigger] fold_segs(segs)[i])
            && !is_dotdot(fold_segs(segs)[i]) && !fold_segs(segs)[i].contains('/'),
    decreases segs.len(),
{
    if segs.len() > 0 {
        let d = segs.drop_last();
        assert forall|i: int| 0 <= i < d.len() implies !(#[trigger] d[i]).contains('/') by {
            assert(d[i] == segs[i]);
        }
        lemma_fold_clean(d);
        let f = fold_segs(d);
        let l = segs.last();
        assert(l == segs[segs.len() - 1]);
        assert(!l.contains('/'));
        assert(fold_segs(segs) == apply_seg(f, l));
        assert forall|i: int| 0 <= i < fold_segs(segs).len() implies significant(#[trigger] fold_segs(segs)[i])
            && !is_dotdot(fold_segs(segs)[i]) && !fold_segs(segs)[i].contains('/') by {
            if i < f.len() {
                assert(fold_segs(segs)[i] == f[i]);
            } else {
                assert(fold_segs(segs) == f.push(l));
                assert(fold_segs(segs)[i] == l);
            }
        }
    }
}

/// Appending text without separators extends the last segment.
proof fn lemma_split_append_plain(x: Seq<char>, t: Seq<char>)
    requires
        !t.contains('/'),
    ensures
        split_slash(x + t) == split_slash(x).update(split_slash(x).len() - 1, split_slash(x).last() + t),
    decreases t.len(),
{
    lemma_split_nonempty(x);
    let sx = split_slash(x);
    if t.len() == 0 {
        assert(x + t =~= x);
        assert(sx.last() + t =~= sx.last());
        assert(sx.update(sx.len() - 1, sx.last()) =~= sx);
    } else {
        let t0 = t.drop_last();
        let c = t.last();
        assert(!t0.contains('/')) by {
            if t0.contains('/') {
                let j = choose|j: int| 0 <= j < t0.len() && t0[j] == '/';
                assert(t[j] == '/');
            }
        }
        assert(c != '/') by {
            assert(t[t.len() - 1] == c);
        }
        lemma_split_append_plain(x, t0);
        let r = split_slash(x + t0);
        assert(r == sx.update(sx.len() - 1, sx.last() + t0));
        assert((x + t).drop_last() =~= x + t0);
        assert((x + t).last() == c);
        assert(split_slash(x + t) == r.update(r.len() - 1, r.last().push(c)));
        assert(r.len() == sx.len());
        assert(r.last() == sx.last() + t0);
        assert((sx.last() + t0).push(c) =~= sx.last() + t);
        assert(r.update(r.len() - 1, r.last().push(c)) =~= sx.update(sx.len() - 1, sx.last() + t));
    }
}

/// Names without separators, joined, split back into themselves.
proof fn lemma_split_join(names: Seq<Seq<char>>)
    requires
        names.len() >= 1,
        forall|i: int| 0 <= i < names.len() ==> !(#[trigger] names[i]).contains('/'),
    ensures
        split_slash(join_names(names)) == names,
    decreases names.len(),
{
    if names.len() == 1 {
        lemma_split_append_plain(Seq::<char>::empty(), names[0]);
        assert(Seq::<char>::empty() + names[0] =~= names[0]);
        assert(split_slash(Seq::<char>::empty()) == seq![Seq::<char>::empty()]);
        assert(Seq::<char>::empty() + names[0] =~= names[0]);
        assert(seq![Seq::<char>::empty()].update(0, Seq::<char>::empty() + names[0]) =~= names);
    } else {
        let d = names.drop_last();
        assert forall|i: int| 0 <= i < d.len() implies !(#[trigger] d[i]).contains('/') by {
            assert(d[i] == names[i]);
        }
        lemma_split_join(d);
        let x = join_names(d) + seq!['/'];
        assert(x.drop_last() =~= join_names(d));
        assert(split_slash(x) == split_slash(join_names(d)).push(Seq::<char>::empty()));
        assert(!names.last().contains('/')) by {
            assert(names[names.len() - 1] == names.last());
        }
        lemma_split_append_plain(x, names.last());
        assert(Seq::<char>::empty() + names.last() =~= names.last());
        assert(split_slash(x).update(split_slash(x).len() - 1, split_slash(x).last() + names.last()) =~= names);
    }
}

/// A leading separator adds an empty first segment.
proof fn lemma_split_rooted(t: Seq<char>)
    ensures
        split_slash(seq!['/'] + t) == seq![Seq::<char>::empty()] + split_slash(t),
    decreases t.len(),
{
    lemma_split_nonempty(t);
    let e = Seq::<char>::empty();
    if t.len() == 0 {
        assert(seq!['/'] + t =~= seq!['/']);
        assert(seq!['/'].drop_last() =~= e);
        assert(seq!['/'].last() == '/');
        assert(split_slash(e) == seq![e]);
        assert(split_slash(seq!['/']) == split_slash(e).push(e));
        assert(split_slash(t) == seq![e]);
        assert(seq![e] + split_slash(t) =~= seq![e].push(e));
    } else {
        let t0 = t.drop_last();
        lemma_split_rooted(t0);
        lemma_split_nonempty(t0);
        assert((seq!['/'] + t).drop_last() =~= seq!['/'] + t0);
        assert((seq!['/'] + t).last() == t.last());
        let a = seq![e];
        let b = split_slash(t0);
        if t.last() == '/' {
            assert((a + b).push(e) =~= a + b.push(e));
        } else {
            assert((a + b).update((a + b).len() - 1, (a + b).last().push(t.last())) =~= a + b.update(
                b.len() - 1,
                b.last().push(t.last()),
            ));
        }
    }
}

/// An insignificant first segment does not change what normalization keeps.
proof fn lemma_fold_skip_first(e: Seq<char>, x: Seq<Seq<char>>)
    requires
        !significant(e),
    ensures
        fold_segs(seq![e] + x) == fold_segs(x),
    decreases x.len(),
{
    let none = Seq::<Seq<char>>::empty();
    if x.len() == 0 {
        assert(seq![e] + x =~= seq![e]);
        assert(seq![e].drop_last() =~= none);
        assert(seq![e].last() == e);
        assert(fold_segs(none) == none);
        assert(fold_segs(seq![e]) == apply_seg(fold_segs(none), e));
        assert(fold_segs(x) == none);
    } else {
        lemma_fold_skip_first(e, x.drop_last());
        assert((seq![e] + x).drop_last() =~= seq![e] + x.drop_last());
        assert((seq![e] + x).last() == x.last());
        assert(fold_segs(seq![e] + x) == apply_seg(fold_segs(seq![e] + x.drop_last()), x.last()));
    }
}

/// Names that are all significant and not `..` are kept as they are.
proof fn lemma_fold_keeps(names: Seq<Seq<char>>)
    requires
        forall|i: int| 0 <= i < names.len() ==> significant(#[trigger] names[i]) && !is_dotdot(names[i]),
    ensures
        fold_segs(names) == names,
    decreases names.len(),
{
    if names.len() > 0 {
        let d = names.drop_last();
        assert forall|i: int| 0 <= i < d.len() implies significant(#[trigger] d[i]) && !is_dotdot(d[i]) by {
            assert(d[i] == names[i]);
        }
        lemma_fold_keeps(d);
        assert(significant(names[names.len() - 1]) && !is_dotdot(names[names.len() - 1]));
        assert(d.push(names.last()) =~= names);
    }
}

/// The first character of joined names is that of the first name.
proof fn lemma_join_first(names: Seq<Seq<char>>)
    requires
        names.len() >= 1,
        names[0].len() > 0,
    ensures
        join_names(names).len() > 0,
        join_names(names)[0] == names[0][0],
    decreases names.len(),
{
    if names.len() > 1 {
        let d = names.drop_last();
        assert(d[0] == names[0]);
        lemma_join_first(d);
    }
}

/// The empty path splits into one empty segment, of which normalization keeps nothing.
proof fn lemma_fold_single_empty()
    ensures
        split_slash(Seq::<char>::empty()) == seq![Seq::<char>::empty()],
        fold_segs(seq![Seq::<char>::empty()]) == Seq::<Seq<char>>::empty(),
{
    let e = Seq::<char>::empty();
    let none = Seq::<Seq<char>>::empty();
    assert(seq![e].drop_last() =~= none);
    assert(seq![e].last() == e);
    assert(fold_segs(none) == none);
    assert(fold_segs(seq![e]) == apply_seg(fold_segs(none), e));
}

/// Normalization is idempotent: a normalized path is its own normal form.
pub proof fn lemma_normalize_idempotent(s: Seq<char>)
    ensures
        normalized(normalized(s)) == normalized(s),
{
    let segs = split_slash(s);
    lemma_split_plain(s);
    lemma_fold_clean(segs);
    let st = fold_segs(segs);
    let j = join_names(st);
    let n1 = normalized(s);
    assert(Seq::<Seq<char>>::empty() + st =~= st);
    if st.len() > 0 {
        assert forall|i: int| 0 <= i < st.len() implies !(#[trigger] st[i]).contains('/') by {}
        lemma_split_join(st);
        lemma_fold_keeps(st);
        lemma_join_first(st);
        assert(st[0][0] != '/') by {
            assert(!st[0].contains('/'));
            assert(st[0].len() > 0);
        }
    }
    if has_root(s) {
        assert(n1 == seq!['/'] + j);
        assert(has_root(n1));
        lemma_split_rooted(j);
        lemma_fold_skip_first(Seq::<char>::empty(), split_slash(j));
        if st.len() == 0 {
            assert(j =~= Seq::<char>::empty());
            lemma_fold_single_empty();
        }
    } else {
        assert(n1 =~= j);
        if st.len() == 0 {
            assert(j =~= Seq::<char>::empty());
            assert(!has_root(n1));
            lemma_fold_single_empty();
        } else {
            assert(!has_root(n1));
        }
    }
}

// ---------------------------------------------------------------------------
// Absolute and relative paths
// ---------------------------------------------------------------------------

/// Check if a path is absolute (it begins with the root).
pub fn is_absolute(path: &str) -> (r: bool)
    ensures
        r == has_root(path@),
{
    path.unicode_len() > 0 && path.get_char(0) == '/'
}

/// Check if a path is relative (it has no root).
pub fn is_relative(path: &str) -> (r: bool)
    ensures
        r == !has_root(path@),
{
    !is_absolute(path)
}

// ---------------------------------------------------------------------------
// Parent and file name
// ---------------------------------------------------------------------------

/// Drops trailing separators and trailing `.` segments, never cutting into the first
/// `lbb` characters (the root or leading `.`).
pub open spec fn trim_back(t: Seq<char>, lbb: nat) -> Seq<char>
    decreases t.len(),
{
    if t.len() <= lbb {
        t
    } else if t.last() == '/' {
        trim_back(t.drop_last(), lbb)
    } else if t.last() == '.' && (t.len() - 1 == lbb || t[t.len() - 2] == '/') {
        trim_back(t.drop_last(), lbb)
    } else {
        t
    }
}

/// Where the last segment of `t` starts (never before `lbb`).
pub open spec fn seg_start(t: Seq<char>, lbb: nat) -> nat
    decreases t.len(),
{
    if t.len() <= lbb {
        t.len()
    } else if t.last() == '/' {
        t.len()
    } else {
        seg_start(t.drop_last(), lbb)
    }
}

/// `t` without its last segment and the separator before it.
pub open spec fn strip_segment(t: Seq<char>, lbb: nat) -> Seq<char> {
    let st = seg_start(t, lbb);
    if st > lbb {
        t.subrange(0, st - 1)
    } else {
        t.subrange(0, st as int)
    }
}

/// The parent of a path: the path without its last component, or nothing when the
/// path is empty or only a root.
pub open spec fn parent_of(s: Seq<char>) -> Option<Seq<char>> {
    let lbb = body_start(s);
    let t = trim_back(s, lbb);
    if t.len() <= lbb {
        if has_cur(s) {
            Some(Seq::<char>::empty())
        } else {
            None
        }
    } else {
        Some(trim_back(strip_segment(t, lbb), lbb))
    }
}

/// The last component of a path when it is a normal name.
pub open spec fn file_name_of(s: Seq<char>) -> Option<Seq<char>> {
    let lbb = body_start(s);
    let t = trim_back(s, lbb);
    if t.len() <= lbb {
        None
    } else {
        let seg = t.subrange(seg_start(t, lbb) as int, t.len() as int);
        if is_dotdot(seg) {
            None
        } else {
            Some(seg)
        }
    }
}

proof fn lemma_seg_start_bounds(t: Seq<char>, lbb: nat)
    ensures
        seg_start(t, lbb) <= t.len(),
        t.len() > lbb ==> seg_start(t, lbb) >= lbb,
        seg_start(t, lbb) > lbb ==> t[seg_start(t, lbb) - 1] == '/',
        t.len() > lbb && t.last() != '/' ==> seg_start(t, lbb) < t.len(),
    decreases t.len(),
{
    if t.len() > lbb && t.last() != '/' {
        lemma_seg_start_bounds(t.drop_last(), lbb);
        assert(t.drop_last().len() == t.len() - 1);
        if seg_start(t, lbb) > lbb {
            assert(t[seg_start(t, lbb) - 1] == t.drop_last()[seg_start(t, lbb) - 1]);
        }
    }
}

fn body_start_exec(s: &Vec<char>) -> (r: usize)
    ensures
        r == body_start(s@),
        r <= s@.len(),
{
    if s.len() > 0 && s[0] == '/' {
        1
    } else if s.len() > 0 && s[0] == '.' && (s.len() == 1 || s[1] == '/') {
        1
    } else {
        0
    }
}

/// Length of `trim_back(s[..len], lbb)`.
fn trim_back_len(s: &Vec<char>, len: usize, lbb: usize) -> (r: usize)
    requires
        len <= s@.len(),
    ensures
        r <= len,
        s@.subrange(0, r as int) == trim_back(s@.subrange(0, len as int), lbb as nat),
{
    let mut n = len;
    while n > lbb && (s[n - 1] == '/' || (s[n - 1] == '.' && (n - 1 == lbb || s[n - 2] == '/')))
        invariant
            n <= len <= s@.len(),
            trim_back(s@.subrange(0, n as int), lbb as nat) == trim_back(
                s@.subrange(0, len as int),
                lbb as nat,
            ),
        decreases n,
    {
        proof {
            let t = s@.subrange(0, n as int);
            assert(t.drop_last() =~= s@.subrange(0, n - 1));
        }
        n = n - 1;
    }
    proof {
        let t = s@.subrange(0, n as int);
        assert(trim_back(t, lbb as nat) == t);
    }
    n
}

/// `seg_start(s[..len], lbb)`.
fn seg_start_exec(s: &Vec<char>, len: usize, lbb: usize) -> (r: usize)
    requires
        len <= s@.len(),
    ensures
        r == seg_start(s@.subrange(0, len as int), lbb as nat),
{
    let mut n = len;
    if n <= lbb || s[n - 1] == '/' {
        return n;
    }
    while n > lbb && s[n - 1] != '/'
        invariant
            n <= len <= s@.len(),
            seg_start(s@.subrange(0, n as int), lbb as nat) == seg_start(
                s@.subrange(0, len as int),
                lbb as nat,
            ),
        decreases n,
    {
        proof {
            let t = s@.subrange(0, n as int);
            assert(t.drop_last() =~= s@.subrange(0, n - 1));
        }
        n = n - 1;
    }
    n
}

fn prefix_string(s: &Vec<char>, n: usize) -> (r: String)
    requires
        n <= s@.len(),
    ensures
        r@ == s@.subrange(0, n as int),
{
    let mut out: Vec<char> = Vec::new();
    let mut i: usize = 0;
    while i < n
        invariant
            i <= n <= s@.len(),
            out@ == s@.subrange(0, i as int),
        decreases n - i,
    {
        out.push(s[i]);
        proof {
            assert(out@ =~= s@.subrange(0, i + 1));
        }
        i = i + 1;
    }
    string_of(out.as_slice())
}

fn range_string(s: &Vec<char>, from: usize, to: usize) -> (r: String)
    requires
        from <= to <= s@.len(),
    ensures
        r@ == s@.subrange(from as int, to as int),
{
    let mut out: Vec<char> = Vec::new();
    let mut i: usize = from;
    while i < to
        invariant
            from <= i <= to <= s@.len(),
            out@ == s@.subrange(from as int, i as int),
        decreases to - i,
    {
        out.push(s[i]);
        proof {
            assert(out@ =~= s@.subrange(from as int, i + 1));
        }
        i = i + 1;
    }
    string_of(out.as_slice())
}

/// Get the parent directory of a path.
pub fn parent(path: &str) -> (r: Option<String>)
    ensures
        r matches Some(p) ==> parent_of(path@) == Some(p@),
        r is None ==> parent_of(path@) is None,
{
    let s = chars_of(path);
    let lbb = body_start_exec(&s);
    proof {
        assert(s@.subrange(0, s@.len() as int) =~= s@);
    }
    let t_len = trim_back_len(&s, s.len(), lbb);
    if t_len <= lbb {
        if s.len() > 0 && s[0] == '.' && (s.len() == 1 || s[1] == '/') {
            return Some(String::new());
        } else {
            return None;
        }
    }
    let st = seg_start_exec(&s, t_len, lbb);
    proof {
        lemma_seg_start_bounds(s@.subrange(0, t_len as int), lbb as nat);
    }
    let cut = if st > lbb {
        st - 1
    } else {
        st
    };
    let r_len = trim_back_len(&s, cut, lbb);
    proof {
        let t = s@.subrange(0, t_len as int);
        assert(strip_segment(t, lbb as nat) =~= s@.subrange(0, cut as int));
    }
    Some(prefix_string(&s, r_len))
}

/// Get the final component of a path, when it is a normal name.
pub fn filename(path: &str) -> (r: Option<String>)
    ensures
        r matches Some(p) ==> file_name_of(path@) == Some(p@),
        r is None ==> file_name_of(path@) is None,
{
    let s = chars_of(path);
    let lbb = body_start_exec(&s);
    proof {
        assert(s@.subrange(0, s@.len() as int) =~= s@);
    }
    let t_len = trim_back_len(&s, s.len(), lbb);
    if t_len <= lbb {
        return None;
    }
    let st = seg_start_exec(&s, t_len, lbb);
    proof {
        lemma_seg_start_bounds(s@.subrange(0, t_len as int), lbb as nat);
    }
    let seg = range_string(&s, st, t_len);
    proof {
        let t = s@.subrange(0, t_len as int);
        assert(t.subrange(st as int, t.len() as int) =~= s@.subrange(st as int, t_len as int));
    }
    let seg_chars = chars_of(seg.as_str());
    if is_parent_seg(&seg_chars) {
        None
    } else {
        Some(seg)
    }
}

// ---------------------------------------------------------------------------
// Joining
// ---------------------------------------------------------------------------

/// Appending `part` to a path: an absolute part replaces it; otherwise a separator goes
/// between them unless the path is empty or already ends with one.
pub open spec fn push_path(buf: Seq<char>, part: Seq<char>) -> Seq<char> {
    if has_root(part) {
        part
    } else if buf.len() > 0 && buf.last() != '/' {
        buf + seq!['/'] + part
    } else {
        buf + part
    }
}

pub open spec fn join_all(base: Seq<char>, parts: Seq<Seq<char>>) -> Seq<char>
    decreases parts.len(),
{
    if parts.len() == 0 {
        base
    } else {
        push_path(join_all(base, parts.drop_last()), parts.last())
    }
}

/// Appends `part` to `buf` the way a path buffer does.
pub fn push_onto(buf: &mut String, part: &str)
    ensures
        final(buf)@ == push_path(old(buf)@, part@),
{
    if is_absolute(part) {
        *buf = part.to_owned();
        return;
    }
    let n = buf.as_str().unicode_len();
    if n > 0 && buf.as_str().get_char(n - 1) != '/' {
        buf.append("/");
        proof {
            reveal_strlit("/");
        }
    }
    buf.append(part);
}

/// Join path components.
pub fn join(base: &str, parts: &[&str]) -> (r: String)
    ensures
        r@ == join_all(base@, Seq::new(parts@.len(), |i: int| parts@[i]@)),
{
    let mut out = base.to_owned();
    let ghost ps = Seq::new(parts@.len(), |i: int| parts@[i]@);
    let mut i: usize = 0;
    proof {
        assert(ps.subrange(0, 0) =~= Seq::<Seq<char>>::empty());
    }
    while i < parts.len()
        invariant
            i <= parts@.len(),
            ps == Seq::new(parts@.len(), |i: int| parts@[i]@),
            out@ == join_all(base@, ps.subrange(0, i as int)),
        decreases parts.len() - i,
    {
        push_onto(&mut out, parts[i]);
        proof {
            assert(ps.subrange(0, i + 1).drop_last() =~= ps.subrange(0, i as int));
        }
        i = i + 1;
    }
    proof {
        assert(ps.subrange(0, parts@.len() as int) =~= ps);
    }
    out
}


// ---------------------------------------------------------------------------
// Components
// ---------------------------------------------------------------------------

/// One component of a path.
pub enum Component {
    RootDir,
    CurDir,
    ParentDir,
    Normal(String),
}

impl Component {
    pub open spec fn model(&self) -> Comp {
        match self {
            Component::RootDir => Comp::Root,
            Component::CurDir => Comp::Cur,
            Component::ParentDir => Comp::Parent,
            Component::Normal(n) => Comp::Normal(n@),
        }
    }
}

pub open spec fn comp_models(v: Seq<Component>) -> Seq<Comp> {
    Seq::new(v.len(), |i: int| v[i].model())
}

proof fn lemma_seg_comps_push(segs: Seq<Seq<char>>, seg: Seq<char>)
    ensures
        seg_comps(segs.push(seg)) == (if significant(seg) {
            seg_comps(segs).push(seg_comp(seg))
        } else {
            seg_comps(segs)
        }),
{
    assert(segs.push(seg).drop_last() =~= segs);
}

fn push_seg_comp(out: &mut Vec<Component>, seg: Vec<char>)
    ensures
        comp_models(final(out)@) == (if significant(seg@) {
            comp_models(old(out)@).push(seg_comp(seg@))
        } else {
            comp_models(old(out)@)
        }),
{
    if is_significant(&seg) {
        if is_parent_seg(&seg) {
            out.push(Component::ParentDir);
        } else {
            let name = string_of(seg.as_slice());
            out.push(Component::Normal(name));
        }
        proof {
            assert(comp_models(out@) =~= comp_models(old(out)@).push(seg_comp(seg@)));
        }
    }
}

/// The components of a path, in order.
pub fn components(path: &str) -> (r: Vec<Component>)
    ensures
        comp_models(r@) == comps(path@),
{
    let s = chars_of(path);
    let lbb = body_start_exec(&s);
    let mut out: Vec<Component> = Vec::new();
    if s.len() > 0 && s[0] == '/' {
        out.push(Component::RootDir);
    } else if lbb == 1 {
        out.push(Component::CurDir);
    }
    let ghost head = comp_models(out@);
    let ghost b = body(s@);
    let mut cur: Vec<char> = Vec::new();
    let ghost mut done: Seq<Seq<char>> = Seq::empty();
    let mut i: usize = lbb;
    proof {
        assert(b.subrange(0, 0) =~= Seq::<char>::empty());
        assert(comp_models(out@) =~= head + seg_comps(done));
    }
    while i < s.len()
        invariant
            lbb <= i <= s@.len(),
            lbb == body_start(s@),
            b == s@.subrange(lbb as int, s@.len() as int),
            split_slash(b.subrange(0, i - lbb)) == done.push(cur@),
            comp_models(out@) == head + seg_comps(done),
        decreases s.len() - i,
    {
        let c = s[i];
        proof {
            lemma_split_push(b, i - lbb);
            assert(b[i - lbb] == c);
        }
        if c == '/' {
            let seg = cur;
            cur = Vec::new();
            let ghost seg_v = seg@;
            push_seg_comp(&mut out, seg);
            proof {
                lemma_seg_comps_push(done, seg_v);
                done = done.push(seg_v);
                assert(split_slash(b.subrange(0, i + 1 - lbb)) =~= done.push(cur@));
                assert(comp_models(out@) =~= head + seg_comps(done));
            }
        } else {
            cur.push(c);
            proof {
                assert(split_slash(b.subrange(0, i + 1 - lbb)) =~= done.push(cur@));
            }
        }
        i = i + 1;
    }
    let ghost last = cur@;
    push_seg_comp(&mut out, cur);
    proof {
        assert(b.subrange(0, b.len() as int) =~= b);
        lemma_seg_comps_push(done, last);
        assert(comp_models(out@) =~= head + seg_comps(done.push(last)));
        if has_root(s@) {
            assert(head =~= seq![Comp::Root]);
        } else if has_cur(s@) {
            assert(head =~= seq![Comp::Cur]);
        } else {
            assert(head =~= Seq::<Comp>::empty());
        }
    }
    out
}

// ---------------------------------------------------------------------------
// Path keys
// ---------------------------------------------------------------------------

/// The text of one component.
pub open spec fn comp_text(c: Comp) -> Seq<char> {
    match c {
        Comp::Root => seq!['/'],
        Comp::Cur => seq!['.'],
        Comp::Parent => seq!['.', '.'],
        Comp::Normal(n) => n,
    }
}

/// A name that a path can end with: not empty, no `/`, neither `.` nor `..`.
pub open spec fn plain_name(n: Seq<char>) -> bool {
    n.len() > 0 && !n.contains('/') && !is_dot(n) && !is_dotdot(n)
}

/// Pushing a plain name onto a rooted path adds that name as its last component.
pub proof fn lemma_push_plain_comps(b: Seq<char>, n: Seq<char>)
    requires
        has_root(b),
        plain_name(n),
    ensures
        comps(push_path(b, n)) == comps(b).push(Comp::Normal(n)),
{
    let x = body(b);
    let sx = split_slash(x);
    lemma_split_nonempty(x);
    assert(!has_root(n)) by {
        if has_root(n) {
            assert(n.contains('/'));
        }
    }
    assert(significant(n));
    assert(seg_comp(n) == Comp::Normal(n));
    let p = push_path(b, n);
    assert(has_root(p));
    if b.last() != '/' {
        assert(p == b + seq!['/'] + n);
        let y = x + seq!['/'];
        assert(body(p) =~= y + n);
        assert(y.drop_last() =~= x);
        assert(split_slash(y) == sx.push(Seq::<char>::empty()));
        lemma_split_append_plain(y, n);
        assert(Seq::<char>::empty() + n =~= n);
        assert(split_slash(y + n) =~= sx.push(n));
        lemma_seg_comps_push(sx, n);
    } else {
        assert(p == b + n);
        assert(body(p) =~= x + n);
        lemma_split_append_plain(x, n);
        if x.len() == 0 {
            assert(sx == seq![Seq::<char>::empty()]);
        } else {
            assert(x.last() == '/');
            assert(sx == split_slash(x.drop_last()).push(Seq::<char>::empty()));
        }
        assert(sx.last() =~= Seq::<char>::empty());
        let r = sx.drop_last();
        assert(sx =~= r.push(Seq::<char>::empty()));
        lemma_seg_comps_push(r, Seq::<char>::empty());
        assert(sx.last() + n =~= n);
        assert(split_slash(x + n) =~= r.push(n));
        lemma_seg_comps_push(r, n);
    }
    assert(comps(p) =~= comps(b).push(Comp::Normal(n)));
}

/// Two different plain names pushed onto one rooted path give different path keys.
pub proof fn lemma_push_plain_keys_differ(b: Seq<char>, n1: Seq<char>, n2: Seq<char>)
    requires
        has_root(b),
        plain_name(n1),
        plain_name(n2),
        n1 != n2,
    ensures
        path_key(push_path(b, n1)) != path_key(push_path(b, n2)),
{
    lemma_push_plain_comps(b, n1);
    lemma_push_plain_comps(b, n2);
    let c = comps(b);
    let c1 = c.push(Comp::Normal(n1));
    let c2 = c.push(Comp::Normal(n2));
    assert(c1.drop_last() =~= c);
    assert(c2.drop_last() =~= c);
    let prev = key_text(c);
    let pre: Seq<char> = if prev.len() == 0 || prev.last() == '/' { prev } else { prev + seq!['/'] };
    assert(key_text(c1) == pre + n1);
    assert(key_text(c2) == pre + n2);
    if pre + n1 == pre + n2 {
        assert((pre + n1).subrange(pre.len() as int, (pre + n1).len() as int) =~= n1);
        assert((pre + n2).subrange(pre.len() as int, (pre + n2).len() as int) =~= n2);
    }
}

/// Components written out with `/` between them (none after the root).
pub open spec fn key_text(cs: Seq<Comp>) -> Seq<char>
    decreases cs.len(),
{
    if cs.len() == 0 {
        Seq::empty()
    } else {
        let prev = key_text(cs.drop_last());
        if prev.len() == 0 || prev.last() == '/' {
            prev + comp_text(cs.last())
        } else {
            prev + seq!['/'] + comp_text(cs.last())
        }
    }
}

/// The key under which a path is stored: its components written out, so that two
/// spellings of one path (`/a/b`, `/a//b/`, `/a/./b`) share a key.
pub open spec fn path_key(s: Seq<char>) -> Seq<char> {
    key_text(comps(s))
}

fn push_chars(out: &mut Vec<char>, piece: &Vec<char>)
    ensures
        final(out)@ == old(out)@ + piece@,
{
    let mut i: usize = 0;
    while i < piece.len()
        invariant
            i <= piece@.len(),
            out@ == old(out)@ + piece@.subrange(0, i as int),
        decreases piece.len() - i,
    {
        out.push(piece[i]);
        i = i + 1;
        proof {
            assert(out@ =~= old(out)@ + piece@.subrange(0, i as int));
        }
    }
    proof {
        assert(piece@.subrange(0, i as int) =~= piece@);
    }
}

fn comp_chars(c: &Component) -> (r: Vec<char>)
    ensures
        r@ == comp_text(c.model()),
{
    match c {
        Component::RootDir => {
            let mut v: Vec<char> = Vec::new();
            v.push('/');
            proof {
                assert(v@ =~= seq!['/']);
            }
            v
        },
        Component::CurDir => {
            let mut v: Vec<char> = Vec::new();
            v.push('.');
            proof {
                assert(v@ =~= seq!['.']);
            }
            v
        },
        Component::ParentDir => {
            let mut v: Vec<char> = Vec::new();
            v.push('.');
            v.push('.');
            proof {
                assert(v@ =~= seq!['.', '.']);
            }
            v
        },
        Component::Normal(n) => chars_of(n.as_str()),
    }
}

/// The text of the components `cs[from..]` (see [`key_text`]).
pub fn comps_text(cs: &Vec<Component>, from: usize) -> (r: String)
    requires
        from <= cs@.len(),
    ensures
        r@ == key_text(comp_models(cs@).skip(from as int)),
{
    let ghost m = comp_models(cs@).skip(from as int);
    let mut out: Vec<char> = Vec::new();
    let mut i: usize = from;
    proof {
        assert(m.subrange(0, 0) =~= Seq::<Comp>::empty());
    }
    while i < cs.len()
        invariant
            from <= i <= cs@.len(),
            m == comp_models(cs@).skip(from as int),
            m.len() == cs@.len() - from,
            out@ == key_text(m.subrange(0, i - from)),
        decreases cs.len() - i,
    {
        let piece = comp_chars(&cs[i]);
        proof {
            let t = m.subrange(0, i + 1 - from);
            assert(t.drop_last() =~= m.subrange(0, i - from));
            assert(t.last() == cs@[i as int].model());
        }
        if out.len() == 0 || out[out.len() - 1] == '/' {
            push_chars(&mut out, &piece);
        } else {
            out.push('/');
            push_chars(&mut out, &piece);
        }
        i = i + 1;
    }
    proof {
        assert(m.subrange(0, i - from) =~= m);
    }
    string_of(out.as_slice())
}

/// The storage key of `path` (see [`path_key`]).
pub fn path_key_of(path: &str) -> (r: String)
    ensures
        r@ == path_key(path@),
{
    let cs = components(path);
    proof {
        assert(comp_models(cs@).skip(0) =~= comp_models(cs@));
    }
    comps_text(&cs, 0)
}

/// Whether the two paths have the same components (path equality).
pub fn same_path(a: &str, b: &str) -> (r: bool)
    ensures
        r == (comps(a@) == comps(b@)),
{
    let x = starts_with_path(a, b);
    let y = starts_with_path(b, a);
    proof {
        let ca = comps(a@);
        let cb = comps(b@);
        if ca == cb {
            assert(ca.subrange(0, ca.len() as int) =~= ca);
        }
        if x && y {
            assert(ca.subrange(0, cb.len() as int) =~= ca);
        }
    }
    x && y
}

fn string_eq(a: &String, b: &String) -> (r: bool)
    ensures
        r == (a@ == b@),
{
    let x = chars_of(a.as_str());
    let y = chars_of(b.as_str());
    vec_eq(&x, y.as_slice())
}

fn component_eq(a: &Component, b: &Component) -> (r: bool)
    ensures
        r == (a.model() == b.model()),
{
    match (a, b) {
        (Component::RootDir, Component::RootDir) => true,
        (Component::CurDir, Component::CurDir) => true,
        (Component::ParentDir, Component::ParentDir) => true,
        (Component::Normal(x), Component::Normal(y)) => string_eq(x, y),
        _ => false,
    }
}

/// Whether the components of `base` come first among the components of `p`.
pub open spec fn comps_prefix(base: Seq<Comp>, p: Seq<Comp>) -> bool {
    base.len() <= p.len() && p.subrange(0, base.len() as int) == base
}

/// Whether `base` is a leading run of whole components of `path`.
pub fn starts_with_path(path: &str, base: &str) -> (r: bool)
    ensures
        r == comps_prefix(comps(base@), comps(path@)),
{
    let pc = components(path);
    let bc = components(base);
    if bc.len() > pc.len() {
        return false;
    }
    let mut i: usize = 0;
    while i < bc.len()
        invariant
            bc@.len() <= pc@.len(),
            i <= bc@.len(),
            comp_models(pc@) == comps(path@),
            comp_models(bc@) == comps(base@),
            forall|k: int| 0 <= k < i ==> pc@[k].model() == bc@[k].model(),
        decreases bc.len() - i,
    {
        if !component_eq(&pc[i], &bc[i]) {
            proof {
                assert(comp_models(pc@)[i as int] == pc@[i as int].model());
                assert(comp_models(bc@)[i as int] == bc@[i as int].model());
                assert(comps(path@).subrange(0, comps(base@).len() as int)[i as int] != comps(
                    base@,
                )[i as int]);
            }
            return false;
        }
        i = i + 1;
    }
    proof {
        assert forall|k: int| 0 <= k < comps(base@).len() implies comps(path@)[k] == comps(
            base@,
        )[k] by {
            assert(comp_models(pc@)[k] == pc@[k].model());
            assert(comp_models(bc@)[k] == bc@[k].model());
        }
        assert(comps(path@).subrange(0, comps(base@).len() as int) =~= comps(base@));
    }
    true
}

/// Whether `s` begins with the characters of `prefix`.
pub fn has_prefix(s: &str, prefix: &str) -> (r: bool)
    ensures
        r == (prefix@.len() <= s@.len() && s@.subrange(0, prefix@.len() as int) == prefix@),
{
    let a = chars_of(s);
    let b = chars_of(prefix);
    if b.len() > a.len() {
        return false;
    }
    let mut i: usize = 0;
    while i < b.len()
        invariant
            b@.len() <= a@.len(),
            i <= b@.len(),
            a@ == s@,
            b@ == prefix@,
            forall|k: int| 0 <= k < i ==> a@[k] == b@[k],
        decreases b.len() - i,
    {
        if a[i] != b[i] {
            proof {
                assert(a@[i as int] == s@[i as int]);
                assert(s@.subrange(0, prefix@.len() as int)[i as int] == s@[i as int]);
            }
            return false;
        }
        i = i + 1;
    }
    proof {
        assert(s@.subrange(0, prefix@.len() as int) =~= prefix@);
    }
    true
}

/// Whether two strings hold the same characters.
pub fn same_text(a: &str, b: &str) -> (r: bool)
    ensures
        r == (a@ == b@),
{
    let x = chars_of(a);
    let y = chars_of(b);
    let e = vec_eq(&x, y.as_slice());
    proof {
        if e {
            assert(a@ =~= b@);
        }
    }
    e
}

} // verus!
