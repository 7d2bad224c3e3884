//! Merging buffered write segments before they are sent to the server.
//!
//! A segment is an offset and the bytes written there. Writing segments in order into a
//! file gives its content; merging keeps that content while sending fewer, disjoint runs.
use vstd::prelude::*;

verus! {

/// A write segment as a mathematical value.
pub type Seg = (u64, Seq<u8>);

pub open spec fn seg_views(v: Seq<(u64, Vec<u8>)>) -> Seq<Seg> {
    Seq::new(v.len(), |i: int| (v[i].0, v[i].1@))
}

pub open spec fn seg_end(s: Seg) -> int {
    s.0 + s.1.len()
}

/// Every segment ends within the address range (`usize`).
pub open spec fn ends_fit(s: Seq<Seg>) -> bool {
    forall|i: int| 0 <= i < s.len() ==> seg_end(#[trigger] s[i]) <= usize::MAX
}

// ---------------------------------------------------------------------------
// The content that segments write
// ---------------------------------------------------------------------------

/// Memory after writing `data` at `off` over `m`.
pub open spec fn write_at(m: Map<int, u8>, off: int, data: Seq<u8>) -> Map<int, u8> {
    Map::new(
        |a: int| m.contains_key(a) || (off <= a < off + data.len()),
        |a: int| if off <= a < off + data.len() { data[a - off] } else { m[a] },
    )
}

/// Memory after writing the segments in order over `m`.
pub open spec fn apply(m: Map<int, u8>, s: Seq<Seg>) -> Map<int, u8>
    decreases s.len(),
{
    if s.len() == 0 {
        m
    } else {
        write_at(apply(m, s.drop_last()), s.last().0 as int, s.last().1)
    }
}

// ---------------------------------------------------------------------------
// Stable sorting by offset
// ---------------------------------------------------------------------------

/// Offsets never decrease.
pub open spec fn sorted_by_offset(s: Seq<Seg>) -> bool {
    forall|i: int, j: int| 0 <= i <= j < s.len() ==> s[i].0 <= s[j].0
}

/// Number of leading segments whose offset is at most `off`.
pub open spec fn insert_pos(t: Seq<Seg>, off: u64) -> nat
    decreases t.len(),
{
    if t.len() == 0 {
        0
    } else if t.last().0 <= off {
        t.len()
    } else {
        insert_pos(t.drop_last(), off)
    }
}

/// `x` placed after every segment of `t` whose offset is at most its own.
pub open spec fn insert_stable(t: Seq<Seg>, x: Seg) -> Seq<Seg> {
    t.insert(insert_pos(t, x.0) as int, x)
}

/// Segments sorted by offset, segments with equal offsets kept in their original order.
pub open spec fn stable_sort(s: Seq<Seg>) -> Seq<Seg>
    decreases s.len(),
{
    if s.len() == 0 {
        s
    } else {
        insert_stable(stable_sort(s.drop_last()), s.last())
    }
}

// ---------------------------------------------------------------------------
// Merging
// ---------------------------------------------------------------------------

/// `data` written into `buf` at `start` (with `start <= buf.len()`), growing `buf` when
/// `data` reaches past its end.
pub open spec fn overlay(buf: Seq<u8>, start: int, data: Seq<u8>) -> Seq<u8> {
    if start + data.len() >= buf.len() {
        buf.subrange(0, start) + data
    } else {
        buf.subrange(0, start) + data + buf.subrange(start + data.len(), buf.len() as int)
    }
}

/// Greedy merge of sorted segments: a segment that starts within or right at the end of
/// the previous run is written into that run; otherwise it starts a new run.
pub open spec fn merge_sorted(s: Seq<Seg>) -> Seq<Seg>
    decreases s.len(),
{
    if s.len() == 0 {
        s
    } else {
        let r = merge_sorted(s.drop_last());
        let x = s.last();
        if r.len() == 0 {
            seq![x]
        } else {
            let last = r.last();
            if x.0 <= seg_end(last) {
                r.update(r.len() - 1, (last.0, overlay(last.1, x.0 - last.0, x.1)))
            } else {
                r.push(x)
            }
        }
    }
}

/// What merging a list of segments returns.
pub open spec fn merge_spec(s: Seq<Seg>) -> Seq<Seg> {
    merge_sorted(stable_sort(s))
}

/// Runs are in increasing order and separated by at least one byte not written.
pub open spec fn disjoint_runs(s: Seq<Seg>) -> bool {
    forall|i: int| 0 <= i < s.len() - 1 ==> seg_end(#[trigger] s[i]) < s[i + 1].0
}

// ---------------------------------------------------------------------------
// Proofs
// ---------------------------------------------------------------------------

proof fn lemma_insert_pos_bound(t: Seq<Seg>, off: u64)
    ensures
        insert_pos(t, off) <= t.len(),
    decreases t.len(),
{
    if t.len() > 0 && t.last().0 > off {
        lemma_insert_pos_bound(t.drop_last(), off);
    }
}

proof fn lemma_insert_pos_props(t: Seq<Seg>, off: u64)
    requires
        sorted_by_offset(t),
    ensures
        insert_pos(t, off) <= t.len(),
        forall|i: int| 0 <= i < insert_pos(t, off) ==> t[i].0 <= off,
        forall|i: int| insert_pos(t, off) <= i < t.len() ==> t[i].0 > off,
    decreases t.len(),
{
    lemma_insert_pos_bound(t, off);
    if t.len() > 0 && t.last().0 > off {
        let u = t.drop_last();
        assert(sorted_by_offset(u)) by {
            assert forall|i: int, j: int| 0 <= i <= j < u.len() implies u[i].0 <= u[j].0 by {
                assert(u[i] == t[i] && u[j] == t[j]);
            }
        }
        lemma_insert_pos_props(u, off);
        assert forall|i: int| 0 <= i < insert_pos(t, off) implies t[i].0 <= off by {
            assert(t[i] == u[i]);
        }
        assert forall|i: int| insert_pos(t, off) <= i < t.len() implies t[i].0 > off by {
            if i < u.len() {
                assert(t[i] == u[i]);
            }
        }
    }
}

proof fn lemma_insert_sorted(t: Seq<Seg>, x: Seg)
    requires
        sorted_by_offset(t),
    ensures
        sorted_by_offset(insert_stable(t, x)),
        insert_stable(t, x).len() == t.len() + 1,
{
    lemma_insert_pos_props(t, x.0);
    let p = insert_pos(t, x.0) as int;
    let u = insert_stable(t, x);
    assert forall|i: int, j: int| 0 <= i <= j < u.len() implies u[i].0 <= u[j].0 by {
        if i < p {
            if j < p {
            } else if j == p {
            } else {
                assert(u[j] == t[j - 1]);
            }
        } else if i == p {
            if j > p {
                assert(u[j] == t[j - 1]);
            }
        } else {
            assert(u[i] == t[i - 1]);
            assert(u[j] == t[j - 1]);
        }
    }
}

proof fn lemma_stable_sort_sorted(s: Seq<Seg>)
    ensures
        sorted_by_offset(stable_sort(s)),
        stable_sort(s).len() == s.len(),
    decreases s.len(),
{
    if s.len() > 0 {
        lemma_stable_sort_sorted(s.drop_last());
        lemma_insert_sorted(stable_sort(s.drop_last()), s.last());
    }
}

/// Writing a run and then `data` inside or right after it is the same as writing the run
/// with `data` laid over it.
proof fn lemma_overlay_write(m: Map<int, u8>, off: int, buf: Seq<u8>, start: int, data: Seq<u8>)
    requires
        0 <= start <= buf.len(),
    ensures
        write_at(m, off, overlay(buf, start, data)) == write_at(
            write_at(m, off, buf),
            off + start,
            data,
        ),
        overlay(buf, start, data).len() == (if start + data.len() >= buf.len() {
            start + data.len()
        } else {
            buf.len() as int
        }),
{
    let o = overlay(buf, start, data);
    let lhs = write_at(m, off, o);
    let rhs = write_at(write_at(m, off, buf), off + start, data);
    assert forall|a: int| #[trigger] lhs.contains_key(a) == rhs.contains_key(a) by {}
    assert forall|a: int| lhs.contains_key(a) implies lhs[a] == rhs[a] by {
        if off + start <= a < off + start + data.len() {
            assert(o[a - off] == data[a - off - start]);
        } else if off <= a < off + buf.len() {
            assert(o[a - off] == buf[a - off]);
        }
    }
    assert(lhs =~= rhs);
}

proof fn lemma_merge_sorted_props(s: Seq<Seg>)
    requires
        sorted_by_offset(s),
        ends_fit(s),
    ensures
        apply(Map::empty(), merge_sorted(s)) == apply(Map::empty(), s),
        disjoint_runs(merge_sorted(s)),
        ends_fit(merge_sorted(s)),
        s.len() > 0 ==> merge_sorted(s).len() > 0,
        s.len() > 0 ==> seg_end(merge_sorted(s).last()) >= seg_end(s.last()),
        forall|i: int| 0 <= i < merge_sorted(s).len() ==> #[trigger] merge_sorted(s)[i].0 <= (
        if s.len() > 0 {
            s.last().0 as int
        } else {
            0
        }),
        forall|i: int|
            0 <= i < merge_sorted(s).len() ==> exists|j: int|
                0 <= j < s.len() && s[j].0 == #[trigger] merge_sorted(s)[i].0,
    decreases s.len(),
{
    if s.len() > 0 {
        let p = s.drop_last();
        assert(sorted_by_offset(p)) by {
            assert forall|i: int, j: int| 0 <= i <= j < p.len() implies p[i].0 <= p[j].0 by {
                assert(p[i] == s[i] && p[j] == s[j]);
            }
        }
        assert(ends_fit(p)) by {
            assert forall|i: int| 0 <= i < p.len() implies seg_end(#[trigger] p[i]) <= usize::MAX by {
                assert(p[i] == s[i]);
            }
        }
        lemma_merge_sorted_props(p);
        let r = merge_sorted(p);
        let x = s.last();
        assert(seg_end(s[s.len() - 1]) <= usize::MAX);
        if r.len() == 0 {
            assert(p.len() == 0);
            assert(merge_sorted(s) =~= seq![x]);
            assert(apply(Map::empty(), seq![x]) == write_at(
                apply(Map::empty(), seq![x].drop_last()),
                x.0 as int,
                x.1,
            ));
            assert(seq![x].drop_last() =~= Seq::<Seg>::empty());
            assert(s.drop_last() =~= Seq::<Seg>::empty());
        } else {
            let last = r.last();
            // the last run starts at an offset no greater than x's
            assert(exists|j: int| 0 <= j < p.len() && p[j].0 == r[r.len() - 1].0);
            let j = choose|j: int| 0 <= j < p.len() && p[j].0 == r[r.len() - 1].0;
            assert(p[j] == s[j]);
            assert(last.0 <= x.0);
            if x.0 <= seg_end(last) {
                let start = x.0 - last.0;
                let m = merge_sorted(s);
                lemma_overlay_write(apply(Map::empty(), r.drop_last()), last.0 as int, last.1, start, x.1);
                assert(m.drop_last() =~= r.drop_last());
                assert(m.last() == (last.0, overlay(last.1, start, x.1)));
                assert(apply(Map::empty(), r) == write_at(
                    apply(Map::empty(), r.drop_last()),
                    last.0 as int,
                    last.1,
                ));
                assert(apply(Map::empty(), m) == write_at(
                    apply(Map::empty(), m.drop_last()),
                    m.last().0 as int,
                    m.last().1,
                ));
                assert forall|i: int| 0 <= i < m.len() - 1 implies seg_end(#[trigger] m[i]) < m[i + 1].0 by {
                    assert(m[i] == r[i]);
                    if i + 1 < m.len() - 1 {
                        assert(m[i + 1] == r[i + 1]);
                    }
                }
                assert forall|i: int| 0 <= i < m.len() implies seg_end(#[trigger] m[i]) <= usize::MAX by {
                    if i < m.len() - 1 {
                        assert(m[i] == r[i]);
                    }
                }
                assert forall|i: int| 0 <= i < m.len() implies #[trigger] m[i].0 <= s.last().0 by {
                    if i < m.len() - 1 {
                        assert(m[i] == r[i]);
                    }
                }
                assert forall|i: int| 0 <= i < m.len() implies exists|j: int|
                    0 <= j < s.len() && s[j].0 == #[trigger] m[i].0 by {
                    if i < m.len() - 1 {
                        assert(m[i] == r[i]);
                        let k = choose|k: int| 0 <= k < p.len() && p[k].0 == r[i].0;
                        assert(s[k] == p[k]);
                    } else {
                        assert(s[j] == p[j]);
                    }
                }
            } else {
                let m = merge_sorted(s);
                assert(m == r.push(x));
                assert(m.drop_last() =~= r);
                assert forall|i: int| 0 <= i < m.len() - 1 implies seg_end(#[trigger] m[i]) < m[i + 1].0 by {
                    assert(m[i] == r[i]);
                    if i + 1 < m.len() - 1 {
                        assert(m[i + 1] == r[i + 1]);
                    }
                }
                assert forall|i: int| 0 <= i < m.len() implies seg_end(#[trigger] m[i]) <= usize::MAX by {
                    if i < m.len() - 1 {
                        assert(m[i] == r[i]);
                    }
                }
                assert forall|i: int| 0 <= i < m.len() implies #[trigger] m[i].0 <= s.last().0 by {
                    if i < m.len() - 1 {
                        assert(m[i] == r[i]);
                    }
                }
                assert forall|i: int| 0 <= i < m.len() implies exists|j: int|
                    0 <= j < s.len() && s[j].0 == #[trigger] m[i].0 by {
                    if i < m.len() - 1 {
                        assert(m[i] == r[i]);
                        let k = choose|k: int| 0 <= k < p.len() && p[k].0 == r[i].0;
                        assert(s[k] == p[k]);
                    } else {
                        assert(s[s.len() - 1].0 == m[i].0);
                    }
                }
            }
        }
    }
}

proof fn lemma_sort_ends_fit(s: Seq<Seg>)
    requires
        ends_fit(s),
    ensures
        ends_fit(stable_sort(s)),
    decreases s.len(),
{
    if s.len() > 0 {
        let p = s.drop_last();
        assert(ends_fit(p)) by {
            assert forall|i: int| 0 <= i < p.len() implies seg_end(#[trigger] p[i]) <= usize::MAX by {
                assert(p[i] == s[i]);
            }
        }
        lemma_sort_ends_fit(p);
        let t = stable_sort(p);
        lemma_insert_pos_bound(t, s.last().0);
        let u = insert_stable(t, s.last());
        let q = insert_pos(t, s.last().0) as int;
        assert(seg_end(s[s.len() - 1]) <= usize::MAX);
        assert forall|i: int| 0 <= i < u.len() implies seg_end(#[trigger] u[i]) <= usize::MAX by {
            if i < q {
                assert(u[i] == t[i]);
            } else if i > q {
                assert(u[i] == t[i - 1]);
            }
        }
    }
}

/// Merging keeps the content that the segments write when sent in offset order (writes
/// at equal offsets in the order they were made), and leaves disjoint runs in increasing
/// order.
pub proof fn lemma_merge_preserves_content(s: Seq<Seg>)
    requires
        ends_fit(s),
    ensures
        apply(Map::empty(), merge_spec(s)) == apply(Map::empty(), stable_sort(s)),
        disjoint_runs(merge_spec(s)),
        s.len() > 0 ==> merge_spec(s).len() > 0,
{
    lemma_stable_sort_sorted(s);
    lemma_sort_ends_fit(s);
    lemma_merge_sorted_props(stable_sort(s));
}

/// The segments of `s` that start at `o`, in their order in `s`.
pub open spec fn at_offset(s: Seq<Seg>, o: u64) -> Seq<Seg>
    decreases s.len(),
{
    if s.len() == 0 {
        s
    } else {
        let r = at_offset(s.drop_last(), o);
        if s.last().0 == o {
            r.push(s.last())
        } else {
            r
        }
    }
}

proof fn lemma_at_offset_add(a: Seq<Seg>, b: Seq<Seg>, o: u64)
    ensures
        at_offset(a + b, o) == at_offset(a, o) + at_offset(b, o),
    decreases b.len(),
{
    if b.len() == 0 {
        assert(a + b =~= a);
        assert(at_offset(a, o) + at_offset(b, o) =~= at_offset(a, o));
    } else {
        lemma_at_offset_add(a, b.drop_last(), o);
        assert((a + b).drop_last() =~= a + b.drop_last());
        assert((a + b).last() == b.last());
        if b.last().0 == o {
            assert(at_offset(a, o) + at_offset(b.drop_last(), o).push(b.last()) =~= (at_offset(a, o) + at_offset(b.drop_last(), o)).push(b.last()));
        }
    }
}

proof fn lemma_at_offset_none(s: Seq<Seg>, o: u64)
    requires
        forall|i: int| 0 <= i < s.len() ==> #[trigger] s[i].0 != o,
    ensures
        at_offset(s, o) == Seq::<Seg>::empty(),
    decreases s.len(),
{
    if s.len() > 0 {
        assert forall|i: int| 0 <= i < s.drop_last().len() implies #[trigger] s.drop_last()[i].0 != o by {
            assert(s.drop_last()[i] == s[i]);
        }
        lemma_at_offset_none(s.drop_last(), o);
        assert(s[s.len() - 1].0 != o);
    }
}

/// Inserting a segment after every segment whose offset is at most its own keeps the
/// order of each offset's segments, the new one last among its own.
proof fn lemma_at_offset_insert(t: Seq<Seg>, x: Seg, o: u64)
    requires
        sorted_by_offset(t),
    ensures
        at_offset(insert_stable(t, x), o) == if x.0 == o { at_offset(t, o).push(x) } else { at_offset(t, o) },
{
    lemma_insert_pos_props(t, x.0);
    let p = insert_pos(t, x.0) as int;
    let a = t.subrange(0, p);
    let b = t.subrange(p, t.len() as int);
    assert(t =~= a + b);
    assert(insert_stable(t, x) =~= a + seq![x] + b);
    lemma_at_offset_add(a + seq![x], b, o);
    lemma_at_offset_add(a, seq![x], o);
    lemma_at_offset_add(a, b, o);
    assert(seq![x].drop_last() =~= Seq::<Seg>::empty());
    assert(seq![x].last() == x);
    assert(at_offset(Seq::<Seg>::empty(), o) =~= Seq::<Seg>::empty());
    assert(at_offset(seq![x].drop_last(), o) =~= Seq::<Seg>::empty());
    if x.0 == o {
        assert forall|i: int| 0 <= i < b.len() implies #[trigger] b[i].0 != o by {
            assert(b[i] == t[p + i]);
        }
        lemma_at_offset_none(b, o);
        assert(at_offset(seq![x], o) =~= seq![x]);
        assert(at_offset(a, o) + seq![x] + Seq::<Seg>::empty() =~= (at_offset(a, o) + Seq::<Seg>::empty()).push(x));
    } else {
        assert(at_offset(seq![x], o) =~= Seq::<Seg>::empty());
        assert(at_offset(a, o) + Seq::<Seg>::empty() + at_offset(b, o) =~= at_offset(a, o) + at_offset(b, o));
    }
}

/// Sorting by offset keeps the order in which segments at one offset were buffered: for
/// every offset, the segments starting there come out in the order they went in (so the
/// later of two writes at the same offset stays later, and wins); the result is sorted
/// and holds the same segments.
pub proof fn lemma_sort_keeps_write_order(s: Seq<Seg>, o: u64)
    ensures
        at_offset(stable_sort(s), o) == at_offset(s, o),
        sorted_by_offset(stable_sort(s)),
        stable_sort(s).to_multiset() == s.to_multiset(),
    decreases s.len(),
{
    lemma_stable_sort_sorted(s);
    lemma_stable_sort_multiset(s);
    if s.len() > 0 {
        lemma_sort_keeps_write_order(s.drop_last(), o);
        lemma_stable_sort_sorted(s.drop_last());
        lemma_at_offset_insert(stable_sort(s.drop_last()), s.last(), o);
    }
}

proof fn lemma_sorted_stays(s: Seq<Seg>)
    requires
        sorted_by_offset(s),
    ensures
        stable_sort(s) == s,
    decreases s.len(),
{
    if s.len() > 0 {
        let p = s.drop_last();
        assert(sorted_by_offset(p)) by {
            assert forall|i: int, j: int| 0 <= i <= j < p.len() implies p[i].0 <= p[j].0 by {
                assert(p[i] == s[i] && p[j] == s[j]);
            }
        }
        lemma_sorted_stays(p);
        lemma_insert_pos_props(p, s.last().0);
        if insert_pos(p, s.last().0) < p.len() {
            let q = insert_pos(p, s.last().0) as int;
            assert(p[q] == s[q]);
            assert(s[q].0 <= s[s.len() - 1].0);
        }
        assert(p.insert(p.len() as int, s.last()) =~= s);
    }
}

/// Segments buffered in offset order merge to the content of writing them in the order
/// they were buffered: in particular the later of two writes at the same offset wins.
pub proof fn lemma_merge_in_buffer_order(s: Seq<Seg>)
    requires
        sorted_by_offset(s),
        ends_fit(s),
    ensures
        apply(Map::empty(), merge_spec(s)) == apply(Map::empty(), s),
{
    lemma_sorted_stays(s);
    lemma_merge_preserves_content(s);
}

/// No two segments start at the same offset.
pub open spec fn distinct_offsets(s: Seq<Seg>) -> bool {
    forall|i: int, j: int| 0 <= i < j < s.len() ==> s[i].0 != s[j].0
}

proof fn lemma_stable_sort_multiset(s: Seq<Seg>)
    ensures
        stable_sort(s).to_multiset() == s.to_multiset(),
    decreases s.len(),
{
    broadcast use vstd::seq_lib::group_to_multiset_ensures;
    if s.len() > 0 {
        lemma_stable_sort_multiset(s.drop_last());
        let t = stable_sort(s.drop_last());
        lemma_stable_sort_sorted(s.drop_last());
        lemma_insert_pos_bound(t, s.last().0);
        vstd::seq_lib::to_multiset_insert(t, insert_pos(t, s.last().0) as int, s.last());
        assert(s.drop_last().push(s.last()) =~= s);
    }
}

/// A permutation of segments with distinct offsets has distinct offsets too.
proof fn lemma_distinct_offsets_permuted(s: Seq<Seg>, t: Seq<Seg>)
    requires
        distinct_offsets(s),
        t.to_multiset() == s.to_multiset(),
    ensures
        distinct_offsets(t),
{
    broadcast use vstd::seq_lib::group_to_multiset_ensures;
    assert(s.no_duplicates()) by {
        assert forall|i: int, j: int| 0 <= i < s.len() && 0 <= j < s.len() && i != j implies s[i] != s[j] by {
            if i < j {
                assert(s[i].0 != s[j].0);
            } else {
                assert(s[j].0 != s[i].0);
            }
        }
    }
    s.lemma_multiset_has_no_duplicates();
    t.lemma_multiset_has_no_duplicates_conv();
    assert forall|i: int, j: int| 0 <= i < j < t.len() implies t[i].0 != t[j].0 by {
        assert(t[i] != t[j]);
        assert(t.contains(t[i]) && t.contains(t[j]));
        assert(t.to_multiset().count(t[i]) > 0 && t.to_multiset().count(t[j]) > 0);
        assert(s.contains(t[i]) && s.contains(t[j]));
        let a = choose|a: int| 0 <= a < s.len() && s[a] == t[i];
        let b = choose|b: int| 0 <= b < s.len() && s[b] == t[j];
        if a < b {
            assert(s[a].0 != s[b].0);
        } else if b < a {
            assert(s[b].0 != s[a].0);
        }
    }
}

/// Two sequences sorted by distinct offsets that hold the same segments are equal.
proof fn lemma_sorted_unique(a: Seq<Seg>, b: Seq<Seg>)
    requires
        sorted_by_offset(a),
        sorted_by_offset(b),
        distinct_offsets(a),
        distinct_offsets(b),
        a.to_multiset() == b.to_multiset(),
    ensures
        a == b,
    decreases a.len(),
{
    broadcast use vstd::seq_lib::group_to_multiset_ensures;
    assert(a.to_multiset().len() == a.len());
    assert(b.to_multiset().len() == b.len());
    if a.len() == 0 {
        assert(b.len() == 0);
        assert(a =~= b);
    } else {
        assert(b.len() == a.len());
        let n = a.len() - 1;
        assert(a.contains(a[n]));
        assert(a.to_multiset().count(a[n]) > 0);
        assert(b.contains(a[n]));
        let j = choose|j: int| 0 <= j < b.len() && b[j] == a[n];
        assert(b.contains(b[n]));
        assert(b.to_multiset().count(b[n]) > 0);
        assert(a.contains(b[n]));
        let i = choose|i: int| 0 <= i < a.len() && a[i] == b[n];
        assert(a[n].0 <= b[n].0);
        assert(b[n].0 <= a[n].0);
        if j < n {
            assert(b[j].0 != b[n].0);
        }
        assert(a[n] == b[n]);
        let a2 = a.drop_last();
        let b2 = b.drop_last();
        assert(a.remove(n) =~= a2);
        assert(b.remove(n) =~= b2);
        vstd::seq_lib::to_multiset_remove(a, n);
        vstd::seq_lib::to_multiset_remove(b, n);
        assert(sorted_by_offset(a2)) by {
            assert forall|x: int, y: int| 0 <= x <= y < a2.len() implies a2[x].0 <= a2[y].0 by {
                assert(a2[x] == a[x] && a2[y] == a[y]);
            }
        }
        assert(sorted_by_offset(b2)) by {
            assert forall|x: int, y: int| 0 <= x <= y < b2.len() implies b2[x].0 <= b2[y].0 by {
                assert(b2[x] == b[x] && b2[y] == b[y]);
            }
        }
        assert(distinct_offsets(a2)) by {
            assert forall|x: int, y: int| 0 <= x < y < a2.len() implies a2[x].0 != a2[y].0 by {
                assert(a2[x] == a[x] && a2[y] == a[y]);
            }
        }
        assert(distinct_offsets(b2)) by {
            assert forall|x: int, y: int| 0 <= x < y < b2.len() implies b2[x].0 != b2[y].0 by {
                assert(b2[x] == b[x] && b2[y] == b[y]);
            }
        }
        lemma_sorted_unique(a2, b2);
        assert forall|k: int| 0 <= k < a.len() implies a[k] == b[k] by {
            if k < n {
                assert(a[k] == a2[k] && b[k] == b2[k]);
            }
        }
        assert(a =~= b);
    }
}

/// When no two segments start at the same offset, merging does not depend on the order
/// in which they were buffered: every permutation of the segments merges to the same
/// runs.
pub proof fn lemma_merge_order_independent(s: Seq<Seg>, p: Seq<Seg>)
    requires
        distinct_offsets(s),
        p.to_multiset() == s.to_multiset(),
    ensures
        merge_spec(p) == merge_spec(s),
{
    lemma_stable_sort_multiset(s);
    lemma_stable_sort_multiset(p);
    lemma_stable_sort_sorted(s);
    lemma_stable_sort_sorted(p);
    lemma_distinct_offsets_permuted(s, stable_sort(s));
    lemma_distinct_offsets_permuted(s, p);
    lemma_distinct_offsets_permuted(s, stable_sort(p));
    lemma_sorted_unique(stable_sort(s), stable_sort(p));
}

// ---------------------------------------------------------------------------
// Executable merge
// ---------------------------------------------------------------------------

proof fn lemma_seg_views_remove_first(v: Seq<(u64, Vec<u8>)>)
    requires
        v.len() > 0,
    ensures
        seg_views(v).len() == v.len(),
        seg_views(v)[0] == (v[0].0, v[0].1@),
        seg_views(v.remove(0)) == seg_views(v).subrange(1, v.len() as int),
{
    let a = seg_views(v.remove(0));
    let b = seg_views(v).subrange(1, v.len() as int);
    assert forall|k: int| 0 <= k < a.len() implies a[k] == b[k] by {
        assert(v.remove(0)[k] == v[k + 1]);
    }
    assert(a =~= b);
}

fn stable_sort_exec(segments: Vec<(u64, Vec<u8>)>) -> (r: Vec<(u64, Vec<u8>)>)
    ensures
        seg_views(r@) == stable_sort(seg_views(segments@)),
{
    let mut input = segments;
    let ghost orig = seg_views(input@);
    let mut out: Vec<(u64, Vec<u8>)> = Vec::new();
    let mut n: usize = 0;
    proof {
        assert(orig.subrange(0, 0) =~= Seq::<Seg>::empty());
        assert(seg_views(out@) =~= stable_sort(orig.subrange(0, 0)));
        assert(seg_views(input@) =~= orig.subrange(0, orig.len() as int));
        assert(orig.len() == input.len());
    }
    while input.len() > 0
        invariant
            n <= orig.len(),
            orig.len() <= usize::MAX,
            seg_views(input@) == orig.subrange(n as int, orig.len() as int),
            seg_views(out@) == stable_sort(orig.subrange(0, n as int)),
            sorted_by_offset(seg_views(out@)),
        decreases input.len(),
    {
        let ghost before = input@;
        let x = input.remove(0);
        let ghost xv: Seg = (x.0, x.1@);
        proof {
            lemma_seg_views_remove_first(before);
            assert(orig.subrange(n as int, orig.len() as int)[0] == orig[n as int]);
            assert(xv == orig[n as int]);
            assert(seg_views(input@) =~= orig.subrange(n + 1, orig.len() as int));
        }
        // first position whose offset exceeds x's
        let mut p: usize = out.len();
        proof {
            assert(seg_views(out@).subrange(0, p as int) =~= seg_views(out@));
        }
        while p > 0 && out[p - 1].0 > x.0
            invariant
                p <= out@.len(),
                insert_pos(seg_views(out@).subrange(0, p as int), x.0) == insert_pos(
                    seg_views(out@),
                    x.0,
                ),
            decreases p,
        {
            proof {
                let t = seg_views(out@).subrange(0, p as int);
                assert(t.drop_last() =~= seg_views(out@).subrange(0, p - 1));
            }
            p = p - 1;
        }
        proof {
            let t = seg_views(out@).subrange(0, p as int);
            if p > 0 {
                assert(insert_pos(t, x.0) == t.len());
            }
        }
        let ghost old_out = seg_views(out@);
        out.insert(p, x);
        proof {
            assert(seg_views(out@) =~= old_out.insert(p as int, xv));
            assert(orig.subrange(0, n + 1).drop_last() =~= orig.subrange(0, n as int));
            assert(orig.subrange(0, n + 1).last() == xv);
            lemma_insert_sorted(old_out, xv);
        }
        n = n + 1;
    }
    proof {
        assert(orig.subrange(0, n as int) =~= orig);
    }
    out
}

/// Merge overlapping or adjacent write segments into contiguous (offset, data) runs.
pub fn merge_write_segments(segments: Vec<(u64, Vec<u8>)>) -> (r: Vec<(u64, Vec<u8>)>)
    requires
        ends_fit(seg_views(segments@)),
    ensures
        seg_views(r@) == merge_spec(seg_views(segments@)),
{
    if segments.len() == 0 {
        proof {
            assert(seg_views(segments@) =~= Seq::<Seg>::empty());
        }
        return segments;
    }
    let ghost orig = seg_views(segments@);
    let sorted = stable_sort_exec(segments);
    proof {
        lemma_stable_sort_sorted(orig);
        lemma_sort_ends_fit(orig);
    }
    let ghost srt = seg_views(sorted@);
    let mut input = sorted;
    let mut result: Vec<(u64, Vec<u8>)> = Vec::new();
    let mut n: usize = 0;
    proof {
        assert(srt.subrange(0, 0) =~= Seq::<Seg>::empty());
        assert(seg_views(result@) =~= merge_sorted(srt.subrange(0, 0)));
        assert(seg_views(input@) =~= srt.subrange(0, srt.len() as int));
        assert(srt.len() == input.len());
    }
    while input.len() > 0
        invariant
            n <= srt.len(),
            srt.len() <= usize::MAX,
            seg_views(input@) == srt.subrange(n as int, srt.len() as int),
            seg_views(result@) == merge_sorted(srt.subrange(0, n as int)),
            ends_fit(srt),
            sorted_by_offset(srt),
        decreases input.len(),
    {
        let ghost before = input@;
        let (off, data) = input.remove(0);
        let ghost xv: Seg = (off, data@);
        proof {
            lemma_seg_views_remove_first(before);
            assert(srt.subrange(n as int, srt.len() as int)[0] == srt[n as int]);
            assert(xv == srt[n as int]);
            assert(seg_views(input@) =~= srt.subrange(n + 1, srt.len() as int));
            assert(srt.subrange(0, n + 1).drop_last() =~= srt.subrange(0, n as int));
            assert(srt.subrange(0, n + 1).last() == xv);
            assert(ends_fit(srt.subrange(0, n as int))) by {
                assert forall|i: int| 0 <= i < n implies seg_end(
                    #[trigger] srt.subrange(0, n as int)[i],
                ) <= usize::MAX by {
                    assert(srt.subrange(0, n as int)[i] == srt[i]);
                }
            }
            assert(sorted_by_offset(srt.subrange(0, n as int))) by {
                let q = srt.subrange(0, n as int);
                assert forall|i: int, j: int| 0 <= i <= j < q.len() implies q[i].0 <= q[j].0 by {
                    assert(q[i] == srt[i] && q[j] == srt[j]);
                }
            }
            if n > 0 {
                lemma_merge_sorted_props(srt.subrange(0, n as int));
                assert(srt.subrange(0, n as int).last() == srt[n - 1]);
            }
            assert(seg_end(srt[n as int]) <= usize::MAX);
        }
        let rlen = result.len();
        if rlen == 0 {
            result.push((off, data));
            proof {
                assert(seg_views(result@) =~= seq![xv]);
            }
        } else {
            let last_off = result[rlen - 1].0;
            let last_len = result[rlen - 1].1.len();
            proof {
                let q = srt.subrange(0, n as int);
                assert(ends_fit(merge_sorted(q)));
                assert(seg_end(merge_sorted(q)[merge_sorted(q).len() - 1]) <= usize::MAX);
                assert(merge_sorted(q)[merge_sorted(q).len() - 1].0 <= q.last().0);
                assert(q.last().0 <= off);
            }
            let last_end: u64 = last_off + (last_len as u64);
            if off <= last_end {
                let start = (off - last_off) as usize;
                let ghost r0 = seg_views(result@);
                let mut tmp: Vec<(u64, Vec<u8>)> = Vec::new();
                std::mem::swap(&mut tmp, &mut result);
                let (lo, mut buf) = tmp.pop().unwrap();
                let ghost b0 = buf@;
                overlay_exec(&mut buf, start, &data);
                tmp.push((lo, buf));
                result = tmp;
                proof {
                    assert(seg_views(result@) =~= r0.update(r0.len() - 1, (r0.last().0, overlay(
                        b0,
                        off - r0.last().0,
                        data@,
                    ))));
                }
            } else {
                result.push((off, data));
                proof {
                    assert(seg_views(result@) =~= merge_sorted(srt.subrange(0, n as int)).push(xv));
                }
            }
        }
        n = n + 1;
    }
    proof {
        assert(srt.subrange(0, n as int) =~= srt);
    }
    result
}

/// Writes `data` into `buf` at `start`, growing `buf` with zeros first when needed.
fn overlay_exec(buf: &mut Vec<u8>, start: usize, data: &Vec<u8>)
    requires
        start <= old(buf)@.len(),
        start + data@.len() <= usize::MAX,
    ensures
        final(buf)@ == overlay(old(buf)@, start as int, data@),
{
    let end = start + data.len();
    if end > buf.len() {
        buf.resize(end, 0u8);
    }
    let ghost grown = buf@;
    let mut i: usize = 0;
    while i < data.len()
        invariant
            end == start + data@.len(),
            buf@.len() == grown.len(),
            grown.len() >= end,
            start <= old(buf)@.len(),
            i <= data@.len(),
            forall|k: int| 0 <= k < start ==> buf@[k] == old(buf)@[k],
            forall|k: int| start <= k < start + i ==> buf@[k] == data@[k - start],
            forall|k: int| end <= k < buf@.len() ==> buf@[k] == old(buf)@[k],
        decreases data.len() - i,
    {
        buf.set(start + i, data[i]);
        i = i + 1;
    }
    proof {
        assert(buf@ =~= overlay(old(buf)@, start as int, data@));
    }
}

/// Whether every segment ends within `usize`.
pub fn segments_fit(segs: &Vec<(u64, Vec<u8>)>) -> (r: bool)
    ensures
        r == ends_fit(seg_views(segs@)),
{
    let mut i: usize = 0;
    while i < segs.len()
        invariant
            i <= segs@.len(),
            forall|j: int| 0 <= j < i ==> seg_end(#[trigger] seg_views(segs@)[j]) <= usize::MAX,
        decreases segs.len() - i,
    {
        let off = segs[i].0;
        let len = segs[i].1.len();
        if off > (usize::MAX as u64) {
            assert(seg_end(seg_views(segs@)[i as int]) > usize::MAX);
            return false;
        }
        if (off as usize) > usize::MAX - len {
            assert(seg_end(seg_views(segs@)[i as int]) > usize::MAX);
            return false;
        }
        i = i + 1;
    }
    true
}

} // verus!
