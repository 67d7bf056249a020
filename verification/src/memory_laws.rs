use vstd::prelude::*;

use crate::interval::{AbstractInterval, MayBeFlag};
use crate::memory::{
    all_contained, all_disjoint, leading_le, lemma_leading_le_bound, meeting, remains_all, remains_of, segments_wf,
    sort_by_start, spec_check_read, spec_covers, spec_write, sweep, zero_interval, Segment,
};

verus! {

/// Every segment of `s` is disjoint from `addr`.
pub open spec fn all_apart(s: Seq<Segment>, addr: AbstractInterval) -> bool {
    forall|i: int| 0 <= i < s.len() ==> (#[trigger] s[i]).addr.is_disjoint_spec(addr)
}

/// Every segment of `s` lies within some segment of `t`.
pub open spec fn within(s: Seq<Segment>, t: Seq<Segment>) -> bool {
    forall|i: int|
        0 <= i < s.len() ==> exists|j: int|
            0 <= j < t.len() && t[j].addr.lo <= (#[trigger] s[i]).addr.lo && s[i].addr.hi
                <= t[j].addr.hi
}

proof fn lemma_remains_apart(segs: Seq<Segment>, addr: AbstractInterval)
    ensures
        all_apart(remains_all(segs, addr), addr),
    decreases segs.len(),
{
    if segs.len() > 0 {
        lemma_remains_apart(segs.drop_last(), addr);
        let a = remains_all(segs.drop_last(), addr);
        let b = remains_of(segs.last(), addr);
        assert forall|i: int| 0 <= i < (a + b).len() implies (#[trigger] (a + b)[i]).addr.is_disjoint_spec(addr) by {
            if i < a.len() {
                assert((a + b)[i] == a[i]);
            } else {
                assert((a + b)[i] == b[i - a.len()]);
            }
        }
    }
}

proof fn lemma_meeting_apart(s: Seq<Segment>, addr: AbstractInterval)
    requires
        all_apart(s, addr),
    ensures
        meeting(s, addr) == Seq::<Segment>::empty(),
    decreases s.len(),
{
    if s.len() > 0 {
        let d = s.drop_last();
        assert forall|i: int| 0 <= i < d.len() implies (#[trigger] d[i]).addr.is_disjoint_spec(addr) by {
            assert(d[i] == s[i]);
        }
        lemma_meeting_apart(d, addr);
        assert(s.last() == s[s.len() - 1]);
    }
}

/// A read of the addresses just written answers by the written values alone:
/// `True` when `val` contains them all, `False` when it contains none of
/// them, `MayBe` otherwise.
pub proof fn law_read_after_write(
    segs: Seq<Segment>,
    addr: AbstractInterval,
    value: AbstractInterval,
    val: AbstractInterval,
)
    requires
        addr.lo <= addr.hi,
    ensures
        spec_check_read(spec_write(segs, addr, value), addr, val) == (if val.contains_spec(value) {
            MayBeFlag::True
        } else if value.is_disjoint_spec(val) {
            MayBeFlag::False
        } else {
            MayBeFlag::MayBe
        }),
{
    let rem = remains_all(segs, addr);
    let new_seg = Segment { addr, value };
    let w = spec_write(segs, addr, value);
    lemma_remains_apart(segs, addr);
    lemma_meeting_apart(rem, addr);
    assert(w.drop_last() =~= rem);
    assert(w.last() == new_seg);
    assert(meeting(w, addr) =~= seq![new_seg]);
    let single = seq![new_seg];
    assert(single.drop_last() =~= Seq::<Segment>::empty());
    assert(sort_by_start(Seq::<Segment>::empty()) == Seq::<Segment>::empty());
    assert(leading_le(Seq::<Segment>::empty(), addr.lo) == 0);
    assert(Seq::<Segment>::empty().insert(0, new_seg) =~= single);
    assert(sort_by_start(single) == single);
    assert(single.drop_first() =~= Seq::<Segment>::empty());
    assert(sweep(single, addr.lo as int, addr.hi as int));
    assert(spec_covers(w, addr));
    assert(w[w.len() - 1] == new_seg);
    assert forall|i: int| 0 <= i < w.len() - 1 implies (#[trigger] w[i]).addr.is_disjoint_spec(addr) by {
        assert(w[i] == rem[i]);
    }
    assert(all_contained(w, addr, val) == val.contains_spec(value));
    assert(all_disjoint(w, addr, val) == value.is_disjoint_spec(val));
}

/// An empty memory reads as zero everywhere.
pub proof fn law_empty_reads_zero(addr: AbstractInterval, val: AbstractInterval)
    ensures
        spec_check_read(Seq::<Segment>::empty(), addr, val) == (if val.contains_spec(zero_interval()) {
            MayBeFlag::True
        } else if zero_interval().is_disjoint_spec(val) {
            MayBeFlag::False
        } else {
            MayBeFlag::MayBe
        }),
{
    let e = Seq::<Segment>::empty();
    assert(meeting(e, addr) == e);
    assert(sort_by_start(e) == e);
    assert(!spec_covers(e, addr));
}

proof fn lemma_remains_wf(segs: Seq<Segment>, addr: AbstractInterval)
    requires
        segments_wf(segs),
        addr.lo <= addr.hi,
    ensures
        segments_wf(remains_all(segs, addr)),
        within(remains_all(segs, addr), segs),
    decreases segs.len(),
{
    if segs.len() > 0 {
        let d = segs.drop_last();
        let x = segs.last();
        assert(x == segs[segs.len() - 1]);
        assert forall|i: int| 0 <= i < d.len() implies (#[trigger] d[i]) == segs[i] by {}
        assert(segments_wf(d)) by {
            assert forall|i: int, j: int| 0 <= i < d.len() && 0 <= j < d.len() && i != j implies (#[trigger] d[i]).addr.is_disjoint_spec((#[trigger] d[j]).addr) by {
                assert(d[i] == segs[i] && d[j] == segs[j]);
            }
        }
        lemma_remains_wf(d, addr);
        let a = remains_all(d, addr);
        let b = remains_of(x, addr);
        let r = a + b;
        assert(r == remains_all(segs, addr));
        // pieces of `x` lie within `x`, are non-empty and apart from each other
        assert forall|k: int| 0 <= k < b.len() implies x.addr.lo <= (#[trigger] b[k]).addr.lo && b[k].addr.hi <= x.addr.hi && b[k].addr.lo <= b[k].addr.hi by {}
        // every segment of `a` lies within a segment of `d`, which is apart from `x`
        assert forall|i: int| 0 <= i < a.len() implies (#[trigger] a[i]).addr.is_disjoint_spec(x.addr) by {
            let j = choose|j: int| 0 <= j < d.len() && d[j].addr.lo <= a[i].addr.lo && a[i].addr.hi <= d[j].addr.hi;
            assert(segs[j].addr.is_disjoint_spec(segs[segs.len() - 1].addr));
        }
        assert forall|i: int| 0 <= i < r.len() implies (#[trigger] r[i]).addr.lo <= r[i].addr.hi by {
            if i < a.len() {
                assert(r[i] == a[i]);
            } else {
                assert(r[i] == b[i - a.len()]);
            }
        }
        assert forall|i: int, j: int| 0 <= i < r.len() && 0 <= j < r.len() && i != j implies (#[trigger] r[i]).addr.is_disjoint_spec((#[trigger] r[j]).addr) by {
            if i < a.len() && j < a.len() {
                assert(r[i] == a[i] && r[j] == a[j]);
            } else if i < a.len() {
                assert(r[i] == a[i] && r[j] == b[j - a.len()]);
            } else if j < a.len() {
                assert(r[i] == b[i - a.len()] && r[j] == a[j]);
            } else {
                assert(r[i] == b[i - a.len()] && r[j] == b[j - a.len()]);
            }
        }
        assert forall|i: int| 0 <= i < r.len() implies exists|j: int| 0 <= j < segs.len() && segs[j].addr.lo <= (#[trigger] r[i]).addr.lo && r[i].addr.hi <= segs[j].addr.hi by {
            if i < a.len() {
                assert(r[i] == a[i]);
                let j = choose|j: int| 0 <= j < d.len() && d[j].addr.lo <= a[i].addr.lo && a[i].addr.hi <= d[j].addr.hi;
                assert(segs[j] == d[j]);
            } else {
                assert(r[i] == b[i - a.len()]);
                assert(segs[segs.len() - 1] == x);
            }
        }
    }
}

/// Writing a non-empty address range keeps the segments non-empty and
/// pairwise apart.
pub proof fn law_write_keeps_segments_apart(segs: Seq<Segment>, addr: AbstractInterval, value: AbstractInterval)
    requires
        segments_wf(segs),
        addr.lo <= addr.hi,
    ensures
        segments_wf(spec_write(segs, addr, value)),
{
    lemma_remains_wf(segs, addr);
    lemma_remains_apart(segs, addr);
    let rem = remains_all(segs, addr);
    let w = spec_write(segs, addr, value);
    assert forall|i: int| 0 <= i < w.len() - 1 implies (#[trigger] w[i]) == rem[i] by {}
    assert forall|i: int, j: int| 0 <= i < w.len() && 0 <= j < w.len() && i != j implies (#[trigger] w[i]).addr.is_disjoint_spec((#[trigger] w[j]).addr) by {
        if i < w.len() - 1 && j < w.len() - 1 {
            assert(w[i] == rem[i] && w[j] == rem[j]);
        } else if i < w.len() - 1 {
            assert(w[i] == rem[i]);
            assert(rem[i].addr.is_disjoint_spec(addr));
        } else {
            assert(w[j] == rem[j]);
            assert(rem[j].addr.is_disjoint_spec(addr));
        }
    }
    assert forall|i: int| 0 <= i < w.len() implies (#[trigger] w[i]).addr.lo <= w[i].addr.hi by {
        if i < w.len() - 1 {
            assert(w[i] == rem[i]);
        }
    }
}

/// Some segment holds the address `a` with the value interval `v`.
pub open spec fn holds_at(segs: Seq<Segment>, a: int, v: AbstractInterval) -> bool {
    exists|i: int| 0 <= i < segs.len() && segs[i].addr.lo <= a <= segs[i].addr.hi && (#[trigger] segs[i]).value == v
}

proof fn lemma_holds_concat(x: Seq<Segment>, y: Seq<Segment>, a: int, v: AbstractInterval)
    ensures
        holds_at(x + y, a, v) <==> (holds_at(x, a, v) || holds_at(y, a, v)),
{
    let z = x + y;
    if holds_at(z, a, v) {
        let i = choose|i: int| 0 <= i < z.len() && z[i].addr.lo <= a <= z[i].addr.hi && (#[trigger] z[i]).value == v;
        if i < x.len() {
            assert(z[i] == x[i]);
        } else {
            assert(z[i] == y[i - x.len()]);
        }
    }
    if holds_at(x, a, v) {
        let i = choose|i: int| 0 <= i < x.len() && x[i].addr.lo <= a <= x[i].addr.hi && (#[trigger] x[i]).value == v;
        assert(z[i] == x[i]);
    }
    if holds_at(y, a, v) {
        let i = choose|i: int| 0 <= i < y.len() && y[i].addr.lo <= a <= y[i].addr.hi && (#[trigger] y[i]).value == v;
        assert(z[i + x.len()] == y[i]);
    }
}

proof fn lemma_holds_remains_of(seg: Segment, addr: AbstractInterval, a: int, v: AbstractInterval)
    requires
        a < addr.lo || a > addr.hi,
    ensures
        holds_at(remains_of(seg, addr), a, v) <==> (seg.addr.lo <= a <= seg.addr.hi && seg.value == v),
{
    let r = remains_of(seg, addr);
    if seg.addr.is_disjoint_spec(addr) {
        assert(r == seq![seg]);
        if seg.addr.lo <= a <= seg.addr.hi && seg.value == v {
            assert(r[0] == seg);
        }
    } else {
        let below = if seg.addr.lo < addr.lo {
            seq![Segment { addr: AbstractInterval { lo: seg.addr.lo, hi: (addr.lo - 1) as i128 }, value: seg.value }]
        } else {
            Seq::<Segment>::empty()
        };
        let above = if seg.addr.hi > addr.hi {
            seq![Segment { addr: AbstractInterval { lo: (addr.hi + 1) as i128, hi: seg.addr.hi }, value: seg.value }]
        } else {
            Seq::<Segment>::empty()
        };
        assert(r == below + above);
        lemma_holds_concat(below, above, a, v);
        if holds_at(below, a, v) {
            assert(below.len() == 1);
        }
        if holds_at(above, a, v) {
            assert(above.len() == 1);
        }
        if seg.addr.lo <= a <= seg.addr.hi && seg.value == v {
            if a < addr.lo {
                assert(below[0].addr.lo <= a <= below[0].addr.hi && below[0].value == v);
            } else {
                assert(above[0].addr.lo <= a <= above[0].addr.hi && above[0].value == v);
            }
        }
    }
}

proof fn lemma_holds_remains(segs: Seq<Segment>, addr: AbstractInterval, a: int, v: AbstractInterval)
    requires
        a < addr.lo || a > addr.hi,
    ensures
        holds_at(remains_all(segs, addr), a, v) <==> holds_at(segs, a, v),
    decreases segs.len(),
{
    if segs.len() == 0 {
        assert(!holds_at(remains_all(segs, addr), a, v));
    } else {
        let d = segs.drop_last();
        lemma_holds_remains(d, addr, a, v);
        lemma_holds_concat(remains_all(d, addr), remains_of(segs.last(), addr), a, v);
        lemma_holds_remains_of(segs.last(), addr, a, v);
        assert(segs =~= d + seq![segs.last()]);
        lemma_holds_concat(d, seq![segs.last()], a, v);
        let l = seq![segs.last()];
        if holds_at(l, a, v) {
            assert(l[0] == segs.last());
        }
        if segs.last().addr.lo <= a <= segs.last().addr.hi && segs.last().value == v {
            assert(l[0] == segs.last());
        }
    }
}

/// After `value` is written at a non-empty address range `addr`, each
/// address of `addr` is held by the written value alone, and each address
/// outside `addr` is held by a segment with value `v` exactly when it was
/// before.
pub proof fn law_write_keeps_other_addresses(
    segs: Seq<Segment>,
    addr: AbstractInterval,
    value: AbstractInterval,
    a: int,
    v: AbstractInterval,
)
    requires
        addr.lo <= addr.hi,
    ensures
        addr.lo <= a <= addr.hi ==> (holds_at(spec_write(segs, addr, value), a, v) <==> v == value),
        (a < addr.lo || a > addr.hi) ==> (holds_at(spec_write(segs, addr, value), a, v) <==> holds_at(segs, a, v)),
{
    let rem = remains_all(segs, addr);
    let new_seg = Segment { addr, value };
    let w = spec_write(segs, addr, value);
    assert(w =~= rem + seq![new_seg]);
    lemma_holds_concat(rem, seq![new_seg], a, v);
    let l = seq![new_seg];
    if holds_at(l, a, v) {
        assert(l[0] == new_seg);
    }
    if addr.lo <= a <= addr.hi {
        lemma_remains_apart(segs, addr);
        if holds_at(rem, a, v) {
            let i = choose|i: int| 0 <= i < rem.len() && rem[i].addr.lo <= a <= rem[i].addr.hi && (#[trigger] rem[i]).value == v;
            assert(rem[i].addr.is_disjoint_spec(addr));
        }
        if v == value {
            assert(l[0] == new_seg);
        }
    } else {
        lemma_holds_remains(segs, addr, a, v);
    }
}

/// Address `a` lies in the address range of segment `g`.
pub open spec fn holds_addr(g: Segment, a: int) -> bool {
    g.addr.lo <= a <= g.addr.hi
}

/// A sweep that succeeds from `c` to `hi` puts each address between them in
/// one of the swept segments.
proof fn lemma_sweep_holds(s: Seq<Segment>, c: int, hi: int, a: int)
    requires
        sweep(s, c, hi),
        c <= a <= hi,
    ensures
        exists|i: int| 0 <= i < s.len() && #[trigger] holds_addr(s[i], a),
    decreases s.len(),
{
    let c2 = if c >= s[0].addr.hi + 1 {
        c
    } else {
        s[0].addr.hi + 1
    };
    if a < c2 {
        assert(holds_addr(s[0], a));
    } else {
        lemma_sweep_holds(s.drop_first(), c2, hi, a);
        let i = choose|i: int| 0 <= i < s.drop_first().len() && #[trigger] holds_addr(s.drop_first()[i], a);
        assert(s.drop_first()[i] == s[i + 1]);
        assert(holds_addr(s[i + 1], a));
    }
}

/// Sorting by start keeps the segments: each sorted one is one of the given.
proof fn lemma_sort_from(s: Seq<Segment>)
    ensures
        sort_by_start(s).len() == s.len(),
        forall|i: int| 0 <= i < s.len() ==> exists|j: int| 0 <= j < s.len() && #[trigger] sort_by_start(s)[i] == s[j],
    decreases s.len(),
{
    if s.len() > 0 {
        let d = s.drop_last();
        lemma_sort_from(d);
        let sorted = sort_by_start(d);
        let k = leading_le(sorted, s.last().addr.lo) as int;
        lemma_leading_le_bound(sorted, s.last().addr.lo);
        let r = sorted.insert(k, s.last());
        assert forall|i: int| 0 <= i < s.len() implies exists|j: int| 0 <= j < s.len() && #[trigger] sort_by_start(s)[i] == s[j] by {
            if i < k {
                assert(r[i] == sorted[i]);
                let j = choose|j: int| 0 <= j < d.len() && #[trigger] sorted[i] == d[j];
                assert(d[j] == s[j]);
            } else if i == k {
                assert(r[i] == s[s.len() - 1]);
            } else {
                assert(r[i] == sorted[i - 1]);
                let j = choose|j: int| 0 <= j < d.len() && #[trigger] sorted[i - 1] == d[j];
                assert(d[j] == s[j]);
            }
        }
    }
}

/// The segments meeting `addr` are among the given ones.
proof fn lemma_meeting_from(segs: Seq<Segment>, addr: AbstractInterval)
    ensures
        meeting(segs, addr).len() <= segs.len(),
        forall|i: int| 0 <= i < meeting(segs, addr).len() ==> exists|j: int| 0 <= j < segs.len() && #[trigger] meeting(segs, addr)[i] == segs[j],
    decreases segs.len(),
{
    if segs.len() > 0 {
        let d = segs.drop_last();
        lemma_meeting_from(d, addr);
        let m = meeting(segs, addr);
        let md = meeting(d, addr);
        assert forall|i: int| 0 <= i < m.len() implies exists|j: int| 0 <= j < segs.len() && #[trigger] m[i] == segs[j] by {
            if i < md.len() {
                assert(m[i] == md[i]);
                let j = choose|j: int| 0 <= j < d.len() && #[trigger] md[i] == d[j];
                assert(d[j] == segs[j]);
            } else {
                assert(m[i] == segs[segs.len() - 1]);
            }
        }
    }
}

/// `covers` answers yes only when every address of `addr` lies in a stored
/// segment.
pub proof fn law_covers_sound(segs: Seq<Segment>, addr: AbstractInterval, a: int)
    requires
        spec_covers(segs, addr),
        addr.lo <= a <= addr.hi,
    ensures
        exists|j: int| 0 <= j < segs.len() && #[trigger] holds_addr(segs[j], a),
{
    let m = meeting(segs, addr);
    let s = sort_by_start(m);
    lemma_sweep_holds(s, addr.lo as int, addr.hi as int, a);
    lemma_sort_from(m);
    lemma_meeting_from(segs, addr);
    let i = choose|i: int| 0 <= i < s.len() && #[trigger] holds_addr(s[i], a);
    let k = choose|k: int| 0 <= k < m.len() && #[trigger] s[i] == m[k];
    let j = choose|j: int| 0 <= j < segs.len() && #[trigger] m[k] == segs[j];
    assert(holds_addr(segs[j], a));
}

/// A read of a range that holds an address no segment holds (which reads as
/// zero) answers `True` only if `val` contains zero, and `False` only if it
/// does not.
pub proof fn law_read_of_unwritten(segs: Seq<Segment>, addr: AbstractInterval, val: AbstractInterval, a: int)
    requires
        addr.lo <= a <= addr.hi,
        forall|j: int| 0 <= j < segs.len() ==> !#[trigger] holds_addr(segs[j], a),
    ensures
        !spec_covers(segs, addr),
        spec_check_read(segs, addr, val) == MayBeFlag::True ==> val.contains(0),
        spec_check_read(segs, addr, val) == MayBeFlag::False ==> !val.contains(0),
{
    if spec_covers(segs, addr) {
        law_covers_sound(segs, addr, a);
    }
}

} // verus!
