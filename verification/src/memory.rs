use vstd::prelude::*;

use crate::interval::{AbstractInterval, MayBeFlag};

verus! {

// ----------------------------------------------------------------------
// words from byte limbs
// ----------------------------------------------------------------------

/// `sum_{i < k} row[base + i] * 256^i`, as interval sum and product.
pub open spec fn reconstruct_prefix(row: Seq<AbstractInterval>, base: int, k: nat) -> AbstractInterval
    decreases k,
{
    if k == 0 {
        AbstractInterval { lo: 0, hi: 0 }
    } else {
        let prev = reconstruct_prefix(row, base, (k - 1) as nat);
        let m = pow256((k - 1) as nat);
        prev.spec_add(row[base + k - 1].spec_mul(AbstractInterval { lo: m as i128, hi: m as i128 }))
    }
}

pub open spec fn pow256(k: nat) -> int
    decreases k,
{
    if k == 0 {
        1
    } else {
        256 * pow256((k - 1) as nat)
    }
}

/// Every step of the sum stays within `i128`.
pub open spec fn reconstruct_ok(row: Seq<AbstractInterval>, base: int, k: nat) -> bool
    decreases k,
{
    if k == 0 {
        true
    } else {
        let prev = reconstruct_prefix(row, base, (k - 1) as nat);
        let m = pow256((k - 1) as nat);
        let term = row[base + k - 1].spec_mul(AbstractInterval { lo: m as i128, hi: m as i128 });
        &&& reconstruct_ok(row, base, (k - 1) as nat)
        &&& row[base + k - 1].mul_ok(AbstractInterval { lo: m as i128, hi: m as i128 })
        &&& prev.add_ok(term)
    }
}

proof fn lemma_pow256_bounds(k: nat)
    requires
        k <= 15,
    ensures
        1 <= pow256(k) <= pow256(15),
        pow256(15) == 0x1_0000_0000_0000_0000_0000_0000_0000_00,
    decreases 15 - k,
{
    reveal_with_fuel(pow256, 16);
    if k < 15 {
        lemma_pow256_bounds(k + 1);
        assert(pow256(k + 1) == 256 * pow256(k));
    }
}

/// The interval of the little-endian value of the `len` byte limbs starting
/// at `base`.
pub fn reconstruct_word(row: &[AbstractInterval], base: usize, len: usize) -> (r: AbstractInterval)
    requires
        base + len <= row@.len(),
        len <= 15,
        reconstruct_ok(row@, base as int, len as nat),
    ensures
        r == reconstruct_prefix(row@, base as int, len as nat),
{
    let mut val = AbstractInterval::from_i128(0);
    let mut mul: i128 = 1;
    let mut i: usize = 0;
    let n = row.len();
    while i < len
        invariant
            base + len <= row@.len(),
            n == row@.len(),
            len <= 15,
            i <= len,
            reconstruct_ok(row@, base as int, len as nat),
            mul == pow256(i as nat),
            val == reconstruct_prefix(row@, base as int, i as nat),
        decreases len - i,
    {
        proof {
            lemma_pow256_bounds(i as nat);
            lemma_pow256_bounds((i + 1) as nat);
            assert(pow256((i + 1) as nat) == 256 * pow256(i as nat));
            lemma_reconstruct_ok_prefix(row@, base as int, len as nat, (i + 1) as nat);
        }
        val = val.plus(row[base + i].times(AbstractInterval::from_i128(mul)));
        mul = mul * 256;
        i += 1;
    }
    val
}

proof fn lemma_reconstruct_ok_prefix(row: Seq<AbstractInterval>, base: int, k: nat, j: nat)
    requires
        reconstruct_ok(row, base, k),
        j <= k,
    ensures
        reconstruct_ok(row, base, j),
    decreases k,
{
    if j < k {
        lemma_reconstruct_ok_prefix(row, base, (k - 1) as nat, j);
    }
}

// ----------------------------------------------------------------------
// the memory
// ----------------------------------------------------------------------

/// A run of addresses and the interval of the values stored there.
#[derive(Clone, Copy, Debug, PartialEq, Eq, Structural)]
pub struct Segment {
    pub addr: AbstractInterval,
    pub value: AbstractInterval,
}

/// Memory over interval addresses: a list of segments; an address that no
/// segment holds reads as zero.
pub struct IntervalMemory {
    segs: Vec<Segment>,
}

impl View for IntervalMemory {
    type V = Seq<Segment>;

    closed spec fn view(&self) -> Seq<Segment> {
        self.segs@
    }
}

/// Every segment is a non-empty address range, and no two overlap.
pub open spec fn segments_wf(segs: Seq<Segment>) -> bool {
    &&& forall|i: int| 0 <= i < segs.len() ==> (#[trigger] segs[i]).addr.lo <= segs[i].addr.hi
    &&& forall|i: int, j: int|
        0 <= i < segs.len() && 0 <= j < segs.len() && i != j ==> (#[trigger] segs[i]).addr.is_disjoint_spec(
            (#[trigger] segs[j]).addr,
        )
}

/// What remains of a segment after `addr` is written: the segment itself
/// when they are disjoint, else its parts below and above `addr`.
pub open spec fn remains_of(seg: Segment, addr: AbstractInterval) -> Seq<Segment> {
    if seg.addr.is_disjoint_spec(addr) {
        seq![seg]
    } else {
        let below = if seg.addr.lo < addr.lo {
            seq![Segment { addr: AbstractInterval { lo: seg.addr.lo, hi: (addr.lo - 1) as i128 }, value: seg.value }]
        } else {
            Seq::empty()
        };
        let above = if seg.addr.hi > addr.hi {
            seq![Segment { addr: AbstractInterval { lo: (addr.hi + 1) as i128, hi: seg.addr.hi }, value: seg.value }]
        } else {
            Seq::empty()
        };
        below + above
    }
}

pub open spec fn remains_all(segs: Seq<Segment>, addr: AbstractInterval) -> Seq<Segment>
    decreases segs.len(),
{
    if segs.len() == 0 {
        Seq::empty()
    } else {
        remains_all(segs.drop_last(), addr) + remains_of(segs.last(), addr)
    }
}

/// The segments after `value` is written at `addr`: what remains of the old
/// ones, in order, then the new segment.
pub open spec fn spec_write(segs: Seq<Segment>, addr: AbstractInterval, value: AbstractInterval) -> Seq<Segment> {
    remains_all(segs, addr).push(Segment { addr, value })
}

/// The segments that meet `addr`, in order.
pub open spec fn meeting(segs: Seq<Segment>, addr: AbstractInterval) -> Seq<Segment>
    decreases segs.len(),
{
    if segs.len() == 0 {
        Seq::empty()
    } else if !segs.last().addr.is_disjoint_spec(addr) {
        meeting(segs.drop_last(), addr).push(segs.last())
    } else {
        meeting(segs.drop_last(), addr)
    }
}

/// The number of leading segments whose start is at most `k`.
pub open spec fn leading_le(s: Seq<Segment>, k: i128) -> nat
    decreases s.len(),
{
    if s.len() == 0 || s[0].addr.lo > k {
        0
    } else {
        1 + leading_le(s.drop_first(), k)
    }
}

/// Stable sort by start address: each segment goes after the ones already
/// placed whose start is not greater.
pub open spec fn sort_by_start(s: Seq<Segment>) -> Seq<Segment>
    decreases s.len(),
{
    if s.len() == 0 {
        Seq::empty()
    } else {
        let sorted = sort_by_start(s.drop_last());
        sorted.insert(leading_le(sorted, s.last().addr.lo) as int, s.last())
    }
}

/// The sweep over segments sorted by start: the addresses from `covered_lo`
/// up to `hi` are covered when each next segment starts no later than the
/// first address not yet covered.
pub open spec fn sweep(s: Seq<Segment>, covered_lo: int, hi: int) -> bool
    decreases s.len(),
{
    if s.len() == 0 {
        false
    } else if s[0].addr.lo > covered_lo {
        false
    } else {
        let c = if covered_lo >= s[0].addr.hi + 1 {
            covered_lo
        } else {
            s[0].addr.hi + 1
        };
        if c > hi {
            true
        } else {
            sweep(s.drop_first(), c, hi)
        }
    }
}

/// The segments meeting `addr` cover it, swept in order of start.
pub open spec fn spec_covers(segs: Seq<Segment>, addr: AbstractInterval) -> bool {
    sweep(sort_by_start(meeting(segs, addr)), addr.lo as int, addr.hi as int)
}

/// Every segment meeting `addr` holds values that `val` contains.
pub open spec fn all_contained(segs: Seq<Segment>, addr: AbstractInterval, val: AbstractInterval) -> bool {
    forall|i: int|
        0 <= i < segs.len() && !(#[trigger] segs[i]).addr.is_disjoint_spec(addr) ==> val.contains_spec(
            segs[i].value,
        )
}

/// Every segment meeting `addr` holds values disjoint from `val`.
pub open spec fn all_disjoint(segs: Seq<Segment>, addr: AbstractInterval, val: AbstractInterval) -> bool {
    forall|i: int|
        0 <= i < segs.len() && !(#[trigger] segs[i]).addr.is_disjoint_spec(addr) ==> segs[i].value.is_disjoint_spec(
            val,
        )
}

pub open spec fn zero_interval() -> AbstractInterval {
    AbstractInterval { lo: 0, hi: 0 }
}

/// The answer to "does a read of `addr` give a value in `val`": `True` when
/// every value that the read can give lies in `val`, `False` when none does,
/// `MayBe` otherwise; addresses that no segment covers give zero.
pub open spec fn spec_check_read(segs: Seq<Segment>, addr: AbstractInterval, val: AbstractInterval) -> MayBeFlag {
    let uncovered = !spec_covers(segs, addr);
    let contained = all_contained(segs, addr, val) && (uncovered ==> val.contains_spec(zero_interval()));
    let disjoint = all_disjoint(segs, addr, val) && (uncovered ==> zero_interval().is_disjoint_spec(val));
    if contained {
        MayBeFlag::True
    } else if disjoint {
        MayBeFlag::False
    } else {
        MayBeFlag::MayBe
    }
}

/// No segment ends at the greatest `i128`, so the sweep can step past it.
pub open spec fn ends_below_max(segs: Seq<Segment>) -> bool {
    forall|i: int| 0 <= i < segs.len() ==> (#[trigger] segs[i]).addr.hi < i128::MAX
}

impl IntervalMemory {
    /// The empty memory.
    pub fn new() -> (r: Self)
        ensures
            r@ == Seq::<Segment>::empty(),
    {
        IntervalMemory { segs: Vec::new() }
    }

    /// The segments, in order.
    pub fn segs(&self) -> (r: &Vec<Segment>)
        ensures
            r@ == self@,
    {
        &self.segs
    }

    /// Stores `value` at every address of `addr`: the old segments lose the
    /// addresses of `addr`, and the new segment goes last.
    pub fn write(&mut self, addr: &AbstractInterval, value: &AbstractInterval)
        ensures
            final(self)@ == spec_write(old(self)@, *addr, *value),
    {
        let mut new_segs: Vec<Segment> = Vec::new();
        let mut i: usize = 0;
        proof {
            assert(self.segs@.take(0) =~= Seq::<Segment>::empty());
        }
        while i < self.segs.len()
            invariant
                i <= self.segs.len(),
                self.segs@ == old(self)@,
                new_segs@ == remains_all(self.segs@.take(i as int), *addr),
            decreases self.segs.len() - i,
        {
            let seg = self.segs[i];
            let ghost before = new_segs@;
            proof {
                assert(self.segs@.take(i as int + 1).drop_last() =~= self.segs@.take(i as int));
            }
            if seg.addr.is_disjoint(addr) {
                new_segs.push(seg);
                proof {
                    assert(new_segs@ =~= before + remains_of(seg, *addr));
                }
            } else {
                if seg.addr.lo < addr.lo {
                    new_segs.push(
                        Segment {
                            addr: AbstractInterval { lo: seg.addr.lo, hi: addr.lo - 1 },
                            value: seg.value,
                        },
                    );
                }
                if seg.addr.hi > addr.hi {
                    new_segs.push(
                        Segment {
                            addr: AbstractInterval { lo: addr.hi + 1, hi: seg.addr.hi },
                            value: seg.value,
                        },
                    );
                }
                proof {
                    assert(new_segs@ =~= before + remains_of(seg, *addr));
                }
            }
            i += 1;
        }
        proof {
            assert(self.segs@.take(self.segs@.len() as int) =~= self.segs@);
        }
        new_segs.push(Segment { addr: *addr, value: *value });
        self.segs = new_segs;
    }

    /// Whether a read of `addr` gives a value in `val`: `True` when it
    /// surely does, `False` when it surely does not, `MayBe` otherwise.
    pub fn check_read(&self, addr: &AbstractInterval, val: &AbstractInterval) -> (r: MayBeFlag)
        requires
            ends_below_max(self@),
        ensures
            r == spec_check_read(self@, *addr, *val),
    {
        let zero = AbstractInterval { lo: 0, hi: 0 };
        let mut contained = true;
        let mut disjoint = true;
        let mut i: usize = 0;
        while i < self.segs.len()
            invariant
                i <= self.segs.len(),
                contained == all_contained(self.segs@.take(i as int), *addr, *val),
                disjoint == all_disjoint(self.segs@.take(i as int), *addr, *val),
            decreases self.segs.len() - i,
        {
            let seg = &self.segs[i];
            proof {
                lemma_flags_step(self.segs@, i as int, *addr, *val);
            }
            if seg.addr.is_intersects(addr) {
                if !val.is_contains(&seg.value) {
                    contained = false;
                }
                if !seg.value.is_disjoint(val) {
                    disjoint = false;
                }
            }
            i += 1;
        }
        proof {
            assert(self.segs@.take(self.segs@.len() as int) =~= self.segs@);
        }
        if !self.covers(addr) {
            if !val.is_contains(&zero) {
                contained = false;
            }
            if !zero.is_disjoint(val) {
                disjoint = false;
            }
        }
        if contained {
            MayBeFlag::True
        } else if disjoint {
            MayBeFlag::False
        } else {
            MayBeFlag::MayBe
        }
    }

    /// Whether the segments meeting `addr` cover every address of it.
    pub fn covers(&self, addr: &AbstractInterval) -> (r: bool)
        requires
            ends_below_max(self@),
        ensures
            r == spec_covers(self@, *addr),
    {
        let met = meeting_segments(&self.segs, addr);
        let sorted = sorted_by_start(&met);
        proof {
            lemma_meeting_below_max(self@, *addr);
            lemma_sort_below_max(met@);
            assert(sorted@.skip(0) =~= sorted@);
        }
        let mut covered_lo: i128 = addr.lo;
        let mut i: usize = 0;
        while i < sorted.len()
            invariant
                i <= sorted.len(),
                sorted@ == sort_by_start(meeting(self@, *addr)),
                ends_below_max(sorted@),
                sweep(sorted@, addr.lo as int, addr.hi as int) == sweep(
                    sorted@.skip(i as int),
                    covered_lo as int,
                    addr.hi as int,
                ),
            decreases sorted.len() - i,
        {
            let s = sorted[i];
            proof {
                assert(sorted@.skip(i as int)[0] == s);
                assert(sorted@.skip(i as int).drop_first() =~= sorted@.skip(i as int + 1));
            }
            let ghost rest = sorted@.skip(i as int);
            let ghost old_lo = covered_lo;
            if s.addr.lo > covered_lo {
                proof {
                    assert(!sweep(rest, old_lo as int, addr.hi as int));
                }
                return false;
            }
            if s.addr.hi + 1 > covered_lo {
                covered_lo = s.addr.hi + 1;
            }
            if covered_lo > addr.hi {
                proof {
                    assert(sweep(rest, old_lo as int, addr.hi as int));
                }
                return true;
            }
            i += 1;
        }
        false
    }
}

fn meeting_segments(segs: &Vec<Segment>, addr: &AbstractInterval) -> (r: Vec<Segment>)
    ensures
        r@ == meeting(segs@, *addr),
{
    let mut out: Vec<Segment> = Vec::new();
    let mut i: usize = 0;
    proof {
        assert(segs@.take(0) =~= Seq::<Segment>::empty());
    }
    while i < segs.len()
        invariant
            i <= segs.len(),
            out@ == meeting(segs@.take(i as int), *addr),
        decreases segs.len() - i,
    {
        proof {
            assert(segs@.take(i as int + 1).drop_last() =~= segs@.take(i as int));
        }
        if segs[i].addr.is_intersects(addr) {
            out.push(segs[i]);
        }
        i += 1;
    }
    proof {
        assert(segs@.take(segs@.len() as int) =~= segs@);
    }
    out
}

proof fn lemma_flags_step(s: Seq<Segment>, i: int, addr: AbstractInterval, val: AbstractInterval)
    requires
        0 <= i < s.len(),
    ensures
        all_contained(s.take(i + 1), addr, val) == (all_contained(s.take(i), addr, val) && (
        !s[i].addr.is_disjoint_spec(addr) ==> val.contains_spec(s[i].value))),
        all_disjoint(s.take(i + 1), addr, val) == (all_disjoint(s.take(i), addr, val) && (
        !s[i].addr.is_disjoint_spec(addr) ==> s[i].value.is_disjoint_spec(val))),
{
    let a = s.take(i);
    let b = s.take(i + 1);
    assert forall|j: int| 0 <= j < a.len() implies a[j] == b[j] && a[j] == s[j] by {}
    assert(b[i] == s[i]);
    if all_contained(a, addr, val) && (!s[i].addr.is_disjoint_spec(addr) ==> val.contains_spec(s[i].value)) {
        assert forall|j: int| 0 <= j < b.len() && !(#[trigger] b[j]).addr.is_disjoint_spec(addr) implies val.contains_spec(b[j].value) by {
            if j < i {
                assert(a[j] == b[j]);
            }
        }
    }
    if all_disjoint(a, addr, val) && (!s[i].addr.is_disjoint_spec(addr) ==> s[i].value.is_disjoint_spec(val)) {
        assert forall|j: int| 0 <= j < b.len() && !(#[trigger] b[j]).addr.is_disjoint_spec(addr) implies b[j].value.is_disjoint_spec(val) by {
            if j < i {
                assert(a[j] == b[j]);
            }
        }
    }
    if all_contained(b, addr, val) {
        assert forall|j: int| 0 <= j < a.len() && !(#[trigger] a[j]).addr.is_disjoint_spec(addr) implies val.contains_spec(a[j].value) by {
            assert(a[j] == b[j]);
        }
    }
    if all_disjoint(b, addr, val) {
        assert forall|j: int| 0 <= j < a.len() && !(#[trigger] a[j]).addr.is_disjoint_spec(addr) implies a[j].value.is_disjoint_spec(val) by {
            assert(a[j] == b[j]);
        }
    }
}

proof fn lemma_meeting_below_max(segs: Seq<Segment>, addr: AbstractInterval)
    requires
        ends_below_max(segs),
    ensures
        ends_below_max(meeting(segs, addr)),
    decreases segs.len(),
{
    if segs.len() > 0 {
        let d = segs.drop_last();
        assert forall|i: int| 0 <= i < d.len() implies (#[trigger] d[i]).addr.hi < i128::MAX by {
            assert(d[i] == segs[i]);
        }
        lemma_meeting_below_max(d, addr);
        let m = meeting(d, addr);
        assert(segs.last() == segs[segs.len() - 1]);
        if !segs.last().addr.is_disjoint_spec(addr) {
            assert forall|i: int| 0 <= i < m.push(segs.last()).len() implies (#[trigger] m.push(segs.last())[i]).addr.hi < i128::MAX by {
                if i < m.len() {
                    assert(m.push(segs.last())[i] == m[i]);
                }
            }
        }
    }
}

proof fn lemma_sort_below_max(s: Seq<Segment>)
    requires
        ends_below_max(s),
    ensures
        ends_below_max(sort_by_start(s)),
        sort_by_start(s).len() == s.len(),
    decreases s.len(),
{
    if s.len() > 0 {
        let d = s.drop_last();
        assert forall|i: int| 0 <= i < d.len() implies (#[trigger] d[i]).addr.hi < i128::MAX by {
            assert(d[i] == s[i]);
        }
        lemma_sort_below_max(d);
        let sorted = sort_by_start(d);
        let x = s.last();
        assert(x == s[s.len() - 1]);
        let j = leading_le(sorted, x.addr.lo) as int;
        lemma_leading_le_bound(sorted, x.addr.lo);
        sorted.insert_ensures(j, x);
        let r = sorted.insert(j, x);
        assert forall|i: int| 0 <= i < r.len() implies (#[trigger] r[i]).addr.hi < i128::MAX by {
            if i < j {
                assert(r[i] == sorted[i]);
            } else if i > j {
                assert(r[(i - 1) + 1] == sorted[i - 1]);
            }
        }
    }
}

/// The count of leading segments is at most their number.
pub proof fn lemma_leading_le_bound(s: Seq<Segment>, k: i128)
    ensures
        leading_le(s, k) <= s.len(),
    decreases s.len(),
{
    if s.len() > 0 && s[0].addr.lo <= k {
        lemma_leading_le_bound(s.drop_first(), k);
    }
}

proof fn lemma_leading_le_is(s: Seq<Segment>, k: i128, j: int)
    requires
        0 <= j <= s.len(),
        forall|i: int| 0 <= i < j ==> (#[trigger] s[i]).addr.lo <= k,
        j == s.len() || s[j].addr.lo > k,
    ensures
        leading_le(s, k) == j,
    decreases j,
{
    if j > 0 {
        assert forall|i: int| 0 <= i < j - 1 implies (#[trigger] s.drop_first()[i]).addr.lo <= k by {
            assert(s.drop_first()[i] == s[i + 1]);
        }
        lemma_leading_le_is(s.drop_first(), k, j - 1);
    }
}

fn sorted_by_start(segs: &Vec<Segment>) -> (r: Vec<Segment>)
    ensures
        r@ == sort_by_start(segs@),
{
    let mut sorted: Vec<Segment> = Vec::new();
    let mut i: usize = 0;
    proof {
        assert(segs@.take(0) =~= Seq::<Segment>::empty());
    }
    while i < segs.len()
        invariant
            i <= segs.len(),
            sorted@ == sort_by_start(segs@.take(i as int)),
        decreases segs.len() - i,
    {
        let x = segs[i];
        proof {
            assert(segs@.take(i as int + 1).drop_last() =~= segs@.take(i as int));
        }
        let mut j: usize = 0;
        while j < sorted.len() && sorted[j].addr.lo <= x.addr.lo
            invariant
                j <= sorted.len(),
                forall|m: int| 0 <= m < j ==> (#[trigger] sorted@[m]).addr.lo <= x.addr.lo,
            decreases sorted.len() - j,
        {
            j += 1;
        }
        proof {
            lemma_leading_le_is(sorted@, x.addr.lo, j as int);
        }
        sorted.insert(j, x);
        i += 1;
    }
    proof {
        assert(segs@.take(segs@.len() as int) =~= segs@);
    }
    sorted
}

/// Combines the answers of two reads: `False` if either is, else `MayBe` if
/// either is, else `True`.
pub open spec fn spec_combine(a: MayBeFlag, b: MayBeFlag) -> MayBeFlag {
    if a == MayBeFlag::False || b == MayBeFlag::False {
        MayBeFlag::False
    } else if a == MayBeFlag::MayBe || b == MayBeFlag::MayBe {
        MayBeFlag::MayBe
    } else {
        MayBeFlag::True
    }
}

fn combine(a: &MayBeFlag, b: &MayBeFlag) -> (r: MayBeFlag)
    ensures
        r == spec_combine(*a, *b),
{
    match (a, b) {
        (MayBeFlag::False, _) | (_, MayBeFlag::False) => MayBeFlag::False,
        (MayBeFlag::MayBe, _) | (_, MayBeFlag::MayBe) => MayBeFlag::MayBe,
        _ => MayBeFlag::True,
    }
}

/// The memory and the answer after the operations `(addr, value, is_write)`
/// run in order from an empty memory: writes store, reads are checked and
/// their answers combined, and the run stops at the first read answered
/// `False`.
pub open spec fn spec_run(ops: Seq<(AbstractInterval, AbstractInterval, bool)>) -> (Seq<Segment>, MayBeFlag)
    decreases ops.len(),
{
    if ops.len() == 0 {
        (Seq::empty(), MayBeFlag::True)
    } else {
        let (segs, result) = spec_run(ops.drop_last());
        let (addr, val, is_write) = ops.last();
        if result == MayBeFlag::False {
            (segs, result)
        } else if is_write {
            (spec_write(segs, addr, val), result)
        } else {
            (segs, spec_combine(result, spec_check_read(segs, addr, val)))
        }
    }
}

/// Every address interval of the operations ends below the greatest `i128`.
pub open spec fn ops_below_max(ops: Seq<(AbstractInterval, AbstractInterval, bool)>) -> bool {
    forall|i: int| 0 <= i < ops.len() ==> (#[trigger] ops[i]).0.hi < i128::MAX
}

proof fn lemma_write_below_max(segs: Seq<Segment>, addr: AbstractInterval, value: AbstractInterval)
    requires
        ends_below_max(segs),
        addr.hi < i128::MAX,
    ensures
        ends_below_max(spec_write(segs, addr, value)),
{
    lemma_remains_below_max(segs, addr);
}

proof fn lemma_remains_below_max(segs: Seq<Segment>, addr: AbstractInterval)
    requires
        ends_below_max(segs),
    ensures
        ends_below_max(remains_all(segs, addr)),
    decreases segs.len(),
{
    if segs.len() > 0 {
        lemma_remains_below_max(segs.drop_last(), addr);
        let a = remains_all(segs.drop_last(), addr);
        let b = remains_of(segs.last(), addr);
        assert(segs.last() == segs[segs.len() - 1]);
        assert forall|i: int| 0 <= i < (a + b).len() implies (#[trigger] (a + b)[i]).addr.hi < i128::MAX by {
            if i >= a.len() {
                assert((a + b)[i] == b[i - a.len()]);
            } else {
                assert((a + b)[i] == a[i]);
            }
        }
    }
}

proof fn lemma_run_below_max(ops: Seq<(AbstractInterval, AbstractInterval, bool)>)
    requires
        ops_below_max(ops),
    ensures
        ends_below_max(spec_run(ops).0),
    decreases ops.len(),
{
    if ops.len() > 0 {
        assert forall|i: int| 0 <= i < ops.drop_last().len() implies (#[trigger] ops.drop_last()[i]).0.hi < i128::MAX by {
            assert(ops.drop_last()[i] == ops[i]);
        }
        lemma_run_below_max(ops.drop_last());
        let (segs, result) = spec_run(ops.drop_last());
        assert(ops.last() == ops[ops.len() - 1]);
        if result != MayBeFlag::False && ops.last().2 {
            lemma_write_below_max(segs, ops.last().0, ops.last().1);
        }
    }
}

/// Runs the memory operations in order from an empty memory: writes store,
/// reads are checked; returns the memory and the combined answer of the
/// reads, stopping at the first read answered `False`.
pub fn check_memory_consistency(ops: &[(AbstractInterval, AbstractInterval, bool)]) -> (r: (IntervalMemory, MayBeFlag))
    requires
        ops_below_max(ops@),
    ensures
        r.0@ == spec_run(ops@).0,
        r.1 == spec_run(ops@).1,
{
    let mut mem = IntervalMemory::new();
    let mut result = MayBeFlag::True;
    let mut i: usize = 0;
    proof {
        assert(ops@.take(0) =~= Seq::<(AbstractInterval, AbstractInterval, bool)>::empty());
    }
    while i < ops.len()
        invariant
            i <= ops.len(),
            ops_below_max(ops@),
            mem@ == spec_run(ops@.take(i as int)).0,
            result == spec_run(ops@.take(i as int)).1,
            result != MayBeFlag::False,
        decreases ops.len() - i,
    {
        let (addr, val, is_write) = ops[i];
        proof {
            assert(ops@.take(i as int + 1).drop_last() =~= ops@.take(i as int));
            assert(ops@.take(i as int + 1).last() == ops@[i as int]);
            assert forall|j: int| 0 <= j < ops@.take(i as int).len() implies (#[trigger] ops@.take(i as int)[j]).0.hi < i128::MAX by {
                assert(ops@.take(i as int)[j] == ops@[j]);
            }
            lemma_run_below_max(ops@.take(i as int));
        }
        if is_write {
            mem.write(&addr, &val);
        } else {
            let r = mem.check_read(&addr, &val);
            result = combine(&result, &r);
            if r == MayBeFlag::False {
                proof {
                    assert forall|j: int| i + 1 <= j <= ops.len() implies spec_run(#[trigger] ops@.take(j)).1 == MayBeFlag::False by {
                        lemma_run_stays_false(ops@, i as int + 1, j);
                    }
                    assert(ops@.take(ops.len() as int) =~= ops@);
                    lemma_run_stays_false(ops@, i as int + 1, ops.len() as int);
                    lemma_run_segs_stay(ops@, i as int + 1, ops.len() as int);
                }
                return (mem, MayBeFlag::False);
            }
        }
        i += 1;
    }
    proof {
        assert(ops@.take(ops.len() as int) =~= ops@);
    }
    (mem, result)
}

proof fn lemma_run_stays_false(ops: Seq<(AbstractInterval, AbstractInterval, bool)>, i: int, j: int)
    requires
        0 <= i <= j <= ops.len(),
        spec_run(ops.take(i)).1 == MayBeFlag::False,
    ensures
        spec_run(ops.take(j)).1 == MayBeFlag::False,
    decreases j - i,
{
    if j > i {
        lemma_run_stays_false(ops, i, j - 1);
        assert(ops.take(j).drop_last() =~= ops.take(j - 1));
    }
}

proof fn lemma_run_segs_stay(ops: Seq<(AbstractInterval, AbstractInterval, bool)>, i: int, j: int)
    requires
        0 <= i <= j <= ops.len(),
        spec_run(ops.take(i)).1 == MayBeFlag::False,
    ensures
        spec_run(ops.take(j)).0 == spec_run(ops.take(i)).0,
    decreases j - i,
{
    if j > i {
        lemma_run_segs_stay(ops, i, j - 1);
        lemma_run_stays_false(ops, i, j - 1);
        assert(ops.take(j).drop_last() =~= ops.take(j - 1));
    }
}

} // verus!
