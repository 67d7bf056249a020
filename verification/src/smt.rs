use vstd::prelude::*;
use std::collections::HashMap;
use vstd::std_specs::iter::IteratorSpec;

use crate::constraint::ZEBRAConstraints;
use crate::interval::AbstractInterval;
use crate::smt_terms::{
    bv_term, bv_term_string, int_term, int_term_string, nat_string, public_name,
    public_name_string, smt_int_ok, smt_vars_ok, trace_name, trace_name_string, wrap1, wrap2,
};
use crate::solver::RangeType;
use crate::symbolic::ZEBRASymbolicExpr;
use crate::text::{hex8_text, nat_text, push_hex8, two_pow};

verus! {

broadcast use vstd::std_specs::hash::group_hash_axioms;

/// The definitions of the field operations modulo `P` in bit-vector arithmetic.
pub const FF_DEFS: &'static str = ";; finite field addition: (a + b) mod p
(define-fun ff_add ((a (_ BitVec 32)) (b (_ BitVec 32))) (_ BitVec 32)
  ((_ extract 31 0)
    (bvurem
      (bvadd ((_ zero_extend 1) a)
             ((_ zero_extend 1) b))
      ((_ zero_extend 1) P))))

;; finite field subtraction: (a - b) mod p
(define-fun ff_sub ((a (_ BitVec 32)) (b (_ BitVec 32))) (_ BitVec 32)
  ((_ extract 31 0)
    (bvurem
      (bvadd
        ((_ zero_extend 1) a)
        (bvsub ((_ zero_extend 1) P)
               ((_ zero_extend 1) b)))
      ((_ zero_extend 1) P))))

;; finite field multiplication: (a * b) mod p
(define-fun ff_mul ((a (_ BitVec 32)) (b (_ BitVec 32))) (_ BitVec 32)
  ((_ extract 31 0)
    (bvurem
      (bvmul ((_ zero_extend 32) a)
             ((_ zero_extend 32) b))
      ((_ zero_extend 32) P))))\n";

/// The last lines of a query: check satisfiability and print a model.
pub const QUERY_END: &'static str = "(check-sat)\n(get-model)\n";

// ---------------------------------------------------------------------------
// declarations
// ---------------------------------------------------------------------------

/// The declaration of the variable `name`, an integer or a 32-bit vector.
pub open spec fn decl_line(name: Seq<char>, bv: bool) -> Seq<char> {
    "(declare-fun "@ + name + (if bv { " () (_ BitVec 32))\n"@ } else { " () Int)\n"@ })
}

/// The declarations of the first `cols` cells of row `i`.
pub open spec fn row_decls(i: nat, cols: nat, bv: bool) -> Seq<char>
    decreases cols,
{
    if cols == 0 {
        Seq::empty()
    } else {
        row_decls(i, (cols - 1) as nat, bv) + decl_line(trace_name(i, (cols - 1) as nat), bv)
    }
}

/// The declarations of the cells of the first `rows` rows, row by row.
pub open spec fn trace_decls(rows: nat, cols: nat, bv: bool) -> Seq<char>
    decreases rows,
{
    if rows == 0 {
        Seq::empty()
    } else {
        trace_decls((rows - 1) as nat, cols, bv) + row_decls((rows - 1) as nat, cols, bv)
    }
}

/// The declarations of the first `n` public inputs.
pub open spec fn public_decls(n: nat, bv: bool) -> Seq<char>
    decreases n,
{
    if n == 0 {
        Seq::empty()
    } else {
        public_decls((n - 1) as nat, bv) + decl_line(public_name((n - 1) as nat), bv)
    }
}

fn decl_line_string(name: String, bv: bool) -> (r: String)
    ensures
        r@ == decl_line(name@, bv),
{
    let tail = if bv { " () (_ BitVec 32))\n" } else { " () Int)\n" };
    wrap1("(declare-fun ", name, tail)
}

fn row_decls_string(i: usize, cols: usize, bv: bool) -> (r: String)
    ensures
        r@ == row_decls(i as nat, cols as nat, bv),
{
    let mut r = String::new();
    let mut j: usize = 0;
    while j < cols
        invariant
            j <= cols,
            r@ == row_decls(i as nat, j as nat, bv),
        decreases cols - j,
    {
        let line = decl_line_string(trace_name_string(i, j), bv);
        r.append(line.as_str());
        j = j + 1;
    }
    r
}

/// The declarations of every cell of `rows` rows of `cols` columns and of
/// `n_pvs` public inputs.
fn decls_string(rows: usize, cols: usize, n_pvs: usize, bv: bool) -> (r: String)
    ensures
        r@ == trace_decls(rows as nat, cols as nat, bv) + public_decls(n_pvs as nat, bv),
{
    let mut r = String::new();
    let mut i: usize = 0;
    while i < rows
        invariant
            i <= rows,
            r@ == trace_decls(i as nat, cols as nat, bv),
        decreases rows - i,
    {
        let row = row_decls_string(i, cols, bv);
        r.append(row.as_str());
        i = i + 1;
    }
    let mut p = String::new();
    let mut k: usize = 0;
    while k < n_pvs
        invariant
            k <= n_pvs,
            p@ == public_decls(k as nat, bv),
        decreases n_pvs - k,
    {
        let line = decl_line_string(public_name_string(k), bv);
        p.append(line.as_str());
        k = k + 1;
    }
    r.append(p.as_str());
    r
}

// ---------------------------------------------------------------------------
// constraints
// ---------------------------------------------------------------------------

/// How a constraint is asserted: `0` its integer value is `0` modulo the
/// prime, `1` it is `0`, `2` it is not `0` modulo the prime; `3` its
/// bit-vector value is `0`, `4` it is not `0`.
pub open spec fn assert_line(form: u8, body: Seq<char>, prime: nat) -> Seq<char> {
    if form == 0 {
        "(assert (= (mod "@ + body + " "@ + nat_text(prime) + ") 0))\n"@
    } else if form == 1 {
        "(assert (= "@ + body + " 0))\n"@
    } else if form == 2 {
        "(assert (not (= (mod "@ + body + " "@ + nat_text(prime) + ") 0)))\n"@
    } else if form == 3 {
        "(assert (= "@ + body + " #x00000000))\n"@
    } else {
        "(assert (not (= "@ + body + " #x00000000)))\n"@
    }
}

/// The forms `3` and `4` take bit-vector terms, with field operations.
pub open spec fn query_term(form: u8, e: ZEBRASymbolicExpr, row: nat, n_rows: nat) -> Seq<char> {
    if form >= 3 {
        bv_term(e, row, n_rows, false)
    } else {
        int_term(e, row, n_rows)
    }
}

/// `e` has a term in the encoding of `form`.
pub open spec fn query_ok(form: u8, e: ZEBRASymbolicExpr) -> bool {
    if form >= 3 {
        smt_vars_ok(e)
    } else {
        smt_int_ok(e)
    }
}

/// The assertions of `e` at the rows `0..k`.
pub open spec fn expr_lines(form: u8, e: ZEBRASymbolicExpr, k: nat, n_rows: nat, prime: nat) -> Seq<char>
    decreases k,
{
    if k == 0 {
        Seq::empty()
    } else {
        expr_lines(form, e, (k - 1) as nat, n_rows, prime) + assert_line(
            form,
            query_term(form, e, (k - 1) as nat, n_rows),
            prime,
        )
    }
}

/// The assertions of the first `k` constraints of `es` at every row.
pub open spec fn constraint_lines(
    form: u8,
    es: Seq<ZEBRASymbolicExpr>,
    k: nat,
    n_rows: nat,
    prime: nat,
) -> Seq<char>
    decreases k,
{
    if k == 0 {
        Seq::empty()
    } else {
        constraint_lines(form, es, (k - 1) as nat, n_rows, prime) + expr_lines(
            form,
            es[k - 1],
            n_rows,
            n_rows,
            prime,
        )
    }
}

fn assert_line_string(form: u8, body: String, prime: u32) -> (r: String)
    ensures
        r@ == assert_line(form, body@, prime as nat),
{
    if form == 0 {
        wrap2("(assert (= (mod ", body, " ", nat_string(prime as u128), ") 0))\n")
    } else if form == 1 {
        wrap1("(assert (= ", body, " 0))\n")
    } else if form == 2 {
        wrap2("(assert (not (= (mod ", body, " ", nat_string(prime as u128), ") 0)))\n")
    } else if form == 3 {
        wrap1("(assert (= ", body, " #x00000000))\n")
    } else {
        wrap1("(assert (not (= ", body, " #x00000000)))\n")
    }
}

fn constraint_lines_string(form: u8, es: &Vec<ZEBRASymbolicExpr>, n_rows: usize, prime: u32) -> (r: String)
    requires
        forall|k: int| 0 <= k < es@.len() ==> query_ok(form, #[trigger] es@[k]),
    ensures
        r@ == constraint_lines(form, es@, es@.len(), n_rows as nat, prime as nat),
{
    let mut r = String::new();
    let mut k: usize = 0;
    while k < es.len()
        invariant
            k <= es@.len(),
            forall|k: int| 0 <= k < es@.len() ==> query_ok(form, #[trigger] es@[k]),
            r@ == constraint_lines(form, es@, k as nat, n_rows as nat, prime as nat),
        decreases es@.len() - k,
    {
        let e = &es[k];
        let mut lines = String::new();
        let mut i: usize = 0;
        while i < n_rows
            invariant
                i <= n_rows,
                query_ok(form, *e),
                lines@ == expr_lines(form, *e, i as nat, n_rows as nat, prime as nat),
            decreases n_rows - i,
        {
            let body = if form >= 3 {
                bv_term_string(e, i, n_rows, false)
            } else {
                int_term_string(e, i, n_rows)
            };
            let line = assert_line_string(form, body, prime);
            lines.append(line.as_str());
            i = i + 1;
        }
        r.append(lines.as_str());
        k = k + 1;
    }
    r
}

// ---------------------------------------------------------------------------
// constant cells
// ---------------------------------------------------------------------------

/// The field element of a constant: its lower bound modulo the prime.
pub open spec fn canon(v: AbstractInterval, prime: nat) -> nat {
    (v.lo as int % prime as int) as nat
}

/// The assertion that cell `(i, j)` holds the constant `v`.
pub open spec fn const_line(bv: bool, c: (usize, usize, AbstractInterval), prime: nat) -> Seq<char> {
    if bv {
        "(assert (= "@ + trace_name(c.0 as nat, c.1 as nat) + " #x"@ + hex8_text(canon(c.2, prime))
            + "))\n"@
    } else {
        "(assert (= "@ + trace_name(c.0 as nat, c.1 as nat) + " "@ + nat_text(canon(c.2, prime))
            + "))\n"@
    }
}

/// The assertions of the first `k` constants.
pub open spec fn const_lines(bv: bool, cs: Seq<(usize, usize, AbstractInterval)>, k: nat, prime: nat) -> Seq<char>
    decreases k,
{
    if k == 0 {
        Seq::empty()
    } else {
        const_lines(bv, cs, (k - 1) as nat, prime) + const_line(bv, cs[k - 1], prime)
    }
}

/// The clause that cell `(i, j)` holds the constant `v` modulo the prime.
pub open spec fn neg_const_line(bv: bool, c: (usize, usize, AbstractInterval), prime: nat) -> Seq<char> {
    if bv {
        "  (= (bvurem "@ + trace_name(c.0 as nat, c.1 as nat) + " P) #x"@ + hex8_text(
            canon(c.2, prime),
        ) + ")\n"@
    } else {
        "  (= (mod (- "@ + trace_name(c.0 as nat, c.1 as nat) + " "@ + nat_text(canon(c.2, prime))
            + ") "@ + nat_text(prime) + ") 0)\n"@
    }
}

/// The clauses of the first `k` excluded constants.
pub open spec fn neg_const_lines(bv: bool, ns: Seq<(usize, usize, AbstractInterval)>, k: nat, prime: nat) -> Seq<char>
    decreases k,
{
    if k == 0 {
        Seq::empty()
    } else {
        neg_const_lines(bv, ns, (k - 1) as nat, prime) + neg_const_line(bv, ns[k - 1], prime)
    }
}

/// The assertion that not all the excluded constants hold together; nothing
/// when there is none.
pub open spec fn neg_const_block(bv: bool, ns: Seq<(usize, usize, AbstractInterval)>, prime: nat) -> Seq<char> {
    if ns.len() == 0 {
        Seq::empty()
    } else {
        "(assert (not (and\n"@ + neg_const_lines(bv, ns, ns.len(), prime) + ")))\n"@
    }
}

fn canon_u32(v: &AbstractInterval, prime: u32) -> (r: u32)
    requires
        prime > 0,
    ensures
        r as nat == canon(*v, prime as nat),
{
    v.as_canonical_u32(prime)
}

fn const_line_string(bv: bool, c: &(usize, usize, AbstractInterval), prime: u32) -> (r: String)
    requires
        prime > 0,
    ensures
        r@ == const_line(bv, *c, prime as nat),
{
    let v = canon_u32(&c.2, prime);
    if bv {
        let mut h = String::new();
        push_hex8(&mut h, v as u128);
        assert(h@ =~= hex8_text(v as nat));
        wrap2("(assert (= ", trace_name_string(c.0, c.1), " #x", h, "))\n")
    } else {
        wrap2("(assert (= ", trace_name_string(c.0, c.1), " ", nat_string(v as u128), "))\n")
    }
}

fn neg_const_line_string(bv: bool, c: &(usize, usize, AbstractInterval), prime: u32) -> (r: String)
    requires
        prime > 0,
    ensures
        r@ == neg_const_line(bv, *c, prime as nat),
{
    let v = canon_u32(&c.2, prime);
    if bv {
        let mut h = String::new();
        push_hex8(&mut h, v as u128);
        assert(h@ =~= hex8_text(v as nat));
        wrap2("  (= (bvurem ", trace_name_string(c.0, c.1), " P) #x", h, ")\n")
    } else {
        let mut r = wrap2("  (= (mod (- ", trace_name_string(c.0, c.1), " ", nat_string(v as u128), ") ");
        let p = nat_string(prime as u128);
        r.append(p.as_str());
        r.append(") 0)\n");
        r
    }
}

fn const_lines_string(bv: bool, cs: &Vec<(usize, usize, AbstractInterval)>, prime: u32) -> (r: String)
    requires
        prime > 0 || cs@.len() == 0,
    ensures
        r@ == const_lines(bv, cs@, cs@.len(), prime as nat),
{
    let mut r = String::new();
    let mut k: usize = 0;
    while k < cs.len()
        invariant
            k <= cs@.len(),
            prime > 0 || cs@.len() == 0,
            r@ == const_lines(bv, cs@, k as nat, prime as nat),
        decreases cs@.len() - k,
    {
        let line = const_line_string(bv, &cs[k], prime);
        r.append(line.as_str());
        k = k + 1;
    }
    r
}

fn neg_const_block_string(bv: bool, ns: &Vec<(usize, usize, AbstractInterval)>, prime: u32) -> (r: String)
    requires
        prime > 0 || ns@.len() == 0,
    ensures
        r@ == neg_const_block(bv, ns@, prime as nat),
{
    if ns.len() == 0 {
        return String::new();
    }
    let mut lines = String::new();
    let mut k: usize = 0;
    while k < ns.len()
        invariant
            k <= ns@.len(),
            prime > 0,
            lines@ == neg_const_lines(bv, ns@, k as nat, prime as nat),
        decreases ns@.len() - k,
    {
        let line = neg_const_line_string(bv, &ns[k], prime);
        lines.append(line.as_str());
        k = k + 1;
    }
    wrap1("(assert (not (and\n", lines, ")))\n")
}

// ---------------------------------------------------------------------------
// ranges
// ---------------------------------------------------------------------------

/// The bounds asserted of cell `(i, j)` for a column of range `t`: in the
/// integer encoding a byte column lies in `[0, 255]`; in the bit-vector
/// encoding 16-bit, byte and 7-bit columns are bounded by `0xffff`, `0xff`
/// and `0x7e` (the 7-bit domain is `[0, 126]`).
pub open spec fn range_cell(bv: bool, t: RangeType, i: nat, j: nat) -> Seq<char> {
    if bv {
        match t {
            RangeType::U16 => "(assert (bvule "@ + trace_name(i, j) + " #x0000ffff))\n"@,
            RangeType::U8 => "(assert (bvule "@ + trace_name(i, j) + " #x000000ff))\n"@,
            RangeType::U7 => "(assert (bvule "@ + trace_name(i, j) + " #x0000007e))\n"@,
            _ => Seq::empty(),
        }
    } else {
        match t {
            RangeType::U8 => "(assert (<= "@ + trace_name(i, j) + " 255))\n(assert (<= 0 "@
                + trace_name(i, j) + "))\n"@,
            _ => Seq::empty(),
        }
    }
}

/// The bounds of column `j` at the rows `0..k`.
pub open spec fn range_column(bv: bool, t: RangeType, j: nat, k: nat) -> Seq<char>
    decreases k,
{
    if k == 0 {
        Seq::empty()
    } else {
        range_column(bv, t, j, (k - 1) as nat) + range_cell(bv, t, (k - 1) as nat, j)
    }
}

/// The bounds of the columns `ks`, in that order, at the rows `0..n_rows`.
pub open spec fn range_lines(bv: bool, rt: Map<usize, RangeType>, n_rows: nat, ks: Seq<usize>) -> Seq<char>
    decreases ks.len(),
{
    if ks.len() == 0 {
        Seq::empty()
    } else {
        range_lines(bv, rt, n_rows, ks.drop_last()) + range_column(bv, rt[ks.last()], ks.last() as nat, n_rows)
    }
}

/// Each key is smaller than the next.
pub open spec fn increasing(ks: Seq<usize>) -> bool {
    forall|i: int, j: int| 0 <= i < j < ks.len() ==> ks[i] < ks[j]
}

/// The keys of a finite set, in increasing order.
pub open spec fn sorted_keys(d: Set<usize>) -> Seq<usize> {
    choose|ks: Seq<usize>| increasing(ks) && ks.to_set() == d
}

proof fn lemma_increasing_drop_last(a: Seq<usize>)
    requires
        increasing(a),
        a.len() > 0,
    ensures
        increasing(a.drop_last()),
        a.drop_last().to_set() == a.to_set().remove(a.last()),
{
    let d = a.drop_last();
    assert forall|x: usize| d.to_set().contains(x) <==> a.to_set().remove(a.last()).contains(x) by {
        if d.to_set().contains(x) {
            let i = choose|i: int| 0 <= i < d.len() && d[i] == x;
            assert(a[i] == x && a[i] < a[a.len() - 1]);
        }
        if a.to_set().remove(a.last()).contains(x) {
            let i = choose|i: int| 0 <= i < a.len() && a[i] == x;
            assert(i != a.len() - 1);
            assert(d[i] == x);
        }
    }
    assert(d.to_set() =~= a.to_set().remove(a.last()));
}

/// Two increasing sequences with the same keys are the same.
proof fn lemma_increasing_unique(a: Seq<usize>, b: Seq<usize>)
    requires
        increasing(a),
        increasing(b),
        a.to_set() == b.to_set(),
    ensures
        a == b,
    decreases a.len(),
{
    if a.len() == 0 {
        if b.len() > 0 {
            assert(b.to_set().contains(b[0]));
        }
        assert(a =~= b);
    } else {
        if b.len() == 0 {
            assert(a.to_set().contains(a[0]));
        }
        let x = a.last();
        let y = b.last();
        assert(a.to_set().contains(x));
        assert(b.to_set().contains(y));
        let j = choose|j: int| 0 <= j < b.len() && b[j] == x;
        let i = choose|i: int| 0 <= i < a.len() && a[i] == y;
        assert(x <= y) by {
            if j < b.len() - 1 {
                assert(b[j] < b[b.len() - 1]);
            }
        }
        assert(y <= x) by {
            if i < a.len() - 1 {
                assert(a[i] < a[a.len() - 1]);
            }
        }
        lemma_increasing_drop_last(a);
        lemma_increasing_drop_last(b);
        lemma_increasing_unique(a.drop_last(), b.drop_last());
        assert(a =~= a.drop_last().push(x));
        assert(b =~= b.drop_last().push(y));
    }
}

/// Inserts `x` at its place in the increasing keys `v`.
fn insert_key(v: &mut Vec<usize>, x: usize)
    requires
        increasing(old(v)@),
        !old(v)@.contains(x),
    ensures
        increasing(final(v)@),
        final(v)@.to_set() == old(v)@.to_set().insert(x),
{
    let mut p: usize = 0;
    while p < v.len() && v[p] < x
        invariant
            p <= v@.len(),
            v@ == old(v)@,
            forall|i: int| 0 <= i < p ==> #[trigger] v@[i] < x,
        decreases v@.len() - p,
    {
        p = p + 1;
    }
    let ghost before = v@;
    v.insert(p, x);
    proof {
        assert(p < before.len() ==> before[p as int] != x);
        assert(p < before.len() ==> x < before[p as int]);
        assert forall|i: int, j: int| 0 <= i < j < v@.len() implies v@[i] < v@[j] by {
            if j < p {
            } else if j == p {
                assert(v@[i] == before[i]);
            } else if i < p {
                assert(v@[j] == before[j - 1]);
                assert(before[i] < x || i == p);
                if p < before.len() {
                    assert(x < before[p as int]);
                    assert(before[p as int] <= before[j - 1]) by {
                        if (p as int) < j - 1 {
                            assert(before[p as int] < before[j - 1]);
                        }
                    }
                }
            } else if i == p {
                assert(v@[j] == before[j - 1]);
                assert(x < before[p as int]);
                if (p as int) < j - 1 {
                    assert(before[p as int] < before[j - 1]);
                }
            } else {
                assert(v@[i] == before[i - 1] && v@[j] == before[j - 1]);
            }
        }
        assert forall|y: usize| v@.to_set().contains(y) <==> before.to_set().insert(x).contains(y) by {
            if v@.to_set().contains(y) {
                let k = choose|k: int| 0 <= k < v@.len() && v@[k] == y;
                if k < p {
                    assert(before[k] == y);
                } else if k > p {
                    assert(before[k - 1] == y);
                }
            }
            if before.to_set().contains(y) {
                let k = choose|k: int| 0 <= k < before.len() && before[k] == y;
                if k < p {
                    assert(v@[k] == y);
                } else {
                    assert(v@[k + 1] == y);
                }
            }
            if y == x {
                assert(v@[p as int] == x);
            }
        }
        assert(v@.to_set() =~= before.to_set().insert(x));
    }
}

/// The keys of the range map in increasing order.
fn sorted_range_keys(rt: &HashMap<usize, RangeType>) -> (r: Vec<usize>)
    ensures
        r@ == sorted_keys(rt@.dom()),
        r@.to_set() == rt@.dom(),
{
    let ks = range_keys(rt);
    let mut out: Vec<usize> = Vec::new();
    let mut k: usize = 0;
    proof {
        assert(out@.to_set() =~= ks@.take(0).to_set());
    }
    while k < ks.len()
        invariant
            k <= ks@.len(),
            ks@.no_duplicates(),
            increasing(out@),
            out@.to_set() == ks@.take(k as int).to_set(),
        decreases ks@.len() - k,
    {
        proof {
            assert(ks@.take(k as int + 1) =~= ks@.take(k as int).push(ks@[k as int]));
            ks@.take(k as int).lemma_push_to_set_commute(ks@[k as int]);
            if out@.contains(ks@[k as int]) {
                assert(out@.to_set().contains(ks@[k as int]));
                let i = choose|i: int| 0 <= i < k && ks@.take(k as int)[i] == ks@[k as int];
                assert(ks@[i] == ks@[k as int]);
            }
        }
        insert_key(&mut out, ks[k]);
        k = k + 1;
    }
    proof {
        assert(ks@.take(ks@.len() as int) =~= ks@);
        lemma_increasing_unique(out@, sorted_keys(rt@.dom()));
    }
    out
}

fn range_cell_string(bv: bool, t: RangeType, i: usize, j: usize) -> (r: String)
    ensures
        r@ == range_cell(bv, t, i as nat, j as nat),
{
    if bv {
        match t {
            RangeType::U16 => wrap1("(assert (bvule ", trace_name_string(i, j), " #x0000ffff))\n"),
            RangeType::U8 => wrap1("(assert (bvule ", trace_name_string(i, j), " #x000000ff))\n"),
            RangeType::U7 => wrap1("(assert (bvule ", trace_name_string(i, j), " #x0000007e))\n"),
            _ => String::new(),
        }
    } else {
        match t {
            RangeType::U8 => wrap2(
                "(assert (<= ",
                trace_name_string(i, j),
                " 255))\n(assert (<= 0 ",
                trace_name_string(i, j),
                "))\n",
            ),
            _ => String::new(),
        }
    }
}

/// The keys of the range map, each once.
fn range_keys(rt: &HashMap<usize, RangeType>) -> (r: Vec<usize>)
    ensures
        r@.no_duplicates(),
        r@.to_set() == rt@.dom(),
{
    let ghost rem = vstd::std_specs::hash::spec_keys_iter(rt).remaining();
    let mut ks: Vec<usize> = Vec::new();
    for k in it: rt.keys()
        invariant
            rem == vstd::std_specs::hash::spec_keys_iter(rt).remaining(),
            it.seq() == rem,
            ks@.len() == it.index(),
            forall|i: int| 0 <= i < it.index() ==> ks@[i] == *rem[i],
    {
        ks.push(*k);
    }
    assert(ks@.len() == rem.len());
    assert(ks@ =~= rem.unref());
    ks
}

fn range_lines_string(bv: bool, rt: &HashMap<usize, RangeType>, n_rows: usize) -> (r: String)
    ensures
        r@ == range_lines(bv, rt@, n_rows as nat, sorted_keys(rt@.dom())),
{
    let ks = sorted_range_keys(rt);
    let mut r = String::new();
    let mut k: usize = 0;
    while k < ks.len()
        invariant
            k <= ks@.len(),
            ks@ == sorted_keys(rt@.dom()),
            ks@.to_set() == rt@.dom(),
            r@ == range_lines(bv, rt@, n_rows as nat, ks@.take(k as int)),
        decreases ks@.len() - k,
    {
        let j = ks[k];
        proof {
            assert(ks@.take(k as int + 1).drop_last() =~= ks@.take(k as int));
            assert(ks@.take(k as int + 1).last() == j);
            assert(ks@.to_set().contains(j));
        }
        assert(rt@.contains_key(j));
        let t = *rt.get(&j).unwrap();
        assert(t == rt@[j]);
        let mut col = String::new();
        let mut i: usize = 0;
        while i < n_rows
            invariant
                i <= n_rows,
                col@ == range_column(bv, t, j as nat, i as nat),
            decreases n_rows - i,
        {
            let cell = range_cell_string(bv, t, i, j);
            col.append(cell.as_str());
            i = i + 1;
        }
        r.append(col.as_str());
        k = k + 1;
    }
    proof {
        assert(ks@.take(ks@.len() as int) =~= ks@);
    }
    r
}

// ---------------------------------------------------------------------------
// preludes
// ---------------------------------------------------------------------------

/// The opening of the integer definition of a bitwise operation: `0` and,
/// `1` or, `2` exclusive or.
pub open spec fn bit_header(kind: u8) -> Seq<char> {
    if kind == 0 {
        "\n(define-fun bitwise_and ((a Int) (b Int)) Int\n  (+ \n"@
    } else if kind == 1 {
        "\n(define-fun bitwise_or ((a Int) (b Int)) Int\n  (+ \n"@
    } else {
        "\n(define-fun bitwise_xor ((a Int) (b Int)) Int\n  (+ \n"@
    }
}

/// The summand of bit `i` in the integer definition of a bitwise operation.
pub open spec fn bit_line(kind: u8, i: nat) -> Seq<char> {
    let hi = nat_text(two_pow(i + 1));
    let lo = nat_text(two_pow(i));
    if kind == 0 {
        "    (* (ite (>= (mod a "@ + hi + ") "@ + lo + ") 1 0) (ite (>= (mod b "@ + hi + ") "@ + lo
            + ") 1 0) "@ + lo + ")\n"@
    } else if kind == 1 {
        "    (* (ite (or (>= (mod a "@ + hi + ") "@ + lo + ") (>= (mod b "@ + hi + ") "@ + lo
            + ")) 1 0) "@ + lo + ")\n"@
    } else {
        "    (* (ite (= (ite (>= (mod a "@ + hi + ") "@ + lo + ") 1 0) (ite (>= (mod b "@ + hi
            + ") "@ + lo + ") 1 0)) 0 1) "@ + lo + ")\n"@
    }
}

/// The summands of the bits `0..k`.
pub open spec fn bit_lines(kind: u8, k: nat) -> Seq<char>
    decreases k,
{
    if k == 0 {
        Seq::empty()
    } else {
        bit_lines(kind, (k - 1) as nat) + bit_line(kind, (k - 1) as nat)
    }
}

/// The integer definition of a bitwise operation on 32 bits.
pub open spec fn bit_block(kind: u8) -> Seq<char> {
    bit_header(kind) + bit_lines(kind, 32) + "))\n"@
}

proof fn lemma_two_pow_mono(a: nat, b: nat)
    requires
        a <= b,
    ensures
        two_pow(a) <= two_pow(b),
    decreases b,
{
    if a < b {
        lemma_two_pow_mono(a, (b - 1) as nat);
    }
}

fn bit_line_string(kind: u8, i: u32, lo: u64, hi: u64) -> (r: String)
    requires
        lo as nat == two_pow(i as nat),
        hi as nat == two_pow((i + 1) as nat),
    ensures
        r@ == bit_line(kind, i as nat),
{
    let hs = nat_string(hi as u128);
    let ls = nat_string(lo as u128);
    let mut r: String;
    if kind == 0 {
        r = String::from_str("    (* (ite (>= (mod a ");
        r.append(hs.as_str());
        r.append(") ");
        r.append(ls.as_str());
        r.append(") 1 0) (ite (>= (mod b ");
        r.append(hs.as_str());
        r.append(") ");
        r.append(ls.as_str());
        r.append(") 1 0) ");
        r.append(ls.as_str());
        r.append(")\n");
    } else if kind == 1 {
        r = String::from_str("    (* (ite (or (>= (mod a ");
        r.append(hs.as_str());
        r.append(") ");
        r.append(ls.as_str());
        r.append(") (>= (mod b ");
        r.append(hs.as_str());
        r.append(") ");
        r.append(ls.as_str());
        r.append(")) 1 0) ");
        r.append(ls.as_str());
        r.append(")\n");
    } else {
        r = String::from_str("    (* (ite (= (ite (>= (mod a ");
        r.append(hs.as_str());
        r.append(") ");
        r.append(ls.as_str());
        r.append(") 1 0) (ite (>= (mod b ");
        r.append(hs.as_str());
        r.append(") ");
        r.append(ls.as_str());
        r.append(") 1 0)) 0 1) ");
        r.append(ls.as_str());
        r.append(")\n");
    }
    r
}

fn bit_block_string(kind: u8) -> (r: String)
    ensures
        r@ == bit_block(kind),
{
    let mut r = if kind == 0 {
        String::from_str("\n(define-fun bitwise_and ((a Int) (b Int)) Int\n  (+ \n")
    } else if kind == 1 {
        String::from_str("\n(define-fun bitwise_or ((a Int) (b Int)) Int\n  (+ \n")
    } else {
        String::from_str("\n(define-fun bitwise_xor ((a Int) (b Int)) Int\n  (+ \n")
    };
    let mut lines = String::new();
    let mut lo: u64 = 1;
    let mut i: u32 = 0;
    proof {
        reveal_with_fuel(two_pow, 33);
        assert(two_pow(32) == 4294967296);
    }
    while i < 32
        invariant
            i <= 32,
            lo as nat == two_pow(i as nat),
            two_pow(32) == 4294967296,
            lines@ == bit_lines(kind, i as nat),
        decreases 32 - i,
    {
        proof {
            lemma_two_pow_mono((i + 1) as nat, 32);
        }
        let hi = lo * 2;
        let line = bit_line_string(kind, i, lo, hi);
        lines.append(line.as_str());
        lo = hi;
        i = i + 1;
    }
    r.append(lines.as_str());
    r.append("))\n");
    r
}

// ---------------------------------------------------------------------------
// queries
// ---------------------------------------------------------------------------

/// The declarations of `rows` rows of `cols` cells and of `n_pvs` public inputs.
pub open spec fn decls(rows: nat, cols: nat, n_pvs: nat, bv: bool) -> Seq<char> {
    trace_decls(rows, cols, bv) + public_decls(n_pvs, bv)
}

/// The integer query of a constraint system over `n_rows` rows of `n_cols`
/// columns and `n_pvs` public inputs: the definitions of the bitwise
/// operations; one integer variable per cell of `n_rows + 1` rows and per
/// public input; at every row, each AIR and public constraint is `0` modulo
/// the prime (the negated public constraints are not), each lookup constraint
/// is `0`; the constant cells hold their constants, the excluded constants
/// do not all hold, the byte columns lie in `[0, 255]`.
pub open spec fn smt_int_query(
    c: ZEBRAConstraints,
    cs: Seq<(usize, usize, AbstractInterval)>,
    ns: Seq<(usize, usize, AbstractInterval)>,
    rt: Map<usize, RangeType>,
    n_rows: nat,
    n_cols: nat,
    n_pvs: nat,
    prime: nat,
) -> Seq<char> {
    "(set-logic QF_NIA)\n"@ + bit_block(0) + bit_block(1) + bit_block(2) + decls(
        n_rows + 1,
        n_cols,
        n_pvs,
        false,
    ) + constraint_lines(0, c.air_constraints@, c.air_constraints@.len(), n_rows, prime)
        + constraint_lines(1, c.lookup_constraints@, c.lookup_constraints@.len(), n_rows, prime)
        + constraint_lines(0, c.pv_pos_constraints@, c.pv_pos_constraints@.len(), n_rows, prime)
        + constraint_lines(2, c.pv_neg_constraints@, c.pv_neg_constraints@.len(), n_rows, prime)
        + const_lines(false, cs, cs.len(), prime) + neg_const_block(false, ns, prime) + range_lines(
        false,
        rt,
        n_rows,
        sorted_keys(rt.dom()),
    ) + QUERY_END@
}

/// The bit-vector query of a constraint system: the prime `P` and the field
/// operations modulo `P`; one 32-bit variable per cell of `n_rows + 1` rows
/// and per public input; at every row, each AIR, lookup and public
/// constraint is `0` (the negated public constraints are not); the constant
/// cells hold their constants, the excluded constants do not all hold
/// modulo `P`, the 16-bit, byte and 7-bit columns are bounded.
pub open spec fn smt_bv_query(
    c: ZEBRAConstraints,
    cs: Seq<(usize, usize, AbstractInterval)>,
    ns: Seq<(usize, usize, AbstractInterval)>,
    rt: Map<usize, RangeType>,
    n_rows: nat,
    n_cols: nat,
    n_pvs: nat,
    prime: nat,
) -> Seq<char> {
    "(set-logic QF_BV)\n"@ + "(define-fun P () (_ BitVec 32) #x"@ + hex8_text(prime) + ")\n"@
        + FF_DEFS@ + decls(n_rows + 1, n_cols, n_pvs, true) + constraint_lines(
        3,
        c.air_constraints@,
        c.air_constraints@.len(),
        n_rows,
        prime,
    ) + constraint_lines(3, c.lookup_constraints@, c.lookup_constraints@.len(), n_rows, prime)
        + constraint_lines(3, c.pv_pos_constraints@, c.pv_pos_constraints@.len(), n_rows, prime)
        + constraint_lines(4, c.pv_neg_constraints@, c.pv_neg_constraints@.len(), n_rows, prime)
        + const_lines(true, cs, cs.len(), prime) + neg_const_block(true, ns, prime) + range_lines(
        true,
        rt,
        n_rows,
        sorted_keys(rt.dom()),
    ) + QUERY_END@
}

/// Every constraint of every list has an integer term.
pub open spec fn smt_int_system_ok(c: ZEBRAConstraints) -> bool {
    &&& forall|k: int|
        0 <= k < c.air_constraints@.len() ==> smt_int_ok(#[trigger] c.air_constraints@[k])
    &&& forall|k: int|
        0 <= k < c.lookup_constraints@.len() ==> smt_int_ok(#[trigger] c.lookup_constraints@[k])
    &&& forall|k: int|
        0 <= k < c.pv_pos_constraints@.len() ==> smt_int_ok(#[trigger] c.pv_pos_constraints@[k])
    &&& forall|k: int|
        0 <= k < c.pv_neg_constraints@.len() ==> smt_int_ok(#[trigger] c.pv_neg_constraints@[k])
}

/// Every variable of every constraint is a main-trace cell or a public input.
pub open spec fn smt_bv_system_ok(c: ZEBRAConstraints) -> bool {
    &&& forall|k: int|
        0 <= k < c.air_constraints@.len() ==> smt_vars_ok(#[trigger] c.air_constraints@[k])
    &&& forall|k: int|
        0 <= k < c.lookup_constraints@.len() ==> smt_vars_ok(#[trigger] c.lookup_constraints@[k])
    &&& forall|k: int|
        0 <= k < c.pv_pos_constraints@.len() ==> smt_vars_ok(#[trigger] c.pv_pos_constraints@[k])
    &&& forall|k: int|
        0 <= k < c.pv_neg_constraints@.len() ==> smt_vars_ok(#[trigger] c.pv_neg_constraints@[k])
}

/// The integer SMT-LIB query whose models are the assignments of the trace
/// that satisfy the constraint system (`smt_int_query`). The cells and
/// public inputs are declared row by row, column by column; the bounds of
/// the byte columns are asserted column by column, for every column of the
/// range map in increasing order.
pub fn expr_to_smt(
    constraints: &ZEBRAConstraints,
    constants: &Vec<(usize, usize, AbstractInterval)>,
    neg_constants: &Vec<(usize, usize, AbstractInterval)>,
    range_types: &HashMap<usize, RangeType>,
    n_rows: usize,
    n_cols: usize,
    n_pvs: usize,
    prime: u32,
) -> (r: String)
    requires
        smt_int_system_ok(*constraints),
        n_rows < usize::MAX,
        prime > 0 || (constants@.len() == 0 && neg_constants@.len() == 0),
    ensures
        r@ == smt_int_query(
            *constraints,
            constants@,
            neg_constants@,
            range_types@,
            n_rows as nat,
            n_cols as nat,
            n_pvs as nat,
            prime as nat,
        ),
{
    let mut smt = String::from_str("(set-logic QF_NIA)\n");
    let b = bit_block_string(0);
    smt.append(b.as_str());
    let b = bit_block_string(1);
    smt.append(b.as_str());
    let b = bit_block_string(2);
    smt.append(b.as_str());
    let d = decls_string(n_rows + 1, n_cols, n_pvs, false);
    smt.append(d.as_str());
    let a = constraint_lines_string(0, &constraints.air_constraints, n_rows, prime);
    smt.append(a.as_str());
    let a = constraint_lines_string(1, &constraints.lookup_constraints, n_rows, prime);
    smt.append(a.as_str());
    let a = constraint_lines_string(0, &constraints.pv_pos_constraints, n_rows, prime);
    smt.append(a.as_str());
    let a = constraint_lines_string(2, &constraints.pv_neg_constraints, n_rows, prime);
    smt.append(a.as_str());
    let k = const_lines_string(false, constants, prime);
    smt.append(k.as_str());
    let k = neg_const_block_string(false, neg_constants, prime);
    smt.append(k.as_str());
    let g = range_lines_string(false, range_types, n_rows);
    smt.append(g.as_str());
    smt.append(QUERY_END);
    smt
}

/// The bit-vector SMT-LIB query whose models are the assignments of the
/// trace that satisfy the constraint system (`smt_bv_query`). The cells and
/// public inputs are declared row by row, column by column; the bounds of
/// the ranged columns are asserted column by column, for every column of
/// the range map in increasing order.
pub fn expr_to_smt_bv(
    constraints: &ZEBRAConstraints,
    constants: &Vec<(usize, usize, AbstractInterval)>,
    neg_constants: &Vec<(usize, usize, AbstractInterval)>,
    range_types: &HashMap<usize, RangeType>,
    n_rows: usize,
    n_cols: usize,
    n_pvs: usize,
    prime: u32,
) -> (r: String)
    requires
        smt_bv_system_ok(*constraints),
        n_rows < usize::MAX,
        prime > 0 || (constants@.len() == 0 && neg_constants@.len() == 0),
    ensures
        r@ == smt_bv_query(
            *constraints,
            constants@,
            neg_constants@,
            range_types@,
            n_rows as nat,
            n_cols as nat,
            n_pvs as nat,
            prime as nat,
        ),
{
    let mut smt = String::from_str("(set-logic QF_BV)\n");
    let mut ph = String::new();
    push_hex8(&mut ph, prime as u128);
    assert(ph@ =~= hex8_text(prime as nat));
    smt.append("(define-fun P () (_ BitVec 32) #x");
    smt.append(ph.as_str());
    smt.append(")\n");
    smt.append(FF_DEFS);
    let d = decls_string(n_rows + 1, n_cols, n_pvs, true);
    smt.append(d.as_str());
    let a = constraint_lines_string(3, &constraints.air_constraints, n_rows, prime);
    smt.append(a.as_str());
    let a = constraint_lines_string(3, &constraints.lookup_constraints, n_rows, prime);
    smt.append(a.as_str());
    let a = constraint_lines_string(3, &constraints.pv_pos_constraints, n_rows, prime);
    smt.append(a.as_str());
    let a = constraint_lines_string(4, &constraints.pv_neg_constraints, n_rows, prime);
    smt.append(a.as_str());
    let k = const_lines_string(true, constants, prime);
    smt.append(k.as_str());
    let k = neg_const_block_string(true, neg_constants, prime);
    smt.append(k.as_str());
    let g = range_lines_string(true, range_types, n_rows);
    smt.append(g.as_str());
    smt.append(QUERY_END);
    smt
}

// ---------------------------------------------------------------------------
// cells fixed by a query
// ---------------------------------------------------------------------------

/// The cells `(0, j, row0[j])` of the columns `j < k` that are not refinable,
/// in column order.
pub open spec fn fixed_cells_upto(refinable: Seq<usize>, row0: Seq<AbstractInterval>, k: nat) -> Seq<(usize, usize, AbstractInterval)>
    decreases k,
{
    if k == 0 {
        Seq::empty()
    } else {
        let j = (k - 1) as usize;
        fixed_cells_upto(refinable, row0, (k - 1) as nat) + if refinable.contains(j) {
            Seq::empty()
        } else {
            seq![(0usize, j, row0[j as int])]
        }
    }
}

/// The constants of a query: the first-row cells of the columns that the
/// search does not refine.
pub fn fixed_cells(num_total_columns: usize, refinable_cols: &Vec<usize>, row0: &Vec<AbstractInterval>) -> (r: Vec<(usize, usize, AbstractInterval)>)
    requires
        num_total_columns <= row0@.len(),
    ensures
        r@ == fixed_cells_upto(refinable_cols@, row0@, num_total_columns as nat),
{
    let mut r: Vec<(usize, usize, AbstractInterval)> = Vec::new();
    let mut j: usize = 0;
    while j < num_total_columns
        invariant
            j <= num_total_columns <= row0@.len(),
            r@ == fixed_cells_upto(refinable_cols@, row0@, j as nat),
        decreases num_total_columns - j,
    {
        let mut found = false;
        let mut k: usize = 0;
        while k < refinable_cols.len()
            invariant
                k <= refinable_cols@.len(),
                found == exists|t: int| 0 <= t < k && refinable_cols@[t] == j,
            decreases refinable_cols@.len() - k,
        {
            if refinable_cols[k] == j {
                found = true;
            }
            k = k + 1;
        }
        proof {
            assert(found == refinable_cols@.contains(j));
        }
        if !found {
            r.push((0, j, row0[j]));
        }
        proof {
            assert(r@ =~= fixed_cells_upto(refinable_cols@, row0@, (j + 1) as nat));
        }
        j = j + 1;
    }
    r
}

/// The excluded constants of a query: the first-row cells of the output
/// columns, in the given order.
pub fn output_cells(output_columns: &Vec<usize>, row0: &Vec<AbstractInterval>) -> (r: Vec<(usize, usize, AbstractInterval)>)
    requires
        forall|k: int| 0 <= k < output_columns@.len() ==> #[trigger] output_columns@[k] < row0@.len(),
    ensures
        r@.len() == output_columns@.len(),
        forall|k: int|
            0 <= k < output_columns@.len() ==> #[trigger] r@[k] == (
                0usize,
                output_columns@[k],
                row0@[output_columns@[k] as int],
            ),
{
    let mut r: Vec<(usize, usize, AbstractInterval)> = Vec::new();
    let mut k: usize = 0;
    while k < output_columns.len()
        invariant
            k <= output_columns@.len(),
            forall|k: int| 0 <= k < output_columns@.len() ==> #[trigger] output_columns@[k] < row0@.len(),
            r@.len() == k,
            forall|t: int|
                0 <= t < k ==> #[trigger] r@[t] == (0usize, output_columns@[t], row0@[output_columns@[t] as int]),
        decreases output_columns@.len() - k,
    {
        let j = output_columns[k];
        r.push((0, j, row0[j]));
        k = k + 1;
    }
    r
}

} // verus!
