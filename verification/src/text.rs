use vstd::prelude::*;

verus! {

/// The digit of value `d` (`0` to `15`) in decimal or lower-case hexadecimal.
pub open spec fn digit_char(d: int) -> char {
    if d == 0 { '0' }
    else if d == 1 { '1' }
    else if d == 2 { '2' }
    else if d == 3 { '3' }
    else if d == 4 { '4' }
    else if d == 5 { '5' }
    else if d == 6 { '6' }
    else if d == 7 { '7' }
    else if d == 8 { '8' }
    else if d == 9 { '9' }
    else if d == 10 { 'a' }
    else if d == 11 { 'b' }
    else if d == 12 { 'c' }
    else if d == 13 { 'd' }
    else if d == 14 { 'e' }
    else { 'f' }
}

/// The decimal digits of `n`, most significant first, with no leading zero.
pub open spec fn nat_text(n: nat) -> Seq<char>
    decreases n,
{
    if n < 10 {
        seq![digit_char(n as int)]
    } else {
        nat_text(n / 10) + seq![digit_char((n % 10) as int)]
    }
}

/// The decimal text of `v`, with a leading `-` when it is negative.
pub open spec fn int_text(v: int) -> Seq<char> {
    if v < 0 {
        seq!['-'] + nat_text((-v) as nat)
    } else {
        nat_text(v as nat)
    }
}

/// The lower-case hexadecimal digits of `n`, with no leading zero.
pub open spec fn hex_text(n: nat) -> Seq<char>
    decreases n,
{
    if n < 16 {
        seq![digit_char(n as int)]
    } else {
        hex_text(n / 16) + seq![digit_char((n % 16) as int)]
    }
}

/// `k` zeros.
pub open spec fn zeros(k: nat) -> Seq<char> {
    Seq::new(k, |i: int| '0')
}

/// The hexadecimal text of `n`, padded with zeros to at least eight digits.
pub open spec fn hex8_text(n: nat) -> Seq<char> {
    let h = hex_text(n);
    if h.len() >= 8 {
        h
    } else {
        zeros((8 - h.len()) as nat) + h
    }
}

/// `2^128`.
pub open spec fn two_pow_128() -> int {
    u128::MAX as int + 1
}

/// `2^64`.
pub open spec fn two_pow_64() -> int {
    u64::MAX as int + 1
}

/// The hexadecimal text of a signed value as Rust writes an `i64` with
/// `{:08x}`: a negative value of the 64-bit range is written in 64-bit two's
/// complement (sixteen digits); a value below that range, in 128-bit two's
/// complement.
pub open spec fn hex8_i128_text(v: int) -> Seq<char> {
    if v < i64::MIN {
        hex8_text((v + two_pow_128()) as nat)
    } else if v < 0 {
        hex8_text((v + two_pow_64()) as nat)
    } else {
        hex8_text(v as nat)
    }
}

/// `2^n`.
pub open spec fn two_pow(n: nat) -> nat
    decreases n,
{
    if n == 0 {
        1
    } else {
        2 * two_pow((n - 1) as nat)
    }
}

/// The one-character text of a digit.
fn digit_str(d: u8) -> (r: &'static str)
    requires
        d < 16,
    ensures
        r@ == seq![digit_char(d as int)],
{
    match d {
        0 => { proof { reveal_strlit("0"); } "0" },
        1 => { proof { reveal_strlit("1"); } "1" },
        2 => { proof { reveal_strlit("2"); } "2" },
        3 => { proof { reveal_strlit("3"); } "3" },
        4 => { proof { reveal_strlit("4"); } "4" },
        5 => { proof { reveal_strlit("5"); } "5" },
        6 => { proof { reveal_strlit("6"); } "6" },
        7 => { proof { reveal_strlit("7"); } "7" },
        8 => { proof { reveal_strlit("8"); } "8" },
        9 => { proof { reveal_strlit("9"); } "9" },
        10 => { proof { reveal_strlit("a"); } "a" },
        11 => { proof { reveal_strlit("b"); } "b" },
        12 => { proof { reveal_strlit("c"); } "c" },
        13 => { proof { reveal_strlit("d"); } "d" },
        14 => { proof { reveal_strlit("e"); } "e" },
        _ => { proof { reveal_strlit("f"); } "f" },
    }
}

/// Appends the decimal text of `n`.
pub fn push_nat(out: &mut String, n: u128)
    ensures
        final(out)@ == old(out)@ + nat_text(n as nat),
    decreases n,
{
    let ghost start = out@;
    if n >= 10 {
        push_nat(out, n / 10);
    }
    let d = (n % 10) as u8;
    out.append(digit_str(d));
    proof {
        if n >= 10 {
            assert(out@ =~= start + nat_text(n as nat));
        } else {
            assert(out@ =~= start + nat_text(n as nat));
        }
    }
}

/// Appends the decimal text of `v`, with a leading `-` when it is negative.
pub fn push_int(out: &mut String, v: i128)
    ensures
        final(out)@ == old(out)@ + int_text(v as int),
{
    let ghost start = out@;
    if v < 0 {
        let m: u128 = ((v + 1) + i128::MAX) as u128;
        let mag: u128 = (i128::MAX as u128 - m) + 1;
        assert(mag as int == -(v as int));
        proof { reveal_strlit("-"); }
        out.append("-");
        push_nat(out, mag);
        assert(out@ =~= start + int_text(v as int));
    } else {
        push_nat(out, v as u128);
    }
}

/// Appends the hexadecimal digits of `n`.
fn push_hex_digits(out: &mut String, n: u128)
    ensures
        final(out)@ == old(out)@ + hex_text(n as nat),
    decreases n,
{
    let ghost start = out@;
    if n >= 16 {
        push_hex_digits(out, n / 16);
    }
    let d = (n % 16) as u8;
    out.append(digit_str(d));
    proof {
        assert(out@ =~= start + hex_text(n as nat));
    }
}

/// The number of hexadecimal digits of `n`.
fn hex_len(n: u128) -> (r: usize)
    ensures
        r as int == hex_text(n as nat).len(),
        r <= 32,
    decreases n,
{
    if n < 16 {
        1
    } else {
        let k = hex_len(n / 16);
        proof {
            lemma_hex_len_bound(n);
        }
        k + 1
    }
}

proof fn lemma_hex_len_bound(n: u128)
    ensures
        hex_text(n as nat).len() <= 32,
    decreases n,
{
    reveal_with_fuel(pow16, 33);
    assert(pow16(32) == u128::MAX as int + 1);
    lemma_hex_len_pow(n as nat, 32);
}

proof fn lemma_hex_len_pow(n: nat, k: nat)
    requires
        k >= 1,
        n < pow16(k),
    ensures
        hex_text(n).len() <= k,
    decreases k,
{
    if n >= 16 {
        assert(n / 16 < pow16((k - 1) as nat)) by (nonlinear_arith)
            requires
                n < pow16(k),
                pow16(k) == 16 * pow16((k - 1) as nat),
                k >= 1,
        ;
        if k == 1 {
            assert(pow16(0) == 1);
            assert(pow16(1) == 16);
        } else {
            lemma_hex_len_pow(n / 16, (k - 1) as nat);
        }
    }
}

spec fn pow16(k: nat) -> nat
    decreases k,
{
    if k == 0 {
        1
    } else {
        16 * pow16((k - 1) as nat)
    }
}

/// Appends the hexadecimal text of `n`, padded with zeros to eight digits.
pub fn push_hex8(out: &mut String, n: u128)
    ensures
        final(out)@ == old(out)@ + hex8_text(n as nat),
{
    let ghost start = out@;
    let len = hex_len(n);
    if len < 8 {
        let mut i: usize = 0;
        while i < 8 - len
            invariant
                len < 8,
                i <= 8 - len,
                out@ == start + zeros(i as nat),
            decreases 8 - len - i,
        {
            proof { reveal_strlit("0"); }
            out.append("0");
            i = i + 1;
            assert(out@ =~= start + zeros(i as nat));
        }
    }
    push_hex_digits(out, n);
    assert(out@ =~= start + hex8_text(n as nat));
}

/// Appends the hexadecimal text of `v` as Rust writes an `i64` with `{:08x}`
/// (see `hex8_i128_text`).
pub fn push_hex8_i128(out: &mut String, v: i128)
    ensures
        final(out)@ == old(out)@ + hex8_i128_text(v as int),
{
    if v < 0 && v >= i64::MIN as i128 {
        let w: u128 = (v + 0x1_0000_0000_0000_0000i128) as u128;
        assert(w as int == v as int + two_pow_64());
        push_hex8(out, w);
    } else if v < 0 {
        let m: u128 = ((v + 1) + i128::MAX) as u128;
        let w: u128 = m + 0x8000_0000_0000_0000_0000_0000_0000_0000u128;
        assert(w as int == v as int + two_pow_128());
        push_hex8(out, w);
    } else {
        push_hex8(out, v as u128);
    }
}

// ---------------------------------------------------------------------------
// order of texts
// ---------------------------------------------------------------------------

/// `a` comes before `b` in the lexicographic order of character codes (the
/// order of `String`): at the first place where they differ `a` has the
/// smaller character, or `a` is a proper prefix of `b`.
pub open spec fn text_lt(a: Seq<char>, b: Seq<char>) -> bool
    decreases a.len(),
{
    if b.len() == 0 {
        false
    } else if a.len() == 0 {
        true
    } else if a[0] != b[0] {
        (a[0] as int) < (b[0] as int)
    } else {
        text_lt(a.drop_first(), b.drop_first())
    }
}

/// No text comes before itself.
pub proof fn lemma_text_lt_irreflexive(a: Seq<char>)
    ensures
        !text_lt(a, a),
    decreases a.len(),
{
    if a.len() > 0 {
        lemma_text_lt_irreflexive(a.drop_first());
    }
}

/// Of two different texts one comes before the other.
pub proof fn lemma_text_lt_total(a: Seq<char>, b: Seq<char>)
    ensures
        text_lt(a, b) || a == b || text_lt(b, a),
    decreases a.len(),
{
    if a.len() > 0 && b.len() > 0 && a[0] == b[0] {
        lemma_text_lt_total(a.drop_first(), b.drop_first());
        if a.drop_first() == b.drop_first() {
            assert(a =~= seq![a[0]] + a.drop_first());
            assert(b =~= seq![b[0]] + b.drop_first());
        }
    }
    if a.len() == 0 && b.len() == 0 {
        assert(a =~= b);
    }
}

/// The order of texts is transitive.
pub proof fn lemma_text_lt_transitive(a: Seq<char>, b: Seq<char>, c: Seq<char>)
    requires
        text_lt(a, b),
        text_lt(b, c),
    ensures
        text_lt(a, c),
    decreases a.len(),
{
    if a.len() > 0 && b.len() > 0 && c.len() > 0 && a[0] == b[0] && b[0] == c[0] {
        lemma_text_lt_transitive(a.drop_first(), b.drop_first(), c.drop_first());
    }
}

/// The order of texts is asymmetric.
pub proof fn lemma_text_lt_asymmetric(a: Seq<char>, b: Seq<char>)
    requires
        text_lt(a, b),
    ensures
        !text_lt(b, a),
{
    if text_lt(b, a) {
        lemma_text_lt_transitive(a, b, a);
        lemma_text_lt_irreflexive(a);
    }
}

proof fn lemma_text_lt_skip(a: Seq<char>, b: Seq<char>, i: int)
    requires
        0 <= i < a.len(),
        i < b.len(),
        a[i] == b[i],
    ensures
        text_lt(a.skip(i), b.skip(i)) == text_lt(a.skip(i + 1), b.skip(i + 1)),
{
    assert(a.skip(i).drop_first() =~= a.skip(i + 1));
    assert(b.skip(i).drop_first() =~= b.skip(i + 1));
}

/// Whether `a` comes before `b` (`text_lt`).
pub fn text_less(a: &String, b: &String) -> (r: bool)
    ensures
        r == text_lt(a@, b@),
{
    let sa = a.as_str();
    let sb = b.as_str();
    let na = sa.unicode_len();
    let nb = sb.unicode_len();
    let mut i: usize = 0;
    proof {
        assert(a@.skip(0) =~= a@);
        assert(b@.skip(0) =~= b@);
    }
    while i < na && i < nb
        invariant
            sa@ == a@,
            sb@ == b@,
            na == a@.len(),
            nb == b@.len(),
            i <= na,
            i <= nb,
            text_lt(a@, b@) == text_lt(a@.skip(i as int), b@.skip(i as int)),
        decreases na - i,
    {
        let ca = sa.get_char(i);
        let cb = sb.get_char(i);
        if ca != cb {
            assert(a@.skip(i as int)[0] == ca);
            assert(b@.skip(i as int)[0] == cb);
            return (ca as u32) < (cb as u32);
        }
        proof {
            lemma_text_lt_skip(a@, b@, i as int);
        }
        i = i + 1;
    }
    i < nb
}

/// The texts of a sequence of strings.
pub open spec fn texts(v: Seq<String>) -> Seq<Seq<char>> {
    v.map_values(|s: String| s@)
}

/// The texts are in order: none comes before an earlier one.
pub open spec fn texts_sorted(t: Seq<Seq<char>>) -> bool {
    forall|i: int, j: int| 0 <= i < j < t.len() ==> !text_lt(#[trigger] t[j], #[trigger] t[i])
}

/// The strings of `v` in the order of their texts (`text_lt`), equal texts
/// in the order in which they come in `v`.
pub fn sort_texts(v: &Vec<String>) -> (r: Vec<String>)
    ensures
        texts(r@).to_multiset() == texts(v@).to_multiset(),
        texts_sorted(texts(r@)),
{
    let mut r: Vec<String> = Vec::new();
    let mut k: usize = 0;
    assert(texts(v@.take(0)) =~= Seq::<Seq<char>>::empty());
    assert(texts(r@) =~= Seq::<Seq<char>>::empty());
    while k < v.len()
        invariant
            k <= v@.len(),
            texts(r@).to_multiset() == texts(v@.take(k as int)).to_multiset(),
            texts_sorted(texts(r@)),
        decreases v@.len() - k,
    {
        let x = v[k].clone();
        let mut p: usize = 0;
        while p < r.len() && !text_less(&x, &r[p])
            invariant
                p <= r@.len(),
                forall|i: int| 0 <= i < p ==> !text_lt(x@, #[trigger] r@[i]@),
            decreases r@.len() - p,
        {
            p = p + 1;
        }
        let ghost old_r = r@;
        let ghost xv = x@;
        r.insert(p, x);
        proof {
            assert(texts(r@) =~= texts(old_r).insert(p as int, xv));
            assert(texts(v@.take(k as int + 1)) =~= texts(v@.take(k as int)).push(v@[k as int]@));
            assert(xv == v@[k as int]@);
            vstd::seq_lib::to_multiset_insert(texts(old_r), p as int, xv);
            vstd::seq_lib::to_multiset_build(texts(v@.take(k as int)), xv);
            assert forall|i: int, j: int| 0 <= i < j < r@.len() implies !text_lt(
                #[trigger] texts(r@)[j],
                #[trigger] texts(r@)[i],
            ) by {
                if j == p {
                    assert(texts(r@)[j] == xv);
                    assert(texts(r@)[i] == old_r[i]@);
                } else if i == p {
                    assert(texts(r@)[i] == xv);
                    assert(texts(r@)[j] == old_r[j - 1]@);
                    assert(text_lt(xv, old_r[p as int]@));
                    if p < j - 1 {
                        assert(!text_lt(texts(old_r)[j - 1], texts(old_r)[p as int]));
                        lemma_text_lt_total(old_r[p as int]@, old_r[j - 1]@);
                        if text_lt(old_r[p as int]@, old_r[j - 1]@) {
                            lemma_text_lt_transitive(xv, old_r[p as int]@, old_r[j - 1]@);
                        }
                    }
                    lemma_text_lt_asymmetric(xv, old_r[j - 1]@);
                } else {
                    let oi = if i < p { i } else { i - 1 };
                    let oj = if j < p { j } else { j - 1 };
                    assert(texts(r@)[i] == texts(old_r)[oi]);
                    assert(texts(r@)[j] == texts(old_r)[oj]);
                }
            }
        }
        k = k + 1;
    }
    assert(v@.take(v@.len() as int) =~= v@);
    r
}

/// Two sequences of texts in order with the same texts are the same: the
/// order of texts is total.
pub proof fn lemma_sorted_unique(a: Seq<Seq<char>>, b: Seq<Seq<char>>)
    requires
        texts_sorted(a),
        texts_sorted(b),
        a.to_multiset() == b.to_multiset(),
    ensures
        a == b,
    decreases a.len(),
{
    vstd::seq_lib::to_multiset_len(a);
    vstd::seq_lib::to_multiset_len(b);
    if a.len() == 0 {
        assert(a =~= b);
    } else {
        let n = a.len() - 1;
        let x = a[n];
        let y = b[n];
        vstd::seq_lib::to_multiset_contains(a, x);
        vstd::seq_lib::to_multiset_contains(b, y);
        assert(a.contains(x)) by {
            assert(a[n] == x);
        }
        assert(b.contains(y)) by {
            assert(b[n] == y);
        }
        vstd::seq_lib::to_multiset_contains(b, x);
        vstd::seq_lib::to_multiset_contains(a, y);
        assert(b.contains(x));
        assert(a.contains(y));
        let j = choose|j: int| 0 <= j < b.len() && b[j] == x;
        let i = choose|i: int| 0 <= i < a.len() && a[i] == y;
        if j < n {
            assert(!text_lt(b[n], b[j]));
        }
        if i < n {
            assert(!text_lt(a[n], a[i]));
        }
        if j == n {
            lemma_text_lt_irreflexive(x);
        }
        if i == n {
            lemma_text_lt_irreflexive(y);
        }
        lemma_text_lt_total(x, y);
        assert(x == y);
        let a2 = a.drop_last();
        let b2 = b.drop_last();
        assert(a =~= a2.push(x));
        assert(b =~= b2.push(y));
        vstd::seq_lib::to_multiset_build(a2, x);
        vstd::seq_lib::to_multiset_build(b2, y);
        assert(a2.to_multiset() =~= a.to_multiset().remove(x));
        assert(b2.to_multiset() =~= b.to_multiset().remove(y));
        lemma_sorted_unique(a2, b2);
    }
}

/// The texts `t` in order: the one sequence in order with the same texts.
pub open spec fn sorted_texts(t: Seq<Seq<char>>) -> Seq<Seq<char>> {
    choose|u: Seq<Seq<char>>| texts_sorted(u) && u.to_multiset() == t.to_multiset()
}

/// A sequence in order with the texts of `t` is `sorted_texts(t)`.
pub proof fn lemma_sorted_texts(t: Seq<Seq<char>>, u: Seq<Seq<char>>)
    requires
        texts_sorted(u),
        u.to_multiset() == t.to_multiset(),
    ensures
        sorted_texts(t) == u,
{
    let v = sorted_texts(t);
    assert(texts_sorted(v) && v.to_multiset() == t.to_multiset());
    lemma_sorted_unique(v, u);
}

} // verus!
