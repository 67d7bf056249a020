use vstd::prelude::*;

use crate::text::{lemma_sorted_texts, sort_texts, sorted_texts, texts};

verus! {

/// The bit patterns of a given length in increasing order of the number
/// they spell, most significant bit first.
#[derive(Debug)]
pub struct BitCombinationsDictOrder {
    len: usize,
    current: usize,
}

/// The bits of `n`, `len` of them, most significant first.
pub open spec fn combination(n: usize, len: nat) -> Seq<u8> {
    Seq::new(len, |k: int| ((n >> ((len - 1 - k) as usize)) & 1usize) as u8)
}

impl BitCombinationsDictOrder {
    /// The length of the patterns.
    pub closed spec fn length(&self) -> nat {
        self.len as nat
    }

    /// The number that the next pattern spells.
    pub closed spec fn position(&self) -> nat {
        self.current as nat
    }

    /// The patterns of `length` bits, starting from all zeros.
    pub fn new(length: usize) -> (r: Self)
        requires
            length <= usize::BITS,
        ensures
            r.length() == length,
            r.position() == 0,
    {
        BitCombinationsDictOrder { len: length, current: 0 }
    }

    /// The next pattern, or `None` once all `2^length` have been given; a
    /// length of `usize::BITS` gives none, as `2^length` does not fit.
    pub fn next_combination(&mut self) -> (r: Option<Vec<u8>>)
        ensures
            final(self).length() == old(self).length(),
            old(self).length() < usize::BITS && old(self).position() < (1usize << old(
                self,
            ).length() as usize) ==> {
                &&& r is Some
                &&& r->0@ == combination(old(self).position() as usize, old(self).length())
                &&& final(self).position() == old(self).position() + 1
            },
            !(old(self).length() < usize::BITS && old(self).position() < (1usize << old(
                self,
            ).length() as usize)) ==> r is None && final(self).position() == old(self).position(),
    {
        if self.len >= usize::BITS as usize {
            return None;
        }
        let total: usize = 1usize << self.len;
        if self.current >= total {
            return None;
        }
        let n = self.current;
        let mut combination_bits: Vec<u8> = Vec::new();
        let mut j: usize = 0;
        while j < self.len
            invariant
                j <= self.len,
                self.len < usize::BITS,
                combination_bits@.len() == j,
                forall|k: int|
                    0 <= k < j ==> #[trigger] combination_bits@[k] == ((n >> ((self.len - 1 - k) as usize))
                        & 1usize) as u8,
            decreases self.len - j,
        {
            let i = self.len - 1 - j;
            let bit = (n >> i) & 1;
            combination_bits.push(bit as u8);
            j = j + 1;
        }
        assert(combination_bits@ =~= combination(n, self.len as nat));
        self.current = self.current + 1;
        Some(combination_bits)
    }
}

/// `[0, 1, ..., n - 1]`.
pub fn indices_arr(n: usize) -> (r: Vec<usize>)
    ensures
        r@.len() == n,
        forall|i: int| 0 <= i < n ==> #[trigger] r@[i] == i,
{
    let mut r: Vec<usize> = Vec::new();
    let mut i: usize = 0;
    while i < n
        invariant
            i <= n,
            r@.len() == i,
            forall|k: int| 0 <= k < i ==> #[trigger] r@[k] == k,
        decreases n - i,
    {
        r.push(i);
        i = i + 1;
    }
    r
}

/// A set of texts, written one per line in their order.
pub struct PrettySet(pub Vec<String>);

/// `{`, a line `t,` for each text, `}`.
pub open spec fn pretty_text(t: Seq<Seq<char>>) -> Seq<char> {
    "{\n"@ + pretty_lines(t, t.len()) + "}"@
}

/// The lines `t,` of the first `k` texts.
pub open spec fn pretty_lines(t: Seq<Seq<char>>, k: nat) -> Seq<char>
    decreases k,
{
    if k == 0 {
        Seq::empty()
    } else {
        pretty_lines(t, (k - 1) as nat) + t[k - 1] + ",\n"@
    }
}

impl PrettySet {
    /// `{`, then one line `text,` per element in the order of the texts, `}`.
    pub fn render(&self) -> (r: String)
        ensures
            r@ == pretty_text(sorted_texts(texts(self.0@))),
    {
        let sorted = sort_texts(&self.0);
        let mut lines = String::new();
        let mut k: usize = 0;
        while k < sorted.len()
            invariant
                k <= sorted@.len(),
                lines@ == pretty_lines(texts(sorted@), k as nat),
            decreases sorted@.len() - k,
        {
            lines.append(sorted[k].as_str());
            lines.append(",\n");
            k = k + 1;
        }
        let mut r = String::from_str("{\n");
        r.append(lines.as_str());
        r.append("}");
        assert(r@ == pretty_text(texts(sorted@)));
        proof {
            lemma_sorted_texts(texts(self.0@), texts(sorted@));
        }
        r
    }
}

} // verus!
