use vstd::prelude::*;

use crate::interval::{AbstractInterval, MayBeFlag};
use crate::render::{interval_string, interval_text};
use crate::text::{lemma_sorted_texts, sort_texts, sorted_texts, texts};

verus! {

/// Whether a memory access reads or writes.
#[derive(Clone, Copy, PartialEq, Eq, Debug, Hash, Structural)]
pub enum MemoryOpKind {
    Read,
    Write,
}

/// One memory access: its kind, the interval of its address and that of
/// its value.
#[derive(Clone, Copy, PartialEq, Eq, Debug, Hash, Structural)]
pub struct MemoryOp {
    pub kind: MemoryOpKind,
    pub addr: AbstractInterval,
    pub value: AbstractInterval,
}

/// An abstract machine state: the clock, the program counter, the memory
/// accesses made so far and whether the machine has halted.
#[derive(Clone, PartialEq, Eq, Debug)]
pub struct AbstractState {
    pub clk: AbstractInterval,
    pub pc: AbstractInterval,
    pub memory_ops: Vec<MemoryOp>,
    pub is_done: MayBeFlag,
}

/// `Read` or `Write`.
pub open spec fn kind_text(k: MemoryOpKind) -> Seq<char> {
    match k {
        MemoryOpKind::Read => "Read"@,
        MemoryOpKind::Write => "Write"@,
    }
}

/// `(kind: addr: a, value: v)`.
pub open spec fn op_text(op: MemoryOp) -> Seq<char> {
    "("@ + kind_text(op.kind) + ": addr: "@ + interval_text(op.addr) + ", value: "@ + interval_text(
        op.value,
    ) + ")"@
}

/// The name of a flag's variant.
pub open spec fn flag_text(f: MayBeFlag) -> Seq<char> {
    match f {
        MayBeFlag::True => "True"@,
        MayBeFlag::False => "False"@,
        MayBeFlag::MayBe => "MayBe"@,
    }
}

/// The texts of the first `k` items joined by `sep`.
pub open spec fn join_texts(t: Seq<Seq<char>>, sep: Seq<char>, k: nat) -> Seq<char>
    decreases k,
{
    if k == 0 {
        Seq::empty()
    } else if k == 1 {
        t[0]
    } else {
        join_texts(t, sep, (k - 1) as nat) + sep + t[k - 1]
    }
}

/// The texts of a sequence of memory accesses.
pub open spec fn op_texts(ops: Seq<MemoryOp>) -> Seq<Seq<char>> {
    ops.map_values(|op: MemoryOp| op_text(op))
}

/// The text of a state whose memory accesses are written, in this order,
/// as `mem`: `(clk: c, pc: p, is_done: f, memory: [m1,m2,...])`.
pub open spec fn state_text(s: AbstractState, mem: Seq<Seq<char>>) -> Seq<char> {
    "(clk: "@ + interval_text(s.clk) + ", pc: "@ + interval_text(s.pc) + ", is_done: "@ + flag_text(
        s.is_done,
    ) + ", memory: ["@ + join_texts(mem, ","@, mem.len()) + "])"@
}

/// The texts of `v` joined by `sep`.
pub fn join_strings(v: &Vec<String>, sep: &str) -> (r: String)
    ensures
        r@ == join_texts(texts(v@), sep@, v@.len()),
{
    let mut r = String::new();
    let mut k: usize = 0;
    while k < v.len()
        invariant
            k <= v@.len(),
            r@ == join_texts(texts(v@), sep@, k as nat),
        decreases v@.len() - k,
    {
        if k == 0 {
            r = v[0].clone();
        } else {
            r.append(sep);
            r.append(v[k].as_str());
        }
        k = k + 1;
    }
    r
}

impl MemoryOpKind {
    /// `Read` or `Write`.
    pub fn render(&self) -> (r: String)
        ensures
            r@ == kind_text(*self),
    {
        match self {
            MemoryOpKind::Read => String::from_str("Read"),
            MemoryOpKind::Write => String::from_str("Write"),
        }
    }
}

impl MemoryOp {
    /// `(kind: addr: a, value: v)`.
    pub fn render(&self) -> (r: String)
        ensures
            r@ == op_text(*self),
    {
        let mut r = String::from_str("(");
        let k = self.kind.render();
        r.append(k.as_str());
        r.append(": addr: ");
        let a = interval_string(&self.addr);
        r.append(a.as_str());
        r.append(", value: ");
        let v = interval_string(&self.value);
        r.append(v.as_str());
        r.append(")");
        r
    }
}

fn flag_string(f: MayBeFlag) -> (r: String)
    ensures
        r@ == flag_text(f),
{
    match f {
        MayBeFlag::True => String::from_str("True"),
        MayBeFlag::False => String::from_str("False"),
        MayBeFlag::MayBe => String::from_str("MayBe"),
    }
}

impl AbstractState {
    /// The text of the state, its memory accesses in the order of their
    /// texts (`text_lt`).
    pub fn render(&self) -> (r: String)
        ensures
            r@ == state_text(*self, sorted_texts(op_texts(self.memory_ops@))),
    {
        let mut ops: Vec<String> = Vec::new();
        let mut k: usize = 0;
        while k < self.memory_ops.len()
            invariant
                k <= self.memory_ops@.len(),
                ops@.len() == k,
                texts(ops@) == op_texts(self.memory_ops@.take(k as int)),
            decreases self.memory_ops@.len() - k,
        {
            let t = self.memory_ops[k].render();
            let ghost old_ops = ops@;
            ops.push(t);
            proof {
                assert forall|i: int| 0 <= i < k + 1 implies texts(ops@)[i] == op_texts(
                    self.memory_ops@.take(k + 1),
                )[i] by {
                    if i < k {
                        assert(texts(old_ops)[i] == op_texts(self.memory_ops@.take(k as int))[i]);
                        assert(ops@[i] == old_ops[i]);
                    } else {
                        assert(ops@[i] == t);
                    }
                }
            }
            k = k + 1;
            assert(texts(ops@) =~= op_texts(self.memory_ops@.take(k as int)));
        }
        assert(self.memory_ops@.take(k as int) =~= self.memory_ops@);
        let sorted = sort_texts(&ops);
        let mut r = String::from_str("(clk: ");
        let c = interval_string(&self.clk);
        r.append(c.as_str());
        r.append(", pc: ");
        let p = interval_string(&self.pc);
        r.append(p.as_str());
        r.append(", is_done: ");
        let f = flag_string(self.is_done);
        r.append(f.as_str());
        r.append(", memory: [");
        let m = join_strings(&sorted, ",");
        r.append(m.as_str());
        r.append("])");
        assert(texts(sorted@).len() == sorted@.len());
        assert(r@ == state_text(*self, texts(sorted@)));
        proof {
            lemma_sorted_texts(op_texts(self.memory_ops@), texts(sorted@));
        }
        r
    }
}

} // verus!
