use vstd::prelude::*;

verus! {

/// The Fibonacci AIR over two columns, the current and the next number,
/// for a number of steps and an expected final value.
pub struct FibonacciAir {
    pub num_steps: usize,
    pub final_value: u32,
}

} // verus!
