use latticevm::interval::AbstractInterval;

struct SimpleRng {
    state: u64,
}

impl SimpleRng {
    fn new(seed: u64) -> Self {
        Self { state: seed }
    }

    fn next_u64(&mut self) -> u64 {
        let mut x = self.state;
        x ^= x << 13;
        x ^= x >> 7;
        x ^= x << 17;
        self.state = x;
        x
    }

    fn range(&mut self, min: i64, max: i64) -> i64 {
        let width = (max - min + 1) as u64;
        (min as u64 + (self.next_u64() % width)) as i64
    }

    fn gen_positive_interval(&mut self, max_val: i64, max_width: i64) -> AbstractInterval {
        let lo = self.range(0, max_val);
        let width = self.range(0, max_width);
        AbstractInterval { lo: lo as i128, hi: (lo + width) as i128 }
    }
}

fn verify_binary_op<FAbs, FConc>(op_name: &str, a: AbstractInterval, b: AbstractInterval, op_abs: FAbs, op_conc: FConc)
where
    FAbs: Fn(AbstractInterval, AbstractInterval) -> AbstractInterval,
    FConc: Fn(i128, i128) -> i128,
{
    let res = op_abs(a, b);
    for x in a.lo..=a.hi {
        for y in b.lo..=b.hi {
            let c = op_conc(x, y);
            assert!(
                c >= res.lo && c <= res.hi,
                "{}: {:?} and {:?} at {} and {} give {}, outside {:?}",
                op_name, a, b, x, y, c, res
            );
        }
    }
}

fn verify_unary_op<FAbs, FConc>(op_name: &str, a: AbstractInterval, op_abs: FAbs, op_conc: FConc)
where
    FAbs: Fn(AbstractInterval) -> AbstractInterval,
    FConc: Fn(i128) -> i128,
{
    let res = op_abs(a);
    for x in a.lo..=a.hi {
        let c = op_conc(x);
        assert!(c >= res.lo && c <= res.hi, "{}: {:?} at {} gives {}, outside {:?}", op_name, a, x, c, res);
    }
}

#[test]
fn test_bitwise_and_soundness() {
    let mut rng = SimpleRng::new(12345);
    for _ in 0..100 {
        let a = rng.gen_positive_interval(1000, 50);
        let b = rng.gen_positive_interval(1000, 50);
        verify_binary_op("BitAnd", a, b, |x, y| x & y, |x, y| x & y);
    }
    let zero = AbstractInterval { lo: 0, hi: 0 };
    let any = AbstractInterval { lo: 0, hi: 100 };
    verify_binary_op("BitAnd Zero", zero, any, |x, y| x & y, |x, y| x & y);
}

#[test]
fn test_bitwise_or_soundness() {
    let mut rng = SimpleRng::new(67890);
    for _ in 0..100 {
        let a = rng.gen_positive_interval(2000, 60);
        let b = rng.gen_positive_interval(2000, 60);
        verify_binary_op("BitOr", a, b, |x, y| x | y, |x, y| x | y);
    }
}

#[test]
fn test_bitwise_xor_soundness() {
    let mut rng = SimpleRng::new(112233);
    for _ in 0..100 {
        let a = rng.gen_positive_interval(500, 100);
        let b = rng.gen_positive_interval(500, 100);
        verify_binary_op("BitXor", a, b, |x, y| x ^ y, |x, y| x ^ y);
    }
}

#[test]
fn test_not_soundness() {
    let mut rng = SimpleRng::new(445566);
    for _ in 0..100 {
        let a = rng.gen_positive_interval(1000, 100);
        verify_unary_op("Not", a, |x| !x, |x| !x);
    }
}

#[test]
fn test_specific_edge_cases() {
    let a = AbstractInterval::from_i64(2);
    let b = AbstractInterval::from_i64(3);
    assert_eq!((a & b).lo, 2);
    assert_eq!((a & b).hi, 2);

    let c = AbstractInterval { lo: 4, hi: 7 };
    let d = AbstractInterval { lo: 4, hi: 5 };
    let res = c & d;
    assert!(res.lo <= 4);
    assert!(res.hi >= 5);

    let e = AbstractInterval { lo: 0, hi: 1 };
    let f = AbstractInterval { lo: 16, hi: 17 };
    let or_res = e | f;
    assert_eq!(or_res.lo, 16);
    assert_eq!(or_res.hi, 17);
}
