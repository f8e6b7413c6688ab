use vstd::prelude::*;
use crate::startup::Args;

verus! {

/// The byte that separates whole seconds from their fraction.
pub const DOT: u8 = 0x2e;

/// Number of fraction digits that a duration can carry (nanoseconds).
pub const FRAC_DIGITS: usize = 9;

/// Why a duration operand was refused.
#[derive(Clone, Copy, PartialEq, Eq, Structural, Debug)]
pub enum DurationError {
    /// A byte that is not a decimal digit where one is read.
    Invalid,
    /// The whole seconds do not fit in a `u64`.
    Overflow,
}

/// A sleep duration: whole seconds and nanoseconds.
#[derive(Clone, Copy, PartialEq, Eq, Structural, Debug)]
pub struct Duration {
    pub seconds: u64,
    pub nanos: u32,
}

/// The exit status of `sleep` when its operand is missing, extra or invalid.
pub const USAGE_STATUS: u8 = 1;

/// The exit status of a panic, which is how an operand with too many whole
/// seconds for a `u64` ends `sleep`.
pub const PANIC_STATUS: u8 = 255;

/// What `sleep` does for its arguments.
#[derive(Clone, Copy, PartialEq, Eq, Structural, Debug)]
pub enum SleepPlan {
    /// Sleep for this long, then exit with the status of the sleep.
    Sleep(Duration),
    /// Exit at once with this status.
    Exit(u8),
}

/// What `sleep` does for the outcome `r` of parsing its operand.
pub open spec fn plan_of(r: Result<Duration, DurationError>) -> SleepPlan {
    match r {
        Ok(d) => SleepPlan::Sleep(d),
        Err(DurationError::Invalid) => SleepPlan::Exit(USAGE_STATUS),
        Err(DurationError::Overflow) => SleepPlan::Exit(PANIC_STATUS),
    }
}

/// The `sleep` utility's decision on its arguments: it takes exactly one
/// operand, a duration, and exits with status 1 otherwise.
pub fn plan(args: &Args) -> (res: SleepPlan)
    requires
        args.0.wf(),
        args.0.argc() == 2 ==> args.0.arg_valid(1),
    ensures
        args.0.argc() != 2 ==> res == SleepPlan::Exit(USAGE_STATUS),
        args.0.argc() == 2 ==> res == plan_of(duration_of(args.0.arg_strings()[1])),
{
    let argv = args.argv();
    if argv.len() != 2 {
        return SleepPlan::Exit(USAGE_STATUS);
    }
    let operand = argv[1];
    assert(operand.contents() == args.0.arg_strings()[1]);
    let bytes = operand.bytes();
    match parse_duration(bytes.as_slice()) {
        Ok(d) => SleepPlan::Sleep(d),
        Err(DurationError::Invalid) => SleepPlan::Exit(USAGE_STATUS),
        Err(DurationError::Overflow) => SleepPlan::Exit(PANIC_STATUS),
    }
}

pub open spec fn is_digit(b: u8) -> bool {
    0x30 <= b <= 0x39
}

/// The value of the decimal digits `s`.
pub open spec fn decimal(s: Seq<u8>) -> nat
    decreases s.len(),
{
    if s.len() == 0 {
        0
    } else {
        10 * decimal(s.drop_last()) + (s.last() - 0x30) as nat
    }
}

pub open spec fn pow10(n: nat) -> nat
    decreases n,
{
    if n == 0 {
        1
    } else {
        10 * pow10((n - 1) as nat)
    }
}

/// Reading the digits `s` from left to right into a `u64`, stopping at the
/// first byte that is not a digit or at the first digit that overflows.
pub open spec fn scan_seconds(s: Seq<u8>) -> Result<u64, DurationError>
    decreases s.len(),
{
    if s.len() == 0 {
        Ok(0)
    } else {
        match scan_seconds(s.drop_last()) {
            Err(e) => Err(e),
            Ok(v) => if !is_digit(s.last()) {
                Err(DurationError::Invalid)
            } else if 10 * v + (s.last() - 0x30) > u64::MAX {
                Err(DurationError::Overflow)
            } else {
                Ok((10 * v + (s.last() - 0x30)) as u64)
            },
        }
    }
}

/// Index of the first dot in `s` at or after `i`, or the length of `s`.
pub open spec fn dot_from(s: Seq<u8>, i: int) -> int
    decreases s.len() - i,
{
    if i < 0 || i >= s.len() {
        s.len() as int
    } else if s[i] == DOT {
        i
    } else {
        dot_from(s, i + 1)
    }
}

/// The whole-seconds part of `s`: the bytes before the first dot.
pub open spec fn whole_part(s: Seq<u8>) -> Seq<u8> {
    s.subrange(0, dot_from(s, 0))
}

/// The fraction digits that count: at most nine bytes after the first dot.
pub open spec fn frac_part(s: Seq<u8>) -> Seq<u8> {
    let d = dot_from(s, 0);
    if d >= s.len() {
        Seq::empty()
    } else {
        let rest = s.subrange(d + 1, s.len() as int);
        if rest.len() <= 9 {
            rest
        } else {
            rest.subrange(0, 9)
        }
    }
}

/// The duration that the operand `s` (`SECONDS[.FRACTION]`) denotes, or why it
/// is refused. Bytes after the ninth fraction digit are not looked at.
pub open spec fn duration_of(s: Seq<u8>) -> Result<Duration, DurationError> {
    match scan_seconds(whole_part(s)) {
        Err(e) => Err(e),
        Ok(secs) => {
            let f = frac_part(s);
            if exists|k: int| 0 <= k < f.len() && !is_digit(#[trigger] f[k]) {
                Err(DurationError::Invalid)
            } else {
                Ok(Duration { seconds: secs, nanos: (decimal(f) * pow10((9 - f.len()) as nat)) as u32 })
            }
        },
    }
}

proof fn lemma_decimal_bound(s: Seq<u8>)
    requires
        forall|k: int| 0 <= k < s.len() ==> is_digit(#[trigger] s[k]),
    ensures
        decimal(s) < pow10(s.len()),
    decreases s.len(),
{
    if s.len() > 0 {
        lemma_decimal_bound(s.drop_last());
        assert(is_digit(s[s.len() - 1]));
    }
}

proof fn lemma_pow10_add(a: nat, b: nat)
    ensures
        pow10(a + b) == pow10(a) * pow10(b),
    decreases a,
{
    if a > 0 {
        let x = pow10((a - 1) as nat);
        let y = pow10(b);
        lemma_pow10_add((a - 1) as nat, b);
        assert(((a - 1) as nat + b) as nat == (a + b - 1) as nat);
        assert(pow10(a + b) == 10 * pow10((a + b - 1) as nat));
        assert(pow10(a) == 10 * x);
        assert((10 * x) * y == 10 * (x * y)) by (nonlinear_arith);
    } else {
        assert(pow10(0) == 1);
        assert(a + b == b);
    }
}

/// Parses a sleep operand `SECONDS[.FRACTION]` as the `sleep` utility does:
/// the bytes up to the first dot must all be digits and give the whole
/// seconds; of the bytes after the dot, the first nine must be digits and give
/// the fraction, scaled to nanoseconds; further bytes are ignored. An empty
/// seconds part counts as zero seconds.
pub fn parse_duration(s: &[u8]) -> (res: Result<Duration, DurationError>)
    ensures
        res == duration_of(s@),
{
    let ghost w = whole_part(s@);
    // Whole seconds: digits up to the first dot.
    let mut i: usize = 0;
    let mut seconds: u64 = 0;
    while i < s.len() && s[i] != DOT
        invariant
            i <= s@.len(),
            dot_from(s@, 0) == dot_from(s@, i as int),
            w == whole_part(s@),
            scan_seconds(s@.subrange(0, i as int)) == Ok::<u64, DurationError>(seconds),
        decreases s@.len() - i,
    {
        let b = s[i];
        let ghost pre = s@.subrange(0, i as int);
        proof {
            assert(s@.subrange(0, i + 1).drop_last() =~= pre);
            assert(s@.subrange(0, i + 1).last() == b);
            lemma_dot_from(s@, i as int + 1);
            assert(dot_from(s@, i as int) == dot_from(s@, i as int + 1));
        }
        if b < 0x30 || b > 0x39 {
            proof {
                assert(scan_seconds(s@.subrange(0, i + 1)) == Err::<u64, DurationError>(DurationError::Invalid));
                lemma_scan_prefix_err(s@, i as int + 1, dot_from(s@, 0));
            }
            return Err(DurationError::Invalid);
        }
        let d = (b - 0x30) as u64;
        match seconds.checked_mul(10) {
            None => {
                proof {
                    assert(scan_seconds(s@.subrange(0, i + 1)) == Err::<u64, DurationError>(DurationError::Overflow));
                    lemma_scan_prefix_err(s@, i as int + 1, dot_from(s@, 0));
                }
                return Err(DurationError::Overflow);
            },
            Some(t) => match t.checked_add(d) {
                None => {
                    proof {
                        assert(scan_seconds(s@.subrange(0, i + 1)) == Err::<u64, DurationError>(DurationError::Overflow));
                        lemma_scan_prefix_err(s@, i as int + 1, dot_from(s@, 0));
                    }
                    return Err(DurationError::Overflow);
                },
                Some(v) => {
                    seconds = v;
                },
            },
        }
        i = i + 1;
    }
    proof {
        lemma_dot_from(s@, i as int);
    }
    assert(dot_from(s@, 0) == i as int);
    assert(w =~= s@.subrange(0, i as int));
    // Fraction: at most nine digits after the dot.
    let ghost f = frac_part(s@);
    let mut j: usize = if i < s.len() { i + 1 } else { i };
    let start = j;
    let mut nanos: u32 = 0;
    let mut frac_digits: usize = FRAC_DIGITS;
    assert(f =~= s@.subrange(start as int, start + f.len()));
    while j < s.len() && frac_digits > 0
        invariant
            start <= j <= s@.len(),
            frac_digits == 9 - (j - start),
            j - start <= f.len(),
            f == s@.subrange(start as int, start + f.len()),
            f == frac_part(s@),
            scan_seconds(whole_part(s@)) == Ok::<u64, DurationError>(seconds),
            f.len() == if s@.len() - start <= 9 { s@.len() - start } else { 9 },
            forall|k: int| start <= k < j ==> is_digit(#[trigger] s@[k]),
            nanos as nat == decimal(s@.subrange(start as int, j as int)),
            nanos < pow10((j - start) as nat),
        decreases frac_digits,
    {
        let b = s[j];
        frac_digits = frac_digits - 1;
        assert(f[j - start] == s@[j as int]);
        if b < 0x30 || b > 0x39 {
            assert(!is_digit(f[j - start]));
            return Err(DurationError::Invalid);
        }
        proof {
            let a = (j - start) as nat;
            assert(s@.subrange(start as int, j + 1).drop_last() =~= s@.subrange(start as int, j as int));
            assert(s@.subrange(start as int, j + 1).last() == b);
            assert(pow10(a + 1) == 10 * pow10(a));
            lemma_pow10_add(a, (8 - a) as nat);
            lemma_pow10_pos((8 - a) as nat);
            lemma_pow10_nine();
            assert(pow10(a) <= pow10(8)) by (nonlinear_arith)
                requires pow10(8) == pow10(a) * pow10((8 - a) as nat), pow10((8 - a) as nat) > 0;
        }
        nanos = nanos * 10 + (b - 0x30) as u32;
        j = j + 1;
    }
    assert(j - start == f.len());
    assert(s@.subrange(start as int, j as int) =~= f);
    assert forall|k: int| 0 <= k < f.len() implies is_digit(#[trigger] f[k]) by {
        assert(f[k] == s@[start + k]);
    }
    let ghost k0 = f.len();
    proof {
        lemma_decimal_bound(f);
        assert(pow10(0) == 1);
        assert((9 - k0 - frac_digits) as nat == 0);
        assert(decimal(f) * pow10(0) == decimal(f));
    }
    while nanos != 0 && frac_digits != 0
        invariant
            frac_digits <= 9 - k0,
            nanos as nat == decimal(f) * pow10((9 - k0 - frac_digits) as nat),
            decimal(f) < pow10(k0),
            k0 <= 9,
            k0 == f.len(),
            f == frac_part(s@),
            scan_seconds(whole_part(s@)) == Ok::<u64, DurationError>(seconds),
            forall|k: int| 0 <= k < f.len() ==> is_digit(#[trigger] f[k]),
        decreases frac_digits,
    {
        proof {
            let e = (9 - k0 - frac_digits) as nat;
            let r = (frac_digits - 1) as nat;
            lemma_pow10_add(k0, e + 1);
            lemma_pow10_add(k0 + e + 1, r);
            lemma_pow10_pos(r);
            lemma_pow10_pos(e + 1);
            lemma_pow10_nine();
            assert(k0 + e + 1 + r == 9);
            assert(pow10(e + 1) == 10 * pow10(e));
            assert(decimal(f) * pow10(e + 1) < pow10(k0) * pow10(e + 1)) by (nonlinear_arith)
                requires decimal(f) < pow10(k0), pow10(e + 1) > 0;
            assert(pow10(k0 + e + 1) <= pow10(9)) by (nonlinear_arith)
                requires pow10(9) == pow10(k0 + e + 1) * pow10(r), pow10(r) > 0;
            assert(decimal(f) * pow10(e + 1) == 10 * (decimal(f) * pow10(e))) by (nonlinear_arith)
                requires pow10(e + 1) == 10 * pow10(e);
        }
        nanos = nanos * 10;
        frac_digits = frac_digits - 1;
    }
    proof {
        if nanos == 0 {
            assert(decimal(f) * pow10((9 - k0 - frac_digits) as nat) == 0);
            lemma_pow10_pos((9 - k0 - frac_digits) as nat);
            assert(decimal(f) == 0) by (nonlinear_arith)
                requires decimal(f) * pow10((9 - k0 - frac_digits) as nat) == 0,
                    pow10((9 - k0 - frac_digits) as nat) > 0;
            assert(decimal(f) * pow10((9 - k0) as nat) == 0);
        }
        assert(!(exists|k: int| 0 <= k < f.len() && !is_digit(#[trigger] f[k])));
    }
    Ok(Duration { seconds, nanos })
}

proof fn lemma_dot_from(s: Seq<u8>, i: int)
    requires
        0 <= i <= s.len(),
    ensures
        i <= dot_from(s, i) <= s.len(),
        dot_from(s, i) < s.len() ==> s[dot_from(s, i)] == DOT,
    decreases s.len() - i,
{
    if i < s.len() && s[i] != DOT {
        lemma_dot_from(s, i + 1);
    }
}

proof fn lemma_pow10_nine()
    ensures
        pow10(8) == 100000000,
        pow10(9) == 1000000000,
{
    reveal_with_fuel(pow10, 10);
}

proof fn lemma_pow10_pos(n: nat)
    ensures
        pow10(n) > 0,
    decreases n,
{
    if n > 0 {
        lemma_pow10_pos((n - 1) as nat);
    }
}

/// A failure while scanning a prefix of the whole-seconds part is the result
/// of scanning the whole of it.
proof fn lemma_scan_prefix_err(s: Seq<u8>, n: int, d: int)
    requires
        0 < n <= d <= s.len(),
        scan_seconds(s.subrange(0, n)) is Err,
    ensures
        scan_seconds(s.subrange(0, d)) == scan_seconds(s.subrange(0, n)),
    decreases d - n,
{
    if n < d {
        lemma_scan_prefix_err(s, n, d - 1);
        assert(s.subrange(0, d).drop_last() =~= s.subrange(0, d - 1));
    }
}

} // verus!

verus! {

/// A parsed duration never holds a whole second or more in its nanoseconds.
pub proof fn lemma_nanos_below_second(s: Seq<u8>)
    ensures
        duration_of(s) matches Ok(d) ==> d.nanos < 1_000_000_000,
{
    let f = frac_part(s);
    if duration_of(s) is Ok {
        assert(forall|k: int| 0 <= k < f.len() ==> is_digit(#[trigger] f[k]));
        lemma_decimal_bound(f);
        let e = (9 - f.len()) as nat;
        lemma_pow10_add(f.len(), e);
        lemma_pow10_nine();
        lemma_pow10_pos(e);
        assert(decimal(f) * pow10(e) < pow10(f.len()) * pow10(e)) by (nonlinear_arith)
            requires decimal(f) < pow10(f.len()), pow10(e) > 0;
    }
}

} // verus!
