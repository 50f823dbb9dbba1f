//! Exact decimal numbers as written in policy conditions: an optional sign,
//! digits with an optional fraction, and an optional exponent.
use vstd::prelude::*;
use crate::text::chars_of;

verus! {

/// A decimal number (-1)^negative × 0.d₁d₂…dₙ × 10^point, with no leading or
/// trailing zero digit; no digits at all means zero.
pub struct Decimal {
    pub negative: bool,
    pub digits: Vec<u8>,
    pub point: i64,
}

/// Mathematical content of a `Decimal`.
pub struct DecimalSpec {
    pub negative: bool,
    pub digits: Seq<u8>,
    pub point: int,
}

impl View for Decimal {
    type V = DecimalSpec;

    open spec fn view(&self) -> DecimalSpec {
        DecimalSpec { negative: self.negative, digits: self.digits@, point: self.point as int }
    }
}

pub open spec fn is_digit(c: char) -> bool {
    '0' <= c && c <= '9'
}

pub open spec fn digit_value(c: char) -> u8 {
    ((c as int) - ('0' as int)) as u8
}

/// End of the run of digits in `s` that starts at `i`.
pub open spec fn digit_run_end(s: Seq<char>, i: int) -> int
    decreases s.len() - i,
{
    if i < 0 || i >= s.len() || !is_digit(s[i]) {
        i
    } else {
        digit_run_end(s, i + 1)
    }
}

/// The number written by the digit characters `s[lo..hi]`.
pub open spec fn number_of(s: Seq<char>, lo: int, hi: int) -> int
    decreases hi - lo,
{
    if hi <= lo {
        0
    } else {
        number_of(s, lo, hi - 1) * 10 + digit_value(s[hi - 1]) as int
    }
}

/// The digit values of `s[lo..hi]`.
pub open spec fn digits_of(s: Seq<char>, lo: int, hi: int) -> Seq<u8> {
    s.subrange(lo, hi).map_values(|c: char| digit_value(c))
}

/// Most exponent digits accepted.
pub open spec fn max_exponent_digits() -> int {
    15
}

/// Most digits accepted in a mantissa.
pub open spec fn max_integer_digits() -> int {
    4000000000000000000
}

/// The exponent written by `s[i..]` (`e` or `E`, optional sign, digits, end of text).
pub open spec fn exponent_part(s: Seq<char>, i: int) -> Option<int> {
    if i < s.len() && (s[i] == 'e' || s[i] == 'E') {
        let i4 = i + 1;
        let eneg = i4 < s.len() && s[i4] == '-';
        let i5: int = if i4 < s.len() && (s[i4] == '+' || s[i4] == '-') { i4 + 1 } else { i4 };
        let i6 = digit_run_end(s, i5);
        if i6 == i5 || i6 != s.len() || i6 - i5 > max_exponent_digits() {
            None
        } else {
            Some(if eneg { -number_of(s, i5, i6) } else { number_of(s, i5, i6) })
        }
    } else {
        None
    }
}

/// The unnormalised reading of `s`: sign, all mantissa digits, and the
/// position of the decimal point among them (exponent applied).
pub open spec fn raw_decimal(s: Seq<char>) -> Option<DecimalSpec> {
    let i0: int = if s.len() > 0 && (s[0] == '+' || s[0] == '-') { 1 } else { 0 };
    let neg = s.len() > 0 && s[0] == '-';
    let i1 = digit_run_end(s, i0);
    let has_dot = i1 < s.len() && s[i1] == '.';
    let i2: int = if has_dot { i1 + 1 } else { i1 };
    let i3 = if has_dot { digit_run_end(s, i2) } else { i1 };
    let mantissa = digits_of(s, i0, i1) + digits_of(s, i2, i3);
    if (i1 - i0) + (i3 - i2) == 0 || (i1 - i0) + (i3 - i2) > max_integer_digits() {
        None
    } else if i3 == s.len() {
        Some(DecimalSpec { negative: neg, digits: mantissa, point: i1 - i0 })
    } else {
        match exponent_part(s, i3) {
            Some(e) => Some(DecimalSpec { negative: neg, digits: mantissa, point: (i1 - i0) + e }),
            None => None,
        }
    }
}

/// Number of leading zero digits.
pub open spec fn leading_zeros(d: Seq<u8>) -> nat
    decreases d.len(),
{
    if d.len() == 0 || d[0] != 0 {
        0
    } else {
        1 + leading_zeros(d.drop_first())
    }
}

/// Number of trailing zero digits.
pub open spec fn trailing_zeros(d: Seq<u8>) -> nat
    decreases d.len(),
{
    if d.len() == 0 || d.last() != 0 {
        0
    } else {
        1 + trailing_zeros(d.drop_last())
    }
}

/// Normal form: leading zeros moved into the point, trailing zeros dropped.
pub open spec fn normalize(x: DecimalSpec) -> DecimalSpec {
    let z = leading_zeros(x.digits);
    let d = x.digits.skip(z as int);
    let t = trailing_zeros(d);
    if d.len() == 0 {
        DecimalSpec { negative: x.negative, digits: Seq::empty(), point: 0 }
    } else {
        DecimalSpec { negative: x.negative, digits: d.take(d.len() - t), point: x.point - z }
    }
}

/// The decimal number written by `s`, if `s` is one.
pub open spec fn parse_decimal_spec(s: Seq<char>) -> Option<DecimalSpec> {
    match raw_decimal(s) {
        Some(x) => Some(normalize(x)),
        None => None,
    }
}

/// Lexicographic comparison of digit sequences: -1, 0 or 1.
pub open spec fn lex_order(a: Seq<u8>, b: Seq<u8>) -> int
    decreases a.len(),
{
    if a.len() == 0 && b.len() == 0 {
        0
    } else if a.len() == 0 {
        -1
    } else if b.len() == 0 {
        1
    } else if a[0] < b[0] {
        -1
    } else if a[0] > b[0] {
        1
    } else {
        lex_order(a.drop_first(), b.drop_first())
    }
}

/// Comparison of the magnitudes of two non-zero normal forms.
pub open spec fn magnitude_order(x: DecimalSpec, y: DecimalSpec) -> int {
    if x.point > y.point {
        1
    } else if x.point < y.point {
        -1
    } else {
        lex_order(x.digits, y.digits)
    }
}

/// Comparison of two normal forms by value: -1, 0 or 1.
pub open spec fn decimal_order(x: DecimalSpec, y: DecimalSpec) -> int {
    let xz = x.digits.len() == 0;
    let yz = y.digits.len() == 0;
    if xz && yz {
        0
    } else if xz {
        if y.negative { 1 } else { -1 }
    } else if yz {
        if x.negative { -1 } else { 1 }
    } else if x.negative != y.negative {
        if x.negative { -1 } else { 1 }
    } else if x.negative {
        -magnitude_order(x, y)
    } else {
        magnitude_order(x, y)
    }
}

fn run_end(s: &Vec<char>, i: usize) -> (r: usize)
    requires
        i <= s.len(),
    ensures
        r == digit_run_end(s@, i as int),
        i <= r <= s.len(),
{
    let mut j: usize = i;
    while j < s.len() && '0' <= s[j] && s[j] <= '9'
        invariant
            i <= j <= s.len(),
            digit_run_end(s@, i as int) == digit_run_end(s@, j as int),
        decreases s.len() - j,
    {
        j = j + 1;
    }
    j
}

fn push_digits(out: &mut Vec<u8>, s: &Vec<char>, lo: usize, hi: usize)
    requires
        lo <= hi <= s.len(),
        forall|k: int| lo <= k < hi ==> is_digit(s@[k]),
    ensures
        final(out)@ == old(out)@ + digits_of(s@, lo as int, hi as int),
{
    let mut k: usize = lo;
    while k < hi
        invariant
            lo <= k <= hi,
            hi <= s.len(),
            forall|m: int| lo <= m < hi ==> is_digit(s@[m]),
            out@ == old(out)@ + digits_of(s@, lo as int, k as int),
        decreases hi - k,
    {
        let c = s[k];
        let d: u8 = (c as u32 - '0' as u32) as u8;
        out.push(d);
        proof {
            assert(digits_of(s@, lo as int, k + 1) =~= digits_of(s@, lo as int, k as int).push(digit_value(c)));
        }
        k = k + 1;
    }
}

proof fn lemma_run_digits(s: Seq<char>, i: int)
    requires
        0 <= i <= s.len(),
    ensures
        i <= digit_run_end(s, i) <= s.len(),
        forall|k: int| i <= k < digit_run_end(s, i) ==> is_digit(s[k]),
        digit_run_end(s, i) < s.len() ==> !is_digit(s[digit_run_end(s, i)]),
    decreases s.len() - i,
{
    if i < s.len() && is_digit(s[i]) {
        lemma_run_digits(s, i + 1);
    }
}

proof fn lemma_number_bound(s: Seq<char>, lo: int, hi: int)
    requires
        0 <= lo <= hi <= s.len(),
        forall|k: int| lo <= k < hi ==> is_digit(s[k]),
    ensures
        0 <= number_of(s, lo, hi) < pow10(hi - lo),
    decreases hi - lo,
{
    if hi > lo {
        lemma_number_bound(s, lo, hi - 1);
        let n = number_of(s, lo, hi - 1);
        let p = pow10(hi - 1 - lo);
        assert(0 <= digit_value(s[hi - 1]) <= 9);
        assert(n * 10 + 9 < p * 10) by (nonlinear_arith)
            requires
                0 <= n < p,
        ;
        assert(n * 10 >= 0) by (nonlinear_arith)
            requires
                0 <= n,
        ;
    }
}

/// 10 to the power `n`.
pub open spec fn pow10(n: int) -> int
    decreases n,
{
    if n <= 0 {
        1
    } else {
        10 * pow10(n - 1)
    }
}

fn parse_exponent(s: &Vec<char>, lo: usize, hi: usize) -> (r: i64)
    requires
        lo <= hi <= s.len(),
        hi - lo <= max_exponent_digits(),
        forall|k: int| lo <= k < hi ==> is_digit(s@[k]),
    ensures
        r == number_of(s@, lo as int, hi as int),
{
    let mut v: i64 = 0;
    let mut k: usize = lo;
    while k < hi
        invariant
            lo <= k <= hi,
            hi <= s.len(),
            hi - lo <= max_exponent_digits(),
            forall|m: int| lo <= m < hi ==> is_digit(s@[m]),
            v == number_of(s@, lo as int, k as int),
        decreases hi - k,
    {
        proof {
            lemma_number_bound(s@, lo as int, k as int);
            lemma_pow10_mono(k - lo, 15);
            assert(pow10(15) == 1000000000000000) by {
                reveal_with_fuel(pow10, 16);
            }
        }
        let d: i64 = (s[k] as u32 - '0' as u32) as i64;
        v = v * 10 + d;
        k = k + 1;
    }
    v
}

proof fn lemma_pow10_mono(a: int, b: int)
    requires
        0 <= a <= b,
    ensures
        1 <= pow10(a) <= pow10(b),
    decreases b,
{
    if b > 0 {
        if a == b {
            lemma_pow10_mono(a - 1, b - 1);
        } else {
            lemma_pow10_mono(a, b - 1);
        }
    }
}

fn parse_exponent_part(s: &Vec<char>, i: usize) -> (r: Option<i64>)
    requires
        i <= s.len(),
    ensures
        r matches Some(e) ==> exponent_part(s@, i as int) == Some(e as int),
        r is None ==> exponent_part(s@, i as int) is None,
        r matches Some(e) ==> -1000000000000000 < e < 1000000000000000,
{
    let n = s.len();
    if !(i < n && (s[i] == 'e' || s[i] == 'E')) {
        return None;
    }
    let i4 = i + 1;
    let eneg = i4 < n && s[i4] == '-';
    let i5: usize = if i4 < n && (s[i4] == '+' || s[i4] == '-') { i4 + 1 } else { i4 };
    let i6 = run_end(s, i5);
    proof {
        lemma_run_digits(s@, i5 as int);
    }
    if i6 == i5 || i6 != n || i6 - i5 > 15 {
        return None;
    }
    let e = parse_exponent(s, i5, i6);
    proof {
        lemma_number_bound(s@, i5 as int, i6 as int);
        lemma_pow10_mono(i6 - i5, 15);
        assert(pow10(15) == 1000000000000000) by {
            reveal_with_fuel(pow10, 16);
        }
    }
    if eneg {
        Some(-e)
    } else {
        Some(e)
    }
}

fn raw_parse(s: &Vec<char>) -> (r: Option<Decimal>)
    ensures
        r matches Some(d) ==> raw_decimal(s@) == Some(d@) && d.digits@.len() <= max_integer_digits()
            && -1000000000000000 < d.point <= max_integer_digits() + 1000000000000000,
        r is None ==> raw_decimal(s@) is None,
{
    let n = s.len();
    let i0: usize = if n > 0 && (s[0] == '+' || s[0] == '-') { 1 } else { 0 };
    let neg = n > 0 && s[0] == '-';
    let i1 = run_end(s, i0);
    let has_dot = i1 < n && s[i1] == '.';
    let i2: usize = if has_dot { i1 + 1 } else { i1 };
    let i3 = if has_dot { run_end(s, i2) } else { i1 };
    proof {
        lemma_run_digits(s@, i0 as int);
        if has_dot {
            lemma_run_digits(s@, i2 as int);
        }
    }
    if (i1 - i0) + (i3 - i2) == 0 || ((i1 - i0) + (i3 - i2)) as u64 > 4000000000000000000u64 {
        return None;
    }
    let mut mantissa: Vec<u8> = Vec::new();
    push_digits(&mut mantissa, s, i0, i1);
    push_digits(&mut mantissa, s, i2, i3);
    proof {
        assert(mantissa@ =~= digits_of(s@, i0 as int, i1 as int) + digits_of(s@, i2 as int, i3 as int));
    }
    let int_len: i64 = (i1 - i0) as i64;
    if i3 == n {
        return Some(Decimal { negative: neg, digits: mantissa, point: int_len });
    }
    match parse_exponent_part(s, i3) {
        Some(e) => Some(Decimal { negative: neg, digits: mantissa, point: int_len + e }),
        None => None,
    }
}

proof fn lemma_leading_step(d: Seq<u8>, k: int)
    requires
        0 <= k < d.len(),
        d[k] == 0,
    ensures
        leading_zeros(d.skip(k)) == 1 + leading_zeros(d.skip(k + 1)),
{
    assert(d.skip(k).drop_first() =~= d.skip(k + 1));
}

proof fn lemma_leading_stop(d: Seq<u8>, k: int)
    requires
        0 <= k <= d.len(),
        k == d.len() || d[k] != 0,
    ensures
        leading_zeros(d.skip(k)) == 0,
{
}

proof fn lemma_lex_order_range(a: Seq<u8>, b: Seq<u8>)
    ensures
        -1 <= lex_order(a, b) <= 1,
    decreases a.len(),
{
    if a.len() > 0 && b.len() > 0 && a[0] == b[0] {
        lemma_lex_order_range(a.drop_first(), b.drop_first());
    }
}

proof fn lemma_trailing_step(d: Seq<u8>, k: int)
    requires
        0 < k <= d.len(),
        d[k - 1] == 0,
    ensures
        trailing_zeros(d.take(k)) == 1 + trailing_zeros(d.take(k - 1)),
{
    assert(d.take(k).drop_last() =~= d.take(k - 1));
}

/// Brings a decimal into normal form.
fn normalize_exec(x: Decimal) -> (r: Decimal)
    requires
        x.digits@.len() <= max_integer_digits(),
        -1000000000000000 < x.point <= max_integer_digits() + 1000000000000000,
    ensures
        r@ == normalize(x@),
        point_in_range(r.point as int),
{
    let n = x.digits.len();
    let mut z: usize = 0;
    proof {
        assert(x.digits@.skip(0) =~= x.digits@);
    }
    while z < n && x.digits[z] == 0
        invariant
            z <= n,
            n == x.digits@.len(),
            leading_zeros(x.digits@) == z + leading_zeros(x.digits@.skip(z as int)),
        decreases n - z,
    {
        proof {
            lemma_leading_step(x.digits@, z as int);
        }
        z = z + 1;
    }
    proof {
        lemma_leading_stop(x.digits@, z as int);
        assert(x.digits@.skip(0) =~= x.digits@);
    }
    if z == n {
        return Decimal { negative: x.negative, digits: Vec::new(), point: 0 };
    }
    let ghost d = x.digits@.skip(z as int);
    let mut e: usize = n;
    proof {
        assert(d.take(n - z) =~= d);
    }
    while e > z && x.digits[e - 1] == 0
        invariant
            z < e <= n,
            n == x.digits@.len(),
            x.digits@[z as int] != 0,
            d == x.digits@.skip(z as int),
            trailing_zeros(d) == (n - e) + trailing_zeros(d.take(e - z)),
        decreases e,
    {
        proof {
            lemma_trailing_step(d, e - z);
        }
        e = e - 1;
    }
    proof {
        assert(d.take(n - z) =~= d);
        assert(x.digits@[z as int] != 0);
        if e - z > 0 {
            assert(d.take(e - z).last() != 0);
        }
    }
    let mut out: Vec<u8> = Vec::new();
    let mut k: usize = z;
    while k < e
        invariant
            z <= k <= e,
            e <= n,
            n == x.digits@.len(),
            out@ == x.digits@.subrange(z as int, k as int),
        decreases e - k,
    {
        out.push(x.digits[k]);
        proof {
            assert(out@ =~= x.digits@.subrange(z as int, k + 1));
        }
        k = k + 1;
    }
    proof {
        assert(out@ =~= d.take(d.len() - trailing_zeros(d)));
    }
    Decimal { negative: x.negative, digits: out, point: x.point - z as i64 }
}

/// Reads `s` as an exact decimal number.
pub fn parse_decimal(s: &str) -> (r: Option<Decimal>)
    ensures
        r matches Some(d) ==> parse_decimal_spec(s@) == Some(d@) && point_in_range(d@.point),
        r is None ==> parse_decimal_spec(s@) is None,
{
    let cs = chars_of(s);
    match raw_parse(&cs) {
        Some(d) => Some(normalize_exec(d)),
        None => None,
    }
}

fn lex_order_exec(a: &Vec<u8>, b: &Vec<u8>) -> (r: i8)
    ensures
        r as int == lex_order(a@, b@),
        -1 <= r <= 1,
{
    let mut i: usize = 0;
    proof {
        assert(a@.skip(0) =~= a@);
        assert(b@.skip(0) =~= b@);
    }
    while i < a.len() && i < b.len() && a[i] == b[i]
        invariant
            i <= a.len(),
            i <= b.len(),
            lex_order(a@, b@) == lex_order(a@.skip(i as int), b@.skip(i as int)),
        decreases a.len() - i,
    {
        proof {
            lemma_lex_order_range(a@, b@);
        }
        proof {
            assert(a@.skip(i as int).drop_first() =~= a@.skip(i + 1));
            assert(b@.skip(i as int).drop_first() =~= b@.skip(i + 1));
        }
        i = i + 1;
    }
    if i == a.len() && i == b.len() {
        0
    } else if i == a.len() {
        -1
    } else if i == b.len() {
        1
    } else if a[i] < b[i] {
        -1
    } else {
        1
    }
}

/// Compares two normal forms by value: -1, 0 or 1.
pub fn decimal_compare(x: &Decimal, y: &Decimal) -> (r: i8)
    ensures
        r as int == decimal_order(x@, y@),
{
    let xz = x.digits.len() == 0;
    let yz = y.digits.len() == 0;
    if xz && yz {
        0
    } else if xz {
        if y.negative { 1 } else { -1 }
    } else if yz {
        if x.negative { -1 } else { 1 }
    } else if x.negative != y.negative {
        if x.negative { -1 } else { 1 }
    } else {
        let m: i8 = if x.point > y.point {
            1
        } else if x.point < y.point {
            -1
        } else {
            lex_order_exec(&x.digits, &y.digits)
        };
        if x.negative {
            -m
        } else {
            m
        }
    }
}

/// Points that conversions can index around without overflow.
pub open spec fn point_in_range(p: int) -> bool {
    -4611686018427387904 < p < 4611686018427387904
}

/// The number whose decimal digits are `ds`.
pub open spec fn seq_value(ds: Seq<u8>) -> int
    decreases ds.len(),
{
    if ds.len() == 0 {
        0
    } else {
        seq_value(ds.drop_last()) * 10 + ds.last() as int
    }
}

/// Digit `k` of the expansion, zero outside the stored digits.
pub open spec fn digit_at(ds: Seq<u8>, k: int) -> u8 {
    if 0 <= k < ds.len() {
        ds[k]
    } else {
        0
    }
}

/// The digits before the decimal point.
pub open spec fn integer_digits(d: DecimalSpec) -> Seq<u8> {
    if d.point <= 0 {
        Seq::empty()
    } else {
        Seq::new(d.point as nat, |k: int| digit_at(d.digits, k))
    }
}

/// The first nine digits after the decimal point.
pub open spec fn nano_digits(d: DecimalSpec) -> Seq<u8> {
    Seq::new(9, |m: int| digit_at(d.digits, d.point + m))
}

/// The magnitude truncated toward zero.
pub open spec fn integer_part(d: DecimalSpec) -> int {
    seq_value(integer_digits(d))
}

/// Whole seconds of a decimal epoch time, truncated toward zero and
/// saturated at the bounds of `i64`.
pub open spec fn epoch_seconds(d: DecimalSpec) -> i64 {
    let v = integer_part(d);
    if d.negative {
        if v > 9223372036854775808 {
            i64::MIN
        } else {
            (-v) as i64
        }
    } else if v > 9223372036854775807 {
        i64::MAX
    } else {
        v as i64
    }
}

/// Nanoseconds of a decimal epoch time: the first nine fraction digits of a
/// non-negative time, saturated when the seconds are; zero for a negative time.
pub open spec fn epoch_nanos(d: DecimalSpec) -> u32 {
    if d.negative {
        0
    } else if integer_part(d) > 9223372036854775807 {
        u32::MAX
    } else {
        seq_value(nano_digits(d)) as u32
    }
}

proof fn lemma_seq_value_nonneg(ds: Seq<u8>)
    ensures
        seq_value(ds) >= 0,
    decreases ds.len(),
{
    if ds.len() > 0 {
        lemma_seq_value_nonneg(ds.drop_last());
    }
}

proof fn lemma_seq_value_prefix(ds: Seq<u8>, k: int)
    requires
        0 <= k <= ds.len(),
    ensures
        seq_value(ds.take(k)) <= seq_value(ds),
    decreases ds.len() - k,
{
    if k < ds.len() {
        lemma_seq_value_prefix(ds, k + 1);
        assert(ds.take(k + 1).drop_last() =~= ds.take(k));
        lemma_seq_value_nonneg(ds.take(k));
    } else {
        assert(ds.take(k) =~= ds);
    }
}

fn digit_at_exec(ds: &Vec<u8>, k: i64) -> (r: u8)
    ensures
        r == digit_at(ds@, k as int),
{
    if k >= 0 && (k as u64) < (ds.len() as u64) {
        ds[k as usize]
    } else {
        0
    }
}

/// Seconds and nanoseconds of a decimal epoch time.
pub fn epoch_parts(d: &Decimal) -> (r: (i64, u32))
    requires
        point_in_range(d.point as int),
    ensures
        r.0 == epoch_seconds(d@),
        r.1 == epoch_nanos(d@),
{
    let ghost ids = integer_digits(d@);
    let mut v: u128 = 0;
    let mut k: i64 = 0;
    proof {
        assert(ids.take(0) =~= Seq::<u8>::empty());
    }
    while k < d.point && v <= 9223372036854775807
        invariant
            point_in_range(d.point as int),
            0 <= k,
            k <= d.point || k == 0,
            ids == integer_digits(d@),
            d.point > 0 ==> ids.len() == d.point,
            v == seq_value(ids.take(k as int)),
        decreases d.point - k,
    {
        let dg = digit_at_exec(&d.digits, k);
        proof {
            assert(ids.take(k + 1).drop_last() =~= ids.take(k as int));
            assert(ids[k as int] == dg);
        }
        v = v * 10 + dg as u128;
        k = k + 1;
    }
    if v > 9223372036854775807 {
        proof {
            lemma_seq_value_prefix(ids, k as int);
        }
        return if d.negative { (i64::MIN, 0) } else { (i64::MAX, u32::MAX) };
    }
    proof {
        if d.point > 0 {
            assert(ids.take(k as int) =~= ids);
        } else {
            assert(ids.take(0) =~= ids);
        }
    }
    let secs: i64 = if d.negative { -(v as i64) } else { v as i64 };
    if d.negative {
        return (secs, 0);
    }
    let ghost nds = nano_digits(d@);
    let mut n: u64 = 0;
    let mut m: i64 = 0;
    proof {
        assert(nds.take(0) =~= Seq::<u8>::empty());
    }
    while m < 9
        invariant
            point_in_range(d.point as int),
            0 <= m <= 9,
            nds == nano_digits(d@),
            n == seq_value(nds.take(m as int)),
            n <= 29 * (pow10(m as int) - 1),
        decreases 9 - m,
    {
        let dg = digit_at_exec(&d.digits, d.point + m);
        proof {
            assert(nds.take(m + 1).drop_last() =~= nds.take(m as int));
            assert(nds[m as int] == dg);
            assert(pow10(8) == 100000000) by {
                reveal_with_fuel(pow10, 9);
            }
            lemma_pow10_mono(m as int, 8);
            let p = pow10(m as int);
            assert(pow10(m + 1) == 10 * p);
            assert(n * 10 + dg <= 29 * (10 * p - 1)) by (nonlinear_arith)
                requires
                    n <= 29 * (p - 1),
                    dg <= 255,
                    p >= 1,
            ;
        }
        n = n * 10 + dg as u64;
        m = m + 1;
    }
    proof {
        assert(nds.take(9) =~= nds);
    }
    (secs, n as u32)
}

} // verus!
