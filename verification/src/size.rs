//! Sizes in gigabytes, held exactly as a decimal number: `mantissa * 10^exponent`.
use crate::text::{
    all_digits, decimal, digit_value, digits_value, is_digit, parse_signed, parse_signed_from,
    push_decimal,
    read_digits_of,
};
use vstd::prelude::*;
use vstd::string::StringExecFns;

verus! {

/// A non-negative size in gigabytes, `mantissa * 10^exponent`.
#[derive(Debug, Copy, Clone, PartialEq, Eq, Structural)]
pub struct SizeGb {
    pub mantissa: u64,
    pub exponent: i64,
}

/// The largest exponent, and the largest count of digits after the point, that a size text may have.
pub open spec fn exponent_limit() -> int {
    1_000_000_000
}

/// The length of the run of digits that starts at `i`.
pub open spec fn digit_run(s: Seq<char>, i: int) -> int
    decreases s.len() - i,
{
    if 0 <= i < s.len() && is_digit(s[i]) {
        1 + digit_run(s, i + 1)
    } else {
        0
    }
}

/// Where the digits before the point start: after an optional `+`.
pub open spec fn size_int_start(s: Seq<char>) -> int {
    if s.len() > 0 && s[0] == '+' {
        1
    } else {
        0
    }
}

pub open spec fn size_point(s: Seq<char>) -> int {
    size_int_start(s) + digit_run(s, size_int_start(s))
}

pub open spec fn size_has_point(s: Seq<char>) -> bool {
    size_point(s) < s.len() && s[size_point(s)] == '.'
}

pub open spec fn size_frac_len(s: Seq<char>) -> int {
    if size_has_point(s) {
        digit_run(s, size_point(s) + 1)
    } else {
        0
    }
}

/// Where the digits end: at the exponent, if there is one, or at the end of the text.
pub open spec fn size_digits_end(s: Seq<char>) -> int {
    if size_has_point(s) {
        size_point(s) + 1 + size_frac_len(s)
    } else {
        size_point(s)
    }
}

/// All the digits of the number, without its point.
pub open spec fn size_digits(s: Seq<char>) -> Seq<char> {
    s.subrange(size_int_start(s), size_point(s)) + s.subrange(
        size_digits_end(s) - size_frac_len(s),
        size_digits_end(s),
    )
}

/// The power of ten written after `e` or `E`, or 0 when the text ends after its digits.
pub open spec fn size_exponent_part(s: Seq<char>) -> Option<int> {
    let c = size_digits_end(s);
    if c == s.len() {
        Some(0)
    } else if s[c] == 'e' || s[c] == 'E' {
        parse_signed(s.skip(c + 1), exponent_limit())
    } else {
        None
    }
}

/// A decimal number as a float parser reads it: an optional `+`, digits with at most one point
/// and at least one digit, and an optional exponent. `None` also where the digits do not fit in
/// a `u64`, or where the exponent or the count of digits after the point exceeds the limit.
pub open spec fn size_from_text(s: Seq<char>) -> Option<SizeGb> {
    let ip = digit_run(s, size_int_start(s));
    let fp = size_frac_len(s);
    let m = digits_value(size_digits(s));
    if ip + fp == 0 || m > u64::MAX || fp > exponent_limit() {
        None
    } else {
        match size_exponent_part(s) {
            Some(e) => Some(SizeGb { mantissa: m as u64, exponent: (e - fp) as i64 }),
            None => None,
        }
    }
}

/// The size in gigabytes that a number written in `unit` stands for.
pub open spec fn size_in_unit(size: SizeGb, unit: Seq<char>) -> Option<SizeGb> {
    if unit == "MB"@ {
        Some(SizeGb { mantissa: size.mantissa, exponent: (size.exponent - 3) as i64 })
    } else if unit == "GB"@ {
        Some(size)
    } else if unit == "KB"@ {
        Some(SizeGb { mantissa: size.mantissa, exponent: (size.exponent - 6) as i64 })
    } else if unit == "TB"@ {
        Some(SizeGb { mantissa: size.mantissa, exponent: (size.exponent + 3) as i64 })
    } else {
        None
    }
}

/// The size with the trailing zeros of its mantissa moved into its exponent.
pub open spec fn normalized(m: nat, e: int) -> (nat, int)
    decreases m,
{
    if m != 0 && m % 10 == 0 {
        normalized(m / 10, e + 1)
    } else {
        (m, e)
    }
}

pub open spec fn zeros(n: nat) -> Seq<char> {
    Seq::new(n, |i: int| '0')
}

/// The plain decimal notation of `m * 10^e`, with no exponent and no zeros after the last
/// significant digit, as a float is shown.
pub open spec fn plain_decimal(m: nat, e: int) -> Seq<char> {
    let (n, x) = normalized(m, e);
    let d = decimal(n);
    if n == 0 {
        "0"@
    } else if x >= 0 {
        d + zeros(x as nat)
    } else if d.len() > -x {
        d.take(d.len() + x) + "."@ + d.skip(d.len() + x)
    } else {
        "0."@ + zeros((-x - d.len()) as nat) + d
    }
}

pub open spec fn size_text(size: SizeGb) -> Seq<char> {
    plain_decimal(size.mantissa as nat, size.exponent as int)
}

/// The end of the run of digits that starts at `i`.
fn skip_digits(s: &str, len: usize, i: usize) -> (j: usize)
    requires
        len == s@.len(),
        i <= len,
    ensures
        j == i + digit_run(s@, i as int),
        i <= j <= len,
{
    let mut j = i;
    while j < len && is_digit_char(s.get_char(j))
        invariant
            len == s@.len(),
            i <= j <= len,
            digit_run(s@, i as int) == (j - i) + digit_run(s@, j as int),
        decreases len - j,
    {
        j = j + 1;
    }
    j
}

fn is_digit_char(c: char) -> (r: bool)
    ensures
        r == is_digit(c),
{
    '0' <= c && c <= '9'
}

proof fn lemma_run_digits(s: Seq<char>, i: int)
    requires
        0 <= i <= s.len(),
    ensures
        i + digit_run(s, i) <= s.len(),
        digit_run(s, i) >= 0,
        all_digits(s.subrange(i, i + digit_run(s, i))),
    decreases s.len() - i,
{
    if i < s.len() && is_digit(s[i]) {
        lemma_run_digits(s, i + 1);
        let t = s.subrange(i, i + digit_run(s, i));
        assert forall|k: int| 0 <= k < t.len() implies #[trigger] is_digit(t[k]) by {
            if k > 0 {
                assert(t[k] == s.subrange(i + 1, i + 1 + digit_run(s, i + 1))[k - 1]);
            }
        }
    }
}

/// Reads a size written as a decimal number, as a float parser would read it, but exactly and
/// on a narrower domain: a size is never negative, so a `-` is refused, and so are `inf`, `NaN`,
/// digits whose value exceeds `u64::MAX` (leading and trailing zeros count) and an exponent
/// or a count of digits after the point beyond 10^9. A float parser would accept these.
pub fn parse_size(s: &str) -> (r: Option<SizeGb>)
    ensures
        r == size_from_text(s@),
        r matches Some(z) ==> -3_000_000_000 <= z.exponent <= 3_000_000_000,
{
    let len = s.unicode_len();
    let a: usize = if len > 0 && s.get_char(0) == '+' { 1 } else { 0 };
    let b = skip_digits(s, len, a);
    let has_point = b < len && s.get_char(b) == '.';
    let f: usize = if has_point { b + 1 } else { b };
    let c = if has_point { skip_digits(s, len, b + 1) } else { b };
    let ip = b - a;
    let fp = c - f;
    proof {
        lemma_run_digits(s@, a as int);
        if has_point {
            lemma_run_digits(s@, b + 1);
        }
        assert(size_int_start(s@) == a);
        assert(size_point(s@) == b);
        assert(size_has_point(s@) == has_point);
        assert(size_frac_len(s@) == fp);
        assert(size_digits_end(s@) == c);
    }
    if ip + fp == 0 {
        return None;
    }
    if fp > 1_000_000_000 {
        return None;
    }
    let ghost digits = size_digits(s@);
    proof {
        let p = s@.subrange(a as int, b as int);
        let q = s@.subrange(f as int, c as int);
        assert(all_digits(p));
        assert(all_digits(q));
        assert(digits =~= p + q);
        assert forall|k: int| 0 <= k < digits.len() implies #[trigger] is_digit(digits[k]) by {
            if k < p.len() {
                assert(digits[k] == p[k]);
            } else {
                assert(digits[k] == q[k - p.len()]);
            }
        }
    }
    let m = match read_digits_of(s, a, b, f, c) {
        Some(v) => v,
        None => return None,
    };
    let e: i64 = if c == len {
        0
    } else {
        let x = s.get_char(c);
        if x == 'e' || x == 'E' {
            match parse_signed_from(s, c + 1, 1_000_000_000) {
                Some(v) => v,
                None => return None,
            }
        } else {
            return None;
        }
    };
    Some(SizeGb { mantissa: m, exponent: e - (fp as i64) })
}

impl SizeGb {
    /// The size that a number written in `unit` stands for in gigabytes; `None` for a unit
    /// other than `KB`, `MB`, `GB` and `TB`.
    pub fn in_unit(self, unit: &str) -> (r: Option<SizeGb>)
        requires
            -3_000_000_000 <= self.exponent <= 3_000_000_000,
        ensures
            r == size_in_unit(self, unit@),
    {
        if crate::text::str_eq(unit, "MB") {
            Some(SizeGb { mantissa: self.mantissa, exponent: self.exponent - 3 })
        } else if crate::text::str_eq(unit, "GB") {
            Some(self)
        } else if crate::text::str_eq(unit, "KB") {
            Some(SizeGb { mantissa: self.mantissa, exponent: self.exponent - 6 })
        } else if crate::text::str_eq(unit, "TB") {
            Some(SizeGb { mantissa: self.mantissa, exponent: self.exponent + 3 })
        } else {
            None
        }
    }

    /// Appends the size in plain decimal notation.
    pub fn push_text(&self, out: &mut String)
        ensures
            final(out)@ == old(out)@ + size_text(*self),
    {
        let mut m = self.mantissa;
        let mut e: i128 = self.exponent as i128;
        while m != 0 && m % 10 == 0
            invariant
                normalized(m as nat, e as int) == normalized(self.mantissa as nat, self.exponent as int),
                e >= self.exponent,
                e - self.exponent <= self.mantissa - m,
                m <= self.mantissa,
            decreases m,
        {
            m = m / 10;
            e = e + 1;
        }
        let ghost n = m as nat;
        let ghost x = e as int;
        assert(normalized(n, x) == (n, x));
        if m == 0 {
            out.append("0");
            return;
        }
        let mut d = String::new();
        push_decimal(&mut d, m);
        assert(d@ == decimal(n));
        let dl = d.unicode_len();
        if e >= 0 {
            out.append(d.as_str());
            push_zeros(out, e);
        } else if (dl as i128) > -e {
            let cut = ((dl as i128) + e) as usize;
            out.append(d.as_str().substring_char(0, cut));
            out.append(".");
            out.append(d.as_str().substring_char(cut, dl));
        } else {
            out.append("0.");
            push_zeros(out, -e - (dl as i128));
            out.append(d.as_str());
        }
    }
}

/// Appends `n` zeros.
fn push_zeros(out: &mut String, n: i128)
    requires
        n >= 0,
    ensures
        final(out)@ == old(out)@ + zeros(n as nat),
{
    let mut i: i128 = 0;
    while i < n
        invariant
            0 <= i <= n,
            out@ == old(out)@ + zeros(i as nat),
        decreases n - i,
    {
        out.push('0');
        assert(zeros((i + 1) as nat) =~= zeros(i as nat).push('0'));
        i = i + 1;
    }
}

/// `10^k`.
pub open spec fn pow10(k: nat) -> nat
    decreases k,
{
    if k == 0 {
        1
    } else {
        pow10((k - 1) as nat) * 10
    }
}

/// Two sizes stand for the same number of gigabytes.
pub open spec fn same_size(a: SizeGb, b: SizeGb) -> bool {
    if a.mantissa == 0 || b.mantissa == 0 {
        a.mantissa == b.mantissa
    } else {
        normalized(a.mantissa as nat, a.exponent as int) == normalized(b.mantissa as nat, b.exponent as int)
    }
}

/// The plain decimal text of a size can be read back: a whole number fits in a `u64`, and a
/// fraction has no more digits after its point than a size text may have.
pub open spec fn text_readable(size: SizeGb) -> bool {
    let (n, x) = normalized(size.mantissa as nat, size.exponent as int);
    if x >= 0 {
        n * pow10(x as nat) <= u64::MAX
    } else {
        -x <= exponent_limit()
    }
}

proof fn lemma_normalized(m: nat, e: int)
    ensures
        ({
            let (n, x) = normalized(m, e);
            &&& n <= m
            &&& x >= e
            &&& n == 0 <==> m == 0
            &&& n != 0 ==> n % 10 != 0
            &&& m == n * pow10((x - e) as nat)
        }),
    decreases m,
{
    if m != 0 && m % 10 == 0 {
        let q = m / 10;
        assert(q * 10 == m && q >= 1 && q < m);
        lemma_normalized(q, e + 1);
        let (n, x) = normalized(q, e + 1);
        assert(normalized(m, e) == (n, x));
        let k = (x - e) as nat;
        assert(k >= 1);
        assert(pow10(k) == pow10((k - 1) as nat) * 10);
        assert(q == n * pow10((k - 1) as nat));
        assert(n * pow10(k) == q * 10) by (nonlinear_arith)
            requires
                pow10(k) == pow10((k - 1) as nat) * 10,
                q == n * pow10((k - 1) as nat),
        ;
    } else {
        assert(pow10(0) == 1);
        assert(m * 1 == m);
    }
}

proof fn lemma_normalized_shift(n: nat, e: int, k: nat)
    requires
        n != 0,
        n % 10 != 0,
    ensures
        normalized(n * pow10(k), e) == (n, e + k),
    decreases k,
{
    if k > 0 {
        let a = n * pow10((k - 1) as nat);
        assert(n * pow10(k) == a * 10) by (nonlinear_arith)
            requires
                pow10(k) == pow10((k - 1) as nat) * 10,
                a == n * pow10((k - 1) as nat),
        ;
        assert(pow10((k - 1) as nat) >= 1) by {
            lemma_pow10_positive((k - 1) as nat);
        }
        assert(a >= 1) by (nonlinear_arith)
            requires
                n >= 1,
                pow10((k - 1) as nat) >= 1,
                a == n * pow10((k - 1) as nat),
        ;
        assert((a * 10) % 10 == 0 && (a * 10) / 10 == a);
        lemma_normalized_shift(n, e + 1, (k - 1) as nat);
        assert(normalized(a * 10, e) == normalized(a, e + 1));
    } else {
        assert(pow10(0) == 1);
        assert(n * 1 == n);
    }
}

proof fn lemma_pow10_positive(k: nat)
    ensures
        pow10(k) >= 1,
    decreases k,
{
    if k > 0 {
        lemma_pow10_positive((k - 1) as nat);
    }
}

/// A run of digits from `i` up to `j`, where the digits stop.
proof fn lemma_digit_run_to(s: Seq<char>, i: int, j: int)
    requires
        0 <= i <= j <= s.len(),
        forall|k: int| i <= k < j ==> #[trigger] is_digit(s[k]),
        j == s.len() || !is_digit(s[j]),
    ensures
        digit_run(s, i) == j - i,
    decreases j - i,
{
    if i < j {
        lemma_digit_run_to(s, i + 1, j);
    }
}

proof fn lemma_digits_value_concat(a: Seq<char>, b: Seq<char>)
    ensures
        digits_value(a + b) == digits_value(a) * pow10(b.len()) + digits_value(b),
    decreases b.len(),
{
    if b.len() == 0 {
        assert(a + b =~= a);
        assert(pow10(0) == 1);
        assert(digits_value(a) * 1 == digits_value(a));
    } else {
        let b0 = b.drop_last();
        lemma_digits_value_concat(a, b0);
        let ab = a + b;
        assert(ab.drop_last() =~= a + b0);
        assert(ab.last() == b.last());
        let x = digits_value(a);
        let p = pow10(b0.len());
        let y = digits_value(b0);
        let t = digit_value(b.last());
        assert(digits_value(ab) == digits_value(a + b0) * 10 + t);
        assert(digits_value(b) == y * 10 + t);
        assert(pow10(b.len()) == p * 10);
        assert((x * p + y) * 10 == x * (p * 10) + y * 10) by (nonlinear_arith);
    }
}

proof fn lemma_digits_value_zeros(k: nat)
    ensures
        digits_value(zeros(k)) == 0,
    decreases k,
{
    if k > 0 {
        lemma_digits_value_zeros((k - 1) as nat);
        assert(zeros(k).drop_last() =~= zeros((k - 1) as nat));
    }
}

proof fn lemma_zero_digit_value()
    ensures
        digits_value(seq!['0']) == 0,
{
    let z = seq!['0'];
    assert(z.len() == 1);
    assert(z.drop_last() =~= Seq::<char>::empty());
    assert(digits_value(Seq::<char>::empty()) == 0);
    assert(z.last() == '0');
    assert(digit_value('0') == 0);
}

/// The text of a whole number: its digits followed by `x` zeros.
proof fn lemma_read_whole(n: nat, x: nat)
    requires
        n != 0,
        n * pow10(x) <= u64::MAX,
    ensures
        size_from_text(decimal(n) + zeros(x)) == Some(SizeGb { mantissa: (n * pow10(x)) as u64, exponent: 0 }),
{
    let d = decimal(n);
    crate::text::lemma_decimal_digits(n);
    let s = d + zeros(x);
    assert forall|k: int| 0 <= k < s.len() implies #[trigger] is_digit(s[k]) by {
        if k < d.len() {
            assert(s[k] == d[k]);
        } else {
            assert(s[k] == '0');
        }
    }
    assert(s[0] == d[0]);
    assert(size_int_start(s) == 0);
    lemma_digit_run_to(s, 0, s.len() as int);
    assert(size_digits(s) =~= s);
    lemma_digits_value_concat(d, zeros(x));
    lemma_digits_value_zeros(x);
}

/// The text of a number with `d.len() - j` digits after its point.
proof fn lemma_read_point(n: nat, j: int)
    requires
        n != 0,
        n <= u64::MAX,
        1 <= j < decimal(n).len(),
        decimal(n).len() - j <= exponent_limit(),
    ensures
        size_from_text(decimal(n).take(j) + "."@ + decimal(n).skip(j)) == Some(
            SizeGb { mantissa: n as u64, exponent: (j - decimal(n).len()) as i64 },
        ),
{
    let d = decimal(n);
    crate::text::lemma_decimal_digits(n);
    let a = d.take(j);
    let b = d.skip(j);
    reveal_strlit(".");
    let s = a + "."@ + b;
    assert(s =~= a + seq!['.'] + b);
    assert(s[j] == '.');
    assert(s[0] == d[0]);
    assert forall|k: int| 0 <= k < j implies #[trigger] is_digit(s[k]) by {
        assert(s[k] == d[k]);
    }
    assert forall|k: int| j + 1 <= k < s.len() implies #[trigger] is_digit(s[k]) by {
        assert(s[k] == d[k - 1]);
    }
    lemma_digit_run_to(s, 0, j);
    lemma_digit_run_to(s, j + 1, s.len() as int);
    assert(size_digits(s) =~= a + b);
    assert(a + b =~= d);
}

/// The text of a number below one: `0.`, `k` zeros, then its digits.
proof fn lemma_read_small(n: nat, k: nat)
    requires
        n != 0,
        n <= u64::MAX,
        k + decimal(n).len() <= exponent_limit(),
    ensures
        size_from_text("0."@ + zeros(k) + decimal(n)) == Some(
            SizeGb { mantissa: n as u64, exponent: -(k + decimal(n).len()) as i64 },
        ),
{
    let d = decimal(n);
    crate::text::lemma_decimal_digits(n);
    let z = zeros(k);
    reveal_strlit("0.");
    let s = "0."@ + z + d;
    assert(s =~= seq!['0', '.'] + z + d);
    assert(s[0] == '0');
    assert(s[1] == '.');
    assert(size_int_start(s) == 0);
    lemma_digit_run_to(s, 0, 1);
    assert forall|i: int| 2 <= i < s.len() implies #[trigger] is_digit(s[i]) by {
        if i < 2 + k {
            assert(s[i] == '0');
        } else {
            assert(s[i] == d[i - 2 - k]);
        }
    }
    lemma_digit_run_to(s, 2, s.len() as int);
    assert(size_digits(s) =~= seq!['0'] + (z + d));
    lemma_digits_value_concat(seq!['0'], z + d);
    lemma_digits_value_concat(z, d);
    lemma_digits_value_zeros(k);
    lemma_zero_digit_value();
    lemma_pow10_positive((z + d).len());
}

/// Reading back the plain decimal text of a size gives the same number of gigabytes, wherever
/// the text can be read.
pub proof fn lemma_size_text_reads_back(size: SizeGb)
    requires
        text_readable(size),
    ensures
        size_from_text(size_text(size)) matches Some(back) && same_size(back, size),
{
    let m = size.mantissa as nat;
    let e = size.exponent as int;
    let (n, x) = normalized(m, e);
    lemma_normalized(m, e);
    let d = decimal(n);
    crate::text::lemma_decimal_digits(n);
    let s = size_text(size);
    if n == 0 {
        reveal_strlit("0");
        assert(s =~= seq!['0']);
        lemma_digit_run_to(s, 0, 1);
        assert(size_digits(s) =~= seq!['0']);
        lemma_zero_digit_value();
        assert(size_from_text(s) == Some(SizeGb { mantissa: 0, exponent: 0 }));
    } else if x >= 0 {
        lemma_read_whole(n, x as nat);
        lemma_normalized_shift(n, 0, x as nat);
    } else if d.len() > -x {
        lemma_read_point(n, d.len() + x);
        lemma_normalized_shift(n, x, 0);
        assert(pow10(0) == 1);
        assert(n * 1 == n);
    } else {
        lemma_read_small(n, (-x - d.len()) as nat);
        lemma_normalized_shift(n, x, 0);
        assert(pow10(0) == 1);
        assert(n * 1 == n);
    }
}

} // verus!
