//! Character-level helpers on strings: decimal numbers, quoting and case.
use vstd::prelude::*;

verus! {

/// `String::push` appends one character at the end of the string.
pub assume_specification[ String::push ](s: &mut String, ch: char)
    ensures
        final(s)@ == old(s)@.push(ch),
;

/// The ASCII digit that stands for `d` (for `0 <= d < 10`).
pub open spec fn digit_char(d: int) -> char {
    (d + 48) as char
}

pub open spec fn is_digit(c: char) -> bool {
    '0' <= c && c <= '9'
}

pub open spec fn digit_value(c: char) -> int {
    (c as int) - 48
}

/// The decimal notation of `n`, without leading zeros.
pub open spec fn decimal(n: nat) -> Seq<char>
    decreases n,
{
    if n < 10 {
        seq![digit_char(n as int)]
    } else {
        decimal(n / 10).push(digit_char((n % 10) as int))
    }
}

/// The decimal notation of an integer, with a leading `-` when it is negative.
pub open spec fn signed_decimal(n: int) -> Seq<char> {
    if n < 0 {
        seq!['-'] + decimal((-n) as nat)
    } else {
        decimal(n as nat)
    }
}

pub open spec fn all_digits(s: Seq<char>) -> bool {
    forall|i: int| 0 <= i < s.len() ==> #[trigger] is_digit(s[i])
}

/// The number that a string of digits denotes.
pub open spec fn digits_value(s: Seq<char>) -> int
    decreases s.len(),
{
    if s.len() == 0 {
        0
    } else {
        digits_value(s.drop_last()) * 10 + digit_value(s.last())
    }
}

/// What `str::parse` gives for an unsigned integer type whose largest value is `max`:
/// an optional `+`, then at least one digit, and a value that fits.
pub open spec fn parse_unsigned(s: Seq<char>, max: int) -> Option<int> {
    let d = if s.len() > 0 && s[0] == '+' { s.drop_first() } else { s };
    if d.len() > 0 && all_digits(d) && digits_value(d) <= max {
        Some(digits_value(d))
    } else {
        None
    }
}

/// What `str::parse` gives for a signed integer type ranging over `-max - 1 ..= max`:
/// an optional sign, then at least one digit, and a value that fits.
pub open spec fn parse_signed(s: Seq<char>, max: int) -> Option<int> {
    if s.len() > 0 && s[0] == '-' {
        let d = s.drop_first();
        if d.len() > 0 && all_digits(d) && digits_value(d) <= max + 1 {
            Some(-digits_value(d))
        } else {
            None
        }
    } else {
        parse_unsigned(s, max)
    }
}

/// `s` with every occurrence of `c` taken out.
pub open spec fn remove_char(s: Seq<char>, c: char) -> Seq<char>
    decreases s.len(),
{
    if s.len() == 0 {
        s
    } else if s.last() == c {
        remove_char(s.drop_last(), c)
    } else {
        remove_char(s.drop_last(), c).push(s.last())
    }
}

/// `s` with every single quote doubled, as SQL string literals write it.
pub open spec fn escape_quotes(s: Seq<char>) -> Seq<char>
    decreases s.len(),
{
    if s.len() == 0 {
        s
    } else if s.last() == '\'' {
        escape_quotes(s.drop_last()) + seq!['\'', '\'']
    } else {
        escape_quotes(s.drop_last()).push(s.last())
    }
}

/// Reads back a string whose quotes are doubled, one doubled quote at a time.
pub open spec fn unescape_quotes(s: Seq<char>) -> Seq<char>
    decreases s.len(),
{
    if s.len() == 0 {
        s
    } else if s.len() >= 2 && s[0] == '\'' && s[1] == '\'' {
        seq!['\''] + unescape_quotes(s.skip(2))
    } else {
        seq![s[0]] + unescape_quotes(s.drop_first())
    }
}

pub open spec fn ascii_lower_char(c: char) -> char {
    if 'A' <= c && c <= 'Z' {
        ((c as int) + 32) as char
    } else {
        c
    }
}

/// `str::to_ascii_lowercase`: ASCII capitals become small letters, everything else stays.
pub open spec fn ascii_lower(s: Seq<char>) -> Seq<char> {
    s.map_values(|c: char| ascii_lower_char(c))
}

pub(crate) proof fn lemma_decimal_digits(n: nat)
    ensures
        decimal(n).len() >= 1,
        all_digits(decimal(n)),
        digits_value(decimal(n)) == n,
        decimal(n)[0] != '+',
        decimal(n)[0] != '-',
    decreases n,
{
    let c = digit_char((n % 10) as int);
    assert(digit_value(c) == n % 10);
    assert(is_digit(c));
    if n < 10 {
        assert(decimal(n).drop_last() =~= Seq::<char>::empty());
        assert(digits_value(Seq::<char>::empty()) == 0);
        assert(decimal(n).last() == c);
        assert(digits_value(decimal(n)) == digits_value(decimal(n).drop_last()) * 10 + digit_value(c));
    } else {
        lemma_decimal_digits(n / 10);
        let d = decimal(n);
        assert(d.drop_last() =~= decimal(n / 10));
        assert(d.last() == c);
        assert(digits_value(d) == digits_value(decimal(n / 10)) * 10 + digit_value(c));
        assert(n == (n / 10) * 10 + n % 10);
        assert forall|i: int| 0 <= i < d.len() implies #[trigger] is_digit(d[i]) by {
            if i < d.len() - 1 {
                assert(d[i] == decimal(n / 10)[i]);
            }
        }
    }
}

/// Reading the decimal notation of a number back gives the number.
pub proof fn lemma_parse_decimal(n: nat, max: int)
    requires
        n <= max,
    ensures
        parse_unsigned(decimal(n), max) == Some(n as int),
        parse_signed(decimal(n), max) == Some(n as int),
{
    lemma_decimal_digits(n);
}

/// Reading the signed decimal notation of an integer back gives the integer.
pub proof fn lemma_parse_signed_decimal(n: int, max: int)
    requires
        -max - 1 <= n <= max,
    ensures
        parse_signed(signed_decimal(n), max) == Some(n),
{
    if n < 0 {
        lemma_decimal_digits((-n) as nat);
        let s = signed_decimal(n);
        assert(s.drop_first() =~= decimal((-n) as nat));
    } else {
        lemma_decimal_digits(n as nat);
    }
}

proof fn lemma_digits_value_prefix(s: Seq<char>, i: int)
    requires
        0 <= i <= s.len(),
        all_digits(s),
    ensures
        digits_value(s.take(i)) <= digits_value(s),
        digits_value(s.take(i)) >= 0,
    decreases s.len(),
{
    if i == s.len() {
        assert(s.take(i) =~= s);
        lemma_digits_value_nonneg(s);
    } else {
        let t = s.drop_last();
        assert(all_digits(t)) by {
            assert forall|j: int| 0 <= j < t.len() implies #[trigger] is_digit(t[j]) by {
                assert(t[j] == s[j]);
            }
        }
        lemma_digits_value_prefix(t, i);
        assert(t.take(i) =~= s.take(i));
        assert(is_digit(s[s.len() - 1]));
    }
}

proof fn lemma_digits_value_nonneg(s: Seq<char>)
    requires
        all_digits(s),
    ensures
        digits_value(s) >= 0,
    decreases s.len(),
{
    if s.len() > 0 {
        let t = s.drop_last();
        assert forall|j: int| 0 <= j < t.len() implies #[trigger] is_digit(t[j]) by {
            assert(t[j] == s[j]);
        }
        lemma_digits_value_nonneg(t);
        assert(is_digit(s[s.len() - 1]));
    }
}

proof fn lemma_digits_step(s: Seq<char>, i: int)
    requires
        0 <= i < s.len(),
    ensures
        s.take(i + 1).drop_last() =~= s.take(i),
        s.take(i + 1).last() == s[i],
        digits_value(s.take(i + 1)) == digits_value(s.take(i)) * 10 + digit_value(s[i]),
{
    assert(s.take(i + 1).drop_last() =~= s.take(i));
}

/// The digits of `d` read as a number, if all of them are digits and the number is at most `max`.
fn read_digits(d: &str, start: usize, max: u64) -> (r: Option<u64>)
    requires
        start <= d@.len(),
    ensures
        ({
            let t = d@.skip(start as int);
            &&& r matches Some(v) ==> t.len() > 0 && all_digits(t) && digits_value(t) == v && v <= max
            &&& r is None ==> !(t.len() > 0 && all_digits(t) && digits_value(t) <= max)
        }),
{
    let len = d.unicode_len();
    if start >= len {
        return None;
    }
    let ghost t = d@.skip(start as int);
    let mut acc: u64 = 0;
    let mut i: usize = start;
    while i < len
        invariant
            start <= i <= len,
            len == d@.len(),
            t == d@.skip(start as int),
            all_digits(t.take(i - start)),
            acc == digits_value(t.take(i - start)),
            acc <= max,
        decreases len - i,
    {
        let c = d.get_char(i);
        let ghost k: int = i - start;
        assert(t[k] == c);
        proof {
            lemma_digits_step(t, k);
        }
        if !('0' <= c && c <= '9') {
            assert(!is_digit(t[k]));
            return None;
        }
        let dv: u64 = (c as u64) - 48;
        if dv > max || acc > (max - dv) / 10 {
            proof {
                assert(acc * 10 + dv > max) by (nonlinear_arith)
                    requires dv > max || acc > (max - dv) / 10, acc >= 0;
                if all_digits(t) {
                    lemma_digits_value_prefix(t, k + 1);
                }
            }
            return None;
        }
        proof {
            assert(acc * 10 + dv <= max) by (nonlinear_arith)
                requires acc <= (max - dv) / 10, dv <= max, acc >= 0;
            assert forall|j: int| 0 <= j < k + 1 implies #[trigger] is_digit(t.take(k + 1)[j]) by {
                if j < k {
                    assert(t.take(k + 1)[j] == t.take(k)[j]);
                }
            }
        }
        acc = acc * 10 + dv;
        i = i + 1;
    }
    assert(t.take(len - start) =~= t);
    Some(acc)
}

/// `str::parse::<u32>`: `None` exactly where the standard parser reports an error (where a
/// reading that cannot go on without the number would stop).
pub fn parse_u32(s: &str) -> (r: Option<u32>)
    ensures
        r matches Some(v) ==> parse_unsigned(s@, u32::MAX as int) == Some(v as int),
        r is None ==> parse_unsigned(s@, u32::MAX as int) is None,
{
    match parse_unsigned_text(s, u32::MAX as u64) {
        Some(v) => Some(v as u32),
        None => None,
    }
}

/// `str::parse::<usize>`: `None` exactly where the standard parser reports an error (where a
/// reading that cannot go on without the number would stop).
pub fn parse_usize(s: &str) -> (r: Option<usize>)
    ensures
        r matches Some(v) ==> parse_unsigned(s@, usize::MAX as int) == Some(v as int),
        r is None ==> parse_unsigned(s@, usize::MAX as int) is None,
{
    match parse_unsigned_text(s, usize::MAX as u64) {
        Some(v) => Some(v as usize),
        None => None,
    }
}

/// `str::parse::<i64>`: `None` exactly where the standard parser reports an error (where a
/// reading that cannot go on without the number would stop).
pub fn parse_i64(s: &str) -> (r: Option<i64>)
    ensures
        r matches Some(v) ==> parse_signed(s@, i64::MAX as int) == Some(v as int),
        r is None ==> parse_signed(s@, i64::MAX as int) is None,
{
    assert(s@.skip(0) =~= s@);
    parse_signed_from(s, 0, i64::MAX as u64)
}

/// Reads the text from `start` on as a signed number of magnitude at most `max` (or `max + 1`
/// when negative), as `str::parse` reads a signed integer.
pub fn parse_signed_from(s: &str, start: usize, max: u64) -> (r: Option<i64>)
    requires
        start <= s@.len(),
        max <= i64::MAX,
    ensures
        r matches Some(v) ==> parse_signed(s@.skip(start as int), max as int) == Some(v as int),
        r is None ==> parse_signed(s@.skip(start as int), max as int) is None,
        r matches Some(v) ==> -(max as int) - 1 <= v <= max,
{
    let len = s.unicode_len();
    let ghost t = s@.skip(start as int);
    if start < len && s.get_char(start) == '-' {
        assert(s@.skip(start + 1) =~= t.drop_first());
        match read_digits(s, start + 1, max + 1) {
            Some(v) => {
                if v == (i64::MAX as u64) + 1 {
                    Some(i64::MIN)
                } else {
                    Some(-(v as i64))
                }
            },
            None => None,
        }
    } else {
        match parse_unsigned_from(s, start, max) {
            Some(v) => Some(v as i64),
            None => None,
        }
    }
}

fn parse_unsigned_text(s: &str, max: u64) -> (r: Option<u64>)
    ensures
        r matches Some(v) ==> parse_unsigned(s@, max as int) == Some(v as int),
        r is None ==> parse_unsigned(s@, max as int) is None,
{
    assert(s@.skip(0) =~= s@);
    parse_unsigned_from(s, 0, max)
}

fn parse_unsigned_from(s: &str, start: usize, max: u64) -> (r: Option<u64>)
    requires
        start <= s@.len(),
    ensures
        r matches Some(v) ==> parse_unsigned(s@.skip(start as int), max as int) == Some(v as int),
        r is None ==> parse_unsigned(s@.skip(start as int), max as int) is None,
{
    let len = s.unicode_len();
    let ghost t = s@.skip(start as int);
    let from: usize = if start < len && s.get_char(start) == '+' { start + 1 } else { start };
    if start < len {
        assert(s@.skip(start + 1) =~= t.drop_first());
    }
    read_digits(s, from, max)
}

/// Reads the digits `s[a..b]` followed by the digits `s[f..c]` as one number, if it is at most
/// `u64::MAX`.
pub fn read_digits_of(s: &str, a: usize, b: usize, f: usize, c: usize) -> (r: Option<u64>)
    requires
        a <= b <= f <= c <= s@.len(),
        all_digits(s@.subrange(a as int, b as int) + s@.subrange(f as int, c as int)),
    ensures
        ({
            let t = s@.subrange(a as int, b as int) + s@.subrange(f as int, c as int);
            &&& r matches Some(v) ==> digits_value(t) == v
            &&& r is None ==> digits_value(t) > u64::MAX
        }),
{
    let ghost t = s@.subrange(a as int, b as int) + s@.subrange(f as int, c as int);
    let ip = b - a;
    let n = ip + (c - f);
    let mut acc: u64 = 0;
    let mut k: usize = 0;
    assert(t.take(0) =~= Seq::<char>::empty());
    while k < n
        invariant
            a <= b <= f <= c <= s@.len(),
            ip == b - a,
            n == ip + (c - f),
            n == t.len(),
            k <= n,
            t == s@.subrange(a as int, b as int) + s@.subrange(f as int, c as int),
            all_digits(t),
            acc == digits_value(t.take(k as int)),
        decreases n - k,
    {
        let ch = if k < ip { s.get_char(a + k) } else { s.get_char(f + (k - ip)) };
        assert(t[k as int] == ch);
        proof {
            lemma_digits_step(t, k as int);
        }
        assert(is_digit(t[k as int]));
        let dv: u64 = (ch as u64) - 48;
        if acc > (u64::MAX - dv) / 10 {
            proof {
                assert(acc * 10 + dv > u64::MAX) by (nonlinear_arith)
                    requires acc > (u64::MAX - dv) / 10, dv <= 9;
                lemma_digits_value_prefix(t, k + 1);
            }
            return None;
        }
        proof {
            assert(acc * 10 + dv <= u64::MAX) by (nonlinear_arith)
                requires acc <= (u64::MAX - dv) / 10, dv <= 9, acc >= 0;
        }
        acc = acc * 10 + dv;
        k = k + 1;
    }
    assert(t.take(n as int) =~= t);
    Some(acc)
}

/// Appends the decimal notation of `n`.
pub fn push_decimal(s: &mut String, n: u64)
    ensures
        final(s)@ == old(s)@ + decimal(n as nat),
    decreases n,
{
    if n >= 10 {
        push_decimal(s, n / 10);
    }
    let d = n % 10;
    let c: char = if d == 0 { '0' } else if d == 1 { '1' } else if d == 2 { '2' } else if d == 3 {
        '3'
    } else if d == 4 { '4' } else if d == 5 { '5' } else if d == 6 { '6' } else if d == 7 {
        '7'
    } else if d == 8 { '8' } else { '9' };
    assert(c == digit_char(d as int));
    s.push(c);
    proof {
        if n >= 10 {
            assert(decimal(n as nat) == decimal((n / 10) as nat).push(digit_char((n % 10) as int)));
        }
    }
}

/// Appends the signed decimal notation of `n`.
pub fn push_signed_decimal(s: &mut String, n: i64)
    ensures
        final(s)@ == old(s)@ + signed_decimal(n as int),
{
    if n < 0 {
        s.push('-');
        let m: u64 = if n == i64::MIN { (i64::MAX as u64) + 1 } else { (-n) as u64 };
        push_decimal(s, m);
    } else {
        push_decimal(s, n as u64);
    }
}

/// Whether two strings hold the same characters.
pub fn str_eq(a: &str, b: &str) -> (r: bool)
    ensures
        r == (a@ == b@),
{
    let la = a.unicode_len();
    let lb = b.unicode_len();
    if la != lb {
        return false;
    }
    let mut i: usize = 0;
    while i < la
        invariant
            la == a@.len(),
            lb == b@.len(),
            la == lb,
            i <= la,
            forall|j: int| 0 <= j < i ==> a@[j] == b@[j],
        decreases la - i,
    {
        if a.get_char(i) != b.get_char(i) {
            return false;
        }
        i = i + 1;
    }
    assert(a@ =~= b@);
    true
}

/// `s.replace(c, "")`.
pub fn remove_all(s: &str, c: char) -> (r: String)
    ensures
        r@ == remove_char(s@, c),
{
    let len = s.unicode_len();
    let mut r = String::new();
    let mut i: usize = 0;
    while i < len
        invariant
            len == s@.len(),
            i <= len,
            r@ == remove_char(s@.take(i as int), c),
        decreases len - i,
    {
        let x = s.get_char(i);
        assert(s@.take(i + 1).drop_last() =~= s@.take(i as int));
        if x != c {
            r.push(x);
        }
        i = i + 1;
    }
    assert(s@.take(len as int) =~= s@);
    r
}

/// Appends `s` with its single quotes doubled.
pub fn push_escaped(r: &mut String, s: &str)
    ensures
        final(r)@ == old(r)@ + escape_quotes(s@),
{
    let len = s.unicode_len();
    let mut i: usize = 0;
    while i < len
        invariant
            len == s@.len(),
            i <= len,
            r@ == old(r)@ + escape_quotes(s@.take(i as int)),
        decreases len - i,
    {
        let x = s.get_char(i);
        assert(s@.take(i + 1).drop_last() =~= s@.take(i as int));
        if x == '\'' {
            r.push('\'');
            r.push('\'');
        } else {
            r.push(x);
        }
        i = i + 1;
    }
    assert(s@.take(len as int) =~= s@);
}

/// `s.to_ascii_lowercase()`.
pub fn to_ascii_lowercase(s: &str) -> (r: String)
    ensures
        r@ == ascii_lower(s@),
{
    let len = s.unicode_len();
    let mut r = String::new();
    let mut i: usize = 0;
    while i < len
        invariant
            len == s@.len(),
            i <= len,
            r@ == ascii_lower(s@.take(i as int)),
        decreases len - i,
    {
        let x = s.get_char(i);
        let y = if 'A' <= x && x <= 'Z' {
            char_add_32(x)
        } else {
            x
        };
        r.push(y);
        assert(ascii_lower(s@.take(i + 1)) =~= ascii_lower(s@.take(i as int)).push(y));
        i = i + 1;
    }
    assert(s@.take(len as int) =~= s@);
    r
}

fn char_add_32(x: char) -> (y: char)
    requires
        'A' <= x <= 'Z',
    ensures
        y == ascii_lower_char(x),
{
    let u: u32 = (x as u32) + 32;
    if u == 97 { 'a' } else if u == 98 { 'b' } else if u == 99 { 'c' } else if u == 100 { 'd' }
    else if u == 101 { 'e' } else if u == 102 { 'f' } else if u == 103 { 'g' } else if u == 104 { 'h' }
    else if u == 105 { 'i' } else if u == 106 { 'j' } else if u == 107 { 'k' } else if u == 108 { 'l' }
    else if u == 109 { 'm' } else if u == 110 { 'n' } else if u == 111 { 'o' } else if u == 112 { 'p' }
    else if u == 113 { 'q' } else if u == 114 { 'r' } else if u == 115 { 's' } else if u == 116 { 't' }
    else if u == 117 { 'u' } else if u == 118 { 'v' } else if u == 119 { 'w' } else if u == 120 { 'x' }
    else if u == 121 { 'y' } else { 'z' }
}

/// Escaping distributes over a split into a first character and the rest.
proof fn lemma_escape_cons(c: char, s: Seq<char>)
    ensures
        escape_quotes(seq![c] + s) == (if c == '\'' { seq!['\'', '\''] } else { seq![c] })
            + escape_quotes(s),
    decreases s.len(),
{
    if s.len() == 0 {
        assert((seq![c] + s) =~= seq![c]);
        assert(seq![c].drop_last() =~= Seq::<char>::empty());
        assert(escape_quotes(s) =~= Seq::<char>::empty());
        let e = escape_quotes(Seq::<char>::empty());
        assert(e + seq!['\'', '\''] =~= seq!['\'', '\'']);
        assert(e.push(c) =~= seq![c]);
        let h = if c == '\'' { seq!['\'', '\''] } else { seq![c] };
        assert(h + Seq::<char>::empty() =~= h);
    } else {
        let t = seq![c] + s;
        assert(t.drop_last() =~= seq![c] + s.drop_last());
        assert(t.last() == s.last());
        lemma_escape_cons(c, s.drop_last());
        if s.last() == '\'' {
            assert((if c == '\'' { seq!['\'', '\''] } else { seq![c] }) + escape_quotes(s.drop_last()) + seq!['\'', '\'']
                =~= (if c == '\'' { seq!['\'', '\''] } else { seq![c] }) + (escape_quotes(s.drop_last()) + seq!['\'', '\'']));
        } else {
            assert(((if c == '\'' { seq!['\'', '\''] } else { seq![c] }) + escape_quotes(s.drop_last())).push(s.last())
                =~= (if c == '\'' { seq!['\'', '\''] } else { seq![c] }) + escape_quotes(s.drop_last()).push(s.last()));
        }
    }
}

/// Doubling every quote and reading the doubled quotes back gives the same text again.
pub proof fn lemma_unescape_escape(s: Seq<char>)
    ensures
        unescape_quotes(escape_quotes(s)) == s,
    decreases s.len(),
{
    if s.len() > 0 {
        let c = s[0];
        let rest = s.drop_first();
        assert(s =~= seq![c] + rest);
        lemma_escape_cons(c, rest);
        lemma_unescape_escape(rest);
        let e = escape_quotes(rest);
        if c == '\'' {
            let t = seq!['\'', '\''] + e;
            assert(t.skip(2) =~= e);
        } else {
            let t = seq![c] + e;
            assert(t.drop_first() =~= e);
        }
    }
}

/// How SQL reads a quoted string whose opening quote stands just before `s`: the characters up
/// to the first quote that is not doubled, each doubled quote read as one quote, and what
/// follows that closing quote. `None` where the string is never closed.
pub open spec fn sql_quoted(s: Seq<char>) -> Option<(Seq<char>, Seq<char>)>
    decreases s.len(),
{
    if s.len() == 0 {
        None
    } else if s[0] == '\'' {
        if s.len() >= 2 && s[1] == '\'' {
            match sql_quoted(s.skip(2)) {
                Some((v, rest)) => Some((seq!['\''] + v, rest)),
                None => None,
            }
        } else {
            Some((Seq::<char>::empty(), s.skip(1)))
        }
    } else {
        match sql_quoted(s.drop_first()) {
            Some((v, rest)) => Some((seq![s[0]] + v, rest)),
            None => None,
        }
    }
}

/// A text written with its quotes doubled and closed by a quote is read by SQL as the text,
/// with reading going on after the closing quote, where no quote follows it.
pub proof fn lemma_sql_reads_escaped(t: Seq<char>, rest: Seq<char>)
    requires
        rest.len() == 0 || rest[0] != '\'',
    ensures
        sql_quoted(escape_quotes(t) + seq!['\''] + rest) == Some((t, rest)),
    decreases t.len(),
{
    if t.len() == 0 {
        assert(escape_quotes(t) =~= Seq::<char>::empty());
        let s = escape_quotes(t) + seq!['\''] + rest;
        assert(s =~= seq!['\''] + rest);
        assert(s.skip(1) =~= rest);
    } else {
        let c = t[0];
        let u = t.drop_first();
        assert(t =~= seq![c] + u);
        lemma_escape_cons(c, u);
        lemma_sql_reads_escaped(u, rest);
        let tail = escape_quotes(u) + seq!['\''] + rest;
        if c == '\'' {
            let s = seq!['\'', '\''] + tail;
            assert(escape_quotes(t) + seq!['\''] + rest =~= s);
            assert(s.skip(2) =~= tail);
        } else {
            let s = seq![c] + tail;
            assert(escape_quotes(t) + seq!['\''] + rest =~= s);
            assert(s.drop_first() =~= tail);
        }
    }
}

} // verus!
