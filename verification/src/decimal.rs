//! Decimal text for unsigned integers: the fixed-width and the shortest
//! renderings used in file names and messages, and the parser that file
//! names are read back with; and the fixed-width hexadecimal rendering used
//! in messages.
use vstd::prelude::*;
use vstd::string::StrSliceExecFns;

verus! {

/// The ASCII digit for `d` (`d < 10`).
pub open spec fn digit_char(d: nat) -> char {
    ((d + 48) as u32) as char
}

pub open spec fn is_digit(c: char) -> bool {
    '0' <= c && c <= '9'
}

pub open spec fn digit_value(c: char) -> nat {
    ((c as u32) - 48) as nat
}

/// The `k` least significant decimal digits of `n`, most significant first.
pub open spec fn fixed_digits(n: nat, k: nat) -> Seq<char>
    decreases k,
{
    if k == 0 {
        Seq::empty()
    } else {
        fixed_digits(n / 10, (k - 1) as nat).push(digit_char(n % 10))
    }
}

/// How many digits `n` has when written without leading zeros.
pub open spec fn num_digits(n: nat) -> nat
    decreases n,
{
    if n < 10 {
        1
    } else {
        1 + num_digits(n / 10)
    }
}

/// `n` written in decimal without leading zeros.
pub open spec fn decimal(n: nat) -> Seq<char> {
    fixed_digits(n, num_digits(n))
}

pub open spec fn all_digits(s: Seq<char>) -> bool {
    forall|i: int| 0 <= i < s.len() ==> is_digit(#[trigger] s[i])
}

/// The number that the digit string `s` denotes.
pub open spec fn digits_value(s: Seq<char>) -> nat
    decreases s.len(),
{
    if s.len() == 0 {
        0
    } else {
        digits_value(s.drop_last()) * 10 + digit_value(s.last())
    }
}

/// What `u64::from_str_radix(s, 10)` accepts: an optional `+` followed by
/// at least one digit, denoting a value that fits in 64 bits.
pub open spec fn parse_u64_spec(s: Seq<char>) -> Option<u64> {
    if s.len() == 0 {
        None
    } else if (s[0] == '+' || s[0] == '-') && s.len() == 1 {
        None
    } else {
        let body = if s[0] == '+' { s.drop_first() } else { s };
        if all_digits(body) && digits_value(body) <= u64::MAX {
            Some(digits_value(body) as u64)
        } else {
            None
        }
    }
}

pub open spec fn pow10(k: nat) -> nat
    decreases k,
{
    if k == 0 {
        1
    } else {
        10 * pow10((k - 1) as nat)
    }
}

/// `fixed_digits(n, k)` has `k` characters.
pub proof fn lemma_fixed_digits_len(n: nat, k: nat)
    ensures
        fixed_digits(n, k).len() == k,
{
    lemma_fixed_digits_props(n, k);
}

proof fn lemma_fixed_digits_props(n: nat, k: nat)
    ensures
        fixed_digits(n, k).len() == k,
        all_digits(fixed_digits(n, k)),
        digits_value(fixed_digits(n, k)) == n % pow10(k),
    decreases k,
{
    if k > 0 {
        lemma_fixed_digits_props(n / 10, (k - 1) as nat);
        let s = fixed_digits(n, k);
        assert(s.drop_last() =~= fixed_digits(n / 10, (k - 1) as nat));
        let p = pow10((k - 1) as nat);
        assert(p >= 1) by {
            lemma_pow10_pos((k - 1) as nat);
        }
        assert((n / 10) % p * 10 + n % 10 == n % (10 * p)) by {
            lemma_mod_shift(n, p);
        }
    }
}

proof fn lemma_pow10_pos(k: nat)
    ensures
        pow10(k) >= 1,
    decreases k,
{
    if k > 0 {
        lemma_pow10_pos((k - 1) as nat);
    }
}

proof fn lemma_mod_shift(n: nat, p: nat)
    requires
        p >= 1,
    ensures
        (n / 10) % p * 10 + n % 10 == n % (10 * p),
{
    let q = n / 10;
    let r = n % 10;
    assert(n == 10 * q + r) by (nonlinear_arith)
        requires
            q == n / 10,
            r == n % 10,
    ;
    let a = q / p;
    let b = q % p;
    assert(q == p * a + b && b < p) by (nonlinear_arith)
        requires
            p >= 1,
            a == q / p,
            b == q % p,
    ;
    assert(n == (10 * p) * a + (b * 10 + r)) by (nonlinear_arith)
        requires
            n == 10 * q + r,
            q == p * a + b,
    ;
    assert(b * 10 + r < 10 * p) by (nonlinear_arith)
        requires
            b < p,
            r < 10,
    ;
    assert(n == a * (10 * p) + (b * 10 + r)) by (nonlinear_arith)
        requires
            n == (10 * p) * a + (b * 10 + r),
    ;
    vstd::arithmetic::div_mod::lemma_fundamental_div_mod_converse(
        n as int,
        (10 * p) as int,
        a as int,
        (b * 10 + r) as int,
    );
}

/// Reading back `k` digits of `n` gives `n`, whenever `n` has at most `k` digits.
pub proof fn lemma_parse_fixed_digits(n: u64, k: nat)
    requires
        k >= 1,
        n < pow10(k),
    ensures
        parse_u64_spec(fixed_digits(n as nat, k)) == Some(n),
{
    lemma_fixed_digits_props(n as nat, k);
    let s = fixed_digits(n as nat, k);
    assert(is_digit(s[0]));
    vstd::arithmetic::div_mod::lemma_small_mod(n as nat, pow10(k));
}

proof fn lemma_num_digits_bound(n: nat)
    ensures
        num_digits(n) >= 1,
        n < pow10(num_digits(n)),
    decreases n,
{
    reveal_with_fuel(pow10, 2);
    if n >= 10 {
        lemma_num_digits_bound(n / 10);
        let p = pow10(num_digits(n / 10));
        assert(pow10(num_digits(n)) == 10 * p);
        assert(n < 10 * p) by (nonlinear_arith)
            requires
                n / 10 < p,
        ;
    }
}

/// Reading back the shortest rendering of `n` gives `n`.
pub proof fn lemma_parse_decimal(n: u64)
    ensures
        parse_u64_spec(decimal(n as nat)) == Some(n),
{
    lemma_num_digits_bound(n as nat);
    lemma_parse_fixed_digits(n, num_digits(n as nat));
}

/// Every `u64` has at most 20 decimal digits.
pub proof fn lemma_u64_fits_20_digits(n: u64)
    ensures
        n < pow10(20),
{
    reveal_with_fuel(pow10, 21);
    assert(pow10(20) == 100000000000000000000);
}

proof fn lemma_num_digits_le(n: nat, k: nat)
    requires
        n < pow10(k),
        k >= 1,
    ensures
        num_digits(n) <= k,
    decreases k,
{
    if n >= 10 {
        assert(n / 10 < pow10((k - 1) as nat)) by (nonlinear_arith)
            requires
                n < pow10(k),
                pow10(k) == 10 * pow10((k - 1) as nat),
        ;
        if k == 1 {
            assert(pow10(1) == 10) by {
                reveal_with_fuel(pow10, 2);
            }
        } else {
            lemma_num_digits_le(n / 10, (k - 1) as nat);
        }
    }
}

fn digit_str(d: u64) -> (r: &'static str)
    requires
        d < 10,
    ensures
        r@ == seq![digit_char(d as nat)],
{
    proof {
        reveal_strlit("0");
        reveal_strlit("1");
        reveal_strlit("2");
        reveal_strlit("3");
        reveal_strlit("4");
        reveal_strlit("5");
        reveal_strlit("6");
        reveal_strlit("7");
        reveal_strlit("8");
        reveal_strlit("9");
    }
    match d {
        0 => "0",
        1 => "1",
        2 => "2",
        3 => "3",
        4 => "4",
        5 => "5",
        6 => "6",
        7 => "7",
        8 => "8",
        _ => "9",
    }
}

/// The `k` least significant decimal digits of `n`, zero padded on the left
/// (what `format!("{:0k$}", n)` gives when `n` has at most `k` digits).
pub fn fixed_width_decimal(n: u64, k: usize) -> (s: String)
    ensures
        s@ == fixed_digits(n as nat, k as nat),
    decreases k,
{
    if k == 0 {
        String::new()
    } else {
        let mut s = fixed_width_decimal(n / 10, k - 1);
        let d = digit_str(n % 10);
        s.append(d);
        assert(s@ =~= fixed_digits(n as nat, k as nat));
        s
    }
}

/// `n` written in decimal without leading zeros (what `n.to_string()` gives).
pub fn decimal_string(n: u64) -> (s: String)
    ensures
        s@ == decimal(n as nat),
{
    proof {
        lemma_u64_fits_20_digits(n);
        lemma_num_digits_le(n as nat, 20);
    }
    let mut k: usize = 1;
    let mut m: u64 = n;
    while m >= 10
        invariant
            1 <= k <= 20,
            num_digits(n as nat) == k - 1 + num_digits(m as nat),
            num_digits(n as nat) <= 20,
            m <= n,
        decreases m,
    {
        proof {
            lemma_num_digits_bound((m / 10) as nat);
        }
        m = m / 10;
        k = k + 1;
    }
    fixed_width_decimal(n, k)
}

/// `u64::from_str_radix(s, 10)`, as an `Option`.
pub fn parse_u64(s: &str) -> (r: Option<u64>)
    ensures
        r == parse_u64_spec(s@),
{
    let len = s.unicode_len();
    if len == 0 {
        return None;
    }
    let c0 = s.get_char(0);
    if (c0 == '+' || c0 == '-') && len == 1 {
        return None;
    }
    let start: usize = if c0 == '+' { 1 } else { 0 };
    let ghost body = if c0 == '+' { s@.drop_first() } else { s@ };
    let mut acc: u64 = 0;
    let mut i: usize = start;
    while i < len
        invariant
            start <= i <= len,
            len == s@.len(),
            start == 0 || start == 1,
            body == s@.subrange(start as int, len as int),
            s@.len() > 0,
            !((s@[0] == '+' || s@[0] == '-') && s@.len() == 1),
            body == (if s@[0] == '+' { s@.drop_first() } else { s@ }),
            all_digits(body.take(i - start)),
            acc == digits_value(body.take(i - start)),
        decreases len - i,
    {
        let c = s.get_char(i);
        assert(body[i - start] == c);
        if !(c >= '0' && c <= '9') {
            assert(!is_digit(body[i - start]));
            assert(!all_digits(body));
            return None;
        }
        let d = (c as u32 - 48) as u64;
        let ghost pre = body.take(i - start);
        let ghost next = body.take(i - start + 1);
        assert(next.drop_last() =~= pre);
        assert(next.last() == c);
        assert(digits_value(next) == acc * 10 + d);
        match acc.checked_mul(10) {
            None => {
                proof {
                    lemma_value_prefix_monotone(body, (i - start + 1) as nat);
                }
                return None;
            }
            Some(m) => match m.checked_add(d) {
                None => {
                    proof {
                        lemma_value_prefix_monotone(body, (i - start + 1) as nat);
                    }
                    return None;
                }
                Some(v) => {
                    acc = v;
                }
            },
        }
        i = i + 1;
    }
    assert(body.take(len - start) =~= body);
    Some(acc)
}

proof fn lemma_value_prefix_monotone(s: Seq<char>, j: nat)
    requires
        j <= s.len(),
    ensures
        digits_value(s.take(j as int)) <= digits_value(s),
    decreases s.len() - j,
{
    if j < s.len() {
        lemma_value_prefix_monotone(s, j + 1);
        assert(s.take(j + 1 as int).drop_last() =~= s.take(j as int));
    } else {
        assert(s.take(j as int) =~= s);
    }
}

/// The lowercase hexadecimal digit for `d` (`d < 16`).
pub open spec fn hex_char(d: nat) -> char {
    if d < 10 {
        digit_char(d)
    } else {
        ((d + 87) as u32) as char
    }
}

/// The `k` least significant hexadecimal digits of `n`, most significant
/// first.
pub open spec fn hex_digits(n: nat, k: nat) -> Seq<char>
    decreases k,
{
    if k == 0 {
        Seq::empty()
    } else {
        hex_digits(n / 16, (k - 1) as nat).push(hex_char(n % 16))
    }
}

fn hex_str(d: u32) -> (r: &'static str)
    requires
        d < 16,
    ensures
        r@ == seq![hex_char(d as nat)],
{
    proof {
        reveal_strlit("0");
        reveal_strlit("1");
        reveal_strlit("2");
        reveal_strlit("3");
        reveal_strlit("4");
        reveal_strlit("5");
        reveal_strlit("6");
        reveal_strlit("7");
        reveal_strlit("8");
        reveal_strlit("9");
        reveal_strlit("a");
        reveal_strlit("b");
        reveal_strlit("c");
        reveal_strlit("d");
        reveal_strlit("e");
        reveal_strlit("f");
    }
    match d {
        0 => "0",
        1 => "1",
        2 => "2",
        3 => "3",
        4 => "4",
        5 => "5",
        6 => "6",
        7 => "7",
        8 => "8",
        9 => "9",
        10 => "a",
        11 => "b",
        12 => "c",
        13 => "d",
        14 => "e",
        _ => "f",
    }
}

fn fixed_width_hex(n: u32, k: usize) -> (s: String)
    ensures
        s@ == hex_digits(n as nat, k as nat),
    decreases k,
{
    if k == 0 {
        String::new()
    } else {
        let mut s = fixed_width_hex(n / 16, k - 1);
        let d = hex_str(n % 16);
        s.append(d);
        assert(s@ =~= hex_digits(n as nat, k as nat));
        s
    }
}

/// `n` as eight lowercase hexadecimal digits (what `format!("{:08x}", n)`
/// gives).
pub fn hex8(n: u32) -> (s: String)
    ensures
        s@ == hex_digits(n as nat, 8),
{
    fixed_width_hex(n, 8)
}

} // verus!
