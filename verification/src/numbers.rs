use vstd::prelude::*;
use vstd::string::StrSliceExecFns;

verus! {

/// True for the ASCII decimal digits.
pub open spec fn is_digit(c: char) -> bool {
    '0' <= c && c <= '9'
}

pub open spec fn all_digits(s: Seq<char>) -> bool {
    forall|i: int| 0 <= i < s.len() ==> is_digit(#[trigger] s[i])
}

/// The integer denoted by a run of decimal digits, most significant first.
pub open spec fn digits_val(s: Seq<char>) -> int
    decreases s.len(),
{
    if s.len() == 0 {
        0
    } else {
        digits_val(s.drop_last()) * 10 + (s.last() as int - '0' as int)
    }
}

pub proof fn lemma_digits_val_nonneg(s: Seq<char>)
    requires
        all_digits(s),
    ensures
        digits_val(s) >= 0,
    decreases s.len(),
{
    if s.len() > 0 {
        assert(all_digits(s.drop_last())) by {
            assert(forall|i: int|
                0 <= i < s.len() - 1 ==> is_digit(#[trigger] s.drop_last()[i]) == is_digit(s[i]));
        }
        lemma_digits_val_nonneg(s.drop_last());
    }
}

/// A digit run denotes at least as much as any of its prefixes.
pub proof fn lemma_digits_val_take_le(s: Seq<char>, j: int)
    requires
        all_digits(s),
        0 <= j <= s.len(),
    ensures
        digits_val(s.take(j)) <= digits_val(s),
    decreases s.len(),
{
    if j < s.len() {
        assert(all_digits(s.drop_last())) by {
            assert(forall|i: int|
                0 <= i < s.len() - 1 ==> is_digit(#[trigger] s.drop_last()[i]) == is_digit(s[i]));
        }
        assert(s.take(j) =~= s.drop_last().take(j));
        lemma_digits_val_take_le(s.drop_last(), j);
        lemma_digits_val_nonneg(s.drop_last());
        assert(is_digit(s.last()));
    } else {
        assert(s.take(j) =~= s);
    }
}

/// What `str::parse::<i32>` returns: an optional sign, then one or more
/// decimal digits denoting a value within the `i32` range; anything else
/// (or an out-of-range value) is rejected.
pub open spec fn spec_parse_i32(s: Seq<char>) -> Option<i32> {
    if s.len() == 0 {
        None
    } else {
        let neg = s[0] == '-';
        let ds = if s[0] == '-' || s[0] == '+' {
            s.skip(1)
        } else {
            s
        };
        if ds.len() == 0 || !all_digits(ds) {
            None
        } else {
            let v = digits_val(ds);
            if neg {
                if v <= 0x8000_0000 {
                    Some((-v) as i32)
                } else {
                    None
                }
            } else {
                if v <= 0x7fff_ffff {
                    Some(v as i32)
                } else {
                    None
                }
            }
        }
    }
}

/// Parses a string as a decimal `i32`, as `spec_parse_i32` describes.
pub fn parse_i32(s: &str) -> (r: Option<i32>)
    ensures
        r == spec_parse_i32(s@),
{
    let n = s.unicode_len();
    if n == 0 {
        return None;
    }
    let c0 = s.get_char(0);
    let neg = c0 == '-';
    let start: usize = if c0 == '-' || c0 == '+' {
        1
    } else {
        0
    };
    let ghost ds = if c0 == '-' || c0 == '+' {
        s@.skip(1)
    } else {
        s@
    };
    if start == n {
        return None;
    }
    let mut i = start;
    let mut acc: u64 = 0;
    while i < n
        invariant
            n == s@.len(),
            1 <= n,
            start <= i <= n,
            start < n,
            start <= 1,
            (start == 1) == (s@[0] == '-' || s@[0] == '+'),
            neg == (s@[0] == '-'),
            ds =~= s@.skip(start as int),
            all_digits(ds.take(i - start)),
            acc == digits_val(ds.take(i - start)),
            acc <= 0x8000_0000,
        decreases n - i,
    {
        let c = s.get_char(i);
        if c < '0' || c > '9' {
            proof {
                assert(ds[i - start] == s@[i as int]);
                assert(!all_digits(ds));
            }
            return None;
        }
        let d = (c as u32 - '0' as u32) as u64;
        acc = acc * 10 + d;
        proof {
            assert(ds.take(i + 1 - start).drop_last() =~= ds.take(i - start));
            assert(ds.take(i + 1 - start).last() == s@[i as int]);
        }
        if acc > 0x8000_0000 {
            proof {
                assert(s@.skip(0) =~= s@);
                assert(acc == digits_val(ds.take(i + 1 - start)));
                if all_digits(ds) {
                    lemma_digits_val_take_le(ds, i + 1 - start);
                    assert(digits_val(ds) > 0x8000_0000);
                }
                assert(spec_parse_i32(s@) is None);
            }
            return None;
        }
        i = i + 1;
    }
    proof {
        assert(ds.take(n - start) =~= ds);
    }
    if neg {
        Some((0i64 - acc as i64) as i32)
    } else {
        if acc > 0x7fff_ffff {
            None
        } else {
            Some(acc as i32)
        }
    }
}

/// What `str::parse::<u64>` returns: an optional `+` sign, then one or more
/// decimal digits denoting a value that fits in a `u64`.
pub open spec fn spec_parse_u64(s: Seq<char>) -> Option<u64> {
    if s.len() == 0 {
        None
    } else {
        let ds = if s[0] == '+' {
            s.skip(1)
        } else {
            s
        };
        if ds.len() == 0 || !all_digits(ds) {
            None
        } else {
            let v = digits_val(ds);
            if v <= u64::MAX {
                Some(v as u64)
            } else {
                None
            }
        }
    }
}

/// Parses a string as a decimal `u64`, as `spec_parse_u64` describes.
pub fn parse_u64(s: &str) -> (r: Option<u64>)
    ensures
        r == spec_parse_u64(s@),
{
    let n = s.unicode_len();
    if n == 0 {
        return None;
    }
    let c0 = s.get_char(0);
    let start: usize = if c0 == '+' {
        1
    } else {
        0
    };
    let ghost ds = if c0 == '+' {
        s@.skip(1)
    } else {
        s@
    };
    if start == n {
        return None;
    }
    let mut i = start;
    let mut acc: u64 = 0;
    while i < n
        invariant
            n == s@.len(),
            1 <= n,
            start <= i <= n,
            start < n,
            start <= 1,
            (start == 1) == (s@[0] == '+'),
            ds =~= s@.skip(start as int),
            all_digits(ds.take(i - start)),
            acc == digits_val(ds.take(i - start)),
        decreases n - i,
    {
        let c = s.get_char(i);
        if c < '0' || c > '9' {
            proof {
                assert(ds[i - start] == s@[i as int]);
                assert(!all_digits(ds));
            }
            return None;
        }
        let d = (c as u32 - '0' as u32) as u64;
        let wide: u128 = acc as u128 * 10 + d as u128;
        proof {
            assert(ds.take(i + 1 - start).drop_last() =~= ds.take(i - start));
            assert(ds.take(i + 1 - start).last() == s@[i as int]);
        }
        if wide > u64::MAX as u128 {
            proof {
                assert(s@.skip(0) =~= s@);
                assert(wide == digits_val(ds.take(i + 1 - start)));
                if all_digits(ds) {
                    lemma_digits_val_take_le(ds, i + 1 - start);
                    assert(digits_val(ds) > u64::MAX);
                }
                assert(spec_parse_u64(s@) is None);
            }
            return None;
        }
        acc = wide as u64;
        i = i + 1;
    }
    proof {
        assert(ds.take(n - start) =~= ds);
    }
    Some(acc)
}

} // verus!

verus! {

/// Ten to the power `k`.
pub open spec fn pow10(k: nat) -> int
    decreases k,
{
    if k == 0 {
        1
    } else {
        10 * pow10((k - 1) as nat)
    }
}

pub proof fn lemma_pow10_pos(k: nat)
    ensures
        pow10(k) >= 1,
    decreases k,
{
    if k > 0 {
        lemma_pow10_pos((k - 1) as nat);
    }
}

pub proof fn lemma_pow10_mono(j: nat, k: nat)
    requires
        j <= k,
    ensures
        pow10(j) <= pow10(k),
    decreases k,
{
    if j < k {
        lemma_pow10_mono(j, (k - 1) as nat);
        lemma_pow10_pos((k - 1) as nat);
    }
}

pub proof fn lemma_pow10_18()
    ensures
        pow10(18) == 1_000_000_000_000_000_000,
{
    reveal_with_fuel(pow10, 20);
}

/// A decimal number with at most eighteen significant digits and at most
/// eighteen fractional digits: the value is `mant / 10^scale`, negated when
/// `neg` holds. Strings outside this range are treated as non-numeric.
#[derive(Debug, Clone, Copy, PartialEq, Eq, Structural)]
pub struct Dec {
    pub neg: bool,
    pub mant: u64,
    pub scale: u32,
}

pub open spec fn dec_wf(d: Dec) -> bool {
    d.mant < pow10(18) && d.scale <= 18
}

/// The value of `d` scaled to eighteen fractional digits, as an integer.
pub open spec fn val18(d: Dec) -> int {
    (if d.neg {
        -1
    } else {
        1
    }) * d.mant * pow10((18 - d.scale) as nat)
}

pub open spec fn has_dot(s: Seq<char>) -> bool {
    exists|i: int| 0 <= i < s.len() && s[i] == '.'
}

pub open spec fn first_dot(s: Seq<char>) -> int {
    choose|i: int| 0 <= i < s.len() && s[i] == '.' && forall|j: int| 0 <= j < i ==> s[j] != '.'
}

pub proof fn lemma_first_dot(s: Seq<char>)
    requires
        has_dot(s),
    ensures
        0 <= first_dot(s) < s.len(),
        s[first_dot(s)] == '.',
        forall|j: int| 0 <= j < first_dot(s) ==> s[j] != '.',
    decreases s.len(),
{
    let w = choose|i: int| 0 <= i < s.len() && s[i] == '.';
    if s[0] == '.' {
        assert(0 <= 0 < s.len() && s[0] == '.' && forall|j: int| 0 <= j < 0 ==> s[j] != '.');
    } else {
        assert(has_dot(s.skip(1))) by {
            assert(s.skip(1)[w - 1] == '.');
        }
        lemma_first_dot(s.skip(1));
        let f = first_dot(s.skip(1));
        assert(s[f + 1] == '.');
        assert(forall|j: int| 1 <= j < f + 1 ==> s[j] == s.skip(1)[j - 1]);
        assert(0 <= f + 1 < s.len() && s[f + 1] == '.' && forall|j: int|
            0 <= j < f + 1 ==> s[j] != '.');
    }
}

/// The decimal number a string denotes, if any: an optional sign, then
/// decimal digits with at most one dot among them and at least one digit,
/// within the range of `Dec`. Anything else denotes nothing.
pub open spec fn spec_dec_of(s: Seq<char>) -> Option<Dec> {
    if s.len() == 0 {
        None
    } else {
        let neg = s[0] == '-';
        let b = if s[0] == '-' || s[0] == '+' {
            s.skip(1)
        } else {
            s
        };
        if has_dot(b) {
            let k = first_dot(b);
            let digits = b.take(k) + b.skip(k + 1);
            if all_digits(digits) && digits.len() >= 1 && b.len() - k - 1 <= 18 && digits_val(
                digits,
            ) < pow10(18) {
                Some(
                    Dec {
                        neg,
                        mant: digits_val(digits) as u64,
                        scale: (b.len() - k - 1) as u32,
                    },
                )
            } else {
                None
            }
        } else {
            if b.len() >= 1 && all_digits(b) && digits_val(b) < pow10(18) {
                Some(Dec { neg, mant: digits_val(b) as u64, scale: 0 })
            } else {
                None
            }
        }
    }
}

pub proof fn lemma_spec_dec_wf(s: Seq<char>)
    ensures
        spec_dec_of(s) is Some ==> dec_wf(spec_dec_of(s)->Some_0),
{
    if spec_dec_of(s) is Some {
        lemma_pow10_18();
        let b = if s[0] == '-' || s[0] == '+' {
            s.skip(1)
        } else {
            s
        };
        if has_dot(b) {
            lemma_first_dot(b);
            let k = first_dot(b);
            lemma_digits_val_nonneg(b.take(k) + b.skip(k + 1));
        } else {
            lemma_digits_val_nonneg(b);
        }
    }
}

} // verus!
verus! {

/// Splitting a digit run: the left block counts for ten to the length of
/// the right block.
pub proof fn lemma_digits_val_concat(a: Seq<char>, b: Seq<char>)
    ensures
        digits_val(a + b) == digits_val(a) * pow10(b.len()) + digits_val(b),
    decreases b.len(),
{
    if b.len() == 0 {
        assert(a + b =~= a);
    } else {
        lemma_digits_val_concat(a, b.drop_last());
        assert((a + b).drop_last() =~= a + b.drop_last());
        assert((a + b).last() == b.last());
        assert(digits_val(a) * pow10((b.len() - 1) as nat) * 10 == digits_val(a) * pow10(
            b.len(),
        )) by (nonlinear_arith)
            requires
                pow10(b.len()) == 10 * pow10((b.len() - 1) as nat),
        ;
    }
}

/// A run of `k` digits denotes less than ten to the `k`.
pub proof fn lemma_digits_val_upper(s: Seq<char>)
    requires
        all_digits(s),
    ensures
        digits_val(s) < pow10(s.len()),
    decreases s.len(),
{
    if s.len() == 0 {
    } else {
        assert(all_digits(s.drop_last())) by {
            assert(forall|i: int|
                0 <= i < s.len() - 1 ==> is_digit(#[trigger] s.drop_last()[i]) == is_digit(s[i]));
        }
        lemma_digits_val_upper(s.drop_last());
        assert(digits_val(s.drop_last()) * 10 <= (pow10((s.len() - 1) as nat) - 1) * 10)
            by (nonlinear_arith)
            requires
                digits_val(s.drop_last()) <= pow10((s.len() - 1) as nat) - 1,
        ;
    }
}

/// The position of the first `.` at or after `from`, if any.
pub fn find_dot(s: &str, from: usize) -> (r: Option<usize>)
    requires
        from <= s@.len(),
    ensures
        match r {
            Some(k) => {
                &&& from <= k < s@.len()
                &&& s@[k as int] == '.'
                &&& forall|j: int| from <= j < k ==> s@[j] != '.'
            },
            None => forall|j: int| from <= j < s@.len() ==> s@[j] != '.',
        },
{
    let n = s.unicode_len();
    let mut i = from;
    while i < n
        invariant
            n == s@.len(),
            from <= i <= n,
            forall|j: int| from <= j < i ==> s@[j] != '.',
        decreases n - i,
    {
        if s.get_char(i) == '.' {
            return Some(i);
        }
        i = i + 1;
    }
    None
}

/// The value of the digit run `s[from..to)`, when every character there is a
/// digit and the value stays under ten to the eighteenth; `None` otherwise.
pub fn digits_value(s: &str, from: usize, to: usize) -> (r: Option<u64>)
    requires
        from <= to <= s@.len(),
    ensures
        r is Some <==> (all_digits(s@.subrange(from as int, to as int)) && digits_val(
            s@.subrange(from as int, to as int),
        ) < pow10(18)),
        r is Some ==> r->Some_0 == digits_val(s@.subrange(from as int, to as int)),
{
    proof {
        lemma_pow10_18();
    }
    let ghost sub = s@.subrange(from as int, to as int);
    let mut i = from;
    let mut acc: u64 = 0;
    while i < to
        invariant
            from <= i <= to <= s@.len(),
            sub =~= s@.subrange(from as int, to as int),
            all_digits(sub.take(i - from)),
            acc == digits_val(sub.take(i - from)),
            acc < 1_000_000_000_000_000_000u64,
            pow10(18) == 1_000_000_000_000_000_000,
        decreases to - i,
    {
        let c = s.get_char(i);
        if c < '0' || c > '9' {
            proof {
                assert(sub[i - from] == s@[i as int]);
            }
            return None;
        }
        let d = (c as u32 - '0' as u32) as u64;
        acc = acc * 10 + d;
        proof {
            assert(sub.take(i + 1 - from).drop_last() =~= sub.take(i - from));
            assert(sub.take(i + 1 - from).last() == s@[i as int]);
        }
        if acc >= 1_000_000_000_000_000_000u64 {
            proof {
                if all_digits(sub) {
                    lemma_digits_val_take_le(sub, i + 1 - from);
                }
            }
            return None;
        }
        i = i + 1;
    }
    proof {
        assert(sub.take(to - from) =~= sub);
    }
    Some(acc)
}

/// Ten to the power `k`, executably.
pub fn pow10_u64(k: u32) -> (r: u64)
    requires
        k <= 18,
    ensures
        r == pow10(k as nat),
{
    proof {
        lemma_pow10_18();
    }
    let mut r: u64 = 1;
    let mut j: u32 = 0;
    while j < k
        invariant
            j <= k <= 18,
            r == pow10(j as nat),
            pow10(18) == 1_000_000_000_000_000_000,
        decreases k - j,
    {
        proof {
            lemma_pow10_mono((j + 1) as nat, 18);
        }
        r = r * 10;
        j = j + 1;
    }
    r
}

/// Parses a decimal number that contains a dot at position `di`.
#[verifier::rlimit(100)]
fn parse_dec_with_dot(s: &str, start: usize, neg: bool, di: usize) -> (r: Option<Dec>)
    requires
        1 <= s@.len(),
        start <= 1,
        (start == 1) == (s@[0] == '-' || s@[0] == '+'),
        neg == (s@[0] == '-'),
        start <= di < s@.len(),
        s@[di as int] == '.',
        forall|j: int| start <= j < di ==> s@[j] != '.',
    ensures
        r == spec_dec_of(s@),
{
    let n = s.unicode_len();
    let ghost b = if s@[0] == '-' || s@[0] == '+' {
        s@.skip(1)
    } else {
        s@
    };
    proof {
        lemma_pow10_18();
        assert(s@.skip(0) =~= s@);
        assert(b =~= s@.subrange(start as int, n as int));
    }
    let ghost k = di - start;
    proof {
        assert(b[k] == s@[di as int]);
        assert(has_dot(b));
        lemma_first_dot(b);
        assert(forall|j: int| 0 <= j < k ==> #[trigger] b[j] == s@[j + start]);
        assert(first_dot(b) == k);
    }
    let ghost ip = b.take(k);
    let ghost fp = b.skip(k + 1);
    let ghost digits = ip + fp;
    proof {
        assert(ip =~= s@.subrange(start as int, di as int));
        assert(fp =~= s@.subrange(di + 1, n as int));
        lemma_digits_val_concat(ip, fp);
    }
    if n - start < 2 {
        return None;
    }
    if n - di - 1 > 18 {
        return None;
    }
    let flen: u32 = (n - di - 1) as u32;
    let iv = match digits_value(s, start, di) {
        Some(v) => v,
        None => {
            proof {
                if all_digits(digits) {
                    assert forall|j: int| 0 <= j < ip.len() implies is_digit(
                        #[trigger] ip[j],
                    ) by {
                        assert(ip[j] == digits[j]);
                    }
                    assert forall|j: int| 0 <= j < fp.len() implies is_digit(
                        #[trigger] fp[j],
                    ) by {
                        assert(fp[j] == digits[j + ip.len()]);
                    }
                    if digits_val(ip) >= pow10(18) {
                        lemma_digits_val_nonneg(fp);
                        lemma_pow10_pos(fp.len());
                        assert(digits_val(ip) * pow10(fp.len()) >= digits_val(ip) * 1)
                            by (nonlinear_arith)
                            requires
                                pow10(fp.len()) >= 1,
                                digits_val(ip) >= 0,
                        ;
                    }
                }
            }
            return None;
        },
    };
    let fv = match digits_value(s, di + 1, n) {
        Some(v) => v,
        None => {
            proof {
                if all_digits(digits) {
                    assert forall|j: int| 0 <= j < fp.len() implies is_digit(
                        #[trigger] fp[j],
                    ) by {
                        assert(fp[j] == digits[j + ip.len()]);
                    }
                    lemma_digits_val_upper(fp);
                    lemma_pow10_mono(fp.len(), 18);
                }
            }
            return None;
        },
    };
    proof {
        assert forall|j: int| 0 <= j < digits.len() implies is_digit(#[trigger] digits[j]) by {
            if j < ip.len() {
                assert(digits[j] == ip[j]);
            } else {
                assert(digits[j] == fp[j - ip.len()]);
            }
        }
    }
    let p = pow10_u64(flen);
    proof {
        lemma_pow10_mono(flen as nat, 18);
        assert(iv as int * p as int <= (pow10(18) - 1) * pow10(18)) by (nonlinear_arith)
            requires
                0 <= iv as int <= pow10(18) - 1,
                0 <= p as int <= pow10(18),
        ;
    }
    let m128: u128 = iv as u128 * p as u128 + fv as u128;
    proof {
        assert(m128 == digits_val(digits));
    }
    if m128 >= 1_000_000_000_000_000_000u128 {
        return None;
    }
    Some(Dec { neg, mant: m128 as u64, scale: flen })
}

/// Parses a string as a bounded decimal number, as `spec_dec_of` describes.
pub fn parse_dec(s: &str) -> (r: Option<Dec>)
    ensures
        r == spec_dec_of(s@),
{
    let n = s.unicode_len();
    if n == 0 {
        return None;
    }
    let c0 = s.get_char(0);
    let neg = c0 == '-';
    let start: usize = if c0 == '-' || c0 == '+' {
        1
    } else {
        0
    };
    let ghost b = if c0 == '-' || c0 == '+' {
        s@.skip(1)
    } else {
        s@
    };
    proof {
        lemma_pow10_18();
        assert(s@.skip(0) =~= s@);
        assert(b =~= s@.subrange(start as int, n as int));
    }
    match find_dot(s, start) {
        None => {
            proof {
                assert(!has_dot(b)) by {
                    assert(forall|j: int|
                        0 <= j < b.len() ==> #[trigger] b[j] == s@[j + start] && s@[j + start]
                            != '.');
                }
            }
            if start == n {
                return None;
            }
            match digits_value(s, start, n) {
                Some(v) => Some(Dec { neg, mant: v, scale: 0 }),
                None => None,
            }
        },
        Some(di) => parse_dec_with_dot(s, start, neg, di),
    }
}

} // verus!

verus! {

/// The character for one decimal digit.
pub open spec fn digit_char(d: int) -> char {
    if d == 0 {
        '0'
    } else if d == 1 {
        '1'
    } else if d == 2 {
        '2'
    } else if d == 3 {
        '3'
    } else if d == 4 {
        '4'
    } else if d == 5 {
        '5'
    } else if d == 6 {
        '6'
    } else if d == 7 {
        '7'
    } else if d == 8 {
        '8'
    } else {
        '9'
    }
}

/// The decimal digits of `n`, most significant first, with no leading zeros
/// (a lone zero for zero itself).
pub open spec fn dec_digits(n: nat) -> Seq<char>
    decreases n,
{
    if n < 10 {
        seq![digit_char(n as int)]
    } else {
        dec_digits(n / 10).push(digit_char((n % 10) as int))
    }
}

/// The low `k` decimal digits of `n`, zero-padded to exactly `k` characters.
pub open spec fn padded(n: nat, k: nat) -> Seq<char>
    decreases k,
{
    if k == 0 {
        Seq::<char>::empty()
    } else {
        padded(n / 10, (k - 1) as nat).push(digit_char((n % 10) as int))
    }
}

/// `s` with every trailing `0` removed.
pub open spec fn trim0(s: Seq<char>) -> Seq<char>
    decreases s.len(),
{
    if s.len() > 0 && s.last() == '0' {
        trim0(s.drop_last())
    } else {
        s
    }
}

/// The decimal rendering of the number `(-1)^neg * (q + f / 10^18)`:
/// a minus sign when negative, the integer part, and the fractional digits
/// with trailing zeros removed, after a dot, when there are any. Zero is
/// rendered `0` with no sign.
pub open spec fn render_parts(neg: bool, q: nat, f: nat) -> Seq<char> {
    if q == 0 && f == 0 {
        seq!['0']
    } else {
        (if neg {
            seq!['-']
        } else {
            Seq::<char>::empty()
        }) + dec_digits(q) + (if f == 0 {
            Seq::<char>::empty()
        } else {
            seq!['.'] + trim0(padded(f, 18))
        })
    }
}

/// The rendering of a value held as an integer scaled by ten to the
/// eighteenth, the way the executor holds a running sum.
pub open spec fn render18(x: int) -> Seq<char> {
    let a = if x < 0 {
        -x
    } else {
        x
    };
    render_parts(x < 0, (a / pow10(18)) as nat, (a % pow10(18)) as nat)
}

/// The rendering of the mean of a scale-18 sum `x` over `cnt` values:
/// the integer part of `|x| / (cnt * 10^18)`, then the first eighteen
/// fractional digits of the exact quotient, trailing zeros removed.
pub open spec fn render_avg18(x: int, cnt: nat) -> Seq<char>
    recommends
        cnt >= 1,
{
    let den = cnt * pow10(18);
    let a = if x < 0 {
        -x
    } else {
        x
    };
    render_parts(x < 0, (a / den) as nat, (((a % den) * pow10(18)) / den) as nat)
}

/// A one-character string for the digit `d`.
pub fn digit_str(d: u64) -> (r: &'static str)
    requires
        d < 10,
    ensures
        r@ =~= seq![digit_char(d as int)],
{
    if d == 0 {
        proof {
            reveal_strlit("0");
        }
        "0"
    } else if d == 1 {
        proof {
            reveal_strlit("1");
        }
        "1"
    } else if d == 2 {
        proof {
            reveal_strlit("2");
        }
        "2"
    } else if d == 3 {
        proof {
            reveal_strlit("3");
        }
        "3"
    } else if d == 4 {
        proof {
            reveal_strlit("4");
        }
        "4"
    } else if d == 5 {
        proof {
            reveal_strlit("5");
        }
        "5"
    } else if d == 6 {
        proof {
            reveal_strlit("6");
        }
        "6"
    } else if d == 7 {
        proof {
            reveal_strlit("7");
        }
        "7"
    } else if d == 8 {
        proof {
            reveal_strlit("8");
        }
        "8"
    } else {
        proof {
            reveal_strlit("9");
        }
        "9"
    }
}

/// The decimal digits of `n` as a string, as `dec_digits` describes.
pub fn digits_string(n: u128) -> (r: String)
    ensures
        r@ == dec_digits(n as nat),
    decreases n,
{
    if n < 10 {
        digit_str(n as u64).to_owned()
    } else {
        let mut s = digits_string(n / 10);
        s.append(digit_str((n % 10) as u64));
        proof {
            assert(s@ =~= dec_digits((n / 10) as nat).push(digit_char((n % 10) as int)));
        }
        s
    }
}

/// The low `k` digits of `n`, zero-padded, as `padded` describes.
pub fn padded_string(n: u64, k: u32) -> (r: String)
    ensures
        r@ == padded(n as nat, k as nat),
    decreases k,
{
    if k == 0 {
        String::new()
    } else {
        let mut s = padded_string(n / 10, k - 1);
        s.append(digit_str(n % 10));
        proof {
            assert(s@ =~= padded((n / 10) as nat, (k - 1) as nat).push(
                digit_char((n % 10) as int),
            ));
        }
        s
    }
}

pub proof fn lemma_padded_len(n: nat, k: nat)
    ensures
        padded(n, k).len() == k,
    decreases k,
{
    if k > 0 {
        lemma_padded_len(n / 10, (k - 1) as nat);
    }
}

/// Renders sign, integer part and eighteen-digit fraction, as
/// `render_parts` describes.
pub fn render_parts_string(neg: bool, q: u128, f: u64) -> (r: String)
    requires
        f < pow10(18),
    ensures
        r@ == render_parts(neg, q as nat, f as nat),
{
    proof {
        lemma_pow10_18();
    }
    if q == 0 && f == 0 {
        let z = digit_str(0).to_owned();
        proof {
            assert(z@ =~= render_parts(neg, 0, 0));
        }
        return z;
    }
    let mut out = String::new();
    if neg {
        out.append("-");
        proof {
            reveal_strlit("-");
        }
    }
    let ds = digits_string(q);
    out.append(ds.as_str());
    if f > 0 {
        out.append(".");
        proof {
            reveal_strlit(".");
        }
        let mut fv = f;
        let mut k: u32 = 18;
        while fv % 10 == 0
            invariant
                fv > 0,
                k <= 18,
                fv < pow10(k as nat),
                pow10(18) == 1_000_000_000_000_000_000,
                trim0(padded(f as nat, 18)) == trim0(padded(fv as nat, k as nat)),
            decreases k,
        {
            proof {
                if k == 0 {
                    assert(pow10(0) == 1);
                    assert(false);
                }
                assert(padded(fv as nat, k as nat) == padded((fv / 10) as nat, (k - 1) as nat).push(
                    digit_char((fv % 10) as int),
                ));
                assert(digit_char((fv % 10) as int) == '0');
                let base = padded((fv / 10) as nat, (k - 1) as nat);
                assert(base.push('0').drop_last() =~= base);
                assert(base.push('0').last() == '0');
                assert(trim0(padded(fv as nat, k as nat)) == trim0(base));
                assert(pow10(k as nat) == 10 * pow10((k - 1) as nat));
            }
            fv = fv / 10;
            k = k - 1;
        }
        proof {
            if k == 0 {
                assert(pow10(0) == 1);
                assert(false);
            }
            lemma_padded_len(fv as nat, k as nat);
            assert(padded(fv as nat, k as nat).last() == digit_char((fv % 10) as int));
            assert(trim0(padded(fv as nat, k as nat)) == padded(fv as nat, k as nat));
        }
        let fs = padded_string(fv, k);
        out.append(fs.as_str());
        proof {
            assert(out@ =~= render_parts(neg, q as nat, f as nat));
        }
    } else {
        proof {
            assert(out@ =~= render_parts(neg, q as nat, f as nat));
        }
    }
    out
}

} // verus!

verus! {

pub proof fn lemma_pow10_36()
    ensures
        pow10(36) == 1_000_000_000_000_000_000_000_000_000_000_000_000,
{
    reveal_with_fuel(pow10, 40);
}

pub proof fn lemma_pow10_37()
    ensures
        pow10(37) == 10_000_000_000_000_000_000_000_000_000_000_000_000,
{
    reveal_with_fuel(pow10, 40);
}

/// The value of a well-formed decimal, scaled to eighteen fractional digits.
pub fn dec_val18(d: &Dec) -> (r: i128)
    requires
        dec_wf(*d),
    ensures
        r == val18(*d),
        -pow10(36) < r < pow10(36),
{
    proof {
        lemma_pow10_18();
        lemma_pow10_36();
    }
    let p = pow10_u64(18 - d.scale);
    proof {
        lemma_pow10_mono((18 - d.scale) as nat, 18);
        assert(d.mant as int * p as int <= (pow10(18) - 1) * pow10(18)) by (nonlinear_arith)
            requires
                0 <= d.mant as int <= pow10(18) - 1,
                0 <= p as int <= pow10(18),
        ;
        assert((pow10(18) - 1) * pow10(18) < pow10(36)) by (nonlinear_arith)
            requires
                pow10(18) == 1_000_000_000_000_000_000,
                pow10(36) == 1_000_000_000_000_000_000_000_000_000_000_000_000,
        ;
    }
    let m = d.mant as i128 * p as i128;
    proof {
        assert(val18(*d) == (if d.neg {
            -(d.mant as int * p as int)
        } else {
            d.mant as int * p as int
        })) by (nonlinear_arith)
            requires
                p == pow10((18 - d.scale) as nat),
                val18(*d) == (if d.neg {
                    -1int
                } else {
                    1int
                }) * d.mant * pow10((18 - d.scale) as nat),
        ;
    }
    if d.neg {
        -m
    } else {
        m
    }
}

/// One step of the running sum: add `v`, keeping the total unchanged
/// when the result would leave the guarded range.
pub open spec fn add_clamp18(acc: int, v: int) -> int {
    let x = acc + v;
    if -pow10(37) <= x <= pow10(37) {
        x
    } else {
        acc
    }
}

/// Adds a scale-18 value into the running sum, as `add_clamp18` describes.
pub fn add_clamped(acc: i128, v: i128) -> (r: i128)
    requires
        -pow10(37) <= acc <= pow10(37),
        -pow10(36) < v < pow10(36),
    ensures
        r == add_clamp18(acc as int, v as int),
        -pow10(37) <= r <= pow10(37),
{
    proof {
        lemma_pow10_36();
        lemma_pow10_37();
    }
    let x = acc + v;
    if x > 10_000_000_000_000_000_000_000_000_000_000_000_000i128 {
        acc
    } else if x < -10_000_000_000_000_000_000_000_000_000_000_000_000i128 {
        acc
    } else {
        x
    }
}

/// Renders a scale-18 total, as `render18` describes.
pub fn render_scaled18(x: i128) -> (r: String)
    requires
        -pow10(37) <= x <= pow10(37),
    ensures
        r@ == render18(x as int),
{
    proof {
        lemma_pow10_18();
        lemma_pow10_37();
    }
    let a: u128 = if x < 0 {
        (-x) as u128
    } else {
        x as u128
    };
    let q = a / 1_000_000_000_000_000_000u128;
    let f = (a % 1_000_000_000_000_000_000u128) as u64;
    render_parts_string(x < 0, q, f)
}

/// One long-division step: appending a decimal digit to the quotient of
/// `t / den` tracks the quotient and remainder of `10 * t / den`.
proof fn lemma_divmod_digit(t: int, den: int)
    requires
        den > 0,
        t >= 0,
    ensures
        (10 * t) / den == 10 * (t / den) + ((t % den) * 10) / den,
        (10 * t) % den == ((t % den) * 10) % den,
        0 <= ((t % den) * 10) / den < 10,
{
    vstd::arithmetic::div_mod::lemma_fundamental_div_mod(t, den);
    vstd::arithmetic::div_mod::lemma_mod_bound(t, den);
    let q = t / den;
    let r = t % den;
    vstd::arithmetic::div_mod::lemma_fundamental_div_mod(r * 10, den);
    vstd::arithmetic::div_mod::lemma_mod_bound(r * 10, den);
    let b = (r * 10) / den;
    let c = (r * 10) % den;
    assert(r * 10 >= 0) by (nonlinear_arith)
        requires
            r >= 0,
    ;
    assert(r * 10 < den * 10) by (nonlinear_arith)
        requires
            r < den,
    ;
    assert(b < 10) by (nonlinear_arith)
        requires
            r * 10 == den * b + c,
            0 <= c < den,
            r * 10 < den * 10,
            den > 0,
    ;
    assert(b >= 0) by (nonlinear_arith)
        requires
            r * 10 == den * b + c,
            0 <= c < den,
            r * 10 >= 0,
            den > 0,
    ;
    assert(10 * t == (10 * q + b) * den + c) by (nonlinear_arith)
        requires
            t == den * q + r,
            r * 10 == den * b + c,
    ;
    vstd::arithmetic::div_mod::lemma_fundamental_div_mod_converse(10 * t, den, 10 * q + b, c);
}

/// Renders the mean of a scale-18 total over `count` values, as
/// `render_avg18` describes: exact long division, truncated after
/// eighteen fractional digits.
pub fn avg_scaled18(x: i128, count: usize) -> (r: String)
    requires
        count >= 1,
        -pow10(37) <= x <= pow10(37),
    ensures
        r@ == render_avg18(x as int, count as nat),
{
    proof {
        lemma_pow10_18();
        lemma_pow10_37();
        assert(count as u128 * 1_000_000_000_000_000_000u128 == count as int * pow10(18))
            by (nonlinear_arith)
            requires
                pow10(18) == 1_000_000_000_000_000_000,
                0 < count as int <= 0xffff_ffff_ffff_ffffu64 as int,
        ;
        assert(count as int * pow10(18) <= 0xffff_ffff_ffff_ffffu64 as int * pow10(18))
            by (nonlinear_arith)
            requires
                0 < count as int <= 0xffff_ffff_ffff_ffffu64 as int,
                pow10(18) > 0,
        ;
        assert(count as int * pow10(18) >= pow10(18)) by (nonlinear_arith)
            requires
                count as int >= 1,
                pow10(18) > 0,
        ;
    }
    let den: u128 = count as u128 * 1_000_000_000_000_000_000u128;
    let a: u128 = if x < 0 {
        (-x) as u128
    } else {
        x as u128
    };
    let q = a / den;
    let mut rem = a % den;
    let ghost big_r = (a % den) as int;
    let mut facc: u64 = 0;
    let mut j: u32 = 0;
    proof {
        assert(pow10(0) == 1);
        vstd::arithmetic::div_mod::lemma_mod_bound(a as int, den as int);
        assert(big_r * pow10(0) == big_r) by (nonlinear_arith)
            requires
                pow10(0) == 1,
        ;
        assert(big_r / den as int == 0 && big_r % den as int == big_r) by {
            vstd::arithmetic::div_mod::lemma_basic_div(big_r, den as int);
            vstd::arithmetic::div_mod::lemma_small_mod(big_r as nat, den as nat);
        }
    }
    while j < 18
        invariant
            j <= 18,
            den as int == count as int * pow10(18),
            den >= pow10(18),
            den as int <= 0xffff_ffff_ffff_ffffu64 as int * pow10(18),
            pow10(18) == 1_000_000_000_000_000_000,
            0 <= big_r < den,
            facc == (big_r * pow10(j as nat)) / den as int,
            rem == (big_r * pow10(j as nat)) % den as int,
            facc < pow10(j as nat),
        decreases 18 - j,
    {
        proof {
            lemma_pow10_mono(j as nat, 17);
            lemma_pow10_pos(j as nat);
            let t = big_r * pow10(j as nat);
            assert(t >= 0) by (nonlinear_arith)
                requires
                    t == big_r * pow10(j as nat),
                    big_r >= 0,
                    pow10(j as nat) > 0,
            ;
            lemma_divmod_digit(t, den as int);
            assert(10 * t == big_r * pow10((j + 1) as nat)) by (nonlinear_arith)
                requires
                    pow10((j + 1) as nat) == 10 * pow10(j as nat),
                    t == big_r * pow10(j as nat),
            ;
            vstd::arithmetic::div_mod::lemma_mod_bound(t, den as int);
            assert(rem * 10 < den as int * 10) by (nonlinear_arith)
                requires
                    (rem as int) >= 0,
                    (rem as int) < (den as int),
            ;
            assert(den as int * 10 <= 0xffff_ffff_ffff_ffffu64 as int * pow10(18) * 10);
            assert(facc * 10 + 10 <= pow10((j + 1) as nat)) by (nonlinear_arith)
                requires
                    facc < pow10(j as nat),
                    pow10((j + 1) as nat) == 10 * pow10(j as nat),
            ;
            lemma_pow10_mono((j + 1) as nat, 18);
        }
        let rem10: u128 = rem * 10;
        let d = (rem10 / den) as u64;
        rem = rem10 % den;
        facc = facc * 10 + d;
        j = j + 1;
    }
    proof {
        assert(facc == ((a % den) as int * pow10(18)) / (count as int * pow10(18)));
    }
    render_parts_string(x < 0, q, facc)
}

} // verus!
