use vstd::prelude::*;
use vstd::string::StrSliceExecFns;
use crate::numbers::{all_digits, digits_val, is_digit};

verus! {

/// The space characters the grammar skips: blanks and tabs.
pub open spec fn is_space(c: char) -> bool {
    c == ' ' || c == '\t'
}

/// A character that may appear in a bare identifier.
pub open spec fn is_ident_char(c: char) -> bool {
    ('a' <= c && c <= 'z') || ('A' <= c && c <= 'Z') || ('0' <= c && c <= '9') || c == '_'
}

/// The end of the run of spaces starting at `i`.
pub open spec fn space_end(s: Seq<char>, i: int) -> int
    decreases s.len() - i,
{
    if 0 <= i < s.len() && is_space(s[i]) {
        space_end(s, i + 1)
    } else {
        i
    }
}

/// The end of the run of identifier characters starting at `i`.
pub open spec fn ident_end(s: Seq<char>, i: int) -> int
    decreases s.len() - i,
{
    if 0 <= i < s.len() && is_ident_char(s[i]) {
        ident_end(s, i + 1)
    } else {
        i
    }
}

/// The end of the run of decimal digits starting at `i`.
pub open spec fn digits_end(s: Seq<char>, i: int) -> int
    decreases s.len() - i,
{
    if 0 <= i < s.len() && is_digit(s[i]) {
        digits_end(s, i + 1)
    } else {
        i
    }
}

/// The position of the next single quote at or after `i`, or the text's end.
pub open spec fn quote_end(s: Seq<char>, i: int) -> int
    decreases s.len() - i,
{
    if 0 <= i < s.len() && s[i] != '\'' {
        quote_end(s, i + 1)
    } else {
        i
    }
}

pub proof fn lemma_scan_bounds(s: Seq<char>, i: int)
    requires
        0 <= i <= s.len(),
    ensures
        i <= space_end(s, i) <= s.len(),
        i <= ident_end(s, i) <= s.len(),
        i <= digits_end(s, i) <= s.len(),
        i <= quote_end(s, i) <= s.len(),
    decreases s.len() - i,
{
    if i < s.len() {
        lemma_scan_bounds(s, i + 1);
    }
}

/// Whether the keyword `kw` appears verbatim at position `i`.
pub open spec fn matches_at(s: Seq<char>, i: int, kw: Seq<char>) -> bool {
    0 <= i && i + kw.len() <= s.len() && s.subrange(i, i + kw.len()) == kw
}

/// Case-blind equality against an upper-case letter.
pub open spec fn char_eq_nocase(c: char, k: char) -> bool {
    c == k || c as u32 == k as u32 + 32
}

/// Whether the upper-case keyword `kw` appears at `i`, ignoring letter case.
pub open spec fn matches_nocase(s: Seq<char>, i: int, kw: Seq<char>) -> bool {
    0 <= i && i + kw.len() <= s.len() && forall|j: int|
        0 <= j < kw.len() ==> char_eq_nocase(s[i + j], #[trigger] kw[j])
}

/// Scans the spaces from `i`, as `space_end` describes.
pub fn scan_spaces(s: &str, i: usize) -> (r: usize)
    requires
        i <= s@.len(),
    ensures
        r == space_end(s@, i as int),
        i <= r <= s@.len(),
{
    let n = s.unicode_len();
    let mut j = i;
    while j < n
        invariant
            i <= j <= n,
            n == s@.len(),
            space_end(s@, i as int) == space_end(s@, j as int),
        decreases n - j,
    {
        let c = s.get_char(j);
        if !(c == ' ' || c == '\t') {
            return j;
        }
        j = j + 1;
    }
    j
}

/// Scans the identifier characters from `i`, as `ident_end` describes.
pub fn scan_ident(s: &str, i: usize) -> (r: usize)
    requires
        i <= s@.len(),
    ensures
        r == ident_end(s@, i as int),
        i <= r <= s@.len(),
{
    let n = s.unicode_len();
    let mut j = i;
    while j < n
        invariant
            i <= j <= n,
            n == s@.len(),
            ident_end(s@, i as int) == ident_end(s@, j as int),
        decreases n - j,
    {
        let c = s.get_char(j);
        let ok = (c >= 'a' && c <= 'z') || (c >= 'A' && c <= 'Z') || (c >= '0' && c <= '9') || c
            == '_';
        if !ok {
            return j;
        }
        j = j + 1;
    }
    j
}

/// Scans the digits from `i`, as `digits_end` describes.
pub fn scan_digits(s: &str, i: usize) -> (r: usize)
    requires
        i <= s@.len(),
    ensures
        r == digits_end(s@, i as int),
        i <= r <= s@.len(),
{
    let n = s.unicode_len();
    let mut j = i;
    while j < n
        invariant
            i <= j <= n,
            n == s@.len(),
            digits_end(s@, i as int) == digits_end(s@, j as int),
        decreases n - j,
    {
        let c = s.get_char(j);
        if c < '0' || c > '9' {
            return j;
        }
        j = j + 1;
    }
    j
}

/// Scans to the next single quote from `i`, as `quote_end` describes.
pub fn scan_to_quote(s: &str, i: usize) -> (r: usize)
    requires
        i <= s@.len(),
    ensures
        r == quote_end(s@, i as int),
        i <= r <= s@.len(),
{
    let n = s.unicode_len();
    let mut j = i;
    while j < n
        invariant
            i <= j <= n,
            n == s@.len(),
            quote_end(s@, i as int) == quote_end(s@, j as int),
        decreases n - j,
    {
        let c = s.get_char(j);
        if c == '\'' {
            return j;
        }
        j = j + 1;
    }
    j
}

/// Tests the keyword `kw` at `i`, as `matches_at` describes.
pub fn match_kw(s: &str, i: usize, kw: &str) -> (r: bool)
    requires
        i <= s@.len(),
    ensures
        r == matches_at(s@, i as int, kw@),
{
    let n = s.unicode_len();
    let m = kw.unicode_len();
    if n - i < m {
        return false;
    }
    let mut j: usize = 0;
    while j < m
        invariant
            j <= m,
            m == kw@.len(),
            n == s@.len(),
            i + m <= n,
            forall|k: int| 0 <= k < j ==> s@[i + k] == kw@[k],
        decreases m - j,
    {
        if s.get_char(i + j) != kw.get_char(j) {
            proof {
                assert(s@.subrange(i as int, i + kw@.len())[j as int] == s@[i + j]);
            }
            return false;
        }
        j = j + 1;
    }
    proof {
        assert(s@.subrange(i as int, i + kw@.len()) =~= kw@);
    }
    true
}

/// Tests the upper-case keyword `kw` at `i` ignoring case, as
/// `matches_nocase` describes.
pub fn match_kw_nocase(s: &str, i: usize, kw: &str) -> (r: bool)
    requires
        i <= s@.len(),
    ensures
        r == matches_nocase(s@, i as int, kw@),
{
    let n = s.unicode_len();
    let m = kw.unicode_len();
    if n - i < m {
        return false;
    }
    let mut j: usize = 0;
    while j < m
        invariant
            j <= m,
            m == kw@.len(),
            n == s@.len(),
            i + m <= n,
            forall|k: int| 0 <= k < j ==> char_eq_nocase(s@[i + k], #[trigger] kw@[k]),
        decreases m - j,
    {
        let c = s.get_char(i + j);
        let k = kw.get_char(j);
        if !(c == k || c as u32 == k as u32 + 32) {
            return false;
        }
        j = j + 1;
    }
    true
}

/// The substring `[from, to)` as an owned string.
pub fn substring(s: &str, from: usize, to: usize) -> (r: String)
    requires
        from <= to <= s@.len(),
    ensures
        r@ == s@.subrange(from as int, to as int),
{
    s.substring_char(from, to).to_owned()
}

} // verus!

verus! {

/// A column operand: a quoted string, a bare identifier, or `*`.
pub open spec fn column_at(s: Seq<char>, i: int) -> Option<(int, Seq<char>)> {
    if 0 <= i < s.len() && s[i] == '\'' {
        let e = quote_end(s, i + 1);
        if e < s.len() && e > i + 1 {
            Some(((e + 1) as int, s.subrange(i + 1, e)))
        } else {
            None
        }
    } else {
        let e = ident_end(s, i);
        if e > i {
            Some((e, s.subrange(i, e)))
        } else if 0 <= i < s.len() && s[i] == '*' {
            Some(((i + 1) as int, seq!['*']))
        } else {
            None
        }
    }
}

/// A comparison operand: a quoted string or a bare identifier.
pub open spec fn value_at(s: Seq<char>, i: int) -> Option<(int, Seq<char>)> {
    if 0 <= i < s.len() && s[i] == '\'' {
        let e = quote_end(s, i + 1);
        if e < s.len() && e > i + 1 {
            Some(((e + 1) as int, s.subrange(i + 1, e)))
        } else {
            None
        }
    } else {
        let e = ident_end(s, i);
        if e > i {
            Some((e, s.subrange(i, e)))
        } else {
            None
        }
    }
}

/// An unsigned integer literal that fits in an `i32`.
pub open spec fn num_at(s: Seq<char>, i: int) -> Option<(int, int)> {
    if 0 <= i <= s.len() {
        let e = digits_end(s, i);
        if e > i && digits_val(s.subrange(i, e)) <= 0x7fff_ffff {
            Some((e, digits_val(s.subrange(i, e))))
        } else {
            None
        }
    } else {
        None
    }
}

pub proof fn lemma_digits_end_all(s: Seq<char>, i: int)
    requires
        0 <= i <= s.len(),
    ensures
        all_digits(s.subrange(i, digits_end(s, i))),
    decreases s.len() - i,
{
    lemma_scan_bounds(s, i);
    if i < s.len() && is_digit(s[i]) {
        lemma_digits_end_all(s, i + 1);
        lemma_scan_bounds(s, i + 1);
        let e = digits_end(s, i);
        assert forall|j: int| 0 <= j < e - i implies is_digit(#[trigger] s.subrange(i, e)[j]) by {
            if j == 0 {
                assert(s.subrange(i, e)[0] == s[i]);
            } else {
                assert(s.subrange(i, e)[j] == s.subrange(i + 1, e)[j - 1]);
                assert(is_digit(s.subrange(i + 1, e)[j - 1]));
            }
        }
    } else {
        assert(s.subrange(i, i).len() == 0);
    }
}

/// Parses a column operand, as `column_at` describes.
pub fn parse_column(s: &str, i: usize) -> (r: Option<(usize, String)>)
    requires
        i <= s@.len(),
    ensures
        match r {
            Some((p, c)) => column_at(s@, i as int) == Some((p as int, c@)) && i < p <= s@.len(),
            None => column_at(s@, i as int) is None,
        },
{
    let n = s.unicode_len();
    if i < n && s.get_char(i) == '\'' {
        let e = scan_to_quote(s, i + 1);
        if e < n && e > i + 1 {
            Some((e + 1, substring(s, i + 1, e)))
        } else {
            None
        }
    } else {
        let e = scan_ident(s, i);
        if e > i {
            Some((e, substring(s, i, e)))
        } else if i < n && s.get_char(i) == '*' {
            let mut star = String::new();
            star.append("*");
            proof {
                reveal_strlit("*");
                assert(star@ =~= seq!['*']);
            }
            Some((i + 1, star))
        } else {
            None
        }
    }
}

/// Parses a comparison operand, as `value_at` describes.
pub fn parse_value(s: &str, i: usize) -> (r: Option<(usize, String)>)
    requires
        i <= s@.len(),
    ensures
        match r {
            Some((p, c)) => value_at(s@, i as int) == Some((p as int, c@)) && i < p <= s@.len(),
            None => value_at(s@, i as int) is None,
        },
{
    let n = s.unicode_len();
    if i < n && s.get_char(i) == '\'' {
        let e = scan_to_quote(s, i + 1);
        if e < n && e > i + 1 {
            Some((e + 1, substring(s, i + 1, e)))
        } else {
            None
        }
    } else {
        let e = scan_ident(s, i);
        if e > i {
            Some((e, substring(s, i, e)))
        } else {
            None
        }
    }
}

/// Parses an integer literal, as `num_at` describes.
pub fn parse_number(s: &str, i: usize) -> (r: Option<(usize, i32)>)
    requires
        i <= s@.len(),
    ensures
        match r {
            Some((p, v)) => num_at(s@, i as int) == Some((p as int, v as int)) && i < p <= s@.len(),
            None => num_at(s@, i as int) is None,
        },
{
    let e = scan_digits(s, i);
    if e == i {
        return None;
    }
    proof {
        lemma_digits_end_all(s@, i as int);
    }
    let ghost ds = s@.subrange(i as int, e as int);
    let mut j = i;
    let mut acc: u64 = 0;
    while j < e
        invariant
            i <= j <= e <= s@.len(),
            e == digits_end(s@, i as int),
            ds =~= s@.subrange(i as int, e as int),
            all_digits(ds),
            acc == digits_val(ds.take(j - i)),
            acc <= 0x7fff_ffff,
        decreases e - j,
    {
        let c = s.get_char(j);
        proof {
            assert(ds[j - i] == s@[j as int]);
            assert(is_digit(ds[j - i]));
            assert(ds.take(j + 1 - i).drop_last() =~= ds.take(j - i));
            assert(ds.take(j + 1 - i).last() == s@[j as int]);
        }
        let d = (c as u32 - '0' as u32) as u64;
        acc = acc * 10 + d;
        if acc > 0x7fff_ffff {
            proof {
                crate::numbers::lemma_digits_val_take_le(ds, j + 1 - i);
            }
            return None;
        }
        j = j + 1;
    }
    proof {
        assert(ds.take(e - i) =~= ds);
    }
    Some((e, acc as i32))
}

} // verus!

verus! {

/// The shape of a parsed predicate, with string payloads as character
/// sequences: the specification-level image of `Condition`.
pub enum CondShape {
    Greater(Seq<char>, int),
    GreaterEq(Seq<char>, int),
    Less(Seq<char>, int),
    LessEq(Seq<char>, int),
    Equals(Seq<char>, Seq<char>),
    LikePat(Seq<char>, Seq<char>),
    Span(Seq<char>, int, int),
    Conj(Box<CondShape>, Box<CondShape>),
    Disj(Box<CondShape>, Box<CondShape>),
    Neg(Box<CondShape>),
}

/// The shape of a predicate value.
pub open spec fn cond_shape(c: crate::ast::Condition) -> CondShape
    decreases c,
{
    match c {
        crate::ast::Condition::GreaterThan(col, v) => CondShape::Greater(col@, v as int),
        crate::ast::Condition::GreaterThanEqualTo(col, v) => CondShape::GreaterEq(col@, v as int),
        crate::ast::Condition::LessThan(col, v) => CondShape::Less(col@, v as int),
        crate::ast::Condition::LessThanEqualTo(col, v) => CondShape::LessEq(col@, v as int),
        crate::ast::Condition::Equal(col, v) => CondShape::Equals(col@, v@),
        crate::ast::Condition::Like(col, p) => CondShape::LikePat(col@, p@),
        crate::ast::Condition::Between(col, lo, hi) => CondShape::Span(col@, lo as int, hi as int),
        crate::ast::Condition::And(a, b) => CondShape::Conj(
            Box::new(cond_shape(*a)),
            Box::new(cond_shape(*b)),
        ),
        crate::ast::Condition::Or(a, b) => CondShape::Disj(
            Box::new(cond_shape(*a)),
            Box::new(cond_shape(*b)),
        ),
        crate::ast::Condition::Not(a) => CondShape::Neg(Box::new(cond_shape(*a))),
    }
}

/// An integer operand after optional spaces.
pub open spec fn num_after(s: Seq<char>, q: int) -> Option<(int, int)> {
    num_at(s, space_end(s, q))
}

/// A string operand after optional spaces.
pub open spec fn value_after(s: Seq<char>, q: int) -> Option<(int, Seq<char>)> {
    value_at(s, space_end(s, q))
}

/// The tail of a `BETWEEN`: low bound, `AND`, high bound.
pub open spec fn between_tail(s: Seq<char>, q: int) -> Option<(int, int, int)> {
    match num_after(s, q) {
        Some((e1, lo)) => {
            let p4 = space_end(s, e1);
            if matches_at(s, p4, seq!['A', 'N', 'D']) {
                match num_after(s, p4 + 3) {
                    Some((e2, hi)) => Some((e2, lo, hi)),
                    None => None,
                }
            } else {
                None
            }
        },
        None => None,
    }
}

/// A single comparison: a column, an operator and its operand, the
/// alternatives tried in the grammar's order.
pub open spec fn single_cond_at(s: Seq<char>, i: int) -> Option<(int, CondShape)> {
    match column_at(s, i) {
        None => None,
        Some((p1, col)) => {
            let p2 = space_end(s, p1);
            if matches_at(s, p2, seq!['>', '=']) && num_after(s, p2 + 2) is Some {
                let (e, v) = num_after(s, p2 + 2)->Some_0;
                Some((e, CondShape::GreaterEq(col, v)))
            } else if matches_at(s, p2, seq!['>']) && num_after(s, p2 + 1) is Some {
                let (e, v) = num_after(s, p2 + 1)->Some_0;
                Some((e, CondShape::Greater(col, v)))
            } else if matches_at(s, p2, seq!['<', '=']) && num_after(s, p2 + 2) is Some {
                let (e, v) = num_after(s, p2 + 2)->Some_0;
                Some((e, CondShape::LessEq(col, v)))
            } else if matches_at(s, p2, seq!['<']) && num_after(s, p2 + 1) is Some {
                let (e, v) = num_after(s, p2 + 1)->Some_0;
                Some((e, CondShape::Less(col, v)))
            } else if matches_at(s, p2, seq!['=']) && value_after(s, p2 + 1) is Some {
                let (e, v) = value_after(s, p2 + 1)->Some_0;
                Some((e, CondShape::Equals(col, v)))
            } else if matches_at(s, p2, seq!['L', 'I', 'K', 'E']) && value_after(s, p2 + 4)
                is Some {
                let (e, v) = value_after(s, p2 + 4)->Some_0;
                Some((e, CondShape::LikePat(col, v)))
            } else if matches_at(s, p2, seq!['B', 'E', 'T', 'W', 'E', 'E', 'N']) && between_tail(
                s,
                p2 + 7,
            ) is Some {
                let (e, lo, hi) = between_tail(s, p2 + 7)->Some_0;
                Some((e, CondShape::Span(col, lo, hi)))
            } else {
                None
            }
        },
    }
}

/// Parses an integer operand after optional spaces.
fn parse_num_after(s: &str, q: usize) -> (r: Option<(usize, i32)>)
    requires
        q <= s@.len(),
    ensures
        match r {
            Some((p, v)) => num_after(s@, q as int) == Some((p as int, v as int)) && q < p
                <= s@.len(),
            None => num_after(s@, q as int) is None,
        },
{
    let t = scan_spaces(s, q);
    parse_number(s, t)
}

/// Parses a string operand after optional spaces.
fn parse_value_after(s: &str, q: usize) -> (r: Option<(usize, String)>)
    requires
        q <= s@.len(),
    ensures
        match r {
            Some((p, v)) => value_after(s@, q as int) == Some((p as int, v@)) && q < p <= s@.len(),
            None => value_after(s@, q as int) is None,
        },
{
    let t = scan_spaces(s, q);
    parse_value(s, t)
}

/// Parses one comparison, as `single_cond_at` describes.
#[verifier::rlimit(100)]
pub fn parse_single_condition(s: &str, i: usize) -> (r: Option<(usize, crate::ast::Condition)>)
    requires
        i <= s@.len(),
    ensures
        match r {
            Some((p, c)) => single_cond_at(s@, i as int) == Some((p as int, cond_shape(c))) && i
                < p <= s@.len(),
            None => single_cond_at(s@, i as int) is None,
        },
{
    let n = s.unicode_len();
    proof {
        reveal_strlit(">=");
        reveal_strlit(">");
        reveal_strlit("<=");
        reveal_strlit("<");
        reveal_strlit("=");
        reveal_strlit("LIKE");
        reveal_strlit("BETWEEN");
        reveal_strlit("AND");
        assert(">="@ =~= seq!['>', '=']);
        assert(">"@ =~= seq!['>']);
        assert("<="@ =~= seq!['<', '=']);
        assert("<"@ =~= seq!['<']);
        assert("="@ =~= seq!['=']);
        assert("LIKE"@ =~= seq!['L', 'I', 'K', 'E']);
        assert("BETWEEN"@ =~= seq!['B', 'E', 'T', 'W', 'E', 'E', 'N']);
        assert("AND"@ =~= seq!['A', 'N', 'D']);
    }
    let (p1, col) = match parse_column(s, i) {
        Some(x) => x,
        None => {
            return None;
        },
    };
    let p2 = scan_spaces(s, p1);
    if match_kw(s, p2, ">=") {
        proof {
            reveal_strlit(">=");
            assert(">="@ =~= seq!['>', '=']);
        }
        match parse_num_after(s, p2 + 2) {
            Some((e, v)) => {
                return Some((e, crate::ast::Condition::GreaterThanEqualTo(col, v)));
            },
            None => {},
        }
    }
    if match_kw(s, p2, ">") {
        proof {
            reveal_strlit(">");
            assert(">"@ =~= seq!['>']);
        }
        match parse_num_after(s, p2 + 1) {
            Some((e, v)) => {
                return Some((e, crate::ast::Condition::GreaterThan(col, v)));
            },
            None => {},
        }
    }
    if match_kw(s, p2, "<=") {
        proof {
            reveal_strlit("<=");
            assert("<="@ =~= seq!['<', '=']);
        }
        match parse_num_after(s, p2 + 2) {
            Some((e, v)) => {
                return Some((e, crate::ast::Condition::LessThanEqualTo(col, v)));
            },
            None => {},
        }
    }
    if match_kw(s, p2, "<") {
        proof {
            reveal_strlit("<");
            assert("<"@ =~= seq!['<']);
        }
        match parse_num_after(s, p2 + 1) {
            Some((e, v)) => {
                return Some((e, crate::ast::Condition::LessThan(col, v)));
            },
            None => {},
        }
    }
    if match_kw(s, p2, "=") {
        proof {
            reveal_strlit("=");
            assert("="@ =~= seq!['=']);
        }
        match parse_value_after(s, p2 + 1) {
            Some((e, v)) => {
                return Some((e, crate::ast::Condition::Equal(col, v)));
            },
            None => {},
        }
    }
    if match_kw(s, p2, "LIKE") {
        proof {
            reveal_strlit("LIKE");
            assert("LIKE"@ =~= seq!['L', 'I', 'K', 'E']);
        }
        match parse_value_after(s, p2 + 4) {
            Some((e, v)) => {
                return Some((e, crate::ast::Condition::Like(col, v)));
            },
            None => {},
        }
    }
    if match_kw(s, p2, "BETWEEN") {
        proof {
            reveal_strlit("BETWEEN");
            assert("BETWEEN"@ =~= seq!['B', 'E', 'T', 'W', 'E', 'E', 'N']);
        }
        match parse_num_after(s, p2 + 7) {
            Some((e1, lo)) => {
                let p4 = scan_spaces(s, e1);
                if match_kw(s, p4, "AND") {
                    proof {
                        reveal_strlit("AND");
                        assert("AND"@ =~= seq!['A', 'N', 'D']);
                    }
                    match parse_num_after(s, p4 + 3) {
                        Some((e2, hi)) => {
                            return Some((e2, crate::ast::Condition::Between(col, lo, hi)));
                        },
                        None => {},
                    }
                }
            },
            None => {},
        }
    }
    proof {
        reveal_strlit(">=");
        reveal_strlit(">");
        reveal_strlit("<=");
        reveal_strlit("<");
        reveal_strlit("=");
        reveal_strlit("LIKE");
        reveal_strlit("BETWEEN");
        reveal_strlit("AND");
        assert(">="@ =~= seq!['>', '=']);
        assert(">"@ =~= seq!['>']);
        assert("<="@ =~= seq!['<', '=']);
        assert("<"@ =~= seq!['<']);
        assert("="@ =~= seq!['=']);
        assert("LIKE"@ =~= seq!['L', 'I', 'K', 'E']);
        assert("BETWEEN"@ =~= seq!['B', 'E', 'T', 'W', 'E', 'E', 'N']);
        assert("AND"@ =~= seq!['A', 'N', 'D']);
    }
    None
}

} // verus!

verus! {

/// The end of an `AND` connective: optional spaces, `AND`, at least one
/// space.
pub open spec fn and_token_end(s: Seq<char>, p: int) -> Option<int> {
    let p2 = space_end(s, p);
    if matches_at(s, p2, seq!['A', 'N', 'D']) && p2 + 3 < s.len() && is_space(s[p2 + 3]) {
        Some(space_end(s, p2 + 3))
    } else {
        None
    }
}

/// The end of an `OR` connective: optional spaces, `OR`, at least one
/// space.
pub open spec fn or_token_end(s: Seq<char>, p: int) -> Option<int> {
    let p2 = space_end(s, p);
    if matches_at(s, p2, seq!['O', 'R']) && p2 + 2 < s.len() && is_space(s[p2 + 2]) {
        Some(space_end(s, p2 + 2))
    } else {
        None
    }
}

/// A primary condition: a parenthesized disjunction, or one comparison.
pub open spec fn sp_primary(s: Seq<char>, i: int) -> Option<(int, CondShape)>
    decreases s.len() - i, 0int,
{
    if !(0 <= i <= s.len()) {
        None
    } else if i < s.len() && s[i] == '(' {
        let p = space_end(s, i + 1);
        if p <= i || p > s.len() {
            None
        } else {
            match sp_or(s, p) {
                Some((p2, c)) => {
                    let p3 = space_end(s, p2);
                    if 0 <= p3 < s.len() && s[p3] == ')' {
                        Some((p3 + 1, c))
                    } else {
                        None
                    }
                },
                None => None,
            }
        }
    } else {
        single_cond_at(s, i)
    }
}

/// A possibly negated condition: `NOT` binds a primary condition; when the
/// negated form does not parse, the text is read as a plain primary
/// condition.
pub open spec fn sp_not(s: Seq<char>, i: int) -> Option<(int, CondShape)>
    decreases s.len() - i, 1int,
{
    if !(0 <= i <= s.len()) {
        None
    } else if matches_at(s, i, seq!['N', 'O', 'T']) && i + 3 < s.len() && is_space(s[i + 3]) {
        let t = space_end(s, i + 3);
        if t <= i || t > s.len() {
            sp_primary(s, i)
        } else {
            match sp_primary(s, t) {
                Some((j, c)) => Some((j, CondShape::Neg(Box::new(c)))),
                None => sp_primary(s, i),
            }
        }
    } else {
        sp_primary(s, i)
    }
}

/// The left fold of further `AND` operands onto `acc`.
pub open spec fn sp_and_rest(s: Seq<char>, p: int, acc: CondShape) -> Option<(int, CondShape)>
    decreases s.len() - p, 4int,
{
    if !(0 <= p <= s.len()) {
        Some((p, acc))
    } else {
        match and_token_end(s, p) {
            Some(t) => {
                if t <= p || t > s.len() {
                    Some((p, acc))
                } else {
                    match sp_not(s, t) {
                        Some((p2, c2)) => {
                            if p2 <= p || p2 > s.len() {
                                Some((p, acc))
                            } else {
                                sp_and_rest(s, p2, CondShape::Conj(Box::new(acc), Box::new(c2)))
                            }
                        },
                        None => Some((p, acc)),
                    }
                }
            },
            None => Some((p, acc)),
        }
    }
}

/// An `AND` chain, folded to the left.
pub open spec fn sp_and(s: Seq<char>, i: int) -> Option<(int, CondShape)>
    decreases s.len() - i, 2int,
{
    if !(0 <= i <= s.len()) {
        None
    } else {
        match sp_not(s, i) {
            None => None,
            Some((p, c)) => {
                if p <= i || p > s.len() {
                    Some((p, c))
                } else {
                    sp_and_rest(s, p, c)
                }
            },
        }
    }
}

/// The left fold of further `OR` operands onto `acc`.
pub open spec fn sp_or_rest(s: Seq<char>, p: int, acc: CondShape) -> Option<(int, CondShape)>
    decreases s.len() - p, 5int,
{
    if !(0 <= p <= s.len()) {
        Some((p, acc))
    } else {
        match or_token_end(s, p) {
            Some(t) => {
                if t <= p || t > s.len() {
                    Some((p, acc))
                } else {
                    match sp_and(s, t) {
                        Some((p2, c2)) => {
                            if p2 <= p || p2 > s.len() {
                                Some((p, acc))
                            } else {
                                sp_or_rest(s, p2, CondShape::Disj(Box::new(acc), Box::new(c2)))
                            }
                        },
                        None => Some((p, acc)),
                    }
                }
            },
            None => Some((p, acc)),
        }
    }
}

/// An `OR` chain of `AND` chains, folded to the left: the whole `WHERE`
/// expression grammar.
pub open spec fn sp_or(s: Seq<char>, i: int) -> Option<(int, CondShape)>
    decreases s.len() - i, 3int,
{
    if !(0 <= i <= s.len()) {
        None
    } else {
        match sp_and(s, i) {
            None => None,
            Some((p, c)) => {
                if p <= i || p > s.len() {
                    Some((p, c))
                } else {
                    sp_or_rest(s, p, c)
                }
            },
        }
    }
}

/// Parses a primary condition, as `sp_primary` describes.
pub fn parse_primary_condition(s: &str, i: usize) -> (r: Option<(usize, crate::ast::Condition)>)
    requires
        i <= s@.len(),
    ensures
        match r {
            Some((p, c)) => sp_primary(s@, i as int) == Some((p as int, cond_shape(c))) && i < p
                <= s@.len(),
            None => sp_primary(s@, i as int) is None,
        },
    decreases s@.len() - i, 0int,
{
    let n = s.unicode_len();
    if i < n && s.get_char(i) == '(' {
        let p = scan_spaces(s, i + 1);
        match parse_or_condition(s, p) {
            Some((p2, c)) => {
                let p3 = scan_spaces(s, p2);
                if p3 < n && s.get_char(p3) == ')' {
                    Some((p3 + 1, c))
                } else {
                    None
                }
            },
            None => None,
        }
    } else {
        parse_single_condition(s, i)
    }
}

/// Parses a possibly negated condition, as `sp_not` describes.
pub fn parse_not_condition(s: &str, i: usize) -> (r: Option<(usize, crate::ast::Condition)>)
    requires
        i <= s@.len(),
    ensures
        match r {
            Some((p, c)) => sp_not(s@, i as int) == Some((p as int, cond_shape(c))) && i < p
                <= s@.len(),
            None => sp_not(s@, i as int) is None,
        },
    decreases s@.len() - i, 1int,
{
    let n = s.unicode_len();
    proof {
        reveal_strlit("NOT");
        assert("NOT"@ =~= seq!['N', 'O', 'T']);
    }
    if match_kw(s, i, "NOT") && i + 3 < n {
        let c3 = s.get_char(i + 3);
        if c3 == ' ' || c3 == '\t' {
            let t = scan_spaces(s, i + 3);
            match parse_primary_condition(s, t) {
                Some((j, c)) => {
                    return Some((j, crate::ast::Condition::Not(Box::new(c))));
                },
                None => {
                    return parse_primary_condition(s, i);
                },
            }
        }
    }
    parse_primary_condition(s, i)
}

/// Parses an `AND` chain, as `sp_and` describes.
pub fn parse_and_condition(s: &str, i: usize) -> (r: Option<(usize, crate::ast::Condition)>)
    requires
        i <= s@.len(),
    ensures
        match r {
            Some((p, c)) => sp_and(s@, i as int) == Some((p as int, cond_shape(c))) && i < p
                <= s@.len(),
            None => sp_and(s@, i as int) is None,
        },
    decreases s@.len() - i, 2int,
{
    let n = s.unicode_len();
    proof {
        reveal_strlit("AND");
        assert("AND"@ =~= seq!['A', 'N', 'D']);
    }
    let (p0, c0) = match parse_not_condition(s, i) {
        Some(x) => x,
        None => {
            return None;
        },
    };
    let mut p = p0;
    let mut acc = c0;
    loop
        invariant_except_break
            i < p <= n,
            n == s@.len(),
            i <= s@.len(),
            sp_and_rest(s@, p as int, cond_shape(acc)) == sp_and(s@, i as int),
        ensures
            i < p <= n,
            n == s@.len(),
            sp_and(s@, i as int) == Some((p as int, cond_shape(acc))),
        decreases n - p,
    {
        proof {
            reveal_strlit("AND");
            assert("AND"@ =~= seq!['A', 'N', 'D']);
        }
        let p2 = scan_spaces(s, p);
        if !match_kw(s, p2, "AND") {
            break ;
        }
        if !(p2 + 3 < n) {
            break ;
        }
        let cs = s.get_char(p2 + 3);
        if !(cs == ' ' || cs == '\t') {
            break ;
        }
        let t = scan_spaces(s, p2 + 3);
        match parse_not_condition(s, t) {
            Some((pn, cn)) => {
                if pn <= p {
                    break ;
                }
                acc = crate::ast::Condition::And(Box::new(acc), Box::new(cn));
                p = pn;
            },
            None => {
                break ;
            },
        }
    }
    Some((p, acc))
}

/// Parses the whole boolean expression, as `sp_or` describes.
pub fn parse_or_condition(s: &str, i: usize) -> (r: Option<(usize, crate::ast::Condition)>)
    requires
        i <= s@.len(),
    ensures
        match r {
            Some((p, c)) => sp_or(s@, i as int) == Some((p as int, cond_shape(c))) && i < p
                <= s@.len(),
            None => sp_or(s@, i as int) is None,
        },
    decreases s@.len() - i, 3int,
{
    let n = s.unicode_len();
    proof {
        reveal_strlit("OR");
        assert("OR"@ =~= seq!['O', 'R']);
    }
    let (p0, c0) = match parse_and_condition(s, i) {
        Some(x) => x,
        None => {
            return None;
        },
    };
    let mut p = p0;
    let mut acc = c0;
    loop
        invariant_except_break
            i < p <= n,
            n == s@.len(),
            i <= s@.len(),
            sp_or_rest(s@, p as int, cond_shape(acc)) == sp_or(s@, i as int),
        ensures
            i < p <= n,
            n == s@.len(),
            sp_or(s@, i as int) == Some((p as int, cond_shape(acc))),
        decreases n - p,
    {
        proof {
            reveal_strlit("OR");
            assert("OR"@ =~= seq!['O', 'R']);
        }
        let p2 = scan_spaces(s, p);
        if !match_kw(s, p2, "OR") {
            break ;
        }
        if !(p2 + 2 < n) {
            break ;
        }
        let cs = s.get_char(p2 + 2);
        if !(cs == ' ' || cs == '\t') {
            break ;
        }
        let t = scan_spaces(s, p2 + 2);
        match parse_and_condition(s, t) {
            Some((pn, cn)) => {
                if pn <= p {
                    break ;
                }
                acc = crate::ast::Condition::Or(Box::new(acc), Box::new(cn));
                p = pn;
            },
            None => {
                break ;
            },
        }
    }
    Some((p, acc))
}

} // verus!

verus! {

/// The shape of an aggregate call: its kind and argument column.
pub enum AggShape {
    CountA(Seq<char>),
    MinA(Seq<char>),
    MaxA(Seq<char>),
    SumA(Seq<char>),
    AvgA(Seq<char>),
}

pub open spec fn agg_shape(f: crate::ast::AggregateFunction) -> AggShape {
    match f {
        crate::ast::AggregateFunction::Count(c) => AggShape::CountA(c@),
        crate::ast::AggregateFunction::Min(c) => AggShape::MinA(c@),
        crate::ast::AggregateFunction::Max(c) => AggShape::MaxA(c@),
        crate::ast::AggregateFunction::Sum(c) => AggShape::SumA(c@),
        crate::ast::AggregateFunction::Avg(c) => AggShape::AvgA(c@),
    }
}

pub open spec fn aggs_shape(v: Seq<crate::ast::AggregateFunction>) -> Seq<AggShape> {
    v.map_values(|f: crate::ast::AggregateFunction| agg_shape(f))
}

/// The parenthesized argument of an aggregate call: `(*)` gives the
/// synthetic name `(*)`; otherwise a column in parentheses.
pub open spec fn agg_args_at(s: Seq<char>, q: int) -> Option<(int, Seq<char>)> {
    if 0 <= q && q < s.len() && s[q] == '(' {
        if q + 2 < s.len() && s[q + 1] == '*' && s[q + 2] == ')' {
            Some((q + 3, seq!['(', '*', ')']))
        } else {
            match column_at(s, q + 1) {
                Some((e, col)) => {
                    if e < s.len() && s[e] == ')' {
                        Some((e + 1, col))
                    } else {
                        None
                    }
                },
                None => None,
            }
        }
    } else {
        None
    }
}

/// An aggregate call in the select list: a case-blind function name and a
/// parenthesized argument, with no spaces inside the parentheses.
pub open spec fn aggregate_at(s: Seq<char>, i: int) -> Option<(int, AggShape)> {
    let p = space_end(s, i);
    if matches_nocase(s, p, seq!['C', 'O', 'U', 'N', 'T']) {
        match agg_args_at(s, p + 5) {
            Some((e, col)) => Some((e, AggShape::CountA(col))),
            None => None,
        }
    } else if matches_nocase(s, p, seq!['M', 'I', 'N']) {
        match agg_args_at(s, p + 3) {
            Some((e, col)) => Some((e, AggShape::MinA(col))),
            None => None,
        }
    } else if matches_nocase(s, p, seq!['M', 'A', 'X']) {
        match agg_args_at(s, p + 3) {
            Some((e, col)) => Some((e, AggShape::MaxA(col))),
            None => None,
        }
    } else if matches_nocase(s, p, seq!['S', 'U', 'M']) {
        match agg_args_at(s, p + 3) {
            Some((e, col)) => Some((e, AggShape::SumA(col))),
            None => None,
        }
    } else if matches_nocase(s, p, seq!['A', 'V', 'G']) {
        match agg_args_at(s, p + 3) {
            Some((e, col)) => Some((e, AggShape::AvgA(col))),
            None => None,
        }
    } else {
        None
    }
}

/// Parses an aggregate argument, as `agg_args_at` describes.
fn parse_agg_args(s: &str, q: usize) -> (r: Option<(usize, String)>)
    requires
        q <= s@.len(),
    ensures
        match r {
            Some((p, c)) => agg_args_at(s@, q as int) == Some((p as int, c@)) && q < p <= s@.len(),
            None => agg_args_at(s@, q as int) is None,
        },
{
    let n = s.unicode_len();
    if q < n && s.get_char(q) == '(' {
        if n - q > 2 && s.get_char(q + 1) == '*' && s.get_char(q + 2) == ')' {
            let mut star = String::new();
            star.append("(*)");
            proof {
                reveal_strlit("(*)");
                assert(star@ =~= seq!['(', '*', ')']);
            }
            return Some((q + 3, star));
        }
        match parse_column(s, q + 1) {
            Some((e, col)) => {
                if e < n && s.get_char(e) == ')' {
                    Some((e + 1, col))
                } else {
                    None
                }
            },
            None => None,
        }
    } else {
        None
    }
}

/// Parses an aggregate call, as `aggregate_at` describes.
pub fn parse_aggregate_function(s: &str, i: usize) -> (r: Option<(
    usize,
    crate::ast::AggregateFunction,
)>)
    requires
        i <= s@.len(),
    ensures
        match r {
            Some((p, f)) => aggregate_at(s@, i as int) == Some((p as int, agg_shape(f))) && i < p
                <= s@.len(),
            None => aggregate_at(s@, i as int) is None,
        },
{
    proof {
        reveal_strlit("COUNT");
        reveal_strlit("MIN");
        reveal_strlit("MAX");
        reveal_strlit("SUM");
        reveal_strlit("AVG");
        assert("COUNT"@ =~= seq!['C', 'O', 'U', 'N', 'T']);
        assert("MIN"@ =~= seq!['M', 'I', 'N']);
        assert("MAX"@ =~= seq!['M', 'A', 'X']);
        assert("SUM"@ =~= seq!['S', 'U', 'M']);
        assert("AVG"@ =~= seq!['A', 'V', 'G']);
    }
    let n = s.unicode_len();
    let p = scan_spaces(s, i);
    if match_kw_nocase(s, p, "COUNT") {
        match parse_agg_args(s, p + 5) {
            Some((e, col)) => Some((e, crate::ast::AggregateFunction::Count(col))),
            None => None,
        }
    } else if match_kw_nocase(s, p, "MIN") {
        match parse_agg_args(s, p + 3) {
            Some((e, col)) => Some((e, crate::ast::AggregateFunction::Min(col))),
            None => None,
        }
    } else if match_kw_nocase(s, p, "MAX") {
        match parse_agg_args(s, p + 3) {
            Some((e, col)) => Some((e, crate::ast::AggregateFunction::Max(col))),
            None => None,
        }
    } else if match_kw_nocase(s, p, "SUM") {
        match parse_agg_args(s, p + 3) {
            Some((e, col)) => Some((e, crate::ast::AggregateFunction::Sum(col))),
            None => None,
        }
    } else if match_kw_nocase(s, p, "AVG") {
        match parse_agg_args(s, p + 3) {
            Some((e, col)) => Some((e, crate::ast::AggregateFunction::Avg(col))),
            None => None,
        }
    } else {
        None
    }
}

} // verus!

verus! {

/// One select-list item: an aggregate call or a plain column.
pub enum SelectItem {
    AggItem(AggShape),
    ColItem(Seq<char>),
}

/// A select-list item: aggregate calls are tried before plain columns.
pub open spec fn item_at(s: Seq<char>, i: int) -> Option<(int, SelectItem)> {
    match aggregate_at(s, i) {
        Some((e, a)) => Some((e, SelectItem::AggItem(a))),
        None => match column_at(s, i) {
            Some((e, c)) => Some((e, SelectItem::ColItem(c))),
            None => None,
        },
    }
}

/// The comma-separated items after the first one: each step takes a comma
/// and one item; the list stops before a comma whose item does not parse.
pub open spec fn sp_items_rest(
    s: Seq<char>,
    p: int,
    aggs: Seq<AggShape>,
    cols: Seq<Seq<char>>,
) -> (int, Seq<AggShape>, Seq<Seq<char>>)
    decreases s.len() - p,
{
    if !(0 <= p <= s.len()) {
        (p, aggs, cols)
    } else {
        let q = space_end(s, p);
        if 0 <= q < s.len() && s[q] == ',' {
            let t = space_end(s, q + 1);
            match item_at(s, t) {
                Some((e, item)) => {
                    if e <= p || e > s.len() {
                        (p, aggs, cols)
                    } else {
                        match item {
                            SelectItem::AggItem(a) => sp_items_rest(s, e, aggs.push(a), cols),
                            SelectItem::ColItem(c) => sp_items_rest(s, e, aggs, cols.push(c)),
                        }
                    }
                },
                None => (p, aggs, cols),
            }
        } else {
            (p, aggs, cols)
        }
    }
}

/// The select clause: `SELECT`, an optional `DISTINCT`, then one or more
/// items. Aggregate calls and plain columns are collected separately, each
/// in declared order.
pub open spec fn sp_columns(s: Seq<char>, i: int) -> Option<(
    int,
    bool,
    Seq<AggShape>,
    Seq<Seq<char>>,
)> {
    let p0 = space_end(s, i);
    if !(matches_at(s, p0, seq!['S', 'E', 'L', 'E', 'C', 'T']) && p0 + 6 < s.len() && is_space(
        s[p0 + 6],
    )) {
        None
    } else {
        let p1 = space_end(s, p0 + 6);
        let d = matches_at(s, p1, seq!['D', 'I', 'S', 'T', 'I', 'N', 'C', 'T']) && p1 + 8 < s.len()
            && is_space(s[p1 + 8]);
        let p2 = if d {
            space_end(s, p1 + 8)
        } else {
            p1
        };
        match item_at(s, p2) {
            None => None,
            Some((e, item)) => {
                if e <= p2 || e > s.len() {
                    None
                } else {
                    let folded = match item {
                        SelectItem::AggItem(a) => sp_items_rest(
                            s,
                            e,
                            seq![a],
                            Seq::<Seq<char>>::empty(),
                        ),
                        SelectItem::ColItem(c) => sp_items_rest(
                            s,
                            e,
                            Seq::<AggShape>::empty(),
                            seq![c],
                        ),
                    };
                    Some((folded.0, d, folded.1, folded.2))
                }
            },
        }
    }
}

/// Parses one select-list item, as `item_at` describes.
fn parse_item(s: &str, i: usize) -> (r: Option<(usize, Option<crate::ast::AggregateFunction>, Option<
    String,
>)>)
    requires
        i <= s@.len(),
    ensures
        match r {
            Some((p, af, cf)) => {
                &&& i < p <= s@.len()
                &&& (af is Some <==> cf is None)
                &&& (match af {
                    Some(f) => item_at(s@, i as int) == Some(
                        (p as int, SelectItem::AggItem(agg_shape(f))),
                    ),
                    None => item_at(s@, i as int) == Some(
                        (p as int, SelectItem::ColItem(cf->Some_0@)),
                    ),
                })
            },
            None => item_at(s@, i as int) is None,
        },
{
    match parse_aggregate_function(s, i) {
        Some((e, f)) => Some((e, Some(f), None)),
        None => {
            match parse_column(s, i) {
                Some((e, c)) => Some((e, None, Some(c))),
                None => None,
            }
        },
    }
}

/// Parses the select clause, as `sp_columns` describes.
pub fn parse_columns(s: &str, i: usize) -> (r: Option<(
    usize,
    bool,
    Vec<crate::ast::AggregateFunction>,
    Vec<String>,
)>)
    requires
        i <= s@.len(),
    ensures
        match r {
            Some((p, d, aggs, cols)) => sp_columns(s@, i as int) == Some(
                (p as int, d, aggs_shape(aggs@), cols.deep_view()),
            ) && p <= s@.len(),
            None => sp_columns(s@, i as int) is None,
        },
{
    let n = s.unicode_len();
    proof {
        reveal_strlit("SELECT");
        reveal_strlit("DISTINCT");
        assert("SELECT"@ =~= seq!['S', 'E', 'L', 'E', 'C', 'T']);
        assert("DISTINCT"@ =~= seq!['D', 'I', 'S', 'T', 'I', 'N', 'C', 'T']);
    }
    let p0 = scan_spaces(s, i);
    if !match_kw(s, p0, "SELECT") {
        return None;
    }
    if !(n - p0 > 6) {
        return None;
    }
    let c6 = s.get_char(p0 + 6);
    if !(c6 == ' ' || c6 == '\t') {
        return None;
    }
    let p1 = scan_spaces(s, p0 + 6);
    let mut d = false;
    let mut p2 = p1;
    if match_kw(s, p1, "DISTINCT") && n - p1 > 8 {
        let c8 = s.get_char(p1 + 8);
        if c8 == ' ' || c8 == '\t' {
            d = true;
            p2 = scan_spaces(s, p1 + 8);
        }
    }
    let mut aggs: Vec<crate::ast::AggregateFunction> = Vec::new();
    let mut cols: Vec<String> = Vec::new();
    let first = match parse_item(s, p2) {
        Some(x) => x,
        None => {
            return None;
        },
    };
    let mut p = first.0;
    match first.1 {
        Some(f) => aggs.push(f),
        None => {
            match first.2 {
                Some(c) => cols.push(c),
                None => (),
            }
        },
    }
    let ghost aggs0 = aggs_shape(aggs@);
    let ghost cols0 = cols.deep_view();
    proof {
        assert(aggs_shape(aggs@) =~= (match item_at(s@, p2 as int)->Some_0.1 {
            SelectItem::AggItem(a) => seq![a],
            SelectItem::ColItem(_) => Seq::<AggShape>::empty(),
        }));
        assert(cols.deep_view() =~= (match item_at(s@, p2 as int)->Some_0.1 {
            SelectItem::AggItem(_) => Seq::<Seq<char>>::empty(),
            SelectItem::ColItem(c) => seq![c],
        }));
    }
    loop
        invariant_except_break
            p <= n,
            n == s@.len(),
            sp_items_rest(s@, p as int, aggs_shape(aggs@), cols.deep_view()) == sp_items_rest(
                s@,
                first.0 as int,
                aggs0,
                cols0,
            ),
        ensures
            p <= n,
            n == s@.len(),
            sp_items_rest(s@, first.0 as int, aggs0, cols0) == (
                p as int,
                aggs_shape(aggs@),
                cols.deep_view(),
            ),
        decreases n - p,
    {
        let q = scan_spaces(s, p);
        if !(q < n) {
            break ;
        }
        if s.get_char(q) != ',' {
            break ;
        }
        let t = scan_spaces(s, q + 1);
        match parse_item(s, t) {
            Some((e, af, cf)) => {
                let ghost apre = aggs_shape(aggs@);
                let ghost cpre = cols.deep_view();
                match af {
                    Some(f) => {
                        proof {
                            assert(aggs_shape(aggs@.push(f)) =~= apre.push(agg_shape(f)));
                        }
                        aggs.push(f);
                    },
                    None => {
                        match cf {
                            Some(c) => {
                                let ghost cv = c@;
                                proof {
                                    assert(cols.deep_view().push(cv) =~= cpre.push(cv));
                                }
                                push_col(&mut cols, c);
                            },
                            None => (),
                        }
                    },
                }
                p = e;
            },
            None => {
                break ;
            },
        }
    }
    Some((p, d, aggs, cols))
}

/// Appends a column name, tracked on the deep view.
fn push_col(v: &mut Vec<String>, x: String)
    ensures
        final(v).deep_view() == old(v).deep_view().push(x@),
{
    let ghost prev = v@;
    let ghost pre = v.deep_view();
    v.push(x);
    proof {
        assert forall|k: int| 0 <= k < v@.len() implies v.deep_view()[k] == pre.push(
            v@[v@.len() - 1]@,
        )[k] by {
            assert(v.deep_view()[k] == v@[k].deep_view());
            if k < prev.len() {
                assert(v@[k] == prev[k]);
                assert(pre[k] == prev[k].deep_view());
            }
        }
        assert(v.deep_view() =~= pre.push(v@[v@.len() - 1]@));
    }
}

} // verus!

verus! {

/// Further comma-separated columns after the first `GROUP BY` column.
pub open spec fn sp_group_cols_rest(s: Seq<char>, p: int, acc: Seq<Seq<char>>) -> (int, Seq<
    Seq<char>,
>)
    decreases s.len() - p,
{
    if !(0 <= p <= s.len()) {
        (p, acc)
    } else {
        let q = space_end(s, p);
        if 0 <= q < s.len() && s[q] == ',' {
            let t = space_end(s, q + 1);
            match column_at(s, t) {
                Some((e, c)) => {
                    if e <= p || e > s.len() {
                        (p, acc)
                    } else {
                        sp_group_cols_rest(s, e, acc.push(c))
                    }
                },
                None => (p, acc),
            }
        } else {
            (p, acc)
        }
    }
}

/// A `GROUP BY` clause: the keyword, then one or more comma-separated
/// columns.
pub open spec fn sp_group_by(s: Seq<char>, i: int) -> Option<(int, Seq<Seq<char>>)> {
    let p = space_end(s, i);
    if matches_at(s, p, seq!['G', 'R', 'O', 'U', 'P', ' ', 'B', 'Y']) && p + 8 < s.len()
        && is_space(s[p + 8]) {
        let t = space_end(s, p + 8);
        match column_at(s, t) {
            Some((e, c)) => {
                if e <= t || e > s.len() {
                    None
                } else {
                    Some(sp_group_cols_rest(s, e, seq![c]))
                }
            },
            None => None,
        }
    } else {
        None
    }
}

/// Parses a `GROUP BY` clause, as `sp_group_by` describes.
pub fn parse_group_by(s: &str, i: usize) -> (r: Option<(usize, Vec<String>)>)
    requires
        i <= s@.len(),
    ensures
        match r {
            Some((p, cols)) => sp_group_by(s@, i as int) == Some((p as int, cols.deep_view())) && p
                <= s@.len(),
            None => sp_group_by(s@, i as int) is None,
        },
{
    let n = s.unicode_len();
    proof {
        reveal_strlit("GROUP BY");
        assert("GROUP BY"@ =~= seq!['G', 'R', 'O', 'U', 'P', ' ', 'B', 'Y']);
    }
    let p = scan_spaces(s, i);
    if !match_kw(s, p, "GROUP BY") {
        return None;
    }
    if !(n - p > 8) {
        return None;
    }
    let c8 = s.get_char(p + 8);
    if !(c8 == ' ' || c8 == '\t') {
        return None;
    }
    let t = scan_spaces(s, p + 8);
    let mut cols: Vec<String> = Vec::new();
    let mut pos: usize;
    match parse_column(s, t) {
        Some((e, c)) => {
            push_col(&mut cols, c);
            pos = e;
        },
        None => {
            return None;
        },
    }
    let ghost cols0 = cols.deep_view();
    let ghost pos0 = pos as int;
    proof {
        assert(cols.deep_view() =~= seq![column_at(s@, t as int)->Some_0.1]);
    }
    loop
        invariant_except_break
            pos <= n,
            n == s@.len(),
            sp_group_cols_rest(s@, pos as int, cols.deep_view()) == sp_group_cols_rest(
                s@,
                pos0,
                cols0,
            ),
        ensures
            pos <= n,
            n == s@.len(),
            sp_group_cols_rest(s@, pos0, cols0) == (pos as int, cols.deep_view()),
        decreases n - pos,
    {
        let q = scan_spaces(s, pos);
        if !(q < n) {
            break ;
        }
        if s.get_char(q) != ',' {
            break ;
        }
        let t2 = scan_spaces(s, q + 1);
        match parse_column(s, t2) {
            Some((e, c)) => {
                let ghost cpre = cols.deep_view();
                push_col(&mut cols, c);
                pos = e;
            },
            None => {
                break ;
            },
        }
    }
    Some((pos, cols))
}

/// The slash-joined concatenation of path components.
pub open spec fn join_slash(vs: Seq<Seq<char>>) -> Seq<char>
    decreases vs.len(),
{
    if vs.len() == 0 {
        Seq::<char>::empty()
    } else if vs.len() == 1 {
        vs[0]
    } else {
        join_slash(vs.drop_last()) + seq!['/'] + vs.last()
    }
}

/// A character the path grammar skips between components.
pub open spec fn is_path_junk(c: char) -> bool {
    c == '.' || c == '/'
}

/// A character that may appear inside one path component.
pub open spec fn is_comp_char(c: char) -> bool {
    c != '/' && c != '\\' && c != ' ' && c != '\n'
}

pub open spec fn junk_end(s: Seq<char>, i: int) -> int
    decreases s.len() - i,
{
    if 0 <= i < s.len() && is_path_junk(s[i]) {
        junk_end(s, i + 1)
    } else {
        i
    }
}

pub open spec fn comp_end(s: Seq<char>, i: int) -> int
    decreases s.len() - i,
{
    if 0 <= i < s.len() && is_comp_char(s[i]) {
        comp_end(s, i + 1)
    } else {
        i
    }
}

pub proof fn lemma_path_scan_bounds(s: Seq<char>, i: int)
    requires
        0 <= i <= s.len(),
    ensures
        i <= junk_end(s, i) <= s.len(),
        i <= comp_end(s, i) <= s.len(),
    decreases s.len() - i,
{
    if i < s.len() {
        lemma_path_scan_bounds(s, i + 1);
    }
}

/// The components of a file path: runs of dots and slashes are skipped, and
/// each maximal run of component characters is one component. The scan
/// stops, without consuming a trailing skip run, when no component follows.
pub open spec fn sp_file_rest(s: Seq<char>, p: int, acc: Seq<Seq<char>>) -> (int, Seq<Seq<char>>)
    decreases s.len() - p,
{
    if !(0 <= p <= s.len()) {
        (p, acc)
    } else {
        let j = junk_end(s, p);
        let e = comp_end(s, j);
        if j < p || e <= j || e > s.len() {
            (p, acc)
        } else {
            sp_file_rest(s, e, acc.push(s.subrange(j, e)))
        }
    }
}

/// A `FROM` clause: the keyword and a file path, the components joined with
/// slashes.
pub open spec fn sp_table(s: Seq<char>, i: int) -> Option<(int, Seq<char>)> {
    let p = space_end(s, i);
    if matches_at(s, p, seq!['F', 'R', 'O', 'M']) && p + 4 < s.len() && is_space(s[p + 4]) {
        let t = space_end(s, p + 4);
        let parsed = sp_file_rest(s, t, Seq::empty());
        Some((parsed.0, join_slash(parsed.1)))
    } else {
        None
    }
}

fn scan_junk(s: &str, i: usize) -> (r: usize)
    requires
        i <= s@.len(),
    ensures
        r == junk_end(s@, i as int),
        i <= r <= s@.len(),
{
    let n = s.unicode_len();
    let mut j = i;
    while j < n
        invariant
            i <= j <= n,
            n == s@.len(),
            junk_end(s@, i as int) == junk_end(s@, j as int),
        decreases n - j,
    {
        let c = s.get_char(j);
        if !(c == '.' || c == '/') {
            return j;
        }
        j = j + 1;
    }
    j
}

fn scan_comp(s: &str, i: usize) -> (r: usize)
    requires
        i <= s@.len(),
    ensures
        r == comp_end(s@, i as int),
        i <= r <= s@.len(),
{
    let n = s.unicode_len();
    let mut j = i;
    while j < n
        invariant
            i <= j <= n,
            n == s@.len(),
            comp_end(s@, i as int) == comp_end(s@, j as int),
        decreases n - j,
    {
        let c = s.get_char(j);
        if c == '/' || c == '\\' || c == ' ' || c == '\n' {
            return j;
        }
        j = j + 1;
    }
    j
}

/// Parses a `FROM` clause, as `sp_table` describes.
pub fn parse_table(s: &str, i: usize) -> (r: Option<(usize, String)>)
    requires
        i <= s@.len(),
    ensures
        match r {
            Some((p, table)) => sp_table(s@, i as int) == Some((p as int, table@)) && p <= s@.len(),
            None => sp_table(s@, i as int) is None,
        },
{
    let n = s.unicode_len();
    proof {
        reveal_strlit("FROM");
        assert("FROM"@ =~= seq!['F', 'R', 'O', 'M']);
    }
    let p = scan_spaces(s, i);
    if !match_kw(s, p, "FROM") {
        return None;
    }
    if !(n - p > 4) {
        return None;
    }
    let c4 = s.get_char(p + 4);
    if !(c4 == ' ' || c4 == '\t') {
        return None;
    }
    let t = scan_spaces(s, p + 4);
    let mut path = String::new();
    let ghost mut comps: Seq<Seq<char>> = Seq::empty();
    let mut pos = t;
    let mut first = true;
    loop
        invariant_except_break
            pos <= n,
            n == s@.len(),
            path@ == join_slash(comps),
            first == (comps.len() == 0),
            sp_file_rest(s@, pos as int, comps) == sp_file_rest(s@, t as int, Seq::empty()),
        ensures
            pos <= n,
            n == s@.len(),
            sp_file_rest(s@, t as int, Seq::empty()) == (pos as int, comps),
            path@ == join_slash(comps),
        decreases n - pos,
    {
        let j = scan_junk(s, pos);
        let e = scan_comp(s, j);
        if e == j {
            break ;
        }
        let comp = substring(s, j, e);
        if !first {
            path.append("/");
        }
        path.append(comp.as_str());
        proof {
            reveal_strlit("/");
            assert("/"@ =~= seq!['/']);
            let comps2 = comps.push(s@.subrange(j as int, e as int));
            assert(comps2.drop_last() =~= comps);
            assert(comps2.last() == s@.subrange(j as int, e as int));
            if comps.len() == 0 {
                assert(path@ =~= join_slash(comps2));
            } else {
                assert(path@ =~= join_slash(comps2));
            }
            comps = comps2;
        }
        first = false;
        pos = e;
    }
    Some((pos, path))
}

} // verus!

verus! {

/// An aggregate label in an `ORDER BY`: a case-blind function name, then a
/// parenthesized column with optional inner spaces; the label is
/// normalized to the upper-case name.
pub open spec fn agg_name_at(s: Seq<char>, q: int, kw: Seq<char>) -> Option<(int, Seq<char>)> {
    if matches_nocase(s, q, kw) {
        let r = q + kw.len();
        if 0 <= r < s.len() && s[r] == '(' {
            let t = space_end(s, r + 1);
            match column_at(s, t) {
                Some((e, c)) => {
                    let u = space_end(s, e);
                    if 0 <= u < s.len() && s[u] == ')' {
                        Some((u + 1, kw + seq!['('] + c + seq![')']))
                    } else {
                        None
                    }
                },
                None => None,
            }
        } else {
            None
        }
    } else {
        None
    }
}

/// The column operand of an `ORDER BY`: a quoted string, an aggregate
/// label, a bare identifier, or `*`.
pub open spec fn order_col_at(s: Seq<char>, q: int) -> Option<(int, Seq<char>)> {
    if 0 <= q < s.len() && s[q] == '\'' {
        let e = quote_end(s, q + 1);
        if e < s.len() && e > q + 1 {
            Some(((e + 1) as int, s.subrange(q + 1, e)))
        } else {
            None
        }
    } else if agg_name_at(s, q, seq!['C', 'O', 'U', 'N', 'T']) is Some {
        agg_name_at(s, q, seq!['C', 'O', 'U', 'N', 'T'])
    } else if agg_name_at(s, q, seq!['M', 'I', 'N']) is Some {
        agg_name_at(s, q, seq!['M', 'I', 'N'])
    } else if agg_name_at(s, q, seq!['M', 'A', 'X']) is Some {
        agg_name_at(s, q, seq!['M', 'A', 'X'])
    } else if agg_name_at(s, q, seq!['S', 'U', 'M']) is Some {
        agg_name_at(s, q, seq!['S', 'U', 'M'])
    } else if agg_name_at(s, q, seq!['A', 'V', 'G']) is Some {
        agg_name_at(s, q, seq!['A', 'V', 'G'])
    } else {
        let e = ident_end(s, q);
        if e > q {
            Some((e, s.subrange(q, e)))
        } else if 0 <= q < s.len() && s[q] == '*' {
            Some(((q + 1) as int, seq!['*']))
        } else {
            None
        }
    }
}

/// An `ORDER BY` clause: the keyword, a column operand, and an optional
/// direction, ascending by default.
pub open spec fn sp_order_by(s: Seq<char>, i: int) -> Option<(int, Seq<char>, bool)> {
    let p = space_end(s, i);
    if matches_at(s, p, seq!['O', 'R', 'D', 'E', 'R', ' ', 'B', 'Y']) && p + 8 < s.len()
        && is_space(s[p + 8]) {
        let t = space_end(s, p + 8);
        match order_col_at(s, t) {
            Some((e, label)) => {
                let u = space_end(s, e);
                if matches_at(s, u, seq!['A', 'S', 'C']) {
                    Some((u + 3, label, false))
                } else if matches_at(s, u, seq!['D', 'E', 'S', 'C']) {
                    Some((u + 4, label, true))
                } else {
                    Some((e, label, false))
                }
            },
            None => None,
        }
    } else {
        None
    }
}

/// Parses an aggregate label operand, as `agg_name_at` describes.
fn parse_agg_name(s: &str, q: usize, kw: &str) -> (r: Option<(usize, String)>)
    requires
        q <= s@.len(),
        kw@.len() <= 8,
    ensures
        match r {
            Some((p, label)) => agg_name_at(s@, q as int, kw@) == Some((p as int, label@)) && p
                <= s@.len(),
            None => agg_name_at(s@, q as int, kw@) is None,
        },
{
    let n = s.unicode_len();
    if !match_kw_nocase(s, q, kw) {
        return None;
    }
    let m = kw.unicode_len();
    let r = q + m;
    if !(r < n) {
        return None;
    }
    if s.get_char(r) != '(' {
        return None;
    }
    let t = scan_spaces(s, r + 1);
    match parse_column(s, t) {
        Some((e, c)) => {
            let u = scan_spaces(s, e);
            if u < n && s.get_char(u) == ')' {
                let mut label = kw.to_owned();
                label.append("(");
                label.append(c.as_str());
                label.append(")");
                proof {
                    reveal_strlit("(");
                    reveal_strlit(")");
                    assert("("@ =~= seq!['(']);
                    assert(")"@ =~= seq![')']);
                    assert(label@ =~= kw@ + seq!['('] + c@ + seq![')']);
                }
                Some((u + 1, label))
            } else {
                None
            }
        },
        None => None,
    }
}

/// Parses an `ORDER BY` column operand, as `order_col_at` describes.
fn parse_order_col(s: &str, q: usize) -> (r: Option<(usize, String)>)
    requires
        q <= s@.len(),
    ensures
        match r {
            Some((p, label)) => order_col_at(s@, q as int) == Some((p as int, label@)) && p
                <= s@.len(),
            None => order_col_at(s@, q as int) is None,
        },
{
    let n = s.unicode_len();
    proof {
        reveal_strlit("COUNT");
        reveal_strlit("MIN");
        reveal_strlit("MAX");
        reveal_strlit("SUM");
        reveal_strlit("AVG");
        assert("COUNT"@ =~= seq!['C', 'O', 'U', 'N', 'T']);
        assert("MIN"@ =~= seq!['M', 'I', 'N']);
        assert("MAX"@ =~= seq!['M', 'A', 'X']);
        assert("SUM"@ =~= seq!['S', 'U', 'M']);
        assert("AVG"@ =~= seq!['A', 'V', 'G']);
    }
    if q < n && s.get_char(q) == '\'' {
        let e = scan_to_quote(s, q + 1);
        if e < n && e > q + 1 {
            return Some((e + 1, substring(s, q + 1, e)));
        }
        return None;
    }
    match parse_agg_name(s, q, "COUNT") {
        Some(x) => {
            return Some(x);
        },
        None => {},
    }
    match parse_agg_name(s, q, "MIN") {
        Some(x) => {
            return Some(x);
        },
        None => {},
    }
    match parse_agg_name(s, q, "MAX") {
        Some(x) => {
            return Some(x);
        },
        None => {},
    }
    match parse_agg_name(s, q, "SUM") {
        Some(x) => {
            return Some(x);
        },
        None => {},
    }
    match parse_agg_name(s, q, "AVG") {
        Some(x) => {
            return Some(x);
        },
        None => {},
    }
    let e = scan_ident(s, q);
    if e > q {
        return Some((e, substring(s, q, e)));
    }
    if q < n && s.get_char(q) == '*' {
        let mut star = String::new();
        star.append("*");
        proof {
            reveal_strlit("*");
            assert(star@ =~= seq!['*']);
        }
        return Some((q + 1, star));
    }
    None
}

/// Parses an `ORDER BY` clause, as `sp_order_by` describes.
pub fn parse_order_by(s: &str, i: usize) -> (r: Option<(usize, crate::ast::OrderBy)>)
    requires
        i <= s@.len(),
    ensures
        match r {
            Some((p, ob)) => sp_order_by(s@, i as int) == Some(
                (
                    p as int,
                    ob.column@,
                    ob.direction == crate::ast::SortDirection::Descending,
                ),
            ) && p <= s@.len(),
            None => sp_order_by(s@, i as int) is None,
        },
{
    let n = s.unicode_len();
    proof {
        reveal_strlit("ORDER BY");
        reveal_strlit("ASC");
        reveal_strlit("DESC");
        assert("ORDER BY"@ =~= seq!['O', 'R', 'D', 'E', 'R', ' ', 'B', 'Y']);
        assert("ASC"@ =~= seq!['A', 'S', 'C']);
        assert("DESC"@ =~= seq!['D', 'E', 'S', 'C']);
    }
    let p = scan_spaces(s, i);
    if !match_kw(s, p, "ORDER BY") {
        return None;
    }
    if !(n - p > 8) {
        return None;
    }
    let c8 = s.get_char(p + 8);
    if !(c8 == ' ' || c8 == '\t') {
        return None;
    }
    let t = scan_spaces(s, p + 8);
    match parse_order_col(s, t) {
        Some((e, label)) => {
            let u = scan_spaces(s, e);
            if match_kw(s, u, "ASC") {
                Some(
                    (
                        u + 3,
                        crate::ast::OrderBy {
                            column: label,
                            direction: crate::ast::SortDirection::Ascending,
                        },
                    ),
                )
            } else if match_kw(s, u, "DESC") {
                Some(
                    (
                        u + 4,
                        crate::ast::OrderBy {
                            column: label,
                            direction: crate::ast::SortDirection::Descending,
                        },
                    ),
                )
            } else {
                Some(
                    (
                        e,
                        crate::ast::OrderBy {
                            column: label,
                            direction: crate::ast::SortDirection::Ascending,
                        },
                    ),
                )
            }
        },
        None => None,
    }
}

} // verus!

verus! {

/// The shape of a parsed query: every field of `SQLQuery`, with strings as
/// character sequences.
pub struct QueryShape {
    pub distinct: bool,
    pub aggs: Seq<AggShape>,
    pub cols: Seq<Seq<char>>,
    pub table: Seq<char>,
    pub cond: Option<CondShape>,
    pub group: Option<Seq<Seq<char>>>,
    pub order: Option<(Seq<char>, bool)>,
}

/// The shape of a query value.
pub open spec fn query_shape(q: crate::ast::SQLQuery) -> QueryShape {
    QueryShape {
        distinct: q.distinct,
        aggs: aggs_shape(q.aggregate_functions@),
        cols: q.columns.deep_view(),
        table: q.table@,
        cond: match q.condition {
            Some(c) => Some(cond_shape(c)),
            None => None,
        },
        group: match q.group_by {
            Some(g) => Some(g.deep_view()),
            None => None,
        },
        order: match q.order_by {
            Some(ob) => Some(
                (ob.column@, ob.direction == crate::ast::SortDirection::Descending),
            ),
            None => None,
        },
    }
}

/// An optional `WHERE` clause: when the keyword or the expression after it
/// does not parse, nothing is consumed and there is no predicate.
pub open spec fn sp_condition_opt(s: Seq<char>, p: int) -> (int, Option<CondShape>) {
    let q = space_end(s, p);
    if matches_at(s, q, seq!['W', 'H', 'E', 'R', 'E']) && q + 5 < s.len() && is_space(s[q + 5]) {
        let t = space_end(s, q + 5);
        if t < p || t > s.len() {
            (p, None)
        } else {
            match sp_or(s, t) {
                Some((e, c)) => (e, Some(c)),
                None => (p, None),
            }
        }
    } else {
        (p, None)
    }
}

/// A whole query: the select clause, the table, then the optional `WHERE`,
/// `GROUP BY` and `ORDER BY` clauses; a clause that does not parse is
/// skipped and the text from it on is left unconsumed.
pub open spec fn sp_query(s: Seq<char>) -> Option<(int, QueryShape)> {
    match sp_columns(s, 0) {
        None => None,
        Some((p1, d, aggs, cols)) => match sp_table(s, p1) {
            None => None,
            Some((p2, table)) => {
                let (p3, cond) = sp_condition_opt(s, p2);
                let (p4, group) = match sp_group_by(s, p3) {
                    Some((e, g)) => (e, Some(g)),
                    None => (p3, None::<Seq<Seq<char>>>),
                };
                let (p5, order) = match sp_order_by(s, p4) {
                    Some((e, label, desc)) => (e, Some((label, desc))),
                    None => (p4, None::<(Seq<char>, bool)>),
                };
                Some((p5, QueryShape { distinct: d, aggs, cols, table, cond, group, order }))
            },
        },
    }
}

/// Parses a query text, as `sp_query` describes: on success the parsed
/// query and the unconsumed remainder of the text; otherwise an error
/// carrying the offset of the first character that could not be used.
pub fn parse_sql(input: &str) -> (r: Result<(String, crate::ast::SQLQuery), crate::ast::ParseError>)
    ensures
        match r {
            Ok((rest, q)) => {
                &&& sp_query(input@) matches Some((e, sh))
                &&& rest@ == input@.subrange(sp_query(input@)->Some_0.0, input@.len() as int)
                &&& query_shape(q) == sp_query(input@)->Some_0.1
            },
            Err(e) => sp_query(input@) is None && e.offset as int == (
            match sp_columns(input@, 0) {
                None => 0int,
                Some((p1, _, _, _)) => p1,
            }),
        },
{
    let n = input.unicode_len();
    proof {
        reveal_strlit("WHERE");
        assert("WHERE"@ =~= seq!['W', 'H', 'E', 'R', 'E']);
    }
    let (p1, distinct, aggregate_functions, columns) = match parse_columns(input, 0) {
        Some(x) => x,
        None => {
            return Err(crate::ast::ParseError { offset: 0 });
        },
    };
    let (p2, table) = match parse_table(input, p1) {
        Some(x) => x,
        None => {
            return Err(crate::ast::ParseError { offset: p1 });
        },
    };
    let mut p3 = p2;
    let mut condition: Option<crate::ast::Condition> = None;
    let q = scan_spaces(input, p2);
    if match_kw(input, q, "WHERE") && n - q > 5 {
        let c5 = input.get_char(q + 5);
        if c5 == ' ' || c5 == '\t' {
            let t = scan_spaces(input, q + 5);
            match parse_or_condition(input, t) {
                Some((e, c)) => {
                    p3 = e;
                    condition = Some(c);
                },
                None => {},
            }
        }
    }
    let mut p4 = p3;
    let mut group_by: Option<Vec<String>> = None;
    match parse_group_by(input, p3) {
        Some((e, g)) => {
            p4 = e;
            group_by = Some(g);
        },
        None => {},
    }
    let mut p5 = p4;
    let mut order_by: Option<crate::ast::OrderBy> = None;
    match parse_order_by(input, p4) {
        Some((e, ob)) => {
            p5 = e;
            order_by = Some(ob);
        },
        None => {},
    }
    let rest = substring(input, p5, n);
    Ok(
        (
            rest,
            crate::ast::SQLQuery {
                columns,
                table,
                condition,
                order_by,
                distinct,
                group_by,
                aggregate_functions,
            },
        ),
    )
}

} // verus!
