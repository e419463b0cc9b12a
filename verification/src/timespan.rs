use vstd::prelude::*;
use vstd::string::StrSliceExecFns;
use crate::numbers::{spec_parse_u64, parse_u64};
use crate::parser::substring;

verus! {

/// The position of the first `:` at or after `i`, or the text's end.
pub open spec fn colon_end(s: Seq<char>, i: int) -> int
    decreases s.len() - i,
{
    if 0 <= i < s.len() && s[i] != ':' {
        colon_end(s, i + 1)
    } else {
        i
    }
}

pub proof fn lemma_colon_bounds(s: Seq<char>, i: int)
    requires
        0 <= i <= s.len(),
    ensures
        i <= colon_end(s, i) <= s.len(),
    decreases s.len() - i,
{
    if i < s.len() {
        lemma_colon_bounds(s, i + 1);
    }
}

/// The number of seconds an input denotes: `MM:SS` splits at the first
/// colon into minutes and seconds, both decimal; a plain number is read as
/// seconds; anything else (including a sum beyond `u64`) denotes nothing.
pub open spec fn spec_parse_duration(s: Seq<char>) -> Option<u64> {
    let k = colon_end(s, 0);
    if k < s.len() {
        match (spec_parse_u64(s.take(k)), spec_parse_u64(s.skip(k + 1))) {
            (Some(m), Some(x)) => {
                if m * 60 + x <= u64::MAX {
                    Some((m * 60 + x) as u64)
                } else {
                    None
                }
            },
            _ => None,
        }
    } else {
        spec_parse_u64(s)
    }
}

/// Finds the first colon, as `colon_end` describes.
fn scan_to_colon(s: &str) -> (r: usize)
    ensures
        r == colon_end(s@, 0),
        r <= s@.len(),
{
    let n = s.unicode_len();
    let mut k: usize = 0;
    while k < n
        invariant
            k <= n,
            n == s@.len(),
            colon_end(s@, 0) == colon_end(s@, k as int),
        decreases n - k,
    {
        if s.get_char(k) == ':' {
            return k;
        }
        k = k + 1;
    }
    k
}

/// Parses a countdown length in seconds, as `spec_parse_duration`
/// describes.
pub fn parse_duration(input: &str) -> (r: Option<u64>)
    ensures
        r == spec_parse_duration(input@),
{
    let n = input.unicode_len();
    let k = scan_to_colon(input);
    if k < n {
        let minutes = substring(input, 0, k);
        let seconds = substring(input, k + 1, n);
        proof {
            assert(minutes@ =~= input@.take(k as int));
            assert(seconds@ =~= input@.skip(k + 1));
        }
        match (parse_u64(minutes.as_str()), parse_u64(seconds.as_str())) {
            (Some(m), Some(x)) => {
                let total = m as u128 * 60 + x as u128;
                if total <= u64::MAX as u128 {
                    Some(total as u64)
                } else {
                    None
                }
            },
            _ => None,
        }
    } else {
        parse_u64(input)
    }
}

} // verus!
