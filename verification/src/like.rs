use vstd::prelude::*;
use vstd::string::StrSliceExecFns;

verus! {

/// What a `LIKE` pattern means: `%` matches any run of characters
/// (including the empty run) and every other pattern character matches
/// exactly itself; the whole text must be covered.
pub open spec fn like_match(p: Seq<char>, t: Seq<char>) -> bool
    decreases p.len(),
{
    if p.len() == 0 {
        t.len() == 0
    } else if p[0] == '%' {
        exists|i: int| 0 <= i <= t.len() && like_match(p.skip(1), t.skip(i))
    } else {
        t.len() > 0 && t[0] == p[0] && like_match(p.skip(1), t.skip(1))
    }
}

/// Decides `like_match` on the suffixes of `p` and `t` that start at `pi`
/// and `ti`.
fn like_rec(p: &str, t: &str, pi: usize, ti: usize) -> (r: bool)
    requires
        pi <= p@.len(),
        ti <= t@.len(),
    ensures
        r == like_match(p@.skip(pi as int), t@.skip(ti as int)),
    decreases p@.len() - pi, t@.len() - ti,
{
    let plen = p.unicode_len();
    let tlen = t.unicode_len();
    if pi == plen {
        return ti == tlen;
    }
    let c = p.get_char(pi);
    proof {
        assert(p@.skip(pi as int)[0] == p@[pi as int]);
        assert(p@.skip(pi as int).skip(1) =~= p@.skip(pi + 1));
    }
    if c == '%' {
        let mut i = ti;
        while i < tlen
            invariant
                ti <= i <= tlen,
                tlen == t@.len(),
                plen == p@.len(),
                pi < plen,
                pi <= p@.len(),
                p@[pi as int] == '%',
                p@.skip(pi as int).skip(1) =~= p@.skip(pi + 1),
                forall|j: int|
                    ti <= j < i ==> !like_match(p@.skip(pi + 1), #[trigger] t@.skip(j)),
            decreases tlen - i,
        {
            if like_rec(p, t, pi + 1, i) {
                proof {
                    assert(t@.skip(ti as int).skip(i - ti) =~= t@.skip(i as int));
                    assert(like_match(p@.skip(pi as int), t@.skip(ti as int))) by {
                        assert(0 <= i - ti <= t@.skip(ti as int).len() && like_match(
                            p@.skip(pi as int).skip(1),
                            t@.skip(ti as int).skip(i - ti),
                        ));
                    }
                }
                return true;
            }
            i = i + 1;
        }
        if like_rec(p, t, pi + 1, tlen) {
            proof {
                assert(t@.skip(ti as int).skip(tlen - ti) =~= t@.skip(tlen as int));
                assert(like_match(p@.skip(pi as int), t@.skip(ti as int))) by {
                    assert(0 <= tlen - ti <= t@.skip(ti as int).len() && like_match(
                        p@.skip(pi as int).skip(1),
                        t@.skip(ti as int).skip(tlen - ti),
                    ));
                }
            }
            return true;
        }
        proof {
            assert forall|k: int| 0 <= k <= t@.skip(ti as int).len() implies !like_match(
                p@.skip(pi as int).skip(1),
                #[trigger] t@.skip(ti as int).skip(k),
            ) by {
                assert(t@.skip(ti as int).skip(k) =~= t@.skip(ti + k));
                assert(!like_match(p@.skip(pi + 1), t@.skip(ti + k)));
            }
        }
        false
    } else {
        if ti == tlen {
            return false;
        }
        if t.get_char(ti) != c {
            proof {
                assert(t@.skip(ti as int)[0] == t@[ti as int]);
            }
            return false;
        }
        proof {
            assert(t@.skip(ti as int)[0] == t@[ti as int]);
            assert(t@.skip(ti as int).skip(1) =~= t@.skip(ti + 1));
        }
        like_rec(p, t, pi + 1, ti + 1)
    }
}

/// Whether `text` matches the `LIKE` pattern, as `like_match` describes.
pub fn like_matches(pattern: &str, text: &str) -> (r: bool)
    ensures
        r == like_match(pattern@, text@),
{
    proof {
        assert(pattern@.skip(0) =~= pattern@);
        assert(text@.skip(0) =~= text@);
    }
    like_rec(pattern, text, 0, 0)
}

/// True when no character of `s` is the `%` wildcard.
pub open spec fn wildcard_free(s: Seq<char>) -> bool {
    forall|i: int| 0 <= i < s.len() ==> s[i] != '%'
}

/// A wildcard-free pattern matches exactly the text equal to it.
pub proof fn lemma_like_exact(s: Seq<char>, t: Seq<char>)
    requires
        wildcard_free(s),
    ensures
        like_match(s, t) <==> s == t,
    decreases s.len(),
{
    if s.len() == 0 {
        if like_match(s, t) {
            assert(t =~= s);
        }
    } else {
        assert(s[0] != '%');
        assert(wildcard_free(s.skip(1))) by {
            assert(forall|i: int| 0 <= i < s.len() - 1 ==> s.skip(1)[i] == s[i + 1]);
        }
        if t.len() > 0 {
            lemma_like_exact(s.skip(1), t.skip(1));
            if t[0] == s[0] && s.skip(1) == t.skip(1) {
                assert(s.len() == t.len());
                assert forall|i: int| 0 <= i < s.len() implies s[i] == t[i] by {
                    if i >= 1 {
                        assert(s[i] == s.skip(1)[i - 1]);
                        assert(t[i] == t.skip(1)[i - 1]);
                    }
                }
                assert(s =~= t);
            }
            if s == t {
                assert(s.skip(1) =~= t.skip(1));
            }
        }
    }
}

/// The law of prefix patterns: `s` followed by one `%` matches exactly the
/// texts that begin with `s`.
pub proof fn lemma_like_prefix(s: Seq<char>, t: Seq<char>)
    requires
        wildcard_free(s),
    ensures
        like_match(s + seq!['%'], t) <==> (t.len() >= s.len() && t.take(s.len() as int) == s),
    decreases s.len(),
{
    let p = s + seq!['%'];
    if s.len() == 0 {
        assert(p[0] == '%');
        assert(p.skip(1) =~= Seq::<char>::empty());
        assert(like_match(p, t)) by {
            assert(t.skip(t.len() as int) =~= Seq::<char>::empty());
            assert(0 <= t.len() <= t.len() && like_match(p.skip(1), t.skip(t.len() as int)));
        }
        assert(t.take(0) =~= s);
    } else {
        assert(p[0] == s[0]);
        assert(p[0] != '%');
        assert(wildcard_free(s.skip(1))) by {
            assert(forall|i: int| 0 <= i < s.len() - 1 ==> s.skip(1)[i] == s[i + 1]);
        }
        assert(p.skip(1) =~= s.skip(1) + seq!['%']);
        if t.len() > 0 {
            lemma_like_prefix(s.skip(1), t.skip(1));
            if like_match(p, t) {
                assert(t.skip(1).take(s.len() - 1) == s.skip(1));
                assert(t.take(s.len() as int) =~= s) by {
                    assert(forall|i: int|
                        1 <= i < s.len() ==> t.take(s.len() as int)[i] == t.skip(1).take(
                            s.len() - 1,
                        )[i - 1]);
                }
            }
            if t.len() >= s.len() && t.take(s.len() as int) == s {
                assert(t[0] == s[0]) by {
                    assert(t.take(s.len() as int)[0] == t[0]);
                }
                assert(t.skip(1).take(s.len() - 1) =~= s.skip(1)) by {
                    assert(forall|i: int|
                        0 <= i < s.len() - 1 ==> #[trigger] t.skip(1).take(s.len() - 1)[i]
                            == t.take(s.len() as int)[i + 1]);
                }
            }
        }
    }
}

/// The law of suffix patterns: one `%` followed by `s` matches exactly the
/// texts that end with `s`.
pub proof fn lemma_like_suffix(s: Seq<char>, t: Seq<char>)
    requires
        wildcard_free(s),
    ensures
        like_match(seq!['%'] + s, t) <==> (t.len() >= s.len() && t.skip(t.len() - s.len()) == s),
{
    let p = seq!['%'] + s;
    assert(p[0] == '%');
    assert(p.skip(1) =~= s);
    if like_match(p, t) {
        let i = choose|i: int| 0 <= i <= t.len() && like_match(p.skip(1), t.skip(i));
        lemma_like_exact(s, t.skip(i));
        assert(t.skip(i) == s);
        assert(t.skip(i).len() == t.len() - i);
        assert(i == t.len() - s.len());
    }
    if t.len() >= s.len() && t.skip(t.len() - s.len()) == s {
        lemma_like_exact(s, t.skip(t.len() - s.len()));
        assert(0 <= t.len() - s.len() <= t.len() && like_match(p.skip(1), t.skip(
            t.len() - s.len(),
        )));
    }
}

/// The law of substring patterns: `%`, then `s`, then `%` matches exactly
/// the texts with `s` somewhere inside.
pub proof fn lemma_like_substring(s: Seq<char>, t: Seq<char>)
    requires
        wildcard_free(s),
    ensures
        like_match(seq!['%'] + s + seq!['%'], t) <==> exists|i: int|
            0 <= i <= t.len() - s.len() && #[trigger] t.subrange(i, i + s.len()) == s,
{
    let p = seq!['%'] + s + seq!['%'];
    assert(p[0] == '%');
    assert(p.skip(1) =~= s + seq!['%']);
    if like_match(p, t) {
        let i = choose|i: int| 0 <= i <= t.len() && like_match(p.skip(1), t.skip(i));
        lemma_like_prefix(s, t.skip(i));
        assert(t.skip(i).take(s.len() as int) =~= t.subrange(i, i + s.len()));
        assert(t.subrange(i, i + s.len()) == s);
        assert(0 <= i <= t.len() - s.len());
    }
    if exists|i: int| 0 <= i <= t.len() - s.len() && #[trigger] t.subrange(i, i + s.len()) == s {
        let i = choose|i: int|
            0 <= i <= t.len() - s.len() && #[trigger] t.subrange(i, i + s.len()) == s;
        lemma_like_prefix(s, t.skip(i));
        assert(t.skip(i).take(s.len() as int) =~= t.subrange(i, i + s.len()));
        assert(like_match(p.skip(1), t.skip(i)));
        assert(like_match(p, t));
    }
}

} // verus!
