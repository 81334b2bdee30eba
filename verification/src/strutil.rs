//! First-occurrence substring replacement over character sequences.

use vstd::prelude::*;
use vstd::string::*;

verus! {

/// `pat` occurs in `s` at character position `i`.
pub open spec fn match_at(s: Seq<char>, pat: Seq<char>, i: int) -> bool {
    0 <= i && i + pat.len() <= s.len() && s.subrange(i, i + pat.len() as int) == pat
}

/// The first position `>= i` at which `pat` occurs in `s`, if any.
pub open spec fn first_match_from(s: Seq<char>, pat: Seq<char>, i: int) -> Option<int>
    decreases s.len() - i + 1,
{
    if i < 0 || i + pat.len() > s.len() {
        None
    } else if s.subrange(i, i + pat.len() as int) == pat {
        Some(i)
    } else {
        first_match_from(s, pat, i + 1)
    }
}

/// `s` with the first occurrence of `pat` (if any) replaced by `repl`.
pub open spec fn replace_first_spec(s: Seq<char>, pat: Seq<char>, repl: Seq<char>) -> Seq<char> {
    match first_match_from(s, pat, 0) {
        Some(i) => s.take(i) + repl + s.skip(i + pat.len() as int),
        None => s,
    }
}

/// Past the last feasible position there is no match.
proof fn lemma_first_match_none(s: Seq<char>, pat: Seq<char>, i: int)
    requires
        i + pat.len() > s.len(),
    ensures
        first_match_from(s, pat, i) == None::<int>,
{
}

/// Scanning may start anywhere before the first occurrence.
proof fn lemma_first_match_step(s: Seq<char>, pat: Seq<char>, i: int, j: int)
    requires
        0 <= i <= j,
        forall|k: int| i <= k < j ==> !match_at(s, pat, k),
    ensures
        first_match_from(s, pat, i) == first_match_from(s, pat, j),
    decreases j - i,
{
    if i < j {
        if i + pat.len() > s.len() {
            lemma_first_match_none(s, pat, i);
            lemma_first_match_none(s, pat, j);
        } else {
            assert(!match_at(s, pat, i));
            assert(s.subrange(i, i + pat.len() as int) != pat);
            lemma_first_match_step(s, pat, i + 1, j);
        }
    }
}

/// If `pat` occurs nowhere in `s`, the scan from the front finds nothing.
pub proof fn lemma_first_match_absent(s: Seq<char>, pat: Seq<char>)
    requires
        forall|k: int| !match_at(s, pat, k),
    ensures
        first_match_from(s, pat, 0) is None,
{
    let last = s.len() - pat.len() + 1;
    if last < 0 {
        lemma_first_match_none(s, pat, 0);
    } else {
        lemma_first_match_step(s, pat, 0, last);
        lemma_first_match_none(s, pat, last);
    }
}

/// Whether `pat` occurs in `s` starting at character position `i`.
fn occurs_at(s: &str, pat: &str, i: usize, plen: usize) -> (r: bool)
    requires
        plen == pat@.len(),
        i + plen <= s@.len() <= usize::MAX,
    ensures
        r == match_at(s@, pat@, i as int),
{
    let mut j: usize = 0;
    while j < plen
        invariant
            plen == pat@.len(),
            i + plen <= s@.len() <= usize::MAX,
            j <= plen,
            forall|k: int| 0 <= k < j ==> s@[i + k] == pat@[k],
        decreases plen - j,
    {
        if s.get_char(i + j) != pat.get_char(j) {
            assert(s@.subrange(i as int, i + plen as int)[j as int] != pat@[j as int]);
            return false;
        }
        j += 1;
    }
    proof {
        assert(s@.subrange(i as int, i + plen as int) =~= pat@);
    }
    true
}

/// A new string equal to `s` with the first occurrence of `pat` (if any)
/// replaced by `repl`; equal to `s` itself if `pat` does not occur.
pub fn replace_first(s: &str, pat: &str, repl: &str) -> (r: String)
    ensures
        r@ == replace_first_spec(s@, pat@, repl@),
{
    let slen = s.unicode_len();
    let plen = pat.unicode_len();
    let mut i: usize = 0;
    while plen <= slen && i <= slen - plen
        invariant
            slen == s@.len(),
            plen == pat@.len(),
            forall|k: int| 0 <= k < i ==> !match_at(s@, pat@, k),
            plen <= slen ==> i <= slen - plen + 1,
        decreases slen - plen - i + 1,
    {
        if occurs_at(s, pat, i, plen) {
            let mut out = String::new();
            out.append(s.substring_char(0, i));
            out.append(repl);
            out.append(s.substring_char(i + plen, slen));
            proof {
                lemma_first_match_step(s@, pat@, 0, i as int);
                assert(first_match_from(s@, pat@, i as int) == Some(i as int));
                assert(out@ =~= s@.take(i as int) + repl@ + s@.skip(i + plen as int));
            }
            return out;
        }
        proof {
            if plen == 0 {
                assert(s@.subrange(i as int, i as int) =~= pat@);
                assert(match_at(s@, pat@, i as int));
            }
        }
        i += 1;
    }
    proof {
        assert forall|k: int| !match_at(s@, pat@, k) by {
            if 0 <= k && k + plen <= slen {
                assert(k < i);
            }
        }
        lemma_first_match_absent(s@, pat@);
    }
    s.to_owned()
}

/// A successful scan result really is a match at or after the scan start.
pub proof fn lemma_first_match_valid(s: Seq<char>, pat: Seq<char>, j: int)
    ensures
        first_match_from(s, pat, j) matches Some(i) ==> j <= i && match_at(s, pat, i),
    decreases s.len() - j + 1,
{
    if !(j < 0 || j + pat.len() > s.len()) {
        if s.subrange(j, j + pat.len() as int) != pat {
            lemma_first_match_valid(s, pat, j + 1);
        }
    }
}

/// Replacement grows a string by at most the replacement's length.
pub proof fn lemma_replace_first_len(s: Seq<char>, pat: Seq<char>, repl: Seq<char>)
    ensures
        replace_first_spec(s, pat, repl).len() <= s.len() + repl.len(),
{
    lemma_first_match_valid(s, pat, 0);
}

/// If `pat` matches at `i` and nowhere earlier, the scan from the front
/// finds exactly `i`.
pub proof fn lemma_first_match_found(s: Seq<char>, pat: Seq<char>, i: int)
    requires
        match_at(s, pat, i),
        forall|k: int| 0 <= k < i ==> !match_at(s, pat, k),
    ensures
        first_match_from(s, pat, 0) == Some(i),
{
    lemma_first_match_step(s, pat, 0, i);
}

} // verus!
