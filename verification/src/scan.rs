//! Literal text scanning: finding, splitting on and replacing a fixed
//! pattern inside a string, together with the specifications that the
//! `Config` contracts are stated over.

use vstd::prelude::*;
use vstd::string::*;

verus! {

/// Whether `pat` occurs in `s` starting exactly at position `k`.
pub open spec fn match_at(s: Seq<char>, pat: Seq<char>, k: int) -> bool {
    0 <= k && k + pat.len() <= s.len() && s.subrange(k, k + pat.len()) == pat
}

/// The index of the first occurrence of `pat` in `s`, or `-1` when `pat`
/// does not occur. An empty pattern is treated as never occurring.
pub open spec fn first_match(s: Seq<char>, pat: Seq<char>) -> int
    decreases s.len(),
{
    if pat.len() == 0 || s.len() < pat.len() {
        -1
    } else if s.subrange(0, pat.len() as int) == pat {
        0
    } else {
        let rest = first_match(s.skip(1), pat);
        if rest == -1 {
            -1
        } else {
            rest + 1
        }
    }
}

/// Where `first_match` finds the pattern, it lies inside the string and the
/// pattern is not empty.
pub proof fn lemma_first_match_bounds(s: Seq<char>, pat: Seq<char>)
    ensures
        first_match(s, pat) == -1 || (0 <= first_match(s, pat) && first_match(s, pat)
            + pat.len() <= s.len() && pat.len() >= 1),
    decreases s.len(),
{
    if pat.len() == 0 || s.len() < pat.len() {
    } else if s.subrange(0, pat.len() as int) == pat {
    } else {
        lemma_first_match_bounds(s.skip(1), pat);
    }
}

/// Occurrences shift by one between a string and its tail.
proof fn lemma_match_at_skip(s: Seq<char>, pat: Seq<char>, k: int)
    requires
        k >= 1,
        s.len() >= 1,
    ensures
        match_at(s, pat, k) == match_at(s.skip(1), pat, k - 1),
{
    if k + pat.len() <= s.len() {
        assert(s.skip(1).subrange(k - 1, k - 1 + pat.len()) =~= s.subrange(k, k + pat.len()));
    }
}

/// `first_match` returns the least position at which the pattern occurs,
/// and `-1` exactly when it occurs nowhere.
pub proof fn lemma_first_match_spec(s: Seq<char>, pat: Seq<char>)
    requires
        pat.len() >= 1,
    ensures
        first_match(s, pat) == -1 ==> forall|k: int| !match_at(s, pat, k),
        first_match(s, pat) != -1 ==> match_at(s, pat, first_match(s, pat)) && forall|k: int|
            k < first_match(s, pat) ==> !match_at(s, pat, k),
    decreases s.len(),
{
    if s.len() < pat.len() {
    } else if s.subrange(0, pat.len() as int) == pat {
        assert(match_at(s, pat, 0));
    } else {
        lemma_first_match_spec(s.skip(1), pat);
        let rest = first_match(s.skip(1), pat);
        assert forall|k: int| k >= 1 implies match_at(s, pat, k) == match_at(
            s.skip(1),
            pat,
            k - 1,
        ) by {
            lemma_match_at_skip(s, pat, k);
        };
        assert(!match_at(s, pat, 0));
        if rest == -1 {
            assert forall|k: int| !match_at(s, pat, k) by {
                if k >= 1 {
                    assert(!match_at(s.skip(1), pat, k - 1));
                }
            };
        } else {
            assert(match_at(s.skip(1), pat, rest));
            assert(match_at(s, pat, rest + 1));
        }
    }
}

/// When the pattern occurs at `j` and nowhere earlier, `first_match` is `j`.
proof fn lemma_first_match_is(s: Seq<char>, pat: Seq<char>, j: int)
    requires
        pat.len() >= 1,
        match_at(s, pat, j),
        forall|k: int| k < j ==> !match_at(s, pat, k),
    ensures
        first_match(s, pat) == j,
{
    lemma_first_match_spec(s, pat);
    let i = first_match(s, pat);
    if i == -1 {
        assert(!match_at(s, pat, j));
    } else if i < j {
        assert(!match_at(s, pat, i));
    } else if i > j {
        assert(!match_at(s, pat, j));
    }
}

/// When the pattern occurs nowhere, `first_match` is `-1`.
proof fn lemma_first_match_absent(s: Seq<char>, pat: Seq<char>)
    requires
        pat.len() >= 1,
        forall|k: int| !match_at(s, pat, k),
    ensures
        first_match(s, pat) == -1,
{
    lemma_first_match_spec(s, pat);
    let i = first_match(s, pat);
    if i != -1 {
        assert(!match_at(s, pat, i));
    }
}

/// The segments of `s` between the occurrences of `sep`, left to right.
/// Splitting always yields at least one segment: the empty string yields one
/// empty segment, and an empty separator never matches, so the whole string
/// is then a single segment.
pub open spec fn split_on(s: Seq<char>, sep: Seq<char>) -> Seq<Seq<char>>
    decreases s.len(),
    via split_on_decreases
{
    let i = first_match(s, sep);
    if i == -1 {
        seq![s]
    } else {
        seq![s.subrange(0, i)] + split_on(s.skip(i + sep.len()), sep)
    }
}

#[via_fn]
proof fn split_on_decreases(s: Seq<char>, sep: Seq<char>) {
    lemma_first_match_bounds(s, sep);
}

/// Splitting yields at least one segment.
pub proof fn lemma_split_on_nonempty(s: Seq<char>, sep: Seq<char>)
    ensures
        split_on(s, sep).len() >= 1,
{
    lemma_first_match_bounds(s, sep);
}

/// `s` with the first occurrence of `pat` replaced by `rep`, and `s` itself
/// when `pat` does not occur.
pub open spec fn replace_first(s: Seq<char>, pat: Seq<char>, rep: Seq<char>) -> Seq<char> {
    let i = first_match(s, pat);
    if i == -1 {
        s
    } else {
        s.subrange(0, i) + rep + s.skip(i + pat.len())
    }
}

/// Character-for-character equality of two string slices.
pub(crate) fn str_eq(a: &str, b: &str) -> (r: bool)
    ensures
        r == (a@ == b@),
{
    let n: usize = a.unicode_len();
    if n != b.unicode_len() {
        return false;
    }
    let mut i: usize = 0;
    while i < n
        invariant
            n == a@.len(),
            n == b@.len(),
            i <= n,
            forall|k: int| 0 <= k < i ==> a@[k] == b@[k],
        decreases n - i,
    {
        if a.get_char(i) != b.get_char(i) {
            return false;
        }
        i = i + 1;
    }
    proof {
        assert(a@ =~= b@);
    }
    true
}

/// Whether `pat` occurs in `s` starting exactly at position `i`.
fn is_match_at(s: &str, pat: &str, i: usize) -> (r: bool)
    ensures
        r == match_at(s@, pat@, i as int),
{
    let n: usize = s.unicode_len();
    let m: usize = pat.unicode_len();
    if m > n || i > n - m {
        return false;
    }
    let mut k: usize = 0;
    while k < m
        invariant
            n == s@.len(),
            m == pat@.len(),
            i + m <= n,
            k <= m,
            forall|t: int| 0 <= t < k ==> s@[i + t] == pat@[t],
        decreases m - k,
    {
        if s.get_char(i + k) != pat.get_char(k) {
            proof {
                assert(s@.subrange(i as int, i + pat@.len())[k as int] == s@[i + k]);
            }
            return false;
        }
        k = k + 1;
    }
    proof {
        assert(s@.subrange(i as int, i + pat@.len()) =~= pat@);
    }
    true
}

/// The first occurrence of `pat` in `s` at or after position `from`, as an
/// absolute position.
pub(crate) fn find_first(s: &str, pat: &str, from: usize) -> (r: Option<usize>)
    requires
        from <= s@.len(),
    ensures
        match r {
            Some(j) => from <= j && pat@.len() >= 1 && j + pat@.len() <= s@.len()
                && first_match(s@.skip(from as int), pat@) == j - from,
            None => first_match(s@.skip(from as int), pat@) == -1,
        },
{
    let n: usize = s.unicode_len();
    let m: usize = pat.unicode_len();
    if m == 0 {
        return None;
    }
    if m > n || from > n - m {
        proof {
            lemma_first_match_absent(s@.skip(from as int), pat@);
        }
        return None;
    }
    let mut j: usize = from;
    while j <= n - m
        invariant
            n == s@.len(),
            m == pat@.len(),
            1 <= m <= n,
            from <= j,
            j <= n - m + 1,
            forall|k: int| from <= k < j ==> !match_at(s@, pat@, k),
        decreases n - j,
    {
        if is_match_at(s, pat, j) {
            proof {
                let t = s@.skip(from as int);
                assert forall|k: int| from <= k implies match_at(s@, pat@, k) == match_at(
                    t,
                    pat@,
                    k - from,
                ) by {
                    if k + pat@.len() <= s@.len() {
                        assert(t.subrange(k - from, k - from + pat@.len()) =~= s@.subrange(
                            k,
                            k + pat@.len(),
                        ));
                    }
                };
                assert(match_at(t, pat@, j - from));
                assert forall|k: int| k < j - from implies !match_at(t, pat@, k) by {
                    if k >= 0 {
                        assert(!match_at(s@, pat@, k + from));
                        assert(match_at(s@, pat@, k + from) == match_at(t, pat@, k));
                    }
                };
                lemma_first_match_is(t, pat@, j - from);
            }
            return Some(j);
        }
        j = j + 1;
    }
    proof {
        let t = s@.skip(from as int);
        assert forall|k: int| !match_at(t, pat@, k) by {
            if 0 <= k && k + pat@.len() <= t.len() {
                assert(t.subrange(k, k + pat@.len()) =~= s@.subrange(
                    k + from,
                    k + from + pat@.len(),
                ));
                assert(!match_at(s@, pat@, k + from));
            }
        };
        lemma_first_match_absent(t, pat@);
    }
    None
}

/// Splits `s` on every occurrence of `sep`, as `split_on` describes.
pub(crate) fn split_str(s: &str, sep: &str) -> (r: Vec<String>)
    ensures
        r.deep_view() == split_on(s@, sep@),
{
    let mut out: Vec<String> = Vec::new();
    let n: usize = s.unicode_len();
    let mut pos: usize = 0;
    proof {
        assert(s@.skip(0) =~= s@);
        assert(out.deep_view() + split_on(s@, sep@) =~= split_on(s@, sep@));
    }
    loop
        invariant
            n == s@.len(),
            pos <= n,
            split_on(s@, sep@) == out.deep_view() + split_on(s@.skip(pos as int), sep@),
        decreases n - pos,
    {
        let ghost prev = out.deep_view();
        match find_first(s, sep, pos) {
            Some(j) => {
                let piece = s.substring_char(pos, j);
                out.push(String::from_str(piece));
                proof {
                    let t = s@.skip(pos as int);
                    assert(t.subrange(0, j - pos) =~= s@.subrange(pos as int, j as int));
                    assert(t.skip(j - pos + sep@.len()) =~= s@.skip(j + sep@.len()));
                    assert(out.deep_view() =~= prev.push(piece@));
                    assert(prev.push(t.subrange(0, j - pos)) + split_on(
                        t.skip(j - pos + sep@.len()),
                        sep@,
                    ) =~= prev + (seq![t.subrange(0, j - pos)] + split_on(
                        t.skip(j - pos + sep@.len()),
                        sep@,
                    )));
                }
                pos = j + sep.unicode_len();
            },
            None => {
                let piece = s.substring_char(pos, n);
                out.push(String::from_str(piece));
                proof {
                    let t = s@.skip(pos as int);
                    assert(t =~= s@.subrange(pos as int, n as int));
                    assert(out.deep_view() =~= prev.push(piece@));
                    assert(prev.push(t) =~= prev + seq![t]);
                }
                return out;
            },
        }
    }
}

/// Replaces the first occurrence of `pat` in `s` with `rep`, as
/// `replace_first` describes.
pub(crate) fn replace_first_str(s: &str, pat: &str, rep: &str) -> (r: String)
    ensures
        r@ == replace_first(s@, pat@, rep@),
{
    let n: usize = s.unicode_len();
    proof {
        assert(s@.skip(0) =~= s@);
    }
    match find_first(s, pat, 0) {
        Some(j) => {
            let mut out = String::from_str(s.substring_char(0, j));
            out.append(rep);
            out.append(s.substring_char(j + pat.unicode_len(), n));
            proof {
                assert(s@.subrange(j + pat@.len(), n as int) =~= s@.skip(j + pat@.len()));
            }
            out
        },
        None => String::from_str(s),
    }
}

} // verus!
