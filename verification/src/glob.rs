//! Glob patterns over byte strings, as `KEYS` takes them.
//!
//! `*` stands for any run of bytes, `?` for any single byte, `\` makes the
//! next pattern byte literal, and `[...]` is a class: the bytes listed in it,
//! ranges such as `a-z`, all of it negated by a leading `^`. A `]` closes a
//! class wherever it stands, also right behind `[` or `[^`; a backslash in a
//! class is an ordinary member; a class that is never closed matches nothing.

use vstd::prelude::*;

verus! {

/// Reads a class from `p[i]` on, for the key byte `c`. `listed` holds the
/// members read so far that no range has used up; `hit` says whether one of
/// them, or a range, took `c`. The result is the final `hit` and the position
/// behind the closing `]`.
pub open spec fn class_scan(p: Seq<u8>, i: int, c: u8, listed: Seq<u8>, hit: bool) -> Option<
    (bool, int),
>
    decreases p.len() - i,
{
    if i < 0 || i >= p.len() {
        None
    } else if p[i] == 93 {
        Some((hit, i + 1))
    } else if p[i] == 45 && listed.len() > 0 {
        if i + 1 < p.len() && p[i + 1] != 93 {
            class_scan(
                p,
                i + 2,
                c,
                listed.drop_last(),
                hit || (listed.last() <= c && c <= p[i + 1]),
            )
        } else {
            class_scan(p, i + 1, c, listed, hit)
        }
    } else {
        class_scan(p, i + 1, c, listed.push(p[i]), hit || p[i] == c)
    }
}

/// Whether `p[pi..]` matches `k[ki..]`.
pub open spec fn glob_match_at(p: Seq<u8>, pi: int, k: Seq<u8>, ki: int) -> bool
    decreases p.len() - pi, k.len() - ki,
{
    if pi < 0 || ki < 0 || pi > p.len() || ki > k.len() {
        false
    } else if pi == p.len() {
        ki == k.len()
    } else if p[pi] == 42 {
        pi + 1 == p.len() || glob_match_at(p, pi + 1, k, ki) || (ki < k.len() && glob_match_at(
            p,
            pi,
            k,
            ki + 1,
        ))
    } else if ki == k.len() {
        false
    } else if p[pi] == 63 {
        glob_match_at(p, pi + 1, k, ki + 1)
    } else if p[pi] == 91 {
        let negate = pi + 1 < p.len() && p[pi + 1] == 94;
        let first = if negate {
            pi + 2
        } else {
            pi + 1
        };
        match class_scan(p, first, k[ki], Seq::empty(), false) {
            Some((hit, next)) => hit != negate && pi < next <= p.len() && glob_match_at(
                p,
                next,
                k,
                ki + 1,
            ),
            None => false,
        }
    } else if p[pi] == 92 {
        pi + 1 < p.len() && p[pi + 1] == k[ki] && glob_match_at(p, pi + 2, k, ki + 1)
    } else {
        p[pi] == k[ki] && glob_match_at(p, pi + 1, k, ki + 1)
    }
}

/// Whether the pattern matches the whole key.
pub open spec fn glob_match(pattern: Seq<u8>, key: Seq<u8>) -> bool {
    glob_match_at(pattern, 0, key, 0)
}

/// A lone `*` matches every key.
pub proof fn lemma_star_matches_all(key: Seq<u8>)
    ensures
        glob_match(seq![42u8], key),
{
}

/// A class ends behind the place where it starts.
pub proof fn lemma_class_scan_advances(p: Seq<u8>, i: int, c: u8, listed: Seq<u8>, hit: bool)
    ensures
        match class_scan(p, i, c, listed, hit) {
            Some((_, next)) => i < next <= p.len(),
            None => true,
        },
    decreases p.len() - i,
{
    if 0 <= i < p.len() && p[i] != 93 {
        if p[i] == 45 && listed.len() > 0 {
            if i + 1 < p.len() && p[i + 1] != 93 {
                lemma_class_scan_advances(
                    p,
                    i + 2,
                    c,
                    listed.drop_last(),
                    hit || (listed.last() <= c && c <= p[i + 1]),
                );
            } else {
                lemma_class_scan_advances(p, i + 1, c, listed, hit);
            }
        } else {
            lemma_class_scan_advances(p, i + 1, c, listed.push(p[i]), hit || p[i] == c);
        }
    }
}

/// Reads the class that starts at `p[first]` for the key byte `c`.
fn scan_class(p: &[u8], first: usize, c: u8) -> (r: Option<(bool, usize)>)
    requires
        first <= p@.len(),
    ensures
        match class_scan(p@, first as int, c, Seq::empty(), false) {
            Some((hit, next)) => r == Some((hit, next as usize)) && first < next <= p@.len(),
            None => r is None,
        },
{
    let mut listed: Vec<u8> = Vec::new();
    let mut hit = false;
    let mut i: usize = first;
    loop
        invariant
            first <= i <= p@.len(),
            class_scan(p@, first as int, c, Seq::empty(), false) == class_scan(
                p@,
                i as int,
                c,
                listed@,
                hit,
            ),
        decreases p@.len() - i,
    {
        proof {
            lemma_class_scan_advances(p@, i as int, c, listed@, hit);
        }
        if i >= p.len() {
            return None;
        }
        let b = p[i];
        if b == 93 {
            return Some((hit, i + 1));
        } else if b == 45 && listed.len() > 0 {
            if i + 1 < p.len() && p[i + 1] != 93 {
                let end = p[i + 1];
                let start = listed.pop().unwrap();
                if start <= c && c <= end {
                    hit = true;
                }
                i = i + 2;
            } else {
                i = i + 1;
            }
        } else {
            if b == c {
                hit = true;
            }
            listed.push(b);
            i = i + 1;
        }
    }
}

/// Matches `pattern[pi..]` against `key[ki..]`.
pub fn match_pattern_recursive(pattern: &[u8], pi: usize, key: &[u8], ki: usize) -> (m: bool)
    requires
        pi <= pattern@.len(),
        ki <= key@.len(),
    ensures
        m == glob_match_at(pattern@, pi as int, key@, ki as int),
    decreases pattern@.len() - pi, key@.len() - ki,
{
    let mut p_at: usize = pi;
    let mut k_at: usize = ki;
    loop
        invariant
            p_at <= pattern@.len(),
            k_at <= key@.len(),
            glob_match_at(pattern@, pi as int, key@, ki as int) == glob_match_at(
                pattern@,
                p_at as int,
                key@,
                k_at as int,
            ),
            pi <= p_at,
        decreases pattern@.len() - p_at,
    {
        if p_at == pattern.len() {
            return k_at == key.len();
        }
        let b = pattern[p_at];
        if b == 42 {
            if p_at + 1 == pattern.len() {
                return true;
            }
            let mut j: usize = k_at;
            loop
                invariant
                    pattern@[p_at as int] == 42,
                    pi <= p_at,
                    p_at + 1 < pattern.len(),
                    k_at <= j <= key.len(),
                    glob_match_at(pattern@, pi as int, key@, ki as int) == glob_match_at(
                        pattern@,
                        p_at as int,
                        key@,
                        j as int,
                    ),
                decreases key@.len() - j,
            {
                if match_pattern_recursive(pattern, p_at + 1, key, j) {
                    return true;
                }
                if j == key.len() {
                    return false;
                }
                j = j + 1;
            }
        }
        if k_at == key.len() {
            return false;
        }
        let c = key[k_at];
        if b == 63 {
            p_at = p_at + 1;
            k_at = k_at + 1;
        } else if b == 91 {
            let negate = p_at + 1 < pattern.len() && pattern[p_at + 1] == 94;
            let first: usize = if negate {
                p_at + 2
            } else {
                p_at + 1
            };
            match scan_class(pattern, first, c) {
                Some((hit, next)) => {
                    if hit == negate {
                        return false;
                    }
                    p_at = next;
                    k_at = k_at + 1;
                },
                None => {
                    return false;
                },
            }
        } else if b == 92 {
            if p_at + 1 >= pattern.len() || pattern[p_at + 1] != c {
                return false;
            }
            p_at = p_at + 2;
            k_at = k_at + 1;
        } else {
            if b != c {
                return false;
            }
            p_at = p_at + 1;
            k_at = k_at + 1;
        }
    }
}

/// Whether `pattern` matches the whole of `key`.
pub fn match_pattern(pattern: &[u8], key: &[u8]) -> (m: bool)
    ensures
        m == glob_match(pattern@, key@),
{
    match_pattern_recursive(pattern, 0, key, 0)
}

} // verus!
