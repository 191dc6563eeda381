//! The obsolete productions of RFC 5322 that the lax grammar admits:
//! `obs-local-part` and the recursive `obs-domain`.
use vstd::prelude::*;
use crate::classes::{atext_no_dash_char, is_atext_no_dash};
use crate::scan::{
    cfws_star, fws_star, opt_pos, skip_cfws0, skip_fws0, span, span_end, take_repeated_char,
    within, CharClass,
};
use crate::tokens::{word, word_spec};

verus! {

/// How deep `obs-domain` may nest before it fails.
pub const MAX_RECURSION_DEPTH: usize = 128;

/// The nesting levels of `obs-domain` still allowed at depth `d`.
pub open spec fn depth_budget(d: int) -> int {
    if d < MAX_RECURSION_DEPTH {
        MAX_RECURSION_DEPTH - d
    } else {
        0
    }
}

/// The `(CFWS* "." CFWS* word)*` part of an obsolete local part. A dot that
/// is not followed by a word fails the whole local part.
pub open spec fn obs_local_rest(s: Seq<char>, p: int) -> Option<int>
    decreases s.len() - p,
{
    let c = cfws_star(s, p);
    if 0 <= c < s.len() && s[c] == '.' {
        match word_spec(s, cfws_star(s, c + 1)) {
            Some(n) => if p < n <= s.len() {
                obs_local_rest(s, n)
            } else {
                None
            },
            None => None,
        }
    } else {
        Some(p)
    }
}

/// `obs-local-part = FWS* word (CFWS* "." CFWS* word)*`.
pub open spec fn obs_local_part_spec(s: Seq<char>, p: int) -> Option<int> {
    match word_spec(s, fws_star(s, p)) {
        Some(q) => obs_local_rest(s, q),
        None => None,
    }
}

/// One `obs-domain` at depth `d`:
/// `CFWS* atext-no-dash+ (CFWS* ("." obs-domain+ | "-"+ obs-domain+))* FWS*`.
/// It fails once the depth reaches `MAX_RECURSION_DEPTH`.
pub open spec fn obs_domain_spec(s: Seq<char>, p: int, d: int) -> Option<int>
    decreases depth_budget(d), s.len() - p, 0int,
{
    if d >= MAX_RECURSION_DEPTH || !(0 <= p <= s.len()) {
        None
    } else {
        let q = cfws_star(s, p);
        if p <= q < s.len() && atext_no_dash_char(s[q]) {
            let r = span(s, q, CharClass::AtextNoDash);
            if q < r <= s.len() {
                obs_domain_tail(s, r, d)
            } else {
                None
            }
        } else {
            None
        }
    }
}

/// The separators and nested domains that follow the first run of an
/// `obs-domain`, then its trailing `FWS*`. A `CFWS` that no separator
/// follows is given back.
pub open spec fn obs_domain_tail(s: Seq<char>, p: int, d: int) -> Option<int>
    decreases depth_budget(d), s.len() - p, 0int,
{
    if d >= MAX_RECURSION_DEPTH || !(0 <= p <= s.len()) {
        None
    } else {
        let c = cfws_star(s, p);
        let h = span(s, c, CharClass::Only('-'));
        let next = if 0 <= c < s.len() && s[c] == '.' {
            Some(c + 1)
        } else if h > c {
            Some(h)
        } else {
            None
        };
        match next {
            Some(a) => match obs_domain_plus_spec(s, a, d + 1) {
                Some(n) => if p < n <= s.len() {
                    obs_domain_tail(s, n, d)
                } else {
                    None
                },
                None => None,
            },
            None => Some(fws_star(s, p)),
        }
    }
}

/// `obs-domain+` at depth `d`.
pub open spec fn obs_domain_plus_spec(s: Seq<char>, p: int, d: int) -> Option<int>
    decreases depth_budget(d), s.len() - p, 1int,
{
    match obs_domain_spec(s, p, d) {
        Some(q) => if p < q <= s.len() {
            Some(obs_domain_more(s, q, d))
        } else {
            None
        },
        None => None,
    }
}

/// Further `obs-domain`s after the first of an `obs-domain+`.
pub open spec fn obs_domain_more(s: Seq<char>, p: int, d: int) -> int
    decreases depth_budget(d), s.len() - p, 1int,
{
    match obs_domain_spec(s, p, d) {
        Some(n) => if p < n <= s.len() {
            obs_domain_more(s, n, d)
        } else {
            p
        },
        None => p,
    }
}

/// At or past `MAX_RECURSION_DEPTH` neither an `obs-domain` nor an
/// `obs-domain+` matches: the nesting never goes deeper than the ceiling,
/// whatever the input.
pub proof fn lemma_depth_ceiling(s: Seq<char>, p: int, d: int)
    requires
        d >= MAX_RECURSION_DEPTH,
    ensures
        obs_domain_spec(s, p, d) is None,
        obs_domain_plus_spec(s, p, d) is None,
{
}

/// `s` is `k + 1` one-character labels joined by `k` dots.
pub open spec fn label_chain(s: Seq<char>, k: int) -> bool {
    &&& s.len() == 2 * k + 1
    &&& forall|i: int|
        0 <= i < s.len() ==> (if i % 2 == 0 {
            atext_no_dash_char(#[trigger] s[i])
        } else {
            s[i] == '.'
        })
}

proof fn lemma_chain_from(s: Seq<char>, k: int, j: int, d: int)
    requires
        label_chain(s, k),
        0 <= j <= k,
        0 <= d,
        d + (k - j) >= MAX_RECURSION_DEPTH,
    ensures
        obs_domain_spec(s, 2 * j, d) is None,
    decreases k - j,
{
    if d < MAX_RECURSION_DEPTH {
        let p = 2 * j;
        assert(p % 2 == 0 && (p + 1) % 2 == 1);
        assert(atext_no_dash_char(s[p]));
        assert(s[p + 1] == '.');
        assert(cfws_star(s, p) == p);
        assert(span(s, p + 1, CharClass::AtextNoDash) == p + 1);
        assert(span(s, p, CharClass::AtextNoDash) == p + 1);
        assert(cfws_star(s, p + 1) == p + 1);
        lemma_chain_from(s, k, j + 1, d + 1);
        assert(2 * (j + 1) == p + 2);
        assert(obs_domain_plus_spec(s, p + 2, d + 1) is None);
        assert(obs_domain_tail(s, p + 1, d) is None);
    }
}

/// A chain of `k` dot-joined labels nests `k` levels deep, so from
/// `MAX_RECURSION_DEPTH` separators on it is no `obs-domain`, however long
/// it grows: the ceiling fails the match instead of nesting further.
pub proof fn lemma_deep_chain_rejected(s: Seq<char>, k: int)
    requires
        label_chain(s, k),
        k >= MAX_RECURSION_DEPTH,
    ensures
        obs_domain_spec(s, 0, 0) is None,
{
    lemma_chain_from(s, k, 0, 0);
}

/// `obs-local-part` at `p`, the match it makes.
pub fn obs_local_part(s: &[char], p: usize) -> (r: Option<usize>)
    requires
        p <= s.len(),
    ensures
        opt_pos(r) == obs_local_part_spec(s@, p as int),
        within(r, p, s@.len()),
{
    let start = skip_fws0(s, p);
    let mut i = match word(s, start) {
        Some(q) => q,
        None => return None,
    };
    let ghost first = i as int;
    loop
        invariant
            p <= first <= i <= s.len(),
            obs_local_rest(s@, i as int) == obs_local_rest(s@, first),
            obs_local_part_spec(s@, p as int) == obs_local_rest(s@, first),
        ensures
            obs_local_rest(s@, i as int) == Some(i as int),
        decreases s.len() - i,
    {
        let c = skip_cfws0(s, i);
        if !(c < s.len() && s[c] == '.') {
            break;
        }
        let w = skip_cfws0(s, c + 1);
        match word(s, w) {
            Some(n) => i = n,
            None => return None,
        }
    }
    Some(i)
}

/// `obs-domain` at `p` and depth `depth`.
pub fn obs_domain_inner(s: &[char], p: usize, depth: usize) -> (r: Option<usize>)
    requires
        p <= s.len(),
    ensures
        opt_pos(r) == obs_domain_spec(s@, p as int, depth as int),
        within(r, p, s@.len()),
    decreases depth_budget(depth as int), s.len() - p, 0int,
{
    if depth >= MAX_RECURSION_DEPTH {
        return None;
    }
    let q = skip_cfws0(s, p);
    if !(q < s.len() && is_atext_no_dash(s[q])) {
        return None;
    }
    let mut i = span_end(s, q + 1, CharClass::AtextNoDash);
    let ghost first = i as int;
    loop
        invariant
            p <= q < first <= i <= s.len(),
            depth < MAX_RECURSION_DEPTH,
            obs_domain_tail(s@, i as int, depth as int) == obs_domain_tail(
                s@,
                first,
                depth as int,
            ),
            obs_domain_spec(s@, p as int, depth as int) == obs_domain_tail(
                s@,
                first,
                depth as int,
            ),
        ensures
            obs_domain_tail(s@, i as int, depth as int) == Some(fws_star(s@, i as int)),
            obs_domain_spec(s@, p as int, depth as int) == obs_domain_tail(
                s@,
                i as int,
                depth as int,
            ),
        decreases s.len() - i,
    {
        let c = skip_cfws0(s, i);
        let a = if c < s.len() && s[c] == '.' {
            c + 1
        } else {
            let (after_hyphen, hyphen_count) = take_repeated_char(s, c, '-');
            if hyphen_count > 0 {
                after_hyphen
            } else {
                break;
            }
        };
        match obs_domain_plus(s, a, depth + 1) {
            Some(n) => i = n,
            None => return None,
        }
    }
    Some(skip_fws0(s, i))
}

/// `obs-domain+` at `p` and depth `depth`.
pub fn obs_domain_plus(s: &[char], p: usize, depth: usize) -> (r: Option<usize>)
    requires
        p <= s.len(),
    ensures
        opt_pos(r) == obs_domain_plus_spec(s@, p as int, depth as int),
        within(r, p, s@.len()),
    decreases depth_budget(depth as int), s.len() - p, 1int,
{
    let mut i = match obs_domain_inner(s, p, depth) {
        Some(q) => q,
        None => return None,
    };
    if i <= p {
        return None;
    }
    let ghost first = i as int;
    loop
        invariant
            p < first <= i <= s.len(),
            obs_domain_more(s@, i as int, depth as int) == obs_domain_more(
                s@,
                first,
                depth as int,
            ),
            obs_domain_plus_spec(s@, p as int, depth as int) == Some(
                obs_domain_more(s@, first, depth as int),
            ),
        ensures
            obs_domain_more(s@, i as int, depth as int) == i,
        decreases s.len() - i,
    {
        match obs_domain_inner(s, i, depth) {
            Some(n) => {
                if n > i {
                    i = n;
                } else {
                    break;
                }
            },
            None => break,
        }
    }
    Some(i)
}

/// `obs-domain` at `p`, the match it makes.
pub fn obs_domain(s: &[char], p: usize) -> (r: Option<usize>)
    requires
        p <= s.len(),
    ensures
        opt_pos(r) == obs_domain_spec(s@, p as int, 0),
        within(r, p, s@.len()),
{
    obs_domain_inner(s, p, 0)
}

} // verus!
