//! Rules read forward only: a match from position `p` depends on the input
//! from `p` on, and nothing before it. Cutting off a prefix of the input
//! moves every match by the length of that prefix and changes nothing else.
use vstd::prelude::*;
use crate::address::{
    address_obs_spec, address_split, address_strict_spec, domain_obs_spec, domain_strict_spec,
    domain_valid, lemma_split_at_sign, parsed, rule_covers, whole, ParseMode, Rule,
};
use crate::classes::{atext_no_dash_char, ctext_char};
use crate::obsolete::{
    depth_budget, obs_domain_more, obs_domain_plus_spec, obs_domain_spec, obs_domain_tail,
    MAX_RECURSION_DEPTH,
};
use crate::scan::{
    cfws_spec, cfws_star, cfws_start, comment_items, comment_run, comment_spec, ccontent_spec,
    crlf_at, fws_folds, fws_spec, fws_star, opt_cfws, opt_fws, quoted_pair_spec, span, CharClass,
};
use crate::tokens::{
    dcontent_run, domain_literal_spec, dot_atom_rest, dot_atom_spec, dot_atom_text_spec,
    label_spec,
};

verus! {

/// `s` from position `k` on.
pub open spec fn rest(s: Seq<char>, k: int) -> Seq<char> {
    s.subrange(k, s.len() as int)
}

/// A match found in `rest(s, k)`, moved to the positions of `s`.
pub open spec fn moved(r: Option<int>, k: int) -> Option<int> {
    match r {
        Some(e) => Some(e + k),
        None => None,
    }
}

/// A match from `p` that stays inside `s` and does not move backwards.
pub open spec fn forward(r: Option<int>, p: int, s: Seq<char>) -> bool {
    r matches Some(e) ==> p <= e <= s.len()
}

pub(crate) proof fn lemma_span_shifts(s: Seq<char>, k: int, p: int, c: CharClass)
    requires
        0 <= k <= p <= s.len(),
    ensures
        span(s, p, c) == span(rest(s, k), p - k, c) + k,
        p <= span(s, p, c) <= s.len(),
    decreases s.len() - p,
{
    if p < s.len() {
        assert(rest(s, k)[p - k] == s[p]);
        lemma_span_shifts(s, k, p + 1, c);
    }
}

pub(crate) proof fn lemma_crlf_shifts(s: Seq<char>, k: int, p: int)
    requires
        0 <= k <= p <= s.len(),
    ensures
        crlf_at(s, p) == crlf_at(rest(s, k), p - k),
{
    if p + 1 < s.len() {
        assert(rest(s, k)[p - k] == s[p]);
        assert(rest(s, k)[p + 1 - k] == s[p + 1]);
    }
}

pub(crate) proof fn lemma_fws_folds_shifts(s: Seq<char>, k: int, p: int)
    requires
        0 <= k <= p <= s.len(),
    ensures
        fws_folds(s, p) == fws_folds(rest(s, k), p - k) + k,
        p <= fws_folds(s, p) <= s.len(),
    decreases s.len() - p,
{
    lemma_crlf_shifts(s, k, p);
    if crlf_at(s, p) {
        lemma_span_shifts(s, k, p + 2, CharClass::Wsp);
        let q = span(s, p + 2, CharClass::Wsp);
        if p + 2 < q <= s.len() {
            lemma_fws_folds_shifts(s, k, q);
        }
    }
}

pub(crate) proof fn lemma_fws_shifts(s: Seq<char>, k: int, p: int)
    requires
        0 <= k <= p <= s.len(),
    ensures
        fws_spec(s, p) == moved(fws_spec(rest(s, k), p - k), k),
        forward(fws_spec(s, p), p, s),
{
    lemma_span_shifts(s, k, p, CharClass::Wsp);
    let q = span(s, p, CharClass::Wsp);
    lemma_crlf_shifts(s, k, q);
    if crlf_at(s, q) {
        lemma_span_shifts(s, k, q + 2, CharClass::Wsp);
        lemma_fws_folds_shifts(s, k, span(s, q + 2, CharClass::Wsp));
    } else {
        lemma_fws_folds_shifts(s, k, q);
    }
}

pub(crate) proof fn lemma_opt_fws_shifts(s: Seq<char>, k: int, p: int)
    requires
        0 <= k <= p <= s.len(),
    ensures
        opt_fws(s, p) == opt_fws(rest(s, k), p - k) + k,
        p <= opt_fws(s, p) <= s.len(),
{
    lemma_fws_shifts(s, k, p);
}

pub(crate) proof fn lemma_fws_star_shifts(s: Seq<char>, k: int, p: int)
    requires
        0 <= k <= p <= s.len(),
    ensures
        fws_star(s, p) == fws_star(rest(s, k), p - k) + k,
        p <= fws_star(s, p) <= s.len(),
    decreases s.len() - p,
{
    lemma_fws_shifts(s, k, p);
    if let Some(q) = fws_spec(s, p) {
        if p < q <= s.len() {
            lemma_fws_star_shifts(s, k, q);
        }
    }
}

pub(crate) proof fn lemma_quoted_pair_shifts(s: Seq<char>, k: int, p: int)
    requires
        0 <= k <= p <= s.len(),
    ensures
        quoted_pair_spec(s, p) == moved(quoted_pair_spec(rest(s, k), p - k), k),
        forward(quoted_pair_spec(s, p), p, s),
{
    if p + 1 < s.len() {
        assert(rest(s, k)[p - k] == s[p]);
        assert(rest(s, k)[p + 1 - k] == s[p + 1]);
    }
}

pub(crate) proof fn lemma_comment_shifts(s: Seq<char>, k: int, p: int)
    requires
        0 <= k <= p <= s.len(),
    ensures
        comment_spec(s, p) == moved(comment_spec(rest(s, k), p - k), k),
        forward(comment_spec(s, p), p, s),
    decreases s.len() - p, 0int,
{
    if p < s.len() {
        assert(rest(s, k)[p - k] == s[p]);
        if s[p] == '(' {
            lemma_comment_items_shifts(s, k, p + 1);
            let q = comment_items(s, p + 1);
            lemma_opt_fws_shifts(s, k, q);
            let r = opt_fws(s, q);
            if r < s.len() {
                assert(rest(s, k)[r - k] == s[r]);
            }
        }
    }
}

pub(crate) proof fn lemma_comment_items_shifts(s: Seq<char>, k: int, p: int)
    requires
        0 <= k <= p <= s.len(),
    ensures
        comment_items(s, p) == comment_items(rest(s, k), p - k) + k,
        p <= comment_items(s, p) <= s.len(),
    decreases s.len() - p, 2int,
{
    lemma_opt_fws_shifts(s, k, p);
    let c = opt_fws(s, p);
    lemma_ccontent_shifts(s, k, c);
    if let Some(n) = ccontent_spec(s, c) {
        if c < n <= s.len() {
            lemma_comment_items_shifts(s, k, n);
        }
    }
}

pub(crate) proof fn lemma_ccontent_shifts(s: Seq<char>, k: int, p: int)
    requires
        0 <= k <= p <= s.len(),
    ensures
        ccontent_spec(s, p) == moved(ccontent_spec(rest(s, k), p - k), k),
        forward(ccontent_spec(s, p), p, s),
    decreases s.len() - p, 1int,
{
    if p < s.len() {
        assert(rest(s, k)[p - k] == s[p]);
    }
    if !(p < s.len() && ctext_char(s[p])) {
        lemma_quoted_pair_shifts(s, k, p);
        lemma_comment_shifts(s, k, p);
    }
}

pub(crate) proof fn lemma_comment_run_shifts(s: Seq<char>, k: int, p: int)
    requires
        0 <= k <= p <= s.len(),
    ensures
        comment_run(s, p) == comment_run(rest(s, k), p - k) + k,
        p <= comment_run(s, p) <= s.len(),
    decreases s.len() - p,
{
    lemma_opt_fws_shifts(s, k, p);
    let c = opt_fws(s, p);
    lemma_comment_shifts(s, k, c);
    if let Some(n) = comment_spec(s, c) {
        if c < n <= s.len() {
            lemma_comment_run_shifts(s, k, n);
        }
    }
}

pub(crate) proof fn lemma_cfws_shifts(s: Seq<char>, k: int, p: int)
    requires
        0 <= k <= p <= s.len(),
    ensures
        cfws_spec(s, p) == moved(cfws_spec(rest(s, k), p - k), k),
        forward(cfws_spec(s, p), p, s),
{
    lemma_comment_run_shifts(s, k, p);
    let q = comment_run(s, p);
    lemma_opt_fws_shifts(s, k, q);
    lemma_fws_shifts(s, k, p);
}

pub(crate) proof fn lemma_opt_cfws_shifts(s: Seq<char>, k: int, p: int)
    requires
        0 <= k <= p <= s.len(),
    ensures
        opt_cfws(s, p) == opt_cfws(rest(s, k), p - k) + k,
        p <= opt_cfws(s, p) <= s.len(),
{
    lemma_cfws_shifts(s, k, p);
}

pub(crate) proof fn lemma_cfws_star_shifts(s: Seq<char>, k: int, p: int)
    requires
        0 <= k <= p <= s.len(),
    ensures
        cfws_star(s, p) == cfws_star(rest(s, k), p - k) + k,
        p <= cfws_star(s, p) <= s.len(),
    decreases s.len() - p,
{
    if p < s.len() {
        assert(rest(s, k)[p - k] == s[p]);
        if cfws_start(s[p]) {
            lemma_cfws_shifts(s, k, p);
            if let Some(q) = cfws_spec(s, p) {
                if p < q <= s.len() {
                    lemma_cfws_star_shifts(s, k, q);
                }
            }
        }
    }
}

pub(crate) proof fn lemma_label_shifts(s: Seq<char>, k: int, p: int)
    requires
        0 <= k <= p <= s.len(),
    ensures
        label_spec(s, p) == moved(label_spec(rest(s, k), p - k), k),
        forward(label_spec(s, p), p, s),
{
    if p < s.len() {
        assert(rest(s, k)[p - k] == s[p]);
        lemma_span_shifts(s, k, p + 1, CharClass::Atext);
        let e = span(s, p + 1, CharClass::Atext);
        assert(rest(s, k)[e - 1 - k] == s[e - 1]);
    }
}

pub(crate) proof fn lemma_dot_atom_rest_shifts(s: Seq<char>, k: int, p: int)
    requires
        0 <= k <= p <= s.len(),
    ensures
        dot_atom_rest(s, p) == moved(dot_atom_rest(rest(s, k), p - k), k),
        forward(dot_atom_rest(s, p), p, s),
    decreases s.len() - p,
{
    if p < s.len() {
        assert(rest(s, k)[p - k] == s[p]);
        if s[p] == '.' {
            lemma_cfws_star_shifts(s, k, p + 1);
            let a = cfws_star(s, p + 1);
            lemma_label_shifts(s, k, a);
            if let Some(n) = label_spec(s, a) {
                if p < n <= s.len() {
                    lemma_dot_atom_rest_shifts(s, k, n);
                }
            }
        }
    }
}

#[verifier::rlimit(100)]
#[verifier::spinoff_prover]
pub(crate) proof fn lemma_dot_atom_shifts(s: Seq<char>, k: int, p: int)
    requires
        0 <= k <= p <= s.len(),
    ensures
        dot_atom_spec(s, p) == moved(dot_atom_spec(rest(s, k), p - k), k),
        forward(dot_atom_spec(s, p), p, s),
{
    if p < s.len() {
        assert(rest(s, k)[p - k] == s[p]);
    }
    let q = if 0 <= p < s.len() && crate::classes::wsp_char(s[p]) {
        p + 1
    } else {
        p
    };
    lemma_label_shifts(s, k, q);
    if let Some(r) = label_spec(s, q) {
        lemma_dot_atom_rest_shifts(s, k, r);
        if let Some(e) = dot_atom_rest(s, r) {
            if e < s.len() {
                assert(rest(s, k)[e - k] == s[e]);
            }
        }
    }
    assert(dot_atom_text_spec(s, q) == moved(dot_atom_text_spec(rest(s, k), q - k), k));
}

pub(crate) proof fn lemma_dcontent_run_shifts(s: Seq<char>, k: int, p: int)
    requires
        0 <= k <= p <= s.len(),
    ensures
        dcontent_run(s, p) == dcontent_run(rest(s, k), p - k) + k,
        p <= dcontent_run(s, p) <= s.len(),
    decreases s.len() - p,
{
    lemma_opt_fws_shifts(s, k, p);
    let c = opt_fws(s, p);
    if c < s.len() {
        assert(rest(s, k)[c - k] == s[c]);
        if crate::classes::dtext_char(s[c]) {
            lemma_dcontent_run_shifts(s, k, c + 1);
        }
    }
}

#[verifier::rlimit(50)]
#[verifier::spinoff_prover]
pub(crate) proof fn lemma_domain_literal_shifts(s: Seq<char>, k: int, p: int)
    requires
        0 <= k <= p <= s.len(),
    ensures
        domain_literal_spec(s, p) == moved(domain_literal_spec(rest(s, k), p - k), k),
        forward(domain_literal_spec(s, p), p, s),
{
    lemma_opt_cfws_shifts(s, k, p);
    let q = opt_cfws(s, p);
    if q < s.len() {
        assert(rest(s, k)[q - k] == s[q]);
        if s[q] == '[' {
            lemma_dcontent_run_shifts(s, k, q + 1);
            let r = dcontent_run(s, q + 1);
            lemma_opt_fws_shifts(s, k, r);
            let t = opt_fws(s, r);
            if t < s.len() {
                assert(rest(s, k)[t - k] == s[t]);
                if s[t] == ']' {
                    lemma_opt_cfws_shifts(s, k, t + 1);
                }
            }
        }
    }
}

#[verifier::rlimit(100)]
#[verifier::spinoff_prover]
pub(crate) proof fn lemma_obs_domain_shifts(s: Seq<char>, k: int, p: int, d: int)
    requires
        0 <= k <= p <= s.len(),
    ensures
        obs_domain_spec(s, p, d) == moved(obs_domain_spec(rest(s, k), p - k, d), k),
        forward(obs_domain_spec(s, p, d), p, s),
    decreases depth_budget(d), s.len() - p, 0int, 0int,
{
    if d < MAX_RECURSION_DEPTH {
        let t = rest(s, k);
        lemma_cfws_star_shifts(s, k, p);
        let q = cfws_star(s, p);
        assert(cfws_star(t, p - k) == q - k);
        if q < s.len() && atext_no_dash_char(s[q]) {
            assert(t[q - k] == s[q]);
            lemma_span_shifts(s, k, q, CharClass::AtextNoDash);
            let r = span(s, q, CharClass::AtextNoDash);
            assert(span(t, q - k, CharClass::AtextNoDash) == r - k);
            if q < r <= s.len() {
                lemma_obs_domain_tail_shifts(s, k, r, d);
                assert(obs_domain_spec(s, p, d) == obs_domain_tail(s, r, d));
                assert(obs_domain_spec(t, p - k, d) == obs_domain_tail(t, r - k, d));
            }
        } else if q < s.len() {
            assert(t[q - k] == s[q]);
            assert(obs_domain_spec(s, p, d) is None);
            assert(obs_domain_spec(t, p - k, d) is None);
        } else {
            assert(obs_domain_spec(s, p, d) is None);
            assert(obs_domain_spec(t, p - k, d) is None);
        }
    }
}

#[verifier::rlimit(50)]
#[verifier::spinoff_prover]
pub(crate) proof fn lemma_obs_domain_tail_shifts(s: Seq<char>, k: int, p: int, d: int)
    requires
        0 <= k <= p <= s.len(),
    ensures
        obs_domain_tail(s, p, d) == moved(obs_domain_tail(rest(s, k), p - k, d), k),
        forward(obs_domain_tail(s, p, d), p, s),
    decreases depth_budget(d), s.len() - p, 0int, 1int,
{
    if d < MAX_RECURSION_DEPTH {
        let t = rest(s, k);
        lemma_cfws_star_shifts(s, k, p);
        let c = cfws_star(s, p);
        assert(cfws_star(t, p - k) == c - k);
        lemma_span_shifts(s, k, c, CharClass::Only('-'));
        let h = span(s, c, CharClass::Only('-'));
        assert(span(t, c - k, CharClass::Only('-')) == h - k);
        lemma_fws_star_shifts(s, k, p);
        if c < s.len() && s[c] == '.' {
            assert(t[c - k] == '.');
            lemma_separated_shifts(s, k, p, c + 1, d);
        } else {
            if c < s.len() {
                assert(t[c - k] == s[c]);
            }
            if h > c {
                lemma_separated_shifts(s, k, p, h, d);
            }
        }
    }
}

/// The step of `lemma_obs_domain_tail_shifts` after a separator that ends at `a`.
#[verifier::rlimit(100)]
#[verifier::spinoff_prover]
proof fn lemma_separated_shifts(s: Seq<char>, k: int, p: int, a: int, d: int)
    requires
        0 <= k <= p <= a <= s.len(),
        d < MAX_RECURSION_DEPTH,
    ensures
        (match obs_domain_plus_spec(s, a, d + 1) {
            Some(n) => if p < n <= s.len() {
                obs_domain_tail(s, n, d)
            } else {
                None
            },
            None => None,
        }) == moved(
            match obs_domain_plus_spec(rest(s, k), a - k, d + 1) {
                Some(n) => if p - k < n <= rest(s, k).len() {
                    obs_domain_tail(rest(s, k), n, d)
                } else {
                    None
                },
                None => None,
            },
            k,
        ),
        forward(
            match obs_domain_plus_spec(s, a, d + 1) {
                Some(n) => if p < n <= s.len() {
                    obs_domain_tail(s, n, d)
                } else {
                    None
                },
                None => None,
            },
            p,
            s,
        ),
    decreases depth_budget(d), s.len() - p, 0int, 0int,
{
    lemma_obs_domain_plus_shifts(s, k, a, d + 1);
    if let Some(n) = obs_domain_plus_spec(s, a, d + 1) {
        if p < n <= s.len() {
            lemma_obs_domain_tail_shifts(s, k, n, d);
        }
    }
}

#[verifier::rlimit(100)]
#[verifier::spinoff_prover]
pub(crate) proof fn lemma_obs_domain_plus_shifts(s: Seq<char>, k: int, p: int, d: int)
    requires
        0 <= k <= p <= s.len(),
    ensures
        obs_domain_plus_spec(s, p, d) == moved(obs_domain_plus_spec(rest(s, k), p - k, d), k),
        forward(obs_domain_plus_spec(s, p, d), p, s),
    decreases depth_budget(d), s.len() - p, 1int, 0int,
{
    let t = rest(s, k);
    lemma_obs_domain_shifts(s, k, p, d);
    match obs_domain_spec(s, p, d) {
        Some(q) => {
            assert(obs_domain_spec(t, p - k, d) == Some(q - k));
            if p < q <= s.len() {
                lemma_obs_domain_more_shifts(s, k, q, d);
                assert(obs_domain_more(t, q - k, d) == obs_domain_more(s, q, d) - k);
            }
        },
        None => {
            assert(obs_domain_spec(t, p - k, d) is None);
        },
    }
}

#[verifier::rlimit(100)]
#[verifier::spinoff_prover]
pub(crate) proof fn lemma_obs_domain_more_shifts(s: Seq<char>, k: int, p: int, d: int)
    requires
        0 <= k <= p <= s.len(),
    ensures
        obs_domain_more(s, p, d) == obs_domain_more(rest(s, k), p - k, d) + k,
        p <= obs_domain_more(s, p, d) <= s.len(),
    decreases depth_budget(d), s.len() - p, 1int, 0int,
{
    let t = rest(s, k);
    lemma_obs_domain_shifts(s, k, p, d);
    match obs_domain_spec(s, p, d) {
        Some(n) => {
            assert(obs_domain_spec(t, p - k, d) == Some(n - k));
            if p < n <= s.len() {
                lemma_obs_domain_more_shifts(s, k, n, d);
                assert(obs_domain_more(s, p, d) == obs_domain_more(s, n, d));
                assert(obs_domain_more(t, p - k, d) == obs_domain_more(t, n - k, d));
            } else {
                assert(obs_domain_more(s, p, d) == p);
            }
        },
        None => {
            assert(obs_domain_spec(t, p - k, d) is None);
            assert(obs_domain_more(s, p, d) == p);
        },
    }
}

pub(crate) proof fn lemma_domain_shifts(s: Seq<char>, k: int, p: int)
    requires
        0 <= k <= p <= s.len(),
    ensures
        domain_strict_spec(s, p) == moved(domain_strict_spec(rest(s, k), p - k), k),
        domain_obs_spec(s, p) == moved(domain_obs_spec(rest(s, k), p - k), k),
{
    lemma_dot_atom_shifts(s, k, p);
    lemma_domain_literal_shifts(s, k, p);
    lemma_obs_domain_shifts(s, k, p, 0);
}

/// The domain that a parse returns is a domain on its own, in the same
/// mode: the domain rule accepts it whole.
pub(crate) proof fn lemma_parsed_domain_stands_alone(s: Seq<char>, mode: ParseMode)
    ensures
        parsed(s, mode) matches Some((l, d)) ==> domain_valid(d, mode),
{
    reveal(address_strict_spec);
    reveal(address_obs_spec);
    lemma_split_at_sign(s, mode);
    if let Some(l) = address_split(s, mode) {
        let d = rest(s, l + 1);
        assert(parsed(s, mode) == Some((s.subrange(0, l), d)));
        lemma_domain_shifts(s, l + 1, l + 1);
        if whole(address_strict_spec(s, 0), s) == Some(l) {
            assert(domain_strict_spec(s, l + 1) == Some(s.len() as int));
            assert(domain_strict_spec(d, 0) == Some(d.len() as int));
            assert(rule_covers(Rule::domain_complete, d));
        } else {
            assert(mode == ParseMode::Lax);
            assert(whole(address_obs_spec(s, 0), s) == Some(l));
            assert(domain_obs_spec(s, l + 1) == Some(s.len() as int));
            assert(domain_obs_spec(d, 0) == Some(d.len() as int));
            assert(rule_covers(Rule::domain_obs, d));
        }
    }
}

} // verus!
