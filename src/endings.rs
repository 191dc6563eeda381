//! What the last character of a domain match can be: never a dot and never
//! a dash. Every rule that can end a domain ends on a label character that
//! is not `-`, on white space, on `)` or on `]`.
use vstd::prelude::*;
use crate::classes::wsp_char;
use crate::obsolete::{
    depth_budget, obs_domain_more, obs_domain_plus_spec, obs_domain_spec, obs_domain_tail,
    MAX_RECURSION_DEPTH,
};
use crate::scan::{
    cfws_spec, cfws_star, comment_run, comment_spec, crlf_at, fws_folds, fws_spec, fws_star,
    in_class, opt_cfws, opt_fws, span, CharClass,
};
use crate::classes::atext_no_dash_char;
use crate::tokens::{
    dcontent_run, domain_literal_spec, dot_atom_rest, dot_atom_spec, dot_atom_text_spec,
    label_spec,
};
use crate::address::{
    address_obs_spec, address_split, address_strict_spec, domain_obs_spec, domain_strict_spec,
    parsed, ParseMode,
};

verus! {

/// The character before position `e` of `s` is neither a dot nor a dash.
pub open spec fn clean_end(s: Seq<char>, e: int) -> bool {
    0 < e <= s.len() && s[e - 1] != '.' && s[e - 1] != '-'
}

proof fn lemma_span(s: Seq<char>, p: int, k: CharClass)
    requires
        0 <= p <= s.len(),
    ensures
        p <= span(s, p, k) <= s.len(),
        span(s, p, k) > p ==> in_class(k, s[span(s, p, k) - 1]),
    decreases s.len() - p,
{
    if p < s.len() && in_class(k, s[p]) {
        lemma_span(s, p + 1, k);
    }
}

proof fn lemma_fws_folds(s: Seq<char>, p: int)
    requires
        0 <= p <= s.len(),
    ensures
        p <= fws_folds(s, p) <= s.len(),
        fws_folds(s, p) > p ==> wsp_char(s[fws_folds(s, p) - 1]),
    decreases s.len() - p,
{
    if crlf_at(s, p) {
        let q = span(s, p + 2, CharClass::Wsp);
        lemma_span(s, p + 2, CharClass::Wsp);
        lemma_fws_folds(s, q);
    }
}

proof fn lemma_fws(s: Seq<char>, p: int)
    requires
        0 <= p <= s.len(),
    ensures
        fws_spec(s, p) matches Some(e) ==> p < e <= s.len() && wsp_char(s[e - 1]),
{
    let q = span(s, p, CharClass::Wsp);
    lemma_span(s, p, CharClass::Wsp);
    if crlf_at(s, q) {
        let r = span(s, q + 2, CharClass::Wsp);
        lemma_span(s, q + 2, CharClass::Wsp);
        lemma_fws_folds(s, r);
    } else {
        lemma_fws_folds(s, q);
    }
}

proof fn lemma_opt_fws(s: Seq<char>, p: int)
    requires
        0 <= p <= s.len(),
    ensures
        p <= opt_fws(s, p) <= s.len(),
        opt_fws(s, p) > p ==> wsp_char(s[opt_fws(s, p) - 1]),
{
    lemma_fws(s, p);
}

proof fn lemma_fws_star(s: Seq<char>, p: int)
    requires
        0 <= p <= s.len(),
    ensures
        fws_star(s, p) == p || (p < fws_star(s, p) <= s.len() && wsp_char(
            s[fws_star(s, p) - 1],
        )),
    decreases s.len() - p,
{
    lemma_fws(s, p);
    if let Some(q) = fws_spec(s, p) {
        if p < q <= s.len() {
            lemma_fws_star(s, q);
        }
    }
}

proof fn lemma_comment_run(s: Seq<char>, p: int)
    requires
        0 <= p <= s.len(),
    ensures
        comment_run(s, p) == p || (0 < comment_run(s, p) <= s.len() && s[comment_run(s, p) - 1]
            == ')'),
    decreases s.len() - p,
{
    let c = opt_fws(s, p);
    if 0 <= p <= c <= s.len() {
        if let Some(n) = comment_spec(s, c) {
            if c < n <= s.len() {
                lemma_comment_run(s, n);
            }
        }
    }
}

proof fn lemma_cfws(s: Seq<char>, p: int)
    requires
        0 <= p <= s.len(),
    ensures
        cfws_spec(s, p) matches Some(e) ==> clean_end(s, e),
{
    let q = comment_run(s, p);
    lemma_comment_run(s, p);
    if q != p {
        lemma_opt_fws(s, q);
    } else {
        lemma_fws(s, p);
    }
}

proof fn lemma_opt_cfws(s: Seq<char>, p: int)
    requires
        0 <= p <= s.len(),
    ensures
        opt_cfws(s, p) == p || clean_end(s, opt_cfws(s, p)),
{
    lemma_cfws(s, p);
}

proof fn lemma_label(s: Seq<char>, p: int)
    ensures
        label_spec(s, p) matches Some(e) ==> clean_end(s, e),
{
    if 0 <= p < s.len() {
        lemma_span(s, p + 1, CharClass::Atext);
    }
}

proof fn lemma_dot_atom_rest(s: Seq<char>, p: int)
    ensures
        dot_atom_rest(s, p) matches Some(e) ==> e == p || clean_end(s, e),
    decreases s.len() - p,
{
    if 0 <= p < s.len() && s[p] == '.' {
        let a = cfws_star(s, p + 1);
        lemma_label(s, a);
        if let Some(n) = label_spec(s, a) {
            if p < n <= s.len() {
                lemma_dot_atom_rest(s, n);
            }
        }
    }
}

proof fn lemma_dot_atom(s: Seq<char>, p: int)
    ensures
        dot_atom_spec(s, p) matches Some(e) ==> clean_end(s, e),
{
    let q = if 0 <= p < s.len() && wsp_char(s[p]) {
        p + 1
    } else {
        p
    };
    lemma_label(s, q);
    if let Some(r) = label_spec(s, q) {
        lemma_dot_atom_rest(s, r);
    }
    assert(dot_atom_text_spec(s, q) matches Some(e) ==> clean_end(s, e));
}

proof fn lemma_domain_literal(s: Seq<char>, p: int)
    ensures
        domain_literal_spec(s, p) matches Some(e) ==> clean_end(s, e),
{
    if let Some(e) = domain_literal_spec(s, p) {
        assert(exists|t: int| 0 <= t < s.len() && s[t] == ']' && e == opt_cfws(s, t + 1)) by {
            let q = opt_cfws(s, p);
            let t = opt_fws(s, dcontent_run(s, q + 1));
            assert(0 <= t < s.len() && s[t] == ']' && e == opt_cfws(s, t + 1));
        }
        let t = choose|t: int| 0 <= t < s.len() && s[t] == ']' && e == opt_cfws(s, t + 1);
        lemma_opt_cfws(s, t + 1);
    }
}

proof fn lemma_obs_domain(s: Seq<char>, p: int, d: int)
    ensures
        obs_domain_spec(s, p, d) matches Some(e) ==> clean_end(s, e),
    decreases depth_budget(d), s.len() - p, 0int,
{
    if !(d >= MAX_RECURSION_DEPTH || !(0 <= p <= s.len())) {
        let q = cfws_star(s, p);
        if p <= q < s.len() && atext_no_dash_char(s[q]) {
            let r = span(s, q, CharClass::AtextNoDash);
            lemma_span(s, q, CharClass::AtextNoDash);
            if q < r <= s.len() {
                lemma_obs_domain_tail(s, r, d);
            }
        }
    }
}

proof fn lemma_obs_domain_tail(s: Seq<char>, p: int, d: int)
    requires
        clean_end(s, p),
    ensures
        obs_domain_tail(s, p, d) matches Some(e) ==> clean_end(s, e),
    decreases depth_budget(d), s.len() - p, 0int,
{
    if !(d >= MAX_RECURSION_DEPTH || !(0 <= p <= s.len())) {
        let c = cfws_star(s, p);
        let h = span(s, c, CharClass::Only('-'));
        let next = if 0 <= c < s.len() && s[c] == '.' {
            Some(c + 1)
        } else if h > c {
            Some(h)
        } else {
            None
        };
        match next {
            Some(a) => {
                lemma_obs_domain_plus(s, a, d + 1);
                if let Some(n) = obs_domain_plus_spec(s, a, d + 1) {
                    if p < n <= s.len() {
                        lemma_obs_domain_tail(s, n, d);
                    }
                }
            },
            None => {
                lemma_fws_star(s, p);
            },
        }
    }
}

proof fn lemma_obs_domain_plus(s: Seq<char>, p: int, d: int)
    ensures
        obs_domain_plus_spec(s, p, d) matches Some(e) ==> clean_end(s, e),
    decreases depth_budget(d), s.len() - p, 1int,
{
    lemma_obs_domain(s, p, d);
    if let Some(q) = obs_domain_spec(s, p, d) {
        if p < q <= s.len() {
            lemma_obs_domain_more(s, q, d);
        }
    }
}

proof fn lemma_obs_domain_more(s: Seq<char>, p: int, d: int)
    requires
        clean_end(s, p),
    ensures
        clean_end(s, obs_domain_more(s, p, d)),
    decreases depth_budget(d), s.len() - p, 1int,
{
    lemma_obs_domain(s, p, d);
    if let Some(n) = obs_domain_spec(s, p, d) {
        if p < n <= s.len() {
            lemma_obs_domain_more(s, n, d);
        }
    }
}

/// A domain never ends on a dot or a dash, in either grammar.
pub proof fn lemma_domain_ends_clean(s: Seq<char>, p: int)
    ensures
        domain_strict_spec(s, p) matches Some(e) ==> clean_end(s, e),
        domain_obs_spec(s, p) matches Some(e) ==> clean_end(s, e),
{
    lemma_dot_atom(s, p);
    lemma_domain_literal(s, p);
    lemma_obs_domain(s, p, 0);
}

/// An input that ends with a dot or a dash is never an address, in either
/// mode. However long a trailing run of separators is, it is rejected.
pub proof fn lemma_trailing_separator_rejected(s: Seq<char>, mode: ParseMode)
    requires
        s.len() > 0,
        s.last() == '.' || s.last() == '-',
    ensures
        parsed(s, mode) is None,
{
    reveal(address_strict_spec);
    reveal(address_obs_spec);
    if let Some((l, e)) = address_strict_spec(s, 0) {
        lemma_domain_ends_clean(s, l + 1);
    }
    if let Some((l, e)) = address_obs_spec(s, 0) {
        lemma_domain_ends_clean(s, l + 1);
    }
    assert(address_split(s, mode) is None);
}

} // verus!
