//! Rules look past their match by at most what they fail on: cutting the
//! input just before an `@` leaves every match that ends before the cut as
//! it was. The one thing that can differ is a comment that opens before the
//! cut and closes after it, which the cut input no longer closes.
use vstd::prelude::*;
use crate::address::{
    address_obs_spec, address_split, address_strict_spec, domain_valid, lemma_split_at_sign,
    local_part_obs_spec, local_part_strict_spec, local_part_valid, parsed, rule_covers, whole,
    ParseMode, Rule,
};
use crate::classes::atext_char;
use crate::obsolete::{obs_local_part_spec, obs_local_rest};
use crate::tokens::{
    atom_spec, dot_atom_rest, dot_atom_spec, dot_atom_text_spec, label_spec, qcontent_run,
    qcontent_spec, quoted_string_spec, word_spec,
};
use crate::scan::{
    cfws_spec, cfws_star, cfws_start, comment_items, comment_run, comment_spec, ccontent_spec,
    crlf_at, fws_folds, fws_spec, fws_star, in_class, opt_cfws, opt_fws, quoted_pair_spec, span,
    CharClass,
};
use crate::suffix::{
    lemma_ccontent_shifts, lemma_comment_items_shifts, lemma_comment_run_shifts,
    lemma_comment_shifts, lemma_opt_fws_shifts, lemma_parsed_domain_stands_alone,
};

verus! {

/// `s` cut just before position `n`.
pub open spec fn cut(s: Seq<char>, n: int) -> Seq<char> {
    s.subrange(0, n)
}

/// The cut at `n` falls on an `@`, and `p` lies before it or on it.
pub open spec fn cut_at_sign(s: Seq<char>, n: int, p: int) -> bool {
    0 <= p <= n < s.len() && s[n] == '@'
}

/// A comment of `s` opens at `y`, before the cut at `n`, and closes after it.
pub open spec fn crossing(s: Seq<char>, n: int, y: int) -> bool {
    0 <= y < n && s[y] == '(' && (comment_spec(s, y) matches Some(m) && m > n)
}

/// The match of the cut input is the match of `s` if that ends before the
/// cut, and no match otherwise.
pub open spec fn restricted(rs: Option<int>, rt: Option<int>, n: int) -> bool {
    rt == (match rs {
        Some(e) => if e <= n {
            Some(e)
        } else {
            None
        },
        None => None,
    })
}

/// As `restricted`, except that where the match of `s` runs past the cut,
/// the cut input may still match, up to a crossing comment.
pub open spec fn cut_match(rs: Option<int>, rt: Option<int>, s: Seq<char>, n: int) -> bool {
    match rs {
        Some(e) => if e <= n {
            rt == Some(e)
        } else {
            rt matches Some(y) ==> crossing(s, n, y)
        },
        None => rt is None,
    }
}

/// A position of the cut input against one of `s`: the same before the cut,
/// and a crossing comment where `s` went past it.
pub open spec fn cut_pos(rs: int, rt: int, s: Seq<char>, n: int) -> bool {
    if rs <= n {
        rt == rs
    } else {
        crossing(s, n, rt)
    }
}

pub(crate) proof fn lemma_span_cut(s: Seq<char>, n: int, p: int, k: CharClass)
    requires
        cut_at_sign(s, n, p),
        !in_class(k, '@'),
    ensures
        span(cut(s, n), p, k) == span(s, p, k),
        p <= span(s, p, k) <= n,
    decreases n - p,
{
    if p < n {
        assert(cut(s, n)[p] == s[p]);
        if in_class(k, s[p]) {
            lemma_span_cut(s, n, p + 1, k);
        }
    }
}

pub(crate) proof fn lemma_crlf_cut(s: Seq<char>, n: int, p: int)
    requires
        cut_at_sign(s, n, p),
    ensures
        crlf_at(cut(s, n), p) == crlf_at(s, p),
        crlf_at(s, p) ==> p + 2 <= n,
{
    if p + 1 < n {
        assert(cut(s, n)[p] == s[p]);
        assert(cut(s, n)[p + 1] == s[p + 1]);
    }
}

pub(crate) proof fn lemma_fws_folds_cut(s: Seq<char>, n: int, p: int)
    requires
        cut_at_sign(s, n, p),
    ensures
        fws_folds(cut(s, n), p) == fws_folds(s, p),
        p <= fws_folds(s, p) <= n,
    decreases n - p,
{
    lemma_crlf_cut(s, n, p);
    if crlf_at(s, p) {
        lemma_span_cut(s, n, p + 2, CharClass::Wsp);
        let q = span(s, p + 2, CharClass::Wsp);
        if p + 2 < q {
            lemma_fws_folds_cut(s, n, q);
        }
    }
}

pub(crate) proof fn lemma_fws_cut(s: Seq<char>, n: int, p: int)
    requires
        cut_at_sign(s, n, p),
    ensures
        fws_spec(cut(s, n), p) == fws_spec(s, p),
        fws_spec(s, p) matches Some(e) ==> p <= e <= n,
{
    lemma_span_cut(s, n, p, CharClass::Wsp);
    let q = span(s, p, CharClass::Wsp);
    lemma_crlf_cut(s, n, q);
    if crlf_at(s, q) {
        lemma_span_cut(s, n, q + 2, CharClass::Wsp);
        lemma_fws_folds_cut(s, n, span(s, q + 2, CharClass::Wsp));
    } else {
        lemma_fws_folds_cut(s, n, q);
    }
}

pub(crate) proof fn lemma_opt_fws_cut(s: Seq<char>, n: int, p: int)
    requires
        cut_at_sign(s, n, p),
    ensures
        opt_fws(cut(s, n), p) == opt_fws(s, p),
        p <= opt_fws(s, p) <= n,
{
    lemma_fws_cut(s, n, p);
}

pub(crate) proof fn lemma_fws_star_cut(s: Seq<char>, n: int, p: int)
    requires
        cut_at_sign(s, n, p),
    ensures
        fws_star(cut(s, n), p) == fws_star(s, p),
        p <= fws_star(s, p) <= n,
    decreases n - p,
{
    lemma_fws_cut(s, n, p);
    if let Some(q) = fws_spec(s, p) {
        if p < q {
            lemma_fws_star_cut(s, n, q);
        }
    }
}

pub(crate) proof fn lemma_quoted_pair_cut(s: Seq<char>, n: int, p: int)
    requires
        cut_at_sign(s, n, p),
    ensures
        restricted(quoted_pair_spec(s, p), quoted_pair_spec(cut(s, n), p), n),
{
    if p + 1 < n {
        assert(cut(s, n)[p] == s[p]);
        assert(cut(s, n)[p + 1] == s[p + 1]);
    }
}

/// Where a run of comment content stops in the cut input, short of the cut,
/// the next character is one that cannot close the comment.
pub open spec fn stops_unclosed(s: Seq<char>, n: int, r: int) -> bool {
    opt_fws(s, r) == n || (opt_fws(s, r) < n && (s[opt_fws(s, r)] == '\\' || s[opt_fws(s, r)]
        == '('))
}

pub(crate) proof fn lemma_comment_cut(s: Seq<char>, n: int, p: int)
    requires
        cut_at_sign(s, n, p),
    ensures
        restricted(comment_spec(s, p), comment_spec(cut(s, n), p), n),
    decreases s.len() - p, 0int,
{
    let t = cut(s, n);
    if p < n {
        assert(t[p] == s[p]);
        if s[p] == '(' {
            lemma_comment_items_cut(s, n, p + 1);
            lemma_comment_items_shifts(s, 0, p + 1);
            let r = comment_items(s, p + 1);
            let rt = comment_items(t, p + 1);
            lemma_opt_fws_cut(s, n, rt);
            let u = opt_fws(s, rt);
            if u < n {
                assert(t[u] == s[u]);
            }
            if r > n {
                lemma_opt_fws_shifts(s, 0, r);
            }
        }
    }
}

pub(crate) proof fn lemma_comment_items_cut(s: Seq<char>, n: int, p: int)
    requires
        cut_at_sign(s, n, p),
    ensures
        comment_items(s, p) <= n ==> comment_items(cut(s, n), p) == comment_items(s, p),
        comment_items(s, p) > n ==> p <= comment_items(cut(s, n), p) <= n && stops_unclosed(
            s,
            n,
            comment_items(cut(s, n), p),
        ),
    decreases s.len() - p, 2int,
{
    let t = cut(s, n);
    lemma_opt_fws_cut(s, n, p);
    lemma_comment_items_shifts(s, 0, p);
    let c = opt_fws(s, p);
    lemma_ccontent_cut(s, n, c);
    lemma_ccontent_shifts(s, 0, c);
    if let Some(m) = ccontent_spec(s, c) {
        if c < m <= s.len() {
            if m <= n {
                lemma_comment_items_cut(s, n, m);
            } else {
                lemma_comment_items_shifts(s, 0, m);
                if c < n {
                    assert(t[c] == s[c]);
                }
            }
        }
    }
}

pub(crate) proof fn lemma_ccontent_cut(s: Seq<char>, n: int, p: int)
    requires
        cut_at_sign(s, n, p),
    ensures
        restricted(ccontent_spec(s, p), ccontent_spec(cut(s, n), p), n),
        ccontent_spec(s, p) matches Some(m) ==> (m > n ==> (p == n || s[p] == '\\' || s[p]
            == '(')),
    decreases s.len() - p, 1int,
{
    let t = cut(s, n);
    if p < n {
        assert(t[p] == s[p]);
    }
    lemma_quoted_pair_cut(s, n, p);
    lemma_comment_cut(s, n, p);
}

pub(crate) proof fn lemma_comment_run_cut(s: Seq<char>, n: int, p: int)
    requires
        cut_at_sign(s, n, p),
    ensures
        comment_run(s, p) <= n ==> comment_run(cut(s, n), p) == comment_run(s, p),
        comment_run(s, p) > n ==> p <= comment_run(cut(s, n), p) <= n && crossing(
            s,
            n,
            opt_fws(s, comment_run(cut(s, n), p)),
        ),
    decreases s.len() - p,
{
    lemma_opt_fws_cut(s, n, p);
    lemma_comment_run_shifts(s, 0, p);
    let c = opt_fws(s, p);
    lemma_comment_cut(s, n, c);
    lemma_comment_shifts(s, 0, c);
    if let Some(m) = comment_spec(s, c) {
        if c < m <= s.len() {
            if m <= n {
                lemma_comment_run_cut(s, n, m);
            } else {
                lemma_comment_run_shifts(s, 0, m);
            }
        }
    }
}

pub(crate) proof fn lemma_cfws_cut(s: Seq<char>, n: int, p: int)
    requires
        cut_at_sign(s, n, p),
    ensures
        cut_match(cfws_spec(s, p), cfws_spec(cut(s, n), p), s, n),
        (cfws_spec(s, p) matches Some(e) && e > n && cfws_spec(cut(s, n), p) is None) ==> crossing(
            s,
            n,
            p,
        ),
{
    let t = cut(s, n);
    lemma_comment_run_cut(s, n, p);
    lemma_comment_run_shifts(s, 0, p);
    lemma_fws_cut(s, n, p);
    let q = comment_run(s, p);
    let qt = comment_run(t, p);
    if q != p {
        lemma_opt_fws_shifts(s, 0, q);
        if q <= n {
            lemma_opt_fws_cut(s, n, q);
        } else {
            lemma_opt_fws_cut(s, n, qt);
        }
    }
}

pub(crate) proof fn lemma_opt_cfws_cut(s: Seq<char>, n: int, p: int)
    requires
        cut_at_sign(s, n, p),
    ensures
        cut_pos(opt_cfws(s, p), opt_cfws(cut(s, n), p), s, n),
        p <= opt_cfws(s, p),
        p <= opt_cfws(cut(s, n), p) <= n,
{
    lemma_cfws_cut(s, n, p);
    crate::suffix::lemma_cfws_shifts(s, 0, p);
    crate::suffix::lemma_cfws_shifts(cut(s, n), 0, p);
}

/// A crossing comment stops every `CFWS` of the cut input where it opens.
proof fn lemma_crossing_blocks(s: Seq<char>, n: int, y: int)
    requires
        crossing(s, n, y),
        n < s.len(),
        s[n] == '@',
    ensures
        cfws_spec(cut(s, n), y) is None,
        cfws_star(cut(s, n), y) == y,
{
    let t = cut(s, n);
    assert(t[y] == '(');
    assert(span(t, y, CharClass::Wsp) == y);
    assert(fws_spec(t, y) is None);
    lemma_comment_cut(s, n, y);
    assert(comment_spec(t, y) is None);
    assert(comment_run(t, y) == y);
}

pub(crate) proof fn lemma_cfws_star_cut(s: Seq<char>, n: int, p: int)
    requires
        cut_at_sign(s, n, p),
    ensures
        cut_pos(cfws_star(s, p), cfws_star(cut(s, n), p), s, n),
        p <= cfws_star(cut(s, n), p) <= n,
    decreases s.len() - p,
{
    let t = cut(s, n);
    crate::suffix::lemma_cfws_star_shifts(s, 0, p);
    if p < n {
        assert(t[p] == s[p]);
        if cfws_start(s[p]) {
            lemma_cfws_cut(s, n, p);
            crate::suffix::lemma_cfws_shifts(s, 0, p);
            crate::suffix::lemma_cfws_shifts(t, 0, p);
            if let Some(q) = cfws_spec(s, p) {
                if p < q <= s.len() {
                    if q <= n {
                        lemma_cfws_star_cut(s, n, q);
                    } else {
                        crate::suffix::lemma_cfws_star_shifts(s, 0, q);
                        if let Some(y) = cfws_spec(t, p) {
                            lemma_crossing_blocks(s, n, y);
                        }
                    }
                }
            }
        }
    }
}

pub(crate) proof fn lemma_label_cut(s: Seq<char>, n: int, p: int)
    requires
        cut_at_sign(s, n, p),
    ensures
        label_spec(cut(s, n), p) == label_spec(s, p),
        label_spec(s, p) matches Some(e) ==> p < e <= n,
{
    let t = cut(s, n);
    if p < n {
        assert(t[p] == s[p]);
        lemma_span_cut(s, n, p + 1, CharClass::Atext);
        let e = span(s, p + 1, CharClass::Atext);
        assert(t[e - 1] == s[e - 1]);
    }
}

pub(crate) proof fn lemma_dot_atom_rest_cut(s: Seq<char>, n: int, p: int)
    requires
        cut_at_sign(s, n, p),
    ensures
        restricted(dot_atom_rest(s, p), dot_atom_rest(cut(s, n), p), n),
    decreases s.len() - p,
{
    let t = cut(s, n);
    if p < n {
        assert(t[p] == s[p]);
        if s[p] == '.' {
            lemma_cfws_star_cut(s, n, p + 1);
            crate::suffix::lemma_cfws_star_shifts(s, 0, p + 1);
            let a = cfws_star(s, p + 1);
            let at = cfws_star(t, p + 1);
            if a <= n {
                lemma_label_cut(s, n, a);
                if let Some(m) = label_spec(s, a) {
                    if p < m <= s.len() {
                        lemma_dot_atom_rest_cut(s, n, m);
                    }
                }
            } else {
                assert(t[at] == '(');
                crate::suffix::lemma_label_shifts(s, 0, a);
                if let Some(m) = label_spec(s, a) {
                    if p < m <= s.len() {
                        crate::suffix::lemma_dot_atom_rest_shifts(s, 0, m);
                    }
                }
            }
        }
    }
}

pub(crate) proof fn lemma_dot_atom_cut(s: Seq<char>, n: int, p: int)
    requires
        cut_at_sign(s, n, p),
    ensures
        restricted(dot_atom_spec(s, p), dot_atom_spec(cut(s, n), p), n),
{
    let t = cut(s, n);
    if p < n {
        assert(t[p] == s[p]);
    }
    let q = if 0 <= p < s.len() && crate::classes::wsp_char(s[p]) {
        p + 1
    } else {
        p
    };
    lemma_label_cut(s, n, q);
    if let Some(r) = label_spec(s, q) {
        lemma_dot_atom_rest_cut(s, n, r);
        crate::suffix::lemma_dot_atom_rest_shifts(s, 0, r);
        if let Some(e) = dot_atom_rest(s, r) {
            if e < n {
                assert(t[e] == s[e]);
            }
        }
    }
    assert(restricted(dot_atom_text_spec(s, q), dot_atom_text_spec(t, q), n));
}

pub(crate) proof fn lemma_qcontent_cut(s: Seq<char>, n: int, p: int)
    requires
        cut_at_sign(s, n, p),
    ensures
        restricted(qcontent_spec(s, p), qcontent_spec(cut(s, n), p), n),
        qcontent_spec(s, p) matches Some(m) ==> p < m && (m > n ==> (p == n || s[p] == '\\')),
{
    let t = cut(s, n);
    if p < n {
        assert(t[p] == s[p]);
    }
    lemma_quoted_pair_cut(s, n, p);
}

proof fn lemma_qcontent_run_forward(s: Seq<char>, p: int)
    requires
        0 <= p <= s.len(),
    ensures
        p <= qcontent_run(s, p) <= s.len(),
    decreases s.len() - p,
{
    lemma_opt_fws_shifts(s, 0, p);
    let c = opt_fws(s, p);
    if let Some(m) = qcontent_spec(s, c) {
        if c < m <= s.len() {
            lemma_qcontent_run_forward(s, m);
        }
    }
}

pub(crate) proof fn lemma_qcontent_run_cut(s: Seq<char>, n: int, p: int)
    requires
        cut_at_sign(s, n, p),
    ensures
        qcontent_run(s, p) <= n ==> qcontent_run(cut(s, n), p) == qcontent_run(s, p),
        qcontent_run(s, p) > n ==> p <= qcontent_run(cut(s, n), p) <= n && stops_unclosed(
            s,
            n,
            qcontent_run(cut(s, n), p),
        ),
    decreases s.len() - p,
{
    let t = cut(s, n);
    lemma_opt_fws_cut(s, n, p);
    lemma_qcontent_run_forward(s, p);
    let c = opt_fws(s, p);
    lemma_qcontent_cut(s, n, c);
    if let Some(m) = qcontent_spec(s, c) {
        if c < m <= s.len() {
            if m <= n {
                lemma_qcontent_run_cut(s, n, m);
            } else {
                lemma_qcontent_run_forward(s, m);
                if c < n {
                    assert(t[c] == s[c]);
                }
            }
        }
    }
}

#[verifier::rlimit(100)]
#[verifier::spinoff_prover]
pub(crate) proof fn lemma_quoted_string_cut(s: Seq<char>, n: int, p: int)
    requires
        cut_at_sign(s, n, p),
    ensures
        cut_match(quoted_string_spec(s, p), quoted_string_spec(cut(s, n), p), s, n),
        quoted_string_spec(s, p) matches Some(e) ==> opt_cfws(s, p) < e <= s.len(),
{
    let t = cut(s, n);
    lemma_opt_cfws_cut(s, n, p);
    crate::suffix::lemma_opt_cfws_shifts(s, 0, p);
    let q = opt_cfws(s, p);
    let qt = opt_cfws(t, p);
    if qt < n {
        assert(t[qt] == s[qt]);
    }
    if q < s.len() && s[q] == '"' {
        lemma_qcontent_run_forward(s, q + 1);
        let r = qcontent_run(s, q + 1);
        lemma_opt_fws_shifts(s, 0, r);
        let u = opt_fws(s, r);
        if u < s.len() && s[u] == '"' {
            crate::suffix::lemma_opt_cfws_shifts(s, 0, u + 1);
        }
    }
    if q > n {
        assert(quoted_string_spec(t, p) is None);
    } else if q == n || s[q] != '"' {
        assert(quoted_string_spec(s, p) is None);
        assert(quoted_string_spec(t, p) is None);
    } else {
        lemma_qcontent_run_cut(s, n, q + 1);
        let r = qcontent_run(s, q + 1);
        let rt = qcontent_run(t, q + 1);
        lemma_opt_fws_cut(s, n, rt);
        let ut = opt_fws(s, rt);
        if ut < n {
            assert(t[ut] == s[ut]);
        }
        if r <= n {
            if ut < n && s[ut] == '"' {
                lemma_opt_cfws_cut(s, n, ut + 1);
            }
        } else {
            assert(quoted_string_spec(t, p) is None);
        }
    }
}

pub(crate) proof fn lemma_atom_cut(s: Seq<char>, n: int, p: int)
    requires
        cut_at_sign(s, n, p),
    ensures
        cut_match(atom_spec(s, p), atom_spec(cut(s, n), p), s, n),
        (atom_spec(s, p) is Some && atom_spec(cut(s, n), p) is None) ==> opt_cfws(s, p) > n,
{
    let t = cut(s, n);
    lemma_opt_cfws_cut(s, n, p);
    let q = opt_cfws(s, p);
    let qt = opt_cfws(t, p);
    if qt < n {
        assert(t[qt] == s[qt]);
    }
    if q < s.len() && atext_char(s[q]) {
        crate::suffix::lemma_span_shifts(s, 0, q, CharClass::Atext);
        let e = span(s, q, CharClass::Atext);
        crate::suffix::lemma_opt_cfws_shifts(s, 0, e);
        if q <= n {
            lemma_span_cut(s, n, q, CharClass::Atext);
            lemma_opt_cfws_cut(s, n, e);
        }
    }
}

pub(crate) proof fn lemma_word_cut(s: Seq<char>, n: int, p: int)
    requires
        cut_at_sign(s, n, p),
    ensures
        cut_match(word_spec(s, p), word_spec(cut(s, n), p), s, n),
        word_spec(s, p) matches Some(e) ==> p <= e <= s.len(),
{
    reveal(word_spec);
    let t = cut(s, n);
    lemma_atom_cut(s, n, p);
    lemma_quoted_string_cut(s, n, p);
    lemma_opt_cfws_cut(s, n, p);
    let qt = opt_cfws(t, p);
    if qt < n {
        assert(t[qt] == s[qt]);
    }
    if let Some(e) = atom_spec(s, p) {
        crate::suffix::lemma_opt_cfws_shifts(s, 0, p);
        let q = opt_cfws(s, p);
        crate::suffix::lemma_span_shifts(s, 0, q, CharClass::Atext);
        crate::suffix::lemma_opt_cfws_shifts(s, 0, span(s, q, CharClass::Atext));
    }
}

proof fn lemma_word_forward(s: Seq<char>, p: int)
    requires
        0 <= p <= s.len(),
    ensures
        word_spec(s, p) matches Some(e) ==> p <= e <= s.len(),
{
    reveal(word_spec);
    crate::suffix::lemma_opt_cfws_shifts(s, 0, p);
    let q = opt_cfws(s, p);
    if q < s.len() && atext_char(s[q]) {
        crate::suffix::lemma_span_shifts(s, 0, q, CharClass::Atext);
        crate::suffix::lemma_opt_cfws_shifts(s, 0, span(s, q, CharClass::Atext));
    }
    if q < s.len() && s[q] == '"' {
        lemma_qcontent_run_forward(s, q + 1);
        let r = qcontent_run(s, q + 1);
        lemma_opt_fws_shifts(s, 0, r);
        let u = opt_fws(s, r);
        if u < s.len() && s[u] == '"' {
            crate::suffix::lemma_opt_cfws_shifts(s, 0, u + 1);
        }
    }
}

proof fn lemma_obs_local_rest_forward(s: Seq<char>, p: int)
    requires
        0 <= p <= s.len(),
    ensures
        obs_local_rest(s, p) matches Some(e) ==> p <= e <= s.len(),
    decreases s.len() - p,
{
    let c = cfws_star(s, p);
    if 0 <= c < s.len() && s[c] == '.' {
        if let Some(m) = word_spec(s, cfws_star(s, c + 1)) {
            if p < m <= s.len() {
                lemma_obs_local_rest_forward(s, m);
                crate::suffix::lemma_cfws_star_shifts(s, 0, c + 1);
            }
        }
    }
}

#[verifier::rlimit(100)]
#[verifier::spinoff_prover]
pub(crate) proof fn lemma_obs_local_rest_cut(s: Seq<char>, n: int, p: int)
    requires
        cut_at_sign(s, n, p),
    ensures
        obs_local_rest(s, p) matches Some(e) ==> (e <= n ==> obs_local_rest(cut(s, n), p) == Some(
            e,
        )),
    decreases s.len() - p,
{
    let t = cut(s, n);
    lemma_cfws_star_cut(s, n, p);
    crate::suffix::lemma_cfws_star_shifts(s, 0, p);
    let c = cfws_star(s, p);
    let ct = cfws_star(t, p);
    if let Some(e) = obs_local_rest(s, p) {
        if e <= n {
            if 0 <= c < s.len() && s[c] == '.' {
                crate::suffix::lemma_cfws_star_shifts(s, 0, c + 1);
                let w = cfws_star(s, c + 1);
                assert(word_spec(s, w) is Some);
                let m = word_spec(s, w)->0;
                assert(p < m <= s.len());
                assert(obs_local_rest(s, p) == obs_local_rest(s, m));
                lemma_obs_local_rest_forward(s, m);
                lemma_word_forward(s, w);
                lemma_word_cut(s, n, w);
                assert(ct == c);
                assert(t[c] == '.');
                lemma_cfws_star_cut(s, n, c + 1);
                lemma_obs_local_rest_cut(s, n, m);
                assert(obs_local_rest(t, p) == obs_local_rest(t, m));
            } else {
                if ct < n {
                    assert(t[ct] == s[ct]);
                }
                assert(obs_local_rest(t, p) == Some(p));
            }
        }
    }
}

pub(crate) proof fn lemma_obs_local_part_cut(s: Seq<char>, n: int, p: int)
    requires
        cut_at_sign(s, n, p),
    ensures
        obs_local_part_spec(s, p) matches Some(e) ==> (e <= n ==> obs_local_part_spec(cut(s, n), p)
            == Some(e)),
{
    lemma_fws_star_cut(s, n, p);
    let w = fws_star(s, p);
    lemma_word_cut(s, n, w);
    if let Some(q) = word_spec(s, w) {
        lemma_obs_local_rest_forward(s, q);
        if q <= n {
            lemma_obs_local_rest_cut(s, n, q);
        }
    }
}

proof fn lemma_local_part_strict_cut(s: Seq<char>, n: int)
    requires
        cut_at_sign(s, n, 0),
        local_part_strict_spec(s, 0) == Some(n),
    ensures
        local_part_strict_spec(cut(s, n), 0) == Some(n),
{
    lemma_dot_atom_cut(s, n, 0);
    lemma_quoted_string_cut(s, n, 0);
}

/// Each part that a parse returns is valid on its own, in the same mode:
/// the local-part rule accepts the local part whole, and the domain rule
/// the domain. So no input parses into a part that its own rule rejects.
pub proof fn lemma_parsed_parts_stand_alone(s: Seq<char>, mode: ParseMode)
    ensures
        parsed(s, mode) matches Some((l, d)) ==> local_part_valid(l, mode) && domain_valid(
            d,
            mode,
        ),
{
    reveal(address_strict_spec);
    reveal(address_obs_spec);
    lemma_split_at_sign(s, mode);
    lemma_parsed_domain_stands_alone(s, mode);
    if let Some(n) = address_split(s, mode) {
        let l = cut(s, n);
        assert(parsed(s, mode) == Some((l, s.subrange(n + 1, s.len() as int))));
        if whole(address_strict_spec(s, 0), s) == Some(n) {
            lemma_local_part_strict_cut(s, n);
            assert(rule_covers(Rule::local_part_complete, l));
        } else {
            assert(local_part_obs_spec(s, 0) == Some(n));
            lemma_obs_local_part_cut(s, n, 0);
            if obs_local_part_spec(s, 0) is None {
                lemma_local_part_strict_cut(s, n);
                assert(rule_covers(Rule::local_part_complete, l));
            } else {
                assert(rule_covers(Rule::local_part_obs, l));
            }
        }
    }
}

} // verus!
