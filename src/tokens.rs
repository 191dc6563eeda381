//! Token rules: `dot-atom`, `atom`, `word`, `quoted-string` and
//! `domain-literal`, built on the lexical primitives.
use vstd::prelude::*;
use crate::classes::{
    atext_char, atext_no_dash_char, dtext_char, is_atext, is_atext_no_dash, is_dtext_char,
    is_qtext_char, qtext_char,
};
use crate::scan::{
    cfws_star, opt_cfws, opt_cfws_end, opt_fws, opt_fws_end, opt_pos, opt_wsp, opt_wsp_spec,
    quoted_pair, quoted_pair_spec, skip_cfws0, span, span_end, within, CharClass,
};

verus! {

/// A label of a dot-atom: an `atext` run that neither starts nor ends with `-`.
pub open spec fn label_spec(s: Seq<char>, p: int) -> Option<int> {
    if 0 <= p < s.len() && atext_no_dash_char(s[p]) {
        let e = span(s, p + 1, CharClass::Atext);
        if s[e - 1] == '-' {
            None
        } else {
            Some(e)
        }
    } else {
        None
    }
}

/// The `("." CFWS* label)*` part of a dot-atom text. A dot that is not
/// followed by a label fails the whole text.
pub open spec fn dot_atom_rest(s: Seq<char>, p: int) -> Option<int>
    decreases s.len() - p,
{
    if 0 <= p < s.len() && s[p] == '.' {
        match label_spec(s, cfws_star(s, p + 1)) {
            Some(n) => if p < n <= s.len() {
                dot_atom_rest(s, n)
            } else {
                None
            },
            None => None,
        }
    } else {
        Some(p)
    }
}

/// `dot-atom-text = label ("." CFWS* label)*`.
pub open spec fn dot_atom_text_spec(s: Seq<char>, p: int) -> Option<int> {
    match label_spec(s, p) {
        Some(q) => dot_atom_rest(s, q),
        None => None,
    }
}

/// `dot-atom = WSP? dot-atom-text WSP?`.
pub open spec fn dot_atom_spec(s: Seq<char>, p: int) -> Option<int> {
    match dot_atom_text_spec(s, opt_wsp_spec(s, p)) {
        Some(q) => Some(opt_wsp_spec(s, q)),
        None => None,
    }
}

/// `atom = CFWS? atext+ CFWS?`.
pub open spec fn atom_spec(s: Seq<char>, p: int) -> Option<int> {
    let q = opt_cfws(s, p);
    if 0 <= q < s.len() && atext_char(s[q]) {
        Some(opt_cfws(s, span(s, q, CharClass::Atext)))
    } else {
        None
    }
}

/// `qcontent = qtext | quoted-pair`.
pub open spec fn qcontent_spec(s: Seq<char>, p: int) -> Option<int> {
    if 0 <= p < s.len() && qtext_char(s[p]) {
        Some(p + 1)
    } else {
        quoted_pair_spec(s, p)
    }
}

/// `(FWS? qcontent)*` inside a quoted string.
pub open spec fn qcontent_run(s: Seq<char>, p: int) -> int
    decreases s.len() - p,
{
    let c = opt_fws(s, p);
    if 0 <= p <= c <= s.len() {
        match qcontent_spec(s, c) {
            Some(n) => if c < n <= s.len() {
                qcontent_run(s, n)
            } else {
                p
            },
            None => p,
        }
    } else {
        p
    }
}

/// `quoted-string = CFWS? DQUOTE (FWS? qcontent)* FWS? DQUOTE CFWS?`.
pub open spec fn quoted_string_spec(s: Seq<char>, p: int) -> Option<int> {
    let q = opt_cfws(s, p);
    if 0 <= q < s.len() && s[q] == '"' {
        let t = opt_fws(s, qcontent_run(s, q + 1));
        if 0 <= t < s.len() && s[t] == '"' {
            Some(opt_cfws(s, t + 1))
        } else {
            None
        }
    } else {
        None
    }
}

/// `dcontent = dtext`.
pub open spec fn dcontent_spec(s: Seq<char>, p: int) -> Option<int> {
    if 0 <= p < s.len() && dtext_char(s[p]) {
        Some(p + 1)
    } else {
        None
    }
}

/// `(FWS? dtext)*` inside a domain literal.
pub open spec fn dcontent_run(s: Seq<char>, p: int) -> int
    decreases s.len() - p,
{
    let c = opt_fws(s, p);
    if 0 <= p <= c <= s.len() {
        match dcontent_spec(s, c) {
            Some(n) => if c < n <= s.len() {
                dcontent_run(s, n)
            } else {
                p
            },
            None => p,
        }
    } else {
        p
    }
}

/// `domain-literal = CFWS? "[" (FWS? dtext)* FWS? "]" CFWS?`.
pub open spec fn domain_literal_spec(s: Seq<char>, p: int) -> Option<int> {
    let q = opt_cfws(s, p);
    if 0 <= q < s.len() && s[q] == '[' {
        let t = opt_fws(s, dcontent_run(s, q + 1));
        if 0 <= t < s.len() && s[t] == ']' {
            Some(opt_cfws(s, t + 1))
        } else {
            None
        }
    } else {
        None
    }
}

/// `word = atom | quoted-string`.
#[verifier::opaque]
pub open spec fn word_spec(s: Seq<char>, p: int) -> Option<int> {
    match atom_spec(s, p) {
        Some(q) => Some(q),
        None => quoted_string_spec(s, p),
    }
}

/// A label of a dot-atom at `p`.
pub fn dot_atom_label(s: &[char], p: usize) -> (r: Option<usize>)
    requires
        p <= s.len(),
    ensures
        opt_pos(r) == label_spec(s@, p as int),
        within(r, p, s@.len()),
{
    if !(p < s.len() && is_atext_no_dash(s[p])) {
        return None;
    }
    let e = span_end(s, p + 1, CharClass::Atext);
    if s[e - 1] == '-' {
        None
    } else {
        Some(e)
    }
}

/// `dot-atom-text` at `p`.
pub fn dot_atom_text(s: &[char], p: usize) -> (r: Option<usize>)
    requires
        p <= s.len(),
    ensures
        opt_pos(r) == dot_atom_text_spec(s@, p as int),
        within(r, p, s@.len()),
{
    let mut i = match dot_atom_label(s, p) {
        Some(q) => q,
        None => return None,
    };
    let ghost first = i as int;
    while i < s.len() && s[i] == '.'
        invariant
            p <= first <= i <= s.len(),
            label_spec(s@, p as int) == Some(first),
            dot_atom_rest(s@, i as int) == dot_atom_rest(s@, first),
        decreases s.len() - i,
    {
        let after_dot = skip_cfws0(s, i + 1);
        match dot_atom_label(s, after_dot) {
            Some(n) => i = n,
            None => return None,
        }
    }
    Some(i)
}

/// `dot-atom` at `p`, the match it makes.
pub fn dot_atom(s: &[char], p: usize) -> (r: Option<usize>)
    requires
        p <= s.len(),
    ensures
        opt_pos(r) == dot_atom_spec(s@, p as int),
        within(r, p, s@.len()),
{
    let q = opt_wsp(s, p);
    match dot_atom_text(s, q) {
        Some(e) => Some(opt_wsp(s, e)),
        None => None,
    }
}

/// `atext+` at `p`.
pub fn atext1(s: &[char], p: usize) -> (r: Option<usize>)
    requires
        p <= s.len(),
    ensures
        opt_pos(r) == (if p < s.len() && atext_char(s@[p as int]) {
            Some(span(s@, p as int, CharClass::Atext))
        } else {
            None
        }),
        within(r, p, s@.len()),
{
    if p < s.len() && is_atext(s[p]) {
        Some(span_end(s, p, CharClass::Atext))
    } else {
        None
    }
}

/// `atext+` without `-` at `p`.
pub fn atext_no_dash1(s: &[char], p: usize) -> (r: Option<usize>)
    requires
        p <= s.len(),
    ensures
        opt_pos(r) == (if p < s.len() && atext_no_dash_char(s@[p as int]) {
            Some(span(s@, p as int, CharClass::AtextNoDash))
        } else {
            None
        }),
        within(r, p, s@.len()),
{
    if p < s.len() && is_atext_no_dash(s[p]) {
        Some(span_end(s, p, CharClass::AtextNoDash))
    } else {
        None
    }
}

/// `atom` at `p`.
pub fn atom(s: &[char], p: usize) -> (r: Option<usize>)
    requires
        p <= s.len(),
    ensures
        opt_pos(r) == atom_spec(s@, p as int),
        within(r, p, s@.len()),
{
    let q = opt_cfws_end(s, p);
    match atext1(s, q) {
        Some(e) => Some(opt_cfws_end(s, e)),
        None => None,
    }
}

fn qcontent(s: &[char], p: usize) -> (r: Option<usize>)
    requires
        p <= s.len(),
    ensures
        opt_pos(r) == qcontent_spec(s@, p as int),
        within(r, p, s@.len()),
{
    if p < s.len() && is_qtext_char(s[p]) {
        Some(p + 1)
    } else {
        quoted_pair(s, p)
    }
}

/// `quoted-string` at `p`, the match it makes.
pub fn quoted_string(s: &[char], p: usize) -> (r: Option<usize>)
    requires
        p <= s.len(),
    ensures
        opt_pos(r) == quoted_string_spec(s@, p as int),
        within(r, p, s@.len()),
{
    let q = opt_cfws_end(s, p);
    if !(q < s.len() && s[q] == '"') {
        return None;
    }
    let mut i: usize = q + 1;
    loop
        invariant
            q < i <= s.len(),
            qcontent_run(s@, i as int) == qcontent_run(s@, q + 1),
        ensures
            qcontent_run(s@, i as int) == i,
        decreases s.len() - i,
    {
        let c = opt_fws_end(s, i);
        match qcontent(s, c) {
            Some(n) => {
                if n > c {
                    i = n;
                } else {
                    break;
                }
            },
            None => break,
        }
    }
    let t = opt_fws_end(s, i);
    if t < s.len() && s[t] == '"' {
        Some(opt_cfws_end(s, t + 1))
    } else {
        None
    }
}

fn dtext(s: &[char], p: usize) -> (r: Option<usize>)
    requires
        p <= s.len(),
    ensures
        opt_pos(r) == dcontent_spec(s@, p as int),
        within(r, p, s@.len()),
{
    if p < s.len() && is_dtext_char(s[p]) {
        Some(p + 1)
    } else {
        None
    }
}

/// `domain-literal` at `p`, the match it makes.
pub fn domain_literal(s: &[char], p: usize) -> (r: Option<usize>)
    requires
        p <= s.len(),
    ensures
        opt_pos(r) == domain_literal_spec(s@, p as int),
        within(r, p, s@.len()),
{
    let q = opt_cfws_end(s, p);
    if !(q < s.len() && s[q] == '[') {
        return None;
    }
    let mut i: usize = q + 1;
    loop
        invariant
            q < i <= s.len(),
            dcontent_run(s@, i as int) == dcontent_run(s@, q + 1),
        ensures
            dcontent_run(s@, i as int) == i,
        decreases s.len() - i,
    {
        let c = opt_fws_end(s, i);
        match dtext(s, c) {
            Some(n) => {
                if n > c {
                    i = n;
                } else {
                    break;
                }
            },
            None => break,
        }
    }
    let t = opt_fws_end(s, i);
    if t < s.len() && s[t] == ']' {
        Some(opt_cfws_end(s, t + 1))
    } else {
        None
    }
}

/// `word` at `p`.
pub fn word(s: &[char], p: usize) -> (r: Option<usize>)
    requires
        p <= s.len(),
    ensures
        opt_pos(r) == word_spec(s@, p as int),
        within(r, p, s@.len()),
{
    proof {
        reveal(word_spec);
    }
    match atom(s, p) {
        Some(q) => Some(q),
        None => quoted_string(s, p),
    }
}

} // verus!
