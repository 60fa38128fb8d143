//! A small HTML/XML lexer: one pass over the characters yields text chunks,
//! opening tags with their attributes, and closing tags. Comments,
//! declarations and processing instructions are skipped. Tag and attribute
//! names come out lower-cased.
use vstd::prelude::*;

use crate::text;

verus! {

pub ghost struct AttrView {
    pub name: Seq<char>,
    pub value: Seq<char>,
}

pub ghost enum TokView {
    Text(Seq<char>),
    Open(Seq<char>, Seq<AttrView>, bool),
    Close(Seq<char>),
}

/// One attribute, name lower-cased, value as written (quotes removed).
pub struct Attr {
    pub name: String,
    pub value: String,
}

/// One token of the markup stream.
pub enum MarkupTok {
    Text(Vec<char>),
    Open(String, Vec<Attr>, bool),
    Close(String),
}

impl View for Attr {
    type V = AttrView;

    open spec fn view(&self) -> AttrView {
        AttrView { name: self.name@, value: self.value@ }
    }
}

impl View for MarkupTok {
    type V = TokView;

    open spec fn view(&self) -> TokView {
        match self {
            MarkupTok::Text(t) => TokView::Text(t@),
            MarkupTok::Open(n, a, sc) => TokView::Open(
                n@,
                a@.map_values(|x: Attr| x@),
                *sc,
            ),
            MarkupTok::Close(n) => TokView::Close(n@),
        }
    }
}

pub open spec fn toks_view(ts: Seq<MarkupTok>) -> Seq<TokView> {
    ts.map_values(|t: MarkupTok| t@)
}

pub open spec fn attrs_view(a: Seq<Attr>) -> Seq<AttrView> {
    a.map_values(|x: Attr| x@)
}

/// Characters that may stand in a tag name.
pub open spec fn is_name_c(c: char) -> bool {
    !text::is_space_c(c) && c != '>' && c != '/'
}

/// Characters that may stand in an attribute name.
pub open spec fn is_aname_c(c: char) -> bool {
    !text::is_space_c(c) && c != '>' && c != '/' && c != '='
}

pub open spec fn is_alpha_c(c: char) -> bool {
    ('a' <= c && c <= 'z') || ('A' <= c && c <= 'Z')
}

/// First index at or after `i` that cannot belong to a tag name.
pub open spec fn name_end(s: Seq<char>, i: int) -> int
    decreases s.len() - i,
    when 0 <= i <= s.len()
{
    if i < s.len() && is_name_c(s[i]) {
        name_end(s, i + 1)
    } else {
        i
    }
}

pub proof fn lemma_name_end_bounds(s: Seq<char>, i: int)
    requires
        0 <= i <= s.len(),
    ensures
        i <= name_end(s, i) <= s.len(),
        name_end(s, i) < s.len() ==> !is_name_c(s[name_end(s, i)]),
        forall|k: int| i <= k < name_end(s, i) ==> is_name_c(s[k]),
    decreases s.len() - i,
{
    if i < s.len() && is_name_c(s[i]) {
        lemma_name_end_bounds(s, i + 1);
    }
}

/// First index at or after `i` that cannot belong to an attribute name.
pub open spec fn aname_end(s: Seq<char>, i: int) -> int
    decreases s.len() - i,
    when 0 <= i <= s.len()
{
    if i < s.len() && is_aname_c(s[i]) {
        aname_end(s, i + 1)
    } else {
        i
    }
}

pub proof fn lemma_aname_end_bounds(s: Seq<char>, i: int)
    requires
        0 <= i <= s.len(),
    ensures
        i <= aname_end(s, i) <= s.len(),
    decreases s.len() - i,
{
    if i < s.len() && is_aname_c(s[i]) {
        lemma_aname_end_bounds(s, i + 1);
    }
}

/// First index at or after `i` that ends an unquoted attribute value.
pub open spec fn uval_end(s: Seq<char>, i: int) -> int
    decreases s.len() - i,
    when 0 <= i <= s.len()
{
    if i < s.len() && !text::is_space_c(s[i]) && s[i] != '>' {
        uval_end(s, i + 1)
    } else {
        i
    }
}

pub proof fn lemma_uval_end_bounds(s: Seq<char>, i: int)
    requires
        0 <= i <= s.len(),
    ensures
        i <= uval_end(s, i) <= s.len(),
    decreases s.len() - i,
{
    if i < s.len() && !text::is_space_c(s[i]) && s[i] != '>' {
        lemma_uval_end_bounds(s, i + 1);
    }
}

/// Index right after the first `-->` at or after `i` (or the length).
pub open spec fn comment_end(s: Seq<char>, i: int) -> int
    decreases s.len() - i,
    when 0 <= i <= s.len()
{
    if i + 3 <= s.len() {
        if s[i] == '-' && s[i + 1] == '-' && s[i + 2] == '>' {
            i + 3
        } else {
            comment_end(s, i + 1)
        }
    } else {
        s.len() as int
    }
}

pub proof fn lemma_comment_end_bounds(s: Seq<char>, i: int)
    requires
        0 <= i <= s.len(),
    ensures
        i <= comment_end(s, i) <= s.len(),
    decreases s.len() - i,
{
    if i + 3 <= s.len() && !(s[i] == '-' && s[i + 1] == '-' && s[i + 2] == '>') {
        lemma_comment_end_bounds(s, i + 1);
    }
}

/// Result of scanning the attribute list of one tag: the attributes, whether
/// the tag closes itself, and the position right after `>` (or the end).
pub ghost struct AttrScan {
    pub attrs: Seq<AttrView>,
    pub self_closing: bool,
    pub next: int,
}

pub open spec fn lex_attrs(s: Seq<char>, i: int, acc: Seq<AttrView>, sc: bool) -> AttrScan
    decreases s.len() - i,
    when 0 <= i <= s.len()
    via lex_attrs_dec
{
    let j = text::skip_space(s, i);
    if j >= s.len() {
        AttrScan { attrs: acc, self_closing: sc, next: j }
    } else if s[j] == '>' {
        AttrScan { attrs: acc, self_closing: sc, next: j + 1 }
    } else if s[j] == '/' {
        lex_attrs(s, j + 1, acc, true)
    } else if !is_aname_c(s[j]) {
        lex_attrs(s, j + 1, acc, sc)
    } else {
        let ne = aname_end(s, j);
        let name = text::lower_s(s.subrange(j, ne));
        let k = text::skip_space(s, ne);
        if k < s.len() && s[k] == '=' {
            let v0 = text::skip_space(s, k + 1);
            if v0 < s.len() && (s[v0] == '"' || s[v0] == '\'') {
                let ve = text::find_from(s, v0 + 1, s[v0]);
                let value = s.subrange(v0 + 1, ve);
                let nx = if ve < s.len() {
                    ve + 1
                } else {
                    ve
                };
                lex_attrs(s, nx, acc.push(AttrView { name, value }), sc)
            } else {
                let ve = uval_end(s, v0);
                lex_attrs(s, ve, acc.push(AttrView { name, value: s.subrange(v0, ve) }), sc)
            }
        } else {
            lex_attrs(s, k, acc.push(AttrView { name, value: Seq::empty() }), sc)
        }
    }
}

#[via_fn]
proof fn lex_attrs_dec(s: Seq<char>, i: int, acc: Seq<AttrView>, sc: bool) {
    if 0 <= i <= s.len() {
        text::lemma_skip_space_bounds(s, i);
        let j = text::skip_space(s, i);
        if j < s.len() && s[j] != '>' && s[j] != '/' && is_aname_c(s[j]) {
            lemma_aname_end_bounds(s, j + 1);
            let ne = aname_end(s, j);
            assert(ne == aname_end(s, j + 1));
            assert(j + 1 <= ne <= s.len());
            text::lemma_skip_space_bounds(s, ne);
            let k = text::skip_space(s, ne);
            if k < s.len() && s[k] == '=' {
                text::lemma_skip_space_bounds(s, k + 1);
                let v0 = text::skip_space(s, k + 1);
                if v0 < s.len() && (s[v0] == '"' || s[v0] == '\'') {
                    text::lemma_find_from_bounds(s, v0 + 1, s[v0]);
                } else {
                    lemma_uval_end_bounds(s, v0);
                }
            }
        }
    }
}

pub proof fn lemma_lex_attrs_bounds(s: Seq<char>, i: int, acc: Seq<AttrView>, sc: bool)
    requires
        0 <= i <= s.len(),
    ensures
        i <= lex_attrs(s, i, acc, sc).next <= s.len(),
    decreases s.len() - i,
{
    text::lemma_skip_space_bounds(s, i);
    let j = text::skip_space(s, i);
    if j >= s.len() {
    } else if s[j] == '>' {
    } else if s[j] == '/' {
        lemma_lex_attrs_bounds(s, j + 1, acc, true);
    } else if !is_aname_c(s[j]) {
        lemma_lex_attrs_bounds(s, j + 1, acc, sc);
    } else {
        lemma_aname_end_bounds(s, j + 1);
        let ne = aname_end(s, j);
        assert(ne == aname_end(s, j + 1));
        assert(j + 1 <= ne <= s.len());
        let name = text::lower_s(s.subrange(j, ne));
        text::lemma_skip_space_bounds(s, ne);
        let k = text::skip_space(s, ne);
        if k < s.len() && s[k] == '=' {
            text::lemma_skip_space_bounds(s, k + 1);
            let v0 = text::skip_space(s, k + 1);
            if v0 < s.len() && (s[v0] == '"' || s[v0] == '\'') {
                text::lemma_find_from_bounds(s, v0 + 1, s[v0]);
                let ve = text::find_from(s, v0 + 1, s[v0]);
                let nx = if ve < s.len() {
                    ve + 1
                } else {
                    ve
                };
                lemma_lex_attrs_bounds(s, nx, acc.push(AttrView { name, value: s.subrange(v0 + 1, ve) }), sc);
            } else {
                let ve = uval_end(s, v0);
                lemma_uval_end_bounds(s, v0);
                lemma_lex_attrs_bounds(s, ve, acc.push(AttrView { name, value: s.subrange(v0, ve) }), sc);
            }
        } else {
            lemma_lex_attrs_bounds(s, k, acc.push(AttrView { name, value: Seq::empty() }), sc);
        }
    }
}

/// One lexing step at position `i`: at most one token, and how far it reaches.
pub ghost struct LexStep {
    pub tok: Option<TokView>,
    pub next: int,
}

pub open spec fn lex_step(s: Seq<char>, i: int) -> LexStep
    recommends
        0 <= i < s.len(),
{
    if s[i] != '<' {
        let e = text::find_from(s, i, '<');
        LexStep { tok: Some(TokView::Text(s.subrange(i, e))), next: e }
    } else if i + 3 < s.len() && s[i + 1] == '!' && s[i + 2] == '-' && s[i + 3] == '-' {
        LexStep { tok: None, next: comment_end(s, i + 4) }
    } else if i + 1 < s.len() && (s[i + 1] == '!' || s[i + 1] == '?') {
        let e = text::find_from(s, i + 1, '>');
        LexStep {
            tok: None,
            next: if e < s.len() {
                e + 1
            } else {
                e
            },
        }
    } else if i + 1 < s.len() && s[i + 1] == '/' {
        let ne = name_end(s, i + 2);
        let name = text::lower_s(s.subrange(i + 2, ne));
        let e = text::find_from(s, ne, '>');
        let nx = if e < s.len() {
            e + 1
        } else {
            e
        };
        if name.len() == 0 {
            LexStep { tok: None, next: nx }
        } else {
            LexStep { tok: Some(TokView::Close(name)), next: nx }
        }
    } else if i + 1 < s.len() && is_alpha_c(s[i + 1]) {
        let ne = name_end(s, i + 1);
        let name = text::lower_s(s.subrange(i + 1, ne));
        let scan = lex_attrs(s, ne, Seq::empty(), false);
        LexStep { tok: Some(TokView::Open(name, scan.attrs, scan.self_closing)), next: scan.next }
    } else {
        LexStep { tok: Some(TokView::Text(seq!['<'])), next: i + 1 }
    }
}

pub proof fn lemma_lex_step_bounds(s: Seq<char>, i: int)
    requires
        0 <= i < s.len(),
    ensures
        i < lex_step(s, i).next <= s.len(),
{
    if s[i] != '<' {
        text::lemma_find_from_bounds(s, i, '<');
    } else if i + 3 < s.len() && s[i + 1] == '!' && s[i + 2] == '-' && s[i + 3] == '-' {
        lemma_comment_end_bounds(s, i + 4);
    } else if i + 1 < s.len() && (s[i + 1] == '!' || s[i + 1] == '?') {
        text::lemma_find_from_bounds(s, i + 1, '>');
    } else if i + 1 < s.len() && s[i + 1] == '/' {
        lemma_name_end_bounds(s, i + 2);
        text::lemma_find_from_bounds(s, name_end(s, i + 2), '>');
    } else if i + 1 < s.len() && is_alpha_c(s[i + 1]) {
        lemma_name_end_bounds(s, i + 1);
        lemma_lex_attrs_bounds(s, name_end(s, i + 1), Seq::empty(), false);
    } else {
    }
}

/// All tokens from position `i` on.
pub open spec fn lex_from(s: Seq<char>, i: int) -> Seq<TokView>
    decreases s.len() - i,
    when 0 <= i <= s.len()
    via lex_from_dec
{
    if i >= s.len() {
        Seq::empty()
    } else {
        let st = lex_step(s, i);
        let rest = lex_from(s, st.next);
        match st.tok {
            Some(t) => seq![t] + rest,
            None => rest,
        }
    }
}

#[via_fn]
proof fn lex_from_dec(s: Seq<char>, i: int) {
    if 0 <= i < s.len() {
        lemma_lex_step_bounds(s, i);
    }
}

/// The token stream of a whole document.
pub open spec fn lex_s(s: Seq<char>) -> Seq<TokView> {
    lex_from(s, 0)
}

fn name_end_exec(v: &Vec<char>, i: usize) -> (r: usize)
    requires
        i <= v@.len(),
    ensures
        r as int == name_end(v@, i as int),
{
    let n = v.len();
    let mut k: usize = i;
    while k < n && !is_space(v[k]) && v[k] != '>' && v[k] != '/'
        invariant
            i <= k <= n == v@.len(),
            name_end(v@, i as int) == name_end(v@, k as int),
        decreases n - k,
    {
        k = k + 1;
    }
    k
}

fn is_space(c: char) -> (r: bool)
    ensures
        r == text::is_space_c(c),
{
    text::is_space(c)
}

fn aname_end_exec(v: &Vec<char>, i: usize) -> (r: usize)
    requires
        i <= v@.len(),
    ensures
        r as int == aname_end(v@, i as int),
{
    let n = v.len();
    let mut k: usize = i;
    while k < n && !is_space(v[k]) && v[k] != '>' && v[k] != '/' && v[k] != '='
        invariant
            i <= k <= n == v@.len(),
            aname_end(v@, i as int) == aname_end(v@, k as int),
        decreases n - k,
    {
        k = k + 1;
    }
    k
}

fn uval_end_exec(v: &Vec<char>, i: usize) -> (r: usize)
    requires
        i <= v@.len(),
    ensures
        r as int == uval_end(v@, i as int),
{
    let n = v.len();
    let mut k: usize = i;
    while k < n && !is_space(v[k]) && v[k] != '>'
        invariant
            i <= k <= n == v@.len(),
            uval_end(v@, i as int) == uval_end(v@, k as int),
        decreases n - k,
    {
        k = k + 1;
    }
    k
}

fn skip_space_exec(v: &Vec<char>, i: usize) -> (r: usize)
    requires
        i <= v@.len(),
    ensures
        r as int == text::skip_space(v@, i as int),
{
    let n = v.len();
    let mut k: usize = i;
    while k < n && is_space(v[k])
        invariant
            i <= k <= n == v@.len(),
            text::skip_space(v@, i as int) == text::skip_space(v@, k as int),
        decreases n - k,
    {
        k = k + 1;
    }
    k
}

fn comment_end_exec(v: &Vec<char>, i: usize) -> (r: usize)
    requires
        i <= v@.len(),
    ensures
        r as int == comment_end(v@, i as int),
{
    let n = v.len();
    let mut k: usize = i;
    loop
        invariant
            i <= k <= n == v@.len(),
            comment_end(v@, i as int) == comment_end(v@, k as int),
        decreases n - k,
    {
        if n - k < 3 {
            return n;
        }
        if v[k] == '-' && v[k + 1] == '-' && v[k + 2] == '>' {
            return k + 3;
        }
        k = k + 1;
    }
}

fn lex_attrs_exec(v: &Vec<char>, i: usize) -> (r: (Vec<Attr>, bool, usize))
    requires
        i <= v@.len(),
    ensures
        lex_attrs(v@, i as int, Seq::empty(), false) == (AttrScan {
            attrs: attrs_view(r.0@),
            self_closing: r.1,
            next: r.2 as int,
        }),
{
    let n = v.len();
    let mut acc: Vec<Attr> = Vec::new();
    let mut sc = false;
    let mut k: usize = i;
    proof {
        assert(attrs_view(acc@) =~= Seq::<AttrView>::empty());
    }
    loop
        invariant
            i <= k <= n == v@.len(),
            lex_attrs(v@, i as int, Seq::empty(), false) == lex_attrs(
                v@,
                k as int,
                attrs_view(acc@),
                sc,
            ),
        decreases n - k,
    {
        let j = skip_space_exec(v, k);
        proof {
            text::lemma_skip_space_bounds(v@, k as int);
        }
        if j >= n {
            return (acc, sc, j);
        }
        if v[j] == '>' {
            return (acc, sc, j + 1);
        }
        if v[j] == '/' {
            sc = true;
            k = j + 1;
            continue ;
        }
        if is_space(v[j]) || v[j] == '=' {
            k = j + 1;
            continue ;
        }
        let ne = aname_end_exec(v, j);
        proof {
            lemma_aname_end_bounds(v@, j + 1 as int);
            assert(aname_end(v@, j as int) == aname_end(v@, j + 1 as int));
        }
        let name_raw = text::subvec(v, j, ne);
        let name = text::lower_vec(&name_raw);
        let ks = skip_space_exec(v, ne);
        proof {
            text::lemma_skip_space_bounds(v@, ne as int);
        }
        if ks < n && v[ks] == '=' {
            let v0 = skip_space_exec(v, ks + 1);
            proof {
                text::lemma_skip_space_bounds(v@, ks + 1 as int);
            }
            if v0 < n && (v[v0] == '"' || v[v0] == '\'') {
                let q = v[v0];
                let ve = text::find_char(v, v0 + 1, q);
                proof {
                    text::lemma_find_from_bounds(v@, v0 + 1 as int, q);
                }
                let value = text::subvec(v, v0 + 1, ve);
                let ghost accv0 = attrs_view(acc@);
                acc.push(
                    Attr {
                        name: text::string_from_chars(&name),
                        value: text::string_from_chars(&value),
                    },
                );
                proof {
                    assert(attrs_view(acc@) =~= accv0.push(
                        AttrView {
                            name: text::lower_s(v@.subrange(j as int, ne as int)),
                            value: v@.subrange(v0 + 1 as int, ve as int),
                        },
                    ));
                }
                if ve < n {
                    k = ve + 1;
                } else {
                    k = ve;
                }
            } else {
                let ve = uval_end_exec(v, v0);
                proof {
                    lemma_uval_end_bounds(v@, v0 as int);
                }
                let value = text::subvec(v, v0, ve);
                let ghost accv0 = attrs_view(acc@);
                acc.push(
                    Attr {
                        name: text::string_from_chars(&name),
                        value: text::string_from_chars(&value),
                    },
                );
                proof {
                    assert(attrs_view(acc@) =~= accv0.push(
                        AttrView {
                            name: text::lower_s(v@.subrange(j as int, ne as int)),
                            value: v@.subrange(v0 as int, ve as int),
                        },
                    ));
                }
                k = ve;
            }
        } else {
            let ghost accv0 = attrs_view(acc@);
            acc.push(Attr { name: text::string_from_chars(&name), value: String::new() });
            proof {
                assert(attrs_view(acc@) =~= accv0.push(
                    AttrView {
                        name: text::lower_s(v@.subrange(j as int, ne as int)),
                        value: Seq::empty(),
                    },
                ));
            }
            k = ks;
        }
    }
}

pub open spec fn opt_tok_view(o: Option<MarkupTok>) -> Option<TokView> {
    match o {
        Some(t) => Some(t@),
        None => None,
    }
}

fn lex_step_exec(v: &Vec<char>, i: usize) -> (r: (Option<MarkupTok>, usize))
    requires
        i < v@.len(),
    ensures
        lex_step(v@, i as int) == (LexStep { tok: opt_tok_view(r.0), next: r.1 as int }),
        i < r.1 <= v@.len(),
{
    proof {
        lemma_lex_step_bounds(v@, i as int);
    }
    let n = v.len();
    if v[i] != '<' {
        let e = text::find_char(v, i, '<');
        proof {
            text::lemma_find_from_bounds(v@, i as int, '<');
        }
        let t = text::subvec(v, i, e);
        return (Some(MarkupTok::Text(t)), e);
    }
    if n - i > 3 && v[i + 1] == '!' && v[i + 2] == '-' && v[i + 3] == '-' {
        let e = comment_end_exec(v, i + 4);
        proof {
            lemma_comment_end_bounds(v@, i + 4 as int);
        }
        return (None, e);
    }
    if i + 1 < n && (v[i + 1] == '!' || v[i + 1] == '?') {
        let e = text::find_char(v, i + 1, '>');
        proof {
            text::lemma_find_from_bounds(v@, i + 1 as int, '>');
        }
        let nx = if e < n {
            e + 1
        } else {
            e
        };
        return (None, nx);
    }
    if i + 1 < n && v[i + 1] == '/' {
        let ne = name_end_exec(v, i + 2);
        proof {
            lemma_name_end_bounds(v@, i + 2 as int);
        }
        let name_raw = text::subvec(v, i + 2, ne);
        let name = text::lower_vec(&name_raw);
        let e = text::find_char(v, ne, '>');
        proof {
            text::lemma_find_from_bounds(v@, ne as int, '>');
        }
        let nx = if e < n {
            e + 1
        } else {
            e
        };
        if name.len() == 0 {
            return (None, nx);
        }
        return (Some(MarkupTok::Close(text::string_from_chars(&name))), nx);
    }
    let c1_alpha = i + 1 < n && (('a' <= v[i + 1] && v[i + 1] <= 'z') || ('A' <= v[i + 1] && v[i
        + 1] <= 'Z'));
    if c1_alpha {
        let ne = name_end_exec(v, i + 1);
        proof {
            lemma_name_end_bounds(v@, i + 1 as int);
        }
        let name_raw = text::subvec(v, i + 1, ne);
        let name = text::lower_vec(&name_raw);
        let (attrs, sc, nx) = lex_attrs_exec(v, ne);
        proof {
            lemma_lex_attrs_bounds(v@, ne as int, Seq::empty(), false);
        }
        return (Some(MarkupTok::Open(text::string_from_chars(&name), attrs, sc)), nx);
    }
    let mut t: Vec<char> = Vec::new();
    t.push('<');
    proof {
        assert(t@ =~= seq!['<']);
    }
    (Some(MarkupTok::Text(t)), i + 1)
}

/// Lex a whole document into tokens.
pub fn lex_markup(v: &Vec<char>) -> (r: Vec<MarkupTok>)
    ensures
        toks_view(r@) == lex_s(v@),
{
    let n = v.len();
    let mut out: Vec<MarkupTok> = Vec::new();
    let mut i: usize = 0;
    proof {
        assert(toks_view(out@) =~= Seq::<TokView>::empty());
    }
    while i < n
        invariant
            0 <= i <= n == v@.len(),
            lex_s(v@) == toks_view(out@) + lex_from(v@, i as int),
        decreases n - i,
    {
        let (tok, nx) = lex_step_exec(v, i);
        let ghost pre = toks_view(out@);
        match tok {
            Some(t) => {
                out.push(t);
                proof {
                    assert(toks_view(out@) =~= pre.push(t@));
                    assert(pre.push(t@) + lex_from(v@, nx as int) =~= pre + (seq![t@] + lex_from(
                        v@,
                        nx as int,
                    )));
                }
            },
            None => {
            },
        }
        i = nx;
    }
    proof {
        assert(toks_view(out@) + lex_from(v@, n as int) =~= toks_view(out@));
    }
    out
}

} // verus!
