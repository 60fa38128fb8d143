//! Content extraction from HTML tokens: the first `<title>`, the
//! `meta[name=description]` (with `og:description` as fallback), the visible
//! text nodes that are direct children of `<body>`, and the same-host links
//! of every `a[href]`, deduplicated by path and query and capped.
use vstd::prelude::*;

use crate::markup;
use crate::markup::{AttrView, MarkupTok, TokView};
use crate::text;
use crate::urls;
use crate::urls::{ParsedUrl, UrlView};

verus! {

/// Body text is cut off after this many characters.
pub const MAX_BODY_CHARS: usize = 200000;

/// The value of the first attribute with the given (lower-cased) name.
pub open spec fn attr_val_s(attrs: Seq<AttrView>, name: Seq<char>) -> Option<Seq<char>>
    decreases attrs.len(),
{
    if attrs.len() == 0 {
        None
    } else if attrs.first().name == name {
        Some(attrs.first().value)
    } else {
        attr_val_s(attrs.drop_first(), name)
    }
}

proof fn lemma_attr_val_at(a: Seq<AttrView>, name: Seq<char>, k: int)
    requires
        0 <= k < a.len(),
        a[k].name == name,
        forall|m: int| 0 <= m < k ==> a[m].name != name,
    ensures
        attr_val_s(a, name) == Some(a[k].value),
    decreases k,
{
    if k > 0 {
        assert(forall|m: int| 0 <= m < k - 1 ==> a.drop_first()[m] == a[m + 1]);
        assert(a.drop_first()[k - 1] == a[k]);
        lemma_attr_val_at(a.drop_first(), name, k - 1);
    }
}

proof fn lemma_attr_val_none(a: Seq<AttrView>, name: Seq<char>)
    requires
        forall|m: int| 0 <= m < a.len() ==> a[m].name != name,
    ensures
        attr_val_s(a, name) is None,
    decreases a.len(),
{
    if a.len() > 0 {
        assert(forall|m: int| 0 <= m < a.drop_first().len() ==> a.drop_first()[m] == a[m + 1]);
        lemma_attr_val_none(a.drop_first(), name);
    }
}

pub(crate) fn attr_val_exec(attrs: &Vec<markup::Attr>, name: &str) -> (r: Option<String>)
    ensures
        text::opt_sv(r) == attr_val_s(markup::attrs_view(attrs@), name@),
{
    let ghost av = markup::attrs_view(attrs@);
    let nv = text::chars_vec(name);
    let mut i: usize = 0;
    while i < attrs.len()
        invariant
            0 <= i <= attrs@.len(),
            av == markup::attrs_view(attrs@),
            nv@ == name@,
            forall|m: int| 0 <= m < i ==> av[m].name != name@,
        decreases attrs.len() - i,
    {
        let an = text::chars_vec(attrs[i].name.as_str());
        assert(an@ == av[i as int].name);
        if text::vec_eq_vec(&an, &nv) {
            proof {
                lemma_attr_val_at(av, name@, i as int);
            }
            return Some(attrs[i].value.clone());
        }
        i = i + 1;
    }
    proof {
        lemma_attr_val_none(av, name@);
    }
    None
}

/// Elements that never hold content, so an opening tag does not nest.
pub open spec fn is_void_s(name: Seq<char>) -> bool {
    ||| name == "area"@
    ||| name == "base"@
    ||| name == "br"@
    ||| name == "col"@
    ||| name == "embed"@
    ||| name == "hr"@
    ||| name == "img"@
    ||| name == "input"@
    ||| name == "link"@
    ||| name == "meta"@
    ||| name == "param"@
    ||| name == "source"@
    ||| name == "track"@
    ||| name == "wbr"@
}

fn is_void(name: &Vec<char>) -> (r: bool)
    ensures
        r == is_void_s(name@),
{
    text::eq_lit(name, "area") || text::eq_lit(name, "base") || text::eq_lit(name, "br")
        || text::eq_lit(name, "col") || text::eq_lit(name, "embed") || text::eq_lit(name, "hr")
        || text::eq_lit(name, "img") || text::eq_lit(name, "input") || text::eq_lit(name, "link")
        || text::eq_lit(name, "meta") || text::eq_lit(name, "param") || text::eq_lit(
        name,
        "source",
    ) || text::eq_lit(name, "track") || text::eq_lit(name, "wbr")
}

/// Extraction fold state.
pub ghost struct ExtState {
    pub title_txt: Seq<char>,
    pub in_title: bool,
    pub title_done: bool,
    pub desc: Option<Seq<char>>,
    pub og_desc: Option<Seq<char>>,
    pub in_body: bool,
    pub body_done: bool,
    pub depth: int,
    pub body_parts: Seq<char>,
    pub hrefs: Seq<Seq<char>>,
}

pub open spec fn ext_init() -> ExtState {
    ExtState {
        title_txt: Seq::empty(),
        in_title: false,
        title_done: false,
        desc: None,
        og_desc: None,
        in_body: false,
        body_done: false,
        depth: 0,
        body_parts: Seq::empty(),
        hrefs: Seq::empty(),
    }
}

/// How one token changes the extraction state.
pub open spec fn ext_step(st: ExtState, t: TokView) -> ExtState {
    match t {
        TokView::Text(x) => {
            let st1 = if st.in_title && !st.title_done {
                ExtState { title_txt: st.title_txt + x, ..st }
            } else {
                st
            };
            if st1.in_body && !st1.body_done && st1.depth == 0 {
                let tt = text::trim_s(x);
                if tt.len() > 0 {
                    ExtState {
                        body_parts: if st1.body_parts.len() == 0 {
                            tt
                        } else {
                            st1.body_parts + seq!['\n'] + tt
                        },
                        ..st1
                    }
                } else {
                    st1
                }
            } else {
                st1
            }
        },
        TokView::Open(name, attrs, sc) => {
            let st1 = if name == "title"@ && !st.title_done && !st.in_title && !sc {
                ExtState { in_title: true, ..st }
            } else {
                st
            };
            let st2 = if name == "meta"@ {
                let nm = attr_val_s(attrs, "name"@);
                let pr = attr_val_s(attrs, "property"@);
                let ct = attr_val_s(attrs, "content"@);
                let sta = if nm == Some("description"@) && st1.desc is None && ct is Some {
                    ExtState { desc: ct, ..st1 }
                } else {
                    st1
                };
                if pr == Some("og:description"@) && sta.og_desc is None && ct is Some {
                    ExtState { og_desc: ct, ..sta }
                } else {
                    sta
                }
            } else {
                st1
            };
            let st3 = match attr_val_s(attrs, "href"@) {
                Some(h) => {
                    if name == "a"@ {
                        ExtState { hrefs: st2.hrefs.push(h), ..st2 }
                    } else {
                        st2
                    }
                },
                None => st2,
            };
            if !st3.in_body && !st3.body_done && name == "body"@ {
                ExtState { in_body: true, depth: 0, ..st3 }
            } else if st3.in_body && !st3.body_done && !sc && !is_void_s(name) {
                ExtState { depth: st3.depth + 1, ..st3 }
            } else {
                st3
            }
        },
        TokView::Close(name) => {
            let st1 = if st.in_title && name == "title"@ {
                ExtState { in_title: false, title_done: true, ..st }
            } else {
                st
            };
            if st1.in_body && !st1.body_done {
                if st1.depth == 0 {
                    if name == "body"@ {
                        ExtState { in_body: false, body_done: true, ..st1 }
                    } else {
                        st1
                    }
                } else {
                    ExtState { depth: st1.depth - 1, ..st1 }
                }
            } else {
                st1
            }
        },
    }
}

pub open spec fn ext_fold(toks: Seq<TokView>, i: int, st: ExtState) -> ExtState
    decreases toks.len() - i,
    when 0 <= i <= toks.len()
{
    if i >= toks.len() {
        st
    } else {
        ext_fold(toks, i + 1, ext_step(st, toks[i]))
    }
}

/// The extracted title: text of the first `<title>`, trimmed, absent if empty.
pub open spec fn title_of(st: ExtState) -> Option<Seq<char>> {
    let t = text::trim_s(st.title_txt);
    if t.len() > 0 {
        Some(t)
    } else {
        None
    }
}

/// The extracted description: `meta[name=description]` trimmed, else
/// `og:description` trimmed, absent if both are empty or missing.
pub open spec fn desc_of(st: ExtState) -> Option<Seq<char>> {
    let d = match st.desc {
        Some(d) => text::trim_s(d),
        None => Seq::<char>::empty(),
    };
    if d.len() > 0 {
        Some(d)
    } else {
        let o = match st.og_desc {
            Some(d) => text::trim_s(d),
            None => Seq::<char>::empty(),
        };
        if o.len() > 0 {
            Some(o)
        } else {
            None
        }
    }
}

/// The body text, truncated to its first characters.
pub open spec fn body_of(st: ExtState) -> Seq<char> {
    if st.body_parts.len() > MAX_BODY_CHARS {
        st.body_parts.take(MAX_BODY_CHARS as int)
    } else {
        st.body_parts
    }
}

/// Whether `u` already occurs in `acc`, judged by path and query alone.
pub open spec fn link_seen(acc: Seq<UrlView>, u: UrlView) -> bool {
    exists|j: int| 0 <= j < acc.len() && acc[j].path_and_query == u.path_and_query
}

/// Add one href to the link list: it must resolve, be `http` or `https`, be
/// on the host of the base URL, be new, and there must be room.
pub open spec fn add_link(b: UrlView, acc: Seq<UrlView>, h: Seq<char>, max: int) -> Seq<UrlView> {
    match urls::resolve_s(b, h) {
        None => acc,
        Some(u) => {
            if urls::is_http_s(u) && u.host == b.host && acc.len() < max && !link_seen(acc, u) {
                acc.push(u)
            } else {
                acc
            }
        },
    }
}

pub open spec fn links_fold(b: UrlView, hrefs: Seq<Seq<char>>, i: int, acc: Seq<UrlView>, max: int) -> Seq<UrlView>
    decreases hrefs.len() - i,
    when 0 <= i <= hrefs.len()
{
    if i >= hrefs.len() {
        acc
    } else {
        links_fold(b, hrefs, i + 1, add_link(b, acc, hrefs[i], max), max)
    }
}

/// Mathematical shape of an extraction result.
pub ghost struct ExtractionView {
    pub title: Option<Seq<char>>,
    pub description: Option<Seq<char>>,
    pub body_text: Seq<char>,
    pub links: Seq<UrlView>,
}

/// What extraction makes of a document.
pub struct Extraction {
    pub title: Option<String>,
    pub description: Option<String>,
    pub body_text: String,
    pub links: Vec<ParsedUrl>,
}

pub open spec fn links_view(ls: Seq<ParsedUrl>) -> Seq<UrlView> {
    ls.map_values(|u: ParsedUrl| u@)
}

impl View for Extraction {
    type V = ExtractionView;

    open spec fn view(&self) -> ExtractionView {
        ExtractionView {
            title: text::opt_sv(self.title),
            description: text::opt_sv(self.description),
            body_text: self.body_text@,
            links: links_view(self.links@),
        }
    }
}

/// The full extraction of a document against a base URL.
pub open spec fn extract_s(s: Seq<char>, b: UrlView, max_links: int) -> ExtractionView {
    let st = ext_fold(markup::lex_s(s), 0, ext_init());
    ExtractionView {
        title: title_of(st),
        description: desc_of(st),
        body_text: body_of(st),
        links: links_fold(b, st.hrefs, 0, Seq::empty(), max_links),
    }
}

/// Exec extraction state mirroring `ExtState`.
struct ExtBuild {
    title_txt: Vec<char>,
    in_title: bool,
    title_done: bool,
    desc: Option<String>,
    og_desc: Option<String>,
    in_body: bool,
    body_done: bool,
    depth: usize,
    body_parts: Vec<char>,
    hrefs: Vec<String>,
}

impl ExtBuild {
    spec fn view_state(&self) -> ExtState {
        ExtState {
            title_txt: self.title_txt@,
            in_title: self.in_title,
            title_done: self.title_done,
            desc: text::opt_sv(self.desc),
            og_desc: text::opt_sv(self.og_desc),
            in_body: self.in_body,
            body_done: self.body_done,
            depth: self.depth as int,
            body_parts: self.body_parts@,
            hrefs: self.hrefs@.map_values(|h: String| h@),
        }
    }
}

fn ext_step_exec(st: ExtBuild, tok: &MarkupTok) -> (r: ExtBuild)
    requires
        st.view_state().depth < usize::MAX,
    ensures
        r.view_state() == ext_step(st.view_state(), tok@),
{
    let ghost st0 = st.view_state();
    let ExtBuild {
        mut title_txt,
        mut in_title,
        mut title_done,
        mut desc,
        mut og_desc,
        mut in_body,
        mut body_done,
        mut depth,
        mut body_parts,
        mut hrefs,
    } = st;
    match tok {
        MarkupTok::Text(x) => {
            if in_title && !title_done {
                text::append_vec(&mut title_txt, x);
            }
            if in_body && !body_done && depth == 0 {
                let tt = text::trim_vec(x);
                if tt.len() > 0 {
                    if body_parts.len() == 0 {
                        body_parts = tt;
                    } else {
                        body_parts.push('\n');
                        text::append_vec(&mut body_parts, &tt);
                        proof {
                            assert(body_parts@ =~= st0.body_parts + seq!['\n'] + text::trim_s(x@));
                        }
                    }
                }
            }
            ExtBuild {
                title_txt,
                in_title,
                title_done,
                desc,
                og_desc,
                in_body,
                body_done,
                depth,
                body_parts,
                hrefs,
            }
        },
        MarkupTok::Open(name, attrs, sc) => {
            let nv = text::chars_vec(name.as_str());
            let self_closing = *sc;
            if text::eq_lit(&nv, "title") && !title_done && !in_title && !self_closing {
                in_title = true;
            }
            if text::eq_lit(&nv, "meta") {
                let nm = attr_val_exec(attrs, "name");
                let pr = attr_val_exec(attrs, "property");
                let ct = attr_val_exec(attrs, "content");
                let nm_is_desc = match &nm {
                    Some(s) => {
                        let sv = text::chars_vec(s.as_str());
                        text::eq_lit(&sv, "description")
                    },
                    None => false,
                };
                let pr_is_og = match &pr {
                    Some(s) => {
                        let sv = text::chars_vec(s.as_str());
                        text::eq_lit(&sv, "og:description")
                    },
                    None => false,
                };
                let ct_is_some = match &ct {
                    Some(_) => true,
                    None => false,
                };
                if nm_is_desc && desc.is_none() && ct_is_some {
                    desc = ct.clone();
                }
                if pr_is_og && og_desc.is_none() && ct_is_some {
                    og_desc = ct;
                }
            }
            let href = attr_val_exec(attrs, "href");
            match href {
                Some(h) => {
                    if text::eq_lit(&nv, "a") {
                        let ghost h0 = hrefs@.map_values(|x: String| x@);
                        let ghost hv = h@;
                        hrefs.push(h);
                        proof {
                            assert(hrefs@.map_values(|x: String| x@) =~= h0.push(hv));
                        }
                    }
                },
                None => {},
            }
            if !in_body && !body_done && text::eq_lit(&nv, "body") {
                in_body = true;
                depth = 0;
            } else if in_body && !body_done && !self_closing && !is_void(&nv) {
                depth = depth + 1;
            }
            ExtBuild {
                title_txt,
                in_title,
                title_done,
                desc,
                og_desc,
                in_body,
                body_done,
                depth,
                body_parts,
                hrefs,
            }
        },
        MarkupTok::Close(name) => {
            let nv = text::chars_vec(name.as_str());
            if in_title && text::eq_lit(&nv, "title") {
                in_title = false;
                title_done = true;
            }
            if in_body && !body_done {
                if depth == 0 {
                    if text::eq_lit(&nv, "body") {
                        in_body = false;
                        body_done = true;
                    }
                } else {
                    depth = depth - 1;
                }
            }
            ExtBuild {
                title_txt,
                in_title,
                title_done,
                desc,
                og_desc,
                in_body,
                body_done,
                depth,
                body_parts,
                hrefs,
            }
        },
    }
}

fn links_from(b: &ParsedUrl, hrefs: &Vec<String>, max_links: usize) -> (r: Vec<ParsedUrl>)
    ensures
        links_view(r@) == links_fold(
            b@,
            hrefs@.map_values(|h: String| h@),
            0,
            Seq::empty(),
            max_links as int,
        ),
{
    let ghost hv = hrefs@.map_values(|h: String| h@);
    let mut acc: Vec<ParsedUrl> = Vec::new();
    proof {
        assert(links_view(acc@) =~= Seq::<UrlView>::empty());
    }
    let base_host = text::chars_vec(b.host.as_str());
    let mut i: usize = 0;
    while i < hrefs.len()
        invariant
            0 <= i <= hrefs@.len(),
            hv == hrefs@.map_values(|h: String| h@),
            base_host@ == b@.host,
            links_fold(b@, hv, 0, Seq::empty(), max_links as int) == links_fold(
                b@,
                hv,
                i as int,
                links_view(acc@),
                max_links as int,
            ),
        decreases hrefs.len() - i,
    {
        let hc = text::chars_vec(hrefs[i].as_str());
        assert(hc@ == hv[i as int]);
        let resolved = urls::resolve_href(b, &hc);
        match resolved {
            Some(u) => {
                let uh = text::chars_vec(u.host.as_str());
                let same_host = text::vec_eq_vec(&uh, &base_host);
                let mut seen = false;
                let upq = text::chars_vec(u.path_and_query.as_str());
                let mut j: usize = 0;
                while j < acc.len()
                    invariant
                        0 <= j <= acc@.len(),
                        upq@ == u@.path_and_query,
                        !seen ==> forall|m: int|
                            0 <= m < j ==> links_view(acc@)[m].path_and_query
                                != u@.path_and_query,
                        seen ==> link_seen(links_view(acc@), u@),
                    decreases acc.len() - j,
                {
                    if !seen {
                        let lpq = text::chars_vec(acc[j].path_and_query.as_str());
                        assert(lpq@ == links_view(acc@)[j as int].path_and_query);
                        if text::vec_eq_vec(&lpq, &upq) {
                            seen = true;
                        }
                    }
                    j = j + 1;
                }
                if urls::is_http_scheme(&u) && same_host && acc.len() < max_links && !seen {
                    let ghost a0 = links_view(acc@);
                    let ghost uv = u@;
                    acc.push(u);
                    proof {
                        assert(links_view(acc@) =~= a0.push(uv));
                    }
                }
            },
            None => {},
        }
        i = i + 1;
    }
    acc
}

/// Extract title, description, body text and links from HTML characters.
pub fn extract(html: &Vec<char>, base: &ParsedUrl, max_links: usize) -> (r: Extraction)
    ensures
        r@ == extract_s(html@, base@, max_links as int),
{
    let toks = markup::lex_markup(html);
    let ghost tv = markup::toks_view(toks@);
    let n = toks.len();
    let mut st = ExtBuild {
        title_txt: Vec::new(),
        in_title: false,
        title_done: false,
        desc: None,
        og_desc: None,
        in_body: false,
        body_done: false,
        depth: 0,
        body_parts: Vec::new(),
        hrefs: Vec::new(),
    };
    proof {
        assert(st.view_state().title_txt =~= ext_init().title_txt);
        assert(st.view_state().body_parts =~= ext_init().body_parts);
        assert(st.view_state().hrefs =~= ext_init().hrefs);
    }
    let mut i: usize = 0;
    while i < n
        invariant
            0 <= i <= n == toks@.len(),
            tv == markup::toks_view(toks@),
            tv.len() == toks@.len(),
            st.view_state().depth <= i,
            ext_fold(tv, 0, ext_init()) == ext_fold(tv, i as int, st.view_state()),
        decreases n - i,
    {
        let ghost pre = st.view_state();
        st = ext_step_exec(st, &toks[i]);
        proof {
            assert(tv[i as int] == toks@[i as int]@);
            assert(st.view_state() == ext_step(pre, tv[i as int]));
        }
        i = i + 1;
    }
    let ghost fin = ext_fold(tv, 0, ext_init());
    proof {
        assert(fin == st.view_state());
    }
    let title_trim = text::trim_vec(&st.title_txt);
    let title = if title_trim.len() > 0 {
        Some(text::string_from_chars(&title_trim))
    } else {
        None
    };
    let d_trim = match &st.desc {
        Some(d) => {
            let dv = text::chars_vec(d.as_str());
            text::trim_vec(&dv)
        },
        None => Vec::new(),
    };
    let description = if d_trim.len() > 0 {
        Some(text::string_from_chars(&d_trim))
    } else {
        let o_trim = match &st.og_desc {
            Some(d) => {
                let dv = text::chars_vec(d.as_str());
                text::trim_vec(&dv)
            },
            None => Vec::new(),
        };
        if o_trim.len() > 0 {
            Some(text::string_from_chars(&o_trim))
        } else {
            None
        }
    };
    let body_v = if st.body_parts.len() > MAX_BODY_CHARS {
        text::subvec(&st.body_parts, 0, MAX_BODY_CHARS)
    } else {
        text::subvec(&st.body_parts, 0, st.body_parts.len())
    };
    proof {
        assert(body_v@ =~= body_of(fin));
    }
    let body_text = text::string_from_chars(&body_v);
    let links = links_from(base, &st.hrefs, max_links);
    Extraction { title, description, body_text, links }
}

} // verus!
