//! Discovery of candidate URLs: `<loc>` entries of a sitemap, and the first
//! link of each RSS `<item>` or Atom `<entry>` of a feed. Both are
//! best-effort: text that is not a feed yields nothing.
use vstd::prelude::*;

use crate::extract::attr_val_s;
use crate::markup;
use crate::markup::{MarkupTok, TokView};
use crate::text;

verus! {

/// Sitemap scan state.
pub ghost struct SmState {
    pub in_url: bool,
    pub in_loc: bool,
    pub cur: Seq<char>,
    pub locs: Seq<Seq<char>>,
}

pub open spec fn sm_init() -> SmState {
    SmState { in_url: false, in_loc: false, cur: Seq::empty(), locs: Seq::empty() }
}

pub open spec fn sm_step(st: SmState, t: TokView) -> SmState {
    match t {
        TokView::Open(name, attrs, sc) => {
            if name == "url"@ && !sc {
                SmState { in_url: true, ..st }
            } else if name == "loc"@ && st.in_url && !sc {
                SmState { in_loc: true, cur: Seq::empty(), ..st }
            } else {
                st
            }
        },
        TokView::Text(x) => {
            if st.in_loc {
                SmState { cur: st.cur + x, ..st }
            } else {
                st
            }
        },
        TokView::Close(name) => {
            if name == "loc"@ && st.in_loc {
                let t2 = text::trim_s(st.cur);
                SmState {
                    in_loc: false,
                    locs: if t2.len() > 0 {
                        st.locs.push(t2)
                    } else {
                        st.locs
                    },
                    ..st
                }
            } else if name == "url"@ {
                SmState { in_url: false, in_loc: false, ..st }
            } else {
                st
            }
        },
    }
}

pub open spec fn sm_fold(toks: Seq<TokView>, i: int, st: SmState) -> SmState
    decreases toks.len() - i,
    when 0 <= i <= toks.len()
{
    if i >= toks.len() {
        st
    } else {
        sm_fold(toks, i + 1, sm_step(st, toks[i]))
    }
}

/// The URLs listed by a sitemap: trimmed text of each `<loc>` inside a
/// `<url>` entry, in order, empty entries dropped.
pub open spec fn sitemap_locs_s(s: Seq<char>) -> Seq<Seq<char>> {
    sm_fold(markup::lex_s(s), 0, sm_init()).locs
}

struct SmBuild {
    in_url: bool,
    in_loc: bool,
    cur: Vec<char>,
    locs: Vec<String>,
}

impl SmBuild {
    spec fn view_state(&self) -> SmState {
        SmState {
            in_url: self.in_url,
            in_loc: self.in_loc,
            cur: self.cur@,
            locs: self.locs@.map_values(|l: String| l@),
        }
    }
}

fn sm_step_exec(st: SmBuild, tok: &MarkupTok) -> (r: SmBuild)
    ensures
        r.view_state() == sm_step(st.view_state(), tok@),
{
    let ghost st0 = st.view_state();
    let SmBuild { mut in_url, mut in_loc, mut cur, mut locs } = st;
    match tok {
        MarkupTok::Open(name, _attrs, sc) => {
            let nv = text::chars_vec(name.as_str());
            if text::eq_lit(&nv, "url") && !*sc {
                in_url = true;
            } else if text::eq_lit(&nv, "loc") && in_url && !*sc {
                in_loc = true;
                cur = Vec::new();
                proof {
                    assert(cur@ =~= Seq::<char>::empty());
                }
            }
        },
        MarkupTok::Text(x) => {
            if in_loc {
                text::append_vec(&mut cur, x);
            }
        },
        MarkupTok::Close(name) => {
            let nv = text::chars_vec(name.as_str());
            if text::eq_lit(&nv, "loc") && in_loc {
                in_loc = false;
                let t2 = text::trim_vec(&cur);
                if t2.len() > 0 {
                    let ghost l0 = locs@.map_values(|l: String| l@);
                    let ghost tv = t2@;
                    locs.push(text::string_from_chars(&t2));
                    proof {
                        assert(locs@.map_values(|l: String| l@) =~= l0.push(tv));
                    }
                }
            } else if text::eq_lit(&nv, "url") {
                in_url = false;
                in_loc = false;
            }
        },
    }
    SmBuild { in_url, in_loc, cur, locs }
}

/// The URLs listed by a sitemap document.
pub fn sitemap_locs(xml: &str) -> (r: Vec<String>)
    ensures
        r@.map_values(|l: String| l@) == sitemap_locs_s(xml@),
{
    let v = text::chars_vec(xml);
    let toks = markup::lex_markup(&v);
    let ghost tv = markup::toks_view(toks@);
    let n = toks.len();
    let mut st = SmBuild { in_url: false, in_loc: false, cur: Vec::new(), locs: Vec::new() };
    proof {
        assert(st.view_state().cur =~= sm_init().cur);
        assert(st.view_state().locs =~= sm_init().locs);
    }
    let mut i: usize = 0;
    while i < n
        invariant
            0 <= i <= n == toks@.len(),
            tv == markup::toks_view(toks@),
            tv.len() == toks@.len(),
            sm_fold(tv, 0, sm_init()) == sm_fold(tv, i as int, st.view_state()),
        decreases n - i,
    {
        let ghost pre = st.view_state();
        st = sm_step_exec(st, &toks[i]);
        proof {
            assert(tv[i as int] == toks@[i as int]@);
            assert(st.view_state() == sm_step(pre, tv[i as int]));
        }
        i = i + 1;
    }
    st.locs
}

/// Feed scan state.
pub ghost struct FdState {
    pub first_open: Option<Seq<char>>,
    pub in_entry: bool,
    pub have_link: bool,
    pub link: Seq<char>,
    pub in_link: bool,
    pub cur: Seq<char>,
    pub links: Seq<Seq<char>>,
}

pub open spec fn fd_init() -> FdState {
    FdState {
        first_open: None,
        in_entry: false,
        have_link: false,
        link: Seq::empty(),
        in_link: false,
        cur: Seq::empty(),
        links: Seq::empty(),
    }
}

pub open spec fn fd_step(st: FdState, t: TokView) -> FdState {
    match t {
        TokView::Open(name, attrs, sc) => {
            let st1 = if st.first_open is None {
                FdState { first_open: Some(name), ..st }
            } else {
                st
            };
            if (name == "item"@ || name == "entry"@) && !st1.in_entry && !sc {
                FdState { in_entry: true, have_link: false, link: Seq::empty(), ..st1 }
            } else if name == "link"@ && st1.in_entry {
                match attr_val_s(attrs, "href"@) {
                    Some(h) => {
                        if !st1.have_link {
                            FdState { have_link: true, link: h, ..st1 }
                        } else {
                            st1
                        }
                    },
                    None => {
                        if !sc {
                            FdState { in_link: true, cur: Seq::empty(), ..st1 }
                        } else {
                            st1
                        }
                    },
                }
            } else {
                st1
            }
        },
        TokView::Text(x) => {
            if st.in_link {
                FdState { cur: st.cur + x, ..st }
            } else {
                st
            }
        },
        TokView::Close(name) => {
            if name == "link"@ && st.in_link {
                let t2 = text::trim_s(st.cur);
                if !st.have_link && t2.len() > 0 {
                    FdState { in_link: false, have_link: true, link: t2, ..st }
                } else {
                    FdState { in_link: false, ..st }
                }
            } else if (name == "item"@ || name == "entry"@) && st.in_entry {
                FdState {
                    in_entry: false,
                    in_link: false,
                    links: if st.have_link {
                        st.links.push(st.link)
                    } else {
                        st.links
                    },
                    ..st
                }
            } else {
                st
            }
        },
    }
}

pub open spec fn fd_fold(toks: Seq<TokView>, i: int, st: FdState) -> FdState
    decreases toks.len() - i,
    when 0 <= i <= toks.len()
{
    if i >= toks.len() {
        st
    } else {
        fd_fold(toks, i + 1, fd_step(st, toks[i]))
    }
}

/// A document counts as a feed when its root element is `rss`, `feed` or
/// `rdf:rdf`.
pub open spec fn feed_root_ok(o: Option<Seq<char>>) -> bool {
    match o {
        Some(n) => n == "rss"@ || n == "feed"@ || n == "rdf:rdf"@,
        None => false,
    }
}

pub open spec fn feed_valid_s(s: Seq<char>) -> bool {
    feed_root_ok(fd_fold(markup::lex_s(s), 0, fd_init()).first_open)
}

/// The first link of each feed entry, in order.
pub open spec fn feed_links_s(s: Seq<char>) -> Seq<Seq<char>> {
    fd_fold(markup::lex_s(s), 0, fd_init()).links
}

struct FdBuild {
    first_open: Option<String>,
    in_entry: bool,
    have_link: bool,
    link: Vec<char>,
    in_link: bool,
    cur: Vec<char>,
    links: Vec<String>,
}

impl FdBuild {
    spec fn view_state(&self) -> FdState {
        FdState {
            first_open: text::opt_sv(self.first_open),
            in_entry: self.in_entry,
            have_link: self.have_link,
            link: self.link@,
            in_link: self.in_link,
            cur: self.cur@,
            links: self.links@.map_values(|l: String| l@),
        }
    }
}

fn fd_step_exec(st: FdBuild, tok: &MarkupTok) -> (r: FdBuild)
    ensures
        r.view_state() == fd_step(st.view_state(), tok@),
{
    let ghost st0 = st.view_state();
    let FdBuild { mut first_open, mut in_entry, mut have_link, mut link, mut in_link, mut cur, mut links } = st;
    match tok {
        MarkupTok::Open(name, attrs, sc) => {
            let nv = text::chars_vec(name.as_str());
            if first_open.is_none() {
                first_open = Some(name.clone());
            }
            let is_entry = text::eq_lit(&nv, "item") || text::eq_lit(&nv, "entry");
            if is_entry && !in_entry && !*sc {
                in_entry = true;
                have_link = false;
                link = Vec::new();
                proof {
                    assert(link@ =~= Seq::<char>::empty());
                }
            } else if text::eq_lit(&nv, "link") && in_entry {
                let href = crate::extract::attr_val_exec(attrs, "href");
                match href {
                    Some(h) => {
                        if !have_link {
                            have_link = true;
                            link = text::chars_vec(h.as_str());
                        }
                    },
                    None => {
                        if !*sc {
                            in_link = true;
                            cur = Vec::new();
                            proof {
                                assert(cur@ =~= Seq::<char>::empty());
                            }
                        }
                    },
                }
            }
        },
        MarkupTok::Text(x) => {
            if in_link {
                text::append_vec(&mut cur, x);
            }
        },
        MarkupTok::Close(name) => {
            let nv = text::chars_vec(name.as_str());
            if text::eq_lit(&nv, "link") && in_link {
                let t2 = text::trim_vec(&cur);
                if !have_link && t2.len() > 0 {
                    have_link = true;
                    link = t2;
                }
                in_link = false;
            } else if (text::eq_lit(&nv, "item") || text::eq_lit(&nv, "entry")) && in_entry {
                in_entry = false;
                in_link = false;
                if have_link {
                    let ghost l0 = links@.map_values(|l: String| l@);
                    let ghost lv = link@;
                    links.push(text::string_from_chars(&link));
                    proof {
                        assert(links@.map_values(|l: String| l@) =~= l0.push(lv));
                    }
                }
            }
        },
    }
    FdBuild { first_open, in_entry, have_link, link, in_link, cur, links }
}

/// The first link of each entry of a feed document, or nothing when the
/// document is not a feed.
pub fn feed_links(xml: &str) -> (r: Option<Vec<String>>)
    ensures
        match r {
            Some(ls) => feed_valid_s(xml@) && ls@.map_values(|l: String| l@) == feed_links_s(
                xml@,
            ),
            None => !feed_valid_s(xml@),
        },
{
    let v = text::chars_vec(xml);
    let toks = markup::lex_markup(&v);
    let ghost tv = markup::toks_view(toks@);
    let n = toks.len();
    let mut st = FdBuild {
        first_open: None,
        in_entry: false,
        have_link: false,
        link: Vec::new(),
        in_link: false,
        cur: Vec::new(),
        links: Vec::new(),
    };
    proof {
        assert(st.view_state().link =~= fd_init().link);
        assert(st.view_state().cur =~= fd_init().cur);
        assert(st.view_state().links =~= fd_init().links);
    }
    let mut i: usize = 0;
    while i < n
        invariant
            0 <= i <= n == toks@.len(),
            tv == markup::toks_view(toks@),
            tv.len() == toks@.len(),
            fd_fold(tv, 0, fd_init()) == fd_fold(tv, i as int, st.view_state()),
        decreases n - i,
    {
        let ghost pre = st.view_state();
        st = fd_step_exec(st, &toks[i]);
        proof {
            assert(tv[i as int] == toks@[i as int]@);
            assert(st.view_state() == fd_step(pre, tv[i as int]));
        }
        i = i + 1;
    }
    let root_ok = match &st.first_open {
        Some(nm) => {
            let nv = text::chars_vec(nm.as_str());
            text::eq_lit(&nv, "rss") || text::eq_lit(&nv, "feed") || text::eq_lit(&nv, "rdf:rdf")
        },
        None => false,
    };
    if root_ok {
        Some(st.links)
    } else {
        None
    }
}

} // verus!
