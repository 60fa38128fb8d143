//! A small URL model: scheme, host and path-with-query, parsed from text,
//! serialized back, and resolution of `href` references against a base.
//! Fragments are always stripped; scheme and host are lower-cased.
use vstd::prelude::*;

use crate::text;

verus! {

/// Mathematical shape of a parsed URL.
pub ghost struct UrlView {
    pub scheme: Seq<char>,
    pub host: Seq<char>,
    pub path_and_query: Seq<char>,
}

/// A URL split into scheme, host (with any port) and path plus query.
pub struct ParsedUrl {
    pub scheme: String,
    pub host: String,
    pub path_and_query: String,
}

impl View for ParsedUrl {
    type V = UrlView;

    open spec fn view(&self) -> UrlView {
        UrlView {
            scheme: self.scheme@,
            host: self.host@,
            path_and_query: self.path_and_query@,
        }
    }
}

impl Clone for ParsedUrl {
    fn clone(&self) -> (r: Self)
        ensures
            r@ == self@,
    {
        ParsedUrl {
            scheme: self.scheme.clone(),
            host: self.host.clone(),
            path_and_query: self.path_and_query.clone(),
        }
    }
}

pub open spec fn imin(a: int, b: int) -> int {
    if a <= b {
        a
    } else {
        b
    }
}

/// Index right after the authority: the first `/`, `?` or `#` at or after `i`.
pub open spec fn authority_end(s: Seq<char>, i: int) -> int {
    imin(
        text::find_from(s, i, '/'),
        imin(text::find_from(s, i, '?'), text::find_from(s, i, '#')),
    )
}

/// A `:` occurs, not first, and before any `/`, `?` or `#`: the text carries
/// its own scheme.
pub open spec fn has_scheme(s: Seq<char>) -> bool {
    let ci = text::find_from(s, 0, ':');
    &&& 1 <= ci < s.len()
    &&& forall|k: int| 0 <= k < ci ==> s[k] != '/' && s[k] != '?' && s[k] != '#'
}

/// The path-with-query part starting at `i`, fragment stripped and made
/// absolute: empty becomes `/`, a bare query gets `/` in front.
pub open spec fn norm_path_from(s: Seq<char>, i: int) -> Seq<char> {
    let fe = text::find_from(s, i, '#');
    if i == fe {
        seq!['/']
    } else if s[i] == '?' {
        seq!['/'] + s.subrange(i, fe)
    } else {
        s.subrange(i, fe)
    }
}

/// What parsing yields: `scheme://host/path?query`, scheme and host
/// lower-cased, or nothing when the text has no such shape.
pub open spec fn url_parse_s(s: Seq<char>) -> Option<UrlView> {
    let ci = text::find_from(s, 0, ':');
    if !has_scheme(s) {
        None
    } else if !(ci + 3 <= s.len() && s[ci + 1] == '/' && s[ci + 2] == '/') {
        None
    } else {
        let h0 = ci + 3;
        let he = authority_end(s, h0);
        if he == h0 {
            None
        } else {
            Some(
                UrlView {
                    scheme: text::lower_s(s.subrange(0, ci)),
                    host: text::lower_s(s.subrange(h0, he)),
                    path_and_query: norm_path_from(s, he),
                },
            )
        }
    }
}

/// The textual form `scheme://host` followed by the path and query.
pub open spec fn url_str_s(u: UrlView) -> Seq<char> {
    u.scheme + seq![':', '/', '/'] + u.host + u.path_and_query
}

fn has_scheme_exec(v: &Vec<char>) -> (r: bool)
    ensures
        r == has_scheme(v@),
{
    let n = v.len();
    let ci = text::find_char(v, 0, ':');
    proof {
        text::lemma_find_from_bounds(v@, 0, ':');
    }
    if !(1 <= ci && ci < n) {
        return false;
    }
    let mut k: usize = 0;
    while k < ci
        invariant
            n == v@.len(),
            1 <= ci < n,
            ci as int == text::find_from(v@, 0, ':'),
            0 <= k <= ci,
            forall|m: int| 0 <= m < k ==> v@[m] != '/' && v@[m] != '?' && v@[m] != '#',
        decreases ci - k,
    {
        if v[k] == '/' || v[k] == '?' || v[k] == '#' {
            assert(!has_scheme(v@)) by {
                assert(v@[k as int] == '/' || v@[k as int] == '?' || v@[k as int] == '#');
            }
            return false;
        }
        k = k + 1;
    }
    true
}

fn norm_path_from_exec(v: &Vec<char>, i: usize) -> (r: Vec<char>)
    requires
        i <= v@.len(),
    ensures
        r@ == norm_path_from(v@, i as int),
{
    let fe = text::find_char(v, i, '#');
    proof {
        text::lemma_find_from_bounds(v@, i as int, '#');
    }
    if i == fe {
        let mut r: Vec<char> = Vec::new();
        r.push('/');
        proof {
            assert(r@ =~= seq!['/']);
        }
        r
    } else if v[i] == '?' {
        let mut r: Vec<char> = Vec::new();
        r.push('/');
        let tail = text::subvec(v, i, fe);
        let mut j: usize = 0;
        while j < tail.len()
            invariant
                0 <= j <= tail@.len(),
                r@ == seq!['/'] + tail@.subrange(0, j as int),
            decreases tail.len() - j,
        {
            r.push(tail[j]);
            proof {
                assert(seq!['/'] + tail@.subrange(0, j + 1 as int) =~= (seq!['/']
                    + tail@.subrange(0, j as int)).push(tail@[j as int]));
            }
            j = j + 1;
        }
        proof {
            assert(tail@.subrange(0, tail@.len() as int) =~= tail@);
        }
        r
    } else {
        text::subvec(v, i, fe)
    }
}

/// Parse a URL given as characters.
pub fn parse_url_chars(v: &Vec<char>) -> (r: Option<ParsedUrl>)
    ensures
        match r {
            Some(u) => url_parse_s(v@) == Some(u@),
            None => url_parse_s(v@) is None,
        },
{
    let n = v.len();
    let ci = text::find_char(v, 0, ':');
    proof {
        text::lemma_find_from_bounds(v@, 0, ':');
    }
    if !has_scheme_exec(v) {
        return None;
    }
    if n - ci < 3 || v[ci + 1] != '/' || v[ci + 2] != '/' {
        return None;
    }
    let h0 = ci + 3;
    let e_slash = text::find_char(v, h0, '/');
    let e_q = text::find_char(v, h0, '?');
    let e_hash = text::find_char(v, h0, '#');
    proof {
        text::lemma_find_from_bounds(v@, h0 as int, '/');
        text::lemma_find_from_bounds(v@, h0 as int, '?');
        text::lemma_find_from_bounds(v@, h0 as int, '#');
    }
    let mut he = e_slash;
    if e_q < he {
        he = e_q;
    }
    if e_hash < he {
        he = e_hash;
    }
    assert(he as int == authority_end(v@, h0 as int));
    if he == h0 {
        return None;
    }
    let scheme_raw = text::subvec(v, 0, ci);
    let host_raw = text::subvec(v, h0, he);
    let scheme = text::lower_vec(&scheme_raw);
    let host = text::lower_vec(&host_raw);
    let path = norm_path_from_exec(v, he);
    Some(
        ParsedUrl {
            scheme: text::string_from_chars(&scheme),
            host: text::string_from_chars(&host),
            path_and_query: text::string_from_chars(&path),
        },
    )
}

/// Parse a URL given as a string slice.
pub fn parse_url(s: &str) -> (r: Option<ParsedUrl>)
    ensures
        match r {
            Some(u) => url_parse_s(s@) == Some(u@),
            None => url_parse_s(s@) is None,
        },
{
    let v = text::chars_vec(s);
    parse_url_chars(&v)
}

/// Whether the parsed scheme is `http` or `https`.
pub open spec fn is_http_s(u: UrlView) -> bool {
    u.scheme == "http"@ || u.scheme == "https"@
}

pub fn is_http_scheme(u: &ParsedUrl) -> (r: bool)
    ensures
        r == is_http_s(u@),
{
    let sv = text::chars_vec(u.scheme.as_str());
    if text::eq_lit(&sv, "http") {
        return true;
    }
    text::eq_lit(&sv, "https")
}

/// Serialize back to text.
pub fn url_string(u: &ParsedUrl) -> (r: String)
    ensures
        r@ == url_str_s(u@),
{
    let mut out = text::chars_vec(u.scheme.as_str());
    out.push(':');
    out.push('/');
    out.push('/');
    let hv = text::chars_vec(u.host.as_str());
    let pv = text::chars_vec(u.path_and_query.as_str());
    let mut i: usize = 0;
    while i < hv.len()
        invariant
            0 <= i <= hv@.len(),
            out@ == u.scheme@ + seq![':', '/', '/'] + hv@.subrange(0, i as int),
        decreases hv.len() - i,
    {
        out.push(hv[i]);
        proof {
            assert(u.scheme@ + seq![':', '/', '/'] + hv@.subrange(0, i + 1 as int) =~= (u.scheme@
                + seq![':', '/', '/'] + hv@.subrange(0, i as int)).push(hv@[i as int]));
        }
        i = i + 1;
    }
    proof {
        assert(hv@.subrange(0, hv@.len() as int) =~= hv@);
    }
    let mut j: usize = 0;
    while j < pv.len()
        invariant
            0 <= j <= pv@.len(),
            out@ == u.scheme@ + seq![':', '/', '/'] + u.host@ + pv@.subrange(0, j as int),
        decreases pv.len() - j,
    {
        out.push(pv[j]);
        proof {
            assert(u.scheme@ + seq![':', '/', '/'] + u.host@ + pv@.subrange(0, j + 1 as int) =~= (
            u.scheme@ + seq![':', '/', '/'] + u.host@ + pv@.subrange(0, j as int)).push(
                pv@[j as int],
            ));
        }
        j = j + 1;
    }
    proof {
        assert(pv@.subrange(0, pv@.len() as int) =~= pv@);
        assert(out@ =~= url_str_s(u@));
    }
    text::string_from_chars(&out)
}

/// Index right after the last `/` strictly before `j` (0 when none).
pub open spec fn after_last_slash(s: Seq<char>, j: int) -> int
    decreases j,
    when 0 <= j <= s.len()
{
    if j > 0 {
        if s[j - 1] == '/' {
            j
        } else {
            after_last_slash(s, j - 1)
        }
    } else {
        0
    }
}

/// The directory of the base path: everything up to and including the last
/// `/` of the path part (the query does not count).
pub open spec fn base_dir_s(path_and_query: Seq<char>) -> Seq<char> {
    let qe = text::find_from(path_and_query, 0, '?');
    path_and_query.subrange(0, after_last_slash(path_and_query, qe))
}

fn base_dir_exec(pq: &Vec<char>) -> (r: Vec<char>)
    ensures
        r@ == base_dir_s(pq@),
{
    let qe = text::find_char(pq, 0, '?');
    proof {
        text::lemma_find_from_bounds(pq@, 0, '?');
    }
    let mut j: usize = qe;
    while j > 0 && pq[j - 1] != '/'
        invariant
            0 <= j <= qe <= pq@.len(),
            after_last_slash(pq@, qe as int) == after_last_slash(pq@, j as int),
        decreases j,
    {
        j = j - 1;
    }
    text::subvec(pq, 0, j)
}

/// Resolution of an `href` against a base URL: absolute references parse on
/// their own, `//` keeps the scheme, `/` keeps scheme and host, fragments
/// and empty references resolve to nothing, and anything else is taken
/// relative to the base directory.
pub open spec fn resolve_s(b: UrlView, h: Seq<char>) -> Option<UrlView> {
    if h.len() == 0 || h[0] == '#' {
        None
    } else if has_scheme(h) {
        url_parse_s(h)
    } else if h.len() >= 2 && h[0] == '/' && h[1] == '/' {
        url_parse_s(b.scheme + seq![':'] + h)
    } else if h[0] == '/' {
        Some(UrlView { scheme: b.scheme, host: b.host, path_and_query: norm_path_from(h, 0) })
    } else {
        Some(
            UrlView {
                scheme: b.scheme,
                host: b.host,
                path_and_query: base_dir_s(b.path_and_query) + h.subrange(
                    0,
                    text::find_from(h, 0, '#'),
                ),
            },
        )
    }
}

pub fn resolve_href(b: &ParsedUrl, h: &Vec<char>) -> (r: Option<ParsedUrl>)
    ensures
        match r {
            Some(u) => resolve_s(b@, h@) == Some(u@),
            None => resolve_s(b@, h@) is None,
        },
{
    if h.len() == 0 || h[0] == '#' {
        return None;
    }
    if has_scheme_exec(h) {
        return parse_url_chars(h);
    }
    if h.len() >= 2 && h[0] == '/' && h[1] == '/' {
        let mut joined = text::chars_vec(b.scheme.as_str());
        joined.push(':');
        let mut i: usize = 0;
        while i < h.len()
            invariant
                0 <= i <= h@.len(),
                joined@ == b.scheme@ + seq![':'] + h@.subrange(0, i as int),
            decreases h.len() - i,
        {
            joined.push(h[i]);
            proof {
                assert(b.scheme@ + seq![':'] + h@.subrange(0, i + 1 as int) =~= (b.scheme@
                    + seq![':'] + h@.subrange(0, i as int)).push(h@[i as int]));
            }
            i = i + 1;
        }
        proof {
            assert(h@.subrange(0, h@.len() as int) =~= h@);
        }
        return parse_url_chars(&joined);
    }
    if h[0] == '/' {
        let p = norm_path_from_exec(h, 0);
        return Some(
            ParsedUrl {
                scheme: b.scheme.clone(),
                host: b.host.clone(),
                path_and_query: text::string_from_chars(&p),
            },
        );
    }
    let pq = text::chars_vec(b.path_and_query.as_str());
    let mut dir = base_dir_exec(&pq);
    let fe = text::find_char(h, 0, '#');
    proof {
        text::lemma_find_from_bounds(h@, 0, '#');
    }
    let ghost dir0 = dir@;
    let mut i: usize = 0;
    while i < fe
        invariant
            0 <= i <= fe <= h@.len(),
            dir@ == dir0 + h@.subrange(0, i as int),
        decreases fe - i,
    {
        dir.push(h[i]);
        proof {
            assert(dir0 + h@.subrange(0, i + 1 as int) =~= (dir0 + h@.subrange(0, i as int)).push(
                h@[i as int],
            ));
        }
        i = i + 1;
    }
    Some(
        ParsedUrl {
            scheme: b.scheme.clone(),
            host: b.host.clone(),
            path_and_query: text::string_from_chars(&dir),
        },
    )
}

} // verus!
