//! Idempotent document storage keyed by URL: at most one row per URL, a new
//! fetch overwrites the row, and optional metadata keeps its old value when
//! the new fetch has none.
use vstd::prelude::*;

use crate::text;
use crate::types::{clone_opt_string, DocView, Document};

verus! {

/// First index whose document has the given URL, or the length.
pub open spec fn doc_idx_of(s: Seq<DocView>, url: Seq<char>) -> int
    decreases s.len(),
{
    if s.len() == 0 {
        0
    } else if s.first().url == url {
        0
    } else {
        1 + doc_idx_of(s.drop_first(), url)
    }
}

pub proof fn lemma_doc_idx_of_props(s: Seq<DocView>, url: Seq<char>)
    ensures
        0 <= doc_idx_of(s, url) <= s.len(),
        doc_idx_of(s, url) < s.len() ==> s[doc_idx_of(s, url)].url == url,
        forall|m: int| 0 <= m < doc_idx_of(s, url) ==> s[m].url != url,
        doc_idx_of(s, url) == s.len() ==> forall|m: int| 0 <= m < s.len() ==> s[m].url != url,
    decreases s.len(),
{
    if s.len() > 0 && s.first().url != url {
        lemma_doc_idx_of_props(s.drop_first(), url);
        assert forall|m: int| 0 <= m < doc_idx_of(s, url) implies s[m].url != url by {
            if m > 0 {
                assert(s.drop_first()[m - 1] == s[m]);
            }
        }
        if doc_idx_of(s, url) == s.len() {
            assert forall|m: int| 0 <= m < s.len() implies s[m].url != url by {
                if m > 0 {
                    assert(s.drop_first()[m - 1] == s[m]);
                }
            }
        }
    }
}

pub proof fn lemma_doc_idx_of_is(s: Seq<DocView>, url: Seq<char>, k: int)
    requires
        0 <= k < s.len(),
        s[k].url == url,
        forall|m: int| 0 <= m < k ==> s[m].url != url,
    ensures
        doc_idx_of(s, url) == k,
    decreases k,
{
    if k > 0 {
        assert(forall|m: int| 0 <= m < k - 1 ==> s.drop_first()[m] == s[m + 1]);
        assert(s.drop_first()[k - 1] == s[k]);
        lemma_doc_idx_of_is(s.drop_first(), url, k - 1);
    }
}

pub proof fn lemma_doc_idx_of_none(s: Seq<DocView>, url: Seq<char>)
    requires
        forall|m: int| 0 <= m < s.len() ==> s[m].url != url,
    ensures
        doc_idx_of(s, url) == s.len(),
    decreases s.len(),
{
    if s.len() > 0 {
        assert(forall|m: int| 0 <= m < s.drop_first().len() ==> s.drop_first()[m] == s[m + 1]);
        lemma_doc_idx_of_none(s.drop_first(), url);
    }
}

/// The stored row after a new fetch lands on an old one: the new fetch wins,
/// but optional metadata keeps the old value where the new one is absent.
pub open spec fn merge_docs(old_d: DocView, new_d: DocView) -> DocView {
    DocView {
        url: new_d.url,
        fetched_at: new_d.fetched_at,
        title: if new_d.title is Some {
            new_d.title
        } else {
            old_d.title
        },
        description: if new_d.description is Some {
            new_d.description
        } else {
            old_d.description
        },
        body_text: new_d.body_text,
        content_type: if new_d.content_type is Some {
            new_d.content_type
        } else {
            old_d.content_type
        },
        http_status: new_d.http_status,
        content_hash: if new_d.content_hash is Some {
            new_d.content_hash
        } else {
            old_d.content_hash
        },
        etag: if new_d.etag is Some {
            new_d.etag
        } else {
            old_d.etag
        },
        lang: if new_d.lang is Some {
            new_d.lang
        } else {
            old_d.lang
        },
        last_modified: if new_d.last_modified is Some {
            new_d.last_modified
        } else {
            old_d.last_modified
        },
    }
}

/// The row under a URL in a sequence of documents.
pub open spec fn stored_in(s: Seq<DocView>, url: Seq<char>) -> Option<DocView> {
    let k = doc_idx_of(s, url);
    if k < s.len() {
        Some(s[k])
    } else {
        None
    }
}

/// The rows after one upsert: merge onto the existing row, or append.
pub open spec fn upsert_rows(ov: Seq<DocView>, d: DocView) -> Seq<DocView> {
    let k = doc_idx_of(ov, d.url);
    if k < ov.len() {
        ov.update(k, merge_docs(ov[k], d))
    } else {
        ov.push(d)
    }
}

/// In-memory document store; URLs unique.
pub struct DocumentStore {
    pub docs: Vec<Document>,
}

impl DocumentStore {
    pub open spec fn docs_v(&self) -> Seq<DocView> {
        self.docs@.map_values(|d: Document| d@)
    }

    pub open spec fn wf(&self) -> bool {
        forall|i: int, j: int|
            0 <= i < j < self.docs_v().len() ==> self.docs_v()[i].url != self.docs_v()[j].url
    }

    /// The row stored under a URL.
    pub open spec fn stored(&self, url: Seq<char>) -> Option<DocView> {
        stored_in(self.docs_v(), url)
    }

    pub fn new() -> (r: DocumentStore)
        ensures
            r.wf(),
            r.docs_v() == Seq::<DocView>::empty(),
    {
        let r = DocumentStore { docs: Vec::new() };
        proof {
            assert(r.docs_v() =~= Seq::<DocView>::empty());
        }
        r
    }

    /// How many documents are stored.
    pub fn len(&self) -> (r: usize)
        ensures
            r == self.docs_v().len(),
    {
        self.docs.len()
    }

    /// A copy of the row stored under a URL.
    pub fn get(&self, url: &str) -> (r: Option<Document>)
        ensures
            match r {
                Some(d) => self.stored(url@) == Some(d@),
                None => self.stored(url@) is None,
            },
    {
        let uv = text::chars_vec(url);
        let ghost dv = self.docs_v();
        let mut i: usize = 0;
        while i < self.docs.len()
            invariant
                0 <= i <= self.docs@.len(),
                dv == self.docs_v(),
                dv.len() == self.docs@.len(),
                uv@ == url@,
                forall|m: int| 0 <= m < i ==> dv[m].url != url@,
            decreases self.docs.len() - i,
        {
            let du = text::chars_vec(self.docs[i].url.as_str());
            assert(du@ == dv[i as int].url);
            if text::vec_eq_vec(&du, &uv) {
                proof {
                    lemma_doc_idx_of_is(dv, url@, i as int);
                }
                return Some(self.docs[i].clone());
            }
            i = i + 1;
        }
        proof {
            lemma_doc_idx_of_props(dv, url@);
        }
        None
    }

    /// Store a document: insert under a new URL, or overwrite the old row
    /// with the merge of the two.
    pub fn upsert_document(&mut self, d: Document)
        requires
            old(self).wf(),
        ensures
            final(self).wf(),
            final(self).docs_v() == upsert_rows(old(self).docs_v(), d@),
            final(self).stored(d@.url) == Some(
                match old(self).stored(d@.url) {
                    Some(o) => merge_docs(o, d@),
                    None => d@,
                },
            ),
            forall|u: Seq<char>|
                u != d@.url ==> #[trigger] final(self).stored(u) == old(self).stored(u),
    {
        let ghost dw = d@;
        let uv = text::chars_vec(d.url.as_str());
        let ghost dv = self.docs_v();
        let mut i: usize = 0;
        while i < self.docs.len()
            invariant
                0 <= i <= self.docs@.len(),
                dv == self.docs_v(),
                dv == old(self).docs_v(),
                old(self).wf(),
                dv.len() == self.docs@.len(),
                uv@ == dw.url,
                dw == d@,
                forall|m: int| 0 <= m < i ==> dv[m].url != dw.url,
            decreases self.docs.len() - i,
        {
            let du = text::chars_vec(self.docs[i].url.as_str());
            assert(du@ == dv[i as int].url);
            if text::vec_eq_vec(&du, &uv) {
                proof {
                    lemma_doc_idx_of_is(dv, dw.url, i as int);
                }
                let Document {
                    url,
                    fetched_at,
                    title,
                    description,
                    body_text,
                    content_type,
                    http_status,
                    content_hash,
                    etag,
                    lang,
                    last_modified,
                } = d;
                let old_doc = &self.docs[i];
                let merged = Document {
                    url,
                    fetched_at,
                    title: if title.is_some() {
                        title
                    } else {
                        clone_opt_string(&old_doc.title)
                    },
                    description: if description.is_some() {
                        description
                    } else {
                        clone_opt_string(&old_doc.description)
                    },
                    body_text,
                    content_type: if content_type.is_some() {
                        content_type
                    } else {
                        clone_opt_string(&old_doc.content_type)
                    },
                    http_status,
                    content_hash: if content_hash.is_some() {
                        content_hash
                    } else {
                        clone_opt_string(&old_doc.content_hash)
                    },
                    etag: if etag.is_some() {
                        etag
                    } else {
                        clone_opt_string(&old_doc.etag)
                    },
                    lang: if lang.is_some() {
                        lang
                    } else {
                        clone_opt_string(&old_doc.lang)
                    },
                    last_modified: if last_modified.is_some() {
                        last_modified
                    } else {
                        clone_opt_string(&old_doc.last_modified)
                    },
                };
                assert(merged@ == merge_docs(dv[i as int], dw));
                self.docs[i] = merged;
                proof {
                    let newv = self.docs_v();
                    assert(newv =~= dv.update(i as int, merge_docs(dv[i as int], dw)));
                    assert forall|m: int| 0 <= m < newv.len() implies newv[m].url == dv[m].url by {
                        if m != i as int {
                            assert(newv[m] == dv[m]);
                        }
                    }
                    assert forall|a: int, b: int| 0 <= a < b < newv.len() implies newv[a].url
                        != newv[b].url by {
                        assert(dv[a].url != dv[b].url);
                    }
                    lemma_doc_idx_of_is(newv, dw.url, i as int);
                    assert forall|u: Seq<char>| u != dw.url implies #[trigger] stored_in(newv, u)
                        == stored_in(dv, u) by {
                        lemma_doc_idx_of_props(dv, u);
                        if doc_idx_of(dv, u) < dv.len() {
                            lemma_doc_idx_of_is(newv, u, doc_idx_of(dv, u));
                        } else {
                            assert forall|m: int| 0 <= m < newv.len() implies newv[m].url != u by {
                                if m != i as int {
                                    assert(newv[m] == dv[m]);
                                }
                            }
                            lemma_doc_idx_of_none(newv, u);
                        }
                    }
                }
                return ;
            }
            i = i + 1;
        }
        proof {
            lemma_doc_idx_of_props(dv, dw.url);
        }
        let ghost dvw = d@;
        self.docs.push(d);
        proof {
            let newv = self.docs_v();
            assert(newv =~= dv.push(dvw));
            lemma_doc_idx_of_is(newv, dvw.url, dv.len() as int);
            assert forall|u: Seq<char>| u != dvw.url implies #[trigger] final(self).stored(u)
                == old(self).stored(u) by {
                lemma_doc_idx_of_props(dv, u);
                if doc_idx_of(dv, u) < dv.len() {
                    lemma_doc_idx_of_is(newv, u, doc_idx_of(dv, u));
                } else {
                    assert forall|m: int| 0 <= m < newv.len() implies newv[m].url != u by {
                        if m < dv.len() {
                            assert(newv[m] == dv[m]);
                        } else {
                            assert(newv[m] == dvw);
                        }
                    }
                    lemma_doc_idx_of_none(newv, u);
                }
            }
        }
    }
}

} // verus!
