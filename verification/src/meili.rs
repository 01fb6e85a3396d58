//! The full-text search index: one document per indexed object, filterable
//! by owner and sortable by recency.
//!
//! The real index is an external service. `MeiliClient` is the exact model
//! of its visible state — the upserted documents plus a queue of scripted
//! outcomes for upcoming writes — and its query returns the owner's matching
//! documents, newest first, one fixed-size page at a time.

use vstd::prelude::*;

use crate::error::StoreFault;
use crate::storage::{spec_faults_after, spec_put_fails};
use crate::strutil::{spec_contains_sub, str_contains_sub};

verus! {

/// How many hits one query page carries.
pub const SEARCH_PAGE_SIZE: usize = 16;

/// One indexed document: the text extracted from an object.
#[verifier::ext_equal]
#[derive(Debug)]
pub struct ObjectOcrDoc {
    pub id: u64,
    pub user_id: u64,
    pub content: String,
    pub created_at: i64,
}

impl Clone for ObjectOcrDoc {
    fn clone(&self) -> (r: Self)
        ensures
            r == *self,
    {
        ObjectOcrDoc {
            id: self.id,
            user_id: self.user_id,
            content: self.content.clone(),
            created_at: self.created_at,
        }
    }
}

/// The document stored under `id`, if any.
pub open spec fn spec_get_doc(docs: Seq<ObjectOcrDoc>, id: u64) -> Option<ObjectOcrDoc>
    decreases docs.len(),
{
    if docs.len() == 0 {
        None
    } else if docs.first().id == id {
        Some(docs.first())
    } else {
        spec_get_doc(docs.drop_first(), id)
    }
}

/// `docs` with the document under `doc.id` replaced by `doc`, or `doc`
/// appended when the id is new: an upsert keyed by id.
pub open spec fn spec_upsert_doc(docs: Seq<ObjectOcrDoc>, doc: ObjectOcrDoc) -> Seq<ObjectOcrDoc>
    decreases docs.len(),
{
    if docs.len() == 0 {
        seq![doc]
    } else if docs.first().id == doc.id {
        seq![doc] + docs.drop_first()
    } else {
        seq![docs.first()] + spec_upsert_doc(docs.drop_first(), doc)
    }
}

/// The documents a query matches: owned by `user_id`, containing `q`.
pub open spec fn spec_filter_docs(docs: Seq<ObjectOcrDoc>, user_id: u64, q: Seq<char>) -> Seq<
    ObjectOcrDoc,
>
    decreases docs.len(),
{
    if docs.len() == 0 {
        Seq::<ObjectOcrDoc>::empty()
    } else {
        spec_filter_docs(docs.drop_last(), user_id, q) + if docs.last().user_id == user_id
            && spec_contains_sub(docs.last().content@, q) {
            seq![docs.last()]
        } else {
            Seq::<ObjectOcrDoc>::empty()
        }
    }
}

/// Insertion, newest first, before the first document that is as recent or
/// older.
pub open spec fn spec_insert_desc(s: Seq<ObjectOcrDoc>, d: ObjectOcrDoc) -> Seq<ObjectOcrDoc>
    decreases s.len(),
{
    if s.len() == 0 {
        seq![d]
    } else if d.created_at >= s.first().created_at {
        seq![d] + s
    } else {
        seq![s.first()] + spec_insert_desc(s.drop_first(), d)
    }
}

/// Insertion sort by `created_at`, newest first.
pub open spec fn spec_sort_desc(s: Seq<ObjectOcrDoc>) -> Seq<ObjectOcrDoc>
    decreases s.len(),
{
    if s.len() == 0 {
        Seq::<ObjectOcrDoc>::empty()
    } else {
        spec_insert_desc(spec_sort_desc(s.drop_last()), s.last())
    }
}

/// One page of query results: the matches, newest first, from `offset` on.
pub open spec fn spec_search(
    docs: Seq<ObjectOcrDoc>,
    user_id: u64,
    q: Seq<char>,
    offset: int,
) -> Seq<ObjectOcrDoc> {
    let sorted = spec_sort_desc(spec_filter_docs(docs, user_id, q));
    if offset >= sorted.len() {
        Seq::<ObjectOcrDoc>::empty()
    } else if offset + SEARCH_PAGE_SIZE as int <= sorted.len() {
        sorted.subrange(offset, offset + SEARCH_PAGE_SIZE as int)
    } else {
        sorted.subrange(offset, sorted.len() as int)
    }
}

/// No two documents share an id.
pub open spec fn docs_ids_unique(docs: Seq<ObjectOcrDoc>) -> bool {
    forall|i: int, j: int|
        0 <= i < j < docs.len() ==> (#[trigger] docs[i]).id != (#[trigger] docs[j]).id
}

/// The model of the external search index.
pub struct MeiliClient {
    /// The indexed documents.
    pub docs: Vec<ObjectOcrDoc>,
    /// Scripted outcomes for upcoming writes; an empty queue means success.
    pub index_faults: Vec<bool>,
}

impl MeiliClient {
    /// The index invariant every operation preserves.
    pub open spec fn wf(&self) -> bool {
        docs_ids_unique(self.docs@)
    }

    /// A fresh, empty index whose writes succeed.
    pub fn new() -> (c: MeiliClient)
        ensures
            c.wf(),
            c.docs@ == Seq::<ObjectOcrDoc>::empty(),
            c.index_faults@ == Seq::<bool>::empty(),
    {
        MeiliClient { docs: Vec::new(), index_faults: Vec::new() }
    }

    /// Upserts the extracted text of one object, keyed by its id, unless the
    /// index refuses the write.
    pub fn index_object(&mut self, id: u64, user_id: u64, text: String, now: i64) -> (r: Result<
        (),
        StoreFault,
    >)
        requires
            old(self).wf(),
        ensures
            final(self).wf(),
            final(self).index_faults@ == spec_faults_after(old(self).index_faults@),
            spec_put_fails(old(self).index_faults@) ==> r == Err::<(), StoreFault>(
                StoreFault::IndexWriteFailed,
            ) && final(self).docs@ == old(self).docs@,
            !spec_put_fails(old(self).index_faults@) ==> (r is Ok
                && final(self).docs@ == spec_upsert_doc(
                old(self).docs@,
                ObjectOcrDoc { id, user_id, content: text, created_at: now },
            )),
    {
        let failed = if self.index_faults.len() > 0 {
            let f = self.index_faults.remove(0);
            f
        } else {
            false
        };
        if failed {
            return Err(StoreFault::IndexWriteFailed);
        }
        let doc = ObjectOcrDoc { id, user_id, content: text, created_at: now };
        let ghost gdoc = doc;
        let n = self.docs.len();
        let mut i: usize = 0;
        while i < n
            invariant
                i <= n,
                n == self.docs@.len(),
                self.docs@ == old(self).docs@,
                self.index_faults@ == spec_faults_after(old(self).index_faults@),
                forall|j: int| 0 <= j < i ==> (#[trigger] self.docs@[j]).id != id,
            decreases n - i,
        {
            if self.docs[i].id == id {
                let ghost docs0 = self.docs@;
                self.docs.set(i, doc);
                proof {
                    lemma_upsert_doc_at(docs0, gdoc, i as int);
                    assert forall|a: int, b: int| 0 <= a < b < self.docs@.len() implies (
                    #[trigger] self.docs@[a]).id != (#[trigger] self.docs@[b]).id by {
                        if a != i as int {
                            assert(self.docs@[a] == docs0[a]);
                        }
                        if b != i as int {
                            assert(self.docs@[b] == docs0[b]);
                        }
                    }
                }
                return Ok(());
            }
            i = i + 1;
        }
        let ghost docs0 = self.docs@;
        self.docs.push(doc);
        proof {
            lemma_upsert_doc_append(docs0, gdoc);
            assert forall|a: int, b: int| 0 <= a < b < self.docs@.len() implies (
            #[trigger] self.docs@[a]).id != (#[trigger] self.docs@[b]).id by {
                if b < self.docs@.len() - 1 {
                    assert(self.docs@[a] == docs0[a]);
                    assert(self.docs@[b] == docs0[b]);
                } else {
                    assert(self.docs@[a] == docs0[a]);
                }
            }
        }
        Ok(())
    }

    /// One page of this owner's documents whose content contains the query,
    /// newest first.
    pub fn search_objects(&self, user_id: u64, text: &str, offset: usize) -> (hits: Vec<
        ObjectOcrDoc,
    >)
        ensures
            hits@ == spec_search(self.docs@, user_id, text@, offset as int),
    {
        let n = self.docs.len();
        let mut matched: Vec<ObjectOcrDoc> = Vec::new();
        let mut i: usize = 0;
        while i < n
            invariant
                i <= n,
                n == self.docs@.len(),
                matched@ == spec_filter_docs(self.docs@.take(i as int), user_id, text@),
            decreases n - i,
        {
            let d = &self.docs[i];
            if d.user_id == user_id && str_contains_sub(d.content.as_str(), text) {
                matched.push(d.clone());
            }
            i = i + 1;
            proof {
                assert(self.docs@.take(i as int).drop_last() =~= self.docs@.take(i - 1));
                assert(self.docs@.take(i as int).last() == self.docs@[i - 1]);
            }
        }
        proof {
            assert(self.docs@.take(n as int) =~= self.docs@);
        }
        let m = matched.len();
        let mut sorted: Vec<ObjectOcrDoc> = Vec::new();
        let mut i: usize = 0;
        while i < m
            invariant
                i <= m,
                m == matched@.len(),
                sorted@ == spec_sort_desc(matched@.take(i as int)),
            decreases m - i,
        {
            insert_desc(&mut sorted, matched[i].clone());
            i = i + 1;
            proof {
                assert(matched@.take(i as int).drop_last() =~= matched@.take(i - 1));
                assert(matched@.take(i as int).last() == matched@[i - 1]);
            }
        }
        proof {
            assert(matched@.take(m as int) =~= matched@);
        }
        let s = sorted.len();
        let mut hits: Vec<ObjectOcrDoc> = Vec::new();
        if offset >= s {
            proof {
                assert(hits@ =~= spec_search(self.docs@, user_id, text@, offset as int));
            }
            return hits;
        }
        let end = if s - offset > SEARCH_PAGE_SIZE {
            offset + SEARCH_PAGE_SIZE
        } else {
            s
        };
        let mut k: usize = offset;
        while k < end
            invariant
                offset <= k <= end <= s,
                s == sorted@.len(),
                hits@ == sorted@.subrange(offset as int, k as int),
            decreases end - k,
        {
            hits.push(sorted[k].clone());
            k = k + 1;
            proof {
                assert(sorted@.subrange(offset as int, k as int) =~= sorted@.subrange(
                    offset as int,
                    k - 1,
                ).push(sorted@[k - 1]));
            }
        }
        proof {
            assert(hits@ =~= spec_search(self.docs@, user_id, text@, offset as int));
        }
        hits
    }
}

/// Inserts a document into a recency-sorted vector at its place.
fn insert_desc(sorted: &mut Vec<ObjectOcrDoc>, d: ObjectOcrDoc)
    ensures
        final(sorted)@ == spec_insert_desc(old(sorted)@, d),
{
    let ghost gd = d;
    let n = sorted.len();
    let mut j: usize = 0;
    while j < n && d.created_at < sorted[j].created_at
        invariant
            j <= n,
            n == sorted@.len(),
            *sorted == *old(sorted),
            forall|j0: int| 0 <= j0 < j ==> gd.created_at < (#[trigger] sorted@[j0]).created_at,
        decreases n - j,
    {
        j = j + 1;
    }
    proof {
        lemma_insert_desc_at(sorted@, gd, j as int);
    }
    sorted.insert(j, d);
}

/// With no earlier insertion point, `spec_insert_desc` places the document
/// at index `j`.
proof fn lemma_insert_desc_at(s: Seq<ObjectOcrDoc>, d: ObjectOcrDoc, j: int)
    requires
        0 <= j <= s.len(),
        forall|j0: int| 0 <= j0 < j ==> d.created_at < (#[trigger] s[j0]).created_at,
        j < s.len() ==> d.created_at >= s[j].created_at,
    ensures
        spec_insert_desc(s, d) == s.insert(j, d),
    decreases j,
{
    if s.len() == 0 {
        assert(spec_insert_desc(s, d) =~= s.insert(0, d));
    } else if j == 0 {
        assert(spec_insert_desc(s, d) == seq![d] + s);
        assert(seq![d] + s =~= s.insert(0, d));
    } else {
        let rest = s.drop_first();
        assert(forall|j0: int| 0 <= j0 < rest.len() ==> rest[j0] == s[j0 + 1]);
        lemma_insert_desc_at(rest, d, j - 1);
        assert(spec_insert_desc(s, d) == seq![s.first()] + rest.insert(j - 1, d));
        assert(seq![s.first()] + rest.insert(j - 1, d) =~= s.insert(j, d));
    }
}

/// Replacing the first id match at index `k` updates exactly that element.
proof fn lemma_upsert_doc_at(docs: Seq<ObjectOcrDoc>, doc: ObjectOcrDoc, k: int)
    requires
        0 <= k < docs.len(),
        docs[k].id == doc.id,
        forall|j: int| 0 <= j < k ==> (#[trigger] docs[j]).id != doc.id,
    ensures
        spec_upsert_doc(docs, doc) == docs.update(k, doc),
    decreases k,
{
    if k == 0 {
        assert(seq![doc] + docs.drop_first() =~= docs.update(0, doc));
    } else {
        let rest = docs.drop_first();
        assert(forall|j: int| 0 <= j < rest.len() ==> rest[j] == docs[j + 1]);
        lemma_upsert_doc_at(rest, doc, k - 1);
        assert(seq![docs.first()] + rest.update(k - 1, doc) =~= docs.update(k, doc));
    }
}

/// After an upsert, looking the id up finds exactly the written document.
pub proof fn lemma_upsert_doc_found(docs: Seq<ObjectOcrDoc>, doc: ObjectOcrDoc)
    ensures
        spec_get_doc(spec_upsert_doc(docs, doc), doc.id) == Some(doc),
    decreases docs.len(),
{
    if docs.len() == 0 {
        assert(spec_upsert_doc(docs, doc).first() == doc);
    } else if docs.first().id == doc.id {
        assert(spec_upsert_doc(docs, doc).first() == doc);
    } else {
        let rest = docs.drop_first();
        lemma_upsert_doc_found(rest, doc);
        let up = spec_upsert_doc(docs, doc);
        assert(up.first() == docs.first());
        assert(up.drop_first() =~= spec_upsert_doc(rest, doc));
    }
}

/// Upserting a new id appends the document.
proof fn lemma_upsert_doc_append(docs: Seq<ObjectOcrDoc>, doc: ObjectOcrDoc)
    requires
        forall|j: int| 0 <= j < docs.len() ==> (#[trigger] docs[j]).id != doc.id,
    ensures
        spec_upsert_doc(docs, doc) == docs.push(doc),
    decreases docs.len(),
{
    if docs.len() == 0 {
        assert(spec_upsert_doc(docs, doc) =~= docs.push(doc));
    } else {
        let rest = docs.drop_first();
        assert(forall|j: int| 0 <= j < rest.len() ==> rest[j] == docs[j + 1]);
        lemma_upsert_doc_append(rest, doc);
        assert(seq![docs.first()] + rest.push(doc) =~= docs.push(doc));
    }
}

} // verus!
