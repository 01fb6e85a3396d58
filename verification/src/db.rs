//! The metadata catalog: one row per stored object, with the invariants the
//! rest of the pipeline relies on.
//!
//! The durable catalog is an external transactional store. `PgClient` is the
//! exact model of its visible state — the committed rows plus a switch that
//! makes the next batch commit fail — and every operation's contract says
//! precisely how the rows change. The embedding application mirrors each
//! committed mutation to the real store.

use vstd::prelude::*;

use crate::error::{ApiError, StoreFault};
use crate::flags::{
    flag_set, spec_eligible_for_indexing, spec_supported_image_type, COF_INDEXED, COF_SEARCHABLE,
};
use crate::hex::{u64_hex_of, u64_to_hex};
use crate::strutil::str_eq;

verus! {

use vstd::pervasive::VecAdditionalExecFns;

/// A pending creation request: everything known about a freshly uploaded
/// blob before its catalog row is committed.
#[verifier::ext_equal]
#[derive(Debug)]
pub struct CreateCdnObject {
    pub id: u64,
    pub user_id: u64,
    pub content_type: String,
    pub content_size: u64,
    pub hash: String,
    pub file_name: String,
}

/// One catalog row.
#[verifier::ext_equal]
#[derive(Debug)]
pub struct CdnObject {
    pub id: u64,
    pub user_id: u64,
    pub uploaded_at: i64,
    pub content_type: String,
    pub content_size: u64,
    pub file_name: String,
    pub slug: Option<String>,
    pub is_public: bool,
    pub sha256_hash: String,
    pub flags: u64,
}

impl Clone for CdnObject {
    fn clone(&self) -> (r: Self)
        ensures
            r == *self,
    {
        let r = CdnObject {
            id: self.id,
            user_id: self.user_id,
            uploaded_at: self.uploaded_at,
            content_type: self.content_type.clone(),
            content_size: self.content_size,
            file_name: self.file_name.clone(),
            slug: match &self.slug {
                Some(s) => Some(s.clone()),
                None => None,
            },
            is_public: self.is_public,
            sha256_hash: self.sha256_hash.clone(),
            flags: self.flags,
        };
        r
    }
}

impl Clone for CreateCdnObject {
    fn clone(&self) -> (r: Self)
        ensures
            r == *self,
    {
        CreateCdnObject {
            id: self.id,
            user_id: self.user_id,
            content_type: self.content_type.clone(),
            content_size: self.content_size,
            hash: self.hash.clone(),
            file_name: self.file_name.clone(),
        }
    }
}

/// Some live row of `rows` carries this owner's content hash: the
/// deduplication test.
pub open spec fn spec_find_hash(rows: Seq<CdnObject>, user_id: u64, h: Seq<char>) -> bool {
    exists|i: int|
        0 <= i < rows.len() && (#[trigger] rows[i]).user_id == user_id && rows[i].sha256_hash@ == h
}

/// Some row of `rows` has this object id.
pub open spec fn spec_has_id(rows: Seq<CdnObject>, id: u64) -> bool {
    exists|i: int| 0 <= i < rows.len() && (#[trigger] rows[i]).id == id
}

/// The first row owned by `user_id` under `object_id`, if any.
pub open spec fn spec_fetch(rows: Seq<CdnObject>, user_id: u64, object_id: u64) -> Option<
    CdnObject,
>
    decreases rows.len(),
{
    if rows.len() == 0 {
        None
    } else if rows.first().user_id == user_id && rows.first().id == object_id {
        Some(rows.first())
    } else {
        spec_fetch(rows.drop_first(), user_id, object_id)
    }
}

/// The first row published under `slug`, if any.
pub open spec fn spec_fetch_slug(rows: Seq<CdnObject>, slug: Seq<char>) -> Option<CdnObject>
    decreases rows.len(),
{
    if rows.len() == 0 {
        None
    } else if match rows.first().slug {
        Some(s) => s@ == slug,
        None => false,
    } {
        Some(rows.first())
    } else {
        spec_fetch_slug(rows.drop_first(), slug)
    }
}

/// The rows one scheduler tick selects: searchable and not yet indexed, in
/// catalog order.
pub open spec fn spec_select_unindexed(rows: Seq<CdnObject>) -> Seq<CdnObject>
    decreases rows.len(),
{
    if rows.len() == 0 {
        Seq::<CdnObject>::empty()
    } else {
        spec_select_unindexed(rows.drop_last()) + if spec_eligible_for_indexing(
            rows.last().flags,
        ) {
            seq![rows.last()]
        } else {
            Seq::<CdnObject>::empty()
        }
    }
}

/// The rows left after deleting this owner's listed object ids.
pub open spec fn spec_delete_rows(rows: Seq<CdnObject>, user_id: u64, ids: Seq<u64>) -> Seq<
    CdnObject,
>
    decreases rows.len(),
{
    if rows.len() == 0 {
        Seq::<CdnObject>::empty()
    } else {
        spec_delete_rows(rows.drop_last(), user_id, ids) + if rows.last().user_id == user_id
            && ids.contains(rows.last().id) {
            Seq::<CdnObject>::empty()
        } else {
            seq![rows.last()]
        }
    }
}

/// The row `r` with `bits` OR-ed onto its flags.
pub open spec fn spec_with_flags_or(r: CdnObject, bits: u64) -> CdnObject {
    CdnObject {
        id: r.id,
        user_id: r.user_id,
        uploaded_at: r.uploaded_at,
        content_type: r.content_type,
        content_size: r.content_size,
        file_name: r.file_name,
        slug: r.slug,
        is_public: r.is_public,
        sha256_hash: r.sha256_hash,
        flags: r.flags | bits,
    }
}

/// The row `r` published under `slug`.
pub open spec fn spec_published(r: CdnObject, slug: String) -> CdnObject {
    CdnObject {
        id: r.id,
        user_id: r.user_id,
        uploaded_at: r.uploaded_at,
        content_type: r.content_type,
        content_size: r.content_size,
        file_name: r.file_name,
        slug: Some(slug),
        is_public: true,
        sha256_hash: r.sha256_hash,
        flags: r.flags,
    }
}

/// No two rows share an object id.
pub open spec fn rows_ids_unique(rows: Seq<CdnObject>) -> bool {
    forall|i: int, j: int|
        0 <= i < j < rows.len() ==> (#[trigger] rows[i]).id != (#[trigger] rows[j]).id
}

/// No two live rows of one owner share a content hash.
pub open spec fn rows_hashes_unique(rows: Seq<CdnObject>) -> bool {
    forall|i: int, j: int|
        0 <= i < j < rows.len() ==> !((#[trigger] rows[i]).user_id == (#[trigger] rows[j]).user_id
            && rows[i].sha256_hash@ == rows[j].sha256_hash@)
}

/// Per-row well-formedness: a slug exists exactly on published rows, and the
/// searchable bit is set only for allowlisted image content types.
pub open spec fn row_wf(r: CdnObject) -> bool {
    &&& r.is_public <==> r.slug is Some
    &&& flag_set(r.flags, COF_SEARCHABLE) ==> spec_supported_image_type(r.content_type@)
}

/// The model of the relational catalog: the committed rows, plus a switch
/// that makes the next transactional batch commit fail.
pub struct PgClient {
    pub rows: Vec<CdnObject>,
    pub fail_next_commit: bool,
}

impl PgClient {
    /// The catalog invariant every operation preserves.
    pub open spec fn wf(&self) -> bool {
        &&& rows_ids_unique(self.rows@)
        &&& rows_hashes_unique(self.rows@)
        &&& forall|i: int| 0 <= i < self.rows@.len() ==> row_wf(#[trigger] self.rows@[i])
    }

    /// A fresh, empty catalog whose commits succeed.
    pub fn new() -> (c: PgClient)
        ensures
            c.wf(),
            c.rows@ == Seq::<CdnObject>::empty(),
            !c.fail_next_commit,
    {
        PgClient { rows: Vec::new(), fail_next_commit: false }
    }

    /// Does this owner already store content with this hash?
    pub fn find_existing_hash(&self, user_id: u64, hash: &str) -> (r: bool)
        ensures
            r == spec_find_hash(self.rows@, user_id, hash@),
    {
        let n = self.rows.len();
        let mut i: usize = 0;
        while i < n
            invariant
                n == self.rows@.len(),
                i <= n,
                forall|j: int|
                    0 <= j < i ==> !((#[trigger] self.rows@[j]).user_id == user_id
                        && self.rows@[j].sha256_hash@ == hash@),
            decreases n - i,
        {
            let row = &self.rows[i];
            if row.user_id == user_id && str_eq(row.sha256_hash.as_str(), hash) {
                return true;
            }
            i = i + 1;
        }
        false
    }

    /// Atomically commits one upload batch: either every row becomes
    /// visible, or — when the transaction fails — none does and the rows are
    /// handed back for compensation.
    pub fn commit_batch(&mut self, rows: Vec<CdnObject>) -> (r: Result<Vec<CdnObject>, StoreFault>)
        requires
            old(self).wf(),
            forall|k: int| 0 <= k < rows@.len() ==> row_wf(#[trigger] rows@[k]),
            forall|k: int, l: int|
                0 <= k < l < rows@.len() ==> (#[trigger] rows@[k]).id != (#[trigger] rows@[l]).id,
            forall|k: int, l: int|
                0 <= k < l < rows@.len() ==> !((#[trigger] rows@[k]).user_id
                    == (#[trigger] rows@[l]).user_id && rows@[k].sha256_hash@
                    == rows@[l].sha256_hash@),
            forall|k: int| 0 <= k < rows@.len() ==> !spec_has_id(old(self).rows@, (#[trigger] rows@[k]).id),
            forall|k: int|
                0 <= k < rows@.len() ==> !spec_find_hash(
                    old(self).rows@,
                    (#[trigger] rows@[k]).user_id,
                    rows@[k].sha256_hash@,
                ),
        ensures
            final(self).wf(),
            !final(self).fail_next_commit,
            old(self).fail_next_commit ==> r == Err::<Vec<CdnObject>, StoreFault>(
                StoreFault::CommitFailed,
            ) && final(self).rows@ == old(self).rows@,
            !old(self).fail_next_commit ==> r == Ok::<Vec<CdnObject>, StoreFault>(rows)
                && final(self).rows@ == old(self).rows@ + rows@,
    {
        if self.fail_next_commit {
            self.fail_next_commit = false;
            return Err(StoreFault::CommitFailed);
        }
        let ghost rows0 = self.rows@;
        let n = rows.len();
        let mut i: usize = 0;
        while i < n
            invariant
                n == rows@.len(),
                i <= n,
                self.rows@ == rows0 + rows@.take(i as int),
                self.fail_next_commit == false,
            decreases n - i,
        {
            let row = rows[i].clone();
            self.rows.push(row);
            i = i + 1;
            proof {
                assert(rows@.take(i as int) =~= rows@.take(i - 1).push(rows@[i - 1]));
                assert(self.rows@ =~= rows0 + rows@.take(i as int));
            }
        }
        proof {
            assert(rows@.take(n as int) =~= rows@);
            lemma_commit_preserves_wf(rows0, rows@);
        }
        Ok(rows)
    }

    /// OR `bits` onto the flags of the row with this id, if it exists.
    /// `bits` must not carry `COF_SEARCHABLE`: searchability is decided once,
    /// at creation, from the content type.
    pub fn update_flags_or(&mut self, object_id: u64, bits: u64) -> (found: bool)
        requires
            old(self).wf(),
            bits & COF_SEARCHABLE == 0,
        ensures
            final(self).wf(),
            final(self).fail_next_commit == old(self).fail_next_commit,
            found == spec_has_id(old(self).rows@, object_id),
            !found ==> final(self).rows@ == old(self).rows@,
            found ==> exists|k: int|
                0 <= k < old(self).rows@.len() && (#[trigger] old(self).rows@[k]).id == object_id
                    && final(self).rows@ == old(self).rows@.update(
                    k,
                    spec_with_flags_or(old(self).rows@[k], bits),
                ),
    {
        let n = self.rows.len();
        let mut i: usize = 0;
        while i < n
            invariant
                n == self.rows@.len(),
                i <= n,
                self.rows@ == old(self).rows@,
                self.fail_next_commit == old(self).fail_next_commit,
                forall|j: int| 0 <= j < i ==> (#[trigger] self.rows@[j]).id != object_id,
            decreases n - i,
        {
            if self.rows[i].id == object_id {
                let mut row = self.rows[i].clone();
                proof {
                    crate::flags::lemma_or_without_bit(row.flags, bits, COF_SEARCHABLE);
                }
                row.flags = row.flags | bits;
                let ghost rows0 = self.rows@;
                self.rows.set(i, row);
                proof {
                    assert(self.rows@ =~= rows0.update(
                        i as int,
                        spec_with_flags_or(rows0[i as int], bits),
                    ));
                    lemma_update_one_preserves_wf(rows0, i as int, bits);
                    assert(old(self).rows@[i as int].id == object_id);
                }
                return true;
            }
            i = i + 1;
        }
        false
    }

    /// The rows one scheduler tick works through: searchable, not indexed.
    pub fn select_searchable_unindexed(&self) -> (objs: Vec<CdnObject>)
        ensures
            objs@ == spec_select_unindexed(self.rows@),
    {
        let n = self.rows.len();
        let mut objs: Vec<CdnObject> = Vec::new();
        let mut i: usize = 0;
        while i < n
            invariant
                n == self.rows@.len(),
                i <= n,
                objs@ == spec_select_unindexed(self.rows@.take(i as int)),
            decreases n - i,
        {
            let row = &self.rows[i];
            if crate::flags::eligible_for_indexing(row.flags) {
                objs.push(row.clone());
            }
            i = i + 1;
            proof {
                assert(self.rows@.take(i as int).drop_last() =~= self.rows@.take(i - 1));
                assert(self.rows@.take(i as int).last() == self.rows@[i - 1]);
            }
        }
        proof {
            assert(self.rows@.take(n as int) =~= self.rows@);
        }
        objs
    }

    /// The row this owner stores under this object id.
    pub fn fetch_cdn_object(&self, user_id: u64, object_id: u64) -> (r: Result<CdnObject, ApiError>)
        ensures
            r == match spec_fetch(self.rows@, user_id, object_id) {
                Some(o) => Ok::<CdnObject, ApiError>(o),
                None => Err::<CdnObject, ApiError>(ApiError::CdnObjectNotFound),
            },
    {
        let n = self.rows.len();
        let mut i: usize = 0;
        proof {
            assert(self.rows@.skip(0) == self.rows@);
        }
        while i < n
            invariant
                n == self.rows@.len(),
                i <= n,
                spec_fetch(self.rows@, user_id, object_id) == spec_fetch(
                    self.rows@.skip(i as int),
                    user_id,
                    object_id,
                ),
            decreases n - i,
        {
            proof {
                let rest = self.rows@.skip(i as int);
                assert(rest.first() == self.rows@[i as int]);
                assert(rest.drop_first() =~= self.rows@.skip(i as int + 1));
            }
            let row = &self.rows[i];
            if row.user_id == user_id && row.id == object_id {
                return Ok(row.clone());
            }
            i = i + 1;
        }
        proof {
            assert(self.rows@.skip(n as int) =~= Seq::<CdnObject>::empty());
        }
        Err(ApiError::CdnObjectNotFound)
    }

    /// The row published under this slug.
    pub fn fetch_cdn_object_slug(&self, slug: &str) -> (r: Result<CdnObject, ApiError>)
        ensures
            r == match spec_fetch_slug(self.rows@, slug@) {
                Some(o) => Ok::<CdnObject, ApiError>(o),
                None => Err::<CdnObject, ApiError>(ApiError::CdnObjectNotFound),
            },
    {
        let n = self.rows.len();
        let mut i: usize = 0;
        proof {
            assert(self.rows@.skip(0) == self.rows@);
        }
        while i < n
            invariant
                n == self.rows@.len(),
                i <= n,
                spec_fetch_slug(self.rows@, slug@) == spec_fetch_slug(
                    self.rows@.skip(i as int),
                    slug@,
                ),
            decreases n - i,
        {
            proof {
                let rest = self.rows@.skip(i as int);
                assert(rest.first() == self.rows@[i as int]);
                assert(rest.drop_first() =~= self.rows@.skip(i as int + 1));
            }
            let row = &self.rows[i];
            let hit = match &row.slug {
                Some(s) => str_eq(s.as_str(), slug),
                None => false,
            };
            if hit {
                return Ok(row.clone());
            }
            i = i + 1;
        }
        proof {
            assert(self.rows@.skip(n as int) =~= Seq::<CdnObject>::empty());
        }
        Err(ApiError::CdnObjectNotFound)
    }

    /// Removes this owner's rows for the listed object ids.
    pub fn delete_cdn_objects(&mut self, user_id: u64, objects: &Vec<u64>)
        requires
            old(self).wf(),
        ensures
            final(self).wf(),
            final(self).fail_next_commit == old(self).fail_next_commit,
            final(self).rows@ == spec_delete_rows(old(self).rows@, user_id, objects@),
    {
        let n = self.rows.len();
        let mut kept: Vec<CdnObject> = Vec::new();
        let mut i: usize = 0;
        while i < n
            invariant
                n == self.rows@.len(),
                i <= n,
                kept@ == spec_delete_rows(self.rows@.take(i as int), user_id, objects@),
            decreases n - i,
        {
            let row = &self.rows[i];
            if !(row.user_id == user_id && ids_contain(objects, row.id)) {
                kept.push(row.clone());
            }
            i = i + 1;
            proof {
                assert(self.rows@.take(i as int).drop_last() =~= self.rows@.take(i - 1));
                assert(self.rows@.take(i as int).last() == self.rows@[i - 1]);
            }
        }
        proof {
            assert(self.rows@.take(n as int) =~= self.rows@);
            lemma_delete_rows_sub(self.rows@, user_id, objects@);
        }
        self.rows = kept;
    }

    /// Derives the slug for an object id and publishes the row under it.
    /// The row, if present, must not already be public: a slug is immutable
    /// once set.
    pub fn create_slug_and_publish(&mut self, object_id: u64) -> (r: Result<String, ApiError>)
        requires
            old(self).wf(),
            forall|i: int|
                0 <= i < old(self).rows@.len() && (#[trigger] old(self).rows@[i]).id == object_id
                    ==> !old(self).rows@[i].is_public,
        ensures
            final(self).wf(),
            final(self).fail_next_commit == old(self).fail_next_commit,
            r is Ok,
            r matches Ok(s) ==> s@ == u64_hex_of(object_id),
            !spec_has_id(old(self).rows@, object_id) ==> final(self).rows@ == old(self).rows@,
            spec_has_id(old(self).rows@, object_id) ==> exists|k: int, s: String|
                0 <= k < old(self).rows@.len() && old(self).rows@[k].id == object_id && s@
                    == u64_hex_of(object_id) && final(self).rows@ == old(self).rows@.update(
                    k,
                    #[trigger] spec_published(old(self).rows@[k], s),
                ),
    {
        let slug = u64_to_hex(object_id);
        let n = self.rows.len();
        let mut i: usize = 0;
        while i < n
            invariant
                n == self.rows@.len(),
                i <= n,
                self.rows@ == old(self).rows@,
                self.fail_next_commit == old(self).fail_next_commit,
                forall|j: int| 0 <= j < i ==> (#[trigger] self.rows@[j]).id != object_id,
            decreases n - i,
        {
            if self.rows[i].id == object_id {
                let mut row = self.rows[i].clone();
                let s2 = slug.clone();
                let ghost gs = s2;
                row.slug = Some(s2);
                row.is_public = true;
                let ghost rows0 = self.rows@;
                proof {
                    assert(row =~= spec_published(rows0[i as int], gs));
                }
                self.rows.set(i, row);
                proof {
                    assert(self.rows@ =~= rows0.update(
                        i as int,
                        spec_published(rows0[i as int], gs),
                    ));
                    lemma_publish_preserves_wf(rows0, i as int, gs);
                    assert(old(self).rows@[i as int].id == object_id);
                    assert(self.rows@ == old(self).rows@.update(
                        i as int,
                        spec_published(old(self).rows@[i as int], gs),
                    ));
                }
                return Ok(slug);
            }
            i = i + 1;
        }
        Ok(slug)
    }
}

/// This owner's rows, in catalog order.
pub open spec fn spec_filter_user(rows: Seq<CdnObject>, user_id: u64) -> Seq<CdnObject>
    decreases rows.len(),
{
    if rows.len() == 0 {
        Seq::<CdnObject>::empty()
    } else {
        spec_filter_user(rows.drop_last(), user_id) + if rows.last().user_id == user_id {
            seq![rows.last()]
        } else {
            Seq::<CdnObject>::empty()
        }
    }
}

/// Insertion, most recent first, before the first row that is as recent or
/// older.
pub open spec fn spec_insert_row_desc(s: Seq<CdnObject>, r: CdnObject) -> Seq<CdnObject>
    decreases s.len(),
{
    if s.len() == 0 {
        seq![r]
    } else if r.uploaded_at >= s.first().uploaded_at {
        seq![r] + s
    } else {
        seq![s.first()] + spec_insert_row_desc(s.drop_first(), r)
    }
}

/// Insertion sort by upload time, most recent first.
pub open spec fn spec_sort_rows_desc(s: Seq<CdnObject>) -> Seq<CdnObject>
    decreases s.len(),
{
    if s.len() == 0 {
        Seq::<CdnObject>::empty()
    } else {
        spec_insert_row_desc(spec_sort_rows_desc(s.drop_last()), s.last())
    }
}

/// One page of a listing: this owner's rows, most recent first, `skip`
/// rows in and at most `limit` long.
pub open spec fn spec_list(rows: Seq<CdnObject>, user_id: u64, limit: int, skip: int) -> Seq<
    CdnObject,
> {
    let sorted = spec_sort_rows_desc(spec_filter_user(rows, user_id));
    if skip >= sorted.len() {
        Seq::<CdnObject>::empty()
    } else if skip + limit <= sorted.len() {
        sorted.subrange(skip, skip + limit)
    } else {
        sorted.subrange(skip, sorted.len() as int)
    }
}

/// Membership test for a list of object ids.
pub fn ids_contain(ids: &Vec<u64>, x: u64) -> (r: bool)
    ensures
        r == ids@.contains(x),
{
    let n = ids.len();
    let mut i: usize = 0;
    while i < n
        invariant
            n == ids@.len(),
            i <= n,
            forall|j: int| 0 <= j < i ==> ids@[j] != x,
        decreases n - i,
    {
        if ids[i] == x {
            return true;
        }
        i = i + 1;
    }
    false
}

/// Builds the catalog row an accepted creation request commits as.
pub fn create_cdn_object(obj: CreateCdnObject, flags: u64, now: i64) -> (row: CdnObject)
    ensures
        row.id == obj.id,
        row.user_id == obj.user_id,
        row.uploaded_at == now,
        row.content_type == obj.content_type,
        row.content_size == obj.content_size,
        row.file_name == obj.file_name,
        row.slug == None::<String>,
        !row.is_public,
        row.sha256_hash == obj.hash,
        row.flags == flags,
{
    CdnObject {
        id: obj.id,
        user_id: obj.user_id,
        uploaded_at: now,
        content_type: obj.content_type,
        content_size: obj.content_size,
        file_name: obj.file_name,
        slug: None,
        is_public: false,
        sha256_hash: obj.hash,
        flags,
    }
}

impl PgClient {
    /// One page of this owner's objects, most recent first.
    pub fn list_cdn_object(&self, user_id: u64, limit: usize, skip: usize) -> (objects: Vec<
        CdnObject,
    >)
        ensures
            objects@ == spec_list(self.rows@, user_id, limit as int, skip as int),
    {
        let n = self.rows.len();
        let mut mine: Vec<CdnObject> = Vec::new();
        let mut i: usize = 0;
        while i < n
            invariant
                i <= n,
                n == self.rows@.len(),
                mine@ == spec_filter_user(self.rows@.take(i as int), user_id),
            decreases n - i,
        {
            let row = &self.rows[i];
            if row.user_id == user_id {
                mine.push(row.clone());
            }
            i = i + 1;
            proof {
                assert(self.rows@.take(i as int).drop_last() =~= self.rows@.take(i - 1));
                assert(self.rows@.take(i as int).last() == self.rows@[i - 1]);
            }
        }
        proof {
            assert(self.rows@.take(n as int) =~= self.rows@);
        }
        let m = mine.len();
        let mut sorted: Vec<CdnObject> = Vec::new();
        let mut i: usize = 0;
        while i < m
            invariant
                i <= m,
                m == mine@.len(),
                sorted@ == spec_sort_rows_desc(mine@.take(i as int)),
            decreases m - i,
        {
            insert_row_desc(&mut sorted, mine[i].clone());
            i = i + 1;
            proof {
                assert(mine@.take(i as int).drop_last() =~= mine@.take(i - 1));
                assert(mine@.take(i as int).last() == mine@[i - 1]);
            }
        }
        proof {
            assert(mine@.take(m as int) =~= mine@);
        }
        let s = sorted.len();
        let mut objects: Vec<CdnObject> = Vec::new();
        if skip >= s {
            proof {
                assert(objects@ =~= spec_list(self.rows@, user_id, limit as int, skip as int));
            }
            return objects;
        }
        let end = if s - skip > limit {
            skip + limit
        } else {
            s
        };
        let mut k: usize = skip;
        while k < end
            invariant
                skip <= k <= end <= s,
                s == sorted@.len(),
                objects@ == sorted@.subrange(skip as int, k as int),
            decreases end - k,
        {
            objects.push(sorted[k].clone());
            k = k + 1;
            proof {
                assert(sorted@.subrange(skip as int, k as int) =~= sorted@.subrange(
                    skip as int,
                    k - 1,
                ).push(sorted@[k - 1]));
            }
        }
        proof {
            assert(objects@ =~= spec_list(self.rows@, user_id, limit as int, skip as int));
        }
        objects
    }
}

/// Inserts a row into a recency-sorted vector at its place.
fn insert_row_desc(sorted: &mut Vec<CdnObject>, r: CdnObject)
    ensures
        final(sorted)@ == spec_insert_row_desc(old(sorted)@, r),
{
    let ghost gr = r;
    let n = sorted.len();
    let mut j: usize = 0;
    while j < n && r.uploaded_at < sorted[j].uploaded_at
        invariant
            j <= n,
            n == sorted@.len(),
            *sorted == *old(sorted),
            forall|j0: int| 0 <= j0 < j ==> gr.uploaded_at < (#[trigger] sorted@[j0]).uploaded_at,
        decreases n - j,
    {
        j = j + 1;
    }
    proof {
        lemma_insert_row_desc_at(sorted@, gr, j as int);
    }
    sorted.insert(j, r);
}

/// With no earlier insertion point, `spec_insert_row_desc` places the row at
/// index `j`.
proof fn lemma_insert_row_desc_at(s: Seq<CdnObject>, r: CdnObject, j: int)
    requires
        0 <= j <= s.len(),
        forall|j0: int| 0 <= j0 < j ==> r.uploaded_at < (#[trigger] s[j0]).uploaded_at,
        j < s.len() ==> r.uploaded_at >= s[j].uploaded_at,
    ensures
        spec_insert_row_desc(s, r) == s.insert(j, r),
    decreases j,
{
    if s.len() == 0 {
        assert(spec_insert_row_desc(s, r) =~= s.insert(0, r));
    } else if j == 0 {
        assert(spec_insert_row_desc(s, r) == seq![r] + s);
        assert(seq![r] + s =~= s.insert(0, r));
    } else {
        let rest = s.drop_first();
        assert(forall|j0: int| 0 <= j0 < rest.len() ==> rest[j0] == s[j0 + 1]);
        lemma_insert_row_desc_at(rest, r, j - 1);
        assert(spec_insert_row_desc(s, r) == seq![s.first()] + rest.insert(j - 1, r));
        assert(seq![s.first()] + rest.insert(j - 1, r) =~= s.insert(j, r));
    }
}

/// Every row a tick selects is eligible — searchable and not yet indexed —
/// and is one of the catalog's rows.
pub proof fn lemma_select_only_eligible(rows: Seq<CdnObject>)
    ensures
        forall|k: int|
            0 <= k < spec_select_unindexed(rows).len() ==> spec_eligible_for_indexing(
                (#[trigger] spec_select_unindexed(rows)[k]).flags,
            ),
        forall|k: int|
            0 <= k < spec_select_unindexed(rows).len() ==> exists|w: int|
                0 <= w < rows.len() && rows[w] == #[trigger] spec_select_unindexed(rows)[k],
    decreases rows.len(),
{
    if rows.len() > 0 {
        let pre = rows.drop_last();
        assert(forall|i: int| 0 <= i < pre.len() ==> pre[i] == rows[i]);
        lemma_select_only_eligible(pre);
        let sel_pre = spec_select_unindexed(pre);
        let sel = spec_select_unindexed(rows);
        assert forall|k: int| 0 <= k < sel.len() implies spec_eligible_for_indexing(
            (#[trigger] sel[k]).flags,
        ) && exists|w: int| 0 <= w < rows.len() && rows[w] == sel[k] by {
            if k < sel_pre.len() {
                assert(sel[k] == sel_pre[k]);
                let w = choose|w: int| 0 <= w < pre.len() && pre[w] == sel_pre[k];
                assert(rows[w] == sel[k]);
            } else {
                assert(sel[k] == rows.last());
                assert(rows[rows.len() - 1] == sel[k]);
            }
        }
    }
}

/// An object whose content type is not on the supported-image allowlist
/// never carries the searchable bit in a well-formed catalog, and is never
/// part of a scheduler tick's selection.
pub proof fn lemma_unsupported_never_selected(c: &PgClient)
    requires
        c.wf(),
    ensures
        forall|i: int|
            0 <= i < c.rows@.len() && !spec_supported_image_type(
                (#[trigger] c.rows@[i]).content_type@,
            ) ==> !flag_set(c.rows@[i].flags, COF_SEARCHABLE),
        forall|k: int|
            0 <= k < spec_select_unindexed(c.rows@).len() ==> spec_supported_image_type(
                (#[trigger] spec_select_unindexed(c.rows@)[k]).content_type@,
            ),
{
    lemma_select_only_eligible(c.rows@);
    let sel = spec_select_unindexed(c.rows@);
    assert forall|k: int| 0 <= k < sel.len() implies spec_supported_image_type(
        (#[trigger] sel[k]).content_type@,
    ) by {
        let w = choose|w: int| 0 <= w < c.rows@.len() && c.rows@[w] == sel[k];
        assert(row_wf(c.rows@[w]));
        assert(spec_eligible_for_indexing(sel[k].flags));
    }
}

/// A fetched row is one of the catalog's rows, with the looked-up key.
pub proof fn lemma_fetch_is_member(rows: Seq<CdnObject>, user_id: u64, object_id: u64)
    ensures
        spec_fetch(rows, user_id, object_id) matches Some(o) ==> ((exists|w: int|
            0 <= w < rows.len() && rows[w] == o) && o.user_id == user_id && o.id == object_id),
    decreases rows.len(),
{
    if rows.len() > 0 {
        if rows.first().user_id == user_id && rows.first().id == object_id {
            assert(rows[0] == rows.first());
        } else {
            let rest = rows.drop_first();
            lemma_fetch_is_member(rest, user_id, object_id);
            match spec_fetch(rows, user_id, object_id) {
                Some(o) => {
                    let w = choose|w: int| 0 <= w < rest.len() && rest[w] == o;
                    assert(rows[w + 1] == o);
                },
                None => {},
            }
        }
    }
}

proof fn lemma_commit_preserves_wf(rows0: Seq<CdnObject>, added: Seq<CdnObject>)
    requires
        rows_ids_unique(rows0),
        rows_hashes_unique(rows0),
        forall|i: int| 0 <= i < rows0.len() ==> row_wf(#[trigger] rows0[i]),
        forall|k: int| 0 <= k < added.len() ==> row_wf(#[trigger] added[k]),
        forall|k: int, l: int|
            0 <= k < l < added.len() ==> (#[trigger] added[k]).id != (#[trigger] added[l]).id,
        forall|k: int, l: int|
            0 <= k < l < added.len() ==> !((#[trigger] added[k]).user_id
                == (#[trigger] added[l]).user_id && added[k].sha256_hash@
                == added[l].sha256_hash@),
        forall|k: int| 0 <= k < added.len() ==> !spec_has_id(rows0, (#[trigger] added[k]).id),
        forall|k: int|
            0 <= k < added.len() ==> !spec_find_hash(
                rows0,
                (#[trigger] added[k]).user_id,
                added[k].sha256_hash@,
            ),
    ensures
        rows_ids_unique(rows0 + added),
        rows_hashes_unique(rows0 + added),
        forall|i: int| 0 <= i < (rows0 + added).len() ==> row_wf(#[trigger] (rows0 + added)[i]),
{
    let all = rows0 + added;
    assert forall|i: int, j: int| 0 <= i < j < all.len() implies (#[trigger] all[i]).id
        != (#[trigger] all[j]).id by {
        if j < rows0.len() {
        } else if i >= rows0.len() {
            assert(all[i] == added[i - rows0.len()]);
            assert(all[j] == added[j - rows0.len()]);
        } else {
            assert(all[i] == rows0[i]);
            assert(all[j] == added[j - rows0.len()]);
            if all[i].id == all[j].id {
                assert(spec_has_id(rows0, added[j - rows0.len()].id));
            }
        }
    }
    assert forall|i: int, j: int| 0 <= i < j < all.len() implies !((#[trigger] all[i]).user_id
        == (#[trigger] all[j]).user_id && all[i].sha256_hash@ == all[j].sha256_hash@) by {
        if j < rows0.len() {
        } else if i >= rows0.len() {
            assert(all[i] == added[i - rows0.len()]);
            assert(all[j] == added[j - rows0.len()]);
        } else {
            assert(all[i] == rows0[i]);
            assert(all[j] == added[j - rows0.len()]);
            if all[i].user_id == all[j].user_id && all[i].sha256_hash@ == all[j].sha256_hash@ {
                assert(spec_find_hash(
                    rows0,
                    added[j - rows0.len()].user_id,
                    added[j - rows0.len()].sha256_hash@,
                ));
            }
        }
    }
    assert forall|i: int| 0 <= i < all.len() implies row_wf(#[trigger] all[i]) by {
        if i < rows0.len() {
            assert(all[i] == rows0[i]);
        } else {
            assert(all[i] == added[i - rows0.len()]);
        }
    }
}

proof fn lemma_update_one_preserves_wf(rows0: Seq<CdnObject>, k: int, bits: u64)
    requires
        rows_ids_unique(rows0),
        rows_hashes_unique(rows0),
        forall|i: int| 0 <= i < rows0.len() ==> row_wf(#[trigger] rows0[i]),
        0 <= k < rows0.len(),
        bits & COF_SEARCHABLE == 0,
    ensures
        rows_ids_unique(rows0.update(k, spec_with_flags_or(rows0[k], bits))),
        rows_hashes_unique(rows0.update(k, spec_with_flags_or(rows0[k], bits))),
        forall|i: int|
            0 <= i < rows0.len() ==> row_wf(
                #[trigger] rows0.update(k, spec_with_flags_or(rows0[k], bits))[i],
            ),
{
    let upd = spec_with_flags_or(rows0[k], bits);
    let all = rows0.update(k, upd);
    crate::flags::lemma_or_without_bit(rows0[k].flags, bits, COF_SEARCHABLE);
    assert(flag_set(upd.flags, COF_SEARCHABLE) == flag_set(rows0[k].flags, COF_SEARCHABLE));
    assert forall|i: int| 0 <= i < rows0.len() implies row_wf(#[trigger] all[i]) by {
        if i == k {
            assert(row_wf(rows0[k]));
        } else {
            assert(all[i] == rows0[i]);
        }
    }
}

proof fn lemma_publish_preserves_wf(rows0: Seq<CdnObject>, k: int, slug: String)
    requires
        rows_ids_unique(rows0),
        rows_hashes_unique(rows0),
        forall|i: int| 0 <= i < rows0.len() ==> row_wf(#[trigger] rows0[i]),
        0 <= k < rows0.len(),
    ensures
        rows_ids_unique(rows0.update(k, spec_published(rows0[k], slug))),
        rows_hashes_unique(rows0.update(k, spec_published(rows0[k], slug))),
        forall|i: int|
            0 <= i < rows0.len() ==> row_wf(
                #[trigger] rows0.update(k, spec_published(rows0[k], slug))[i],
            ),
{
    let all = rows0.update(k, spec_published(rows0[k], slug));
    assert forall|i: int| 0 <= i < rows0.len() implies row_wf(#[trigger] all[i]) by {
        if i == k {
            assert(row_wf(rows0[k]));
        } else {
            assert(all[i] == rows0[i]);
        }
    }
}

/// Deleting rows yields a subsequence: uniqueness and well-formedness carry
/// over.
proof fn lemma_delete_rows_sub(rows: Seq<CdnObject>, user_id: u64, ids: Seq<u64>)
    requires
        rows_ids_unique(rows),
        rows_hashes_unique(rows),
        forall|i: int| 0 <= i < rows.len() ==> row_wf(#[trigger] rows[i]),
    ensures
        rows_ids_unique(spec_delete_rows(rows, user_id, ids)),
        rows_hashes_unique(spec_delete_rows(rows, user_id, ids)),
        forall|i: int|
            0 <= i < spec_delete_rows(rows, user_id, ids).len() ==> row_wf(
                #[trigger] spec_delete_rows(rows, user_id, ids)[i],
            ),
    decreases rows.len(),
{
    if rows.len() > 0 {
        let pre = rows.drop_last();
        assert(forall|i: int| 0 <= i < pre.len() ==> pre[i] == rows[i]);
        lemma_delete_rows_sub(pre, user_id, ids);
        lemma_delete_rows_members(pre, user_id, ids);
        let del_pre = spec_delete_rows(pre, user_id, ids);
        let del = spec_delete_rows(rows, user_id, ids);
        if rows.last().user_id == user_id && ids.contains(rows.last().id) {
            assert(del =~= del_pre);
        } else {
            assert(del =~= del_pre.push(rows.last()));
            assert forall|i: int, j: int| 0 <= i < j < del.len() implies (#[trigger] del[i]).id
                != (#[trigger] del[j]).id by {
                if j == del.len() - 1 {
                    let w = choose|w: int| 0 <= w < pre.len() && pre[w] == del_pre[i];
                    assert(rows[w] == del[i]);
                    assert(rows[rows.len() - 1] == del[j]);
                }
            }
            assert forall|i: int, j: int| 0 <= i < j < del.len() implies !((#[trigger] del[i]).user_id
                == (#[trigger] del[j]).user_id && del[i].sha256_hash@ == del[j].sha256_hash@) by {
                if j == del.len() - 1 {
                    let w = choose|w: int| 0 <= w < pre.len() && pre[w] == del_pre[i];
                    assert(rows[w] == del[i]);
                    assert(rows[rows.len() - 1] == del[j]);
                }
            }
        }
    }
    lemma_delete_rows_members(rows, user_id, ids);
    let del = spec_delete_rows(rows, user_id, ids);
    assert forall|i: int| 0 <= i < del.len() implies row_wf(#[trigger] del[i]) by {
        let w = choose|w: int| 0 <= w < rows.len() && rows[w] == del[i];
        assert(row_wf(rows[w]));
    }
}

/// Every row the delete keeps is one of the original rows.
pub proof fn lemma_delete_rows_members(rows: Seq<CdnObject>, user_id: u64, ids: Seq<u64>)
    ensures
        forall|i: int|
            0 <= i < spec_delete_rows(rows, user_id, ids).len() ==> exists|w: int|
                0 <= w < rows.len() && rows[w] == #[trigger] spec_delete_rows(rows, user_id, ids)[i],
    decreases rows.len(),
{
    if rows.len() > 0 {
        let pre = rows.drop_last();
        lemma_delete_rows_members(pre, user_id, ids);
        let del_pre = spec_delete_rows(pre, user_id, ids);
        let del = spec_delete_rows(rows, user_id, ids);
        assert forall|i: int| 0 <= i < del.len() implies exists|w: int|
            0 <= w < rows.len() && rows[w] == #[trigger] del[i] by {
            if i < del_pre.len() {
                assert(del[i] == del_pre[i]);
                let w = choose|w: int| 0 <= w < pre.len() && pre[w] == del_pre[i];
                assert(rows[w] == del[i]);
            } else {
                assert(del[i] == rows.last());
                assert(rows[rows.len() - 1] == del[i]);
            }
        }
    }
}

} // verus!
