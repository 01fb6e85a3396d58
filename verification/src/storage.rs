//! The blob store: durable key→bytes storage addressed by `(owner, object
//! id)`, with a separate namespace for cached thumbnails.
//!
//! The durable store is an external service. `StorageClient` is the exact
//! model of its visible state: the stored blobs, a counter from which fresh
//! object ids are drawn, and a queue of scripted outcomes for upcoming puts,
//! through which a test or the embedding application injects put failures.

use vstd::prelude::*;

use crate::error::StoreFault;

verus! {

/// One stored blob.
#[verifier::ext_equal]
pub struct BlobEntry {
    pub user_id: u64,
    pub id: u64,
    pub content_type: String,
    pub data: Vec<u8>,
}

/// What a successful put reports back.
pub struct UploadedObject {
    pub id: u64,
    pub size: usize,
}

/// A listing handle; the catalog, not the blob store, enumerates objects.
pub struct ObjectList {}

/// The first entry under `(user_id, id)`, if any.
pub open spec fn spec_get_entry(entries: Seq<BlobEntry>, user_id: u64, id: u64) -> Option<
    BlobEntry,
>
    decreases entries.len(),
{
    if entries.len() == 0 {
        None
    } else if entries.first().user_id == user_id && entries.first().id == id {
        Some(entries.first())
    } else {
        spec_get_entry(entries.drop_first(), user_id, id)
    }
}

/// `entries` with the first entry under `(user_id, id)` removed.
pub open spec fn spec_delete_entry(entries: Seq<BlobEntry>, user_id: u64, id: u64) -> Seq<
    BlobEntry,
>
    decreases entries.len(),
{
    if entries.len() == 0 {
        Seq::<BlobEntry>::empty()
    } else if entries.first().user_id == user_id && entries.first().id == id {
        entries.drop_first()
    } else {
        seq![entries.first()] + spec_delete_entry(entries.drop_first(), user_id, id)
    }
}

/// `entries` with the entry under `(user_id, id)` replaced by `e`, or `e`
/// appended when the key is new: the upsert a thumbnail write performs.
pub open spec fn spec_upsert_entry(entries: Seq<BlobEntry>, user_id: u64, id: u64, e: BlobEntry) -> Seq<
    BlobEntry,
>
    decreases entries.len(),
{
    if entries.len() == 0 {
        seq![e]
    } else if entries.first().user_id == user_id && entries.first().id == id {
        seq![e] + entries.drop_first()
    } else {
        seq![entries.first()] + spec_upsert_entry(entries.drop_first(), user_id, id, e)
    }
}

/// The next scripted put outcome is a failure.
pub open spec fn spec_put_fails(faults: Seq<bool>) -> bool {
    faults.len() > 0 && faults[0]
}

/// The fault queue after one put consumed its outcome.
pub open spec fn spec_faults_after(faults: Seq<bool>) -> Seq<bool> {
    if faults.len() > 0 {
        faults.drop_first()
    } else {
        faults
    }
}

/// No two entries share a key.
pub open spec fn entries_keys_unique(entries: Seq<BlobEntry>) -> bool {
    forall|i: int, j: int|
        0 <= i < j < entries.len() ==> !((#[trigger] entries[i]).user_id
            == (#[trigger] entries[j]).user_id && entries[i].id == entries[j].id)
}

/// The model of the external blob store.
pub struct StorageClient {
    /// The stored original blobs.
    pub entries: Vec<BlobEntry>,
    /// The cached thumbnails, in their own namespace.
    pub thumbs: Vec<BlobEntry>,
    /// Fresh object ids are drawn from here.
    pub next_id: u64,
    /// Scripted outcomes for upcoming puts; an empty queue means success.
    pub put_faults: Vec<bool>,
}

impl StorageClient {
    /// The store invariant every operation preserves.
    pub open spec fn wf(&self) -> bool {
        &&& entries_keys_unique(self.entries@)
        &&& entries_keys_unique(self.thumbs@)
        &&& forall|i: int| 0 <= i < self.entries@.len() ==> (#[trigger] self.entries@[i]).id < self.next_id
    }

    /// A fresh, empty store whose puts succeed.
    pub fn new() -> (s: StorageClient)
        ensures
            s.wf(),
            s.entries@ == Seq::<BlobEntry>::empty(),
            s.thumbs@ == Seq::<BlobEntry>::empty(),
            s.put_faults@ == Seq::<bool>::empty(),
    {
        StorageClient {
            entries: Vec::new(),
            thumbs: Vec::new(),
            next_id: 0,
            put_faults: Vec::new(),
        }
    }

    /// Stores a blob under a freshly drawn object id, unless the store
    /// refuses the put.
    pub fn upload_user_object(&mut self, user_id: u64, content: Vec<u8>, content_type: String) -> (r:
        Result<UploadedObject, StoreFault>)
        requires
            old(self).wf(),
            old(self).next_id < u64::MAX,
        ensures
            final(self).wf(),
            final(self).thumbs@ == old(self).thumbs@,
            final(self).put_faults@ == spec_faults_after(old(self).put_faults@),
            spec_put_fails(old(self).put_faults@) ==> r == Err::<UploadedObject, StoreFault>(
                StoreFault::BlobPutFailed,
            ) && final(self).entries@ == old(self).entries@ && final(self).next_id == old(
                self,
            ).next_id,
            !spec_put_fails(old(self).put_faults@) ==> (r matches Ok(o) && o.id == old(
                self,
            ).next_id && o.size == content@.len() && final(self).entries@ == old(
                self,
            ).entries@.push(
                BlobEntry { user_id, id: old(self).next_id, content_type, data: content },
            ) && final(self).next_id == old(self).next_id + 1),
    {
        let failed = if self.put_faults.len() > 0 {
            let f = self.put_faults.remove(0);
            f
        } else {
            false
        };
        if failed {
            return Err(StoreFault::BlobPutFailed);
        }
        let id = self.next_id;
        let size = content.len();
        self.entries.push(BlobEntry { user_id, id, content_type, data: content });
        self.next_id = id + 1;
        proof {
            assert forall|i: int| 0 <= i < self.entries@.len() implies (#[trigger] self.entries@[i]).id
                < self.next_id by {
                if i < self.entries@.len() - 1 {
                    assert(self.entries@[i] == old(self).entries@[i]);
                }
            }
            assert forall|i: int, j: int| 0 <= i < j < self.entries@.len() implies !((
            #[trigger] self.entries@[i]).user_id == (#[trigger] self.entries@[j]).user_id
                && self.entries@[i].id == self.entries@[j].id) by {
                if j < self.entries@.len() - 1 {
                    assert(self.entries@[i] == old(self).entries@[i]);
                    assert(self.entries@[j] == old(self).entries@[j]);
                } else {
                    assert(self.entries@[i] == old(self).entries@[i]);
                    assert(self.entries@[i].id < old(self).next_id);
                }
            }
        }
        Ok(UploadedObject { id, size })
    }

    /// Reads back the blob stored under `(user_id, object_id)`.
    pub fn get_user_object(&self, user_id: u64, object_id: u64) -> (r: Result<Vec<u8>, StoreFault>)
        ensures
            r matches Ok(v) ==> spec_get_entry(self.entries@, user_id, object_id) matches Some(e)
                && v@ == e.data@,
            r is Err ==> r == Err::<Vec<u8>, StoreFault>(StoreFault::BlobNotFound) && spec_get_entry(
                self.entries@,
                user_id,
                object_id,
            ) is None,
    {
        let n = self.entries.len();
        let mut i: usize = 0;
        proof {
            assert(self.entries@.skip(0) == self.entries@);
        }
        while i < n
            invariant
                i <= n,
                spec_get_entry(self.entries@, user_id, object_id) == spec_get_entry(
                    self.entries@.skip(i as int),
                    user_id,
                    object_id,
                ),
            decreases n - i,
        {
            proof {
                let rest = self.entries@.skip(i as int);
                assert(rest.first() == self.entries@[i as int]);
                assert(rest.drop_first() =~= self.entries@.skip(i as int + 1));
            }
            let e = &self.entries[i];
            if e.user_id == user_id && e.id == object_id {
                return Ok(clone_bytes(&e.data));
            }
            i = i + 1;
        }
        proof {
            assert(self.entries@.skip(n as int) =~= Seq::<BlobEntry>::empty());
        }
        Err(StoreFault::BlobNotFound)
    }

    /// Deletes the blob stored under `(user_id, object_id)`; reports
    /// `BlobNotFound` when there is none.
    pub fn delete_user_object(&mut self, user_id: u64, object_id: u64) -> (r: Result<
        (),
        StoreFault,
    >)
        requires
            old(self).wf(),
        ensures
            final(self).wf(),
            final(self).entries@ == spec_delete_entry(old(self).entries@, user_id, object_id),
            final(self).thumbs@ == old(self).thumbs@,
            final(self).next_id == old(self).next_id,
            final(self).put_faults@ == old(self).put_faults@,
            r is Ok <==> spec_get_entry(old(self).entries@, user_id, object_id) is Some,
            r is Err ==> r == Err::<(), StoreFault>(StoreFault::BlobNotFound),
    {
        let n = self.entries.len();
        let mut i: usize = 0;
        while i < n
            invariant
                i <= n,
                *self == *old(self),
                forall|j: int|
                    0 <= j < i ==> !((#[trigger] self.entries@[j]).user_id == user_id
                        && self.entries@[j].id == object_id),
            decreases n - i,
        {
            let e = &self.entries[i];
            if e.user_id == user_id && e.id == object_id {
                let ghost entries0 = self.entries@;
                self.entries.remove(i);
                proof {
                    lemma_delete_entry_at(entries0, user_id, object_id, i as int);
                    lemma_remove_keeps_unique_and_bound(entries0, i as int, old(self).next_id);
                    lemma_get_entry_at(entries0, user_id, object_id, i as int);
                    assert(entries0.remove(i as int) =~= entries0.subrange(0, i as int)
                        + entries0.subrange(i as int + 1, entries0.len() as int));
                }
                return Ok(());
            }
            i = i + 1;
        }
        proof {
            lemma_delete_entry_absent(self.entries@, user_id, object_id);
            lemma_get_entry_absent(self.entries@, user_id, object_id);
        }
        Err(StoreFault::BlobNotFound)
    }

    /// Reads back the cached thumbnail for `(user_id, object_id)`.
    pub fn get_object_thumb(&self, user_id: u64, object_id: u64) -> (r: Result<Vec<u8>, StoreFault>)
        ensures
            r matches Ok(v) ==> spec_get_entry(self.thumbs@, user_id, object_id) matches Some(e)
                && v@ == e.data@,
            r is Err ==> r == Err::<Vec<u8>, StoreFault>(StoreFault::ThumbNotFound)
                && spec_get_entry(self.thumbs@, user_id, object_id) is None,
    {
        let n = self.thumbs.len();
        let mut i: usize = 0;
        proof {
            assert(self.thumbs@.skip(0) == self.thumbs@);
        }
        while i < n
            invariant
                i <= n,
                spec_get_entry(self.thumbs@, user_id, object_id) == spec_get_entry(
                    self.thumbs@.skip(i as int),
                    user_id,
                    object_id,
                ),
            decreases n - i,
        {
            proof {
                let rest = self.thumbs@.skip(i as int);
                assert(rest.first() == self.thumbs@[i as int]);
                assert(rest.drop_first() =~= self.thumbs@.skip(i as int + 1));
            }
            let e = &self.thumbs[i];
            if e.user_id == user_id && e.id == object_id {
                return Ok(clone_bytes(&e.data));
            }
            i = i + 1;
        }
        proof {
            assert(self.thumbs@.skip(n as int) =~= Seq::<BlobEntry>::empty());
        }
        Err(StoreFault::ThumbNotFound)
    }

    /// Persists a computed thumbnail at its cache key and hands the bytes
    /// back for the response.
    pub fn upload_object_thumb(&mut self, user_id: u64, object_id: u64, buffer: Vec<u8>, content_type: String) -> (out: Vec<u8>)
        requires
            old(self).wf(),
        ensures
            final(self).wf(),
            out == buffer,
            final(self).entries@ == old(self).entries@,
            final(self).next_id == old(self).next_id,
            final(self).put_faults@ == old(self).put_faults@,
            exists|e: BlobEntry|
                e.user_id == user_id && e.id == object_id && e.content_type == content_type
                    && e.data@ == buffer@ && final(self).thumbs@ == #[trigger] spec_upsert_entry(
                    old(self).thumbs@,
                    user_id,
                    object_id,
                    e,
                ),
            spec_get_entry(final(self).thumbs@, user_id, object_id) matches Some(e) && e.data@
                == buffer@,
    {
        let data = clone_bytes(&buffer);
        let entry = BlobEntry { user_id, id: object_id, content_type, data };
        let ghost ge = entry;
        let n = self.thumbs.len();
        let mut i: usize = 0;
        while i < n
            invariant
                i <= n,
                *self == *old(self),
                forall|j: int|
                    0 <= j < i ==> !((#[trigger] self.thumbs@[j]).user_id == user_id
                        && self.thumbs@[j].id == object_id),
            decreases n - i,
        {
            let hit = self.thumbs[i].user_id == user_id && self.thumbs[i].id == object_id;
            if hit {
                let ghost thumbs0 = self.thumbs@;
                self.thumbs.set(i, entry);
                proof {
                    lemma_upsert_entry_at(thumbs0, user_id, object_id, ge, i as int);
                    lemma_set_keeps_unique(thumbs0, i as int, ge);
                    assert(forall|j: int| 0 <= j < i ==> self.thumbs@[j] == thumbs0[j]);
                    lemma_get_entry_at(self.thumbs@, user_id, object_id, i as int);
                }
                return buffer;
            }
            i = i + 1;
        }
        let ghost thumbs0 = self.thumbs@;
        self.thumbs.push(entry);
        proof {
            lemma_upsert_entry_append(thumbs0, user_id, object_id, ge);
            assert(forall|j: int| 0 <= j < thumbs0.len() ==> self.thumbs@[j] == thumbs0[j]);
            assert forall|a: int, b: int| 0 <= a < b < self.thumbs@.len() implies !((
            #[trigger] self.thumbs@[a]).user_id == (#[trigger] self.thumbs@[b]).user_id
                && self.thumbs@[a].id == self.thumbs@[b].id) by {
                if b < self.thumbs@.len() - 1 {
                    assert(self.thumbs@[a] == thumbs0[a]);
                    assert(self.thumbs@[b] == thumbs0[b]);
                } else {
                    assert(self.thumbs@[a] == thumbs0[a]);
                }
            }
            lemma_get_entry_at(self.thumbs@, user_id, object_id, thumbs0.len() as int);
        }
        buffer
    }
}

/// Byte-for-byte copy of a buffer.
pub fn clone_bytes(v: &Vec<u8>) -> (r: Vec<u8>)
    ensures
        r@ == v@,
{
    let mut r: Vec<u8> = Vec::new();
    let n = v.len();
    let mut i: usize = 0;
    while i < n
        invariant
            i <= n,
            r@ == v@.take(i as int),
        decreases n - i,
    {
        r.push(v[i]);
        i = i + 1;
        proof {
            assert(v@.take(i as int) =~= v@.take(i - 1).push(v@[i - 1]));
        }
    }
    proof {
        assert(v@.take(n as int) =~= v@);
    }
    r
}

/// Removing the first key match at index `k` (no earlier match) drops
/// exactly that element.
pub proof fn lemma_delete_entry_at(entries: Seq<BlobEntry>, user_id: u64, id: u64, k: int)
    requires
        0 <= k < entries.len(),
        entries[k].user_id == user_id && entries[k].id == id,
        forall|j: int|
            0 <= j < k ==> !((#[trigger] entries[j]).user_id == user_id && entries[j].id == id),
    ensures
        spec_delete_entry(entries, user_id, id) == entries.subrange(0, k) + entries.subrange(
            k + 1,
            entries.len() as int,
        ),
    decreases k,
{
    if k == 0 {
        assert(entries.subrange(0, 0) =~= Seq::<BlobEntry>::empty());
        assert(spec_delete_entry(entries, user_id, id) == entries.drop_first());
        assert(entries.drop_first() =~= entries.subrange(0, 0) + entries.subrange(
            1,
            entries.len() as int,
        ));
    } else {
        let rest = entries.drop_first();
        assert(forall|j: int| 0 <= j < k - 1 ==> rest[j] == entries[j + 1]);
        lemma_delete_entry_at(rest, user_id, id, k - 1);
        assert(spec_delete_entry(entries, user_id, id) == seq![entries.first()]
            + spec_delete_entry(rest, user_id, id));
        assert(rest.subrange(0, k - 1) =~= entries.subrange(1, k));
        assert(rest.subrange(k, rest.len() as int) =~= entries.subrange(
            k + 1,
            entries.len() as int,
        ));
        assert(seq![entries.first()] + (entries.subrange(1, k) + entries.subrange(
            k + 1,
            entries.len() as int,
        )) =~= entries.subrange(0, k) + entries.subrange(k + 1, entries.len() as int));
    }
}

/// Deleting a key that is absent leaves the entries unchanged.
proof fn lemma_delete_entry_absent(entries: Seq<BlobEntry>, user_id: u64, id: u64)
    requires
        forall|j: int|
            0 <= j < entries.len() ==> !((#[trigger] entries[j]).user_id == user_id
                && entries[j].id == id),
    ensures
        spec_delete_entry(entries, user_id, id) == entries,
    decreases entries.len(),
{
    if entries.len() > 0 {
        let rest = entries.drop_first();
        assert(forall|j: int| 0 <= j < rest.len() ==> rest[j] == entries[j + 1]);
        lemma_delete_entry_absent(rest, user_id, id);
        assert(spec_delete_entry(entries, user_id, id) =~= entries);
    }
}

/// Deleting a key the store does not hold changes nothing.
pub proof fn lemma_get_none_delete_same(entries: Seq<BlobEntry>, user_id: u64, id: u64)
    requires
        spec_get_entry(entries, user_id, id) is None,
    ensures
        spec_delete_entry(entries, user_id, id) == entries,
    decreases entries.len(),
{
    if entries.len() > 0 {
        let rest = entries.drop_first();
        lemma_get_none_delete_same(rest, user_id, id);
        assert(seq![entries.first()] + rest =~= entries);
    }
}

/// A key with no matching entry has no `spec_get_entry` hit.
proof fn lemma_get_entry_absent(entries: Seq<BlobEntry>, user_id: u64, id: u64)
    requires
        forall|j: int|
            0 <= j < entries.len() ==> !((#[trigger] entries[j]).user_id == user_id
                && entries[j].id == id),
    ensures
        spec_get_entry(entries, user_id, id) is None,
    decreases entries.len(),
{
    if entries.len() > 0 {
        let rest = entries.drop_first();
        assert(forall|j: int| 0 <= j < rest.len() ==> rest[j] == entries[j + 1]);
        lemma_get_entry_absent(rest, user_id, id);
    }
}

/// With no earlier key match, `spec_get_entry` returns the entry at `k`.
pub proof fn lemma_get_entry_at(entries: Seq<BlobEntry>, user_id: u64, id: u64, k: int)
    requires
        0 <= k < entries.len(),
        entries[k].user_id == user_id && entries[k].id == id,
        forall|j: int|
            0 <= j < k ==> !((#[trigger] entries[j]).user_id == user_id && entries[j].id == id),
    ensures
        spec_get_entry(entries, user_id, id) == Some(entries[k]),
    decreases k,
{
    if k > 0 {
        let rest = entries.drop_first();
        assert(forall|j: int| 0 <= j < rest.len() ==> rest[j] == entries[j + 1]);
        lemma_get_entry_at(rest, user_id, id, k - 1);
    }
}

/// Replacing the first key match at index `k` updates exactly that element.
proof fn lemma_upsert_entry_at(entries: Seq<BlobEntry>, user_id: u64, id: u64, e: BlobEntry, k: int)
    requires
        0 <= k < entries.len(),
        entries[k].user_id == user_id && entries[k].id == id,
        forall|j: int|
            0 <= j < k ==> !((#[trigger] entries[j]).user_id == user_id && entries[j].id == id),
    ensures
        spec_upsert_entry(entries, user_id, id, e) == entries.update(k, e),
    decreases k,
{
    if k == 0 {
        assert(seq![e] + entries.drop_first() =~= entries.update(0, e));
    } else {
        let rest = entries.drop_first();
        assert(forall|j: int| 0 <= j < rest.len() ==> rest[j] == entries[j + 1]);
        lemma_upsert_entry_at(rest, user_id, id, e, k - 1);
        assert(seq![entries.first()] + rest.update(k - 1, e) =~= entries.update(k, e));
    }
}

/// After a thumbnail upsert, looking the key up finds exactly the stored
/// entry: once a computed thumbnail is persisted, a later request for the
/// same object is a cache hit serving those bytes unchanged.
pub proof fn lemma_upsert_entry_found(
    entries: Seq<BlobEntry>,
    user_id: u64,
    id: u64,
    e: BlobEntry,
)
    requires
        e.user_id == user_id,
        e.id == id,
    ensures
        spec_get_entry(spec_upsert_entry(entries, user_id, id, e), user_id, id) == Some(e),
    decreases entries.len(),
{
    if entries.len() == 0 {
        assert(spec_upsert_entry(entries, user_id, id, e).first() == e);
    } else if entries.first().user_id == user_id && entries.first().id == id {
        assert(spec_upsert_entry(entries, user_id, id, e).first() == e);
    } else {
        let rest = entries.drop_first();
        lemma_upsert_entry_found(rest, user_id, id, e);
        let up = spec_upsert_entry(entries, user_id, id, e);
        assert(up.first() == entries.first());
        assert(up.drop_first() =~= spec_upsert_entry(rest, user_id, id, e));
    }
}

/// Upserting an absent key appends the entry.
proof fn lemma_upsert_entry_append(entries: Seq<BlobEntry>, user_id: u64, id: u64, e: BlobEntry)
    requires
        forall|j: int|
            0 <= j < entries.len() ==> !((#[trigger] entries[j]).user_id == user_id
                && entries[j].id == id),
    ensures
        spec_upsert_entry(entries, user_id, id, e) == entries.push(e),
    decreases entries.len(),
{
    if entries.len() == 0 {
        assert(spec_upsert_entry(entries, user_id, id, e) =~= entries.push(e));
    } else {
        let rest = entries.drop_first();
        assert(forall|j: int| 0 <= j < rest.len() ==> rest[j] == entries[j + 1]);
        lemma_upsert_entry_append(rest, user_id, id, e);
        assert(seq![entries.first()] + rest.push(e) =~= entries.push(e));
    }
}

/// Removing an element keeps keys unique and the id bound.
proof fn lemma_remove_keeps_unique_and_bound(entries: Seq<BlobEntry>, k: int, bound: u64)
    requires
        entries_keys_unique(entries),
        forall|i: int| 0 <= i < entries.len() ==> (#[trigger] entries[i]).id < bound,
        0 <= k < entries.len(),
    ensures
        entries_keys_unique(entries.remove(k)),
        forall|i: int|
            0 <= i < entries.remove(k).len() ==> (#[trigger] entries.remove(k)[i]).id < bound,
{
    let rem = entries.remove(k);
    assert forall|i: int, j: int| 0 <= i < j < rem.len() implies !((#[trigger] rem[i]).user_id
        == (#[trigger] rem[j]).user_id && rem[i].id == rem[j].id) by {
        let i0 = if i < k { i } else { i + 1 };
        let j0 = if j < k { j } else { j + 1 };
        assert(rem[i] == entries[i0]);
        assert(rem[j] == entries[j0]);
    }
    assert forall|i: int| 0 <= i < rem.len() implies (#[trigger] rem[i]).id < bound by {
        let i0 = if i < k { i } else { i + 1 };
        assert(rem[i] == entries[i0]);
    }
}

/// Replacing an element with one of the same key keeps keys unique.
proof fn lemma_set_keeps_unique(entries: Seq<BlobEntry>, k: int, e: BlobEntry)
    requires
        entries_keys_unique(entries),
        0 <= k < entries.len(),
        e.user_id == entries[k].user_id,
        e.id == entries[k].id,
    ensures
        entries_keys_unique(entries.update(k, e)),
{
    let upd = entries.update(k, e);
    assert forall|i: int, j: int| 0 <= i < j < upd.len() implies !((#[trigger] upd[i]).user_id
        == (#[trigger] upd[j]).user_id && upd[i].id == upd[j].id) by {
        if i != k {
            assert(upd[i] == entries[i]);
        }
        if j != k {
            assert(upd[j] == entries[j]);
        }
    }
}

} // verus!
