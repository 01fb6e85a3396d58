//! The upload coordinator and the object request handlers.
//!
//! `upload` ingests one batch: it hashes every file, silently skips content
//! this owner already stores (or has already accepted earlier in the same
//! batch), uploads fresh content to the blob store under a newly drawn id,
//! and commits all accepted rows to the catalog as one atomic batch. If the
//! commit fails, every blob uploaded for the batch is deleted again: the
//! blob store ends exactly where it began.

use vstd::prelude::*;

use crate::db::{
    create_cdn_object, spec_fetch, spec_fetch_slug, spec_find_hash, spec_has_id, spec_published,
    CdnObject, CreateCdnObject, PgClient,
};
use crate::error::{ApiError, StoreFault};
use crate::flags::{initial_flags, spec_initial_flags};
use crate::hashing::{sha256_hex, sha256_hex_of};
use crate::hex::{u64_hex_of, u64_to_hex};
use crate::meili::{spec_search, ObjectOcrDoc};
use crate::state::ApiState;
use crate::storage::{clone_bytes, spec_faults_after, spec_put_fails, BlobEntry, StorageClient};
use crate::strutil::str_eq;

verus! {

use vstd::string::StringExecFns;

/// One file of an upload batch, as the transport hands it over: its bytes
/// and the declared metadata, either of which may be missing.
pub struct UploadFile {
    pub data: Vec<u8>,
    pub content_type: Option<String>,
    pub file_name: Option<String>,
}

/// One upload request: the batch of submitted files.
pub struct UploadRequest {
    pub files: Vec<UploadFile>,
}

/// Query string of the search endpoint.
pub struct SearchObjectsQuery {
    pub q: String,
}

/// Query string of the listing endpoint.
pub struct ListObjectsQuery {
    pub skip: i32,
    pub limit: i32,
}

/// Body of the publish endpoint.
pub struct PublishObjectReq {
    pub id: u64,
}

/// Body of the delete endpoint.
pub struct DeleteObjectsRequest {
    pub files: Vec<u64>,
}

/// The content type recorded for a file: the declared one, or the opaque
/// default.
pub open spec fn spec_file_ct(f: UploadFile) -> Seq<char> {
    match f.content_type {
        Some(ct) => ct@,
        None => "application/octet-stream"@,
    }
}

/// The content hash a file is deduplicated under.
pub open spec fn spec_file_hash(f: UploadFile) -> Seq<char> {
    sha256_hex_of(f.data@)
}

/// The file name recorded for a file: the declared one, or one derived from
/// the assigned object id.
pub open spec fn spec_file_name(f: UploadFile, id: u64) -> Seq<char> {
    match f.file_name {
        Some(n) => n@,
        None => u64_hex_of(id) + "_no_file_name"@,
    }
}

/// Some already-accepted file of this batch carries hash `h`.
pub open spec fn spec_batch_has_hash(files: Seq<UploadFile>, accepted: Seq<int>, h: Seq<char>) -> bool {
    exists|k: int|
        0 <= k < accepted.len() && spec_file_hash(files[#[trigger] accepted[k]]) == h
}

/// Some pending creation request carries hash `h`.
pub open spec fn spec_pending_has_hash(pending: Seq<CreateCdnObject>, h: Seq<char>) -> bool {
    exists|k: int| 0 <= k < pending.len() && (#[trigger] pending[k]).hash@ == h
}

/// The scripted put outcome the `idx`-th attempted put of a batch sees.
pub open spec fn spec_fault_at(faults: Seq<bool>, idx: int) -> bool {
    0 <= idx < faults.len() && faults[idx]
}

/// What one ingest run decides, file by file: which files are accepted (by
/// index, in order — each is assigned the next fresh id), and how many puts
/// were attempted (deduplicated files attempt none).
pub ghost struct IngestOutcome {
    pub accepted: Seq<int>,
    pub attempted: int,
}

/// The decision of the upload coordinator on a batch, as a function of the
/// committed rows, the batch, and the blob store's scripted put outcomes:
/// a file is skipped when its hash is already stored by this owner or
/// already accepted earlier in the batch; otherwise a put is attempted, and
/// the file is accepted when the put succeeds.
pub open spec fn spec_ingest_outcome(
    rows: Seq<CdnObject>,
    user_id: u64,
    files: Seq<UploadFile>,
    faults: Seq<bool>,
) -> IngestOutcome
    decreases files.len(),
{
    if files.len() == 0 {
        IngestOutcome { accepted: Seq::<int>::empty(), attempted: 0 }
    } else {
        let prev = spec_ingest_outcome(rows, user_id, files.drop_last(), faults);
        let i = files.len() - 1;
        let h = spec_file_hash(files[i]);
        if spec_find_hash(rows, user_id, h) || spec_batch_has_hash(files, prev.accepted, h) {
            prev
        } else if spec_fault_at(faults, prev.attempted) {
            IngestOutcome { accepted: prev.accepted, attempted: prev.attempted + 1 }
        } else {
            IngestOutcome { accepted: prev.accepted.push(i), attempted: prev.attempted + 1 }
        }
    }
}

/// The pending request recorded for an accepted file.
pub open spec fn spec_pending_ok(
    p: CreateCdnObject,
    f: UploadFile,
    id: u64,
    user_id: u64,
) -> bool {
    &&& p.id == id
    &&& p.user_id == user_id
    &&& p.content_type@ == spec_file_ct(f)
    &&& p.content_size == f.data@.len()
    &&& p.hash@ == spec_file_hash(f)
    &&& p.file_name@ == spec_file_name(f, id)
}

/// The blob entry stored for an accepted file.
pub open spec fn spec_uploaded_entry_ok(e: BlobEntry, f: UploadFile, id: u64, user_id: u64) -> bool {
    &&& e.user_id == user_id
    &&& e.id == id
    &&& e.content_type@ == spec_file_ct(f)
    &&& e.data@ == f.data@
}

/// The catalog row committed for an accepted file.
pub open spec fn spec_created_row_ok(
    row: CdnObject,
    f: UploadFile,
    id: u64,
    user_id: u64,
    now: i64,
) -> bool {
    &&& row.id == id
    &&& row.user_id == user_id
    &&& row.uploaded_at == now
    &&& row.content_type@ == spec_file_ct(f)
    &&& row.content_size == f.data@.len()
    &&& row.file_name@ == spec_file_name(f, id)
    &&& row.slug is None
    &&& !row.is_public
    &&& row.sha256_hash@ == spec_file_hash(f)
    &&& row.flags == spec_initial_flags(spec_file_ct(f))
}

/// Does any pending request of this batch already carry the hash?
fn pending_contains_hash(objects: &Vec<CreateCdnObject>, hash: &str) -> (r: bool)
    ensures
        r == spec_pending_has_hash(objects@, hash@),
{
    let n = objects.len();
    let mut i: usize = 0;
    while i < n
        invariant
            i <= n,
            n == objects@.len(),
            forall|j: int| 0 <= j < i ==> (#[trigger] objects@[j]).hash@ != hash@,
        decreases n - i,
    {
        if str_eq(objects[i].hash.as_str(), hash) {
            return true;
        }
        i = i + 1;
    }
    false
}

/// Processes one file of a batch: hash, dedup check, blob upload, pending
/// record. A deduplicated file is skipped silently; a refused put drops the
/// file and reports the fault.
pub fn process_upload(
    pg: &PgClient,
    storage: &mut StorageClient,
    user_id: u64,
    file: UploadFile,
    objects: &mut Vec<CreateCdnObject>,
) -> (r: Result<(), StoreFault>)
    requires
        old(storage).wf(),
        old(storage).next_id < u64::MAX,
    ensures
        final(storage).wf(),
        final(storage).thumbs@ == old(storage).thumbs@,
        ({
            let h = spec_file_hash(file);
            let dedup = spec_find_hash(pg.rows@, user_id, h) || spec_pending_has_hash(
                old(objects)@,
                h,
            );
            let st0 = *old(storage);
            let st1 = *final(storage);
            let pend0 = old(objects)@;
            let pend1 = final(objects)@;
            &&& dedup ==> (r is Ok && st1 == st0 && pend1 == pend0)
            &&& (!dedup && spec_put_fails(st0.put_faults@)) ==> (r == Err::<(), StoreFault>(
                StoreFault::BlobPutFailed,
            ) && pend1 == pend0 && st1.entries@ == st0.entries@ && st1.next_id == st0.next_id
                && st1.put_faults@ == spec_faults_after(st0.put_faults@))
            &&& (!dedup && !spec_put_fails(st0.put_faults@)) ==> (r is Ok && st1.entries@.len()
                == st0.entries@.len() + 1 && st1.entries@.drop_last() == st0.entries@
                && spec_uploaded_entry_ok(st1.entries@.last(), file, st0.next_id, user_id)
                && st1.next_id == st0.next_id + 1 && st1.put_faults@ == spec_faults_after(
                st0.put_faults@,
            ) && pend1.len() == pend0.len() + 1 && pend1.drop_last() == pend0 && spec_pending_ok(
                pend1.last(),
                file,
                st0.next_id,
                user_id,
            ))
        }),
{
    let UploadFile { data, content_type: declared_ct, file_name: declared_name } = file;
    let hash = sha256_hex(data.as_slice());
    if pg.find_existing_hash(user_id, hash.as_str()) {
        return Ok(());
    }
    if pending_contains_hash(objects, hash.as_str()) {
        return Ok(());
    }
    let content_type = match declared_ct {
        Some(ct) => ct,
        None => String::from_str("application/octet-stream"),
    };
    let size = data.len();
    let upload_res = storage.upload_user_object(user_id, data, content_type.clone());
    let obj = match upload_res {
        Ok(o) => o,
        Err(fault) => {
            return Err(fault);
        },
    };
    let file_name = match declared_name {
        Some(n) => n,
        None => {
            let mut p = u64_to_hex(obj.id);
            p.append("_no_file_name");
            p
        },
    };
    let req = CreateCdnObject {
        id: obj.id,
        user_id,
        content_type,
        content_size: size as u64,
        hash,
        file_name,
    };
    let ghost objects0 = objects@;
    objects.push(req);
    proof {
        assert(objects@.drop_last() =~= objects0);
    }
    Ok(())
}

/// The scripted put outcomes still queued after `attempted` puts.
pub open spec fn spec_remaining_faults(faults: Seq<bool>, attempted: int) -> Seq<bool> {
    if attempted <= faults.len() {
        faults.skip(attempted)
    } else {
        Seq::<bool>::empty()
    }
}

proof fn lemma_remaining_faults(faults: Seq<bool>, attempted: int)
    requires
        attempted >= 0,
    ensures
        spec_faults_after(spec_remaining_faults(faults, attempted)) == spec_remaining_faults(
            faults,
            attempted + 1,
        ),
        spec_put_fails(spec_remaining_faults(faults, attempted)) == spec_fault_at(
            faults,
            attempted,
        ),
{
    if attempted < faults.len() {
        assert(spec_remaining_faults(faults, attempted).drop_first() =~= spec_remaining_faults(
            faults,
            attempted + 1,
        ));
        assert(spec_remaining_faults(faults, attempted)[0] == faults[attempted]);
    } else {
        assert(spec_remaining_faults(faults, attempted) =~= Seq::<bool>::empty());
        assert(spec_remaining_faults(faults, attempted + 1) =~= Seq::<bool>::empty());
    }
}

/// A field-for-field copy of an upload file.
fn clone_upload_file(f: &UploadFile) -> (r: UploadFile)
    ensures
        r.data@ == f.data@,
        r.content_type == f.content_type,
        r.file_name == f.file_name,
{
    UploadFile {
        data: clone_bytes(&f.data),
        content_type: match &f.content_type {
            Some(ct) => Some(ct.clone()),
            None => None,
        },
        file_name: match &f.file_name {
            Some(n) => Some(n.clone()),
            None => None,
        },
    }
}

/// Ingests one upload batch for `user_id`. Files whose content this owner
/// already stores — or that repeat content accepted earlier in the same
/// batch — are skipped silently; a file whose blob put fails is dropped;
/// every accepted file's blob is stored and its catalog row committed in one
/// atomic batch. If the commit fails, every blob uploaded during this call
/// is deleted again and the call reports the failure.
#[verifier::rlimit(80)]
pub fn upload(state: &mut ApiState, user_id: u64, body: UploadRequest, now: i64) -> (r: Result<
    Vec<CdnObject>,
    ApiError,
>)
    requires
        old(state).wf(),
        old(state).storage.next_id + body.files@.len() < u64::MAX,
    ensures
        final(state).wf(),
        ({
            let st0 = *old(state);
            let st1 = *final(state);
            let files = body.files@;
            let oc = spec_ingest_outcome(st0.pg.rows@, user_id, files, st0.storage.put_faults@);
            let n0 = st0.storage.next_id;
            let e0 = st0.storage.entries@;
            &&& st1.meili == st0.meili
            &&& st1.ocr == st0.ocr
            &&& st1.storage.thumbs@ == st0.storage.thumbs@
            &&& st1.storage.next_id == n0 + oc.accepted.len()
            &&& st1.storage.put_faults@ == spec_remaining_faults(
                st0.storage.put_faults@,
                oc.attempted,
            )
            &&& !st1.pg.fail_next_commit
            &&& !st0.pg.fail_next_commit ==> (r matches Ok(created) && created@.len()
                == oc.accepted.len() && st1.pg.rows@ == st0.pg.rows@ + created@ && (forall|k: int|
                0 <= k < oc.accepted.len() ==> spec_created_row_ok(
                    #[trigger] created@[k],
                    files[oc.accepted[k]],
                    (n0 + k) as u64,
                    user_id,
                    now,
                )) && st1.storage.entries@.len() == e0.len() + oc.accepted.len()
                && st1.storage.entries@.take(e0.len() as int) == e0 && (forall|k: int|
                0 <= k < oc.accepted.len() ==> spec_uploaded_entry_ok(
                    #[trigger] st1.storage.entries@[e0.len() + k],
                    files[oc.accepted[k]],
                    (n0 + k) as u64,
                    user_id,
                )))
            &&& st0.pg.fail_next_commit ==> (r == Err::<Vec<CdnObject>, ApiError>(
                ApiError::Internal(StoreFault::CommitFailed),
            ) && st1.pg.rows@ == st0.pg.rows@ && st1.storage.entries@ == e0)
        }),
{
    let ghost st0 = *state;
    let ghost files = body.files@;
    let ghost faults0 = state.storage.put_faults@;
    let ghost n0 = state.storage.next_id;
    let ghost e0 = state.storage.entries@;

    let n = body.files.len();
    let mut uploaded_objects: Vec<CreateCdnObject> = Vec::new();
    let mut i: usize = 0;
    proof {
        assert(files.take(0) =~= Seq::<UploadFile>::empty());
    }
    while i < n
        invariant
            i <= n,
            n == files.len(),
            state.pg == st0.pg,
            state.meili == st0.meili,
            state.ocr == st0.ocr,
            state.storage.wf(),
            state.storage.thumbs@ == st0.storage.thumbs@,
            ({
                let oc = spec_ingest_outcome(st0.pg.rows@, user_id, files.take(i as int), faults0);
                oc.accepted.len() <= i && 0 <= oc.attempted <= i && uploaded_objects@.len()
                    == oc.accepted.len()
            }),
            ({
                let oc = spec_ingest_outcome(st0.pg.rows@, user_id, files.take(i as int), faults0);
                state.storage.next_id == n0 + oc.accepted.len()
            }),
            ({
                let oc = spec_ingest_outcome(st0.pg.rows@, user_id, files.take(i as int), faults0);
                state.storage.put_faults@ == spec_remaining_faults(faults0, oc.attempted)
            }),
            ({
                let oc = spec_ingest_outcome(st0.pg.rows@, user_id, files.take(i as int), faults0);
                state.storage.entries@.len() == e0.len() + oc.accepted.len()
            }),
            state.storage.entries@.take(e0.len() as int) == e0,
            ({
                let oc = spec_ingest_outcome(st0.pg.rows@, user_id, files.take(i as int), faults0);
                forall|k: int| 0 <= k < oc.accepted.len() ==> 0 <= #[trigger] oc.accepted[k] < i
            }),
            ({
                let oc = spec_ingest_outcome(st0.pg.rows@, user_id, files.take(i as int), faults0);
                forall|k: int|
                    0 <= k < oc.accepted.len() ==> spec_pending_ok(
                        #[trigger] uploaded_objects@[k],
                        files[oc.accepted[k]],
                        (n0 + k) as u64,
                        user_id,
                    )
            }),
            ({
                let oc = spec_ingest_outcome(st0.pg.rows@, user_id, files.take(i as int), faults0);
                forall|k: int|
                    0 <= k < oc.accepted.len() ==> spec_uploaded_entry_ok(
                        #[trigger] state.storage.entries@[e0.len() + k],
                        files[oc.accepted[k]],
                        (n0 + k) as u64,
                        user_id,
                    )
            }),
            forall|k: int|
                0 <= k < uploaded_objects@.len() ==> !spec_find_hash(
                    st0.pg.rows@,
                    user_id,
                    (#[trigger] uploaded_objects@[k]).hash@,
                ),
            forall|k: int, l: int|
                0 <= k < l < uploaded_objects@.len() ==> (#[trigger] uploaded_objects@[k]).hash@
                    != (#[trigger] uploaded_objects@[l]).hash@,
        decreases n - i,
    {
        let f = clone_upload_file(&body.files[i]);
        let ghost ocp = spec_ingest_outcome(st0.pg.rows@, user_id, files.take(i as int), faults0);
        let ghost pend_pre = uploaded_objects@;
        let ghost stg_pre = state.storage;
        let ghost fclone = f;
        let _r = process_upload(&state.pg, &mut state.storage, user_id, f, &mut uploaded_objects);
        i = i + 1;
        proof {
            let pre = files.take(i - 1);
            let cur = files.take(i as int);
            assert(cur.drop_last() =~= pre);
            assert(cur.last() == files[i - 1]);
            let h = spec_file_hash(files[i - 1]);
            assert(spec_file_hash(fclone) == h);
            assert(spec_file_ct(fclone) == spec_file_ct(files[i - 1]));
            let occ = spec_ingest_outcome(st0.pg.rows@, user_id, cur, faults0);
            // the coordinator's pending-hash test agrees with the spec's
            // batch-hash test
            assert(spec_pending_has_hash(pend_pre, h) == spec_batch_has_hash(
                files,
                ocp.accepted,
                h,
            )) by {
                if spec_pending_has_hash(pend_pre, h) {
                    let k = choose|k: int|
                        0 <= k < pend_pre.len() && (#[trigger] pend_pre[k]).hash@ == h;
                    assert(spec_pending_ok(
                        pend_pre[k],
                        files[ocp.accepted[k]],
                        (n0 + k) as u64,
                        user_id,
                    ));
                    assert(spec_file_hash(files[ocp.accepted[k]]) == h);
                }
                if spec_batch_has_hash(files, ocp.accepted, h) {
                    let k = choose|k: int|
                        0 <= k < ocp.accepted.len() && spec_file_hash(
                            files[#[trigger] ocp.accepted[k]],
                        ) == h;
                    assert(spec_pending_ok(
                        pend_pre[k],
                        files[ocp.accepted[k]],
                        (n0 + k) as u64,
                        user_id,
                    ));
                    assert(pend_pre[k].hash@ == h);
                }
            }
            let dedup = spec_find_hash(st0.pg.rows@, user_id, h) || spec_batch_has_hash(
                files,
                ocp.accepted,
                h,
            );
            lemma_remaining_faults(faults0, ocp.attempted);
            if dedup {
                assert(occ == ocp);
            } else if spec_fault_at(faults0, ocp.attempted) {
                assert(occ.accepted == ocp.accepted);
                assert(occ.attempted == ocp.attempted + 1);
                assert(state.storage.put_faults@ == spec_faults_after(stg_pre.put_faults@));
            } else {
                assert(occ.accepted == ocp.accepted.push(i - 1));
                assert(occ.attempted == ocp.attempted + 1);
                assert(state.storage.entries@.take(e0.len() as int) =~= stg_pre.entries@.take(
                    e0.len() as int,
                ));
                assert forall|k: int| 0 <= k < occ.accepted.len() implies spec_pending_ok(
                    #[trigger] uploaded_objects@[k],
                    files[occ.accepted[k]],
                    (n0 + k) as u64,
                    user_id,
                ) by {
                    if k < ocp.accepted.len() {
                        assert(uploaded_objects@[k] == pend_pre[k]);
                        assert(occ.accepted[k] == ocp.accepted[k]);
                    } else {
                        assert(uploaded_objects@[k] == uploaded_objects@.last());
                        assert(occ.accepted[k] == i - 1);
                        assert(spec_pending_ok(
                            uploaded_objects@.last(),
                            fclone,
                            stg_pre.next_id,
                            user_id,
                        ));
                    }
                }
                assert forall|k: int| 0 <= k < occ.accepted.len() implies spec_uploaded_entry_ok(
                    #[trigger] state.storage.entries@[e0.len() + k],
                    files[occ.accepted[k]],
                    (n0 + k) as u64,
                    user_id,
                ) by {
                    if k < ocp.accepted.len() {
                        assert(state.storage.entries@[e0.len() + k] == stg_pre.entries@[e0.len()
                            + k]);
                    } else {
                        assert(state.storage.entries@[e0.len() + k]
                            == state.storage.entries@.last());
                        assert(spec_uploaded_entry_ok(
                            state.storage.entries@.last(),
                            fclone,
                            stg_pre.next_id,
                            user_id,
                        ));
                    }
                }
                assert(uploaded_objects@.last().hash@ == h);
                assert forall|k: int| 0 <= k < uploaded_objects@.len() implies !spec_find_hash(
                    st0.pg.rows@,
                    user_id,
                    (#[trigger] uploaded_objects@[k]).hash@,
                ) by {
                    if k < pend_pre.len() {
                        assert(uploaded_objects@.drop_last()[k] == uploaded_objects@[k]);
                        assert(uploaded_objects@[k] == pend_pre[k]);
                    } else {
                        assert(uploaded_objects@[k] == uploaded_objects@.last());
                    }
                }
                assert forall|k: int, l: int| 0 <= k < l < uploaded_objects@.len() implies (
                #[trigger] uploaded_objects@[k]).hash@ != (#[trigger] uploaded_objects@[l]).hash@
                    by {
                    assert(uploaded_objects@.drop_last()[k] == uploaded_objects@[k]);
                    assert(uploaded_objects@[k] == pend_pre[k]);
                    if l < pend_pre.len() {
                        assert(uploaded_objects@.drop_last()[l] == uploaded_objects@[l]);
                        assert(uploaded_objects@[l] == pend_pre[l]);
                    } else {
                        assert(uploaded_objects@[l] == uploaded_objects@.last());
                        assert(!spec_pending_has_hash(pend_pre, h));
                        if pend_pre[k].hash@ == h {
                            assert(spec_pending_has_hash(pend_pre, h));
                        }
                    }
                }
            }
        }
    }
    proof {
        assert(files.take(n as int) =~= files);
    }
    let ghost oc = spec_ingest_outcome(st0.pg.rows@, user_id, files, faults0);
    let ghost st_a = *state;

    let m = uploaded_objects.len();
    let mut rows: Vec<CdnObject> = Vec::new();
    let mut j: usize = 0;
    while j < m
        invariant
            j <= m,
            m == uploaded_objects@.len(),
            *state == st_a,
            rows@.len() == j,
            forall|k: int|
                0 <= k < j ==> spec_created_row_ok(
                    #[trigger] rows@[k],
                    files[oc.accepted[k]],
                    (n0 + k) as u64,
                    user_id,
                    now,
                ),
            forall|k: int| 0 <= k < j ==> (#[trigger] rows@[k]).sha256_hash
                == uploaded_objects@[k].hash,
            forall|k: int| 0 <= k < j ==> crate::db::row_wf(#[trigger] rows@[k]),
        decreases m - j,
    {
        let req = uploaded_objects[j].clone();
        let flags = initial_flags(req.content_type.as_str());
        let row = create_cdn_object(req, flags, now);
        rows.push(row);
        j = j + 1;
    }

    proof {
        assert forall|k: int, l: int| 0 <= k < l < rows@.len() implies (#[trigger] rows@[k]).id
            != (#[trigger] rows@[l]).id by {
            assert(rows@[k].id == (n0 + k) as u64);
            assert(rows@[l].id == (n0 + l) as u64);
        }
        assert forall|k: int, l: int| 0 <= k < l < rows@.len() implies !((
        #[trigger] rows@[k]).user_id == (#[trigger] rows@[l]).user_id && rows@[k].sha256_hash@
            == rows@[l].sha256_hash@) by {
            assert(rows@[k].sha256_hash == uploaded_objects@[k].hash);
            assert(rows@[l].sha256_hash == uploaded_objects@[l].hash);
            assert(uploaded_objects@[k].hash@ != uploaded_objects@[l].hash@);
        }
        assert forall|k: int| 0 <= k < rows@.len() implies !spec_has_id(
            st0.pg.rows@,
            (#[trigger] rows@[k]).id,
        ) by {
            if spec_has_id(st0.pg.rows@, rows@[k].id) {
                let w = choose|w: int|
                    0 <= w < st0.pg.rows@.len() && (#[trigger] st0.pg.rows@[w]).id == rows@[k].id;
                assert(st0.pg.rows@[w].id < n0);
                assert(rows@[k].id == (n0 + k) as u64);
            }
        }
        assert forall|k: int| 0 <= k < rows@.len() implies !spec_find_hash(
            st0.pg.rows@,
            (#[trigger] rows@[k]).user_id,
            rows@[k].sha256_hash@,
        ) by {
            assert(rows@[k].user_id == user_id);
            assert(rows@[k].sha256_hash == uploaded_objects@[k].hash);
            assert(!spec_find_hash(st0.pg.rows@, user_id, uploaded_objects@[k].hash@));
        }
    }
    let commit_res = state.pg.commit_batch(rows);
    match commit_res {
        Ok(created) => {
            proof {
                assert forall|z: int| 0 <= z < state.pg.rows@.len() implies (
                #[trigger] state.pg.rows@[z]).id < state.storage.next_id by {
                    if z < st0.pg.rows@.len() {
                        assert(state.pg.rows@[z] == st0.pg.rows@[z]);
                    } else {
                        assert(state.pg.rows@[z] == created@[z - st0.pg.rows@.len()]);
                    }
                }
            }
            Ok(created)
        },
        Err(fault) => {
            let ghost e_a = state.storage.entries@;
            let ghost batch = e_a.skip(e0.len() as int);
            proof {
                assert(e_a =~= e0 + batch);
                assert(batch.len() == oc.accepted.len());
                assert(forall|k: int|
                    0 <= k < batch.len() ==> #[trigger] batch[k] == e_a[e0.len() + k]);
            }
            let mut c: usize = 0;
            proof {
                assert(batch.skip(0) =~= batch);
            }
            while c < m
                invariant
                    c <= m,
                    m == uploaded_objects@.len(),
                    m == batch.len(),
                    state.pg.wf(),
                    state.pg.rows@ == st0.pg.rows@,
                    !state.pg.fail_next_commit,
                    state.meili == st_a.meili,
                    state.ocr == st_a.ocr,
                    state.storage.wf(),
                    state.storage.thumbs@ == st_a.storage.thumbs@,
                    state.storage.next_id == st_a.storage.next_id,
                    state.storage.put_faults@ == st_a.storage.put_faults@,
                    state.storage.entries@ == e0 + batch.skip(c as int),
                decreases m - c,
            {
                let target = uploaded_objects[c].id;
                let ghost cur = state.storage.entries@;
                proof {
                    assert(spec_uploaded_entry_ok(
                        batch[c as int],
                        files[oc.accepted[c as int]],
                        (n0 + c) as u64,
                        user_id,
                    ));
                    assert(uploaded_objects@[c as int].id == (n0 + c) as u64);
                    assert(cur[e0.len() as int] == batch[c as int]);
                    assert forall|w: int| 0 <= w < e0.len() implies !((#[trigger] cur[w]).user_id
                        == user_id && cur[w].id == target) by {
                        assert(cur[w] == e0[w]);
                        assert(e0[w].id < n0);
                    }
                    crate::storage::lemma_delete_entry_at(
                        cur,
                        user_id,
                        target,
                        e0.len() as int,
                    );
                    assert(cur.subrange(0, e0.len() as int) =~= e0);
                    assert(cur.subrange(e0.len() as int + 1, cur.len() as int) =~= batch.skip(
                        c as int + 1,
                    ));
                }
                let _ = state.storage.delete_user_object(user_id, target);
                c = c + 1;
                proof {
                    assert(state.storage.entries@ =~= e0 + batch.skip(c as int));
                }
            }
            proof {
                assert(batch.skip(m as int) =~= Seq::<BlobEntry>::empty());
                assert(state.storage.entries@ =~= e0);
            }
            Err(ApiError::Internal(fault))
        },
    }
}

/// Serves one object: its catalog row and its blob bytes.
pub fn fetch_object(state: &ApiState, user_id: u64, id: u64) -> (r: Result<
    (CdnObject, Vec<u8>),
    ApiError,
>)
    ensures
        r matches Ok(p) ==> (spec_fetch(state.pg.rows@, user_id, id) == Some(p.0) && match crate::storage::spec_get_entry(
            state.storage.entries@,
            user_id,
            id,
        ) {
            Some(e) => p.1@ == e.data@,
            None => false,
        }),
        r is Err ==> r == Err::<(CdnObject, Vec<u8>), ApiError>(ApiError::CdnObjectNotFound) && (
        spec_fetch(state.pg.rows@, user_id, id) is None || crate::storage::spec_get_entry(
            state.storage.entries@,
            user_id,
            id,
        ) is None),
{
    let obj_pg = match state.pg.fetch_cdn_object(user_id, id) {
        Ok(v) => v,
        Err(_) => {
            return Err(ApiError::CdnObjectNotFound);
        },
    };
    let obj_s3 = match state.storage.get_user_object(user_id, id) {
        Ok(v) => v,
        Err(_) => {
            return Err(ApiError::CdnObjectNotFound);
        },
    };
    Ok((obj_pg, obj_s3))
}

/// Serves a published object by its slug.
pub fn fetch_obj_by_slug(state: &ApiState, slug: &str) -> (r: Result<
    (CdnObject, Vec<u8>),
    ApiError,
>)
    ensures
        r matches Ok(p) ==> (spec_fetch_slug(state.pg.rows@, slug@) == Some(p.0)
            && match crate::storage::spec_get_entry(state.storage.entries@, p.0.user_id, p.0.id) {
            Some(e) => p.1@ == e.data@,
            None => false,
        }),
        r is Err ==> r == Err::<(CdnObject, Vec<u8>), ApiError>(ApiError::CdnObjectNotFound),
        r is Err ==> match spec_fetch_slug(state.pg.rows@, slug@) {
            Some(o) => crate::storage::spec_get_entry(
                state.storage.entries@,
                o.user_id,
                o.id,
            ) is None,
            None => true,
        },
{
    let obj_pg = match state.pg.fetch_cdn_object_slug(slug) {
        Ok(v) => v,
        Err(_) => {
            return Err(ApiError::CdnObjectNotFound);
        },
    };
    let obj_s3 = match state.storage.get_user_object(obj_pg.user_id, obj_pg.id) {
        Ok(v) => v,
        Err(_) => {
            return Err(ApiError::CdnObjectNotFound);
        },
    };
    Ok((obj_pg, obj_s3))
}

/// Publishes one object: derives its slug and makes it public, exactly once.
pub fn publish_object(state: &mut ApiState, user_id: u64, body: PublishObjectReq) -> (r: Result<
    CdnObject,
    ApiError,
>)
    requires
        old(state).wf(),
    ensures
        final(state).wf(),
        final(state).storage == old(state).storage,
        final(state).meili == old(state).meili,
        final(state).ocr == old(state).ocr,
        final(state).pg.fail_next_commit == old(state).pg.fail_next_commit,
        match spec_fetch(old(state).pg.rows@, user_id, body.id) {
            None => r == Err::<CdnObject, ApiError>(ApiError::CdnObjectNotFound)
                && final(state).pg.rows@ == old(state).pg.rows@,
            Some(o) => if o.is_public || o.slug is Some {
                r == Err::<CdnObject, ApiError>(ApiError::ObjectIsAlreadyPublic)
                    && final(state).pg.rows@ == old(state).pg.rows@
            } else {
                ({
                    &&& r matches Ok(p) && p.id == o.id && p.user_id == user_id && p.is_public
                        && match p.slug {
                        Some(s) => s@ == u64_hex_of(o.id),
                        None => false,
                    }
                    &&& exists|k: int, s: String|
                        0 <= k < old(state).pg.rows@.len() && old(state).pg.rows@[k].id == o.id
                            && s@ == u64_hex_of(o.id) && final(state).pg.rows@ == old(
                            state,
                        ).pg.rows@.update(k, #[trigger] spec_published(old(state).pg.rows@[k], s))
                })
            },
        },
{
    let mut object = match state.pg.fetch_cdn_object(user_id, body.id) {
        Ok(v) => v,
        Err(_) => {
            return Err(ApiError::CdnObjectNotFound);
        },
    };
    let already = object.is_public || match &object.slug {
        Some(_) => true,
        None => false,
    };
    if already {
        return Err(ApiError::ObjectIsAlreadyPublic);
    }
    proof {
        crate::db::lemma_fetch_is_member(old(state).pg.rows@, user_id, body.id);
        let w = choose|w: int| 0 <= w < state.pg.rows@.len() && state.pg.rows@[w] == object;
        assert forall|i: int|
            0 <= i < state.pg.rows@.len() && (#[trigger] state.pg.rows@[i]).id == object.id
                implies !state.pg.rows@[i].is_public by {
            assert(state.pg.rows@[w].id == object.id);
            assert(i == w);
        }
    }
    let slug = match state.pg.create_slug_and_publish(object.id) {
        Ok(s) => s,
        Err(e) => {
            return Err(e);
        },
    };
    object.slug = Some(slug);
    object.is_public = true;
    proof {
        let (k, s): (int, String) = choose|k: int, s: String|
            0 <= k < old(state).pg.rows@.len() && old(state).pg.rows@[k].id == object.id && s@
                == u64_hex_of(object.id) && state.pg.rows@ == old(state).pg.rows@.update(
                k,
                #[trigger] spec_published(old(state).pg.rows@[k], s),
            );
        assert forall|z: int| 0 <= z < state.pg.rows@.len() implies (
        #[trigger] state.pg.rows@[z]).id < state.storage.next_id by {
            assert(state.pg.rows@.len() == old(state).pg.rows@.len());
            if z == k {
            } else {
                assert(state.pg.rows@[z] == old(state).pg.rows@[z]);
            }
        }
    }
    Ok(object)
}

/// Deletes this owner's listed objects: catalog rows first, then blobs.
/// A missing blob surfaces the store's error after the rows are gone.
pub fn delete_objects(state: &mut ApiState, user_id: u64, body: DeleteObjectsRequest) -> (r: Result<
    (),
    ApiError,
>)
    requires
        old(state).wf(),
    ensures
        final(state).wf(),
        final(state).meili == old(state).meili,
        final(state).ocr == old(state).ocr,
        final(state).pg.rows@ == crate::db::spec_delete_rows(
            old(state).pg.rows@,
            user_id,
            body.files@,
        ),
        final(state).storage.thumbs@ == old(state).storage.thumbs@,
        final(state).storage.next_id == old(state).storage.next_id,
        final(state).storage.put_faults@ == old(state).storage.put_faults@,
        r is Ok ==> final(state).storage.entries@ == spec_delete_many(
            old(state).storage.entries@,
            user_id,
            body.files@,
        ),
        r is Err ==> (r == Err::<(), ApiError>(ApiError::Internal(StoreFault::BlobNotFound))
            && exists|c: int|
            0 <= c < body.files@.len() && final(state).storage.entries@
                == #[trigger] spec_delete_many(
                old(state).storage.entries@,
                user_id,
                body.files@.take(c),
            ) && crate::storage::spec_get_entry(
                final(state).storage.entries@,
                user_id,
                body.files@[c],
            ) is None),
{
    state.pg.delete_cdn_objects(user_id, &body.files);
    proof {
        crate::db::lemma_delete_rows_members(old(state).pg.rows@, user_id, body.files@);
        assert forall|z: int| 0 <= z < state.pg.rows@.len() implies (
        #[trigger] state.pg.rows@[z]).id < state.storage.next_id by {
            let w = choose|w: int|
                0 <= w < old(state).pg.rows@.len() && old(state).pg.rows@[w] == crate::db::spec_delete_rows(
                    old(state).pg.rows@,
                    user_id,
                    body.files@,
                )[z];
            assert(old(state).pg.rows@[w].id < old(state).storage.next_id);
        }
    }
    let ghost e0 = state.storage.entries@;
    let n = body.files.len();
    let mut c: usize = 0;
    proof {
        assert(body.files@.take(0) =~= Seq::<u64>::empty());
    }
    while c < n
        invariant
            c <= n,
            n == body.files@.len(),
            state.pg.wf(),
            state.pg.rows@ == crate::db::spec_delete_rows(old(state).pg.rows@, user_id, body.files@),
            forall|z: int|
                0 <= z < state.pg.rows@.len() ==> (#[trigger] state.pg.rows@[z]).id
                    < state.storage.next_id,
            state.meili == old(state).meili,
            state.ocr == old(state).ocr,
            state.storage.wf(),
            state.storage.thumbs@ == old(state).storage.thumbs@,
            state.storage.next_id == old(state).storage.next_id,
            state.storage.put_faults@ == old(state).storage.put_faults@,
            state.storage.entries@ == spec_delete_many(e0, user_id, body.files@.take(c as int)),
        decreases n - c,
    {
        let res = state.storage.delete_user_object(user_id, body.files[c]);
        proof {
            assert(body.files@.take(c as int + 1).drop_last() =~= body.files@.take(c as int));
            assert(body.files@.take(c as int + 1).last() == body.files@[c as int]);
        }
        match res {
            Ok(_) => {},
            Err(fault) => {
                proof {
                    crate::storage::lemma_get_none_delete_same(
                        spec_delete_many(e0, user_id, body.files@.take(c as int)),
                        user_id,
                        body.files@[c as int],
                    );
                    assert(state.storage.entries@ == spec_delete_many(
                        e0,
                        user_id,
                        body.files@.take(c as int),
                    ));
                }
                return Err(ApiError::Internal(fault));
            },
        }
        c = c + 1;
    }
    proof {
        assert(body.files@.take(n as int) =~= body.files@);
    }
    Ok(())
}

/// One page of this owner's objects, most recent first. Negative paging
/// values are rejected before they reach the catalog.
pub fn list_objects(state: &ApiState, user_id: u64, query: &ListObjectsQuery) -> (r: Result<
    Vec<CdnObject>,
    ApiError,
>)
    ensures
        (query.limit < 0 || query.skip < 0) ==> r == Err::<Vec<CdnObject>, ApiError>(
            ApiError::Internal(StoreFault::InvalidQuery),
        ),
        (query.limit >= 0 && query.skip >= 0) ==> (r matches Ok(v) && v@ == crate::db::spec_list(
            state.pg.rows@,
            user_id,
            query.limit as int,
            query.skip as int,
        )),
{
    if query.limit < 0 || query.skip < 0 {
        return Err(ApiError::Internal(StoreFault::InvalidQuery));
    }
    Ok(state.pg.list_cdn_object(user_id, query.limit as usize, query.skip as usize))
}

/// The entries left after deleting each listed id of this owner, in order.
pub open spec fn spec_delete_many(entries: Seq<BlobEntry>, user_id: u64, ids: Seq<u64>) -> Seq<
    BlobEntry,
>
    decreases ids.len(),
{
    if ids.len() == 0 {
        entries
    } else {
        crate::storage::spec_delete_entry(
            spec_delete_many(entries, user_id, ids.drop_last()),
            user_id,
            ids.last(),
        )
    }
}

/// What a thumbnail request finds before any pixel work happens: the cached
/// thumbnail bytes, or the original bytes the thumbnail must be computed
/// from.
#[derive(Debug)]
pub enum ThumbSource {
    Cached(Vec<u8>),
    Original(Vec<u8>),
}

/// The content-type gate of the thumbnail pipeline.
pub open spec fn spec_is_image_ct(ct: Seq<char>) -> bool {
    crate::strutil::spec_has_prefix(ct, "image/"@)
}

/// The read half of the thumbnail cache-aside: a cached thumbnail is served
/// as it was stored, byte for byte; only on a miss are the original bytes
/// handed out for the decode/resize/encode work.
pub fn fetch_object_thumb(state: &ApiState, user_id: u64, id: u64) -> (r: Result<
    ThumbSource,
    ApiError,
>)
    ensures
        match spec_fetch(state.pg.rows@, user_id, id) {
            None => r == Err::<ThumbSource, ApiError>(ApiError::CdnObjectNotFound),
            Some(o) => if !spec_is_image_ct(o.content_type@) {
                r == Err::<ThumbSource, ApiError>(ApiError::ObjectHasNoThumbnail)
            } else {
                match crate::storage::spec_get_entry(state.storage.thumbs@, user_id, id) {
                    Some(t) => r matches Ok(src) && src matches ThumbSource::Cached(v) && v@
                        == t.data@,
                    None => match crate::storage::spec_get_entry(
                        state.storage.entries@,
                        user_id,
                        id,
                    ) {
                        Some(e) => r matches Ok(src) && src matches ThumbSource::Original(v) && v@
                            == e.data@,
                        None => r == Err::<ThumbSource, ApiError>(ApiError::CdnObjectNotFound),
                    },
                }
            },
        },
{
    let obj_pg = match state.pg.fetch_cdn_object(user_id, id) {
        Ok(v) => v,
        Err(_) => {
            return Err(ApiError::CdnObjectNotFound);
        },
    };
    if !crate::strutil::str_has_prefix(obj_pg.content_type.as_str(), "image/") {
        return Err(ApiError::ObjectHasNoThumbnail);
    }
    match state.storage.get_object_thumb(user_id, id) {
        Ok(cached) => {
            return Ok(ThumbSource::Cached(cached));
        },
        Err(_) => {},
    }
    match state.storage.get_user_object(user_id, id) {
        Ok(original) => Ok(ThumbSource::Original(original)),
        Err(_) => Err(ApiError::CdnObjectNotFound),
    }
}

/// The write half of the thumbnail cache-aside: persists the computed
/// thumbnail at its cache key and hands the bytes back for the response.
pub fn store_object_thumb(state: &mut ApiState, user_id: u64, id: u64, buffer: Vec<u8>) -> (out:
    Vec<u8>)
    requires
        old(state).wf(),
    ensures
        final(state).wf(),
        out == buffer,
        final(state).pg == old(state).pg,
        final(state).meili == old(state).meili,
        final(state).ocr == old(state).ocr,
        final(state).storage.entries@ == old(state).storage.entries@,
        final(state).storage.next_id == old(state).storage.next_id,
        final(state).storage.put_faults@ == old(state).storage.put_faults@,
        exists|e: BlobEntry|
            e.user_id == user_id && e.id == id && e.data@ == buffer@ && final(state).storage.thumbs@
                == #[trigger] crate::storage::spec_upsert_entry(
                old(state).storage.thumbs@,
                user_id,
                id,
                e,
            ),
        crate::storage::spec_get_entry(final(state).storage.thumbs@, user_id, id) matches Some(e)
            && e.data@ == buffer@,
{
    state.storage.upload_object_thumb(user_id, id, buffer, String::from_str("image/webp"))
}

/// Searches this owner's indexed objects and serves the catalog rows of the
/// hits, in the index's ranking order; hits with no catalog row are skipped.
pub fn search_objects(state: &ApiState, user_id: u64, query: &SearchObjectsQuery) -> (objects: Vec<
    CdnObject,
>)
    ensures
        objects@ == spec_rows_for_hits(
            state.pg.rows@,
            user_id,
            spec_search(state.meili.docs@, user_id, query.q@, 0),
        ),
{
    let hits = state.meili.search_objects(user_id, query.q.as_str(), 0);
    let n = hits.len();
    let mut objects: Vec<CdnObject> = Vec::new();
    let mut i: usize = 0;
    while i < n
        invariant
            i <= n,
            n == hits@.len(),
            objects@ == spec_rows_for_hits(state.pg.rows@, user_id, hits@.take(i as int)),
        decreases n - i,
    {
        match state.pg.fetch_cdn_object(user_id, hits[i].id) {
            Ok(o) => {
                objects.push(o);
            },
            Err(_) => {},
        }
        i = i + 1;
        proof {
            assert(hits@.take(i as int).drop_last() =~= hits@.take(i - 1));
            assert(hits@.take(i as int).last() == hits@[i - 1]);
        }
    }
    proof {
        assert(hits@.take(n as int) =~= hits@);
    }
    objects
}

/// How many files of a batch duplicate content this owner already stores.
pub open spec fn spec_dup_count(rows: Seq<CdnObject>, user_id: u64, files: Seq<UploadFile>) -> int
    decreases files.len(),
{
    if files.len() == 0 {
        0
    } else {
        spec_dup_count(rows, user_id, files.drop_last()) + if spec_find_hash(
            rows,
            user_id,
            spec_file_hash(files.last()),
        ) {
            1int
        } else {
            0int
        }
    }
}

/// Deduplication is exact: for a batch of N files, with no injected put
/// faults, of which M duplicate content this owner already stores, the
/// coordinator accepts exactly N − M files — one per fresh content — so the
/// call creates exactly N − M records and the blob store gains exactly N − M
/// keys. The batch's contents must have pairwise distinct digests: on a
/// digest collision between two distinct contents, deduplication keys them
/// as one.
pub proof fn lemma_ingest_accepts_exactly_fresh(
    rows: Seq<CdnObject>,
    user_id: u64,
    files: Seq<UploadFile>,
    faults: Seq<bool>,
)
    requires
        faults.len() == 0,
        forall|i: int, j: int|
            0 <= i < j < files.len() ==> spec_file_hash(files[i]) != spec_file_hash(files[j]),
    ensures
        spec_ingest_outcome(rows, user_id, files, faults).accepted.len() == files.len()
            - spec_dup_count(rows, user_id, files),
        forall|k: int|
            0 <= k < spec_ingest_outcome(rows, user_id, files, faults).accepted.len() ==> 0
                <= #[trigger] spec_ingest_outcome(rows, user_id, files, faults).accepted[k]
                < files.len(),
    decreases files.len(),
{
    if files.len() > 0 {
        let pre = files.drop_last();
        assert(forall|i: int| 0 <= i < pre.len() ==> pre[i] == files[i]);
        lemma_ingest_accepts_exactly_fresh(rows, user_id, pre, faults);
        let prev = spec_ingest_outcome(rows, user_id, pre, faults);
        let i = files.len() - 1;
        let h = spec_file_hash(files[i]);
        assert(!spec_fault_at(faults, prev.attempted));
        if !spec_find_hash(rows, user_id, h) {
            assert(!spec_batch_has_hash(files, prev.accepted, h)) by {
                if spec_batch_has_hash(files, prev.accepted, h) {
                    let k = choose|k: int|
                        0 <= k < prev.accepted.len() && spec_file_hash(
                            files[#[trigger] prev.accepted[k]],
                        ) == h;
                    assert(0 <= prev.accepted[k] < pre.len());
                    assert(spec_file_hash(files[prev.accepted[k]]) != spec_file_hash(files[i]));
                }
            }
        }
    }
}

/// The catalog rows for a ranked list of index hits, in ranking order; a hit
/// without a catalog row contributes nothing.
pub open spec fn spec_rows_for_hits(
    rows: Seq<CdnObject>,
    user_id: u64,
    hits: Seq<ObjectOcrDoc>,
) -> Seq<CdnObject>
    decreases hits.len(),
{
    if hits.len() == 0 {
        Seq::<CdnObject>::empty()
    } else {
        spec_rows_for_hits(rows, user_id, hits.drop_last()) + match spec_fetch(
            rows,
            user_id,
            hits.last().id,
        ) {
            Some(o) => seq![o],
            None => Seq::<CdnObject>::empty(),
        }
    }
}

} // verus!
