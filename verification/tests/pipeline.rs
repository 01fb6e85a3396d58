use cdn_vault::cdn::{
    delete_objects, fetch_obj_by_slug, fetch_object, fetch_object_thumb, list_objects,
    publish_object, search_objects, store_object_thumb, upload, DeleteObjectsRequest,
    ListObjectsQuery, PublishObjectReq, SearchObjectsQuery, ThumbSource, UploadFile, UploadRequest,
};
use cdn_vault::error::{ApiError, StoreFault};
use cdn_vault::flags::{COF_INDEXED, COF_SEARCHABLE};
use cdn_vault::hex::u64_to_hex;
use cdn_vault::state::ApiState;
use cdn_vault::tasks::run_tasks;

const OWNER: u64 = 7;

fn png_file(bytes: &[u8], name: &str) -> UploadFile {
    UploadFile {
        data: bytes.to_vec(),
        content_type: Some("image/png".to_string()),
        file_name: Some(name.to_string()),
    }
}

fn text_file(bytes: &[u8], name: &str) -> UploadFile {
    UploadFile {
        data: bytes.to_vec(),
        content_type: Some("text/plain".to_string()),
        file_name: Some(name.to_string()),
    }
}

#[test]
fn batch_dedup_creates_fresh_files_only() {
    let mut state = ApiState::new();
    let created = upload(
        &mut state,
        OWNER,
        UploadRequest { files: vec![png_file(b"aaa", "a.png"), png_file(b"bbb", "b.png")] },
        10,
    )
    .unwrap();
    assert_eq!(created.len(), 2);
    assert_eq!(state.storage.entries.len(), 2);

    // one file duplicates stored content, one is fresh
    let created = upload(
        &mut state,
        OWNER,
        UploadRequest { files: vec![png_file(b"aaa", "a2.png"), png_file(b"ccc", "c.png")] },
        11,
    )
    .unwrap();
    assert_eq!(created.len(), 1);
    assert_eq!(created[0].file_name, "c.png");
    assert_eq!(state.storage.entries.len(), 3);
    assert_eq!(state.pg.rows.len(), 3);
}

#[test]
fn same_batch_duplicates_create_one_record() {
    let mut state = ApiState::new();
    let created = upload(
        &mut state,
        OWNER,
        UploadRequest { files: vec![png_file(b"same", "x.png"), png_file(b"same", "y.png")] },
        10,
    )
    .unwrap();
    assert_eq!(created.len(), 1);
    assert_eq!(state.storage.entries.len(), 1);
    assert_eq!(state.pg.rows.len(), 1);

    // a later call with the same bytes creates nothing at all
    let created = upload(
        &mut state,
        OWNER,
        UploadRequest { files: vec![png_file(b"same", "z.png")] },
        11,
    )
    .unwrap();
    assert_eq!(created.len(), 0);
    assert_eq!(state.storage.entries.len(), 1);
    assert_eq!(state.pg.rows.len(), 1);
}

#[test]
fn failed_commit_compensates_every_uploaded_blob() {
    let mut state = ApiState::new();
    let created = upload(
        &mut state,
        OWNER,
        UploadRequest { files: vec![png_file(b"keep", "k.png")] },
        5,
    )
    .unwrap();
    assert_eq!(created.len(), 1);
    assert_eq!(state.storage.entries.len(), 1);

    state.pg.fail_next_commit = true;
    let r = upload(
        &mut state,
        OWNER,
        UploadRequest { files: vec![png_file(b"one", "1.png"), png_file(b"two", "2.png")] },
        6,
    );
    assert_eq!(r.unwrap_err(), ApiError::Internal(StoreFault::CommitFailed));
    // the blob store holds exactly what it held before the failed call
    assert_eq!(state.storage.entries.len(), 1);
    assert_eq!(state.storage.entries[0].data, b"keep".to_vec());
    assert_eq!(state.pg.rows.len(), 1);
}

#[test]
fn refused_put_drops_only_that_file() {
    let mut state = ApiState::new();
    state.storage.put_faults.push(true);
    let created = upload(
        &mut state,
        OWNER,
        UploadRequest { files: vec![png_file(b"first", "f.png"), png_file(b"second", "s.png")] },
        9,
    )
    .unwrap();
    assert_eq!(created.len(), 1);
    assert_eq!(created[0].file_name, "s.png");
    assert_eq!(state.storage.entries.len(), 1);
}

#[test]
fn upload_defaults_for_missing_metadata() {
    let mut state = ApiState::new();
    let created = upload(
        &mut state,
        OWNER,
        UploadRequest {
            files: vec![UploadFile { data: b"blob".to_vec(), content_type: None, file_name: None }],
        },
        3,
    )
    .unwrap();
    assert_eq!(created.len(), 1);
    assert_eq!(created[0].content_type, "application/octet-stream");
    let expected_name = format!("{}_no_file_name", u64_to_hex(created[0].id));
    assert_eq!(created[0].file_name, expected_name);
    assert_eq!(created[0].flags, 0);
    assert!(!created[0].is_public);
    assert!(created[0].slug.is_none());
    assert_eq!(created[0].content_size, 4);
    assert_eq!(
        created[0].sha256_hash,
        cdn_vault::hashing::sha256_hex(b"blob")
    );
}

#[test]
fn thumbnail_cache_is_idempotent() {
    let mut state = ApiState::new();
    let created = upload(
        &mut state,
        OWNER,
        UploadRequest { files: vec![png_file(b"pixels", "p.png")] },
        4,
    )
    .unwrap();
    let id = created[0].id;

    // first request misses the cache and hands out the original bytes
    let src = fetch_object_thumb(&state, OWNER, id).unwrap();
    let original = match src {
        ThumbSource::Original(v) => v,
        ThumbSource::Cached(_) => panic!("no thumbnail was stored yet"),
    };
    assert_eq!(original, b"pixels".to_vec());

    // the computed thumbnail is persisted at the cache key
    let thumb = b"tiny-webp".to_vec();
    let out = store_object_thumb(&mut state, OWNER, id, thumb.clone());
    assert_eq!(out, thumb);

    // the second and third requests are byte-identical cache hits
    for _ in 0..2 {
        let src = fetch_object_thumb(&state, OWNER, id).unwrap();
        match src {
            ThumbSource::Cached(v) => assert_eq!(v, thumb),
            ThumbSource::Original(_) => panic!("the cache entry was not served"),
        }
    }
}

#[test]
fn thumbnail_refused_for_non_image() {
    let mut state = ApiState::new();
    let created = upload(
        &mut state,
        OWNER,
        UploadRequest { files: vec![text_file(b"notes", "n.txt")] },
        4,
    )
    .unwrap();
    let r = fetch_object_thumb(&state, OWNER, created[0].id);
    assert_eq!(r.unwrap_err(), ApiError::ObjectHasNoThumbnail);
    let r = fetch_object_thumb(&state, OWNER, 999);
    assert_eq!(r.unwrap_err(), ApiError::CdnObjectNotFound);
}

#[test]
fn scheduler_tick_indexes_eligible_objects() {
    let mut state = ApiState::new();
    let created = upload(
        &mut state,
        OWNER,
        UploadRequest { files: vec![png_file(b"scan", "s.png"), text_file(b"txt", "t.txt")] },
        20,
    )
    .unwrap();
    let image_id = created[0].id;
    assert_eq!(created[0].flags, COF_SEARCHABLE);
    assert_eq!(created[1].flags, 0);

    state.ocr.outcomes.push(Some("invoice 42".to_string()));
    run_tasks(&mut state, 21);

    let row = state.pg.rows.iter().find(|r| r.id == image_id).unwrap();
    assert_eq!(row.flags & COF_INDEXED, COF_INDEXED);
    assert_eq!(row.flags & COF_SEARCHABLE, COF_SEARCHABLE);
    let doc = state.meili.docs.iter().find(|d| d.id == image_id).unwrap();
    assert_eq!(doc.content, "invoice 42");
    assert!(!doc.content.is_empty());
    assert_eq!(doc.user_id, OWNER);
    assert_eq!(doc.created_at, 21);

    // a second tick selects nothing: the scripted outcome stays unconsumed
    state.ocr.outcomes.push(Some("never used".to_string()));
    run_tasks(&mut state, 22);
    assert_eq!(state.ocr.outcomes.len(), 1);
    let row = state.pg.rows.iter().find(|r| r.id == image_id).unwrap();
    assert_eq!(row.flags, COF_SEARCHABLE | COF_INDEXED);
}

#[test]
fn unsupported_content_type_is_never_indexed() {
    let mut state = ApiState::new();
    upload(
        &mut state,
        OWNER,
        UploadRequest { files: vec![text_file(b"plain", "p.txt")] },
        30,
    )
    .unwrap();
    state.ocr.outcomes.push(Some("text".to_string()));
    run_tasks(&mut state, 31);
    // the raw object was never selected: no extraction ran, nothing indexed
    assert_eq!(state.ocr.outcomes.len(), 1);
    assert!(state.meili.docs.is_empty());
    assert_eq!(state.pg.rows[0].flags, 0);
}

#[test]
fn missing_blob_leaves_object_eligible_for_retry() {
    let mut state = ApiState::new();
    let created = upload(
        &mut state,
        OWNER,
        UploadRequest { files: vec![png_file(b"gone", "g.png")] },
        40,
    )
    .unwrap();
    let id = created[0].id;

    // the blob disappears out-of-band before the tick runs
    state.storage.delete_user_object(OWNER, id).unwrap();
    state.ocr.outcomes.push(Some("unreachable".to_string()));
    run_tasks(&mut state, 41);

    // the fetch failed: flags unchanged, nothing extracted or indexed
    assert_eq!(state.ocr.outcomes.len(), 1);
    assert!(state.meili.docs.is_empty());
    let row = state.pg.rows.iter().find(|r| r.id == id).unwrap();
    assert_eq!(row.flags, COF_SEARCHABLE);
    // and the next tick selects it again, with no manual intervention
    let selected = state.pg.select_searchable_unindexed();
    assert_eq!(selected.len(), 1);
    assert_eq!(selected[0].id, id);
}

#[test]
fn index_write_failure_is_retried_next_tick() {
    let mut state = ApiState::new();
    let created = upload(
        &mut state,
        OWNER,
        UploadRequest { files: vec![png_file(b"flaky", "f.png")] },
        50,
    )
    .unwrap();
    let id = created[0].id;

    state.ocr.outcomes.push(Some("first try".to_string()));
    state.meili.index_faults.push(true);
    run_tasks(&mut state, 51);
    assert!(state.meili.docs.is_empty());
    assert_eq!(state.pg.rows[0].flags, COF_SEARCHABLE);

    state.ocr.outcomes.push(Some("second try".to_string()));
    run_tasks(&mut state, 52);
    let doc = state.meili.docs.iter().find(|d| d.id == id).unwrap();
    assert_eq!(doc.content, "second try");
    assert_eq!(state.pg.rows[0].flags, COF_SEARCHABLE | COF_INDEXED);
}

#[test]
fn publish_assigns_a_slug_exactly_once() {
    let mut state = ApiState::new();
    let created = upload(
        &mut state,
        OWNER,
        UploadRequest { files: vec![png_file(b"pub", "p.png")] },
        60,
    )
    .unwrap();
    let id = created[0].id;

    let published = publish_object(&mut state, OWNER, PublishObjectReq { id }).unwrap();
    assert!(published.is_public);
    assert_eq!(published.slug.clone().unwrap(), u64_to_hex(id));

    let again = publish_object(&mut state, OWNER, PublishObjectReq { id });
    assert_eq!(again.unwrap_err(), ApiError::ObjectIsAlreadyPublic);

    let missing = publish_object(&mut state, OWNER, PublishObjectReq { id: 424242 });
    assert_eq!(missing.unwrap_err(), ApiError::CdnObjectNotFound);

    let (row, bytes) = fetch_obj_by_slug(&state, &u64_to_hex(id)).unwrap();
    assert_eq!(row.id, id);
    assert_eq!(bytes, b"pub".to_vec());
}

#[test]
fn fetch_serves_row_and_bytes() {
    let mut state = ApiState::new();
    let created = upload(
        &mut state,
        OWNER,
        UploadRequest { files: vec![png_file(b"bytes", "b.png")] },
        70,
    )
    .unwrap();
    let id = created[0].id;
    let (row, bytes) = fetch_object(&state, OWNER, id).unwrap();
    assert_eq!(row.id, id);
    assert_eq!(bytes, b"bytes".to_vec());
    // another owner cannot see it
    let r = fetch_object(&state, OWNER + 1, id);
    assert_eq!(r.unwrap_err(), ApiError::CdnObjectNotFound);
}

#[test]
fn listing_pages_most_recent_first() {
    let mut state = ApiState::new();
    upload(&mut state, OWNER, UploadRequest { files: vec![png_file(b"one", "1")] }, 10).unwrap();
    upload(&mut state, OWNER, UploadRequest { files: vec![png_file(b"two", "2")] }, 30).unwrap();
    upload(&mut state, OWNER, UploadRequest { files: vec![png_file(b"three", "3")] }, 20).unwrap();
    upload(&mut state, OWNER + 1, UploadRequest { files: vec![png_file(b"four", "4")] }, 99)
        .unwrap();

    let all = list_objects(&state, OWNER, &ListObjectsQuery { skip: 0, limit: 10 }).unwrap();
    assert_eq!(all.len(), 3);
    assert_eq!(all[0].uploaded_at, 30);
    assert_eq!(all[1].uploaded_at, 20);
    assert_eq!(all[2].uploaded_at, 10);

    let page = list_objects(&state, OWNER, &ListObjectsQuery { skip: 1, limit: 1 }).unwrap();
    assert_eq!(page.len(), 1);
    assert_eq!(page[0].uploaded_at, 20);

    let bad = list_objects(&state, OWNER, &ListObjectsQuery { skip: -1, limit: 1 });
    assert_eq!(bad.unwrap_err(), ApiError::Internal(StoreFault::InvalidQuery));
}

#[test]
fn search_serves_rows_for_matching_documents() {
    let mut state = ApiState::new();
    let created = upload(
        &mut state,
        OWNER,
        UploadRequest { files: vec![png_file(b"inv", "i.png"), png_file(b"rec", "r.png")] },
        80,
    )
    .unwrap();
    let inv_id = created[0].id;
    state.ocr.outcomes.push(Some("invoice 42".to_string()));
    state.ocr.outcomes.push(Some("receipt 7".to_string()));
    run_tasks(&mut state, 81);

    let hits = search_objects(&state, OWNER, &SearchObjectsQuery { q: "invoice".to_string() });
    assert_eq!(hits.len(), 1);
    assert_eq!(hits[0].id, inv_id);

    let none = search_objects(&state, OWNER, &SearchObjectsQuery { q: "ledger".to_string() });
    assert!(none.is_empty());

    // another owner's query sees nothing
    let other = search_objects(&state, OWNER + 1, &SearchObjectsQuery { q: "invoice".to_string() });
    assert!(other.is_empty());
}

#[test]
fn delete_removes_rows_then_blobs() {
    let mut state = ApiState::new();
    let created = upload(
        &mut state,
        OWNER,
        UploadRequest { files: vec![png_file(b"del", "d.png")] },
        90,
    )
    .unwrap();
    let id = created[0].id;
    delete_objects(&mut state, OWNER, DeleteObjectsRequest { files: vec![id] }).unwrap();
    assert!(state.pg.rows.is_empty());
    assert!(state.storage.entries.is_empty());

    // deleting again: the row is already gone and the blob delete fails
    let r = delete_objects(&mut state, OWNER, DeleteObjectsRequest { files: vec![id] });
    assert_eq!(r.unwrap_err(), ApiError::Internal(StoreFault::BlobNotFound));
}

#[test]
fn search_pages_and_ranks_by_recency() {
    let mut state = ApiState::new();
    for k in 0..20u64 {
        state
            .meili
            .index_object(k, OWNER, format!("note number {}", k), k as i64)
            .unwrap();
    }
    let page = state.meili.search_objects(OWNER, "note", 0);
    assert_eq!(page.len(), 16);
    // newest first: created_at 19 down to 4
    assert_eq!(page[0].created_at, 19);
    assert_eq!(page[15].created_at, 4);
    let rest = state.meili.search_objects(OWNER, "note", 16);
    assert_eq!(rest.len(), 4);
    assert_eq!(rest[0].created_at, 3);
    assert_eq!(rest[3].created_at, 0);
}

#[test]
fn fetch_by_unknown_slug_is_not_found() {
    let state = ApiState::new();
    let r = fetch_obj_by_slug(&state, "nosuch");
    assert_eq!(r.unwrap_err(), ApiError::CdnObjectNotFound);
}

#[test]
fn fetch_with_missing_blob_is_not_found() {
    let mut state = ApiState::new();
    let created = upload(
        &mut state,
        OWNER,
        UploadRequest { files: vec![png_file(b"vanish", "v.png")] },
        15,
    )
    .unwrap();
    let id = created[0].id;
    state.storage.delete_user_object(OWNER, id).unwrap();
    // the catalog row is still there, but the bytes are gone
    assert_eq!(state.pg.rows.len(), 1);
    let r = fetch_object(&state, OWNER, id);
    assert_eq!(r.unwrap_err(), ApiError::CdnObjectNotFound);
}

#[test]
fn error_status_codes() {
    assert_eq!(ApiError::Unauthorized.status_code(), 401);
    assert_eq!(ApiError::CdnObjectNotFound.status_code(), 404);
    assert_eq!(ApiError::ObjectIsAlreadyPublic.status_code(), 409);
    assert_eq!(ApiError::ObjectHasNoThumbnail.status_code(), 404);
    assert_eq!(ApiError::Internal(StoreFault::CommitFailed).status_code(), 500);
}
