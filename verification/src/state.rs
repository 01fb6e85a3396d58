//! The shared service state: the catalog, the blob store, the search index
//! and the text-extraction engine, with the invariant that ties them
//! together.

use vstd::prelude::*;

use crate::db::PgClient;
use crate::meili::MeiliClient;
use crate::ocr::OcrClient;
use crate::storage::StorageClient;

verus! {

/// Everything a request handler or the scheduler works against.
pub struct ApiState {
    pub pg: PgClient,
    pub storage: StorageClient,
    pub meili: MeiliClient,
    pub ocr: OcrClient,
}

impl ApiState {
    /// The cross-store invariant: each store is well formed, and every
    /// catalog row's id was drawn from the blob store's id counter, so a
    /// fresh id can never collide with a committed row.
    pub open spec fn wf(&self) -> bool {
        &&& self.pg.wf()
        &&& self.storage.wf()
        &&& self.meili.wf()
        &&& forall|i: int|
            0 <= i < self.pg.rows@.len() ==> (#[trigger] self.pg.rows@[i]).id
                < self.storage.next_id
    }

    /// Fresh, empty service state.
    pub fn new() -> (s: ApiState)
        ensures
            s.wf(),
            s.pg.rows@.len() == 0,
            !s.pg.fail_next_commit,
            s.storage.entries@.len() == 0,
            s.storage.thumbs@.len() == 0,
            s.storage.put_faults@.len() == 0,
            s.meili.docs@.len() == 0,
            s.meili.index_faults@.len() == 0,
            s.ocr.outcomes@.len() == 0,
    {
        ApiState {
            pg: PgClient::new(),
            storage: StorageClient::new(),
            meili: MeiliClient::new(),
            ocr: OcrClient::new(),
        }
    }
}

} // verus!
