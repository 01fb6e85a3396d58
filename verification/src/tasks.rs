//! The background indexing scheduler.
//!
//! Each tick selects every object that is searchable but not yet indexed,
//! and drives each one through the full sequence: fetch the blob, extract
//! its text, upsert the document into the search index, and only then OR the
//! indexed bit onto the object's flags. Any failure along the way leaves
//! that object untouched — its flags keep it eligible, so the next tick
//! retries it — and never blocks the other objects of the tick.

use vstd::prelude::*;

use crate::db::{
    rows_ids_unique, spec_has_id, spec_select_unindexed, spec_with_flags_or, CdnObject,
};
use crate::flags::{spec_eligible_for_indexing, COF_INDEXED, COF_SEARCHABLE};
use crate::meili::{spec_upsert_doc, ObjectOcrDoc};
use crate::state::ApiState;
use crate::storage::{spec_faults_after, spec_get_entry, spec_put_fails, BlobEntry};

verus! {

/// The parts of the service state one scheduler tick reads and writes.
pub ghost struct TickState {
    pub rows: Seq<CdnObject>,
    pub docs: Seq<ObjectOcrDoc>,
    pub outcomes: Seq<Option<String>>,
    pub index_faults: Seq<bool>,
}

pub open spec fn spec_tick_state_of(s: ApiState) -> TickState {
    TickState {
        rows: s.pg.rows@,
        docs: s.meili.docs@,
        outcomes: s.ocr.outcomes@,
        index_faults: s.meili.index_faults@,
    }
}

/// The rows with `COF_INDEXED` OR-ed onto the row holding `id`, if any.
pub open spec fn spec_rows_with_indexed(rows: Seq<CdnObject>, id: u64) -> Seq<CdnObject> {
    if spec_has_id(rows, id) {
        let k = choose|i: int| 0 <= i < rows.len() && (#[trigger] rows[i]).id == id;
        rows.update(k, spec_with_flags_or(rows[k], COF_INDEXED))
    } else {
        rows
    }
}

/// What processing one selected object does to the tick state. The flag
/// update happens only after blob fetch, extraction and index write have all
/// succeeded; any failure leaves every component of the state for this
/// object unchanged, so the object stays eligible and is retried next tick.
pub open spec fn spec_tick_step(
    st: TickState,
    obj: CdnObject,
    entries: Seq<BlobEntry>,
    now: i64,
) -> TickState {
    if spec_get_entry(entries, obj.user_id, obj.id) is None {
        st
    } else if st.outcomes.len() == 0 {
        st
    } else {
        let rest = st.outcomes.drop_first();
        match st.outcomes[0] {
            None => TickState { outcomes: rest, ..st },
            Some(t) => if spec_put_fails(st.index_faults) {
                TickState {
                    outcomes: rest,
                    index_faults: spec_faults_after(st.index_faults),
                    ..st
                }
            } else {
                TickState {
                    rows: spec_rows_with_indexed(st.rows, obj.id),
                    docs: spec_upsert_doc(
                        st.docs,
                        ObjectOcrDoc {
                            id: obj.id,
                            user_id: obj.user_id,
                            content: t,
                            created_at: now,
                        },
                    ),
                    outcomes: rest,
                    index_faults: spec_faults_after(st.index_faults),
                }
            },
        }
    }
}

/// One full tick over a selection, object by object, in order.
pub open spec fn spec_tick(
    st: TickState,
    objs: Seq<CdnObject>,
    entries: Seq<BlobEntry>,
    now: i64,
) -> TickState
    decreases objs.len(),
{
    if objs.len() == 0 {
        st
    } else {
        spec_tick_step(spec_tick(st, objs.drop_last(), entries, now), objs.last(), entries, now)
    }
}

/// Works through one tick's selection. Each object is fetched, extracted,
/// indexed and flagged in that order; a failed step skips the object,
/// leaving it eligible for the next tick.
pub fn process_objects(objs: &Vec<CdnObject>, state: &mut ApiState, now: i64)
    requires
        old(state).wf(),
    ensures
        final(state).wf(),
        final(state).storage == old(state).storage,
        final(state).pg.fail_next_commit == old(state).pg.fail_next_commit,
        ({
            let t = spec_tick(
                spec_tick_state_of(*old(state)),
                objs@,
                old(state).storage.entries@,
                now,
            );
            &&& final(state).pg.rows@ == t.rows
            &&& final(state).meili.docs@ == t.docs
            &&& final(state).ocr.outcomes@ == t.outcomes
            &&& final(state).meili.index_faults@ == t.index_faults
        }),
{
    let ghost st0 = spec_tick_state_of(*old(state));
    let ghost entries0 = old(state).storage.entries@;
    let n = objs.len();
    let mut i: usize = 0;
    proof {
        assert(objs@.take(0) =~= Seq::<CdnObject>::empty());
    }
    while i < n
        invariant
            i <= n,
            n == objs@.len(),
            state.wf(),
            state.storage == old(state).storage,
            state.pg.fail_next_commit == old(state).pg.fail_next_commit,
            ({
                let t = spec_tick(st0, objs@.take(i as int), entries0, now);
                &&& state.pg.rows@ == t.rows
                &&& state.meili.docs@ == t.docs
                &&& state.ocr.outcomes@ == t.outcomes
                &&& state.meili.index_faults@ == t.index_faults
            }),
        decreases n - i,
    {
        let ghost st_pre = spec_tick(st0, objs@.take(i as int), entries0, now);
        let obj = &objs[i];
        let ghost gobj = objs@[i as int];
        let fetched = state.storage.get_user_object(obj.user_id, obj.id);
        match fetched {
            Ok(data) => {
                let extracted = state.ocr.image_to_text(&data);
                match extracted {
                    Ok(text) => {
                        let indexed = state.meili.index_object(obj.id, obj.user_id, text, now);
                        match indexed {
                            Ok(_) => {
                                proof {
                                    assert(COF_INDEXED & COF_SEARCHABLE == 0u64) by (bit_vector);
                                }
                                let ghost rows_pre = state.pg.rows@;
                                let found = state.pg.update_flags_or(obj.id, COF_INDEXED);
                                proof {
                                    if found {
                                        let k = choose|k: int|
                                            0 <= k < rows_pre.len() && (#[trigger] rows_pre[k]).id
                                                == gobj.id && state.pg.rows@ == rows_pre.update(
                                                k,
                                                spec_with_flags_or(rows_pre[k], COF_INDEXED),
                                            );
                                        let k0 = choose|i: int|
                                            0 <= i < rows_pre.len() && (#[trigger] rows_pre[i]).id
                                                == gobj.id;
                                        assert(k == k0);
                                        assert(state.pg.rows@ == spec_rows_with_indexed(
                                            rows_pre,
                                            gobj.id,
                                        ));
                                    } else {
                                        assert(state.pg.rows@ == spec_rows_with_indexed(
                                            rows_pre,
                                            gobj.id,
                                        ));
                                    }
                                    assert forall|z: int|
                                        0 <= z < state.pg.rows@.len() implies (
                                    #[trigger] state.pg.rows@[z]).id < state.storage.next_id by {
                                        if z < rows_pre.len() {
                                            assert(state.pg.rows@[z].id == rows_pre[z].id);
                                        }
                                    }
                                }
                            },
                            Err(_) => {},
                        }
                    },
                    Err(_) => {},
                }
            },
            Err(_) => {},
        }
        i = i + 1;
        proof {
            assert(objs@.take(i as int).drop_last() =~= objs@.take(i - 1));
            assert(objs@.take(i as int).last() == objs@[i - 1]);
            assert(spec_tick(st0, objs@.take(i as int), entries0, now) == spec_tick_step(
                st_pre,
                gobj,
                entries0,
                now,
            ));
        }
    }
    proof {
        assert(objs@.take(n as int) =~= objs@);
    }
}

/// One scheduler tick: select every searchable-but-unindexed object and
/// process the whole selection.
pub fn run_tasks(state: &mut ApiState, now: i64)
    requires
        old(state).wf(),
    ensures
        final(state).wf(),
        final(state).storage == old(state).storage,
        final(state).pg.fail_next_commit == old(state).pg.fail_next_commit,
        ({
            let t = spec_tick(
                spec_tick_state_of(*old(state)),
                spec_select_unindexed(old(state).pg.rows@),
                old(state).storage.entries@,
                now,
            );
            &&& final(state).pg.rows@ == t.rows
            &&& final(state).meili.docs@ == t.docs
            &&& final(state).ocr.outcomes@ == t.outcomes
            &&& final(state).meili.index_faults@ == t.index_faults
        }),
{
    let objs = state.pg.select_searchable_unindexed();
    process_objects(&objs, state, now);
}

/// An object whose blob is gone when the tick runs is skipped whole: no
/// state component changes for it, its flags keep it eligible, and the next
/// tick retries it without manual intervention.
pub proof fn lemma_tick_step_skips_missing_blob(
    st: TickState,
    obj: CdnObject,
    entries: Seq<BlobEntry>,
    now: i64,
)
    requires
        spec_get_entry(entries, obj.user_id, obj.id) is None,
    ensures
        spec_tick_step(st, obj, entries, now) == st,
{
}

/// When every step succeeds for an eligible object — blob present, a text
/// outcome scripted, no index fault — one tick step sets `COF_INDEXED` on
/// exactly that object's row, keeps `COF_SEARCHABLE`, writes its document
/// (id, owner, extracted text, tick time) to the index, and leaves the
/// object ineligible for any later tick.
pub proof fn lemma_tick_step_indexes(
    st: TickState,
    obj: CdnObject,
    entries: Seq<BlobEntry>,
    now: i64,
    k: int,
)
    requires
        spec_get_entry(entries, obj.user_id, obj.id) is Some,
        st.outcomes.len() > 0,
        st.outcomes[0] is Some,
        !spec_put_fails(st.index_faults),
        rows_ids_unique(st.rows),
        0 <= k < st.rows.len(),
        st.rows[k].id == obj.id,
    ensures
        ({
            let st1 = spec_tick_step(st, obj, entries, now);
            let t = st.outcomes[0]->Some_0;
            &&& st1.rows == st.rows.update(k, spec_with_flags_or(st.rows[k], COF_INDEXED))
            &&& crate::flags::flag_set(st1.rows[k].flags, COF_INDEXED)
            &&& crate::flags::flag_set(st1.rows[k].flags, COF_SEARCHABLE)
                == crate::flags::flag_set(st.rows[k].flags, COF_SEARCHABLE)
            &&& !spec_eligible_for_indexing(st1.rows[k].flags)
            &&& crate::meili::spec_get_doc(st1.docs, obj.id) == Some(
                ObjectOcrDoc { id: obj.id, user_id: obj.user_id, content: t, created_at: now },
            )
            &&& forall|w: int|
                0 <= w < spec_select_unindexed(st1.rows).len() ==> (
                #[trigger] spec_select_unindexed(st1.rows)[w]).id != obj.id
        }),
{
    let st1 = spec_tick_step(st, obj, entries, now);
    let t = st.outcomes[0]->Some_0;
    assert(spec_has_id(st.rows, obj.id));
    let k0 = choose|i: int| 0 <= i < st.rows.len() && (#[trigger] st.rows[i]).id == obj.id;
    assert(k0 == k);
    crate::flags::lemma_set_indexed(st.rows[k].flags);
    crate::meili::lemma_upsert_doc_found(
        st.docs,
        ObjectOcrDoc { id: obj.id, user_id: obj.user_id, content: t, created_at: now },
    );
    crate::db::lemma_select_only_eligible(st1.rows);
    let sel = spec_select_unindexed(st1.rows);
    assert forall|w: int| 0 <= w < sel.len() implies (#[trigger] sel[w]).id != obj.id by {
        let m = choose|m: int| 0 <= m < st1.rows.len() && st1.rows[m] == sel[w];
        if sel[w].id == obj.id {
            assert(st1.rows[m].id == obj.id);
            if m != k {
                assert(st1.rows[m] == st.rows[m]);
                assert(st.rows[m].id != st.rows[k].id);
            }
            assert(m == k);
            assert(spec_eligible_for_indexing(sel[w].flags));
            assert(!spec_eligible_for_indexing(st1.rows[k].flags));
        }
    }
}

} // verus!
