//! Exactly-once transition from the legacy flat file to the store.
//!
//! The guard is `should_migrate`: the import runs only while the
//! database file does not exist yet, so a second run after a successful
//! import finds the database and does nothing.  The import itself
//! decodes the legacy text and inserts one record per decoded task,
//! backfilling a fresh id and the completion-time sentinel where the
//! old format lacked them.  The legacy file is never deleted.

use vstd::prelude::*;

verus! {

use crate::legacy::{parse_legacy_tasks, spec_parse_legacy, views_of, LegacyTask, LegacyView};
use crate::store::{Store, StoreError};
use crate::task::{generate_uuid, utc_date_of, Task, TaskView, MAX_TIMESTAMP};
use crate::legacy::{lemma_object_bounds, lemma_skip_ws_bounds, spec_parse_elements,
    spec_parse_object, spec_skip_ws};

/// Failure of a migration run.
#[derive(Debug)]
pub enum MigrateError {
    /// The legacy file cannot be decoded; nothing was imported and the
    /// file is left in place for manual recovery.
    CorruptLegacyData,
    /// The store refused an insert; the rest of the batch was
    /// abandoned, records inserted before the failure stay.
    Store(StoreError),
    /// A well-known directory could not be resolved, so there is no
    /// path to open or to read.
    PathResolution,
}

/// The migration guard: run only when the database does not exist yet
/// and the legacy file does.  Once a run has created the database, the
/// guard refuses every later run.
pub fn should_migrate(db_exists: bool, legacy_exists: bool) -> (r: bool)
    ensures
        r == (!db_exists && legacy_exists),
{
    !db_exists && legacy_exists
}

/// The record imported for one legacy record, under the id it was
/// given: fields carried over, the cached date derived anew from the
/// creation time, a missing completion time backfilled with the
/// sentinel `0`.
pub open spec fn imported_task(l: LegacyView, id: Seq<char>) -> TaskView {
    TaskView {
        id,
        description: l.description,
        completed: l.completed,
        created_at: l.created_at,
        created_at_date: utc_date_of(l.created_at),
        completed_at: match l.completed_at {
            Some(t) => t,
            None => 0,
        },
    }
}

/// Builds the task for one legacy record, generating an id when the
/// record brought none.
fn task_of_legacy(l: LegacyTask) -> (t: Task)
    requires
        l@.created_at <= MAX_TIMESTAMP,
    ensures
        t@ == imported_task(l@, t@.id),
        l@.id matches Some(given) ==> t@.id == given,
        l@.id is None ==> t@.id.len() >= 36,
{
    let id = match l.id {
        Some(s) => s,
        None => generate_uuid(),
    };
    let completed_at = match l.completed_at {
        Some(v) => v,
        None => 0,
    };
    Task::from_parts(id, l.description, l.completed, l.created_at, completed_at)
}

/// Every record a successful decode yields carries a creation time
/// whose calendar date exists.
proof fn lemma_elements_bounded(s: Seq<char>, i: int, acc: Seq<LegacyView>)
    requires
        forall|a: int| 0 <= a < acc.len() ==> #[trigger] acc[a].created_at <= MAX_TIMESTAMP,
    ensures
        spec_parse_elements(s, i, acc) matches Some((recs, k)) ==> forall|a: int|
            0 <= a < recs.len() ==> #[trigger] recs[a].created_at <= MAX_TIMESTAMP,
    decreases s.len() - i,
{
    lemma_object_bounds(s, i);
    if let Some((rec, j)) = spec_parse_object(s, i) {
        lemma_skip_ws_bounds(s, j);
        let j1 = spec_skip_ws(s, j);
        if j1 < s.len() && s[j1] == ',' {
            lemma_skip_ws_bounds(s, j1 + 1);
            lemma_elements_bounded(s, spec_skip_ws(s, j1 + 1), acc.push(rec));
        }
    }
}

pub proof fn lemma_parsed_bounded(s: Seq<char>)
    ensures
        spec_parse_legacy(s) matches Some(recs) ==> forall|a: int|
            0 <= a < recs.len() ==> #[trigger] recs[a].created_at <= MAX_TIMESTAMP,
{
    lemma_skip_ws_bounds(s, 0);
    let i = spec_skip_ws(s, 0);
    if i < s.len() && s[i] == '[' {
        lemma_skip_ws_bounds(s, i + 1);
        let j = spec_skip_ws(s, i + 1);
        if !(j < s.len() && s[j] == ']') {
            lemma_elements_bounded(s, j, Seq::empty());
        }
    }
}

/// The shape of a table after the first `ids.len()` decoded records
/// were imported: `ids` names, in order, the id under which each of
/// them was inserted.  The ids are distinct and fresh; a record that
/// brought its own id keeps it, a record without one got a generated
/// id of at least 36 characters; the new table holds exactly the old
/// rows plus these records, one row each.
pub open spec fn imported_prefix(
    old_table: Map<Seq<char>, TaskView>,
    new_table: Map<Seq<char>, TaskView>,
    recs: Seq<LegacyView>,
    ids: Seq<Seq<char>>,
) -> bool {
    &&& ids.len() <= recs.len()
    &&& (forall|a: int, b: int| 0 <= a < b < ids.len() ==> ids[a] != ids[b])
    &&& (forall|a: int| 0 <= a < ids.len() ==> !old_table.dom().contains(#[trigger] ids[a]))
    &&& (forall|a: int|
        0 <= a < ids.len() ==> ((#[trigger] recs[a]).id matches Some(given) ==> ids[a] == given))
    &&& (forall|a: int|
        0 <= a < ids.len() ==> ((#[trigger] recs[a]).id is None ==> ids[a].len() >= 36))
    &&& (forall|a: int|
        0 <= a < ids.len() ==> new_table.contains_pair(
            #[trigger] ids[a],
            imported_task(recs[a], ids[a]),
        ))
    &&& (forall|k: Seq<char>|
        #[trigger] new_table.dom().contains(k) <==> (old_table.dom().contains(k) || ids.contains(
            k,
        )))
    &&& new_table.dom().len() == old_table.dom().len() + ids.len()
}

/// A run that stopped partway: the decode succeeded, and the table
/// holds exactly the records before the failing insert.
pub open spec fn partial_import(
    old_table: Map<Seq<char>, TaskView>,
    new_table: Map<Seq<char>, TaskView>,
    parse: Option<Seq<LegacyView>>,
) -> bool {
    parse matches Some(recs) && exists|ids: Seq<Seq<char>>|
        ids.len() < recs.len() && imported_prefix(old_table, new_table, recs, ids)
}

/// Imports every record of the legacy text into the store, one insert
/// each.  Undecodable text imports nothing; text that decodes to zero
/// records succeeds without touching the store.  On the first refused
/// insert the rest of the batch is abandoned and the failure reported:
/// the table then holds exactly the records before the failing one, an
/// explicit known risk of a partial run.  Records already in the store
/// are never touched.
pub fn import_legacy(store: &mut Store, text: &str) -> (r: Result<usize, MigrateError>)
    requires
        old(store).inv(),
    ensures
        final(store).inv(),
        forall|k: Seq<char>|
            old(store)@.dom().contains(k) ==> #[trigger] final(store)@.contains_pair(
                k,
                old(store)@[k],
            ),
        r == Err::<usize, MigrateError>(MigrateError::CorruptLegacyData) <==> spec_parse_legacy(
            text@,
        ) is None,
        spec_parse_legacy(text@) is None ==> final(store)@ == old(store)@,
        r matches Err(e) ==> e is CorruptLegacyData || e is Store,
        spec_parse_legacy(text@) matches Some(recs) && recs.len() == 0 ==> r == Ok::<
            usize,
            MigrateError,
        >(0) && final(store)@ == old(store)@,
        r matches Ok(n) ==> spec_parse_legacy(text@) matches Some(recs) && n == recs.len()
            && exists|ids: Seq<Seq<char>>|
            ids.len() == recs.len() && imported_prefix(old(store)@, final(store)@, recs, ids),
        r matches Err(e) ==> (e is Store ==> partial_import(
            old(store)@,
            final(store)@,
            spec_parse_legacy(text@),
        )),
{
    let parsed = match parse_legacy_tasks(text) {
        Ok(v) => v,
        Err(_) => {
            return Err(MigrateError::CorruptLegacyData);
        },
    };
    proof {
        lemma_parsed_bounded(text@);
    }
    let ghost recs: Seq<LegacyView> = views_of(parsed@);
    let ghost initial: Map<Seq<char>, TaskView> = old(store)@;
    let ghost mut ids: Seq<Seq<char>> = Seq::empty();
    let n = parsed.len();
    let mut idx: usize = 0;
    while idx < n
        invariant
            idx <= n,
            n == parsed@.len(),
            recs == views_of(parsed@),
            spec_parse_legacy(text@) == Some(recs),
            forall|a: int| 0 <= a < recs.len() ==> #[trigger] recs[a].created_at <= MAX_TIMESTAMP,
            store.inv(),
            initial == old(store)@,
            ids.len() == idx,
            imported_prefix(initial, store@, recs, ids),
            forall|k: Seq<char>|
                initial.dom().contains(k) ==> #[trigger] store@.contains_pair(k, initial[k]),
        decreases n - idx,
    {
        proof {
            assert(recs[idx as int] == parsed@[idx as int]@);
        }
        let t = task_of_legacy(parsed[idx].clone());
        let ghost pre: Map<Seq<char>, TaskView> = store@;
        match store.add_task(&t) {
            Ok(()) => {
                proof {
                    let prev_ids = ids;
                    ids = ids.push(t@.id);
                    assert(ids.drop_last() =~= prev_ids);
                    assert(ids[ids.len() - 1] == t@.id);
                    assert(ids.contains(t@.id));
                    assert(store@ == pre.insert(t@.id, t@));
                    assert(store@.dom() =~= pre.dom().insert(t@.id));
                    assert(store@.dom().len() == pre.dom().len() + 1);
                    assert(!initial.dom().contains(t@.id)) by {
                        if initial.dom().contains(t@.id) {
                            assert(pre.contains_pair(t@.id, initial[t@.id]));
                        }
                    }
                    assert forall|k: Seq<char>|
                        initial.dom().contains(k) implies #[trigger] store@.contains_pair(
                        k,
                        initial[k],
                    ) by {
                        assert(pre.contains_pair(k, initial[k]));
                    }
                    assert forall|a: int|
                        0 <= a < ids.len() implies store@.contains_pair(
                        #[trigger] ids[a],
                        imported_task(recs[a], ids[a]),
                    ) by {
                        if a < ids.len() - 1 {
                            assert(ids[a] == prev_ids[a]);
                            assert(pre.contains_pair(
                                prev_ids[a],
                                imported_task(recs[a], prev_ids[a]),
                            ));
                        } else {
                            assert(t@ == imported_task(recs[idx as int], t@.id));
                        }
                    }
                    assert forall|a: int|
                        0 <= a < ids.len() implies ((#[trigger] recs[a]).id matches Some(given)
                        ==> ids[a] == given) && (recs[a].id is None ==> ids[a].len() >= 36) by {
                        if a < ids.len() - 1 {
                            assert(ids[a] == prev_ids[a]);
                        }
                    }
                    assert forall|a: int, b: int| 0 <= a < b < ids.len() implies ids[a] != ids[
                        b
                    ] by {
                        if b == ids.len() - 1 {
                            assert(pre.contains_pair(
                                prev_ids[a],
                                imported_task(recs[a], prev_ids[a]),
                            ));
                            assert(pre.dom().contains(ids[a]));
                        }
                    }
                    assert forall|k: Seq<char>| #[trigger]
                        store@.dom().contains(k) <==> (initial.dom().contains(k) || ids.contains(
                            k,
                        )) by {
                        if ids.contains(k) {
                            let a = choose|a: int| 0 <= a < ids.len() && ids[a] == k;
                            if a < ids.len() - 1 {
                                assert(prev_ids.contains(k));
                                assert(pre.dom().contains(k));
                            }
                        }
                        if store@.dom().contains(k) && k != t@.id && !initial.dom().contains(k) {
                            assert(pre.dom().contains(k));
                            assert(prev_ids.contains(k));
                            let a = choose|a: int| 0 <= a < prev_ids.len() && prev_ids[a] == k;
                            assert(ids[a] == k);
                            assert(ids.contains(k));
                        }
                    }
                    assert(imported_prefix(initial, store@, recs, ids));
                }
                idx = idx + 1;
            },
            Err(e) => {
                proof {
                    assert(ids.len() < recs.len());
                    assert(imported_prefix(initial, store@, recs, ids));
                }
                return Err(MigrateError::Store(e));
            },
        }
    }
    proof {
        assert(ids.len() == recs.len());
        assert(imported_prefix(initial, store@, recs, ids));
        if n == 0 {
            assert forall|k: Seq<char>| #[trigger]
                store@.dom().contains(k) implies initial.dom().contains(k) && store@[k]
                == initial[k] by {
                assert(!ids.contains(k));
                assert(store@.contains_pair(k, initial[k]));
            }
            assert forall|k: Seq<char>| #[trigger]
                initial.dom().contains(k) implies store@.dom().contains(k) by {
                assert(store@.contains_pair(k, initial[k]));
            }
            assert(store@.dom() =~= initial.dom());
            assert(store@ =~= initial);
        }
    }
    Ok(n)
}

} // verus!
