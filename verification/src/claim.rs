//! The claim protocol: a three-phase sequence (propose, assign, confirm)
//! that turns the table's unconditional reads and writes into an
//! at-most-one-claimant guarantee across concurrently polling supervisors.
//!
//! Phase one proposes candidates with `list_ready`; phase two stamps them
//! unconditionally with `assign` (last writer wins); phase three keeps, via
//! `fetch_claimed`, only the candidates whose `processor` column still names
//! this supervisor, silently dropping every candidate a concurrent assign
//! overwrote. The lemmas at the bottom state the exclusivity and no-loss
//! arguments for contended schedules.

use vstd::prelude::*;

use crate::store::{
    assign_model, has_id, idx_of, lemma_record_at, models_of, record_of, unique_ids, TaskStore,
};
use crate::task::{NIL_PROCESSOR, Task, TaskModel, Timestamp};

verus! {

/// The identifiers of the records of `r`, in order.
pub open spec fn ids_of(r: Seq<TaskModel>) -> Seq<u128> {
    r.map_values(|t: TaskModel| t.id)
}

/// Whether, against table contents `s`, the confirm phase run by
/// `processor` over the candidate identifiers `ids` returns task `tid`.
pub open spec fn confirm_returns(
    s: Seq<TaskModel>,
    ids: Seq<u128>,
    processor: u128,
    tid: u128,
) -> bool {
    &&& ids.contains(tid)
    &&& has_id(s, tid)
    &&& record_of(s, tid).processor == processor
}

/// An unconditional bulk assignment keeps every identifier in place: record
/// lookups before and after it land on the same index, and the looked-up
/// record changes exactly when its identifier was assigned.
pub proof fn lemma_assign_model_record(s: Seq<TaskModel>, p: u128, ids: Seq<u128>, tid: u128)
    requires
        unique_ids(s),
    ensures
        assign_model(s, p, ids).len() == s.len(),
        unique_ids(assign_model(s, p, ids)),
        has_id(assign_model(s, p, ids), tid) == has_id(s, tid),
        has_id(s, tid) ==> idx_of(assign_model(s, p, ids), tid) == idx_of(s, tid),
        has_id(s, tid) ==> record_of(assign_model(s, p, ids), tid) == (if ids.contains(tid) {
            record_of(s, tid).assigned_to(p)
        } else {
            record_of(s, tid)
        }),
{
    let s2 = assign_model(s, p, ids);
    assert(forall|i: int| 0 <= i < s.len() ==> s2[i].id == s[i].id);
    if has_id(s, tid) {
        let i = idx_of(s, tid);
        assert(0 <= i < s.len() && s[i].id == tid);
        assert(s2[i].id == tid);
        assert(has_id(s2, tid));
        let j = idx_of(s2, tid);
        assert(0 <= j < s2.len() && s2[j].id == tid);
        assert(s[j].id == tid);
        assert(j == i);
    }
    if has_id(s2, tid) {
        let j = idx_of(s2, tid);
        assert(s[j].id == tid);
        assert(has_id(s, tid));
    }
}

/// Run one polling cycle of the claim protocol for supervisor `processor`
/// with requested batch size `size`: propose up to `size` due candidates,
/// stamp them, and return the confirmed claims.
///
/// Uninterfered, the run loses nothing: the table changes exactly by the
/// stamps on the returned tasks, every returned task was an eligible record
/// now owned by `processor`, and when the batch is not full every eligible
/// record was claimed. A table with no due work is left untouched.
pub fn process_tasks(store: &mut TaskStore, processor: u128, size: i32, now: Timestamp) -> (r:
    Vec<Task>)
    requires
        old(store).wf(),
        processor != NIL_PROCESSOR,
        size >= 0,
    ensures
        final(store).wf(),
        r@.len() <= size,
        forall|k: int, l: int|
            0 <= k < r@.len() && 0 <= l < r@.len() && k != l ==> r@[k]@.id != r@[l]@.id,
        final(store)@ == assign_model(old(store)@, processor, ids_of(models_of(r@))),
        forall|k: int|
            0 <= k < r@.len() ==> has_id(old(store)@, #[trigger] r@[k]@.id) && record_of(
                old(store)@,
                r@[k]@.id,
            ).eligible(now.millis as int) && r@[k]@ == record_of(
                old(store)@,
                r@[k]@.id,
            ).assigned_to(processor),
        r@.len() < size ==> forall|i: int|
            0 <= i < old(store)@.len() && old(store)@[i].eligible(now.millis as int)
                ==> ids_of(models_of(r@)).contains(old(store)@[i].id),
        (forall|i: int|
            0 <= i < old(store)@.len() ==> !old(store)@[i].eligible(now.millis as int))
            ==> final(store)@ == old(store)@ && r@.len() == 0,
        // completion is terminal: the protocol never writes to a completed record
        forall|i: int|
            0 <= i < old(store)@.len() && old(store)@[i].state is Complete ==> final(store)@[i]
                == old(store)@[i],
{
    let ghost s0 = store@;
    let ids = store.list_ready(size as usize, now);
    if ids.len() == 0 {
        let r: Vec<Task> = Vec::new();
        proof {
            assert(ids_of(models_of(r@)) =~= Seq::<u128>::empty());
            assert(store@ =~= assign_model(s0, processor, ids_of(models_of(r@))));
        }
        return r;
    }
    store.assign(processor, &ids);
    let ghost s1 = store@;
    let r = store.fetch_claimed(&ids, processor);
    proof {
        let rids = ids_of(models_of(r@));
        assert(rids.len() == r@.len());
        assert(forall|k: int| 0 <= k < r@.len() ==> rids[k] == #[trigger] r@[k]@.id);
        // every candidate is stamped in s1 and hence confirmed
        assert forall|m: int| 0 <= m < ids@.len() implies has_id(s1, #[trigger] ids@[m])
            && record_of(s1, ids@[m]).processor == processor && has_id(s0, ids@[m]) by {
            lemma_assign_model_record(s0, processor, ids@, ids@[m]);
            assert(ids@.contains(ids@[m]));
        }
        // the confirmed identifiers are exactly the candidates
        assert forall|x: u128| ids@.contains(x) implies rids.contains(x) by {
            let m = choose|m: int| 0 <= m < ids@.len() && ids@[m] == x;
            assert(models_of(r@).contains(record_of(s1, x)));
            let k = choose|k: int| 0 <= k < models_of(r@).len() && models_of(r@)[k] == record_of(
                s1,
                x,
            );
            assert(record_of(s1, x).id == x) by {
                lemma_assign_model_record(s0, processor, ids@, x);
                assert(record_of(s0, x).id == x);
            }
            assert(rids[k] == x);
        }
        assert forall|x: u128| rids.contains(x) implies ids@.contains(x) by {
            let k = choose|k: int| 0 <= k < rids.len() && rids[k] == x;
            assert(r@[k]@.id == x);
            assert(ids@.contains(r@[k]@.id));
        }
        // the two candidate lists stamp the same records
        assert(store@ =~= assign_model(s0, processor, rids)) by {
            assert forall|i: int| 0 <= i < s0.len() implies assign_model(s0, processor, ids@)[i]
                == assign_model(s0, processor, rids)[i] by {
                assert(ids@.contains(s0[i].id) == rids.contains(s0[i].id));
            }
            assert(assign_model(s0, processor, ids@) =~= assign_model(s0, processor, rids));
        }
        // per-task shape of each confirmed claim
        assert forall|k: int| 0 <= k < r@.len() implies has_id(s0, #[trigger] r@[k]@.id)
            && record_of(s0, r@[k]@.id).eligible(now.millis as int) && r@[k]@ == record_of(
            s0,
            r@[k]@.id,
        ).assigned_to(processor) by {
            let tid = r@[k]@.id;
            assert(ids@.contains(tid));
            let m = choose|m: int| 0 <= m < ids@.len() && ids@[m] == tid;
            lemma_assign_model_record(s0, processor, ids@, tid);
            assert(r@[k]@ == record_of(s1, tid));
        }
        // a partial batch means every candidate fit: the result has the
        // same length as the candidate list
        assert(rids.no_duplicates());
        assert(ids@.no_duplicates());
        rids.unique_seq_to_set();
        ids@.unique_seq_to_set();
        assert(rids.to_set() =~= ids@.to_set()) by {
            assert forall|x: u128| rids.to_set().contains(x) implies ids@.to_set().contains(
                x,
            ) by {
                assert(rids.contains(x));
                let m = choose|m: int| 0 <= m < ids@.len() && ids@[m] == x;
                assert(ids@.to_set().contains(ids@[m]));
            }
            assert forall|x: u128| ids@.to_set().contains(x) implies rids.to_set().contains(
                x,
            ) by {
                assert(ids@.contains(x));
                let k = choose|k: int| 0 <= k < rids.len() && rids[k] == x;
                assert(rids.to_set().contains(rids[k]));
            }
        }
        assert(r@.len() == ids@.len());
        // a completed record is never a candidate, so it is never stamped
        assert forall|i: int|
            0 <= i < s0.len() && s0[i].state is Complete implies store@[i] == s0[i] by {
            if ids@.contains(s0[i].id) {
                let m = choose|m: int| 0 <= m < ids@.len() && ids@[m] == s0[i].id;
                assert(record_of(s0, ids@[m]).eligible(now.millis as int));
                lemma_record_at(s0, s0[i].id, i);
            }
        }
        // a fully idle table cannot have produced a candidate
        if forall|i: int| 0 <= i < s0.len() ==> !s0[i].eligible(now.millis as int) {
            assert(ids@.contains(ids@[0]));
            assert(has_id(s0, ids@[0]) && record_of(s0, ids@[0]).eligible(now.millis as int));
            let i = idx_of(s0, ids@[0]);
            assert(0 <= i < s0.len() && s0[i].id == ids@[0]);
            assert(!s0[i].eligible(now.millis as int));
            assert(false);
        }
    }
    r
}

/// At-most-one-claimant: two confirm phases, run by different supervisors
/// over any candidate sets against the same table contents, never both
/// return the same task, because a record carries a single `processor`
/// value. Under per-key linearizable writes this covers every schedule in
/// which all assign phases land before any confirm phase is read; a
/// schedule whose last assign lands only after another supervisor already
/// confirmed the task is outside this statement.
pub proof fn lemma_at_most_one_claimant(
    s: Seq<TaskModel>,
    ids1: Seq<u128>,
    p1: u128,
    ids2: Seq<u128>,
    p2: u128,
    tid: u128,
)
    requires
        p1 != p2,
    ensures
        !(confirm_returns(s, ids1, p1, tid) && confirm_returns(s, ids2, p2, tid)),
{
}

/// One assign phase of a contended schedule: the claiming supervisor and
/// the candidate identifiers it proposed.
pub ghost struct AssignPhase {
    pub processor: u128,
    pub ids: Seq<u128>,
}

/// The table after the given assign phases land, in order.
pub open spec fn apply_assigns(s: Seq<TaskModel>, phases: Seq<AssignPhase>) -> Seq<TaskModel>
    decreases phases.len(),
{
    if phases.len() == 0 {
        s
    } else {
        assign_model(
            apply_assigns(s, phases.drop_last()),
            phases.last().processor,
            phases.last().ids,
        )
    }
}

/// The supervisor whose assign stamped `tid` last, if any phase proposed it.
pub open spec fn last_claimer(phases: Seq<AssignPhase>, tid: u128) -> Option<u128>
    decreases phases.len(),
{
    if phases.len() == 0 {
        None
    } else if phases.last().ids.contains(tid) {
        Some(phases.last().processor)
    } else {
        last_claimer(phases.drop_last(), tid)
    }
}

/// Last writer wins: after any sequence of assign phases, the record of
/// `tid` names the supervisor whose assign stamped it last, or keeps its
/// original owner when no phase proposed it.
pub proof fn lemma_last_assign_wins(s0: Seq<TaskModel>, phases: Seq<AssignPhase>, tid: u128)
    requires
        unique_ids(s0),
        has_id(s0, tid),
    ensures
        unique_ids(apply_assigns(s0, phases)),
        has_id(apply_assigns(s0, phases), tid),
        record_of(apply_assigns(s0, phases), tid).processor == (match last_claimer(phases, tid) {
            Some(p) => p,
            None => record_of(s0, tid).processor,
        }),
    decreases phases.len(),
{
    if phases.len() > 0 {
        lemma_last_assign_wins(s0, phases.drop_last(), tid);
        lemma_assign_model_record(
            apply_assigns(s0, phases.drop_last()),
            phases.last().processor,
            phases.last().ids,
            tid,
        );
    }
}

/// When index `k` is the last phase proposing `tid`, that phase's
/// supervisor is the last claimer.
proof fn lemma_last_claimer_at(phases: Seq<AssignPhase>, tid: u128, k: int)
    requires
        0 <= k < phases.len(),
        phases[k].ids.contains(tid),
        forall|l: int| k < l < phases.len() ==> !(#[trigger] phases[l].ids).contains(tid),
    ensures
        last_claimer(phases, tid) == Some(phases[k].processor),
    decreases phases.len(),
{
    if k == phases.len() - 1 {
    } else {
        assert(!phases.last().ids.contains(tid));
        assert(phases.drop_last()[k] == phases[k]);
        assert(forall|l: int|
            k < l < phases.drop_last().len() ==> !(#[trigger] phases.drop_last()[l].ids).contains(
                tid,
            ));
        lemma_last_claimer_at(phases.drop_last(), tid, k);
    }
}

/// A last claimer always stamps at some phase index after which no other
/// phase proposes the task.
proof fn lemma_last_claimer_witness(phases: Seq<AssignPhase>, tid: u128) -> (m: int)
    requires
        last_claimer(phases, tid) is Some,
    ensures
        0 <= m < phases.len(),
        phases[m].ids.contains(tid),
        last_claimer(phases, tid) == Some(phases[m].processor),
        forall|l: int| m < l < phases.len() ==> !(#[trigger] phases[l].ids).contains(tid),
    decreases phases.len(),
{
    if phases.last().ids.contains(tid) {
        phases.len() - 1
    } else {
        let m = lemma_last_claimer_witness(phases.drop_last(), tid);
        assert(phases.drop_last()[m] == phases[m]);
        assert forall|l: int| m < l < phases.len() implies !(#[trigger] phases[l].ids).contains(
            tid,
        ) by {
            if l < phases.len() - 1 {
                assert(phases.drop_last()[l] == phases[l]);
            }
        }
        m
    }
}

/// If some phase proposes `tid`, somebody is its last claimer.
proof fn lemma_some_claimer(phases: Seq<AssignPhase>, tid: u128)
    requires
        exists|i: int| 0 <= i < phases.len() && (#[trigger] phases[i].ids).contains(tid),
    ensures
        last_claimer(phases, tid) is Some,
    decreases phases.len(),
{
    if !phases.last().ids.contains(tid) {
        let i = choose|i: int| 0 <= i < phases.len() && (#[trigger] phases[i].ids).contains(tid);
        assert(i < phases.len() - 1);
        assert(phases.drop_last()[i] == phases[i]);
        lemma_some_claimer(phases.drop_last(), tid);
    }
}

/// At-most-one-claimant over a full contended schedule: any number of
/// supervisors, with distinct real identities, propose candidate sets
/// against a table whose record of `tid` is unclaimed; all their assigns
/// land in any order; every confirm then reads the assigned table. The
/// confirm of phase `k` returns `tid` exactly when `k` proposed it and no
/// later phase did: each proposed task has one winner, the last assigner,
/// and every other supervisor drops it. Under per-key linearizable writes
/// this covers every schedule in which all assigns land before any confirm
/// reads; a schedule whose assign lands only after another supervisor
/// already confirmed the task is outside this statement.
pub proof fn lemma_contended_schedule_winner(
    s0: Seq<TaskModel>,
    phases: Seq<AssignPhase>,
    k: int,
    tid: u128,
)
    requires
        unique_ids(s0),
        has_id(s0, tid),
        record_of(s0, tid).processor == NIL_PROCESSOR,
        forall|i: int| 0 <= i < phases.len() ==> (#[trigger] phases[i].processor) != NIL_PROCESSOR,
        forall|i: int, j: int|
            0 <= i < phases.len() && 0 <= j < phases.len() && i != j ==> phases[i].processor
                != phases[j].processor,
        0 <= k < phases.len(),
    ensures
        confirm_returns(apply_assigns(s0, phases), phases[k].ids, phases[k].processor, tid) <==> (
        phases[k].ids.contains(tid) && (forall|l: int|
            k < l < phases.len() ==> !(#[trigger] phases[l].ids).contains(tid))),
{
    lemma_last_assign_wins(s0, phases, tid);
    let s = apply_assigns(s0, phases);
    if phases[k].ids.contains(tid) && (forall|l: int|
        k < l < phases.len() ==> !(#[trigger] phases[l].ids).contains(tid)) {
        lemma_last_claimer_at(phases, tid, k);
        assert(confirm_returns(s, phases[k].ids, phases[k].processor, tid));
    }
    if confirm_returns(s, phases[k].ids, phases[k].processor, tid) {
        assert(record_of(s, tid).processor == phases[k].processor);
        assert(last_claimer(phases, tid) is Some) by {
            assert(phases[k].ids.contains(tid));
            lemma_some_claimer(phases, tid);
        }
        let m = lemma_last_claimer_witness(phases, tid);
        assert(phases[m].processor == phases[k].processor);
        assert(m == k);
    }
}

/// No-loss admission over a contended schedule: a task proposed by at
/// least one phase never vanishes — exactly one supervisor's confirm
/// returns it, so it is claimed once, never zero times and never twice.
pub proof fn lemma_no_loss_admission(s0: Seq<TaskModel>, phases: Seq<AssignPhase>, tid: u128)
    requires
        unique_ids(s0),
        has_id(s0, tid),
        record_of(s0, tid).processor == NIL_PROCESSOR,
        forall|i: int| 0 <= i < phases.len() ==> (#[trigger] phases[i].processor) != NIL_PROCESSOR,
        forall|i: int, j: int|
            0 <= i < phases.len() && 0 <= j < phases.len() && i != j ==> phases[i].processor
                != phases[j].processor,
        exists|i: int| 0 <= i < phases.len() && (#[trigger] phases[i].ids).contains(tid),
    ensures
        exists|k: int|
            0 <= k < phases.len() && #[trigger] confirm_returns(
                apply_assigns(s0, phases),
                phases[k].ids,
                phases[k].processor,
                tid,
            ),
        forall|k1: int, k2: int|
            0 <= k1 < phases.len() && 0 <= k2 < phases.len() && confirm_returns(
                apply_assigns(s0, phases),
                phases[k1].ids,
                phases[k1].processor,
                tid,
            ) && confirm_returns(
                apply_assigns(s0, phases),
                phases[k2].ids,
                phases[k2].processor,
                tid,
            ) ==> k1 == k2,
{
    let s = apply_assigns(s0, phases);
    lemma_some_claimer(phases, tid);
    let m = lemma_last_claimer_witness(phases, tid);
    lemma_contended_schedule_winner(s0, phases, m, tid);
    assert(confirm_returns(s, phases[m].ids, phases[m].processor, tid));
    assert forall|k1: int, k2: int|
        0 <= k1 < phases.len() && 0 <= k2 < phases.len() && confirm_returns(
            s,
            phases[k1].ids,
            phases[k1].processor,
            tid,
        ) && confirm_returns(s, phases[k2].ids, phases[k2].processor, tid) implies k1 == k2 by {
        lemma_contended_schedule_winner(s0, phases, k1, tid);
        lemma_contended_schedule_winner(s0, phases, k2, tid);
        if k1 < k2 {
            assert(phases[k2].ids.contains(tid));
        }
        if k2 < k1 {
            assert(phases[k1].ids.contains(tid));
        }
    }
}

/// The contended schedule: two supervisors propose overlapping candidate
/// sets against `s0`, both assign (first `p1`, then `p2`), and both confirm
/// afterwards. Every contended task belongs to the supervisor whose assign
/// landed last, the other confirms none of them, and no proposed task is
/// lost: each is confirmed by exactly one of the two.
pub proof fn lemma_race_single_winner(
    s0: Seq<TaskModel>,
    ids1: Seq<u128>,
    p1: u128,
    ids2: Seq<u128>,
    p2: u128,
    tid: u128,
)
    requires
        unique_ids(s0),
        p1 != p2,
        has_id(s0, tid),
    ensures
        ({
            let s2 = assign_model(assign_model(s0, p1, ids1), p2, ids2);
            &&& ids2.contains(tid) ==> confirm_returns(s2, ids2, p2, tid) && !confirm_returns(
                s2,
                ids1,
                p1,
                tid,
            )
            &&& ids1.contains(tid) && !ids2.contains(tid) ==> confirm_returns(s2, ids1, p1, tid)
                && !confirm_returns(s2, ids2, p2, tid)
        }),
{
    let s1 = assign_model(s0, p1, ids1);
    lemma_assign_model_record(s0, p1, ids1, tid);
    lemma_assign_model_record(s1, p2, ids2, tid);
}

} // verus!
