//! The task table and the store operations the scheduler core consumes:
//! plain CRUD plus the three primitives the claim protocol is built from
//! (`list_ready`, `assign`, `fetch_claimed`) and the completion write.
//!
//! The table is modelled as a sequence of task records with pairwise
//! distinct identifiers; every operation's contract is stated against that
//! sequence, so the protocol layer can reason about exactly which records
//! each phase reads and writes.

use vstd::prelude::*;

use crate::task::{NIL_PROCESSOR, Task, TaskError, TaskModel, TaskState, Timestamp};

verus! {

/// The models of a sequence of task records, in order.
pub open spec fn models_of(v: Seq<Task>) -> Seq<TaskModel> {
    v.map_values(|t: Task| t@)
}

/// Whether some record in `s` carries identifier `id`.
pub open spec fn has_id(s: Seq<TaskModel>, id: u128) -> bool {
    exists|i: int| 0 <= i < s.len() && s[i].id == id
}

/// Identifiers are pairwise distinct.
pub open spec fn unique_ids(s: Seq<TaskModel>) -> bool {
    forall|i: int, j: int|
        0 <= i < s.len() && 0 <= j < s.len() && s[i].id == s[j].id ==> i == j
}

/// The index of the record carrying `id` (meaningful when `has_id` holds).
pub open spec fn idx_of(s: Seq<TaskModel>, id: u128) -> int {
    choose|i: int| 0 <= i < s.len() && s[i].id == id
}

/// The record carrying `id` (meaningful when `has_id` holds).
pub open spec fn record_of(s: Seq<TaskModel>, id: u128) -> TaskModel {
    s[idx_of(s, id)]
}

/// The table after an unconditional bulk assignment: every record whose
/// identifier is in `ids` now reads `state = Processing, processor = p`;
/// every other record is untouched.
pub open spec fn assign_model(s: Seq<TaskModel>, p: u128, ids: Seq<u128>) -> Seq<TaskModel> {
    Seq::new(
        s.len(),
        |i: int| if ids.contains(s[i].id) { s[i].assigned_to(p) } else { s[i] },
    )
}

/// The table after an unconditional completion write against `id`.
pub open spec fn complete_model(s: Seq<TaskModel>, id: u128) -> Seq<TaskModel> {
    Seq::new(s.len(), |i: int| if s[i].id == id { s[i].completed() } else { s[i] })
}

/// Optional filters for listing tasks: a task matches when each present
/// filter equals the corresponding field.
pub struct TaskFilters {
    pub state: Option<String>,
    pub task_type: Option<String>,
}

/// The display tag of a lifecycle state, as the table stores it.
pub open spec fn state_tag(s: TaskState) -> Seq<char> {
    match s {
        TaskState::Ready => "READY"@,
        TaskState::Processing => "PROCESSING"@,
        TaskState::Complete => "COMPLETE"@,
    }
}

pub fn state_tag_of(s: TaskState) -> (r: String)
    ensures
        r@ == state_tag(s),
{
    match s {
        TaskState::Ready => "READY".to_owned(),
        TaskState::Processing => "PROCESSING".to_owned(),
        TaskState::Complete => "COMPLETE".to_owned(),
    }
}

/// Whether record `t` passes `state` / `task_type` filters `fs` and `ft`.
pub open spec fn spec_matches_filters(
    t: TaskModel,
    fs: Option<Seq<char>>,
    ft: Option<Seq<char>>,
) -> bool {
    &&& (fs matches Some(s) ==> state_tag(t.state) == s)
    &&& (ft matches Some(ty) ==> t.task_type == ty)
}

/// The filters' fields as sequences of characters.
pub open spec fn filter_views(f: TaskFilters) -> (Option<Seq<char>>, Option<Seq<char>>) {
    (
        match f.state {
            Some(s) => Some(s@),
            None => None,
        },
        match f.task_type {
            Some(t) => Some(t@),
            None => None,
        },
    )
}

/// The records of `s` passing the filters, in order.
pub open spec fn filtered_models(
    s: Seq<TaskModel>,
    fs: Option<Seq<char>>,
    ft: Option<Seq<char>>,
) -> Seq<TaskModel> {
    s.filter(|t: TaskModel| spec_matches_filters(t, fs, ft))
}

pub fn matches_filters(t: &Task, f: &TaskFilters) -> (r: bool)
    ensures
        r == spec_matches_filters(t@, filter_views(*f).0, filter_views(*f).1),
{
    let state_ok = match &f.state {
        Some(s) => *s == state_tag_of(t.state),
        None => true,
    };
    let type_ok = match &f.task_type {
        Some(ty) => *ty == t.task_type,
        None => true,
    };
    state_ok && type_ok
}

/// The shared task table: a durable collection of task records keyed by
/// identifier.
pub struct TaskStore {
    tasks: Vec<Task>,
}

impl View for TaskStore {
    type V = Seq<TaskModel>;

    closed spec fn view(&self) -> Seq<TaskModel> {
        models_of(self.tasks@)
    }
}

impl TaskStore {
    /// Table invariant: identifiers are distinct and every record is
    /// well-formed.
    pub open spec fn wf(&self) -> bool {
        &&& unique_ids(self@)
        &&& forall|i: int| 0 <= i < self@.len() ==> self@[i].wf()
    }

    pub fn new() -> (r: TaskStore)
        ensures
            r@ == Seq::<TaskModel>::empty(),
            r.wf(),
    {
        TaskStore { tasks: Vec::new() }
    }

    /// The index of the record carrying `id`, if any.
    fn find_index(&self, id: u128) -> (r: Option<usize>)
        ensures
            (r matches Some(i) ==> 0 <= i < self@.len() && self@[i as int].id == id),
            (r is None ==> !has_id(self@, id)),
    {
        let mut i: usize = 0;
        while i < self.tasks.len()
            invariant
                0 <= i <= self@.len(),
                self@.len() == self.tasks@.len(),
                forall|j: int| 0 <= j < i ==> self@[j].id != id,
            decreases self@.len() - i,
        {
            if self.tasks[i].id == id {
                return Some(i);
            }
            i = i + 1;
        }
        None
    }

    /// Plain read: the record carrying `id`, or the no-row error.
    pub fn get_task(&self, id: u128) -> (r: Result<Task, TaskError>)
        requires
            self.wf(),
        ensures
            (has_id(self@, id) ==> (r matches Ok(t) && t@ == record_of(self@, id))),
            (!has_id(self@, id) ==> (r matches Err(e) && e == TaskError::TypedError)),
    {
        match self.find_index(id) {
            Some(i) => {
                proof {
                    lemma_record_at(self@, id, i as int);
                }
                Ok(self.tasks[i].duplicate())
            },
            None => Err(TaskError::TypedError),
        }
    }

    /// Plain read: every record passing the filters, in table order.
    pub fn get_tasks(&self, filters: &TaskFilters) -> (r: Vec<Task>)
        ensures
            models_of(r@) == filtered_models(
                self@,
                filter_views(*filters).0,
                filter_views(*filters).1,
            ),
    {
        let mut out: Vec<Task> = Vec::new();
        let mut i: usize = 0;
        proof {
            reveal_with_fuel(Seq::<_>::filter, 1);
            assert(models_of(out@) =~= filtered_models(self@.take(0), filter_views(*filters).0, filter_views(*filters).1));
        }
        while i < self.tasks.len()
            invariant
                0 <= i <= self@.len(),
                self@.len() == self.tasks@.len(),
                models_of(out@) == filtered_models(self@.take(i as int), filter_views(*filters).0, filter_views(*filters).1),
            decreases self@.len() - i,
        {
            proof {
                reveal_with_fuel(Seq::<_>::filter, 2);
                assert(self@.take(i as int + 1).drop_last() =~= self@.take(i as int));
                assert(self@.take(i as int + 1).len() == i + 1);
                assert(self@.take(i as int + 1).last() == self@[i as int]);
                assert(filtered_models(self@.take(i as int + 1), filter_views(*filters).0, filter_views(*filters).1) == (
                if spec_matches_filters(self@[i as int], filter_views(*filters).0, filter_views(*filters).1) {
                    filtered_models(self@.take(i as int), filter_views(*filters).0, filter_views(*filters).1).push(self@[i as int])
                } else {
                    filtered_models(self@.take(i as int), filter_views(*filters).0, filter_views(*filters).1)
                }));
            }
            let keep = matches_filters(&self.tasks[i], filters);
            proof {
                assert(self@[i as int] == self.tasks@[i as int]@);
                assert(keep == spec_matches_filters(
                    self.tasks@[i as int]@,
                    filter_views(*filters).0,
                    filter_views(*filters).1,
                ));
            }
            if keep {
                let ghost prev = models_of(out@);
                out.push(self.tasks[i].duplicate());
                proof {
                    assert(models_of(out@) =~= prev.push(self@[i as int]));
                }
            }
            i = i + 1;
        }
        proof {
            assert(self@.take(self@.len() as int) =~= self@);
        }
        out
    }

    /// Plain upsert: after the call the table carries exactly `task` under
    /// its identifier; every other record is untouched.
    pub fn create_task(&mut self, task: Task) -> (r: u128)
        requires
            old(self).wf(),
            task@.wf(),
        ensures
            r == task@.id,
            final(self).wf(),
            (has_id(old(self)@, task@.id) ==> final(self)@ == old(self)@.update(
                idx_of(old(self)@, task@.id),
                task@,
            )),
            (!has_id(old(self)@, task@.id) ==> final(self)@ == old(self)@.push(task@)),
    {
        let id = task.id;
        match self.find_index(id) {
            Some(i) => {
                proof {
                    lemma_record_at(self@, id, i as int);
                }
                self.tasks[i] = task;
                proof {
                    assert(self@ =~= old(self)@.update(idx_of(old(self)@, id), self@[i as int]));
                }
            },
            None => {
                self.tasks.push(task);
                proof {
                    assert(self@ =~= old(self)@.push(self@.last()));
                }
            },
        }
        id
    }

    /// Plain delete: after the call no record carries `id`; every other
    /// record is untouched.
    pub fn delete_task(&mut self, id: u128)
        requires
            old(self).wf(),
        ensures
            final(self).wf(),
            (has_id(old(self)@, id) ==> final(self)@ == old(self)@.remove(
                idx_of(old(self)@, id),
            )),
            (!has_id(old(self)@, id) ==> final(self)@ == old(self)@),
            !has_id(final(self)@, id),
    {
        match self.find_index(id) {
            Some(i) => {
                proof {
                    lemma_record_at(self@, id, i as int);
                }
                self.tasks.remove(i);
                proof {
                    assert(self@ =~= old(self)@.remove(idx_of(old(self)@, id)));
                    assert forall|j: int| 0 <= j < self@.len() implies self@[j].id != id by {
                        let i0 = idx_of(old(self)@, id);
                        if j < i0 {
                            assert(self@[j] == old(self)@[j]);
                        } else {
                            assert(self@[j] == old(self)@[j + 1]);
                        }
                    }
                }
            },
            None => {},
        }
    }

    /// Propose phase primitive: up to `max_count` identifiers of records
    /// that are ready, unclaimed, and due at `now`. When the result is not
    /// full, it holds every such identifier.
    pub fn list_ready(&self, max_count: usize, now: Timestamp) -> (r: Vec<u128>)
        requires
            self.wf(),
        ensures
            r@.len() <= max_count,
            r@.no_duplicates(),
            forall|k: int|
                0 <= k < r@.len() ==> has_id(self@, r@[k]) && record_of(self@, r@[k]).eligible(
                    now.millis as int,
                ),
            r@.len() < max_count ==> forall|i: int|
                0 <= i < self@.len() && self@[i].eligible(now.millis as int) ==> r@.contains(
                    self@[i].id,
                ),
    {
        let mut out: Vec<u128> = Vec::new();
        let mut i: usize = 0;
        while i < self.tasks.len() && out.len() < max_count
            invariant
                0 <= i <= self@.len(),
                self@.len() == self.tasks@.len(),
                out@.len() <= max_count,
                self.wf(),
                forall|k: int|
                    0 <= k < out@.len() ==> eligible_witness(
                        self@,
                        i as int,
                        #[trigger] out@[k],
                        now.millis as int,
                    ),
                out@.no_duplicates(),
                out@.len() < max_count ==> forall|j: int|
                    0 <= j < i && self@[j].eligible(now.millis as int) ==> out@.contains(
                        self@[j].id,
                    ),
            decreases self@.len() - i,
        {
            let t = &self.tasks[i];
            let is_eligible = matches!(t.state, TaskState::Ready) && t.processor == NIL_PROCESSOR
                && t.send_ts.is_due_by(&now);
            if is_eligible {
                proof {
                    assert(self@[i as int].eligible(now.millis as int));
                    assert forall|k: int| 0 <= k < out@.len() implies out@[k]
                        != self@[i as int].id by {
                        let j = lemma_eligible_witness_elim(
                            self@,
                            i as int,
                            out@[k],
                            now.millis as int,
                        );
                    }
                }
                let ghost prev = out@;
                out.push(t.id);
                proof {
                    assert(out@[prev.len() as int] == self@[i as int].id);
                    lemma_eligible_witness_intro(self@, i as int + 1, i as int, now.millis as int);
                    assert forall|x: u128| prev.contains(x) implies out@.contains(x) by {
                        lemma_push_preserves_contains(prev, self@[i as int].id, x);
                    }
                }
            }
            proof {
                assert forall|k: int| 0 <= k < out@.len() implies eligible_witness(
                    self@,
                    i as int + 1,
                    #[trigger] out@[k],
                    now.millis as int,
                ) by {
                    if eligible_witness(self@, i as int, out@[k], now.millis as int) {
                        lemma_eligible_witness_mono(
                            self@,
                            i as int,
                            i as int + 1,
                            out@[k],
                            now.millis as int,
                        );
                    }
                }
            }
            i = i + 1;
        }
        proof {
            assert forall|k: int| 0 <= k < out@.len() implies has_id(self@, out@[k]) && record_of(
                self@,
                out@[k],
            ).eligible(now.millis as int) by {
                let j = lemma_eligible_witness_elim(self@, i as int, out@[k], now.millis as int);
                lemma_record_at(self@, out@[k], j);
            }
        }
        out
    }

    /// Assign phase primitive: an unconditional bulk write stamping
    /// `processor` and `Processing` onto every record whose identifier is in
    /// `ids`. Last writer wins; there is no compare-and-swap.
    pub fn assign(&mut self, processor: u128, ids: &Vec<u128>)
        requires
            old(self).wf(),
            processor != NIL_PROCESSOR,
        ensures
            final(self).wf(),
            final(self)@ == assign_model(old(self)@, processor, ids@),
    {
        let ghost orig = self@;
        let n = self.tasks.len();
        let mut i: usize = 0;
        while i < n
            invariant
                0 <= i <= orig.len(),
                self@.len() == orig.len(),
                self.tasks@.len() == orig.len(),
                forall|j: int|
                    0 <= j < i ==> self@[j] == (if ids@.contains(orig[j].id) {
                        orig[j].assigned_to(processor)
                    } else {
                        orig[j]
                    }),
                forall|j: int| i <= j < orig.len() ==> self@[j] == orig[j],
                n == orig.len(),
            decreases orig.len() - i,
        {
            let ghost prev = self@;
            if contains_id(ids, self.tasks[i].id) {
                let t = &self.tasks[i];
                let updated = Task {
                    id: t.id,
                    task_type: t.task_type.clone(),
                    state: TaskState::Processing,
                    send_ts: t.send_ts,
                    processor,
                };
                proof {
                    assert(updated@ == prev[i as int].assigned_to(processor));
                }
                self.tasks[i] = updated;
                proof {
                    assert(self@ =~= prev.update(i as int, updated@));
                }
            }
            i = i + 1;
        }
        proof {
            assert(self@ =~= assign_model(orig, processor, ids@));
            assert forall|j: int| 0 <= j < self@.len() implies self@[j].wf() by {
                assert(orig[j].wf());
            }
            assert forall|j: int, k: int|
                0 <= j < self@.len() && 0 <= k < self@.len() && self@[j].id == self@[k].id implies j
                == k by {
                assert(self@[j].id == orig[j].id && self@[k].id == orig[k].id);
            }
        }
    }

    /// Confirm phase primitive: among `ids`, the full records whose
    /// `processor` column currently equals `processor`, in the order of
    /// `ids`. Identifiers that another writer overwrote are silently absent.
    pub fn fetch_claimed(&self, ids: &Vec<u128>, processor: u128) -> (r: Vec<Task>)
        requires
            self.wf(),
            ids@.no_duplicates(),
        ensures
            r@.len() <= ids@.len(),
            forall|k: int|
                0 <= k < r@.len() ==> #[trigger] r@[k]@ == record_of(self@, r@[k]@.id) && has_id(
                    self@,
                    r@[k]@.id,
                ) && ids@.contains(r@[k]@.id) && r@[k]@.processor == processor,
            forall|m: int|
                0 <= m < ids@.len() && has_id(self@, #[trigger] ids@[m]) && record_of(
                    self@,
                    ids@[m],
                ).processor == processor ==> models_of(r@).contains(record_of(self@, ids@[m])),
            forall|k: int, l: int|
                0 <= k < r@.len() && 0 <= l < r@.len() && k != l ==> r@[k]@.id != r@[l]@.id,
    {
        let mut out: Vec<Task> = Vec::new();
        let mut m: usize = 0;
        while m < ids.len()
            invariant
                0 <= m <= ids@.len(),
                self.wf(),
                ids@.no_duplicates(),
                out@.len() <= m,
                forall|k: int|
                    0 <= k < out@.len() ==> #[trigger] out@[k]@ == record_of(self@, out@[k]@.id)
                        && has_id(self@, out@[k]@.id) && out@[k]@.processor == processor,
                forall|k: int|
                    0 <= k < out@.len() ==> ids@.take(m as int).contains(#[trigger] out@[k]@.id),
                forall|j: int|
                    0 <= j < m && has_id(self@, #[trigger] ids@[j]) && record_of(
                        self@,
                        ids@[j],
                    ).processor == processor ==> models_of(out@).contains(
                        record_of(self@, ids@[j]),
                    ),
                forall|k: int, l: int|
                    0 <= k < out@.len() && 0 <= l < out@.len() && k != l ==> out@[k]@.id
                        != out@[l]@.id,
            decreases ids@.len() - m,
        {
            let id = ids[m];
            match self.find_index(id) {
                Some(i) => {
                    proof {
                        lemma_record_at(self@, id, i as int);
                    }
                    if self.tasks[i].processor == processor {
                        let ghost prev = out@;
                        proof {
                            assert forall|k: int| 0 <= k < prev.len() implies prev[k]@.id
                                != id by {
                                if prev[k]@.id == id {
                                    let j = choose|j: int|
                                        0 <= j < ids@.take(m as int).len() && ids@.take(
                                            m as int,
                                        )[j] == id;
                                    assert(ids@[j] == ids@[m as int]);
                                }
                            }
                        }
                        out.push(self.tasks[i].duplicate());
                        proof {
                            assert(models_of(out@) =~= models_of(prev).push(self@[i as int]));
                            assert(models_of(out@)[prev.len() as int] == record_of(self@, id));
                            assert forall|y: TaskModel| models_of(prev).contains(y)
                                implies models_of(out@).contains(y) by {
                                lemma_push_preserves_contains(models_of(prev), self@[i as int], y);
                            }
                        }
                    }
                },
                None => {},
            }
            proof {
                assert(ids@.take(m as int + 1) =~= ids@.take(m as int).push(ids@[m as int]));
                assert forall|x: u128| ids@.take(m as int).contains(x) implies ids@.take(
                    m as int + 1,
                ).contains(x) by {
                    lemma_push_preserves_contains(ids@.take(m as int), ids@[m as int], x);
                }
                assert(ids@.take(m as int + 1).contains(ids@[m as int])) by {
                    assert(ids@.take(m as int + 1)[m as int] == ids@[m as int]);
                }
            }
            m = m + 1;
        }
        proof {
            assert(ids@.take(ids@.len() as int) =~= ids@);
        }
        out
    }

    /// Completion primitive: an unconditional write setting `Complete` on
    /// the record carrying `id`; every other record is untouched.
    pub fn complete_task(&mut self, id: u128)
        requires
            old(self).wf(),
        ensures
            final(self).wf(),
            final(self)@ == complete_model(old(self)@, id),
    {
        let ghost orig = self@;
        let n = self.tasks.len();
        let mut i: usize = 0;
        while i < n
            invariant
                0 <= i <= orig.len(),
                self@.len() == orig.len(),
                self.tasks@.len() == orig.len(),
                forall|j: int|
                    0 <= j < i ==> self@[j] == (if orig[j].id == id {
                        orig[j].completed()
                    } else {
                        orig[j]
                    }),
                forall|j: int| i <= j < orig.len() ==> self@[j] == orig[j],
                n == orig.len(),
            decreases orig.len() - i,
        {
            let ghost prev = self@;
            if self.tasks[i].id == id {
                let t = &self.tasks[i];
                let updated = Task {
                    id: t.id,
                    task_type: t.task_type.clone(),
                    state: TaskState::Complete,
                    send_ts: t.send_ts,
                    processor: t.processor,
                };
                proof {
                    assert(updated@ == prev[i as int].completed());
                }
                self.tasks[i] = updated;
                proof {
                    assert(self@ =~= prev.update(i as int, updated@));
                }
            }
            i = i + 1;
        }
        proof {
            assert(self@ =~= complete_model(orig, id));
            assert forall|j: int| 0 <= j < self@.len() implies self@[j].wf() by {
                assert(orig[j].wf());
            }
            assert forall|j: int, k: int|
                0 <= j < self@.len() && 0 <= k < self@.len() && self@[j].id == self@[k].id implies j
                == k by {
                assert(self@[j].id == orig[j].id && self@[k].id == orig[k].id);
            }
        }
    }
}

/// Some record among the first `upto` of `s` carries `id` and is eligible
/// at `now`.
spec fn eligible_witness(s: Seq<TaskModel>, upto: int, id: u128, now: int) -> bool {
    exists|j: int| 0 <= j < upto && (#[trigger] s[j]).id == id && s[j].eligible(now)
}

proof fn lemma_eligible_witness_elim(s: Seq<TaskModel>, upto: int, id: u128, now: int) -> (j: int)
    requires
        eligible_witness(s, upto, id, now),
    ensures
        0 <= j < upto,
        s[j].id == id,
        s[j].eligible(now),
{
    choose|j: int| 0 <= j < upto && (#[trigger] s[j]).id == id && s[j].eligible(now)
}

proof fn lemma_eligible_witness_intro(s: Seq<TaskModel>, upto: int, j: int, now: int)
    requires
        0 <= j < upto,
        s[j].eligible(now),
    ensures
        eligible_witness(s, upto, s[j].id, now),
{
    assert(0 <= j < upto && s[j].id == s[j].id && s[j].eligible(now));
}

proof fn lemma_eligible_witness_mono(s: Seq<TaskModel>, upto1: int, upto2: int, id: u128, now: int)
    requires
        eligible_witness(s, upto1, id, now),
        upto1 <= upto2,
    ensures
        eligible_witness(s, upto2, id, now),
{
    let j = lemma_eligible_witness_elim(s, upto1, id, now);
    lemma_eligible_witness_intro(s, upto2, j, now);
}

/// An element of a sequence is still an element after a push.
proof fn lemma_push_preserves_contains<A>(s: Seq<A>, x: A, y: A)
    requires
        s.contains(y),
    ensures
        s.push(x).contains(y),
{
    let i = choose|i: int| 0 <= i < s.len() && s[i] == y;
    assert(s.push(x)[i] == y);
}

/// With distinct identifiers, the record found at an index carrying `id` is
/// the record `record_of` denotes.
pub proof fn lemma_record_at(s: Seq<TaskModel>, id: u128, i: int)
    requires
        unique_ids(s),
        0 <= i < s.len(),
        s[i].id == id,
    ensures
        has_id(s, id),
        idx_of(s, id) == i,
        record_of(s, id) == s[i],
{
    assert(has_id(s, id));
    let j = idx_of(s, id);
    assert(0 <= j < s.len() && s[j].id == id);
}

/// Whether `ids` holds `id`.
pub fn contains_id(ids: &Vec<u128>, id: u128) -> (r: bool)
    ensures
        r == ids@.contains(id),
{
    let mut i: usize = 0;
    while i < ids.len()
        invariant
            0 <= i <= ids@.len(),
            forall|j: int| 0 <= j < i ==> ids@[j] != id,
        decreases ids@.len() - i,
    {
        if ids[i] == id {
            return true;
        }
        i = i + 1;
    }
    false
}

} // verus!
