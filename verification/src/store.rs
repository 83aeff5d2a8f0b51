use vstd::prelude::*;
use crate::task::{Task, TaskView, TodoError, LoadError, task_wf, opt_text_view, PRIORITY_MIN, PRIORITY_MAX};
use crate::text::{contains_seq, str_contains};
use crate::codec::{enc_tasks, dec_tasks, tasks_string, parse_tasks, lemma_dec_tasks_wf, lemma_enc_dec_tasks};

verus! {

/// The task store: an ordered collection of tasks, addressed by position.
/// Every mutator leaves the collection well-formed; the surrounding program
/// is expected to persist the snapshot returned by `save_string` after each
/// successful mutation.
pub struct TodoApp {
    pub tasks: Vec<Task>,
}

impl View for TodoApp {
    type V = Seq<TaskView>;

    open spec fn view(&self) -> Seq<TaskView> {
        self.tasks@.map_values(|t: Task| t@)
    }
}

/// The tasks of `ts` that are not completed, in their original order.
pub open spec fn active_tasks(ts: Seq<TaskView>) -> Seq<TaskView> {
    ts.filter(|t: TaskView| !t.completed)
}

/// Whether a task matches a search string: the needle occurs in the title,
/// or the task has a category and the needle occurs in it.
pub open spec fn task_matches(t: TaskView, needle: Seq<char>) -> bool {
    ||| contains_seq(t.title, needle)
    ||| (t.category matches Some(c) && contains_seq(c, needle))
}

/// Whether a task passes an optional search filter; no filter admits every task.
pub open spec fn passes_filter(t: TaskView, filter: Option<Seq<char>>) -> bool {
    match filter {
        None => true,
        Some(needle) => task_matches(t, needle),
    }
}

/// The (position, task) pairs of the first `n` tasks of `ts` that pass `filter`,
/// in collection order.
pub open spec fn listing_upto(ts: Seq<TaskView>, filter: Option<Seq<char>>, n: int) -> Seq<(int, TaskView)>
    decreases n,
{
    if n <= 0 {
        Seq::empty()
    } else if passes_filter(ts[n - 1], filter) {
        listing_upto(ts, filter, n - 1) + seq![(n - 1, ts[n - 1])]
    } else {
        listing_upto(ts, filter, n - 1)
    }
}

/// The (position, task) pairs of the tasks of `ts` that pass `filter`.
pub open spec fn listing(ts: Seq<TaskView>, filter: Option<Seq<char>>) -> Seq<(int, TaskView)> {
    listing_upto(ts, filter, ts.len() as int)
}

/// The model of an optional search string.
pub open spec fn opt_filter_view(filter: Option<&str>) -> Option<Seq<char>> {
    match filter {
        Some(s) => Some(s@),
        None => None,
    }
}

impl TodoApp {
    /// Every task in the store is well-formed.
    pub open spec fn wf(&self) -> bool {
        forall|i: int| 0 <= i < self@.len() ==> task_wf(#[trigger] self@[i])
    }

    /// A store with no tasks.
    pub fn empty() -> (r: Self)
        ensures
            r@ == Seq::<TaskView>::empty(),
            r.wf(),
    {
        let r = TodoApp { tasks: Vec::new() };
        proof {
            assert(r@ =~= Seq::<TaskView>::empty());
        }
        r
    }

    /// Validates the input and, on success, appends a new, not yet completed
    /// task at the end of the collection. An empty title or an out-of-bounds
    /// priority is rejected with the violated rule, and the collection is
    /// left untouched.
    pub fn add_task(&mut self, title: String, priority: u8, category: Option<String>) -> (r: Result<(), TodoError>)
        requires
            old(self).wf(),
        ensures
            final(self).wf(),
            r is Ok <==> (title@.len() > 0 && PRIORITY_MIN <= priority <= PRIORITY_MAX),
            r == Err::<(), TodoError>(TodoError::EmptyTitle) <==> title@.len() == 0,
            r == Err::<(), TodoError>(TodoError::InvalidPriority)
                <==> (title@.len() > 0 && !(PRIORITY_MIN <= priority <= PRIORITY_MAX)),
            r is Ok ==> final(self)@ == old(self)@.push(
                TaskView {
                    title: title@,
                    priority: priority,
                    completed: false,
                    category: opt_text_view(category),
                },
            ),
            r is Err ==> final(self)@ == old(self)@,
    {
        if title.as_str().is_empty() {
            return Err(TodoError::EmptyTitle);
        }
        if priority < PRIORITY_MIN || priority > PRIORITY_MAX {
            return Err(TodoError::InvalidPriority);
        }
        let t = Task { title, priority, completed: false, category };
        let ghost prev = self.tasks@;
        self.tasks.push(t);
        proof {
            assert(self@ =~= prev.map_values(|x: Task| x@).push(
                TaskView {
                    title: title@,
                    priority: priority,
                    completed: false,
                    category: opt_text_view(category),
                },
            ));
            assert forall|i: int| 0 <= i < self@.len() implies task_wf(#[trigger] self@[i]) by {
                if i < prev.len() {
                    assert(self@[i] == old(self)@[i]);
                }
            }
        }
        Ok(())
    }

    /// Marks the task at `index` as completed and reports whether a task was
    /// there. An out-of-range index is a miss, not an error: nothing changes.
    pub fn complete_task(&mut self, index: usize) -> (r: bool)
        requires
            old(self).wf(),
        ensures
            final(self).wf(),
            r == (index < old(self)@.len()),
            r ==> final(self)@ == old(self)@.update(
                index as int,
                TaskView { completed: true, ..old(self)@[index as int] },
            ),
            !r ==> final(self)@ == old(self)@,
    {
        if index < self.tasks.len() {
            let ghost prev = self.tasks@;
            let mut t = self.tasks.remove(index);
            t.completed = true;
            self.tasks.insert(index, t);
            proof {
                assert(self.tasks@ =~= prev.update(index as int, self.tasks@[index as int]));
                assert(self@ =~= prev.map_values(|x: Task| x@).update(
                    index as int,
                    TaskView { completed: true, ..prev.map_values(|x: Task| x@)[index as int] },
                ));
            }
            true
        } else {
            false
        }
    }

    /// Detaches and returns the task at `index`, shifting every later task
    /// down one position. An out-of-range index is a miss, not an error:
    /// nothing changes and nothing is returned.
    pub fn remove_task(&mut self, index: usize) -> (r: Option<Task>)
        requires
            old(self).wf(),
        ensures
            final(self).wf(),
            match r {
                Some(t) => {
                    &&& index < old(self)@.len()
                    &&& t@ == old(self)@[index as int]
                    &&& final(self)@ == old(self)@.remove(index as int)
                },
                None => {
                    &&& index >= old(self)@.len()
                    &&& final(self)@ == old(self)@
                },
            },
    {
        if index < self.tasks.len() {
            let ghost prev = self.tasks@;
            let t = self.tasks.remove(index);
            proof {
                assert(self@ =~= prev.map_values(|x: Task| x@).remove(index as int));
            }
            Some(t)
        } else {
            None
        }
    }

    /// Removes every completed task, keeping the remaining tasks in their
    /// original relative order.
    pub fn clear_completed(&mut self)
        requires
            old(self).wf(),
        ensures
            final(self).wf(),
            final(self)@ == active_tasks(old(self)@),
    {
        let ghost orig = self@;
        let mut kept: Vec<Task> = Vec::new();
        let mut i: usize = 0;
        proof {
            assert(orig.take(0).filter(|t: TaskView| !t.completed) =~= Seq::<TaskView>::empty());
            assert(kept@.map_values(|x: Task| x@) =~= Seq::<TaskView>::empty());
        }
        while i < self.tasks.len()
            invariant
                old(self).wf(),
                self.tasks@ == old(self).tasks@,
                orig == old(self)@,
                i <= orig.len(),
                orig.len() == self.tasks@.len(),
                kept@.map_values(|x: Task| x@) == orig.take(i as int).filter(|t: TaskView| !t.completed),
                forall|j: int| 0 <= j < kept@.len() ==> task_wf((#[trigger] kept@[j])@),
            decreases orig.len() - i,
        {
            let ghost prev_kept = kept@;
            if !self.tasks[i].completed {
                let t = self.tasks[i].clone();
                kept.push(t);
            }
            proof {
                let p = |t: TaskView| !t.completed;
                assert(orig.take(i + 1) =~= orig.take(i as int) + seq![orig[i as int]]);
                Seq::<TaskView>::filter_distributes_over_add(orig.take(i as int), seq![orig[i as int]], p);
                reveal(Seq::filter);
                assert(seq![orig[i as int]].drop_last() =~= Seq::<TaskView>::empty());
                assert(Seq::<TaskView>::empty().filter(p) =~= Seq::<TaskView>::empty());
                assert(Seq::<TaskView>::empty().push(orig[i as int]) =~= seq![orig[i as int]]);
                assert(seq![orig[i as int]].filter(p) == if p(orig[i as int]) {
                    seq![orig[i as int]]
                } else {
                    Seq::<TaskView>::empty()
                });
                assert(orig[i as int] == self.tasks@[i as int]@);
                if !self.tasks@[i as int]@.completed {
                    assert(kept@.map_values(|x: Task| x@) =~= prev_kept.map_values(|x: Task| x@).push(orig[i as int]));
                    assert(kept@.map_values(|x: Task| x@) =~= orig.take(i + 1).filter(p));
                } else {
                    assert(kept@.map_values(|x: Task| x@) =~= orig.take(i + 1).filter(p));
                }
            }
            i += 1;
        }
        proof {
            assert(orig.take(orig.len() as int) =~= orig);
        }
        self.tasks = kept;
    }

    /// The (position, task) pairs of the tasks that pass the filter, in
    /// collection order; with no filter, every task is listed.
    pub fn list(&self, filter: Option<&str>) -> (r: Vec<(usize, Task)>)
        ensures
            r@.map_values(|p: (usize, Task)| (p.0 as int, p.1@)) == listing(self@, opt_filter_view(filter)),
    {
        let ghost fv = opt_filter_view(filter);
        let mut r: Vec<(usize, Task)> = Vec::new();
        let mut i: usize = 0;
        proof {
            assert(r@.map_values(|p: (usize, Task)| (p.0 as int, p.1@)) =~= listing_upto(self@, fv, 0));
        }
        while i < self.tasks.len()
            invariant
                i <= self.tasks@.len(),
                fv == opt_filter_view(filter),
                r@.map_values(|p: (usize, Task)| (p.0 as int, p.1@)) == listing_upto(self@, fv, i as int),
            decreases self.tasks@.len() - i,
        {
            let ghost prev = r@;
            let included = match filter {
                None => true,
                Some(needle) => {
                    let t = &self.tasks[i];
                    if str_contains(t.title.as_str(), needle) {
                        true
                    } else {
                        match &t.category {
                            Some(c) => str_contains(c.as_str(), needle),
                            None => false,
                        }
                    }
                },
            };
            proof {
                assert(included == passes_filter(self@[i as int], fv));
            }
            if included {
                let t = self.tasks[i].clone();
                r.push((i, t));
                proof {
                    assert(r@.map_values(|p: (usize, Task)| (p.0 as int, p.1@)) =~= prev.map_values(
                        |p: (usize, Task)| (p.0 as int, p.1@),
                    ) + seq![(i as int, self@[i as int])]);
                }
            }
            i += 1;
        }
        proof {
            assert(self.tasks@.len() as int == self@.len() as int);
        }
        r
    }
    /// The persisted snapshot of the current collection, written after
    /// every successful mutation.
    pub fn save_string(&self) -> (s: String)
        ensures
            s@ == enc_tasks(self@),
    {
        tasks_string(&self.tasks)
    }

    /// Builds a store from the persisted text read at startup. No text means
    /// the snapshot file does not exist yet: the store starts empty, which is
    /// not an error. Text that is not a valid snapshot fails the startup with
    /// an explicit error rather than silently discarding saved tasks.
    pub fn from_saved(contents: Option<&str>) -> (r: Result<TodoApp, LoadError>)
        ensures
            match contents {
                None => r matches Ok(a) && a@ == Seq::<TaskView>::empty() && a.wf(),
                Some(text) => match dec_tasks(text@) {
                    Some(ts) => r matches Ok(a) && a@ == ts && a.wf(),
                    None => r == Err::<TodoApp, LoadError>(LoadError::Malformed),
                },
            },
    {
        match contents {
            None => Ok(TodoApp::empty()),
            Some(text) => match parse_tasks(text) {
                Some(v) => {
                    proof {
                        lemma_dec_tasks_wf(text@);
                    }
                    Ok(TodoApp { tasks: v })
                },
                None => Err(LoadError::Malformed),
            },
        }
    }
}

/// The first `n` positions of an unfiltered listing show exactly the first
/// `n` tasks, each at its own position.
proof fn lemma_listing_upto_unfiltered(ts: Seq<TaskView>, n: int)
    ensures
        listing_upto(ts, None, n).len() == (if n <= 0 { 0int } else { n }),
        forall|i: int| 0 <= i < n ==> listing_upto(ts, None, n)[i] == (i, ts[i]),
    decreases n,
{
    if n > 0 {
        lemma_listing_upto_unfiltered(ts, n - 1);
    }
}

/// Listing without a filter shows every task, each at its own position and
/// in collection order: tasks come back exactly in the order they were added.
pub proof fn lemma_listing_unfiltered(ts: Seq<TaskView>)
    ensures
        listing(ts, None).len() == ts.len(),
        forall|i: int| 0 <= i < ts.len() ==> listing(ts, None)[i] == (i, ts[i]),
{
    lemma_listing_upto_unfiltered(ts, ts.len() as int);
}

/// Persistence round trip: the snapshot saved from any well-formed store
/// parses back to exactly the in-memory collection it was taken from.
pub proof fn lemma_persist_round_trip(app: TodoApp)
    requires
        app.wf(),
    ensures
        dec_tasks(enc_tasks(app@)) == Some(app@),
{
    lemma_enc_dec_tasks(app@);
}

/// Clearing completed tasks twice gives the same collection as clearing once:
/// every task that survives the first pass is not completed, so the second
/// pass keeps all of them.
pub proof fn lemma_clear_completed_idempotent(ts: Seq<TaskView>)
    ensures
        active_tasks(active_tasks(ts)) == active_tasks(ts),
{
    let p = |t: TaskView| !t.completed;
    broadcast use Seq::lemma_filter_pred;

    lemma_filter_all(ts.filter(p), p);
}

/// A sequence in which every element satisfies `p` is unchanged by filtering with `p`.
proof fn lemma_filter_all(s: Seq<TaskView>, p: spec_fn(TaskView) -> bool)
    requires
        forall|i: int| 0 <= i < s.len() ==> p(#[trigger] s[i]),
    ensures
        s.filter(p) == s,
    decreases s.len(),
{
    reveal(Seq::filter);
    if s.len() == 0 {
        assert(s.filter(p) =~= s);
    } else {
        lemma_filter_all(s.drop_last(), p);
        assert(p(s.last()));
        assert(s.filter(p) =~= s);
    }
}

} // verus!
