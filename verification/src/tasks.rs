//! The micro-task queue: tasks that async natives create and resume, and that the runtime
//! consumes in the order they were resumed.

use vstd::prelude::*;
use crate::value::{spec_copy_no_name, value_copy_no_name, blank_value, BoyiaValue, ValueType};
use crate::vm::{zero_value, BoyiaVM, MicroTask};

verus! {

/// The first position at or after `i` where `s` holds `h`, or -1.
pub open spec fn position_from(s: Seq<usize>, h: usize, i: int) -> int
    decreases s.len() - i,
{
    if i < 0 || i >= s.len() {
        -1
    } else if s[i] == h {
        i
    } else {
        position_from(s, h, i + 1)
    }
}

/// `position_from` finds `h` at or after `i`, or gives -1 exactly when `h` is not there.
pub proof fn lemma_position_from(s: Seq<usize>, h: usize, i: int)
    requires
        0 <= i,
    ensures
        position_from(s, h, i) == -1 || (i <= position_from(s, h, i) < s.len() && s[position_from(s, h, i)] == h),
        position_from(s, h, i) == -1 ==> forall|j: int| i <= j < s.len() ==> s[j] != h,
    decreases s.len() - i,
{
    if i < s.len() && s[i] != h {
        lemma_position_from(s, h, i + 1);
    }
}

/// Consuming frees exactly the resumed tasks: a task stays allocated after the resumed ones
/// are consumed exactly when it was allocated and not resumed.
pub proof fn lemma_consume_frees_resumed(alloc: Seq<usize>, used: Seq<usize>, h: usize)
    ensures
        alloc.filter(|x: usize| !used.contains(x)).contains(h) <==> (alloc.contains(h) && !used.contains(h)),
{
    let keep = |x: usize| !used.contains(x);
    alloc.filter_lemma(keep);
    if alloc.filter(keep).contains(h) {
        alloc.lemma_filter_contains_rev(keep, h);
        let j = choose|j: int| 0 <= j < alloc.filter(keep).len() && alloc.filter(keep)[j] == h;
        assert(keep(alloc.filter(keep)[j]));
    }
    if alloc.contains(h) && !used.contains(h) {
        let j = choose|j: int| 0 <= j < alloc.len() && alloc[j] == h;
        assert(keep(alloc[j]));
    }
}

/// A fresh task: object and result both `BY_ARG` values with nothing in them.
pub open spec fn spec_fresh_task() -> MicroTask {
    MicroTask { obj_ref: zero_value(), result: zero_value() }
}

/// The task that `create_micro_task` stores for `value`.
pub open spec fn spec_created_task(value: Option<BoyiaValue>) -> MicroTask {
    MicroTask {
        obj_ref: match value {
            Some(v) => spec_copy_no_name(zero_value(), v),
            None => zero_value(),
        },
        result: zero_value(),
    }
}

impl BoyiaVM {
    /// Whether task `h` is allocated and not waiting in the resumed queue.
    pub open spec fn task_idle(&self, h: usize) -> bool {
        self.alloc_tasks@.contains(h) && !self.used_tasks@.contains(h)
    }

    /// The first position of `h` in a list of tasks.
    fn find_task(list: &Vec<usize>, h: usize) -> (r: Option<usize>)
        ensures
            match r {
                Some(p) => p as int == position_from(list@, h, 0) && p < list@.len(),
                None => position_from(list@, h, 0) == -1,
            },
    {
        let mut i: usize = 0;
        while i < list.len()
            invariant
                i <= list@.len(),
                position_from(list@, h, 0) == position_from(list@, h, i as int),
            decreases list@.len() - i,
        {
            if list[i] == h {
                return Some(i);
            }
            i = i + 1;
        }
        None
    }

    /// Allocate a task (`alloc_micro_task`): a fresh task, appended to the allocated list.
    pub fn alloc_micro_task(&mut self) -> (h: usize)
        requires
            old(self).wf(),
        ensures
            final(self).wf(),
            h == old(self).tasks@.len(),
            final(self).tasks@ == old(self).tasks@.push(spec_fresh_task()),
            final(self).alloc_tasks@ == old(self).alloc_tasks@.push(h),
            *final(self) == (BoyiaVM { tasks: final(self).tasks, alloc_tasks: final(self).alloc_tasks, ..*old(self) }),
    {
        let h = self.tasks.len();
        let t = MicroTask { obj_ref: blank_value(ValueType::BY_ARG), result: blank_value(ValueType::BY_ARG) };
        self.tasks.push(t);
        self.alloc_tasks.push(h);
        proof {
            assert forall|i: int| 0 <= i < self.used_tasks@.len() implies self.alloc_tasks@.contains(#[trigger] self.used_tasks@[i]) by {
                let j = choose|j: int| 0 <= j < old(self).alloc_tasks@.len() && old(self).alloc_tasks@[j] == self.used_tasks@[i];
                assert(self.alloc_tasks@[j] == self.used_tasks@[i]);
            }
        }
        h
    }

    /// Create a task (`create_micro_task`) whose object takes `value`'s type and payload.
    pub fn create_micro_task(&mut self, value: Option<BoyiaValue>) -> (h: usize)
        requires
            old(self).wf(),
        ensures
            final(self).wf(),
            h == old(self).tasks@.len(),
            final(self).tasks@ == old(self).tasks@.push(spec_created_task(value)),
            final(self).alloc_tasks@ == old(self).alloc_tasks@.push(h),
            *final(self) == (BoyiaVM { tasks: final(self).tasks, alloc_tasks: final(self).alloc_tasks, ..*old(self) }),
    {
        let h = self.alloc_micro_task();
        if let Some(v) = value {
            let mut t = self.tasks[h];
            value_copy_no_name(&mut t.obj_ref, &v);
            self.tasks.set(h, t);
        }
        h
    }

    /// Resume task `task` with `value` (`resume_micro_task`): the task's result takes
    /// `value`'s type and payload, and the task joins the end of the resumed queue. Nothing
    /// changes for no task, or for a task that is not allocated or already queued.
    pub fn resume_micro_task(&mut self, task: Option<usize>, value: Option<BoyiaValue>)
        requires
            old(self).wf(),
        ensures
            final(self).wf(),
            match task {
                Some(h) => if old(self).task_idle(h) {
                    let t = old(self).tasks@[h as int];
                    &&& final(self).tasks@ == old(self).tasks@.update(h as int, MicroTask {
                        result: match value {
                            Some(v) => spec_copy_no_name(t.result, v),
                            None => t.result,
                        },
                        ..t
                    })
                    &&& final(self).used_tasks@ == old(self).used_tasks@.push(h)
                    &&& *final(self) == (BoyiaVM { tasks: final(self).tasks, used_tasks: final(self).used_tasks, ..*old(self) })
                } else {
                    *final(self) == *old(self)
                },
                None => *final(self) == *old(self),
            },
    {
        let h = match task {
            None => return,
            Some(h) => h,
        };
        proof {
            lemma_position_from(self.alloc_tasks@, h, 0);
            lemma_position_from(self.used_tasks@, h, 0);
        }
        if Self::find_task(&self.alloc_tasks, h).is_none() {
            return;
        }
        if Self::find_task(&self.used_tasks, h).is_some() {
            return;
        }
        let mut t = self.tasks[h];
        if let Some(v) = value {
            value_copy_no_name(&mut t.result, &v);
        }
        self.tasks.set(h, t);
        self.used_tasks.push(h);
        proof {
            assert(old(self).alloc_tasks@.contains(h));
            assert(!old(self).used_tasks@.contains(h)) by {
                if old(self).used_tasks@.contains(h) {
                    let j = choose|j: int| 0 <= j < old(self).used_tasks@.len() && old(self).used_tasks@[j] == h;
                }
            }
            assert forall|i: int, j: int| 0 <= i < j < self.used_tasks@.len() implies self.used_tasks@[i] != self.used_tasks@[j] by {
                if j == self.used_tasks@.len() - 1 {
                    assert(old(self).used_tasks@[i] != h);
                }
            }
        }
    }

    /// Free task `h` (`free_micro_task`): it leaves the allocated list, the others keeping
    /// their order. Nothing changes for a task that is not allocated or is still queued.
    pub fn free_micro_task(&mut self, h: usize)
        requires
            old(self).wf(),
        ensures
            final(self).wf(),
            old(self).task_idle(h) ==> {
                &&& final(self).alloc_tasks@ == old(self).alloc_tasks@.remove(position_from(old(self).alloc_tasks@, h, 0))
                &&& !final(self).alloc_tasks@.contains(h)
                &&& *final(self) == (BoyiaVM { alloc_tasks: final(self).alloc_tasks, ..*old(self) })
            },
            !old(self).task_idle(h) ==> *final(self) == *old(self),
    {
        proof {
            lemma_position_from(self.alloc_tasks@, h, 0);
            lemma_position_from(self.used_tasks@, h, 0);
        }
        let p = match Self::find_task(&self.alloc_tasks, h) {
            None => return,
            Some(p) => p,
        };
        if Self::find_task(&self.used_tasks, h).is_some() {
            return;
        }
        let ghost a0 = self.alloc_tasks@;
        self.alloc_tasks.remove(p);
        proof {
            assert(!old(self).used_tasks@.contains(h)) by {
                if old(self).used_tasks@.contains(h) {
                    let j = choose|j: int| 0 <= j < old(self).used_tasks@.len() && old(self).used_tasks@[j] == h;
                }
            }
            assert forall|i: int| 0 <= i < self.alloc_tasks@.len() implies #[trigger] self.alloc_tasks@[i] < self.tasks@.len() by {
                if i < p {
                    assert(self.alloc_tasks@[i] == a0[i]);
                } else {
                    assert(self.alloc_tasks@[i] == a0[i + 1]);
                }
            }
            assert forall|i: int, j: int| 0 <= i < j < self.alloc_tasks@.len() implies self.alloc_tasks@[i] != self.alloc_tasks@[j] by {
                let ii = if i < p { i } else { i + 1 };
                let jj = if j < p { j } else { j + 1 };
                assert(self.alloc_tasks@[i] == a0[ii]);
                assert(self.alloc_tasks@[j] == a0[jj]);
            }
            assert forall|i: int| 0 <= i < self.used_tasks@.len() implies self.alloc_tasks@.contains(#[trigger] self.used_tasks@[i]) by {
                let u = self.used_tasks@[i];
                let j = choose|j: int| 0 <= j < a0.len() && a0[j] == u;
                assert(u != h);
                assert(j != p);
                if j < p {
                    assert(self.alloc_tasks@[j] == u);
                } else {
                    assert(self.alloc_tasks@[j - 1] == u);
                }
            }
            assert(!self.alloc_tasks@.contains(h)) by {
                if self.alloc_tasks@.contains(h) {
                    let j = choose|j: int| 0 <= j < self.alloc_tasks@.len() && self.alloc_tasks@[j] == h;
                    let jj = if j < p { j } else { j + 1 };
                    assert(a0[jj] == h);
                }
            }
        }
    }

    /// Step through the allocated tasks (`iterate_micro_task`): `None` starts at the first.
    /// Returns the current task's object and result and the task after it, or three `None`s
    /// when there is no current task (an empty list, or a task that is not allocated).
    pub fn iterate_micro_task(&self, task: Option<usize>) -> (r: (Option<BoyiaValue>, Option<BoyiaValue>, Option<usize>))
        requires
            self.wf(),
        ensures
            ({
                let a = self.alloc_tasks@;
                let p: int = match task {
                    None => if a.len() > 0 { 0 } else { -1 },
                    Some(h) => position_from(a, h, 0),
                };
                if p < 0 {
                    r == (None::<BoyiaValue>, None::<BoyiaValue>, None::<usize>)
                } else {
                    let t = self.tasks@[a[p] as int];
                    &&& r.0 == Some(t.obj_ref)
                    &&& r.1 == Some(t.result)
                    &&& r.2 == (if p + 1 < a.len() { Some(a[p + 1]) } else { None })
                }
            }),
    {
        let p = match task {
            None => if self.alloc_tasks.len() > 0 {
                0
            } else {
                return (None, None, None);
            },
            Some(h) => {
                proof {
                    lemma_position_from(self.alloc_tasks@, h, 0);
                }
                match Self::find_task(&self.alloc_tasks, h) {
                    None => return (None, None, None),
                    Some(p) => p,
                }
            },
        };
        let t = self.tasks[self.alloc_tasks[p]];
        let next = if p < self.alloc_tasks.len() - 1 {
            Some(self.alloc_tasks[p + 1])
        } else {
            None
        };
        (Some(t.obj_ref), Some(t.result), next)
    }

    /// Consume the resumed tasks (`consume_micro_task`), oldest first: each leaves the queue
    /// and is freed. Returns them in that order. (A task that an executor suspended would be
    /// resumed here; the tasks this library makes carry no suspended execution.)
    pub fn consume_micro_task(&mut self) -> (r: Vec<usize>)
        requires
            old(self).wf(),
        ensures
            final(self).wf(),
            r@ == old(self).used_tasks@,
            final(self).used_tasks@ == Seq::<usize>::empty(),
            final(self).alloc_tasks@ == old(self).alloc_tasks@.filter(|h: usize| !old(self).used_tasks@.contains(h)),
            *final(self) == (BoyiaVM { alloc_tasks: final(self).alloc_tasks, used_tasks: final(self).used_tasks, ..*old(self) }),
    {
        let ghost used0 = self.used_tasks@;
        let ghost keep = |h: usize| !used0.contains(h);
        let mut out: Vec<usize> = Vec::new();
        let mut i: usize = 0;
        proof {
            assert(self.alloc_tasks@.take(0) =~= Seq::<usize>::empty());
            reveal(Seq::filter);
            assert(self.alloc_tasks@.take(0).filter(keep) =~= Seq::<usize>::empty());
        }
        while i < self.alloc_tasks.len()
            invariant
                *self == *old(self),
                used0 == self.used_tasks@,
                keep == (|h: usize| !used0.contains(h)),
                i <= self.alloc_tasks@.len(),
                out@ == self.alloc_tasks@.take(i as int).filter(keep),
                forall|k: int| 0 <= k < out@.len() ==> self.alloc_tasks@.take(i as int).contains(#[trigger] out@[k]),
                forall|k: int| 0 <= k < out@.len() ==> #[trigger] out@[k] < self.tasks@.len(),
                forall|k: int, l: int| 0 <= k < l < out@.len() ==> out@[k] != out@[l],
                self.wf(),
            decreases self.alloc_tasks@.len() - i,
        {
            let h = self.alloc_tasks[i];
            proof {
                lemma_position_from(self.used_tasks@, h, 0);
                assert(self.alloc_tasks@.take(i as int + 1) =~= self.alloc_tasks@.take(i as int).push(h));
                self.alloc_tasks@.take(i as int).lemma_filter_push(h, keep);
            }
            let queued = Self::find_task(&self.used_tasks, h).is_some();
            if !queued {
                proof {
                    assert(!used0.contains(h)) by {
                        if used0.contains(h) {
                            let j = choose|j: int| 0 <= j < used0.len() && used0[j] == h;
                        }
                    }
                    assert(!self.alloc_tasks@.take(i as int).contains(h)) by {
                        if self.alloc_tasks@.take(i as int).contains(h) {
                            let j = choose|j: int| 0 <= j < i && self.alloc_tasks@.take(i as int)[j] == h;
                            assert(self.alloc_tasks@[j] == self.alloc_tasks@[i as int]);
                        }
                    }
                }
                out.push(h);
                proof {
                    assert forall|k: int| 0 <= k < out@.len() implies self.alloc_tasks@.take(i as int + 1).contains(#[trigger] out@[k]) by {
                        if k < out@.len() - 1 {
                            let j = choose|j: int| 0 <= j < i && self.alloc_tasks@.take(i as int)[j] == out@[k];
                            assert(self.alloc_tasks@.take(i as int + 1)[j] == out@[k]);
                        } else {
                            assert(self.alloc_tasks@.take(i as int + 1)[i as int] == h);
                        }
                    }
                }
            } else {
                proof {
                    assert(used0.contains(h));
                    assert forall|k: int| 0 <= k < out@.len() implies self.alloc_tasks@.take(i as int + 1).contains(#[trigger] out@[k]) by {
                        let j = choose|j: int| 0 <= j < i && self.alloc_tasks@.take(i as int)[j] == out@[k];
                        assert(self.alloc_tasks@.take(i as int + 1)[j] == out@[k]);
                    }
                }
            }
            i = i + 1;
        }
        let consumed = self.used_tasks.clone();
        proof {
            assert(self.alloc_tasks@.take(i as int) =~= self.alloc_tasks@);
            assert(consumed@ == self.used_tasks@);
        }
        self.alloc_tasks = out;
        self.used_tasks = Vec::new();
        consumed
    }
}

} // verus!
