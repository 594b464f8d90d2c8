//! Dispatch decisions of the worker pool: which idle worker gets which task,
//! which results are accepted, and the hand-off order of the ordered protocol.
//! The threads and channels that carry tasks and results live with the caller.
use vstd::prelude::*;

verus! {

/// Fatal faults of a batch: it must be abandoned and submitted again.
#[derive(Clone, Copy, PartialEq, Eq, Debug, Structural)]
pub enum SchedulerFault {
    /// A result came from a worker that has no task, or that does not exist.
    IdleWorker,
    /// A result names another task than the one its worker was given.
    TaskMismatch,
    /// In sequential mode, a result arrived before all earlier frames.
    OutOfOrder,
    /// A channel to or from a worker was closed.
    ChannelClosed,
}

/// Largest worker pool.
pub const MAX_THREADS: usize = 64;

/// The pool size: the requested count, else the logical CPU count, clamped
/// to `1..=64`.
pub fn clamp_threads(requested: Option<usize>, cpus: usize) -> (r: usize)
    ensures
        1 <= r <= MAX_THREADS,
        ({
            let n = match requested {
                Some(n) => n,
                None => cpus,
            };
            r == if n < 1 {
                1
            } else if n > MAX_THREADS {
                MAX_THREADS
            } else {
                n
            }
        }),
{
    let n = match requested {
        Some(n) => n,
        None => cpus,
    };
    if n < 1 {
        1
    } else if n > MAX_THREADS {
        MAX_THREADS
    } else {
        n
    }
}

/// Relies on num_cpus::get: the number of logical CPUs of this machine.
#[verifier::external_body]
fn logical_cpus() -> (r: usize) {
    num_cpus::get()
}

/// The pool size for a batch: `requested` if given, else the machine's
/// logical CPU count, clamped to `1..=64`.
pub fn thread_count(requested: Option<usize>) -> (r: usize)
    ensures
        1 <= r <= MAX_THREADS,
        requested matches Some(n) ==> r == if n < 1 {
            1
        } else if n > MAX_THREADS {
            MAX_THREADS
        } else {
            n
        },
{
    match requested {
        Some(_) => clamp_threads(requested, 0),
        None => clamp_threads(None, logical_cpus()),
    }
}

/// Whether a worker holding frame `frame` may hand its result over now: in
/// sequential mode only when every earlier frame has been handed over.
pub fn may_hand_off(sequential: bool, current: usize, frame: usize) -> (r: bool)
    ensures
        r == (!sequential || current == frame),
{
    !sequential || current == frame
}

/// Number of busy slots.
pub open spec fn busy_count(slots: Seq<Option<usize>>) -> nat
    decreases slots.len(),
{
    if slots.len() == 0 {
        0
    } else {
        busy_count(slots.drop_last()) + if slots.last() is Some {
            1nat
        } else {
            0nat
        }
    }
}

proof fn lemma_busy_update(slots: Seq<Option<usize>>, i: int, v: Option<usize>)
    requires
        0 <= i < slots.len(),
    ensures
        busy_count(slots.update(i, v)) + (if slots[i] is Some { 1int } else { 0int }) == busy_count(
            slots,
        ) + (if v is Some { 1int } else { 0int }),
    decreases slots.len(),
{
    let s2 = slots.update(i, v);
    if i == slots.len() - 1 {
        assert(s2.drop_last() =~= slots.drop_last());
    } else {
        assert(s2.drop_last() =~= slots.drop_last().update(i, v));
        lemma_busy_update(slots.drop_last(), i, v);
    }
}

proof fn lemma_busy_zero(slots: Seq<Option<usize>>)
    requires
        busy_count(slots) == 0,
    ensures
        forall|i: int| 0 <= i < slots.len() ==> (#[trigger] slots[i]) is None,
    decreases slots.len(),
{
    if slots.len() > 0 {
        lemma_busy_zero(slots.drop_last());
        assert forall|i: int| 0 <= i < slots.len() implies (#[trigger] slots[i]) is None by {
            if i < slots.len() - 1 {
                assert(slots.drop_last()[i] == slots[i]);
            }
        }
    }
}

/// The state of a batch of frames `1..=total`, dispatched to a fixed pool.
pub struct DispatchView {
    pub total: nat,
    /// Frames `next..=total` have not been handed to a worker yet.
    pub next: nat,
    /// The frame each worker is busy with.
    pub slots: Seq<Option<usize>>,
    pub sequential: bool,
    /// In sequential mode, the frame whose result is accepted next.
    pub current: nat,
    /// Frames whose results were accepted, in the order they were accepted.
    pub handed: Seq<usize>,
}

/// Dispatcher of a batch over a fixed pool of workers, each with a
/// single-slot input. It is driven by its owner: `assign` while it yields
/// work, then `complete` for each result received.
pub struct Dispatcher {
    total: usize,
    next: usize,
    slots: Vec<Option<usize>>,
    sequential: bool,
    current: usize,
    completed: usize,
    handed: Ghost<Seq<usize>>,
}

impl View for Dispatcher {
    type V = DispatchView;

    closed spec fn view(&self) -> DispatchView {
        DispatchView {
            total: self.total as nat,
            next: self.next as nat,
            slots: self.slots@,
            sequential: self.sequential,
            current: self.current as nat,
            handed: self.handed@,
        }
    }
}

impl DispatchView {
    /// Frame `t` has been accepted, or some worker is busy with it.
    pub open spec fn accounted(self, t: int) -> bool {
        self.handed.contains(t as usize) || exists|i: int|
            0 <= i < self.slots.len() && #[trigger] self.slots[i] == Some(t as usize)
    }

    /// Every frame is dispatched and every worker idle.
    pub open spec fn finished(self) -> bool {
        self.next == self.total + 1 && forall|i: int| 0 <= i < self.slots.len() ==> (#[trigger] self.slots[i]) is None
    }
}

impl Dispatcher {
    /// Each frame below `next` is either with exactly one worker or accepted
    /// exactly once; in sequential mode the accepted frames are `1..current`.
    pub closed spec fn wf(&self) -> bool {
        let v = self@;
        &&& 1 <= v.next <= v.total + 1
        &&& v.total < usize::MAX
        &&& v.slots.len() >= 1
        &&& self.completed == v.handed.len()
        &&& v.handed.len() + busy_count(v.slots) == v.next - 1
        &&& forall|i: int|
            0 <= i < v.slots.len() && (#[trigger] v.slots[i]) is Some ==> 1 <= v.slots[i]->Some_0
                < v.next
        &&& forall|i: int, j: int|
            0 <= i < v.slots.len() && 0 <= j < v.slots.len() && i != j && (#[trigger] v.slots[i])
                is Some ==> #[trigger] v.slots[j] != v.slots[i]
        &&& forall|k: int| 0 <= k < v.handed.len() ==> 1 <= #[trigger] v.handed[k] < v.next
        &&& v.handed.no_duplicates()
        &&& forall|k: int, i: int|
            0 <= k < v.handed.len() && 0 <= i < v.slots.len() ==> #[trigger] v.slots[i] != Some(
                #[trigger] v.handed[k],
            )
        &&& forall|t: int| 1 <= t < v.next ==> #[trigger] v.accounted(t)
        &&& v.sequential ==> v.current == v.handed.len() + 1 && forall|k: int|
            0 <= k < v.handed.len() ==> #[trigger] v.handed[k] == k + 1
    }

    /// A batch of frames `1..=total` over `workers` idle workers.
    pub fn new(workers: usize, total: usize, sequential: bool) -> (r: Dispatcher)
        requires
            1 <= workers,
            total < usize::MAX,
        ensures
            r.wf(),
            r@ == (DispatchView {
                total: total as nat,
                next: 1,
                slots: Seq::new(workers as nat, |i: int| None),
                sequential,
                current: 1,
                handed: Seq::empty(),
            }),
    {
        let mut slots: Vec<Option<usize>> = Vec::new();
        let mut i: usize = 0;
        while i < workers
            invariant
                i <= workers,
                slots@ =~= Seq::new(i as nat, |j: int| None::<usize>),
            decreases workers - i,
        {
            slots.push(None);
            i = i + 1;
        }
        let r = Dispatcher {
            total,
            next: 1,
            slots,
            sequential,
            current: 1,
            completed: 0,
            handed: Ghost(Seq::empty()),
        };
        proof {
            assert(busy_count(r.slots@) == 0) by {
                lemma_busy_all_idle(r.slots@);
            }
        }
        r
    }

    /// In sequential mode, the frame whose result is accepted next.
    pub fn current_index(&self) -> (r: usize)
        ensures
            r == self@.current,
    {
        self.current
    }

    /// `(accepted results, frames in the batch)`.
    pub fn progress(&self) -> (r: (usize, usize))
        requires
            self.wf(),
        ensures
            r.0 == self@.handed.len(),
            r.1 == self@.total,
    {
        (self.completed, self.total)
    }

    /// Every frame is dispatched and every worker idle.
    pub fn is_finished(&self) -> (r: bool)
        requires
            self.wf(),
        ensures
            r == self@.finished(),
    {
        if self.next <= self.total {
            return false;
        }
        let mut i: usize = 0;
        while i < self.slots.len()
            invariant
                i <= self.slots@.len(),
                forall|j: int| 0 <= j < i ==> (#[trigger] self.slots@[j]) is None,
            decreases self.slots@.len() - i,
        {
            if self.slots[i].is_some() {
                return false;
            }
            i = i + 1;
        }
        true
    }

    /// Hands the next frame to the first idle worker, if a frame remains and
    /// a worker is idle; returns `(worker, frame)`.
    pub fn assign(&mut self) -> (r: Option<(usize, usize)>)
        requires
            old(self).wf(),
        ensures
            final(self).wf(),
            r is None ==> final(self)@ == old(self)@,
            r is None <==> (old(self)@.next > old(self)@.total || forall|i: int|
                0 <= i < old(self)@.slots.len() ==> (#[trigger] old(self)@.slots[i]) is Some),
            r matches Some((w, f)) ==> {
                &&& f == old(self)@.next
                &&& w < old(self)@.slots.len()
                &&& old(self)@.slots[w as int] is None
                &&& forall|i: int| 0 <= i < w ==> (#[trigger] old(self)@.slots[i]) is Some
                &&& final(self)@ == (DispatchView {
                    next: old(self)@.next + 1,
                    slots: old(self)@.slots.update(w as int, Some(f)),
                    ..old(self)@
                })
            },
    {
        if self.next > self.total {
            return None;
        }
        let i = match self.first_idle() {
            None => {
                return None;
            },
            Some(i) => i,
        };
        let f = self.next;
        let ghost before = self@;
        self.slots.set(i, Some(f));
        self.next = self.next + 1;
        proof {
            lemma_busy_update(before.slots, i as int, Some(f));
            let v = self@;
            assert forall|t: int| 1 <= t < v.next implies #[trigger] v.accounted(t) by {
                if t == f {
                    assert(v.slots[i as int] == Some(t as usize));
                } else {
                    assert(before.accounted(t));
                    if !v.handed.contains(t as usize) {
                        let j = choose|j: int|
                            0 <= j < before.slots.len() && #[trigger] before.slots[j] == Some(
                                t as usize,
                            );
                        assert(v.slots[j] == Some(t as usize));
                    }
                }
            }
        }
        Some((i, f))
    }

    fn first_idle(&self) -> (r: Option<usize>)
        ensures
            r is None <==> forall|i: int| 0 <= i < self@.slots.len() ==> (#[trigger] self@.slots[i]) is Some,
            r matches Some(w) ==> w < self@.slots.len() && self@.slots[w as int] is None && forall|
                i: int,
            | 0 <= i < w ==> (#[trigger] self@.slots[i]) is Some,
    {
        let mut i: usize = 0;
        while i < self.slots.len()
            invariant
                i <= self.slots@.len(),
                forall|j: int| 0 <= j < i ==> (#[trigger] self.slots@[j]) is Some,
            decreases self.slots@.len() - i,
        {
            if self.slots[i].is_none() {
                return Some(i);
            }
            i = i + 1;
        }
        None
    }

    /// Accepts the result of `frame` from `worker`: the worker becomes idle
    /// and the frame is recorded as handed over. Fails, changing nothing, when
    /// the worker is not busy, is busy with another frame, or, in sequential
    /// mode, when `frame` is not the next frame in order.
    pub fn complete(&mut self, worker: usize, frame: usize) -> (r: Result<(), SchedulerFault>)
        requires
            old(self).wf(),
        ensures
            final(self).wf(),
            r is Err ==> final(self)@ == old(self)@,
            r == Err::<(), SchedulerFault>(SchedulerFault::IdleWorker) <==> (worker
                >= old(self)@.slots.len() || old(self)@.slots[worker as int] is None),
            r == Err::<(), SchedulerFault>(SchedulerFault::TaskMismatch) <==> (worker
                < old(self)@.slots.len() && old(self)@.slots[worker as int] is Some && old(
                self,
            )@.slots[worker as int] != Some(frame)),
            r == Err::<(), SchedulerFault>(SchedulerFault::OutOfOrder) <==> (worker
                < old(self)@.slots.len() && old(self)@.slots[worker as int] == Some(frame) && old(
                self,
            )@.sequential && frame != old(self)@.current),
            r is Ok <==> (worker < old(self)@.slots.len() && old(self)@.slots[worker as int] == Some(
                frame,
            ) && (!old(self)@.sequential || frame == old(self)@.current)),
            r is Ok ==> final(self)@ == (DispatchView {
                slots: old(self)@.slots.update(worker as int, None),
                current: if old(self)@.sequential {
                    old(self)@.current + 1
                } else {
                    old(self)@.current
                },
                handed: old(self)@.handed.push(frame),
                ..old(self)@
            }),
    {
        if worker >= self.slots.len() {
            return Err(SchedulerFault::IdleWorker);
        }
        match self.slots[worker] {
            None => {
                return Err(SchedulerFault::IdleWorker);
            },
            Some(t) => {
                if t != frame {
                    return Err(SchedulerFault::TaskMismatch);
                }
            },
        }
        if self.sequential && frame != self.current {
            return Err(SchedulerFault::OutOfOrder);
        }
        let ghost before = self@;
        self.slots.set(worker, None);
        if self.sequential {
            self.current = self.current + 1;
        }
        self.completed = self.completed + 1;
        self.handed = Ghost(self.handed@.push(frame));
        proof {
            lemma_busy_update(before.slots, worker as int, None);
            let v = self@;
            assert forall|k: int, i: int|
                0 <= k < v.handed.len() && 0 <= i < v.slots.len() implies #[trigger] v.slots[i]
                != Some(#[trigger] v.handed[k]) by {
                if k == v.handed.len() - 1 && i != worker {
                    assert(before.slots[worker as int] == Some(frame));
                }
                if k < v.handed.len() - 1 {
                    assert(v.handed[k] == before.handed[k]);
                }
            }
            assert forall|t: int| 1 <= t < v.next implies #[trigger] v.accounted(t) by {
                assert(before.accounted(t));
                if t == frame {
                    assert(v.handed[v.handed.len() - 1] == frame);
                } else if before.handed.contains(t as usize) {
                    let k = choose|k: int| 0 <= k < before.handed.len() && before.handed[k] == t as usize;
                    assert(v.handed[k] == t as usize);
                } else {
                    let j = choose|j: int|
                        0 <= j < before.slots.len() && #[trigger] before.slots[j] == Some(t as usize);
                    assert(j != worker);
                    assert(v.slots[j] == Some(t as usize));
                }
            }
            assert(v.handed.no_duplicates()) by {
                assert forall|a: int, b: int|
                    0 <= a < v.handed.len() && 0 <= b < v.handed.len() && a != b implies v.handed[a]
                    != v.handed[b] by {
                    if a == v.handed.len() - 1 {
                        assert(before.slots[worker as int] != Some(before.handed[b]));
                    } else if b == v.handed.len() - 1 {
                        assert(before.slots[worker as int] != Some(before.handed[a]));
                    }
                }
            }
        }
        Ok(())
    }
}

/// A batch that has not finished can always make a step: either a frame
/// remains and a worker is idle, so `assign` hands it out, or some busy
/// worker holds a frame whose result `complete` accepts (in sequential mode,
/// the frame `current`). Each step raises `next` or the number of accepted
/// results, both bounded by the batch size, so driving the batch this way
/// finishes it within `2 * total` steps.
pub proof fn lemma_can_progress(d: &Dispatcher)
    requires
        d.wf(),
        !d@.finished(),
    ensures
        (d@.next <= d@.total && exists|i: int| 0 <= i < d@.slots.len() && (#[trigger] d@.slots[i]) is None)
            || exists|i: int|
            0 <= i < d@.slots.len() && (#[trigger] d@.slots[i]) is Some && (!d@.sequential
                || d@.slots[i] == Some(d@.current as usize)),
        d@.next - 1 + d@.handed.len() < 2 * d@.total,
{
    let v = d@;
    if v.next <= v.total {
        if forall|i: int| 0 <= i < v.slots.len() ==> (#[trigger] v.slots[i]) is Some {
            assert(v.slots[0] is Some);
            if v.sequential {
                // all busy: frame `current` is dispatched, not yet accepted
                assert(v.current < v.next) by {
                    if v.current >= v.next {
                        assert(v.handed.len() == v.next - 1);
                        lemma_busy_slot_counts(v.slots, 0);
                    }
                }
                lemma_current_held(d);
            }
        }
    } else {
        assert(exists|i: int| 0 <= i < v.slots.len() && (#[trigger] v.slots[i]) is Some);
        let i = choose|i: int| 0 <= i < v.slots.len() && (#[trigger] v.slots[i]) is Some;
        lemma_busy_slot_counts(v.slots, i);
        if v.sequential {
            assert(v.current < v.next) by {
                if v.current >= v.next {
                    assert(v.handed.len() == v.next - 1);
                    lemma_busy_slot_counts(v.slots, i);
                }
            }
            lemma_current_held(d);
        }
    }
}

/// In sequential mode, a frame that is dispatched but not accepted yet, the
/// frame `current`, is held by some worker.
proof fn lemma_current_held(d: &Dispatcher)
    requires
        d.wf(),
        d@.sequential,
        d@.current < d@.next,
    ensures
        exists|i: int| 0 <= i < d@.slots.len() && #[trigger] d@.slots[i] == Some(d@.current as usize),
{
    let v = d@;
    let c = v.current as int;
    assert(v.accounted(c));
    if v.handed.contains(c as usize) {
        let k = choose|k: int| 0 <= k < v.handed.len() && v.handed[k] == c as usize;
        assert(v.handed[k] == k + 1);
    }
}

/// A busy slot makes the busy count positive.
proof fn lemma_busy_slot_counts(slots: Seq<Option<usize>>, i: int)
    requires
        0 <= i < slots.len(),
        slots[i] is Some,
    ensures
        busy_count(slots) > 0,
    decreases slots.len(),
{
    if i < slots.len() - 1 {
        assert(slots.drop_last()[i] == slots[i]);
        lemma_busy_slot_counts(slots.drop_last(), i);
    }
}

/// Once any batch of `total` frames has finished, every frame `1..=total`
/// was accepted (and so handed to the encoder) exactly once, in some order,
/// whatever the number of workers.
pub proof fn lemma_each_frame_once(d: &Dispatcher)
    requires
        d.wf(),
        d@.finished(),
    ensures
        d@.handed.len() == d@.total,
        d@.handed.no_duplicates(),
        forall|k: int| 0 <= k < d@.handed.len() ==> 1 <= #[trigger] d@.handed[k] <= d@.total,
        forall|t: usize| 1 <= t <= d@.total ==> #[trigger] d@.handed.contains(t),
{
    let v = d@;
    lemma_busy_all_idle(v.slots);
    assert forall|t: usize| 1 <= t <= v.total implies #[trigger] v.handed.contains(t) by {
        assert(v.accounted(t as int));
        if !v.handed.contains(t) {
            let j = choose|j: int| 0 <= j < v.slots.len() && #[trigger] v.slots[j] == Some(t as usize);
            assert(v.slots[j] is None);
        }
    }
}

/// Once a sequential batch of `total` frames has finished, its results were
/// accepted exactly once each and in the order `1, 2, ..., total`, whatever
/// the number of workers.
pub proof fn lemma_sequential_order(d: &Dispatcher)
    requires
        d.wf(),
        d@.sequential,
        d@.finished(),
    ensures
        d@.handed == Seq::new(d@.total, |k: int| (k + 1) as usize),
{
    lemma_busy_all_idle(d@.slots);
    assert(d@.handed =~= Seq::new(d@.total, |k: int| (k + 1) as usize));
}

/// Two finished batches of the same frames, run with any numbers of workers
/// and in any completion order, accepted the same frames the same number of
/// times; with results stored by frame, their outputs agree.
pub proof fn lemma_runs_agree(a: &Dispatcher, b: &Dispatcher)
    requires
        a.wf(),
        b.wf(),
        a@.finished(),
        b@.finished(),
        a@.total == b@.total,
    ensures
        a@.handed.len() == b@.handed.len(),
        a@.handed.to_set() == b@.handed.to_set(),
{
    lemma_each_frame_once(a);
    lemma_each_frame_once(b);
    assert forall|t: usize| a@.handed.to_set().contains(t) <==> b@.handed.to_set().contains(t) by {
        if a@.handed.contains(t) {
            let k = choose|k: int| 0 <= k < a@.handed.len() && a@.handed[k] == t;
            assert(1 <= a@.handed[k] <= a@.total);
        }
        if b@.handed.contains(t) {
            let k = choose|k: int| 0 <= k < b@.handed.len() && b@.handed[k] == t;
            assert(1 <= b@.handed[k] <= b@.total);
        }
    }
    assert(a@.handed.to_set() =~= b@.handed.to_set());
}

proof fn lemma_busy_all_idle(slots: Seq<Option<usize>>)
    requires
        forall|i: int| 0 <= i < slots.len() ==> (#[trigger] slots[i]) is None,
    ensures
        busy_count(slots) == 0,
    decreases slots.len(),
{
    if slots.len() > 0 {
        let d = slots.drop_last();
        assert forall|i: int| 0 <= i < d.len() implies (#[trigger] d[i]) is None by {
            assert(d[i] == slots[i]);
        }
        lemma_busy_all_idle(d);
    }
}

} // verus!
