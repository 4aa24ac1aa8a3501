use vstd::prelude::*;

verus! {

/// What a periodic task saw when its wait for the next tick ended.
#[derive(Clone, Copy, Debug, PartialEq, Eq, Structural)]
pub enum Wake {
    Tick,
    Cancel,
    TickAndCancel,
}

/// What a periodic task does next.
#[derive(Clone, Copy, Debug, PartialEq, Eq, Structural)]
pub enum Step {
    RunCycle,
    Exit,
}

/// A wait that saw the cancellation, alone or together with a tick.
pub open spec fn cancels(w: Wake) -> bool {
    w != Wake::Tick
}

/// The decision after a wait: cancellation wins over a tick that came with it.
pub fn after_wait(w: Wake) -> (r: Step)
    ensures
        r == (if cancels(w) {
            Step::Exit
        } else {
            Step::RunCycle
        }),
{
    match w {
        Wake::Tick => Step::RunCycle,
        Wake::Cancel | Wake::TickAndCancel => Step::Exit,
    }
}

/// The cycles a task starts for successive waits, until a wait ends it.
pub open spec fn cycles_started(ws: Seq<Wake>) -> nat
    decreases ws.len(),
{
    if ws.len() == 0 || cancels(ws[0]) {
        0
    } else {
        1 + cycles_started(ws.drop_first())
    }
}

/// Once a task's wait has seen the cancellation, it starts no further cycle: of its
/// waits, only those before the first that saw the cancellation start one.
pub proof fn lemma_no_cycle_after_cancel(ws: Seq<Wake>, k: int)
    requires
        0 <= k < ws.len(),
        cancels(ws[k]),
    ensures
        cycles_started(ws) <= k,
    decreases ws.len(),
{
    if !cancels(ws[0]) {
        assert(ws.drop_first()[k - 1] == ws[k]);
        lemma_no_cycle_after_cancel(ws.drop_first(), k - 1);
    }
}

/// Turns interrupt signals into cancellations: one for each task, on the first signal
/// only.
pub struct Shutdown {
    signalled: bool,
    tasks: usize,
}

impl Shutdown {
    pub closed spec fn is_signalled(&self) -> bool {
        self.signalled
    }

    pub closed spec fn task_count(&self) -> nat {
        self.tasks as nat
    }

    pub fn new(tasks: usize) -> (r: Shutdown)
        ensures
            !r.is_signalled(),
            r.task_count() == tasks,
    {
        Shutdown { signalled: false, tasks }
    }

    /// The number of cancellations to send for this signal: one per task the first
    /// time, none after that.
    pub fn on_signal(&mut self) -> (r: usize)
        ensures
            final(self).is_signalled(),
            final(self).task_count() == old(self).task_count(),
            r == (if old(self).is_signalled() {
                0
            } else {
                old(self).task_count()
            }),
    {
        if self.signalled {
            0
        } else {
            self.signalled = true;
            self.tasks
        }
    }
}

/// The cancellations sent for `n` signals, starting from a state that was
/// `signalled` already or not.
pub open spec fn cancellations_sent(signalled: bool, tasks: nat, n: nat) -> nat
    decreases n,
{
    if n == 0 {
        0
    } else {
        (if signalled {
            0
        } else {
            tasks
        }) + cancellations_sent(true, tasks, (n - 1) as nat)
    }
}

/// However many times the signal comes (once at least), each task is sent exactly
/// one cancellation.
pub proof fn lemma_one_cancellation_per_task(tasks: nat, n: nat)
    requires
        n >= 1,
    ensures
        cancellations_sent(false, tasks, n) == tasks,
    decreases n,
{
    lemma_later_signals_send_nothing(tasks, (n - 1) as nat);
}

proof fn lemma_later_signals_send_nothing(tasks: nat, n: nat)
    ensures
        cancellations_sent(true, tasks, n) == 0,
    decreases n,
{
    if n > 0 {
        lemma_later_signals_send_nothing(tasks, (n - 1) as nat);
    }
}

/// Which of the tasks have exited; the process may end only once all have.
pub struct Supervisor {
    exited: Vec<bool>,
}

impl View for Supervisor {
    type V = Seq<bool>;

    closed spec fn view(&self) -> Seq<bool> {
        self.exited@
    }
}

impl Supervisor {
    pub fn new(tasks: usize) -> (r: Supervisor)
        ensures
            r@ == Seq::new(tasks as nat, |i: int| false),
    {
        let mut exited: Vec<bool> = Vec::new();
        let mut i: usize = 0;
        while i < tasks
            invariant
                i <= tasks,
                exited@ == Seq::new(i as nat, |j: int| false),
            decreases tasks - i,
        {
            exited.push(false);
            i += 1;
            assert(exited@ =~= Seq::new(i as nat, |j: int| false));
        }
        Supervisor { exited }
    }

    /// Records that task `i` has exited.
    pub fn task_exited(&mut self, i: usize)
        requires
            i < old(self)@.len(),
        ensures
            final(self)@ == old(self)@.update(i as int, true),
    {
        self.exited.set(i, true);
    }

    /// Whether every task has exited.
    pub fn may_terminate(&self) -> (r: bool)
        ensures
            r == (forall|i: int| 0 <= i < self@.len() ==> self@[i]),
    {
        let mut i: usize = 0;
        while i < self.exited.len()
            invariant
                i <= self.exited.len(),
                forall|j: int| 0 <= j < i ==> self.exited@[j],
            decreases self.exited.len() - i,
        {
            if !self.exited[i] {
                assert(!self@[i as int]);
                return false;
            }
            i += 1;
        }
        true
    }
}

} // verus!
