//! Cooperative cancellation shared between the UI, signal handlers, and the
//! runner thread. Aborting kills the currently running fio worker (fio jobs
//! run as threads via `--thread`, so killing the worker kills all I/O).
//!
//! The worker itself is the caller's to kill and to wait for; this keeps track
//! of whether there is one and says when it is to be killed. One lock around
//! an [`AbortHandle`] and the worker makes each of these calls one step.

use vstd::prelude::*;

verus! {

/// Whether the session was aborted, and whether a worker is registered.
#[derive(Debug)]
pub struct AbortHandle {
    pub aborted: bool,
    pub running: bool,
}

/// What a request for cancellation brings.
#[derive(Debug, Clone, Copy, PartialEq, Eq, Structural)]
pub struct Abort {
    /// False when an abort was already pending — callers use this to escalate
    /// (e.g. a second Ctrl-C force-exits).
    pub first: bool,
    /// Whether the registered worker is to be killed now.
    pub kill: bool,
}

impl AbortHandle {
    /// A session that nobody aborted, with no worker.
    pub fn new() -> (r: AbortHandle)
        ensures
            r == history(Seq::empty()).0,
            !r.aborted,
            !r.running,
    {
        AbortHandle { aborted: false, running: false }
    }

    pub fn is_aborted(&self) -> (r: bool)
        ensures
            r == self.aborted,
    {
        self.aborted
    }

    /// Requests cancellation. The in-flight fio worker, if any, is to be
    /// killed, at every request anew.
    pub fn abort(&mut self) -> (r: Abort)
        ensures
            (*final(self), r.kill) == called(*old(self), Call::Abort),
            r.first == !old(self).aborted,
    {
        let first = !self.aborted;
        self.aborted = true;
        Abort { first, kill: self.running }
    }

    /// Registers the running worker so that an abort can kill it. Returns true
    /// if an abort already happened: the worker is then to be killed
    /// immediately.
    pub fn adopt(&mut self) -> (kill: bool)
        ensures
            (*final(self), kill) == called(*old(self), Call::Adopt),
    {
        self.running = true;
        self.aborted
    }

    /// Takes the registered worker off the record, to be waited for. Returns
    /// false if there is none. Call only after its stdout reached EOF, so the
    /// wait cannot block for long.
    pub fn reap(&mut self) -> (r: bool)
        ensures
            *final(self) == called(*old(self), Call::Reap).0,
            r == old(self).running,
    {
        let r = self.running;
        self.running = false;
        r
    }
}

/// One call on the handle.
pub enum Call {
    Abort,
    Adopt,
    Reap,
}

/// The handle after a call, and whether that call has a worker killed.
pub open spec fn called(h: AbortHandle, call: Call) -> (AbortHandle, bool) {
    match call {
        Call::Abort => (AbortHandle { aborted: true, ..h }, h.running),
        Call::Adopt => (AbortHandle { running: true, ..h }, h.aborted),
        Call::Reap => (AbortHandle { running: false, ..h }, false),
    }
}

/// The handle after `calls`, and whether the worker that is registered then
/// was told to be killed since it was registered.
pub open spec fn history(calls: Seq<Call>) -> (AbortHandle, bool)
    decreases calls.len(),
{
    if calls.len() == 0 {
        (AbortHandle { aborted: false, running: false }, false)
    } else {
        let (h, told) = history(calls.drop_last());
        let (next, kill) = called(h, calls.last());
        match calls.last() {
            Call::Abort => (next, told || kill),
            Call::Adopt => (next, kill),
            Call::Reap => (next, false),
        }
    }
}

/// No worker outlives an abort: in whatever order calls come, a worker that is
/// registered when the session is aborted was told to be killed, and none was
/// while it is not.
pub proof fn law_no_worker_outlives_an_abort(calls: Seq<Call>)
    ensures
        history(calls).0.running ==> history(calls).1 == history(calls).0.aborted,
    decreases calls.len(),
{
    if calls.len() > 0 {
        law_no_worker_outlives_an_abort(calls.drop_last());
    }
}

/// A session is aborted exactly when somebody asked for that, and stays so.
pub proof fn law_only_aborting_aborts(calls: Seq<Call>)
    ensures
        history(calls).0.aborted <==> exists|i: int|
            0 <= i < calls.len() && #[trigger] calls[i] is Abort,
    decreases calls.len(),
{
    if calls.len() > 0 {
        let before = calls.drop_last();
        law_only_aborting_aborts(before);
        assert(calls[calls.len() - 1] == calls.last());
        if exists|i: int| 0 <= i < before.len() && #[trigger] before[i] is Abort {
            let i = choose|i: int| 0 <= i < before.len() && #[trigger] before[i] is Abort;
            assert(calls[i] is Abort);
        }
        if exists|i: int| 0 <= i < calls.len() && #[trigger] calls[i] is Abort {
            let i = choose|i: int| 0 <= i < calls.len() && #[trigger] calls[i] is Abort;
            if i < before.len() {
                assert(before[i] is Abort);
            }
        }
    }
}

/// A worker is on the record from when it is registered until it is taken off:
/// an abort leaves it there, so that it can be waited for.
pub proof fn law_a_worker_stays_until_it_is_reaped(calls: Seq<Call>, more: Seq<Call>)
    requires
        forall|i: int| 0 <= i < more.len() ==> #[trigger] more[i] is Abort,
    ensures
        history(calls.push(Call::Adopt) + more).0.running,
        !history(calls.push(Call::Reap) + more).0.running,
    decreases more.len(),
{
    let (adopted, reaped) = (calls.push(Call::Adopt), calls.push(Call::Reap));
    if more.len() == 0 {
        assert(adopted + more =~= adopted);
        assert(reaped + more =~= reaped);
    } else {
        let rest = more.drop_last();
        assert forall|i: int| 0 <= i < rest.len() implies #[trigger] rest[i] is Abort by {
            assert(rest[i] == more[i]);
        }
        law_a_worker_stays_until_it_is_reaped(calls, rest);
        assert(more[more.len() - 1] is Abort);
        assert((adopted + more).drop_last() =~= adopted + rest);
        assert((reaped + more).drop_last() =~= reaped + rest);
        assert((adopted + more).last() == more.last());
        assert((reaped + more).last() == more.last());
    }
}

/// An abort has the worker killed that is registered then, and the worker that
/// is registered later is killed at once; nothing else kills one.
pub proof fn law_an_abort_reaches_the_worker(h: AbortHandle)
    ensures
        called(h, Call::Abort).1 == h.running,
        called(h, Call::Adopt).1 == h.aborted,
        called(h, Call::Abort).0.aborted,
        called(called(h, Call::Abort).0, Call::Adopt).1,
        !called(h, Call::Reap).1,
        called(h, Call::Adopt).0.aborted == h.aborted,
        called(h, Call::Reap).0.aborted == h.aborted,
{
}

/// An abort is never taken back.
pub proof fn law_an_abort_is_final(calls: Seq<Call>, more: Seq<Call>)
    requires
        history(calls).0.aborted,
    ensures
        history(calls + more).0.aborted,
    decreases more.len(),
{
    if more.len() == 0 {
        assert(calls + more =~= calls);
    } else {
        law_an_abort_is_final(calls, more.drop_last());
        assert((calls + more).drop_last() =~= calls + more.drop_last());
        assert((calls + more).last() == more.last());
    }
}

} // verus!
