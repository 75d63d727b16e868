//! A worker for small matrix-vector products on the processor, next to the
//! device.
//!
//! The host owns the thread, the channel and the shared event. What the
//! executor hands out and what the worker does next is decided here.
use vstd::prelude::*;

verus! {

/// A product `out[n] = w[n, k] @ h[k]`, with `w` in row-major order. The
/// buffers are named by the host's numbers for them.
#[derive(Debug, Clone, Copy, PartialEq, Eq, Structural)]
pub struct AmxJob {
    pub h: usize,
    pub w: usize,
    pub out: usize,
    /// Length of `h`.
    pub k: usize,
    /// Length of `out`.
    pub n: usize,
}

/// The sizes that a job is called with: rows, columns, and the distance from
/// one row to the next.
#[derive(Debug, Clone, Copy, PartialEq, Eq, Structural)]
pub struct SgemvCall {
    pub rows: i32,
    pub cols: i32,
    pub stride: i32,
}

impl AmxJob {
    /// The sizes of the call that carries the job out.
    pub fn sgemv_call(&self) -> (r: SgemvCall)
        requires
            self.n <= i32::MAX,
            self.k <= i32::MAX,
        ensures
            r.rows == self.n,
            r.cols == self.k,
            r.stride == self.k,
    {
        SgemvCall { rows: self.n as i32, cols: self.k as i32, stride: self.k as i32 }
    }
}

/// A job between two values of the shared event. Zero means none.
#[derive(Debug, Clone, Copy, PartialEq, Eq, Structural)]
pub struct SyncedJob {
    pub job: AmxJob,
    /// The worker waits until the event has reached this value.
    pub wait_value: u64,
    /// The worker sets the event to this value afterwards.
    pub signal_value: u64,
}

/// What goes to the worker.
#[derive(Debug, Clone, Copy, PartialEq, Eq, Structural)]
pub enum Message {
    Job(SyncedJob),
    Shutdown,
}

/// The submitting side.
#[derive(Debug)]
pub struct AsyncAmxExecutor {
    /// Whether there is a shared event.
    pub synced: bool,
    /// Jobs handed out, modulo 2^64.
    pub submitted: u64,
    /// Jobs reported as done, modulo 2^64.
    pub completed: u64,
    /// The next value of the shared event.
    pub next_value: u64,
}

/// `n + d` modulo 2^64.
pub open spec fn wrapped(n: u64, d: int) -> u64 {
    ((n + d) % 0x1_0000_0000_0000_0000) as u64
}

impl Default for AsyncAmxExecutor {
    /// Without a shared event.
    fn default() -> (r: Self)
        ensures
            r == (AsyncAmxExecutor { synced: false, submitted: 0, completed: 0, next_value: 1 }),
    {
        AsyncAmxExecutor::new()
    }
}

impl AsyncAmxExecutor {
    /// Without a shared event.
    pub fn new() -> (r: Self)
        ensures
            r == (AsyncAmxExecutor { synced: false, submitted: 0, completed: 0, next_value: 1 }),
    {
        Self::new_inner(false)
    }

    /// With a shared event.
    pub fn with_event() -> (r: Self)
        ensures
            r == (AsyncAmxExecutor { synced: true, submitted: 0, completed: 0, next_value: 1 }),
    {
        Self::new_inner(true)
    }

    fn new_inner(synced: bool) -> (r: Self)
        ensures
            r == (AsyncAmxExecutor { synced, submitted: 0, completed: 0, next_value: 1 }),
    {
        AsyncAmxExecutor { synced, submitted: 0, completed: 0, next_value: 1 }
    }

    /// Submits a job that waits for nothing and signals nothing.
    pub fn submit(&mut self, job: AmxJob) -> (r: Message)
        ensures
            r == Message::Job(SyncedJob { job, wait_value: 0, signal_value: 0 }),
            *final(self) == (AsyncAmxExecutor {
                submitted: wrapped(old(self).submitted, 1),
                ..*old(self)
            }),
    {
        self.submit_inner(SyncedJob { job, wait_value: 0, signal_value: 0 })
    }

    /// Submits a job between two values of the shared event.
    pub fn submit_with_sync(&mut self, job: AmxJob, wait_value: u64, signal_value: u64) -> (r:
        Message)
        requires
            old(self).synced,
        ensures
            r == Message::Job(SyncedJob { job, wait_value, signal_value }),
            *final(self) == (AsyncAmxExecutor {
                submitted: wrapped(old(self).submitted, 1),
                ..*old(self)
            }),
    {
        self.submit_inner(SyncedJob { job, wait_value, signal_value })
    }

    fn submit_inner(&mut self, synced: SyncedJob) -> (r: Message)
        ensures
            r == Message::Job(synced),
            *final(self) == (AsyncAmxExecutor {
                submitted: wrapped(old(self).submitted, 1),
                ..*old(self)
            }),
    {
        self.submitted = self.submitted.wrapping_add(1);
        Message::Job(synced)
    }

    /// Two fresh values of the shared event, one above the other.
    pub fn next_event_pair(&mut self) -> (r: (u64, u64))
        requires
            old(self).next_value < u64::MAX,
        ensures
            r.0 == old(self).next_value,
            r.1 == old(self).next_value + 1,
            *final(self) == (AsyncAmxExecutor {
                next_value: wrapped(old(self).next_value, 2),
                ..*old(self)
            }),
    {
        let v: u64 = self.next_value;
        self.next_value = v.wrapping_add(2);
        (v, v + 1)
    }

    /// Records that the worker has done a job.
    pub fn record_completion(&mut self)
        ensures
            *final(self) == (AsyncAmxExecutor {
                completed: wrapped(old(self).completed, 1),
                ..*old(self)
            }),
    {
        self.completed = self.completed.wrapping_add(1);
    }

    /// Whether a wait for the first `target` jobs is over.
    pub fn reached(&self, target: u64) -> (r: bool)
        ensures
            r == (self.completed >= target),
    {
        self.completed >= target
    }

    /// Jobs handed out.
    pub fn n_submitted(&self) -> (r: u64)
        ensures
            r == self.submitted,
    {
        self.submitted
    }

    /// Jobs done.
    pub fn n_completed(&self) -> (r: u64)
        ensures
            r == self.completed,
    {
        self.completed
    }
}

/// Where the worker stands.
#[derive(Debug, Clone, Copy, PartialEq, Eq, Structural)]
pub enum Phase {
    /// It takes the next message.
    Idle,
    /// It waits for the shared event.
    Waiting(SyncedJob),
    /// It computes.
    Running(SyncedJob),
    /// It has ended.
    Stopped,
}

/// What has happened.
#[derive(Debug, Clone, Copy, PartialEq, Eq, Structural)]
pub enum Happening {
    /// A message has come.
    Received(Message),
    /// No message will come any more.
    Closed,
    /// The shared event holds this value.
    Signaled(u64),
    /// The computation is done.
    Finished,
}

/// What the host does next.
#[derive(Debug, Clone, Copy, PartialEq, Eq, Structural)]
pub enum Deed {
    /// Wait for a message.
    Receive,
    /// Look at the shared event.
    Poll,
    /// Carry the job out.
    Run(AmxJob),
    /// The job is done: set the shared event to the value where there is one,
    /// count the job, and wait for a message.
    Complete(Option<u64>),
    /// End the thread.
    Stop,
}

/// Whether a job has to wait for the shared event.
pub open spec fn must_wait(synced: bool, j: SyncedJob) -> bool {
    synced && j.wait_value > 0
}

/// The value that is set when a job is done.
pub open spec fn signal_of(synced: bool, j: SyncedJob) -> Option<u64> {
    if synced && j.signal_value > 0 {
        Some(j.signal_value)
    } else {
        None
    }
}

/// The next phase and what the host does, or `None` for something that
/// cannot happen in the phase.
pub open spec fn next(synced: bool, phase: Phase, h: Happening) -> Option<(Phase, Deed)> {
    match (phase, h) {
        (Phase::Idle, Happening::Received(Message::Job(j))) => if must_wait(synced, j) {
            Some((Phase::Waiting(j), Deed::Poll))
        } else {
            Some((Phase::Running(j), Deed::Run(j.job)))
        },
        (Phase::Idle, Happening::Received(Message::Shutdown)) => Some(
            (Phase::Stopped, Deed::Stop),
        ),
        (Phase::Idle, Happening::Closed) => Some((Phase::Stopped, Deed::Stop)),
        (Phase::Waiting(j), Happening::Signaled(v)) => if v < j.wait_value {
            Some((Phase::Waiting(j), Deed::Poll))
        } else {
            Some((Phase::Running(j), Deed::Run(j.job)))
        },
        (Phase::Running(j), Happening::Finished) => Some(
            (Phase::Idle, Deed::Complete(signal_of(synced, j))),
        ),
        _ => None,
    }
}

/// The worker.
#[derive(Debug, Clone, Copy)]
pub struct AmxWorker {
    /// Whether there is a shared event.
    pub synced: bool,
    pub phase: Phase,
}

impl AmxWorker {
    /// A worker that waits for its first message.
    pub fn start(synced: bool) -> (r: Self)
        ensures
            r == (AmxWorker { synced, phase: Phase::Idle }),
    {
        AmxWorker { synced, phase: Phase::Idle }
    }

    /// Takes notice of something and says what to do. Something that cannot
    /// happen in the phase changes nothing.
    pub fn step(&mut self, h: Happening) -> (r: Option<Deed>)
        ensures
            match next(old(self).synced, old(self).phase, h) {
                Some((phase, deed)) => r == Some(deed) && *final(self) == (AmxWorker {
                    phase,
                    ..*old(self)
                }),
                None => r is None && *final(self) == *old(self),
            },
    {
        match self.phase {
            Phase::Idle => match h {
                Happening::Received(Message::Job(j)) => {
                    if self.synced && j.wait_value > 0 {
                        self.phase = Phase::Waiting(j);
                        Some(Deed::Poll)
                    } else {
                        self.phase = Phase::Running(j);
                        Some(Deed::Run(j.job))
                    }
                },
                Happening::Received(Message::Shutdown) => {
                    self.phase = Phase::Stopped;
                    Some(Deed::Stop)
                },
                Happening::Closed => {
                    self.phase = Phase::Stopped;
                    Some(Deed::Stop)
                },
                _ => None,
            },
            Phase::Waiting(j) => match h {
                Happening::Signaled(v) => {
                    if v < j.wait_value {
                        Some(Deed::Poll)
                    } else {
                        self.phase = Phase::Running(j);
                        Some(Deed::Run(j.job))
                    }
                },
                _ => None,
            },
            Phase::Running(j) => match h {
                Happening::Finished => {
                    self.phase = Phase::Idle;
                    if self.synced && j.signal_value > 0 {
                        Some(Deed::Complete(Some(j.signal_value)))
                    } else {
                        Some(Deed::Complete(None))
                    }
                },
                _ => None,
            },
            Phase::Stopped => None,
        }
    }
}

/// A job that waits for a value is carried out only once the shared event has
/// reached it.
pub proof fn law_runs_after_wait(phase: Phase, h: Happening, job: AmxJob, j: SyncedJob)
    requires
        next(true, phase, h) == Some((Phase::Running(j), Deed::Run(job))),
    ensures
        job == j.job,
        j.wait_value > 0 ==> phase == Phase::Waiting(j) && (h matches Happening::Signaled(v) && v
            >= j.wait_value),
{
}

/// A value is set only after the job that it belongs to was carried out, and
/// it is the job's own.
pub proof fn law_signals_after_run(synced: bool, phase: Phase, h: Happening, v: u64, p: Phase)
    requires
        next(synced, phase, h) == Some((p, Deed::Complete(Some(v)))),
    ensures
        h == Happening::Finished,
        phase matches Phase::Running(j) && j.signal_value == v && v > 0,
        p == Phase::Idle,
{
}

/// The pairs of event values are disjoint and increase.
pub proof fn law_pairs_increase(a: AsyncAmxExecutor, b: AsyncAmxExecutor)
    requires
        a.next_value + 2 < u64::MAX,
        b.next_value == wrapped(a.next_value, 2),
    ensures
        a.next_value < a.next_value + 1 < b.next_value < b.next_value + 1,
{
}

/// The executor, its channel and its worker together.
pub struct System {
    pub submitted: nat,
    pub completed: nat,
    pub queue: Seq<SyncedJob>,
    pub phase: Phase,
}

impl System {
    /// Every submitted job is queued, in work or done.
    pub open spec fn balanced(self) -> bool {
        self.submitted == self.completed + self.queue.len() + (match self.phase {
            Phase::Waiting(_) | Phase::Running(_) => 1int,
            _ => 0,
        })
    }

    /// A job is submitted.
    pub open spec fn submit(self, j: SyncedJob) -> Self {
        System { submitted: self.submitted + 1, queue: self.queue.push(j), ..self }
    }

    /// The worker takes notice of something: a message is the oldest one, and
    /// a job that is done counts.
    pub open spec fn work(self, synced: bool, h: Happening) -> Option<Self> {
        match next(synced, self.phase, h) {
            None => None,
            Some((phase, deed)) => match h {
                Happening::Received(Message::Job(j)) => if self.queue.len() > 0 && j
                    == self.queue[0] {
                    Some(System { queue: self.queue.drop_first(), phase, ..self })
                } else {
                    None
                },
                Happening::Finished => Some(
                    System { completed: self.completed + 1, phase, ..self },
                ),
                _ => Some(System { phase, ..self }),
            },
        }
    }
}

/// No job is lost or counted twice, whatever happens: submission and work
/// keep the balance.
pub proof fn law_jobs_are_balanced(s: System, synced: bool, h: Happening, j: SyncedJob)
    requires
        s.balanced(),
    ensures
        s.submit(j).balanced(),
        s.work(synced, h) matches Some(t) ==> t.balanced(),
{
}

/// When as many jobs are done as were submitted, none is queued or in work.
pub proof fn law_wait_all_means_done(s: System)
    requires
        s.balanced(),
        s.completed >= s.submitted,
    ensures
        s.queue.len() == 0,
        !(s.phase is Waiting) && !(s.phase is Running),
{
}

/// Jobs are taken in the order in which they were submitted.
pub proof fn law_jobs_run_in_order(s: System, synced: bool, j: SyncedJob, later: SyncedJob)
    requires
        s.submit(later).work(synced, Happening::Received(Message::Job(j))) is Some,
        s.queue.len() > 0,
    ensures
        j == s.queue[0],
{
}

/// The call of a job reads the weights row by row: it has one row for each
/// output and one column for each input, and row `i` starts behind the `i`
/// rows before it.
pub proof fn law_job_reads_rows(job: AmxJob, c: SgemvCall, i: int)
    requires
        call_ensures(AmxJob::sgemv_call, (&job,), c),
    ensures
        c.rows == job.n,
        c.cols == job.k,
        i * c.stride == i * job.k,
{
}

/// What the calls do: a submitted job goes out as it is, between the two values
/// that it was given or none, and is counted; an event pair is two values in a
/// row that no earlier pair had, and the next pair follows it.
pub proof fn law_executor_calls(
    e: &mut AsyncAmxExecutor,
    job: AmxJob,
    wait: u64,
    signal: u64,
    m: Message,
    pair: (u64, u64),
)
    ensures
        call_ensures(AsyncAmxExecutor::submit, (e, job), m) ==> {
            &&& m matches Message::Job(s) && s.job == job && s.wait_value == 0 && s.signal_value == 0
            &&& old(e).submitted < u64::MAX ==> final(e).submitted == old(e).submitted + 1
            &&& final(e).completed == old(e).completed
            &&& final(e).next_value == old(e).next_value
        },
        call_ensures(AsyncAmxExecutor::submit_with_sync, (e, job, wait, signal), m) ==> {
            &&& m matches Message::Job(s) && s.job == job && s.wait_value == wait && s.signal_value
                == signal
            &&& old(e).submitted < u64::MAX ==> final(e).submitted == old(e).submitted + 1
            &&& final(e).completed == old(e).completed
        },
        call_ensures(AsyncAmxExecutor::next_event_pair, (e,), pair) ==> {
            &&& pair.0 == old(e).next_value
            &&& pair.1 == pair.0 + 1
            &&& old(e).next_value < u64::MAX - 1 ==> final(e).next_value == pair.1 + 1
            &&& final(e).submitted == old(e).submitted
        },
{
}

} // verus!
