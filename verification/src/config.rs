use vstd::prelude::*;

use core::ops::ControlFlow;

use crate::engine::reap_post;
use crate::engine::Engine;

verus! {

/// Ask the kernel for a submission-side polling thread, so that
/// publishing a submission does not need a syscall per operation.
/// Creating that thread is privileged.
pub const IORING_SETUP_SQPOLL: u32 = 2;

/// The completion depth in `cq_entries` is a request, not a report:
/// honor it instead of doubling the submission depth.
pub const IORING_SETUP_CQSIZE: u32 = 8;

/// Kernel ring parameters: the request-and-report block exchanged with
/// ring creation. A raw block supplied by the caller is a request used
/// verbatim; the negotiated outcome comes back with the actual depths
/// filled in, is copied into the queue components, and is frozen from
/// then on.
#[derive(Clone, Copy, Debug, PartialEq, Eq, Structural)]
pub struct RingParams {
    pub flags: u32,
    pub sq_thread_cpu: u32,
    pub sq_entries: u32,
    pub cq_entries: u32,
}

impl Default for RingParams {
    /// The all-zero block: no flags, depths left for the kernel to pick.
    fn default() -> (p: RingParams)
        ensures
            p == (RingParams { flags: 0, sq_thread_cpu: 0, sq_entries: 0, cq_entries: 0 }),
    {
        RingParams { flags: 0, sq_thread_cpu: 0, sq_entries: 0, cq_entries: 0 }
    }
}

/// What the surrounding process knows of its host when it asks for ring
/// creation. Ring setup succeeds or fails on these facts; they are read
/// outside this core and handed in as plain values.
#[derive(Clone, Copy, Debug, PartialEq, Eq, Structural)]
pub struct HostEnv {
    /// The process may perform privileged operations, as spawning a
    /// kernel-side polling thread requires.
    pub privileged: bool,
    /// Enough lockable memory remains for the shared ring mappings.
    pub enough_lockable_memory: bool,
}

/// Why ring creation failed. Setup failures are surfaced immediately and
/// never retried here; retry policy belongs to the caller.
#[derive(Clone, Copy, Debug, PartialEq, Eq, Structural)]
pub enum StartError {
    /// The kernel rejects the requested depths.
    InvalidParameters,
    /// Privileged polling was requested without privilege. Never a
    /// silent downgrade: the whole start fails.
    PermissionDenied,
    /// Too little lockable memory for the ring mappings; the raw
    /// condition is rewritten into an actionable message.
    LockedMemoryExhausted,
}

impl StartError {
    /// A human-readable account of the failure.
    pub fn message(&self) -> (m: &'static str)
        ensures
            *self is InvalidParameters ==> m@ =~= "invalid ring parameters"@,
            *self is PermissionDenied ==> m@ =~= "privileged polling requires elevated privileges"@,
            *self is LockedMemoryExhausted ==> m@
                =~= "Not enough lockable memory. You probably need to raise the memlock rlimit, which often defaults to a pretty low number."@,
    {
        match self {
            StartError::InvalidParameters => "invalid ring parameters",
            StartError::PermissionDenied => "privileged polling requires elevated privileges",
            StartError::LockedMemoryExhausted => "Not enough lockable memory. You probably need to raise the memlock rlimit, which often defaults to a pretty low number.",
        }
    }
}

/// Configuration for the ring engine: an immutable snapshot of desired
/// parameters, created by the caller and consumed once by `start`.
#[derive(Clone, Debug, Copy)]
pub struct Config {
    /// The number of entries in the submission queue. The completion
    /// queue size may be specified by using `raw_params` instead. By
    /// default, the kernel will choose a completion queue that is 2x the
    /// submission queue's size.
    pub depth: usize,
    /// Enable privileged polling mode, which spawns a kernel thread that
    /// polls for submissions without needing to block as often to
    /// submit. This is a privileged operation, and will cause `start` to
    /// fail if run by a non-privileged user.
    pub sq_poll: bool,
    /// Specify a particular CPU to pin the polling thread onto.
    pub sq_poll_affinity: u32,
    /// Specify that the user will directly poll the hardware for
    /// operation completion rather than using the completion queue.
    /// Reserved; currently unsupported and ignored.
    pub io_poll: bool,
    /// Print a profile table on drop, showing where time was spent.
    pub print_profile_on_drop: bool,
    /// Setting `raw_params` overrides everything else.
    pub raw_params: Option<RingParams>,
}

impl Default for Config {
    fn default() -> (c: Config)
        ensures
            c.depth == 256,
            !c.sq_poll,
            c.sq_poll_affinity == 0,
            !c.io_poll,
            !c.print_profile_on_drop,
            c.raw_params is None,
    {
        Config {
            depth: 256,
            sq_poll: false,
            io_poll: false,
            sq_poll_affinity: 0,
            raw_params: None,
            print_profile_on_drop: false,
        }
    }
}

/// Flag `f` is set in `flags`.
pub open spec fn has_flag(flags: u32, f: u32) -> bool {
    flags & f != 0
}

/// `n` is 1, 2, 4, 8, ...
pub open spec fn is_power_of_two(n: int) -> bool
    decreases n,
{
    if n <= 0 {
        false
    } else if n == 1 {
        true
    } else {
        n % 2 == 0 && is_power_of_two(n / 2)
    }
}

/// The smallest power of two that is at least `n`.
pub open spec fn pow2_at_least(n: int) -> int
    decreases n,
{
    if n <= 1 {
        1
    } else {
        2 * pow2_at_least((n + 1) / 2)
    }
}

/// Of two powers of two, one strictly below the double of the other is
/// at most the other.
proof fn lemma_pow2_compare(a: int, b: int)
    requires
        is_power_of_two(a),
        is_power_of_two(b),
        a < 2 * b,
    ensures
        a <= b,
    decreases a,
{
    if a > 1 && b > 1 {
        lemma_pow2_compare(a / 2, b / 2);
    }
}

/// `pow2_at_least(n)` deserves its name: a power of two, at least `n`,
/// below `2 * n`.
proof fn lemma_pow2_at_least_props(n: int)
    requires
        1 <= n,
    ensures
        is_power_of_two(pow2_at_least(n)),
        n <= pow2_at_least(n) < 2 * n,
    decreases n,
{
    if n > 1 {
        let m = (n + 1) / 2;
        lemma_pow2_at_least_props(m);
        if n % 2 == 1 && pow2_at_least(m) == n {
            // A power of two above 1 is even; `n` is odd.
            assert(false);
        }
    }
}

/// The kernel's rounding of a requested depth: the smallest power of two
/// that is at least `n`, for `1 <= n <= 32768`.
pub fn next_power_of_two_at_least(n: u32) -> (r: u32)
    requires
        1 <= n <= 32768,
    ensures
        r == pow2_at_least(n as int),
        n <= r <= 32768,
        is_power_of_two(r as int),
        r < 2 * n,
{
    let mut p: u32 = 1;
    while p < n
        invariant
            1 <= n <= 32768,
            1 <= p,
            p < 2 * n,
            is_power_of_two(p as int),
        decreases 2 * n - p,
    {
        p = p * 2;
    }
    proof {
        reveal_with_fuel(is_power_of_two, 17);
        assert(is_power_of_two(32768));
        lemma_pow2_compare(p as int, 32768);
        lemma_pow2_at_least_props(n as int);
        lemma_pow2_compare(p as int, pow2_at_least(n as int));
        lemma_pow2_compare(pow2_at_least(n as int), p as int);
    }
    p
}

/// How a requested completion depth is rounded: up to the next power of
/// two, saturating at the interface maximum.
pub open spec fn spec_cq_round(n: int) -> int {
    if n > 32768 {
        65536
    } else {
        pow2_at_least(n)
    }
}

/// The parameter block `start` hands to ring creation: the raw override
/// verbatim when one is given; otherwise the default block, with the
/// polling flag and CPU affinity set when privileged polling is asked
/// for.
pub open spec fn spec_resolved_params(c: Config) -> RingParams {
    match c.raw_params {
        Some(p) => p,
        None => RingParams {
            flags: if c.sq_poll {
                IORING_SETUP_SQPOLL
            } else {
                0
            },
            sq_thread_cpu: if c.sq_poll {
                c.sq_poll_affinity
            } else {
                0
            },
            sq_entries: 0,
            cq_entries: 0,
        },
    }
}

/// The negotiated outcome of ring creation, or the failure it is
/// refused with. The checks come in the kernel's order: depth validity,
/// completion-depth validity, privilege, lockable memory. On success the
/// submission depth is the requested one rounded up to a power of two,
/// and the completion depth is double that unless the parameter block
/// requested one itself.
pub open spec fn spec_setup(depth: usize, p: RingParams, env: HostEnv) -> Result<
    RingParams,
    StartError,
> {
    if depth < 1 || depth > 32768 {
        Err(StartError::InvalidParameters)
    } else {
        let sqe = pow2_at_least(depth as int);
        if has_flag(p.flags, IORING_SETUP_CQSIZE) && !(1 <= p.cq_entries <= 65536 && spec_cq_round(
            p.cq_entries as int,
        ) >= sqe) {
            Err(StartError::InvalidParameters)
        } else if has_flag(p.flags, IORING_SETUP_SQPOLL) && !env.privileged {
            Err(StartError::PermissionDenied)
        } else if !env.enough_lockable_memory {
            Err(StartError::LockedMemoryExhausted)
        } else {
            let cqe = if has_flag(p.flags, IORING_SETUP_CQSIZE) {
                spec_cq_round(p.cq_entries as int)
            } else {
                2 * sqe
            };
            Ok(
                RingParams {
                    flags: p.flags,
                    sq_thread_cpu: p.sq_thread_cpu,
                    sq_entries: sqe as u32,
                    cq_entries: cqe as u32,
                },
            )
        }
    }
}

/// Request ring creation: the in-memory model of the kernel's
/// negotiation. A negative outcome is one of the failures of
/// `StartError`; a positive one reports the depths actually granted,
/// where the kernel may autonomously choose a larger completion depth
/// than the caller imagined.
pub fn setup(depth: usize, p: &RingParams, env: &HostEnv) -> (r: Result<RingParams, StartError>)
    ensures
        r == spec_setup(depth, *p, *env),
        r matches Ok(g) ==> {
            &&& depth <= g.sq_entries <= 32768
            &&& g.sq_entries <= g.cq_entries <= 65536
            &&& 1 <= g.sq_entries
        },
{
    if depth < 1 || depth > 32768 {
        return Err(StartError::InvalidParameters);
    }
    let sqe = next_power_of_two_at_least(depth as u32);
    let cqsize = p.flags & IORING_SETUP_CQSIZE != 0;
    let mut cqe: u32 = 2 * sqe;
    if cqsize {
        if p.cq_entries < 1 || p.cq_entries > 65536 {
            return Err(StartError::InvalidParameters);
        }
        if p.cq_entries > 32768 {
            cqe = 65536;
        } else {
            cqe = next_power_of_two_at_least(p.cq_entries);
        }
        if cqe < sqe {
            return Err(StartError::InvalidParameters);
        }
    }
    if p.flags & IORING_SETUP_SQPOLL != 0 && !env.privileged {
        return Err(StartError::PermissionDenied);
    }
    if !env.enough_lockable_memory {
        return Err(StartError::LockedMemoryExhausted);
    }
    proof {
        lemma_pow2_at_least_props(depth as int);
    }
    Ok(RingParams { flags: p.flags, sq_thread_cpu: p.sq_thread_cpu, sq_entries: sqe, cq_entries: cqe })
}

/// Drives completion-queue draining for an engine whose caller owns
/// reaping. Exactly one party may drain a given completion queue at any
/// instant: exclusive access to the engine enforces that here, as a
/// lock around the queue would in a multithreaded deployment.
pub struct Reaper {}

impl Reaper {
    /// One non-blocking pass: drain what is available now and return
    /// the processed count — zero, with nothing available, at once.
    /// After shutdown it returns the terminal stop signal instead of
    /// hanging.
    pub fn poll(&mut self, engine: &mut Engine) -> (r: ControlFlow<(), usize>)
        requires
            old(engine).wf(),
        ensures
            final(engine).wf(),
            reap_post(*old(engine), *final(engine), r),
            !old(engine).shut_down && old(engine).cq.ring@.len() == 0 ==> r == ControlFlow::<
                (),
                usize,
            >::Continue(0),
            old(engine).shut_down ==> r == ControlFlow::<(), usize>::Break(()),
    {
        engine.reap()
    }

    /// One blocking pass: the caller stands here only once a completion
    /// is available or the ring is shut down — the wait itself belongs
    /// to the unverified surroundings — and so never takes a zero count
    /// home. After shutdown it returns the terminal stop signal.
    pub fn block(&mut self, engine: &mut Engine) -> (r: ControlFlow<(), usize>)
        requires
            old(engine).wf(),
            old(engine).shut_down || old(engine).cq.ring@.len() > 0,
        ensures
            final(engine).wf(),
            reap_post(*old(engine), *final(engine), r),
            old(engine).shut_down ==> r == ControlFlow::<(), usize>::Break(()),
            !old(engine).shut_down ==> (r matches ControlFlow::Continue(n) && n >= 1),
    {
        engine.reap()
    }
}

impl Config {
    /// The parameter block handed to ring creation; see
    /// `spec_resolved_params`.
    pub fn resolve_params(&self) -> (p: RingParams)
        ensures
            p == spec_resolved_params(*self),
    {
        match self.raw_params {
            Some(p) => p,
            None => {
                let mut p = RingParams::default();
                if self.sq_poll {
                    // Set privileged polling mode to avoid needing a
                    // wakeup per submission.
                    p.flags = IORING_SETUP_SQPOLL;
                    p.sq_thread_cpu = self.sq_poll_affinity;
                }
                p
            },
        }
    }

    /// Start the engine: resolve the parameter block, request ring
    /// creation, and on success build the in-flight table and ticket
    /// allocator sized to the granted completion depth, with the
    /// submission and completion queues bound to the granted ring.
    /// Returns the engine, and a reaper exactly when the caller owns
    /// reaping; with `own_reaper` false the surrounding (unverified)
    /// runtime spawns the background thread that runs the blocking
    /// drain loop. A failure surfaces before anything is built: never a
    /// partially initialized engine.
    pub fn start(self, own_reaper: bool, env: &HostEnv) -> (r: Result<
        (Engine, Option<Reaper>),
        StartError,
    >)
        ensures
            r is Ok <==> spec_setup(self.depth, spec_resolved_params(self), *env) is Ok,
            r matches Err(err) ==> Err::<RingParams, StartError>(err) == spec_setup(
                self.depth,
                spec_resolved_params(self),
                *env,
            ),
            (self.raw_params is None && 1 <= self.depth <= 32768 && self.sq_poll
                && !env.privileged) ==> (r matches Err(err) && err
                == StartError::PermissionDenied),
            r matches Ok(pair) ==> {
                let g = spec_setup(self.depth, spec_resolved_params(self), *env)->Ok_0;
                &&& pair.0.wf()
                &&& pair.0.config == self
                &&& pair.0.flags == g.flags
                &&& !pair.0.shut_down
                &&& pair.0.tickets.depth == g.cq_entries
                &&& pair.0.sq.ring.capacity() == g.sq_entries
                &&& pair.0.sq.ring.capacity() >= self.depth
                &&& pair.0.cq.ring.capacity() == g.cq_entries
                &&& pair.0.cq.ring.capacity() >= pair.0.sq.ring.capacity()
                &&& pair.0.sq.sq_poll == has_flag(g.flags, IORING_SETUP_SQPOLL)
                &&& pair.0.sq.ring@.len() == 0
                &&& pair.0.cq.ring@.len() == 0
                &&& pair.0.running@.len() == 0
                &&& pair.0.delivered@.len() == 0
                &&& pair.0.tickets.free@.len() == g.cq_entries
                &&& (forall|t: usize| pair.0.tickets.is_free(t) <==> t < g.cq_entries)
                &&& (forall|t: usize| !pair.0.in_flight.waiting(t))
                &&& (pair.1 is Some <==> own_reaper)
            },
    {
        let params = self.resolve_params();
        proof {
            assert(IORING_SETUP_SQPOLL & IORING_SETUP_SQPOLL != 0u32) by (bit_vector);
            assert(IORING_SETUP_SQPOLL & IORING_SETUP_CQSIZE == 0u32) by (bit_vector);
        }
        let granted = match setup(self.depth, &params, env) {
            Err(err) => {
                return Err(err);
            },
            Ok(g) => g,
        };
        let engine = Engine::assemble(self, granted);
        if own_reaper {
            Ok((engine, Some(Reaper {  })))
        } else {
            Ok((engine, None))
        }
    }
}

} // verus!
