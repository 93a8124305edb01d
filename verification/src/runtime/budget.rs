//! A single ledger shared by all nested command effects.
//!
//! Time is measured in milliseconds on a monotonic clock chosen by the caller;
//! the ledger only compares instants, it never reads a clock itself.
use crate::ids::IdSource;
use crate::error::{ErrorCode, KoruError};
use vstd::prelude::*;

verus! {

/// Hard-bounded whole-command resource allowances.
#[derive(Debug, Clone, Copy, PartialEq, Eq, Structural)]
pub struct Limits {
    /// Logical model requests, including retry attempts.
    pub model_requests: u64,
    /// Total invocations of model-exposed tools.
    pub tool_calls: u64,
    /// Total prepared effect invocations.
    pub effects: u64,
    /// Total input/output bytes charged by adapters.
    pub bytes: u64,
    /// Cumulative Lua instruction budget charged by the VM hook.
    pub instructions: u64,
    /// Peak memory allowed in one Lua VM; a cap, not a cumulative debit.
    pub lua_memory_bytes: u64,
    /// Whole-command wall time in milliseconds, including user approval.
    pub wall_time: u64,
}

/// The hard ceilings, which are also the default allowances.
pub open spec fn hard_limits() -> Limits {
    Limits {
        model_requests: 32,
        tool_calls: 64,
        effects: 128,
        bytes: 8_388_608,
        instructions: 50_000_000,
        lua_memory_bytes: 67_108_864,
        wall_time: 600_000,
    }
}

/// Whether every allowance is within its hard ceiling.
pub open spec fn within_ceilings(limits: Limits) -> bool {
    let hard = hard_limits();
    &&& limits.model_requests <= hard.model_requests
    &&& limits.tool_calls <= hard.tool_calls
    &&& limits.effects <= hard.effects
    &&& limits.bytes <= hard.bytes
    &&& limits.instructions <= hard.instructions
    &&& limits.lua_memory_bytes <= hard.lua_memory_bytes
    &&& limits.wall_time <= hard.wall_time
}

impl Default for Limits {
    fn default() -> (limits: Self)
        ensures
            limits == hard_limits(),
    {
        Limits {
            model_requests: 32,
            tool_calls: 64,
            effects: 128,
            bytes: 8 * 1024 * 1024,
            instructions: 50_000_000,
            lua_memory_bytes: 64 * 1024 * 1024,
            wall_time: 600_000,
        }
    }
}

impl Limits {
    /// Accept the allowances only when none exceeds its hard ceiling.
    pub fn validate(self) -> (result: Result<Self, KoruError>)
        ensures
            within_ceilings(self) ==> result == Ok::<Limits, KoruError>(self),
            !within_ceilings(self) ==> (result matches Err(e) && e.spec_code()
                == ErrorCode::Validation),
    {
        let hard = Self::default();
        if self.model_requests > hard.model_requests || self.tool_calls > hard.tool_calls
            || self.effects > hard.effects || self.bytes > hard.bytes || self.instructions
            > hard.instructions || self.lua_memory_bytes > hard.lua_memory_bytes
            || self.wall_time > hard.wall_time {
            return Err(
                KoruError::new(
                    ErrorCode::Validation,
                    "requested execution limits exceed hard ceilings",
                ),
            );
        }
        Ok(self)
    }
}

/// One atomic reservation across all tracked resource dimensions.
#[derive(Debug, Clone, Copy, PartialEq, Eq, Structural)]
pub struct Resources {
    /// Model request attempts.
    pub model_requests: u64,
    /// Model tool invocations.
    pub tool_calls: u64,
    /// Prepared effect invocations.
    pub effects: u64,
    /// Input/output bytes.
    pub bytes: u64,
    /// Lua instructions executed.
    pub instructions: u64,
}

/// No resource use at all.
pub open spec fn no_resources() -> Resources {
    Resources { model_requests: 0, tool_calls: 0, effects: 0, bytes: 0, instructions: 0 }
}

impl Resources {
    /// A reservation with no additional resource use.
    pub fn zero() -> (none: Resources)
        ensures
            none == no_resources(),
    {
        Resources { model_requests: 0, tool_calls: 0, effects: 0, bytes: 0, instructions: 0 }
    }
}

/// Whether adding `requested` to `used` passes `limit`.
pub open spec fn spec_over(used: u64, requested: u64, limit: u64) -> bool {
    used + requested > limit
}

/// Whether a reservation would pass any allowance.
pub open spec fn exceeds(usage: Resources, request: Resources, limits: Limits) -> bool {
    ||| spec_over(usage.model_requests, request.model_requests, limits.model_requests)
    ||| spec_over(usage.tool_calls, request.tool_calls, limits.tool_calls)
    ||| spec_over(usage.effects, request.effects, limits.effects)
    ||| spec_over(usage.bytes, request.bytes, limits.bytes)
    ||| spec_over(usage.instructions, request.instructions, limits.instructions)
}

/// Usage that stays within every allowance.
pub open spec fn usage_within(usage: Resources, limits: Limits) -> bool {
    &&& usage.model_requests <= limits.model_requests
    &&& usage.tool_calls <= limits.tool_calls
    &&& usage.effects <= limits.effects
    &&& usage.bytes <= limits.bytes
    &&& usage.instructions <= limits.instructions
}

/// The usage after a reservation that fits.
pub open spec fn added(usage: Resources, request: Resources) -> Resources {
    Resources {
        model_requests: (usage.model_requests + request.model_requests) as u64,
        tool_calls: (usage.tool_calls + request.tool_calls) as u64,
        effects: (usage.effects + request.effects) as u64,
        bytes: (usage.bytes + request.bytes) as u64,
        instructions: (usage.instructions + request.instructions) as u64,
    }
}

/// Terminal state cannot be reset by a workflow or its callbacks.
#[derive(Debug, Clone, Copy, PartialEq, Eq, Structural)]
pub enum RunState {
    /// The command can reserve capacity and request effects.
    Active,
    /// A resource limit was reached.
    Exhausted,
    /// The cancellation signal was observed.
    Cancelled,
    /// The whole-command deadline elapsed.
    TimedOut,
}

/// The state after observing the clock at `now`.
pub open spec fn observed(state: RunState, now: u64, deadline: u64) -> RunState {
    if state == RunState::Active && now >= deadline {
        RunState::TimedOut
    } else {
        state
    }
}

/// The error category reported for a state, or `None` when active.
pub open spec fn state_error(state: RunState) -> Option<ErrorCode> {
    match state {
        RunState::Active => None,
        RunState::Exhausted => Some(ErrorCode::BudgetExhausted),
        RunState::Cancelled => Some(ErrorCode::Cancelled),
        RunState::TimedOut => Some(ErrorCode::Timeout),
    }
}

/// The abstract ledger: reserved usage and run state.
pub struct LedgerView {
    /// Usage reserved so far.
    pub usage: Resources,
    /// Current run state.
    pub state: RunState,
}

/// The outcome of a reservation: the next ledger and the error category, if any.
pub open spec fn reserve_outcome(
    ledger: LedgerView,
    limits: Limits,
    deadline: u64,
    request: Resources,
    now: u64,
) -> (LedgerView, Option<ErrorCode>) {
    let state = observed(ledger.state, now, deadline);
    if state != RunState::Active {
        (LedgerView { usage: ledger.usage, state }, state_error(state))
    } else if exceeds(ledger.usage, request, limits) {
        (
            LedgerView { usage: ledger.usage, state: RunState::Exhausted },
            Some(ErrorCode::BudgetExhausted),
        )
    } else {
        (LedgerView { usage: added(ledger.usage, request), state }, None)
    }
}

/// The outcome of a state check at `now`.
pub open spec fn check_outcome(ledger: LedgerView, deadline: u64, now: u64) -> (
    LedgerView,
    Option<ErrorCode>,
) {
    let state = observed(ledger.state, now, deadline);
    (LedgerView { usage: ledger.usage, state }, state_error(state))
}

/// The ledger after a cancellation request.
pub open spec fn cancel_outcome(ledger: LedgerView) -> LedgerView {
    if ledger.state == RunState::Active {
        LedgerView { usage: ledger.usage, state: RunState::Cancelled }
    } else {
        ledger
    }
}

struct Ledger {
    usage: Resources,
    state: RunState,
}

/// Immutable command identity and a resource ledger.
pub struct ExecutionContext {
    id: u64,
    command: String,
    source_digest: [u8; 32],
    limits: Limits,
    deadline: u64,
    ledger: Ledger,
}

/// Whether an optional error category matches a result.
pub open spec fn result_matches(result: Result<(), KoruError>, error: Option<ErrorCode>) -> bool {
    match error {
        None => result is Ok,
        Some(code) => result matches Err(e) && e.spec_code() == code,
    }
}

impl ExecutionContext {
    /// The abstract ledger.
    pub closed spec fn ledger(&self) -> LedgerView {
        LedgerView { usage: self.ledger.usage, state: self.ledger.state }
    }

    /// The validated limits.
    pub closed spec fn spec_limits(&self) -> Limits {
        self.limits
    }

    /// The whole-command deadline.
    pub closed spec fn spec_deadline(&self) -> u64 {
        self.deadline
    }

    /// The run identity.
    pub closed spec fn spec_run_id(&self) -> u64 {
        self.id
    }

    /// The bound command name.
    pub closed spec fn spec_command(&self) -> Seq<char> {
        self.command@
    }

    /// The bound source digest.
    pub closed spec fn spec_source_digest(&self) -> Seq<u8> {
        self.source_digest@
    }

    /// The ledger is consistent: limits within ceilings and usage within limits.
    pub closed spec fn wf(&self) -> bool {
        &&& within_ceilings(self.limits)
        &&& usage_within(self.ledger.usage, self.limits)
    }

    /// Start a run from a validated command/source snapshot and limited budget.
    ///
    /// The run takes a fresh identity from `ids`; `started` is the current
    /// time in milliseconds.
    pub fn new(
        command: &str,
        source_digest: [u8; 32],
        limits: Limits,
        started: u64,
        ids: &mut IdSource,
    ) -> (result: Result<Self, KoruError>)
        requires
            old(ids).spec_next() < u64::MAX,
        ensures
            result is Ok ==> final(ids).spec_next() == old(ids).spec_next() + 1,
            result is Err ==> final(ids).spec_next() == old(ids).spec_next(),
            match result {
                Ok(context) => {
                    &&& within_ceilings(limits)
                    &&& started + limits.wall_time <= u64::MAX
                    &&& context.wf()
                    &&& context.spec_limits() == limits
                    &&& context.spec_deadline() == started + limits.wall_time
                    &&& context.spec_run_id() == old(ids).spec_next()
                    &&& context.spec_command() == command@
                    &&& context.spec_source_digest() == source_digest@
                    &&& context.ledger() == (LedgerView {
                        usage: no_resources(),
                        state: RunState::Active,
                    })
                },
                Err(e) => {
                    &&& e.spec_code() == ErrorCode::Validation
                    &&& (!within_ceilings(limits) || started + limits.wall_time > u64::MAX)
                },
            },
    {
        let limits = match limits.validate() {
            Ok(limits) => limits,
            Err(error) => return Err(error),
        };
        let deadline = match started.checked_add(limits.wall_time) {
            Some(deadline) => deadline,
            None => {
                return Err(KoruError::new(ErrorCode::Validation, "execution deadline overflows"));
            },
        };
        let run_id = ids.take();
        Ok(
            ExecutionContext {
                id: run_id,
                command: command.to_owned(),
                source_digest,
                limits,
                deadline,
                ledger: Ledger { usage: Resources::zero(), state: RunState::Active },
            },
        )
    }

    /// Unique identifier of this run.
    pub fn run_id(&self) -> (id: u64)
        ensures
            id == self.spec_run_id(),
    {
        self.id
    }

    /// Bound command name.
    pub fn command(&self) -> (command: &str)
        ensures
            command@ == self.spec_command(),
    {
        self.command.as_str()
    }

    /// Bound captured source digest.
    pub fn source_digest(&self) -> (digest: [u8; 32])
        ensures
            digest@ == self.spec_source_digest(),
    {
        self.source_digest
    }

    /// Validated immutable limits.
    pub fn limits(&self) -> (limits: Limits)
        ensures
            limits == self.spec_limits(),
    {
        self.limits
    }

    /// Whole-command deadline shared by approval, provider, and effects.
    pub fn deadline(&self) -> (deadline: u64)
        ensures
            deadline == self.spec_deadline(),
    {
        self.deadline
    }

    /// Reserve capacity before dispatch; any failure makes this run terminal.
    pub fn reserve(&mut self, request: Resources, now: u64) -> (result: Result<(), KoruError>)
        requires
            old(self).wf(),
        ensures
            final(self).wf(),
            (final(self).ledger(), result_error(result)) == reserve_outcome(
                old(self).ledger(),
                old(self).spec_limits(),
                old(self).spec_deadline(),
                request,
                now,
            ),
            result_matches(result, result_error(result)),
            final(self).same_identity(*old(self)),
    {
        let deadline = self.deadline;
        if let Err(error) = Self::check_state(&mut self.ledger, now, deadline) {
            return Err(error);
        }
        let usage = self.ledger.usage;
        let limits = self.limits;
        if over(usage.model_requests, request.model_requests, limits.model_requests) || over(
            usage.tool_calls,
            request.tool_calls,
            limits.tool_calls,
        ) || over(usage.effects, request.effects, limits.effects) || over(
            usage.bytes,
            request.bytes,
            limits.bytes,
        ) || over(usage.instructions, request.instructions, limits.instructions) {
            self.ledger.state = RunState::Exhausted;
            return Err(KoruError::new(ErrorCode::BudgetExhausted, "execution budget exhausted"));
        }
        self.ledger.usage = Resources {
            model_requests: usage.model_requests + request.model_requests,
            tool_calls: usage.tool_calls + request.tool_calls,
            effects: usage.effects + request.effects,
            bytes: usage.bytes + request.bytes,
            instructions: usage.instructions + request.instructions,
        };
        Ok(())
    }

    /// Mark this run cancelled; a terminal state is kept.
    pub fn cancel(&mut self)
        requires
            old(self).wf(),
        ensures
            final(self).wf(),
            final(self).ledger() == cancel_outcome(old(self).ledger()),
            final(self).same_identity(*old(self)),
    {
        if self.ledger.state == RunState::Active {
            self.ledger.state = RunState::Cancelled;
        }
    }

    /// Check terminal status and the whole-command deadline without reserving.
    pub fn ensure_active(&mut self, now: u64) -> (result: Result<(), KoruError>)
        requires
            old(self).wf(),
        ensures
            final(self).wf(),
            (final(self).ledger(), result_error(result)) == check_outcome(
                old(self).ledger(),
                old(self).spec_deadline(),
                now,
            ),
            result_matches(result, result_error(result)),
            final(self).same_identity(*old(self)),
    {
        let deadline = self.deadline;
        Self::check_state(&mut self.ledger, now, deadline)
    }

    /// Resource usage already reserved by this run.
    pub fn usage(&self) -> (usage: Resources)
        ensures
            usage == self.ledger().usage,
    {
        self.ledger.usage
    }

    /// Current terminal or active state.
    pub fn state(&self) -> (state: RunState)
        ensures
            state == self.ledger().state,
    {
        self.ledger.state
    }

    /// Identity, limits and deadline are unchanged between two values.
    pub open spec fn same_identity(&self, other: Self) -> bool {
        &&& self.spec_run_id() == other.spec_run_id()
        &&& self.spec_command() == other.spec_command()
        &&& self.spec_source_digest() == other.spec_source_digest()
        &&& self.spec_limits() == other.spec_limits()
        &&& self.spec_deadline() == other.spec_deadline()
    }

    fn check_state(ledger: &mut Ledger, now: u64, deadline: u64) -> (result: Result<(), KoruError>)
        ensures
            final(ledger).usage == old(ledger).usage,
            final(ledger).state == observed(old(ledger).state, now, deadline),
            result_error(result) == state_error(final(ledger).state),
            result_matches(result, state_error(final(ledger).state)),
    {
        if ledger.state == RunState::Active && now >= deadline {
            ledger.state = RunState::TimedOut;
        }
        match ledger.state {
            RunState::Active => Ok(()),
            RunState::Exhausted => Err(
                KoruError::new(ErrorCode::BudgetExhausted, "execution budget exhausted"),
            ),
            RunState::Cancelled => Err(KoruError::new(ErrorCode::Cancelled, "execution cancelled")),
            RunState::TimedOut => Err(
                KoruError::new(ErrorCode::Timeout, "execution deadline exceeded"),
            ),
        }
    }
}

/// The error category carried by a result, or `None` when it succeeded.
pub open spec fn result_error(result: Result<(), KoruError>) -> Option<ErrorCode> {
    match result {
        Ok(_) => None,
        Err(e) => Some(e.spec_code()),
    }
}

fn over(used: u64, requested: u64, limit: u64) -> (passes: bool)
    ensures
        passes == spec_over(used, requested, limit),
{
    match used.checked_add(requested) {
        Some(total) => total > limit,
        None => true,
    }
}

/// A run that reached a terminal state stays there, whatever is asked of it,
/// and every later request on it fails with the category of that state.
pub proof fn terminal_states_are_absorbing(
    ledger: LedgerView,
    limits: Limits,
    deadline: u64,
    request: Resources,
    now: u64,
)
    requires
        ledger.state != RunState::Active,
    ensures
        reserve_outcome(ledger, limits, deadline, request, now).0.state == ledger.state,
        reserve_outcome(ledger, limits, deadline, request, now).1 == state_error(ledger.state),
        reserve_outcome(ledger, limits, deadline, request, now).0.usage == ledger.usage,
        check_outcome(ledger, deadline, now).0 == ledger,
        check_outcome(ledger, deadline, now).1 == state_error(ledger.state),
        cancel_outcome(ledger) == ledger,
{
}

/// Reserved usage never passes the allowances: a reservation either fits entirely
/// and is added, or changes nothing but the state.
pub proof fn reservations_stay_within_limits(
    ledger: LedgerView,
    limits: Limits,
    deadline: u64,
    request: Resources,
    now: u64,
)
    requires
        usage_within(ledger.usage, limits),
    ensures
        usage_within(reserve_outcome(ledger, limits, deadline, request, now).0.usage, limits),
        reserve_outcome(ledger, limits, deadline, request, now).1 is None ==> reserve_outcome(
            ledger,
            limits,
            deadline,
            request,
            now,
        ).0.usage == added(ledger.usage, request),
        reserve_outcome(ledger, limits, deadline, request, now).1 is Some ==> reserve_outcome(
            ledger,
            limits,
            deadline,
            request,
            now,
        ).0.usage == ledger.usage,
{
}

/// Once the deadline has passed, an active run times out on its next check.
pub proof fn deadline_ends_an_active_run(ledger: LedgerView, deadline: u64, now: u64)
    requires
        ledger.state == RunState::Active,
        now >= deadline,
    ensures
        check_outcome(ledger, deadline, now).0.state == RunState::TimedOut,
        check_outcome(ledger, deadline, now).1 == Some(ErrorCode::Timeout),
{
}


/// One operation on a run's ledger.
pub enum LedgerCall {
    /// A reservation of resources at a time.
    Reserve(Resources, u64),
    /// A cancellation request.
    Cancel,
    /// A state check at a time.
    Check(u64),
}

/// The ledger after one operation.
pub open spec fn apply_call(ledger: LedgerView, limits: Limits, deadline: u64, call: LedgerCall) -> LedgerView {
    match call {
        LedgerCall::Reserve(request, now) => reserve_outcome(ledger, limits, deadline, request, now).0,
        LedgerCall::Cancel => cancel_outcome(ledger),
        LedgerCall::Check(now) => check_outcome(ledger, deadline, now).0,
    }
}

/// The ledger of a fresh run after a sequence of operations.
pub open spec fn run_calls(limits: Limits, deadline: u64, calls: Seq<LedgerCall>) -> LedgerView
    decreases calls.len(),
{
    if calls.len() == 0 {
        LedgerView { usage: no_resources(), state: RunState::Active }
    } else {
        apply_call(run_calls(limits, deadline, calls.drop_last()), limits, deadline, calls.last())
    }
}

/// `later` is at least `earlier` in every dimension.
pub open spec fn no_less(earlier: Resources, later: Resources) -> bool {
    &&& earlier.model_requests <= later.model_requests
    &&& earlier.tool_calls <= later.tool_calls
    &&& earlier.effects <= later.effects
    &&& earlier.bytes <= later.bytes
    &&& earlier.instructions <= later.instructions
}

proof fn lemma_call_keeps_bounds(ledger: LedgerView, limits: Limits, deadline: u64, call: LedgerCall)
    requires
        usage_within(ledger.usage, limits),
    ensures
        usage_within(apply_call(ledger, limits, deadline, call).usage, limits),
        no_less(ledger.usage, apply_call(ledger, limits, deadline, call).usage),
{
}

/// Over any sequence of reservations, cancellations and checks on a fresh run,
/// its usage stays within every limit, and no dimension of it ever decreases.
pub proof fn usage_grows_within_limits(limits: Limits, deadline: u64, calls: Seq<LedgerCall>, k: int)
    requires
        0 <= k <= calls.len(),
    ensures
        usage_within(run_calls(limits, deadline, calls).usage, limits),
        no_less(run_calls(limits, deadline, calls.take(k)).usage, run_calls(limits, deadline, calls).usage),
    decreases calls.len(),
{
    if calls.len() == 0 {
        assert(calls.take(k) =~= calls);
    } else {
        let rest = calls.drop_last();
        let before = run_calls(limits, deadline, rest);
        if k == calls.len() {
            assert(calls.take(k) =~= calls);
            usage_grows_within_limits(limits, deadline, rest, 0);
            lemma_call_keeps_bounds(before, limits, deadline, calls.last());
        } else {
            usage_grows_within_limits(limits, deadline, rest, k);
            assert(rest.take(k) =~= calls.take(k));
            lemma_call_keeps_bounds(before, limits, deadline, calls.last());
        }
    }
}

} // verus!
