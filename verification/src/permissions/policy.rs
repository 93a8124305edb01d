//! In-memory policy and one-use broker authorization; persistence is a later gate.
use super::action::{pairs_view, strings_view, Environment, Operation, PreparedAction};
use crate::error::{ErrorCode, KoruError};
use crate::runtime::budget::{
    check_outcome, no_resources, reserve_outcome, LedgerView, Resources,
};
use crate::runtime::ExecutionContext;
use crate::text::{bytes_eq, copy_bytes, digest_eq};
use vstd::prelude::*;

verus! {

/// Capabilities requested in script metadata; never a grant.
#[derive(Debug, Clone, Copy, Default)]
pub struct RequestedCapabilities {
    /// Script asks to invoke direct processes.
    pub direct_processes: bool,
}

/// A decision supplied only by the trusted terminal adapter.
#[derive(Debug, Clone, Copy, PartialEq, Eq, Structural)]
pub enum Decision {
    /// The user approved this one prepared action.
    ApproveOnce,
    /// The user denied or noninteractive mode cannot obtain confirmation.
    Deny,
}

/// The exact identity of a reviewed direct-process invocation.
pub struct GrantKey {
    /// Policy version the grant was recorded under.
    pub policy_version: u64,
    /// Command name.
    pub command: Seq<char>,
    /// Captured source digest.
    pub source_digest: Seq<u8>,
    /// Canonical executable path bytes.
    pub executable: Seq<u8>,
    /// Exact arguments.
    pub arguments: Seq<Seq<char>>,
    /// Canonical working directory bytes.
    pub cwd: Seq<u8>,
    /// `None` for a clean environment, or the exact additions.
    pub environment: Option<Seq<(Seq<char>, Seq<char>)>>,
}

/// The grant key of an action under a policy version, if it is a direct process.
pub open spec fn action_key(action: PreparedAction, version: u64) -> Option<GrantKey> {
    match action.spec_operation() {
        Operation::Process { executable, arguments, cwd, environment, .. } => Some(
            GrantKey {
                policy_version: version,
                command: action.spec_command(),
                source_digest: action.spec_source_digest(),
                executable: executable@,
                arguments: strings_view(arguments@),
                cwd: cwd@,
                environment: match environment {
                    Environment::Clean => None,
                    Environment::Additions(values) => Some(pairs_view(values@)),
                },
            },
        ),
        _ => None,
    }
}

enum EnvironmentKey {
    Clean,
    Additions(Vec<(String, String)>),
}

struct ProcessGrant {
    policy_version: u64,
    command: String,
    source_digest: [u8; 32],
    executable: Vec<u8>,
    arguments: Vec<String>,
    cwd: Vec<u8>,
    environment: EnvironmentKey,
}

impl ProcessGrant {
    spec fn key(&self) -> GrantKey {
        GrantKey {
            policy_version: self.policy_version,
            command: self.command@,
            source_digest: self.source_digest@,
            executable: self.executable@,
            arguments: strings_view(self.arguments@),
            cwd: self.cwd@,
            environment: match self.environment {
                EnvironmentKey::Clean => None,
                EnvironmentKey::Additions(values) => Some(pairs_view(values@)),
            },
        }
    }
}

fn copy_strings(values: &Vec<String>) -> (copy: Vec<String>)
    ensures
        strings_view(copy@) == strings_view(values@),
{
    let mut out: Vec<String> = Vec::new();
    let mut i: usize = 0;
    while i < values.len()
        invariant
            i <= values@.len(),
            out@.len() == i,
            strings_view(out@) == strings_view(values@.subrange(0, i as int)),
        decreases values@.len() - i,
    {
        let copy = values[i].clone();
        assert(copy@ == values@[i as int]@);
        let ghost prev = out@;
        out.push(copy);
        assert forall|j: int| 0 <= j <= i implies strings_view(out@)[j] == strings_view(
            values@.subrange(0, i + 1),
        )[j] by {
            if j < i {
                assert(out@[j] == prev[j]);
                assert(strings_view(prev)[j] == strings_view(values@.subrange(0, i as int))[j]);
            }
        }
        i = i + 1;
        assert(strings_view(out@) =~= strings_view(values@.subrange(0, i as int)));
    }
    assert(values@.subrange(0, values@.len() as int) == values@);
    out
}

fn copy_pairs(values: &Vec<(String, String)>) -> (copy: Vec<(String, String)>)
    ensures
        pairs_view(copy@) == pairs_view(values@),
{
    let mut out: Vec<(String, String)> = Vec::new();
    let mut i: usize = 0;
    while i < values.len()
        invariant
            i <= values@.len(),
            out@.len() == i,
            pairs_view(out@) == pairs_view(values@.subrange(0, i as int)),
        decreases values@.len() - i,
    {
        let key = values[i].0.clone();
        let value = values[i].1.clone();
        assert(key@ == values@[i as int].0@ && value@ == values@[i as int].1@);
        let ghost prev = out@;
        out.push((key, value));
        assert forall|j: int| 0 <= j <= i implies pairs_view(out@)[j] == pairs_view(
            values@.subrange(0, i + 1),
        )[j] by {
            if j < i {
                assert(out@[j] == prev[j]);
                assert(pairs_view(prev)[j] == pairs_view(values@.subrange(0, i as int))[j]);
            }
        }
        i = i + 1;
        assert(pairs_view(out@) =~= pairs_view(values@.subrange(0, i as int)));
    }
    assert(values@.subrange(0, values@.len() as int) == values@);
    out
}

fn strings_eq(a: &Vec<String>, b: &Vec<String>) -> (equal: bool)
    ensures
        equal == (strings_view(a@) == strings_view(b@)),
{
    if a.len() != b.len() {
        assert(strings_view(a@).len() != strings_view(b@).len());
        return false;
    }
    let mut i: usize = 0;
    while i < a.len()
        invariant
            i <= a@.len(),
            a@.len() == b@.len(),
            forall|j: int| 0 <= j < i ==> a@[j]@ == b@[j]@,
        decreases a@.len() - i,
    {
        if a[i] != b[i] {
            assert(strings_view(a@)[i as int] != strings_view(b@)[i as int]);
            return false;
        }
        i = i + 1;
    }
    assert(strings_view(a@) =~= strings_view(b@));
    true
}

fn pairs_eq(a: &Vec<(String, String)>, b: &Vec<(String, String)>) -> (equal: bool)
    ensures
        equal == (pairs_view(a@) == pairs_view(b@)),
{
    if a.len() != b.len() {
        assert(pairs_view(a@).len() != pairs_view(b@).len());
        return false;
    }
    let mut i: usize = 0;
    while i < a.len()
        invariant
            i <= a@.len(),
            a@.len() == b@.len(),
            forall|j: int| 0 <= j < i ==> a@[j].0@ == b@[j].0@ && a@[j].1@ == b@[j].1@,
        decreases a@.len() - i,
    {
        if a[i].0 != b[i].0 || a[i].1 != b[i].1 {
            assert(pairs_view(a@)[i as int] != pairs_view(b@)[i as int]);
            return false;
        }
        i = i + 1;
    }
    assert(pairs_view(a@) =~= pairs_view(b@));
    true
}

fn grant_eq(a: &ProcessGrant, b: &ProcessGrant) -> (equal: bool)
    ensures
        equal == (a.key() == b.key()),
{
    let environment_equal = match (&a.environment, &b.environment) {
        (EnvironmentKey::Clean, EnvironmentKey::Clean) => true,
        (EnvironmentKey::Additions(x), EnvironmentKey::Additions(y)) => pairs_eq(x, y),
        _ => false,
    };
    a.policy_version == b.policy_version && a.command == b.command && digest_eq(
        &a.source_digest,
        &b.source_digest,
    ) && bytes_eq(a.executable.as_slice(), b.executable.as_slice()) && strings_eq(
        &a.arguments,
        &b.arguments,
    ) && bytes_eq(a.cwd.as_slice(), b.cwd.as_slice()) && environment_equal
}

/// Host-owned policy snapshot; durable storage is not yet implemented.
pub struct Policy {
    version: u64,
    process_grants: Vec<ProcessGrant>,
}

/// The grant keys after recording `key`; a key already present is not repeated.
pub open spec fn recorded(grants: Seq<GrantKey>, key: GrantKey) -> Seq<GrantKey> {
    if grants.contains(key) {
        grants
    } else {
        grants.push(key)
    }
}

impl Policy {
    /// The policy version.
    pub closed spec fn spec_version(&self) -> u64 {
        self.version
    }

    /// The exact process grants recorded so far.
    pub closed spec fn grants(&self) -> Seq<GrantKey> {
        self.process_grants@.map_values(|grant: ProcessGrant| grant.key())
    }

    /// Whether the policy grants `action` without confirmation.
    pub open spec fn grants_action(&self, action: PreparedAction) -> bool {
        match action_key(action, self.spec_version()) {
            Some(key) => self.grants().contains(key),
            None => false,
        }
    }

    /// Start an empty policy at a positive schema/policy version.
    pub fn new(version: u64) -> (result: Result<Self, KoruError>)
        ensures
            version == 0 ==> (result matches Err(e) && e.spec_code() == ErrorCode::Validation),
            version != 0 ==> (result matches Ok(policy) && policy.spec_version() == version
                && policy.grants() == Seq::<GrantKey>::empty()),
    {
        if version == 0 {
            return Err(KoruError::new(ErrorCode::Validation, "policy version must be positive"));
        }
        let policy = Policy { version, process_grants: Vec::new() };
        assert(policy.grants() =~= Seq::<GrantKey>::empty());
        Ok(policy)
    }

    /// Record a reviewed exact direct-process exemption in this memory snapshot.
    pub fn grant_exact_process(&mut self, action: &PreparedAction, context: &ExecutionContext) -> (result:
        Result<(), KoruError>)
        ensures
            final(self).spec_version() == old(self).spec_version(),
            !action.bound_to(context) ==> (result matches Err(e) && e.spec_code()
                == ErrorCode::StateConflict && final(self).grants() == old(self).grants()),
            action.bound_to(context) && action_key(*action, old(self).spec_version()) is None ==> (
            result matches Err(e) && e.spec_code() == ErrorCode::Validation && final(self).grants()
                == old(self).grants()),
            action.bound_to(context) && action_key(*action, old(self).spec_version()) is Some ==> (
            result is Ok && final(self).grants() == recorded(
                old(self).grants(),
                action_key(*action, old(self).spec_version())->0,
            )),
    {
        if !action.matches(context) {
            return Err(KoruError::new(ErrorCode::StateConflict, "action context changed"));
        }
        let grant = match self.process_key(action) {
            Some(grant) => grant,
            None => {
                return Err(
                    KoruError::new(
                        ErrorCode::Validation,
                        "only direct processes can receive stored exemptions",
                    ),
                );
            },
        };
        if !self.contains(&grant) {
            self.process_grants.push(grant);
            assert(self.grants() =~= old(self).grants().push(grant.key()));
        }
        Ok(())
    }

    fn contains(&self, grant: &ProcessGrant) -> (found: bool)
        ensures
            found == self.grants().contains(grant.key()),
    {
        let mut i: usize = 0;
        while i < self.process_grants.len()
            invariant
                i <= self.process_grants@.len(),
                forall|j: int| 0 <= j < i ==> self.grants()[j] != grant.key(),
            decreases self.process_grants@.len() - i,
        {
            if grant_eq(&self.process_grants[i], grant) {
                assert(self.grants()[i as int] == grant.key());
                return true;
            }
            i = i + 1;
        }
        false
    }

    /// Whether the policy grants `action` without confirmation.
    pub fn has_grant(&self, action: &PreparedAction) -> (granted: bool)
        ensures
            granted == self.grants_action(*action),
    {
        match self.process_key(action) {
            Some(grant) => self.contains(&grant),
            None => false,
        }
    }

    fn process_key(&self, action: &PreparedAction) -> (grant: Option<ProcessGrant>)
        ensures
            match action_key(*action, self.spec_version()) {
                Some(key) => grant matches Some(g) && g.key() == key,
                None => grant is None,
            },
    {
        match action.operation() {
            Operation::Process { executable, arguments, cwd, environment, .. } => {
                let environment = match environment {
                    Environment::Clean => EnvironmentKey::Clean,
                    Environment::Additions(values) => EnvironmentKey::Additions(copy_pairs(values)),
                };
                Some(
                    ProcessGrant {
                        policy_version: self.version,
                        command: action.command().to_owned(),
                        source_digest: action.source_digest_value(),
                        executable: copy_bytes(executable),
                        arguments: copy_strings(arguments),
                        cwd: copy_bytes(cwd),
                        environment,
                    },
                )
            },
            _ => None,
        }
    }
}

/// The result category of an authorization, or `None` when it is granted.
pub open spec fn authorize_error(
    ledger: LedgerView,
    deadline: u64,
    now: u64,
    bound: bool,
    granted: bool,
    decision: Decision,
) -> Option<ErrorCode> {
    let checked = check_outcome(ledger, deadline, now);
    if checked.1 is Some {
        checked.1
    } else if !bound {
        Some(ErrorCode::StateConflict)
    } else if !granted && decision != Decision::ApproveOnce {
        Some(ErrorCode::PermissionDenied)
    } else {
        None
    }
}

/// The broker authorizes a prepared action against host policy or a terminal decision.
pub struct Broker;

impl Broker {
    /// Return a one-use authorization for the unchanged action and context.
    pub fn authorize(
        action: PreparedAction,
        context: &mut ExecutionContext,
        policy: &Policy,
        decision: Decision,
        now: u64,
    ) -> (result: Result<ApprovedAction, KoruError>)
        requires
            old(context).wf(),
        ensures
            final(context).wf(),
            final(context).same_identity(*old(context)),
            final(context).ledger() == check_outcome(
                old(context).ledger(),
                old(context).spec_deadline(),
                now,
            ).0,
            match authorize_error(
                old(context).ledger(),
                old(context).spec_deadline(),
                now,
                action.bound_to(&*old(context)),
                policy.grants_action(action),
                decision,
            ) {
                Some(code) => result matches Err(e) && e.spec_code() == code,
                None => result matches Ok(approved) && approved.spec_action() == action
                    && !approved.spec_begun(),
            },
    {
        if let Err(error) = context.ensure_active(now) {
            return Err(error);
        }
        if !action.matches(context) {
            return Err(KoruError::new(ErrorCode::StateConflict, "action context changed"));
        }
        if !policy.has_grant(&action) && decision != Decision::ApproveOnce {
            return Err(
                KoruError::new(ErrorCode::PermissionDenied, "confirmation required for this action"),
            );
        }
        Ok(ApprovedAction { action, begun: false })
    }
}

/// A broker-issued, single-use authorization. It does not itself execute an effect.
pub struct ApprovedAction {
    action: PreparedAction,
    begun: bool,
}

/// One effect reservation.
pub open spec fn one_effect() -> Resources {
    Resources { effects: 1, ..no_resources() }
}

/// The outcome of starting an approved action: whether it is now used, the ledger,
/// and the error category, if any.
pub open spec fn begin_outcome(
    begun: bool,
    bound: bool,
    ledger: LedgerView,
    limits: crate::runtime::Limits,
    deadline: u64,
    now: u64,
) -> (bool, LedgerView, Option<ErrorCode>) {
    if begun || !bound {
        (begun, ledger, Some(ErrorCode::StateConflict))
    } else {
        let reserved = reserve_outcome(ledger, limits, deadline, one_effect(), now);
        (reserved.1 is None, reserved.0, reserved.1)
    }
}

impl ApprovedAction {
    /// The approved action.
    pub closed spec fn spec_action(&self) -> PreparedAction {
        self.action
    }

    /// Whether the authorization has been used.
    pub closed spec fn spec_begun(&self) -> bool {
        self.begun
    }

    /// The exact action approved; adapters must execute this object.
    pub fn action(&self) -> (action: &PreparedAction)
        ensures
            *action == self.spec_action(),
    {
        &self.action
    }

    /// Recheck context and reserve one effect immediately before dispatch.
    pub fn begin(&mut self, context: &mut ExecutionContext, now: u64) -> (result: Result<
        (),
        KoruError,
    >)
        requires
            old(context).wf(),
        ensures
            final(context).wf(),
            final(context).same_identity(*old(context)),
            final(self).spec_action() == old(self).spec_action(),
            ({
                let outcome = begin_outcome(
                    old(self).spec_begun(),
                    old(self).spec_action().bound_to(&*old(context)),
                    old(context).ledger(),
                    old(context).spec_limits(),
                    old(context).spec_deadline(),
                    now,
                );
                &&& final(self).spec_begun() == outcome.0
                &&& final(context).ledger() == outcome.1
                &&& match outcome.2 {
                    Some(code) => result matches Err(e) && e.spec_code() == code,
                    None => result is Ok,
                }
            }),
    {
        if self.begun || !self.action.matches(context) {
            return Err(
                KoruError::new(
                    ErrorCode::StateConflict,
                    "authorization already used or bound to another context",
                ),
            );
        }
        let request = Resources { effects: 1, ..Resources::zero() };
        if let Err(error) = context.reserve(request, now) {
            return Err(error);
        }
        self.begun = true;
        Ok(())
    }

    /// Give up the authorization and return the approved action.
    pub fn into_action(self) -> (action: PreparedAction)
        ensures
            action == self.spec_action(),
    {
        self.action
    }
}

/// An authorization is single use: once begun, every later start fails with a
/// state conflict and leaves the ledger untouched.
pub proof fn approvals_are_single_use(
    bound: bool,
    ledger: LedgerView,
    limits: crate::runtime::Limits,
    deadline: u64,
    first: u64,
    second: u64,
)
    requires
        begin_outcome(false, bound, ledger, limits, deadline, first).2 is None,
    ensures
        begin_outcome(false, bound, ledger, limits, deadline, first).0,
        ({
            let after = begin_outcome(false, bound, ledger, limits, deadline, first).1;
            begin_outcome(true, bound, after, limits, deadline, second) == (
                true,
                after,
                Some(ErrorCode::StateConflict),
            )
        }),
{
}

/// Without a stored grant, only an explicit one-time approval authorizes an action;
/// a denial is always refused.
pub proof fn denial_without_grant_is_refused(
    ledger: LedgerView,
    deadline: u64,
    now: u64,
    bound: bool,
)
    ensures
        authorize_error(ledger, deadline, now, bound, false, Decision::Deny) is Some,
{
}

/// Recording an exact process grant makes the same action authorized without
/// confirmation while the run is active and the action is bound to it.
pub proof fn recorded_grants_authorize_without_confirmation(
    grants: Seq<GrantKey>,
    key: GrantKey,
    ledger: LedgerView,
    deadline: u64,
    now: u64,
    decision: Decision,
)
    requires
        check_outcome(ledger, deadline, now).1 is None,
    ensures
        recorded(grants, key).contains(key),
        authorize_error(ledger, deadline, now, true, recorded(grants, key).contains(key), decision)
            is None,
{
    if !grants.contains(key) {
        assert(grants.push(key)[grants.len() as int] == key);
    }
}

} // verus!
