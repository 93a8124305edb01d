use koru::error::ErrorCode;
use koru::ids::IdSource;
use koru::permissions::{
    Broker, Decision, Environment, Operation, PathIdentity, Policy, PreparedAction, ResolvedPath,
    Seen,
};
use koru::runtime::{ExecutionContext, Limits, Resources, RunState};

fn context_from(ids: &mut IdSource, started: u64) -> ExecutionContext {
    ExecutionContext::new("deploy", [7u8; 32], Limits::default(), started, ids).unwrap()
}

fn context(started: u64) -> ExecutionContext {
    context_from(&mut IdSource::new(), started)
}

fn resolved(path: &str, inode: u64) -> ResolvedPath {
    ResolvedPath { path: path.as_bytes().to_vec(), identity: PathIdentity { device: 1, inode } }
}

fn requests(model_requests: u64) -> Resources {
    Resources { model_requests, ..Resources::zero() }
}

fn ls(context: &ExecutionContext, ids: &mut IdSource) -> PreparedAction {
    PreparedAction::process(
        context,
        ids,
        resolved("/bin/ls", 2),
        vec!["-l".to_owned()],
        resolved("/work", 3),
        Environment::Clean,
    )
    .unwrap()
}

#[test]
fn contexts_validate_limits_and_deadlines() {
    let ctx = context(1000);
    assert_eq!(ctx.deadline(), 601_000);
    assert_eq!(ctx.command(), "deploy");
    assert_eq!(ctx.run_id(), 1);
    assert_eq!(ctx.source_digest(), [7u8; 32]);
    assert_eq!(ctx.state(), RunState::Active);
    assert_eq!(ctx.usage(), Resources::zero());
    let generous = Limits { model_requests: 33, ..Limits::default() };
    assert_eq!(
        ExecutionContext::new("deploy", [0; 32], generous, 0, &mut IdSource::new()).err().unwrap().code(),
        ErrorCode::Validation
    );
    assert_eq!(
        ExecutionContext::new("deploy", [0; 32], Limits::default(), u64::MAX, &mut IdSource::new()).err().unwrap().code(),
        ErrorCode::Validation
    );
}

#[test]
fn reservations_stop_at_the_limit_and_stay_terminal() {
    let mut ctx = context(0);
    ctx.reserve(requests(30), 1).unwrap();
    ctx.reserve(requests(2), 2).unwrap();
    assert_eq!(ctx.usage().model_requests, 32);
    assert_eq!(ctx.reserve(requests(1), 3).unwrap_err().code(), ErrorCode::BudgetExhausted);
    assert_eq!(ctx.state(), RunState::Exhausted);
    assert_eq!(ctx.usage().model_requests, 32);
    assert_eq!(ctx.reserve(Resources::zero(), 4).unwrap_err().code(), ErrorCode::BudgetExhausted);
    ctx.cancel();
    assert_eq!(ctx.state(), RunState::Exhausted);
}

#[test]
fn the_deadline_ends_an_active_run() {
    let mut ctx = context(0);
    ctx.ensure_active(599_999).unwrap();
    assert_eq!(ctx.ensure_active(600_000).unwrap_err().code(), ErrorCode::Timeout);
    assert_eq!(ctx.state(), RunState::TimedOut);
    assert_eq!(ctx.reserve(Resources::zero(), 1).unwrap_err().code(), ErrorCode::Timeout);
}

#[test]
fn cancellation_is_observed() {
    let mut ctx = context(0);
    ctx.cancel();
    assert_eq!(ctx.state(), RunState::Cancelled);
    assert_eq!(ctx.ensure_active(1).unwrap_err().code(), ErrorCode::Cancelled);
}

#[test]
fn prepared_processes_are_bounded() {
    let mut ids = IdSource::new();
    let ctx = context_from(&mut ids, 0);
    let first = ls(&ctx, &mut ids);
    let action = ls(&ctx, &mut ids);
    assert_eq!(first.id(), 2);
    assert_eq!(action.id(), 3);
    assert_eq!(action.command(), "deploy");
    assert!(action.matches(&ctx));
    assert!(matches!(action.operation(), Operation::Process { .. }));
    let too_many = vec!["x".to_owned(); 65];
    assert_eq!(
        PreparedAction::check_process(&too_many, &Environment::Clean).unwrap_err().code(),
        ErrorCode::BudgetExhausted
    );
    let nul = vec!["a\0b".to_owned()];
    assert_eq!(
        PreparedAction::check_process(&nul, &Environment::Clean).unwrap_err().code(),
        ErrorCode::Validation
    );
    assert_eq!(PreparedAction::check_shell("echo\0").unwrap_err().code(), ErrorCode::Validation);
    assert!(PreparedAction::check_shell("echo hi").is_ok());
    let other = context_from(&mut ids, 0);
    assert_ne!(other.run_id(), ctx.run_id());
    assert!(!action.matches(&other));
}

#[test]
fn approvals_are_single_use() {
    let mut ids = IdSource::new();
    let mut ctx = context_from(&mut ids, 0);
    let policy = Policy::new(1).unwrap();
    let mut approved = Broker::authorize(ls(&ctx, &mut ids), &mut ctx, &policy, Decision::ApproveOnce, 5).unwrap();
    approved.begin(&mut ctx, 6).unwrap();
    assert_eq!(ctx.usage().effects, 1);
    assert_eq!(approved.begin(&mut ctx, 7).unwrap_err().code(), ErrorCode::StateConflict);
    assert_eq!(ctx.usage().effects, 1);
}

#[test]
fn denial_without_a_grant_is_refused_and_grants_authorize() {
    let mut ids = IdSource::new();
    let mut ctx = context_from(&mut ids, 0);
    let mut policy = Policy::new(3).unwrap();
    let error = Broker::authorize(ls(&ctx, &mut ids), &mut ctx, &policy, Decision::Deny, 1).err().unwrap();
    assert_eq!(error.code(), ErrorCode::PermissionDenied);
    let action = ls(&ctx, &mut ids);
    assert!(!policy.has_grant(&action));
    policy.grant_exact_process(&action, &ctx).unwrap();
    assert!(policy.has_grant(&action));
    assert!(Broker::authorize(ls(&ctx, &mut ids), &mut ctx, &policy, Decision::Deny, 2).is_ok());
    assert_eq!(Policy::new(0).err().unwrap().code(), ErrorCode::Validation);
}

#[test]
fn authorization_checks_the_context() {
    let mut ids = IdSource::new();
    let mut ctx = context_from(&mut ids, 0);
    let policy = Policy::new(1).unwrap();
    let mut other = ExecutionContext::new("other", [7u8; 32], Limits::default(), 0, &mut ids).unwrap();
    let error = Broker::authorize(ls(&ctx, &mut ids), &mut other, &policy, Decision::ApproveOnce, 1).err().unwrap();
    assert_eq!(error.code(), ErrorCode::StateConflict);
    let error = Broker::authorize(ls(&ctx, &mut ids), &mut ctx, &policy, Decision::ApproveOnce, 600_000).err().unwrap();
    assert_eq!(error.code(), ErrorCode::Timeout);
}

#[test]
fn revalidation_compares_fresh_observations() {
    let run = context(0);
    let identity = PathIdentity { device: 1, inode: 2 };
    let action = PreparedAction::file_read(
        &run,
        &mut IdSource::new(),
        ResolvedPath { path: b"/data/file".to_vec(), identity },
    );
    assert_eq!(action.watched_paths(), vec![b"/data/file".to_vec()]);
    assert!(action.revalidate(&vec![Seen::Present(identity)]).is_ok());
    let moved = PathIdentity { device: 1, inode: 3 };
    assert_eq!(
        action.revalidate(&vec![Seen::Present(moved)]).unwrap_err().code(),
        ErrorCode::StateConflict
    );
    assert!(action.revalidate(&vec![Seen::Missing]).is_err());
    assert!(action.revalidate(&vec![Seen::Unreadable]).is_err());
    assert!(action.revalidate(&Vec::new()).is_err());
}
