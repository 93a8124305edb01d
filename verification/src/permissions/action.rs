//! Immutable effect descriptions; preview and executor receive the same value.
//!
//! Paths are carried as their raw encoded bytes together with the device/inode
//! identity observed when the adapter resolved them; resolving and re-checking
//! them against the filesystem is the adapter's job.
use crate::error::{ErrorCode, KoruError};
use crate::ids::IdSource;
use crate::runtime::ExecutionContext;
use crate::text::{contains_char, digest_eq, str_eq};
use vstd::prelude::*;

verus! {

/// Largest accepted file write, shell script, or total argument text.
pub const MAX_ACTION_BYTES: usize = 65536;
/// Most arguments accepted for one direct process.
pub const MAX_ARGUMENTS: usize = 64;
/// Most environment additions accepted for one direct process.
pub const MAX_ENV_ADDITIONS: usize = 32;

/// Child environment policy; provider credentials are never inherited implicitly.
#[derive(Debug, Clone, PartialEq, Eq)]
pub enum Environment {
    /// A minimal, adapter-owned environment.
    Clean,
    /// A minimal environment plus reviewed exact key/value additions, ordered by key.
    Additions(Vec<(String, String)>),
}

/// The device and inode of a resolved path.
#[derive(Debug, Clone, Copy, PartialEq, Eq, Structural)]
pub struct PathIdentity {
    /// Device number.
    pub device: u64,
    /// Inode number.
    pub inode: u64,
}

/// A canonical path, as raw bytes, with the identity observed when it was resolved.
#[derive(Debug, Clone)]
pub struct ResolvedPath {
    /// Raw bytes of the canonical path.
    pub path: Vec<u8>,
    /// Identity of the file system object.
    pub identity: PathIdentity,
}

/// One prepared operation.
#[derive(Debug, Clone)]
pub enum Operation {
    /// An exact direct-process invocation.
    Process {
        executable: Vec<u8>,
        executable_identity: PathIdentity,
        arguments: Vec<String>,
        cwd: Vec<u8>,
        cwd_identity: PathIdentity,
        environment: Environment,
    },
    /// Exact shell text for a fixed shell.
    Shell {
        executable: Vec<u8>,
        executable_identity: PathIdentity,
        script: String,
        cwd: Vec<u8>,
        cwd_identity: PathIdentity,
    },
    /// A bounded file read.
    FileRead { path: Vec<u8>, identity: PathIdentity },
    /// A write of exact reviewed bytes.
    FileWrite {
        path: Vec<u8>,
        parent: Vec<u8>,
        parent_identity: PathIdentity,
        expected: Option<PathIdentity>,
        bytes: Vec<u8>,
    },
    /// A bounded directory listing.
    DirectoryList { path: Vec<u8>, identity: PathIdentity },
}

/// An immutable operation bound to one execution context and unique action ID.
#[derive(Debug)]
pub struct PreparedAction {
    pub(crate) id: u64,
    pub(crate) run_id: u64,
    pub(crate) command: String,
    pub(crate) source_digest: [u8; 32],
    pub(crate) operation: Operation,
}

/// The UTF-8 byte length of a character sequence, as `str::len` reports it.
pub open spec fn utf8_len(text: Seq<char>) -> nat {
    vstd::utf8::encode_utf8(text).len() as usize as nat
}

/// The total UTF-8 length of a list of strings.
pub open spec fn total_len(values: Seq<Seq<char>>) -> nat
    decreases values.len(),
{
    if values.len() == 0 {
        0
    } else {
        total_len(values.drop_last()) + utf8_len(values.last())
    }
}

/// The total UTF-8 length of the keys and values of a list of pairs.
pub open spec fn total_pair_len(values: Seq<(Seq<char>, Seq<char>)>) -> nat
    decreases values.len(),
{
    if values.len() == 0 {
        0
    } else {
        total_pair_len(values.drop_last()) + utf8_len(values.last().0) + utf8_len(
            values.last().1,
        )
    }
}

/// A length, saturated just past the action byte limit.
pub open spec fn capped(n: nat) -> int {
    if n > MAX_ACTION_BYTES {
        MAX_ACTION_BYTES + 1
    } else {
        n as int
    }
}

/// The views of a list of strings.
pub open spec fn strings_view(values: Seq<String>) -> Seq<Seq<char>> {
    values.map_values(|value: String| value@)
}

/// The views of a list of string pairs.
pub open spec fn pairs_view(values: Seq<(String, String)>) -> Seq<(Seq<char>, Seq<char>)> {
    values.map_values(|pair: (String, String)| (pair.0@, pair.1@))
}

/// Whether `text` starts with `prefix`.
pub open spec fn starts_with(text: Seq<char>, prefix: Seq<char>) -> bool {
    prefix.len() <= text.len() && text.subrange(0, prefix.len() as int) == prefix
}

/// Whether `text` ends with `suffix`.
pub open spec fn ends_with(text: Seq<char>, suffix: Seq<char>) -> bool {
    suffix.len() <= text.len() && text.subrange(text.len() - suffix.len(), text.len() as int)
        == suffix
}

/// Whether one environment addition is well formed and not reserved.
pub open spec fn addition_malformed(key: Seq<char>, value: Seq<char>) -> bool {
    key.len() == 0 || key.contains('=') || key.contains('\0') || value.contains('\0')
}

/// Whether one environment name is reserved for Koru or provider credentials.
pub open spec fn addition_reserved(key: Seq<char>) -> bool {
    starts_with(key, "KORU_"@) || ends_with(key, "_API_KEY"@)
}

/// The first failing check of the environment additions, scanning in order.
pub open spec fn additions_error(values: Seq<(Seq<char>, Seq<char>)>) -> Option<ErrorCode>
    decreases values.len(),
{
    if values.len() == 0 {
        None
    } else if addition_malformed(values[0].0, values[0].1) || addition_reserved(values[0].0) {
        Some(ErrorCode::Validation)
    } else {
        additions_error(values.drop_first())
    }
}

/// The error category of a direct-process request, checked before any path is resolved.
pub open spec fn process_request_error(arguments: Seq<Seq<char>>, environment: Environment) -> Option<
    ErrorCode,
> {
    if arguments.len() > MAX_ARGUMENTS || total_len(arguments) > MAX_ACTION_BYTES {
        Some(ErrorCode::BudgetExhausted)
    } else if exists|i: int| 0 <= i < arguments.len() && #[trigger] arguments[i].contains('\0') {
        Some(ErrorCode::Validation)
    } else {
        match environment {
            Environment::Clean => None,
            Environment::Additions(values) => {
                let pairs = pairs_view(values@);
                if pairs.len() > MAX_ENV_ADDITIONS || total_pair_len(pairs) > MAX_ACTION_BYTES {
                    Some(ErrorCode::BudgetExhausted)
                } else {
                    additions_error(pairs)
                }
            },
        }
    }
}

/// The error category of a shell request, checked before any path is resolved.
pub open spec fn shell_request_error(script: Seq<char>) -> Option<ErrorCode> {
    if utf8_len(script) > MAX_ACTION_BYTES {
        Some(ErrorCode::BudgetExhausted)
    } else if script.contains('\0') {
        Some(ErrorCode::Validation)
    } else {
        None
    }
}

/// Whether a result fails exactly with the given optional category.
pub open spec fn unit_result_is(result: Result<(), KoruError>, error: Option<ErrorCode>) -> bool {
    match error {
        None => result is Ok,
        Some(code) => result matches Err(e) && e.spec_code() == code,
    }
}

fn string_total_len(values: &Vec<String>) -> (total: usize)
    ensures
        total == capped(total_len(strings_view(values@))),
{
    let mut total: usize = 0;
    let mut i: usize = 0;
    while i < values.len()
        invariant
            i <= values@.len(),
            total <= MAX_ACTION_BYTES + 1,
            total == capped(total_len(strings_view(values@.subrange(0, i as int)))),
        decreases values@.len() - i,
    {
        let len = values[i].as_str().len();
        assert(strings_view(values@.subrange(0, i + 1)).drop_last() == strings_view(
            values@.subrange(0, i as int),
        ));
        assert(strings_view(values@.subrange(0, i + 1)).last() == values@[i as int]@);
        assert(len == utf8_len(values@[i as int]@));
        if total > MAX_ACTION_BYTES || len > MAX_ACTION_BYTES - total {
            total = MAX_ACTION_BYTES + 1;
        } else {
            total = total + len;
        }
        i = i + 1;
    }
    assert(values@.subrange(0, values@.len() as int) == values@);
    total
}

fn pair_total_len(values: &Vec<(String, String)>) -> (total: usize)
    ensures
        total == capped(total_pair_len(pairs_view(values@))),
{
    let mut total: usize = 0;
    let mut i: usize = 0;
    while i < values.len()
        invariant
            i <= values@.len(),
            total <= MAX_ACTION_BYTES + 1,
            total == capped(total_pair_len(pairs_view(values@.subrange(0, i as int)))),
        decreases values@.len() - i,
    {
        let key_len = values[i].0.as_str().len();
        let value_len = values[i].1.as_str().len();
        assert(pairs_view(values@.subrange(0, i + 1)).drop_last() == pairs_view(
            values@.subrange(0, i as int),
        ));
        assert(pairs_view(values@.subrange(0, i + 1)).last() == (values@[i as int].0@, values@[i as int].1@));
        assert(key_len == utf8_len(values@[i as int].0@));
        assert(value_len == utf8_len(values@[i as int].1@));
        if total > MAX_ACTION_BYTES || key_len > MAX_ACTION_BYTES - total || value_len
            > MAX_ACTION_BYTES - total - key_len {
            total = MAX_ACTION_BYTES + 1;
        } else {
            total = total + key_len + value_len;
        }
        i = i + 1;
    }
    assert(values@.subrange(0, values@.len() as int) == values@);
    total
}

fn starts_with_text(text: &str, prefix: &str) -> (found: bool)
    ensures
        found == starts_with(text@, prefix@),
{
    let t = crate::text::chars_of(text);
    let p = crate::text::chars_of(prefix);
    if p.len() > t.len() {
        return false;
    }
    let mut i: usize = 0;
    while i < p.len()
        invariant
            i <= p@.len() <= t@.len(),
            t@ == text@,
            p@ == prefix@,
            forall|j: int| 0 <= j < i ==> t@[j] == p@[j],
        decreases p@.len() - i,
    {
        if t[i] != p[i] {
            return false;
        }
        i = i + 1;
    }
    assert(text@.subrange(0, prefix@.len() as int) =~= prefix@);
    true
}

fn ends_with_text(text: &str, suffix: &str) -> (found: bool)
    ensures
        found == ends_with(text@, suffix@),
{
    let t = crate::text::chars_of(text);
    let s = crate::text::chars_of(suffix);
    if s.len() > t.len() {
        return false;
    }
    let offset = t.len() - s.len();
    let mut i: usize = offset;
    while i < t.len()
        invariant
            offset <= i <= t@.len(),
            offset + s@.len() == t@.len(),
            t@ == text@,
            s@ == suffix@,
            forall|j: int| offset <= j < i ==> t@[j] == s@[j - offset],
        decreases t@.len() - i,
    {
        if t[i] != s[i - offset] {
            return false;
        }
        i = i + 1;
    }
    assert(text@.subrange(offset as int, text@.len() as int) =~= suffix@);
    true
}

impl PreparedAction {
    /// The checks of a direct-process request that precede path resolution.
    pub fn check_process(arguments: &Vec<String>, environment: &Environment) -> (result: Result<
        (),
        KoruError,
    >)
        ensures
            unit_result_is(result, process_request_error(strings_view(arguments@), *environment)),
    {
        let ghost args = strings_view(arguments@);
        if arguments.len() > MAX_ARGUMENTS || string_total_len(arguments) > MAX_ACTION_BYTES {
            return Err(
                KoruError::new(
                    ErrorCode::BudgetExhausted,
                    "process arguments exceed preparation limits",
                ),
            );
        }
        let mut i: usize = 0;
        while i < arguments.len()
            invariant
                i <= arguments@.len(),
                args == strings_view(arguments@),
                args.len() == arguments@.len(),
                !(args.len() > MAX_ARGUMENTS || total_len(args) > MAX_ACTION_BYTES),
                forall|j: int| 0 <= j < i ==> !(#[trigger] args[j]).contains('\0'),
            decreases arguments@.len() - i,
        {
            assert(args[i as int] == arguments@[i as int]@);
            if contains_char(arguments[i].as_str(), '\0') {
                assert(args[i as int].contains('\0'));
                assert(args.len() == arguments@.len());
                assert(!(args.len() > MAX_ARGUMENTS || total_len(args) > MAX_ACTION_BYTES));
                assert(exists|j: int| 0 <= j < args.len() && #[trigger] args[j].contains('\0'));
                return Err(KoruError::new(ErrorCode::Validation, "process argument contains NUL"));
            }
            i = i + 1;
        }
        if let Environment::Additions(values) = environment {
            let ghost pairs = pairs_view(values@);
            if values.len() > MAX_ENV_ADDITIONS || pair_total_len(values) > MAX_ACTION_BYTES {
                return Err(
                    KoruError::new(
                        ErrorCode::BudgetExhausted,
                        "environment additions exceed preparation limits",
                    ),
                );
            }
            let mut k: usize = 0;
            assert(pairs.subrange(0, pairs.len() as int) == pairs);
            assert(process_request_error(args, *environment) == additions_error(pairs));
            while k < values.len()
                invariant
                    k <= values@.len(),
                    pairs == pairs_view(values@),
                    *environment == Environment::Additions(*values),
                    args == strings_view(arguments@),
                    process_request_error(args, *environment) == additions_error(pairs),
                    additions_error(pairs) == additions_error(pairs.subrange(k as int, pairs.len() as int)),
                decreases values@.len() - k,
            {
                let key = values[k].0.as_str();
                let value = values[k].1.as_str();
                assert(pairs[k as int] == (key@, value@));
                assert(pairs.subrange(k as int, pairs.len() as int)[0] == pairs[k as int]);
                assert(pairs.subrange(k as int, pairs.len() as int).drop_first() == pairs.subrange(
                    k + 1,
                    pairs.len() as int,
                ));
                if key.is_empty() || contains_char(key, '=') || contains_char(key, '\0')
                    || contains_char(value, '\0') {
                    return Err(KoruError::new(ErrorCode::Validation, "invalid environment addition"));
                }
                if starts_with_text(key, "KORU_") || ends_with_text(key, "_API_KEY") {
                    return Err(
                        KoruError::new(
                            ErrorCode::Validation,
                            "internal or provider credential environment names are reserved",
                        ),
                    );
                }
                k = k + 1;
            }
            assert(pairs.subrange(pairs.len() as int, pairs.len() as int).len() == 0);
        }
        Ok(())
    }
}


impl PreparedAction {
    /// Identifier unique within the process.
    pub closed spec fn spec_id(&self) -> u64 {
        self.id
    }

    /// Identity of the run the action was prepared in.
    pub closed spec fn spec_run_id(&self) -> u64 {
        self.run_id
    }

    /// Command the action was prepared for.
    pub closed spec fn spec_command(&self) -> Seq<char> {
        self.command@
    }

    /// Captured source digest the action was prepared under.
    pub closed spec fn spec_source_digest(&self) -> Seq<u8> {
        self.source_digest@
    }

    /// The prepared operation.
    pub closed spec fn spec_operation(&self) -> Operation {
        self.operation
    }

    /// Whether this action is bound to the run identity of `context`.
    pub open spec fn bound_to(&self, context: &ExecutionContext) -> bool {
        &&& self.spec_run_id() == context.spec_run_id()
        &&& self.spec_command() == context.spec_command()
        &&& self.spec_source_digest() == context.spec_source_digest()
    }

    /// Whether an action was built for `context` with this identifier and operation.
    pub open spec fn prepared(&self, context: &ExecutionContext, id: u64, operation: Operation) -> bool {
        &&& self.bound_to(context)
        &&& self.spec_id() == id
        &&& self.spec_operation() == operation
    }

    fn new(context: &ExecutionContext, ids: &mut IdSource, operation: Operation) -> (action: Self)
        requires
            old(ids).spec_next() < u64::MAX,
        ensures
            action.prepared(context, old(ids).spec_next(), operation),
            final(ids).spec_next() == old(ids).spec_next() + 1,
    {
        let id = ids.take();
        PreparedAction {
            id,
            run_id: context.run_id(),
            command: context.command().to_owned(),
            source_digest: context.source_digest(),
            operation,
        }
    }

    /// Prepare a bounded data-file read of a resolved path.
    pub fn file_read(context: &ExecutionContext, ids: &mut IdSource, path: ResolvedPath) -> (action: Self)
        requires
            old(ids).spec_next() < u64::MAX,
        ensures
            final(ids).spec_next() == old(ids).spec_next() + 1,
            action.prepared(
                context,
                old(ids).spec_next(),
                Operation::FileRead { path: path.path, identity: path.identity },
            ),
    {
        Self::new(context, ids, Operation::FileRead { path: path.path, identity: path.identity })
    }

    /// The check of a data-file write that precedes path resolution.
    pub fn check_file_write(bytes: &Vec<u8>) -> (result: Result<(), KoruError>)
        ensures
            unit_result_is(
                result,
                if bytes@.len() > MAX_ACTION_BYTES {
                    Some(ErrorCode::BudgetExhausted)
                } else {
                    None
                },
            ),
    {
        if bytes.len() > MAX_ACTION_BYTES {
            return Err(
                KoruError::new(ErrorCode::BudgetExhausted, "file write exceeds preparation limit"),
            );
        }
        Ok(())
    }

    /// Prepare a data-file write of exact reviewed bytes into a resolved parent directory.
    ///
    /// `expected` is the identity of the existing regular file at `path`, if any.
    pub fn file_write(
        context: &ExecutionContext,
        ids: &mut IdSource,
        path: Vec<u8>,
        parent: ResolvedPath,
        expected: Option<PathIdentity>,
        bytes: Vec<u8>,
    ) -> (result: Result<Self, KoruError>)
        requires
            old(ids).spec_next() < u64::MAX,
        ensures
            result is Ok ==> final(ids).spec_next() == old(ids).spec_next() + 1,
            result is Err ==> final(ids).spec_next() == old(ids).spec_next(),
            bytes@.len() > MAX_ACTION_BYTES ==> (result matches Err(e) && e.spec_code()
                == ErrorCode::BudgetExhausted),
            bytes@.len() <= MAX_ACTION_BYTES ==> (result matches Ok(action) && action.prepared(
                context,
                old(ids).spec_next(),
                Operation::FileWrite {
                    path,
                    parent: parent.path,
                    parent_identity: parent.identity,
                    expected,
                    bytes,
                },
            )),
    {
        if let Err(error) = Self::check_file_write(&bytes) {
            return Err(error);
        }
        Ok(
            Self::new(
                context,
                ids,
                Operation::FileWrite {
                    path,
                    parent: parent.path,
                    parent_identity: parent.identity,
                    expected,
                    bytes,
                },
            ),
        )
    }

    /// Prepare a bounded directory listing of a resolved path.
    pub fn directory_list(context: &ExecutionContext, ids: &mut IdSource, path: ResolvedPath) -> (action: Self)
        requires
            old(ids).spec_next() < u64::MAX,
        ensures
            final(ids).spec_next() == old(ids).spec_next() + 1,
            action.prepared(
                context,
                old(ids).spec_next(),
                Operation::DirectoryList { path: path.path, identity: path.identity },
            ),
    {
        Self::new(
            context,
            ids,
            Operation::DirectoryList { path: path.path, identity: path.identity },
        )
    }

    /// Prepare an exact direct-process invocation of resolved paths; does not execute it.
    pub fn process(
        context: &ExecutionContext,
        ids: &mut IdSource,
        executable: ResolvedPath,
        arguments: Vec<String>,
        cwd: ResolvedPath,
        environment: Environment,
    ) -> (result: Result<Self, KoruError>)
        requires
            old(ids).spec_next() < u64::MAX,
        ensures
            result is Ok ==> final(ids).spec_next() == old(ids).spec_next() + 1,
            result is Err ==> final(ids).spec_next() == old(ids).spec_next(),
            match process_request_error(strings_view(arguments@), environment) {
                Some(code) => result matches Err(e) && e.spec_code() == code,
                None => result matches Ok(action) && action.prepared(
                    context,
                    old(ids).spec_next(),
                    Operation::Process {
                        executable: executable.path,
                        executable_identity: executable.identity,
                        arguments,
                        cwd: cwd.path,
                        cwd_identity: cwd.identity,
                        environment,
                    },
                ),
            },
    {
        if let Err(error) = Self::check_process(&arguments, &environment) {
            return Err(error);
        }
        Ok(
            Self::new(
                context,
                ids,
                Operation::Process {
                    executable: executable.path,
                    executable_identity: executable.identity,
                    arguments,
                    cwd: cwd.path,
                    cwd_identity: cwd.identity,
                    environment,
                },
            ),
        )
    }

    /// The checks of a shell request that precede path resolution.
    pub fn check_shell(script: &str) -> (result: Result<(), KoruError>)
        ensures
            unit_result_is(result, shell_request_error(script@)),
    {
        if script.len() > MAX_ACTION_BYTES {
            return Err(
                KoruError::new(ErrorCode::BudgetExhausted, "shell script exceeds preparation limit"),
            );
        }
        if contains_char(script, '\0') {
            return Err(KoruError::new(ErrorCode::Validation, "shell script contains NUL"));
        }
        Ok(())
    }

    /// Prepare exact shell text for a fixed configured shell; never exempted.
    pub fn shell(
        context: &ExecutionContext,
        ids: &mut IdSource,
        executable: ResolvedPath,
        script: String,
        cwd: ResolvedPath,
    ) -> (result: Result<Self, KoruError>)
        requires
            old(ids).spec_next() < u64::MAX,
        ensures
            result is Ok ==> final(ids).spec_next() == old(ids).spec_next() + 1,
            result is Err ==> final(ids).spec_next() == old(ids).spec_next(),
            match shell_request_error(script@) {
                Some(code) => result matches Err(e) && e.spec_code() == code,
                None => result matches Ok(action) && action.prepared(
                    context,
                    old(ids).spec_next(),
                    Operation::Shell {
                        executable: executable.path,
                        executable_identity: executable.identity,
                        script,
                        cwd: cwd.path,
                        cwd_identity: cwd.identity,
                    },
                ),
            },
    {
        if let Err(error) = Self::check_shell(script.as_str()) {
            return Err(error);
        }
        Ok(
            Self::new(
                context,
                ids,
                Operation::Shell {
                    executable: executable.path,
                    executable_identity: executable.identity,
                    script,
                    cwd: cwd.path,
                    cwd_identity: cwd.identity,
                },
            ),
        )
    }

    /// The captured source digest bound to this action.
    pub fn source_digest_value(&self) -> (digest: [u8; 32])
        ensures
            digest@ == self.spec_source_digest(),
    {
        self.source_digest
    }

    /// Unique identifier within this process.
    pub fn id(&self) -> (id: u64)
        ensures
            id == self.spec_id(),
    {
        self.id
    }

    /// Command name bound to this prepared effect.
    pub fn command(&self) -> (command: &str)
        ensures
            command@ == self.spec_command(),
    {
        self.command.as_str()
    }

    /// The prepared operation.
    pub fn operation(&self) -> (operation: &Operation)
        ensures
            *operation == self.spec_operation(),
    {
        &self.operation
    }

    /// Whether this action still belongs to the run identity of `context`.
    pub fn matches(&self, context: &ExecutionContext) -> (bound: bool)
        ensures
            bound == self.bound_to(context),
    {
        let digest = context.source_digest();
        self.run_id == context.run_id() && str_eq(self.command.as_str(), context.command())
            && digest_eq(&self.source_digest, &digest)
    }
}


/// What the file system shows now at a watched path.
#[derive(Debug, Clone, Copy, PartialEq, Eq, Structural)]
pub enum Seen {
    /// An object with this identity.
    Present(PathIdentity),
    /// Nothing: the path does not exist.
    Missing,
    /// The path could not be inspected.
    Unreadable,
}

/// The paths an operation depends on, each with the identity it must still
/// have, or `None` where nothing may exist yet.
pub open spec fn watch_list(op: Operation) -> Seq<(Seq<u8>, Option<PathIdentity>)> {
    match op {
        Operation::Process { executable, executable_identity, cwd, cwd_identity, .. } => seq![
            (executable@, Some(executable_identity)),
            (cwd@, Some(cwd_identity)),
        ],
        Operation::Shell { executable, executable_identity, cwd, cwd_identity, .. } => seq![
            (executable@, Some(executable_identity)),
            (cwd@, Some(cwd_identity)),
        ],
        Operation::FileRead { path, identity } => seq![(path@, Some(identity))],
        Operation::DirectoryList { path, identity } => seq![(path@, Some(identity))],
        Operation::FileWrite { path, parent, parent_identity, expected, .. } => seq![
            (parent@, Some(parent_identity)),
            (path@, expected),
        ],
    }
}

/// What is seen agrees, path by path, with what was prepared.
pub open spec fn unchanged(watch: Seq<(Seq<u8>, Option<PathIdentity>)>, seen: Seq<Seen>) -> bool {
    &&& seen.len() == watch.len()
    &&& forall|k: int|
        0 <= k < watch.len() ==> match (#[trigger] watch[k]).1 {
            Some(id) => seen[k] == Seen::Present(id),
            None => seen[k] == Seen::Missing,
        }
}

/// The state conflict of a target that changed after preparation.
fn target_changed() -> (error: KoruError)
    ensures
        error.spec_code() == ErrorCode::StateConflict,
{
    KoruError::new(ErrorCode::StateConflict, "prepared action target changed")
}

/// Whether one observation agrees with its expectation.
fn seen_as_expected(seen: Seen, expected: Option<PathIdentity>) -> (ok: bool)
    ensures
        ok == match expected {
            Some(id) => seen == Seen::Present(id),
            None => seen == Seen::Missing,
        },
{
    match (seen, expected) {
        (Seen::Present(now), Some(id)) => now == id,
        (Seen::Missing, None) => true,
        _ => false,
    }
}

impl PreparedAction {
    /// The paths to observe again before the action runs, in order.
    pub fn watched_paths(&self) -> (paths: Vec<Vec<u8>>)
        ensures
            paths@.len() == watch_list(self.spec_operation()).len(),
            forall|k: int|
                0 <= k < paths@.len() ==> (#[trigger] paths@[k])@ == watch_list(
                    self.spec_operation(),
                )[k].0,
    {
        let mut paths: Vec<Vec<u8>> = Vec::new();
        match &self.operation {
            Operation::Process { executable, cwd, .. } | Operation::Shell { executable, cwd, .. } => {
                paths.push(crate::text::copy_bytes(executable));
                paths.push(crate::text::copy_bytes(cwd));
            },
            Operation::FileRead { path, .. } | Operation::DirectoryList { path, .. } => {
                paths.push(crate::text::copy_bytes(path));
            },
            Operation::FileWrite { path, parent, .. } => {
                paths.push(crate::text::copy_bytes(parent));
                paths.push(crate::text::copy_bytes(path));
            },
        }
        paths
    }

    /// Fail with a state conflict unless every watched path, observed again
    /// in the order of [`PreparedAction::watched_paths`], still shows what was
    /// prepared.
    pub fn revalidate(&self, seen: &Vec<Seen>) -> (result: Result<(), KoruError>)
        ensures
            result is Ok == unchanged(watch_list(self.spec_operation()), seen@),
            result matches Err(e) ==> e.spec_code() == ErrorCode::StateConflict,
    {
        let ok = match &self.operation {
            Operation::Process { executable_identity, cwd_identity, .. }
            | Operation::Shell { executable_identity, cwd_identity, .. } => {
                seen.len() == 2 && seen_as_expected(seen[0], Some(*executable_identity))
                    && seen_as_expected(seen[1], Some(*cwd_identity))
            },
            Operation::FileRead { identity, .. } | Operation::DirectoryList { identity, .. } => {
                seen.len() == 1 && seen_as_expected(seen[0], Some(*identity))
            },
            Operation::FileWrite { parent_identity, expected, .. } => {
                seen.len() == 2 && seen_as_expected(seen[0], Some(*parent_identity))
                    && seen_as_expected(seen[1], *expected)
            },
        };
        proof {
            let watch = watch_list(self.spec_operation());
            if ok {
                assert forall|k: int| 0 <= k < watch.len() implies match (#[trigger] watch[k]).1 {
                    Some(id) => seen@[k] == Seen::Present(id),
                    None => seen@[k] == Seen::Missing,
                } by {
                    if k == 1 {
                    }
                }
            } else if seen@.len() == watch.len() {
                assert(!unchanged(watch, seen@)) by {
                    if unchanged(watch, seen@) {
                        assert(watch[0].1 is Some);
                        if watch.len() == 2 {
                            let w1 = watch[1];
                        }
                    }
                }
            }
        }
        if ok {
            Ok(())
        } else {
            Err(target_changed())
        }
    }
}

} // verus!
