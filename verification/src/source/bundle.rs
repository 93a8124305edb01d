//! Capture source bytes and a transitive declared module DAG before execution.
//!
//! The application reads files; the checks on what it read, the traversal
//! decisions, and the bundle digest live here.
use super::names::{is_identifier, is_module_name};
use super::reader::{declared_modules, parse_directives, string_texts};
use crate::error::{ErrorCode, KoruError};
use crate::hash::{hex_text, sha256, sha256_of};
use crate::json::parse::{key_lt, utf8_text};
use crate::paths::{ascii_bytes, join};
use crate::text::{push_str, str_eq};
use vstd::prelude::*;

verus! {

broadcast use vstd::string::group_string_axioms;

/// Bounds for source capture; values are intentionally conservative prototypes.
#[derive(Debug, Clone, Copy, PartialEq, Eq, Structural)]
pub struct SourceLimits {
    /// Maximum bytes in one command or module.
    pub max_file_bytes: usize,
    /// Maximum bytes in the whole captured bundle.
    pub max_total_bytes: usize,
    /// Maximum number of modules.
    pub max_modules: usize,
    /// Maximum transitive dependency depth, with the entry at depth zero.
    pub max_depth: usize,
}

/// The default and hard-ceiling source limits.
pub open spec fn source_ceilings() -> SourceLimits {
    SourceLimits {
        max_file_bytes: 262_144,
        max_total_bytes: 1_048_576,
        max_modules: 32,
        max_depth: 16,
    }
}

/// Limits that stay within the hard ceilings.
pub open spec fn limits_ok(limits: SourceLimits) -> bool {
    let c = source_ceilings();
    &&& 0 < limits.max_file_bytes <= c.max_file_bytes
    &&& 0 < limits.max_total_bytes <= c.max_total_bytes
    &&& limits.max_modules <= c.max_modules
    &&& limits.max_depth <= c.max_depth
}

impl Default for SourceLimits {
    fn default() -> (limits: Self)
        ensures
            limits == source_ceilings(),
    {
        SourceLimits {
            max_file_bytes: 262_144,
            max_total_bytes: 1_048_576,
            max_modules: 32,
            max_depth: 16,
        }
    }
}

fn budget(kind: &str) -> (error: KoruError)
    ensures
        error.spec_code() == ErrorCode::BudgetExhausted,
{
    let mut message = String::new();
    push_str(&mut message, kind);
    push_str(&mut message, " limit exceeded");
    KoruError::new(ErrorCode::BudgetExhausted, message.as_str())
}

impl SourceLimits {
    /// Reject limits above the hard ceilings.
    pub fn validate(self) -> (result: Result<SourceLimits, KoruError>)
        ensures
            if limits_ok(self) {
                result == Ok::<SourceLimits, KoruError>(self)
            } else {
                result matches Err(e) && e.spec_code() == ErrorCode::Validation
            },
    {
        if self.max_file_bytes == 0 || self.max_file_bytes > 262_144 || self.max_total_bytes == 0
            || self.max_total_bytes > 1_048_576 || self.max_modules > 32 || self.max_depth > 16 {
            return Err(KoruError::new(ErrorCode::Validation, "source limits exceed hard ceilings"));
        }
        Ok(self)
    }
}

/// One captured Lua source and its statically declared dependencies.
#[derive(Debug)]
pub struct CapturedSource {
    bytes: Vec<u8>,
    dependencies: Vec<String>,
}

/// Bytes that begin a precompiled Lua chunk.
pub open spec fn is_bytecode(bytes: Seq<u8>) -> bool {
    bytes.len() >= 4 && bytes[0] == 0x1Bu8 && bytes[1] == 0x4Cu8 && bytes[2] == 0x75u8 && bytes[3]
        == 0x61u8
}

/// The outcome of checking a source file's bytes: the declared modules, or the
/// error code.
pub open spec fn source_outcome(bytes: Seq<u8>, limit: int) -> Result<Seq<Seq<char>>, ErrorCode> {
    if bytes.len() > limit {
        Err(ErrorCode::BudgetExhausted)
    } else if is_bytecode(bytes) {
        Err(ErrorCode::Validation)
    } else if !vstd::utf8::valid_utf8(bytes) {
        Err(ErrorCode::Validation)
    } else {
        match declared_modules(vstd::utf8::decode_utf8(bytes)) {
            Some(deps) => Ok(deps),
            None => Err(ErrorCode::Validation),
        }
    }
}

impl Clone for CapturedSource {
    fn clone(&self) -> (copy: Self)
        ensures
            copy.spec_bytes() == self.spec_bytes(),
            copy.spec_dependencies() == self.spec_dependencies(),
    {
        proof {
            use_type_invariant(self);
        }
        let bytes = crate::text::copy_bytes(&self.bytes);
        let mut dependencies: Vec<String> = Vec::new();
        let mut i: usize = 0;
        while i < self.dependencies.len()
            invariant
                i <= self.dependencies@.len(),
                string_texts(dependencies@) == string_texts(self.dependencies@).take(i as int),
            decreases self.dependencies@.len() - i,
        {
            let ghost before = dependencies@;
            let item = self.dependencies[i].clone();
            assert(item@ == self.dependencies@[i as int]@);
            dependencies.push(item);
            assert(string_texts(dependencies@) =~= string_texts(before).push(item@));
            assert(string_texts(self.dependencies@).take(i + 1) =~= string_texts(
                self.dependencies@,
            ).take(i as int).push(self.dependencies@[i as int]@));
            i = i + 1;
        }
        assert(string_texts(self.dependencies@).take(self.dependencies@.len() as int) =~= string_texts(
            self.dependencies@,
        ));
        CapturedSource { bytes, dependencies }
    }
}

impl CapturedSource {
    /// The captured bytes.
    pub closed spec fn spec_bytes(&self) -> Seq<u8> {
        self.bytes@
    }

    /// The declared dependencies.
    pub closed spec fn spec_dependencies(&self) -> Seq<Seq<char>> {
        string_texts(self.dependencies@)
    }

    /// Captured sources hold UTF-8 text whose header declares the dependencies.
    #[verifier::type_invariant]
    pub closed spec fn wf(&self) -> bool {
        &&& vstd::utf8::valid_utf8(self.bytes@)
        &&& declared_modules(vstd::utf8::decode_utf8(self.bytes@)) == Some(
            string_texts(self.dependencies@),
        )
    }

    /// Check the bytes read from a source file: bounded, not bytecode, UTF-8,
    /// with a valid header.
    pub fn from_bytes(bytes: Vec<u8>, limit: usize) -> (result: Result<CapturedSource, KoruError>)
        ensures
            match source_outcome(bytes@, limit as int) {
                Ok(deps) => result matches Ok(s) && s.spec_bytes() == bytes@
                    && s.spec_dependencies() == deps && s.wf(),
                Err(code) => result matches Err(e) && e.spec_code() == code,
            },
    {
        if bytes.len() > limit {
            return Err(budget("source file bytes"));
        }
        if bytes.len() >= 4 && bytes[0] == 0x1Bu8 && bytes[1] == 0x4Cu8 && bytes[2] == 0x75u8
            && bytes[3] == 0x61u8 {
            return Err(KoruError::new(ErrorCode::Validation, "Lua bytecode is not supported"));
        }
        let dependencies = match utf8_text(bytes.as_slice()) {
            Some(text) => match parse_directives(text) {
                Ok(dependencies) => dependencies,
                Err(error) => {
                    return Err(error);
                },
            },
            None => {
                return Err(KoruError::new(ErrorCode::Validation, "source must be UTF-8"));
            },
        };
        Ok(CapturedSource { bytes, dependencies })
    }

    /// Immutable text from the source snapshot.
    pub fn text(&self) -> (text: &str)
        ensures
            text@ == vstd::utf8::decode_utf8(self.spec_bytes()),
    {
        proof {
            use_type_invariant(self);
        }
        match utf8_text(self.bytes.as_slice()) {
            Some(text) => text,
            None => "",
        }
    }

    /// Exact captured bytes.
    pub fn bytes(&self) -> (bytes: &[u8])
        ensures
            bytes@ == self.spec_bytes(),
    {
        self.bytes.as_slice()
    }

    /// Declared direct dependencies.
    pub fn dependencies(&self) -> (dependencies: &[String])
        ensures
            string_texts(dependencies@) == self.spec_dependencies(),
    {
        self.dependencies.as_slice()
    }
}

/// The bytes of a string's characters when they are all ASCII.
pub open spec fn text_bytes(text: Seq<char>) -> Seq<u8> {
    ascii_bytes(text)
}

/// Eight big-endian bytes of a length.
pub open spec fn be_bytes(n: u64) -> Seq<u8> {
    seq![
        ((n >> 56u64) & 0xffu64) as u8,
        ((n >> 48u64) & 0xffu64) as u8,
        ((n >> 40u64) & 0xffu64) as u8,
        ((n >> 32u64) & 0xffu64) as u8,
        ((n >> 24u64) & 0xffu64) as u8,
        ((n >> 16u64) & 0xffu64) as u8,
        ((n >> 8u64) & 0xffu64) as u8,
        (n & 0xffu64) as u8,
    ]
}

/// A length-prefixed frame.
pub open spec fn frame(bytes: Seq<u8>) -> Seq<u8> {
    be_bytes(bytes.len() as u64) + bytes
}

/// The domain-separation prefix of a bundle digest.
pub open spec fn bundle_tag() -> Seq<u8> {
    seq![
        0x6bu8, 0x6fu8, 0x72u8, 0x75u8, 0x2du8, 0x73u8, 0x6fu8, 0x75u8, 0x72u8, 0x63u8, 0x65u8,
        0x2du8, 0x62u8, 0x75u8, 0x6eu8, 0x64u8, 0x6cu8, 0x65u8, 0x2du8, 0x76u8, 0x31u8, 0x00u8,
    ]
}

/// The framed names and bytes of modules, in order.
pub open spec fn module_frames(modules: Seq<(Seq<char>, Seq<u8>)>) -> Seq<u8>
    decreases modules.len(),
{
    if modules.len() == 0 {
        Seq::empty()
    } else {
        module_frames(modules.drop_last()) + frame(text_bytes(modules.last().0)) + frame(
            modules.last().1,
        )
    }
}

/// Everything a bundle digest covers: the tag, the framed command name and entry
/// bytes, and each module's framed name and bytes in name order.
pub open spec fn bundle_frames(
    command: Seq<char>,
    entry: Seq<u8>,
    modules: Seq<(Seq<char>, Seq<u8>)>,
) -> Seq<u8> {
    bundle_tag() + frame(text_bytes(command)) + frame(entry) + module_frames(modules)
}

fn push_frame(out: &mut Vec<u8>, bytes: &[u8])
    ensures
        final(out)@ == old(out)@ + frame(bytes@),
{
    let n = bytes.len() as u64;
    out.push(((n >> 56u64) & 0xffu64) as u8);
    out.push(((n >> 48u64) & 0xffu64) as u8);
    out.push(((n >> 40u64) & 0xffu64) as u8);
    out.push(((n >> 32u64) & 0xffu64) as u8);
    out.push(((n >> 24u64) & 0xffu64) as u8);
    out.push(((n >> 16u64) & 0xffu64) as u8);
    out.push(((n >> 8u64) & 0xffu64) as u8);
    out.push((n & 0xffu64) as u8);
    let ghost mid = out@;
    let mut i: usize = 0;
    while i < bytes.len()
        invariant
            i <= bytes@.len(),
            out@ == mid + bytes@.subrange(0, i as int),
        decreases bytes@.len() - i,
    {
        out.push(bytes[i]);
        i = i + 1;
        assert(out@ =~= mid + bytes@.subrange(0, i as int));
    }
    assert(bytes@.subrange(0, bytes@.len() as int) =~= bytes@);
    assert(final(out)@ =~= old(out)@ + frame(bytes@));
}

fn ascii_of(text: &str) -> (bytes: Vec<u8>)
    requires
        forall|k: int| 0 <= k < text@.len() ==> (#[trigger] text@[k] as u32) < 128,
    ensures
        bytes@ == text_bytes(text@),
{
    let empty: Vec<u8> = Vec::new();
    let out = crate::paths::join_name(&empty, text);
    assert(out@ =~= text_bytes(text@));
    out
}

/// A bounded, digest-addressed command source and module closure.
#[derive(Debug, Clone)]
pub struct SourceBundle {
    command: String,
    entry: CapturedSource,
    modules: Vec<(String, CapturedSource)>,
    digest: [u8; 32],
}

/// The names and bytes of captured modules.
pub open spec fn module_texts(modules: Seq<(String, CapturedSource)>) -> Seq<(Seq<char>, Seq<u8>)> {
    Seq::new(modules.len(), |k: int| (modules[k].0@, modules[k].1.spec_bytes()))
}

/// Names in strictly increasing order.
pub open spec fn sorted_names(modules: Seq<(Seq<char>, Seq<u8>)>) -> bool {
    forall|a: int, b: int| 0 <= a < b < modules.len() ==> key_lt(modules[a].0, modules[b].0)
}

impl SourceBundle {
    /// The installed command name.
    pub closed spec fn spec_command(&self) -> Seq<char> {
        self.command@
    }

    /// The captured entry source.
    pub closed spec fn spec_entry(&self) -> CapturedSource {
        self.entry
    }

    /// The captured modules, ordered by name.
    pub closed spec fn spec_modules(&self) -> Seq<(Seq<char>, Seq<u8>)> {
        module_texts(self.modules@)
    }

    /// The digest.
    pub closed spec fn spec_digest(&self) -> Seq<u8> {
        self.digest@
    }

    /// Build a bundle from what was captured, with its digest over the framed
    /// command name, entry bytes and modules; the modules come strictly ordered
    /// by name, so each name occurs once.
    pub fn assemble(command: &str, entry: CapturedSource, modules: Vec<(String, CapturedSource)>) -> (bundle: SourceBundle)
        requires
            is_identifier(command@),
            forall|k: int| 0 <= k < modules@.len() ==> is_module_name(#[trigger] modules@[k].0@),
            ordered(names_of(modules@)),
        ensures
            bundle.spec_command() == command@,
            bundle.spec_entry() == entry,
            bundle.spec_modules() == module_texts(modules@),
            bundle.spec_digest() == sha256_of(
                bundle_frames(command@, entry.spec_bytes(), module_texts(modules@)),
            ),
    {
        let mut framed: Vec<u8> = Vec::new();
        let tag: [u8; 22] = [
            0x6b, 0x6f, 0x72, 0x75, 0x2d, 0x73, 0x6f, 0x75, 0x72, 0x63, 0x65, 0x2d, 0x62, 0x75, 0x6e,
            0x64, 0x6c, 0x65, 0x2d, 0x76, 0x31, 0x00,
        ];
        let mut t: usize = 0;
        while t < 22
            invariant
                t <= 22,
                framed@ == tag@.subrange(0, t as int),
            decreases 22 - t,
        {
            framed.push(tag[t]);
            t = t + 1;
            assert(framed@ =~= tag@.subrange(0, t as int));
        }
        assert(framed@ =~= bundle_tag());
        let name = ascii_of(command);
        push_frame(&mut framed, name.as_slice());
        push_frame(&mut framed, entry.bytes());
        let ghost head = framed@;
        let ghost mt = module_texts(modules@);
        let mut i: usize = 0;
        while i < modules.len()
            invariant
                i <= modules@.len(),
                mt == module_texts(modules@),
                forall|k: int| 0 <= k < modules@.len() ==> is_module_name(#[trigger] modules@[k].0@),
                framed@ == head + module_frames(mt.subrange(0, i as int)),
            decreases modules@.len() - i,
        {
            proof {
                lemma_module_name_ascii(modules@[i as int].0@);
            }
            let module_name = ascii_of(modules[i].0.as_str());
            push_frame(&mut framed, module_name.as_slice());
            push_frame(&mut framed, modules[i].1.bytes());
            proof {
                let pre = mt.subrange(0, i + 1);
                assert(pre.drop_last() =~= mt.subrange(0, i as int));
                assert(pre.last() == (modules@[i as int].0@, modules@[i as int].1.spec_bytes()));
                assert(framed@ =~= head + module_frames(pre));
            }
            i = i + 1;
        }
        proof {
            assert(mt.subrange(0, mt.len() as int) =~= mt);
            assert(framed@ =~= bundle_frames(command@, entry.spec_bytes(), mt));
        }
        let digest = sha256(framed.as_slice());
        SourceBundle { command: command.to_owned(), entry, modules, digest }
    }

    /// Installed command name.
    pub fn command(&self) -> (command: &str)
        ensures
            command@ == self.spec_command(),
    {
        self.command.as_str()
    }

    /// Captured command source.
    pub fn entry(&self) -> (entry: &CapturedSource)
        ensures
            *entry == self.spec_entry(),
    {
        &self.entry
    }

    /// Captured modules, ordered by name.
    pub fn modules(&self) -> (modules: &[(String, CapturedSource)])
        ensures
            module_texts(modules@) == self.spec_modules(),
    {
        self.modules.as_slice()
    }

    /// Captured module by dotted name.
    pub fn module(&self, name: &str) -> (found: Option<&CapturedSource>)
        ensures
            match found {
                Some(s) => exists|k: int|
                    0 <= k < self.spec_modules().len() && self.spec_modules()[k] == (
                        name@,
                        s.spec_bytes(),
                    ),
                None => forall|k: int|
                    0 <= k < self.spec_modules().len() ==> (#[trigger] self.spec_modules()[k]).0
                        != name@,
            },
    {
        let ghost mt = module_texts(self.modules@);
        let mut i: usize = 0;
        while i < self.modules.len()
            invariant
                i <= self.modules@.len(),
                mt == module_texts(self.modules@),
                forall|k: int| 0 <= k < i ==> (#[trigger] mt[k]).0 != name@,
            decreases self.modules@.len() - i,
        {
            if str_eq(self.modules[i].0.as_str(), name) {
                assert(mt[i as int] == (name@, self.modules@[i as int].1.spec_bytes()));
                assert(self.spec_modules() == mt);
                assert(self.spec_modules()[i as int] == (name@, self.modules@[i as int].1.spec_bytes()));
                return Some(&self.modules[i].1);
            }
            i = i + 1;
        }
        None
    }

    /// SHA-256 digest over framed names and bytes.
    pub fn digest(&self) -> (digest: [u8; 32])
        ensures
            digest@ == self.spec_digest(),
    {
        self.digest
    }

    /// Lowercase hexadecimal identity suitable for display.
    pub fn digest_hex(&self) -> (hex: String)
        ensures
            hex@ == hex_text(self.spec_digest()),
    {
        let mut out = String::new();
        crate::hash::push_hex(&mut out, &self.digest);
        out
    }
}

/// Module names are ASCII.
pub proof fn lemma_module_name_ascii(name: Seq<char>)
    requires
        is_module_name(name),
    ensures
        forall|k: int| 0 <= k < name.len() ==> (#[trigger] name[k] as u32) < 128,
{
    assert forall|k: int| 0 <= k < name.len() implies (#[trigger] name[k] as u32) < 128 by {
        lemma_segments_ascii(name, 0, 0, k);
    }
}

proof fn lemma_segments_ascii(t: Seq<char>, start: int, i: int, k: int)
    requires
        super::names::segments_ok(t, start, i),
        start <= k < t.len(),
        0 <= start,
    ensures
        (t[k] as u32) < 128,
    decreases t.len() - i,
{
    if i == t.len() {
        assert(t.subrange(start, i)[k - start] == t[k]);
    } else if t[i] == '.' {
        if k < i {
            assert(t.subrange(start, i)[k - start] == t[k]);
        } else if k == i {
        } else {
            lemma_segments_ascii(t, i + 1, i + 1, k);
        }
    } else {
        lemma_segments_ascii(t, start, i + 1, k);
    }
}


/// Names in increasing order, each before the next.
pub open spec fn ordered(names: Seq<Seq<char>>) -> bool {
    forall|k: int| 0 <= k < names.len() - 1 ==> key_lt(#[trigger] names[k], names[k + 1])
}

/// The names of captured modules.
pub open spec fn names_of(modules: Seq<(String, CapturedSource)>) -> Seq<Seq<char>> {
    Seq::new(modules.len(), |k: int| modules[k].0@)
}

/// The file path of a dotted module under the library root.
pub open spec fn module_file(root: Seq<u8>, name: Seq<char>) -> Seq<u8> {
    join(
        root,
        Seq::new(name.len(), |k: int| if name[k] == '.' { '/' } else { name[k] }) + ".lua"@,
    )
}

/// The traversal's decision for a module declared at `depth`: read it
/// (`Ok(true)`), skip it as captured (`Ok(false)`), or the error code.
pub open spec fn enter_decision(
    visiting: Seq<Seq<char>>,
    names: Seq<Seq<char>>,
    limits: SourceLimits,
    name: Seq<char>,
    depth: int,
) -> Result<bool, ErrorCode> {
    if !is_module_name(name) {
        Err(ErrorCode::Validation)
    } else if depth > limits.max_depth {
        Err(ErrorCode::BudgetExhausted)
    } else if visiting.contains(name) {
        Err(ErrorCode::Validation)
    } else if names.contains(name) {
        Ok(false)
    } else if names.len() + visiting.len() >= limits.max_modules {
        Err(ErrorCode::BudgetExhausted)
    } else {
        Ok(true)
    }
}

/// What the traversal asks for one declared module.
#[derive(Debug)]
pub enum Visit {
    /// The module is already captured; nothing to read.
    Captured,
    /// Read the file at this path, check it, account for it, visit its
    /// dependencies, then leave it.
    Read(Vec<u8>),
}

/// The depth-first capture of a command's module closure.
///
/// The application reads each requested file; every decision of the traversal
/// is made here.
#[derive(Debug)]
pub struct Loader {
    root: Vec<u8>,
    limits: SourceLimits,
    total: usize,
    modules: Vec<(String, CapturedSource)>,
    visiting: Vec<String>,
}

impl Loader {
    /// The library root that module paths are under.
    pub closed spec fn spec_root(&self) -> Seq<u8> {
        self.root@
    }

    /// The limits in force.
    pub closed spec fn spec_limits(&self) -> SourceLimits {
        self.limits
    }

    /// Bytes captured so far.
    pub closed spec fn spec_total(&self) -> int {
        self.total as int
    }

    /// Names of the captured modules, in order.
    pub closed spec fn spec_names(&self) -> Seq<Seq<char>> {
        names_of(self.modules@)
    }

    /// Names of the modules being visited, outermost first.
    pub closed spec fn spec_visiting(&self) -> Seq<Seq<char>> {
        string_texts(self.visiting@)
    }

    /// The captured modules stay ordered by name with valid names.
    pub closed spec fn wf(&self) -> bool {
        &&& ordered(names_of(self.modules@))
        &&& forall|k: int| 0 <= k < self.modules@.len() ==> is_module_name(#[trigger] self.modules@[k].0@)
        &&& self.total <= self.limits.max_total_bytes
    }

    /// Start a capture for a command whose entry source was read.
    pub fn new(commands_dir: &Vec<u8>, limits: SourceLimits, entry: &CapturedSource) -> (result: Result<
        Loader,
        KoruError,
    >)
        ensures
            match result {
                Ok(l) => entry.spec_bytes().len() <= limits.max_total_bytes && l.wf()
                    && l.spec_root() == join(commands_dir@, "lib"@) && l.spec_limits() == limits
                    && l.spec_total() == entry.spec_bytes().len() && l.spec_names().len() == 0
                    && l.spec_visiting().len() == 0,
                Err(e) => entry.spec_bytes().len() > limits.max_total_bytes && e.spec_code()
                    == ErrorCode::BudgetExhausted,
            },
    {
        proof {
            reveal_strlit("lib");
        }
        let total = entry.bytes().len();
        if total > limits.max_total_bytes {
            return Err(budget("source bundle bytes"));
        }
        let loader = Loader {
            root: crate::paths::join_name(commands_dir, "lib"),
            limits,
            total,
            modules: Vec::new(),
            visiting: Vec::new(),
        };
        assert(names_of(loader.modules@) =~= Seq::<Seq<char>>::empty());
        assert(string_texts(loader.visiting@) =~= Seq::<Seq<char>>::empty());
        Ok(loader)
    }

    /// Decide what to do for a module declared at `depth`.
    pub fn enter(&mut self, name: &str, depth: usize) -> (result: Result<Visit, KoruError>)
        requires
            old(self).wf(),
        ensures
            final(self).wf(),
            final(self).spec_root() == old(self).spec_root(),
            final(self).spec_limits() == old(self).spec_limits(),
            final(self).spec_total() == old(self).spec_total(),
            final(self).spec_names() == old(self).spec_names(),
            match enter_decision(
                old(self).spec_visiting(),
                old(self).spec_names(),
                old(self).spec_limits(),
                name@,
                depth as int,
            ) {
                Err(code) => result matches Err(e) && e.spec_code() == code
                    && final(self).spec_visiting() == old(self).spec_visiting(),
                Ok(false) => result matches Ok(Visit::Captured) && final(self).spec_visiting()
                    == old(self).spec_visiting(),
                Ok(true) => result matches Ok(Visit::Read(path)) && path@ == module_file(
                    old(self).spec_root(),
                    name@,
                ) && final(self).spec_visiting() == old(self).spec_visiting().push(name@),
            },
    {
        if let Err(error) = super::names::module(name) {
            return Err(error);
        }
        if depth > self.limits.max_depth {
            return Err(budget("module depth"));
        }
        if super::reader::contains_text(&self.visiting, name) {
            let mut message = String::new();
            push_str(&mut message, "module dependency cycle at ");
            push_str(&mut message, name);
            return Err(KoruError::new(ErrorCode::Validation, message.as_str()));
        }
        let mut i: usize = 0;
        while i < self.modules.len()
            invariant
                i <= self.modules@.len(),
                *self == *old(self),
                self.wf(),
                is_module_name(name@),
                depth <= self.limits.max_depth,
                !self.spec_visiting().contains(name@),
                forall|k: int| 0 <= k < i ==> names_of(self.modules@)[k] != name@,
            decreases self.modules@.len() - i,
        {
            if str_eq(self.modules[i].0.as_str(), name) {
                assert(names_of(self.modules@)[i as int] == name@);
                return Ok(Visit::Captured);
            }
            i = i + 1;
        }
        if self.modules.len() >= self.limits.max_modules || self.visiting.len()
            >= self.limits.max_modules - self.modules.len() {
            return Err(budget("module count"));
        }
        let path = self.path_of(name);
        let ghost before = self.visiting@;
        self.visiting.push(name.to_owned());
        assert(string_texts(self.visiting@) =~= string_texts(before).push(name@));
        Ok(Visit::Read(path))
    }

    fn path_of(&self, name: &str) -> (path: Vec<u8>)
        requires
            is_module_name(name@),
        ensures
            path@ == module_file(self.root@, name@),
    {
        proof {
            lemma_module_name_ascii(name@);
            reveal_strlit(".lua");
        }
        let chars = crate::text::chars_of(name);
        let mut relative = String::new();
        let mut i: usize = 0;
        while i < chars.len()
            invariant
                i <= chars@.len(),
                chars@ == name@,
                relative@ == Seq::new(
                    i as nat,
                    |k: int| if chars@[k] == '.' { '/' } else { chars@[k] },
                ),
            decreases chars@.len() - i,
        {
            let c = if chars[i] == '.' {
                '/'
            } else {
                chars[i]
            };
            crate::text::push_char(&mut relative, c);
            i = i + 1;
            assert(relative@ =~= Seq::new(
                i as nat,
                |k: int| if chars@[k] == '.' { '/' } else { chars@[k] },
            ));
        }
        push_str(&mut relative, ".lua");
        assert(relative@ =~= Seq::new(name@.len(), |k: int| if name@[k] == '.' { '/' } else { name@[k] }) + ".lua"@);
        crate::paths::join_name(&self.root, relative.as_str())
    }

    /// Account for the bytes of a module that was read.
    pub fn account(&mut self, source: &CapturedSource) -> (result: Result<(), KoruError>)
        requires
            old(self).wf(),
        ensures
            final(self).wf(),
            final(self).spec_root() == old(self).spec_root(),
            final(self).spec_limits() == old(self).spec_limits(),
            final(self).spec_names() == old(self).spec_names(),
            final(self).spec_visiting() == old(self).spec_visiting(),
            if old(self).spec_total() + source.spec_bytes().len() <= old(
                self,
            ).spec_limits().max_total_bytes {
                result is Ok && final(self).spec_total() == old(self).spec_total()
                    + source.spec_bytes().len()
            } else {
                result matches Err(e) && e.spec_code() == ErrorCode::BudgetExhausted
            },
    {
        let n = source.bytes().len();
        if n > self.limits.max_total_bytes - self.total {
            return Err(budget("source bundle bytes"));
        }
        self.total = self.total + n;
        Ok(())
    }

    /// Finish a module whose dependencies were all visited: it stops being
    /// visited and joins the captured modules in name order.
    pub fn leave(&mut self, name: &str, source: CapturedSource)
        requires
            old(self).wf(),
            is_module_name(name@),
            !old(self).spec_names().contains(name@),
        ensures
            final(self).wf(),
            final(self).spec_root() == old(self).spec_root(),
            final(self).spec_limits() == old(self).spec_limits(),
            final(self).spec_total() == old(self).spec_total(),
            exists|i: int|
                0 <= i <= old(self).spec_names().len() && final(self).spec_names() == old(
                    self,
                ).spec_names().insert(i, name@),
            final(self).spec_visiting() == without(old(self).spec_visiting(), name@),
    {
        let ghost vis = string_texts(self.visiting@);
        let mut kept: Vec<String> = Vec::new();
        let mut j: usize = 0;
        assert(vis.subrange(0, 0) =~= Seq::<Seq<char>>::empty());
        assert(string_texts(kept@) =~= Seq::<Seq<char>>::empty());
        while j < self.visiting.len()
            invariant
                j <= self.visiting@.len(),
                vis == string_texts(self.visiting@),
                string_texts(kept@) == without(vis.subrange(0, j as int), name@),
            decreases self.visiting@.len() - j,
        {
            let ghost before = kept@;
            proof {
                let pre = vis.subrange(0, j + 1);
                assert(pre.drop_last() =~= vis.subrange(0, j as int));
                assert(pre.last() == self.visiting@[j as int]@);
            }
            if !str_eq(self.visiting[j].as_str(), name) {
                kept.push(self.visiting[j].clone());
                assert(string_texts(kept@) =~= string_texts(before).push(self.visiting@[j as int]@));
            }
            j = j + 1;
        }
        assert(vis.subrange(0, vis.len() as int) =~= vis);
        self.visiting = kept;
        let ghost names = names_of(self.modules@);
        let mut i: usize = 0;
        while i < self.modules.len() && crate::json::parse::compare_keys(
            name,
            self.modules[i].0.as_str(),
        ) > 0
            invariant
                i <= self.modules@.len(),
                names == names_of(self.modules@),
                forall|k: int| 0 <= k < i ==> key_lt(#[trigger] names[k], name@),
            decreases self.modules@.len() - i,
        {
            i = i + 1;
        }
        if i < self.modules.len() {
            assert(names[i as int] == self.modules@[i as int].0@);
            assert(names[i as int] != name@);
        }
        let ghost mods = self.modules@;
        self.modules.insert(i, (name.to_owned(), source));
        proof {
            assert(names_of(self.modules@) =~= names.insert(i as int, name@));
            let out = names_of(self.modules@);
            assert forall|k: int| 0 <= k < out.len() - 1 implies key_lt(#[trigger] out[k], out[k + 1]) by {
                if k + 1 < i {
                    assert(out[k] == names[k] && out[k + 1] == names[k + 1]);
                } else if k + 1 == i {
                    assert(out[k] == names[k] && out[k + 1] == name@);
                } else if k == i {
                    assert(out[k] == name@ && out[k + 1] == names[k]);
                } else {
                    assert(out[k] == names[k - 1] && out[k + 1] == names[k]);
                }
            }
            assert forall|k: int| 0 <= k < self.modules@.len() implies is_module_name(
                #[trigger] self.modules@[k].0@,
            ) by {
                if k < i {
                    assert(self.modules@[k] == mods[k]);
                } else if k > i {
                    assert(self.modules@[k] == mods[k - 1]);
                }
            }
        }
    }

    /// The captured modules, for assembling the bundle.
    pub fn into_modules(self) -> (modules: Vec<(String, CapturedSource)>)
        ensures
            names_of(modules@) == self.spec_names(),
            ordered(names_of(modules@)) || !self.wf(),
            forall|k: int| 0 <= k < modules@.len() ==> is_module_name(#[trigger] modules@[k].0@) || !self.wf(),
    {
        self.modules
    }
}

/// `s` without the occurrences of `x`.
pub open spec fn without(s: Seq<Seq<char>>, x: Seq<char>) -> Seq<Seq<char>>
    decreases s.len(),
{
    if s.len() == 0 {
        s
    } else if s.last() == x {
        without(s.drop_last(), x)
    } else {
        without(s.drop_last(), x).push(s.last())
    }
}

} // verus!
