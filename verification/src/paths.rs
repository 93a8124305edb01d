//! User-owned directories, resolved once at the composition root.
//!
//! Paths are held as the raw bytes of Unix paths; resolving them from the
//! environment is the application's work.
use vstd::prelude::*;

verus! {

broadcast use vstd::string::group_string_axioms;

/// Immutable paths for persistent user data.
#[derive(Debug, Clone)]
pub struct UserPaths {
    /// Location of configuration and command source files.
    pub config: Vec<u8>,
    /// Location of disposable model catalogs.
    pub cache: Vec<u8>,
    /// Location of durable journals.
    pub state: Vec<u8>,
}

/// The byte of a character below 128.
pub open spec fn ascii_byte(c: char) -> u8 {
    (c as u32) as u8
}

/// The bytes of an ASCII path component.
pub open spec fn ascii_bytes(name: Seq<char>) -> Seq<u8> {
    Seq::new(name.len(), |k: int| ascii_byte(name[k]))
}

/// `base` joined with a relative component, as `PathBuf::join` does on Unix.
pub open spec fn join(base: Seq<u8>, name: Seq<char>) -> Seq<u8> {
    if base.len() == 0 || base.last() == 0x2Fu8 {
        base + ascii_bytes(name)
    } else {
        base.push(0x2Fu8) + ascii_bytes(name)
    }
}

/// Join an ASCII component onto a directory.
pub fn join_name(base: &Vec<u8>, name: &str) -> (path: Vec<u8>)
    requires
        forall|k: int| 0 <= k < name@.len() ==> (#[trigger] name@[k] as u32) < 128,
    ensures
        path@ == join(base@, name@),
{
    let mut out = crate::text::copy_bytes(base);
    if out.len() > 0 && out[out.len() - 1] != 0x2Fu8 {
        out.push(0x2Fu8);
    }
    let ghost start = out@;
    let chars = crate::text::chars_of(name);
    let mut i: usize = 0;
    while i < chars.len()
        invariant
            i <= chars@.len(),
            chars@ == name@,
            forall|k: int| 0 <= k < name@.len() ==> (#[trigger] name@[k] as u32) < 128,
            out@ == start + ascii_bytes(chars@.subrange(0, i as int)),
        decreases chars@.len() - i,
    {
        let c = chars[i];
        out.push((c as u32) as u8);
        i = i + 1;
        assert(out@ =~= start + ascii_bytes(chars@.subrange(0, i as int)));
    }
    assert(chars@.subrange(0, i as int) =~= chars@);
    out
}

impl UserPaths {
    /// Directory containing top-level commands and the lib subdirectory.
    pub fn commands(&self) -> (path: Vec<u8>)
        ensures
            path@ == join(self.config@, "commands"@),
    {
        proof {
            reveal_strlit("commands");
        }
        join_name(&self.config, "commands")
    }
}

} // verus!
