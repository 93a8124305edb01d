//! Bounded staged-change data for the plan-only commit workflow.
//!
//! Git runs through one approved, fixed invocation in the application; the
//! staged diff it prints is split into file-level changes here. Each change is
//! identified by a digest of its section, so paths never reach Lua, and carries
//! a bounded, credential-free excerpt of its hunks.
use crate::config::find;
use crate::credentials::{occurs_at, replace, replace_from};
use crate::error::{ErrorCode, KoruError};
use crate::hash::{hex_text, sha256, sha256_of};
use crate::json::parse::byte_len;
use crate::text::{chars_of, nat_text, push_char, push_decimal, push_str, str_eq, string_from_chars};
use vstd::prelude::*;

verus! {

broadcast use vstd::string::group_string_axioms;

/// Most file-level changes one snapshot may hold.
pub const MAX_CHANGES: usize = 64;

/// Most bytes of one change excerpt.
pub const MAX_EXCERPT_BYTES: usize = 1024;

/// One staged file-level change, identified without exposing its path.
#[derive(Debug, Clone)]
pub struct Change {
    /// Digest-derived identifier.
    pub id: String,
    /// `kind: +added -deleted lines`.
    pub kind: String,
    /// Bounded hunk excerpt.
    pub excerpt: String,
}

/// Whether `t` starts with `p`.
pub open spec fn starts(t: Seq<char>, p: Seq<char>) -> bool {
    occurs_at(t, 0, p)
}

/// The line starting at `p` as `str::lines` yields it, and where the next one starts.
pub open spec fn line_at(s: Seq<char>, p: int) -> (Seq<char>, int) {
    let e = find(s, '\n', p);
    if e < s.len() {
        let raw = s.subrange(p, e);
        (
            if raw.len() > 0 && raw.last() == '\r' {
                raw.drop_last()
            } else {
                raw
            },
            e + 1,
        )
    } else {
        (s.subrange(p, s.len() as int), s.len() as int)
    }
}

/// What the lines of a section read so far have established.
pub struct DescribeState {
    /// A hunk has started.
    pub in_hunk: bool,
    /// Binary contents were seen.
    pub binary: bool,
    /// Added lines.
    pub additions: int,
    /// Deleted lines.
    pub deletions: int,
    /// Collected hunk lines.
    pub excerpt: Seq<char>,
}

/// The state after one line of a section.
pub open spec fn describe_step(st: DescribeState, line: Seq<char>) -> DescribeState {
    let binary = st.binary || starts(line, "GIT binary patch"@) || starts(line, "Binary files "@);
    let in_hunk = st.in_hunk || starts(line, "@@"@);
    if !in_hunk {
        DescribeState { binary, in_hunk, ..st }
    } else {
        let added = starts(line, "+"@) && !starts(line, "+++"@);
        let deleted = !added && starts(line, "-"@) && !starts(line, "---"@);
        DescribeState {
            binary,
            in_hunk,
            additions: st.additions + if added { 1int } else { 0 },
            deletions: st.deletions + if deleted { 1int } else { 0 },
            excerpt: if !binary && byte_len(st.excerpt) < MAX_EXCERPT_BYTES {
                st.excerpt + line + seq!['\n']
            } else {
                st.excerpt
            },
        }
    }
}

/// The state after the lines starting at `p`.
pub open spec fn describe_run(s: Seq<char>, p: int, st: DescribeState) -> DescribeState
    decreases s.len() - p,
{
    if p < 0 || p >= s.len() {
        st
    } else {
        let (line, next) = line_at(s, p);
        proof {
            crate::config::lemma_find(s, '\n', p);
        }
        describe_run(s, next, describe_step(st, line))
    }
}

/// The longest prefix of `t` of at most `limit` bytes.
pub open spec fn truncate_bytes(t: Seq<char>, limit: int) -> Seq<char>
    decreases t.len(),
{
    if t.len() == 0 || byte_len(t) <= limit {
        t
    } else {
        truncate_bytes(t.drop_last(), limit)
    }
}

/// `text` with each non-empty secret, in order, replaced by `[REDACTED]`.
pub open spec fn redact_secrets(secrets: Seq<Seq<char>>, text: Seq<char>) -> Seq<char>
    decreases secrets.len(),
{
    if secrets.len() == 0 {
        text
    } else {
        let before = redact_secrets(secrets.drop_last(), text);
        if secrets.last().len() == 0 {
            before
        } else {
            replace_from(before, 0, secrets.last(), "[REDACTED]"@)
        }
    }
}

/// Whether `pat` occurs anywhere in `t`.
pub open spec fn contains_seq(t: Seq<char>, pat: Seq<char>) -> bool {
    exists|i: int| 0 <= i && i + pat.len() <= t.len() && #[trigger] occurs_at(t, i, pat)
}

/// The kind of a section.
pub open spec fn section_kind(section: Seq<char>) -> Seq<char> {
    if contains_seq(section, "new file mode "@) {
        "added"@
    } else if contains_seq(section, "deleted file mode "@) {
        "deleted"@
    } else if contains_seq(section, "rename from "@) {
        "renamed"@
    } else if contains_seq(section, "GIT binary patch"@) || contains_seq(section, "Binary files "@) {
        "binary"@
    } else {
        "modified"@
    }
}

/// The kind line and excerpt of one section.
pub open spec fn describe(section: Seq<char>, secrets: Seq<Seq<char>>) -> (Seq<char>, Seq<char>) {
    let st = describe_run(
        section,
        0,
        DescribeState { in_hunk: false, binary: false, additions: 0, deletions: 0, excerpt: Seq::empty() },
    );
    let excerpt = if st.binary {
        "[binary contents omitted]"@
    } else {
        truncate_bytes(
            redact_secrets(secrets, truncate_bytes(st.excerpt, MAX_EXCERPT_BYTES as int)),
            MAX_EXCERPT_BYTES as int,
        )
    };
    (
        section_kind(section) + ": +"@ + nat_text(st.additions as nat) + " -"@ + nat_text(
            st.deletions as nat,
        ) + " lines"@,
        excerpt,
    )
}


/// The texts of a list of string slices.
pub open spec fn str_texts(items: Seq<&str>) -> Seq<Seq<char>> {
    Seq::new(items.len(), |k: int| items[k]@)
}

proof fn lemma_truncate(t: Seq<char>, limit: int, k: int)
    requires
        0 <= k <= t.len(),
        byte_len(t.subrange(0, k)) <= limit,
        k == t.len() || byte_len(t.subrange(0, k + 1)) > limit,
    ensures
        truncate_bytes(t, limit) == t.subrange(0, k),
    decreases t.len() - k,
{
    if k == t.len() {
        assert(t.subrange(0, k) =~= t);
    } else {
        crate::config::lemma_byte_len_prefix(t, k + 1);
        let d = t.drop_last();
        assert(d.subrange(0, k) =~= t.subrange(0, k));
        if k + 1 < t.len() {
            assert(d.subrange(0, k + 1) =~= t.subrange(0, k + 1));
        }
        lemma_truncate(d, limit, k);
    }
}

fn truncated(t: &Vec<char>, limit: usize) -> (out: Vec<char>)
    requires
        limit <= 1_048_576,
    ensures
        out@ == truncate_bytes(t@, limit as int),
{
    let mut width: usize = 0;
    let mut k: usize = 0;
    while k < t.len() && width + crate::json::parse::char_width_exec(t[k]) <= limit
        invariant
            k <= t@.len(),
            width == byte_len(t@.subrange(0, k as int)),
            width <= limit,
            limit <= 1_048_576,
        decreases t@.len() - k,
    {
        proof {
            assert(t@.subrange(0, k + 1).drop_last() =~= t@.subrange(0, k as int));
        }
        width = width + crate::json::parse::char_width_exec(t[k]);
        k = k + 1;
    }
    proof {
        if k < t@.len() {
            assert(t@.subrange(0, k + 1).drop_last() =~= t@.subrange(0, k as int));
        }
        lemma_truncate(t@, limit as int, k as int);
    }
    let mut out: Vec<char> = Vec::new();
    let mut j: usize = 0;
    while j < k
        invariant
            j <= k <= t@.len(),
            out@ == t@.subrange(0, j as int),
        decreases k - j,
    {
        out.push(t[j]);
        j = j + 1;
        assert(out@ =~= t@.subrange(0, j as int));
    }
    out
}

fn below_bytes(t: &Vec<char>, limit: usize) -> (below: bool)
    requires
        limit <= 1_048_576,
    ensures
        below == (byte_len(t@) < limit),
{
    let text = string_from_chars(t.as_slice());
    if limit == 0 {
        proof {
            crate::json::parse::lemma_byte_len_nonneg(t@);
        }
        return false;
    }
    crate::text::fits_bytes(text.as_str(), limit - 1)
}

fn starts_exec(t: &Vec<char>, lit: &str) -> (found: bool)
    ensures
        found == starts(t@, lit@),
{
    let p = chars_of(lit);
    crate::source::reader::occurs_exec(t, 0, &p)
}

fn contains_exec(t: &Vec<char>, lit: &str) -> (found: bool)
    ensures
        found == contains_seq(t@, lit@),
{
    let p = chars_of(lit);
    let mut i: usize = 0;
    while i < t.len()
        invariant
            i <= t@.len(),
            p@ == lit@,
            forall|j: int| 0 <= j < i ==> !occurs_at(t@, j, p@),
        decreases t@.len() - i,
    {
        if crate::source::reader::occurs_exec(t, i, &p) {
            return true;
        }
        i = i + 1;
    }
    if crate::source::reader::occurs_exec(t, i, &p) {
        return true;
    }
    proof {
        assert forall|j: int| 0 <= j && j + p@.len() <= t@.len() implies !#[trigger] occurs_at(
            t@,
            j,
            p@,
        ) by {
            if j > t@.len() {
            } else if j == t@.len() {
            }
        }
    }
    false
}

fn section_kind_exec(section: &Vec<char>) -> (kind: &'static str)
    ensures
        kind@ == section_kind(section@),
{
    if contains_exec(section, "new file mode ") {
        "added"
    } else if contains_exec(section, "deleted file mode ") {
        "deleted"
    } else if contains_exec(section, "rename from ") {
        "renamed"
    } else if contains_exec(section, "GIT binary patch") || contains_exec(section, "Binary files ") {
        "binary"
    } else {
        "modified"
    }
}

fn redact_exec(secrets: &Vec<&str>, text: String) -> (out: String)
    ensures
        out@ == redact_secrets(str_texts(secrets@), text@),
{
    let ghost all = str_texts(secrets@);
    let mut out = text;
    let ghost original = out@;
    let mut i: usize = 0;
    assert(all.subrange(0, 0) =~= Seq::<Seq<char>>::empty());
    while i < secrets.len()
        invariant
            i <= secrets@.len(),
            all == str_texts(secrets@),
            out@ == redact_secrets(all.subrange(0, i as int), original),
        decreases secrets@.len() - i,
    {
        let secret = secrets[i];
        proof {
            reveal_strlit("[REDACTED]");
            let pre = all.subrange(0, i + 1);
            assert(pre.drop_last() =~= all.subrange(0, i as int));
            assert(pre.last() == secret@);
        }
        if !secret.is_empty() {
            out = replace(out.as_str(), secret, "[REDACTED]");
        }
        i = i + 1;
    }
    assert(all.subrange(0, all.len() as int) =~= all);
    out
}


/// The state a loop holds, as a [`DescribeState`].
pub open spec fn state_of(
    in_hunk: bool,
    binary: bool,
    additions: usize,
    deletions: usize,
    excerpt: Seq<char>,
) -> DescribeState {
    DescribeState {
        in_hunk,
        binary,
        additions: additions as int,
        deletions: deletions as int,
        excerpt,
    }
}

fn slice_chars(t: &Vec<char>, a: usize, b: usize) -> (out: Vec<char>)
    requires
        a <= b <= t@.len(),
    ensures
        out@ == t@.subrange(a as int, b as int),
{
    let mut out: Vec<char> = Vec::new();
    let mut i = a;
    while i < b
        invariant
            a <= i <= b <= t@.len(),
            out@ == t@.subrange(a as int, i as int),
        decreases b - i,
    {
        out.push(t[i]);
        i = i + 1;
        assert(out@ == t@.subrange(a as int, i as int));
    }
    out
}

fn find_newline(s: &Vec<char>, p: usize) -> (e: usize)
    requires
        p <= s@.len(),
    ensures
        e == find(s@, '\n', p as int),
        p <= e <= s@.len(),
{
    let mut e = p;
    while e < s.len() && s[e] != '\n'
        invariant
            p <= e <= s@.len(),
            find(s@, '\n', e as int) == find(s@, '\n', p as int),
        decreases s@.len() - e,
    {
        e = e + 1;
    }
    e
}

/// The kind line and the bounded, credential-free excerpt of one diff section.
pub fn describe_section(section: &str, secrets: &Vec<&str>) -> (result: (String, String))
    ensures
        result.0@ == describe(section@, str_texts(secrets@)).0,
        result.1@ == describe(section@, str_texts(secrets@)).1,
{
    let s = chars_of(section);
    let mut in_hunk = false;
    let mut binary = false;
    let mut additions: usize = 0;
    let mut deletions: usize = 0;
    let mut excerpt: Vec<char> = Vec::new();
    let ghost init = DescribeState {
        in_hunk: false,
        binary: false,
        additions: 0,
        deletions: 0,
        excerpt: Seq::empty(),
    };
    let mut p: usize = 0;
    while p < s.len()
        invariant
            p <= s@.len(),
            s@ == section@,
            additions <= p,
            deletions <= p,
            init == (DescribeState {
                in_hunk: false,
                binary: false,
                additions: 0,
                deletions: 0,
                excerpt: Seq::empty(),
            }),
            describe_run(s@, 0, init) == describe_run(
                s@,
                p as int,
                state_of(in_hunk, binary, additions, deletions, excerpt@),
            ),
        decreases s@.len() - p,
    {
        let e = find_newline(&s, p);
        let ghost st = state_of(in_hunk, binary, additions, deletions, excerpt@);
        let (line, next) = if e < s.len() {
            let raw = slice_chars(&s, p, e);
            if raw.len() > 0 && raw[raw.len() - 1] == '\r' {
                let stripped = slice_chars(&raw, 0, raw.len() - 1);
                assert(stripped@ =~= raw@.drop_last());
                (stripped, e + 1)
            } else {
                (raw, e + 1)
            }
        } else {
            (slice_chars(&s, p, s.len()), s.len())
        };
        assert(line_at(s@, p as int) == (line@, next as int));
        binary = binary || starts_exec(&line, "GIT binary patch") || starts_exec(&line, "Binary files ");
        in_hunk = in_hunk || starts_exec(&line, "@@");
        if in_hunk {
            let added = starts_exec(&line, "+") && !starts_exec(&line, "+++");
            let deleted = !added && starts_exec(&line, "-") && !starts_exec(&line, "---");
            if added {
                additions = additions + 1;
            }
            if deleted {
                deletions = deletions + 1;
            }
            if !binary && below_bytes(&excerpt, MAX_EXCERPT_BYTES) {
                let ghost before = excerpt@;
                let mut j: usize = 0;
                while j < line.len()
                    invariant
                        j <= line@.len(),
                        excerpt@ == before + line@.subrange(0, j as int),
                    decreases line@.len() - j,
                {
                    excerpt.push(line[j]);
                    j = j + 1;
                    assert(excerpt@ =~= before + line@.subrange(0, j as int));
                }
                excerpt.push('\n');
                assert(excerpt@ =~= before + line@ + seq!['\n']);
            }
        }
        assert(describe_step(st, line@) == state_of(in_hunk, binary, additions, deletions, excerpt@));
        p = next;
    }
    let ghost fin = describe_run(s@, 0, init);
    let text = if binary {
        "[binary contents omitted]".to_owned()
    } else {
        let first = truncated(&excerpt, MAX_EXCERPT_BYTES);
        let redacted = redact_exec(secrets, string_from_chars(first.as_slice()));
        let again = truncated(&chars_of(redacted.as_str()), MAX_EXCERPT_BYTES);
        string_from_chars(again.as_slice())
    };
    let mut kind = String::new();
    push_str(&mut kind, section_kind_exec(&s));
    push_str(&mut kind, ": +");
    push_decimal(additions as u64, &mut kind);
    push_str(&mut kind, " -");
    push_decimal(deletions as u64, &mut kind);
    push_str(&mut kind, " lines");
    proof {
        reveal_strlit("[binary contents omitted]");
    }
    (kind, text)
}


/// The piece of `s` from `p` through the next line feed, and where the next
/// piece starts, as `str::split_inclusive('\n')` yields them.
pub open spec fn piece_at(s: Seq<char>, p: int) -> (Seq<char>, int) {
    let e = find(s, '\n', p);
    if e < s.len() {
        (s.subrange(p, e + 1), e + 1)
    } else {
        (s.subrange(p, s.len() as int), s.len() as int)
    }
}

/// The file sections of a diff: each starts at a `diff --git ` line.
pub open spec fn split_sections(
    s: Seq<char>,
    p: int,
    current: Seq<char>,
    done: Seq<Seq<char>>,
) -> Option<Seq<Seq<char>>>
    decreases s.len() - p,
{
    if p < 0 || p >= s.len() {
        Some(
            if current.len() > 0 {
                done.push(current)
            } else {
                done
            },
        )
    } else {
        let (piece, next) = piece_at(s, p);
        proof {
            crate::config::lemma_find(s, '\n', p);
        }
        if starts(piece, "diff --git "@) {
            split_sections(
                s,
                next,
                piece,
                if current.len() > 0 {
                    done.push(current)
                } else {
                    done
                },
            )
        } else if current.len() == 0 {
            None
        } else {
            split_sections(s, next, current + piece, done)
        }
    }
}

/// The identifier of a section: a prefix of the digest of its bytes.
pub open spec fn change_id(section: Seq<char>) -> Seq<char> {
    "chg_"@ + hex_text(sha256_of(vstd::utf8::encode_utf8(section)).subrange(0, 10))
}

/// The changes of a staged diff as (id, kind, excerpt), or the error code.
pub open spec fn changes_of(diff: Seq<char>, secrets: Seq<Seq<char>>) -> Result<
    Seq<(Seq<char>, Seq<char>, Seq<char>)>,
    ErrorCode,
> {
    match split_sections(diff, 0, Seq::empty(), Seq::empty()) {
        None => Err(ErrorCode::UnsupportedCapability),
        Some(sections) => if sections.len() > MAX_CHANGES {
            Err(ErrorCode::BudgetExhausted)
        } else if !Seq::new(sections.len(), |k: int| change_id(sections[k])).no_duplicates() {
            Err(ErrorCode::StateConflict)
        } else {
            Ok(
                Seq::new(
                    sections.len(),
                    |k: int|
                        (
                            change_id(sections[k]),
                            describe(sections[k], secrets).0,
                            describe(sections[k], secrets).1,
                        ),
                ),
            )
        },
    }
}

/// The (id, kind, excerpt) of one section.
pub open spec fn change_entry(section: Seq<char>, secrets: Seq<Seq<char>>) -> (Seq<char>, Seq<char>, Seq<char>) {
    (change_id(section), describe(section, secrets).0, describe(section, secrets).1)
}

/// The (id, kind, excerpt) texts of changes.
pub open spec fn change_texts(changes: Seq<Change>) -> Seq<(Seq<char>, Seq<char>, Seq<char>)> {
    Seq::new(changes.len(), |k: int| (changes[k].id@, changes[k].kind@, changes[k].excerpt@))
}

fn sections_exec(diff: &str) -> (result: Option<Vec<Vec<char>>>)
    ensures
        match split_sections(diff@, 0, Seq::empty(), Seq::empty()) {
            Some(sections) => result matches Some(v) && v@.len() == sections.len() && forall|k: int|
                0 <= k < sections.len() ==> (#[trigger] v@[k])@ == sections[k],
            None => result is None,
        },
{
    let s = chars_of(diff);
    let mut current: Vec<char> = Vec::new();
    let mut done: Vec<Vec<char>> = Vec::new();
    let ghost target = split_sections(s@, 0, Seq::empty(), Seq::empty());
    let mut p: usize = 0;
    assert(Seq::new(done@.len(), |k: int| done@[k]@) =~= Seq::<Seq<char>>::empty());
    while p < s.len()
        invariant
            p <= s@.len(),
            s@ == diff@,
            target == split_sections(diff@, 0, Seq::empty(), Seq::empty()),
            target == split_sections(
                s@,
                p as int,
                current@,
                Seq::new(done@.len(), |k: int| done@[k]@),
            ),
        decreases s@.len() - p,
    {
        let e = find_newline(&s, p);
        let next = if e < s.len() {
            e + 1
        } else {
            s.len()
        };
        let piece = slice_chars(&s, p, next);
        assert(piece_at(s@, p as int) == (piece@, next as int));
        let ghost old_done = Seq::new(done@.len(), |k: int| done@[k]@);
        if starts_exec(&piece, "diff --git ") {
            if current.len() > 0 {
                let finished = current;
                done.push(finished);
                assert(Seq::new(done@.len(), |k: int| done@[k]@) =~= old_done.push(finished@));
            }
            current = piece;
        } else if current.len() == 0 {
            return None;
        } else {
            let ghost before = current@;
            let mut j: usize = 0;
            while j < piece.len()
                invariant
                    j <= piece@.len(),
                    current@ == before + piece@.subrange(0, j as int),
                decreases piece@.len() - j,
            {
                current.push(piece[j]);
                j = j + 1;
                assert(current@ =~= before + piece@.subrange(0, j as int));
            }
            assert(current@ =~= before + piece@);
        }
        p = next;
    }
    if current.len() > 0 {
        let ghost old_done = Seq::new(done@.len(), |k: int| done@[k]@);
        done.push(current);
        assert(Seq::new(done@.len(), |k: int| done@[k]@) =~= old_done.push(done@[done@.len() - 1]@));
    }
    Some(done)
}

/// Split a staged diff into bounded, digest-identified file changes.
pub fn parse_changes(diff: &str, secrets: &Vec<&str>) -> (result: Result<Vec<Change>, KoruError>)
    ensures
        match changes_of(diff@, str_texts(secrets@)) {
            Ok(changes) => result matches Ok(v) && change_texts(v@) == changes,
            Err(code) => result matches Err(e) && e.spec_code() == code,
        },
{
    let sections = match sections_exec(diff) {
        Some(sections) => sections,
        None => {
            return Err(KoruError::new(
                ErrorCode::UnsupportedCapability,
                "Git returned an unrecognized staged diff format",
            ));
        },
    };
    let ghost spec_sections = split_sections(diff@, 0, Seq::empty(), Seq::empty())->0;
    if sections.len() > MAX_CHANGES {
        return Err(KoruError::new(
            ErrorCode::BudgetExhausted,
            "staged diff contains more than 64 file changes",
        ));
    }
    let ghost ids = Seq::new(spec_sections.len(), |k: int| change_id(spec_sections[k]));
    let mut changes: Vec<Change> = Vec::new();
    let mut i: usize = 0;
    while i < sections.len()
        invariant
            i <= sections@.len(),
            sections@.len() == spec_sections.len(),
            forall|k: int| 0 <= k < spec_sections.len() ==> (#[trigger] sections@[k])@ == spec_sections[k],
            spec_sections == split_sections(diff@, 0, Seq::empty(), Seq::empty())->0,
            split_sections(diff@, 0, Seq::empty(), Seq::empty()) is Some,
            spec_sections.len() <= MAX_CHANGES,
            ids == Seq::new(spec_sections.len(), |k: int| change_id(spec_sections[k])),
            changes@.len() == i,
            forall|k: int| 0 <= k < i ==> (#[trigger] changes@[k]).id@ == ids[k],
            forall|a: int, b: int| 0 <= a < b < i ==> ids[a] != ids[b],
            forall|m: int| 0 <= m < i ==> #[trigger] change_texts(changes@)[m] == change_entry(spec_sections[m], str_texts(secrets@)),
        decreases sections@.len() - i,
    {
        let text = string_from_chars(sections[i].as_slice());
        let digest = sha256(text.as_str().as_bytes());
        let mut head: Vec<u8> = Vec::new();
        let mut j: usize = 0;
        while j < 10
            invariant
                j <= 10,
                digest@.len() == 32,
                head@ == digest@.subrange(0, j as int),
            decreases 10 - j,
        {
            head.push(digest[j]);
            j = j + 1;
            assert(head@ =~= digest@.subrange(0, j as int));
        }
        let mut id = String::new();
        push_str(&mut id, "chg_");
        crate::hash::push_hex(&mut id, head.as_slice());
        proof {
            reveal_strlit("chg_");
            assert(id@ =~= change_id(spec_sections[i as int]));
        }
        let mut k: usize = 0;
        while k < changes.len()
            invariant
                k <= changes@.len(),
                changes@.len() == i,
                i < spec_sections.len(),
                spec_sections == split_sections(diff@, 0, Seq::empty(), Seq::empty())->0,
                split_sections(diff@, 0, Seq::empty(), Seq::empty()) is Some,
                spec_sections.len() <= MAX_CHANGES,
                id@ == ids[i as int],
                ids == Seq::new(spec_sections.len(), |k: int| change_id(spec_sections[k])),
                forall|m: int| 0 <= m < i ==> (#[trigger] changes@[m]).id@ == ids[m],
                forall|m: int| 0 <= m < k ==> ids[m] != ids[i as int],
            decreases changes@.len() - k,
        {
            if str_eq(changes[k].id.as_str(), id.as_str()) {
                proof {
                    assert(ids[k as int] == ids[i as int]);
                    assert(!ids.no_duplicates());
                }
                return Err(KoruError::new(ErrorCode::StateConflict, "staged change identifier collision"));
            }
            k = k + 1;
        }
        assert(text@ == spec_sections[i as int]);
        let (kind, excerpt) = describe_section(text.as_str(), secrets);
        let ghost before = changes@;
        changes.push(Change { id, kind, excerpt });
        proof {
            assert forall|m: int| 0 <= m < i + 1 implies #[trigger] change_texts(changes@)[m] == change_entry(spec_sections[m], str_texts(secrets@)) by {
                if m < i {
                    assert(changes@[m] == before[m]);
                    assert(change_texts(before)[m] == change_entry(spec_sections[m], str_texts(secrets@)));
                }
            }
        }
        i = i + 1;
    }
    proof {
        assert(change_texts(changes@) =~= Seq::new(
            spec_sections.len(),
            |k: int|
                (
                    change_id(spec_sections[k]),
                    describe(spec_sections[k], str_texts(secrets@)).0,
                    describe(spec_sections[k], str_texts(secrets@)).1,
                ),
        )) by {
            assert forall|m: int| 0 <= m < spec_sections.len() implies #[trigger] change_texts(changes@)[m] == change_entry(spec_sections[m], str_texts(secrets@)) by {
            }
        }
        assert(ids.no_duplicates()) by {
            assert forall|a: int, b: int| 0 <= a < ids.len() && 0 <= b < ids.len() && a != b implies ids[a] != ids[b] by {
                if a < b {
                } else {
                }
            }
        }
    }
    Ok(changes)
}


/// A bounded staged change snapshot for one plan-only workflow.
#[derive(Debug, Clone)]
pub struct Snapshot {
    /// The file-level changes, in diff order.
    pub changes: Vec<Change>,
    /// Digest of the repository identity followed by the staged diff.
    pub digest: [u8; 32],
}

/// What a staged-diff run yields, from the repository identity, the run's
/// exit code, its stdout and whether stdout was cut off, and the credentials
/// to redact: the changes with the snapshot digest, or the error.
pub open spec fn snapshot_of(
    repository: Seq<u8>,
    exit_code: Option<i32>,
    stdout: Seq<u8>,
    truncated: bool,
    secrets: Seq<Seq<char>>,
) -> Result<(Seq<(Seq<char>, Seq<char>, Seq<char>)>, Seq<u8>), ErrorCode> {
    if exit_code != Some(0i32) {
        Err(ErrorCode::Validation)
    } else if truncated {
        Err(ErrorCode::BudgetExhausted)
    } else if !vstd::utf8::valid_utf8(stdout) {
        Err(ErrorCode::UnsupportedCapability)
    } else {
        match changes_of(vstd::utf8::decode_utf8(stdout), secrets) {
            Err(code) => Err(code),
            Ok(changes) => if changes.len() == 0 {
                Err(ErrorCode::Validation)
            } else {
                Ok((changes, sha256_of(repository + stdout)))
            },
        }
    }
}

/// The snapshot from what the approved staged-diff process produced.
pub fn finish_snapshot(
    repository: &Vec<u8>,
    exit_code: Option<i32>,
    stdout: &Vec<u8>,
    truncated: bool,
    secrets: &Vec<&str>,
) -> (result: Result<Snapshot, KoruError>)
    ensures
        match snapshot_of(repository@, exit_code, stdout@, truncated, str_texts(secrets@)) {
            Ok((changes, digest)) => result matches Ok(snapshot) && change_texts(
                snapshot.changes@,
            ) == changes && snapshot.digest@ == digest,
            Err(code) => result matches Err(e) && e.spec_code() == code,
        },
{
    if exit_code != Some(0i32) {
        return Err(KoruError::new(ErrorCode::Validation, "Git could not read the staged diff"));
    }
    if truncated {
        return Err(KoruError::new(
            ErrorCode::BudgetExhausted,
            "staged diff exceeds the 64 KiB snapshot limit",
        ));
    }
    let diff = match crate::json::parse::utf8_text(stdout.as_slice()) {
        Some(text) => text,
        None => {
            return Err(KoruError::new(
                ErrorCode::UnsupportedCapability,
                "staged diff is not valid UTF-8; it cannot be sent to Lua safely",
            ));
        },
    };
    let changes = match parse_changes(diff, secrets) {
        Ok(changes) => changes,
        Err(e) => {
            return Err(e);
        },
    };
    if changes.len() == 0 {
        return Err(KoruError::new(ErrorCode::Validation, "there are no staged changes to plan"));
    }
    let mut data = crate::text::copy_bytes(repository);
    let mut i: usize = 0;
    while i < stdout.len()
        invariant
            i <= stdout@.len(),
            data@ == repository@ + stdout@.subrange(0, i as int),
        decreases stdout@.len() - i,
    {
        data.push(stdout[i]);
        assert(stdout@.subrange(0, i + 1) =~= stdout@.subrange(0, i as int).push(stdout@[i as int]));
        i = i + 1;
    }
    assert(stdout@.subrange(0, stdout@.len() as int) =~= stdout@);
    let digest = sha256(data.as_slice());
    Ok(Snapshot { changes, digest })
}


proof fn lemma_kind_prefix(section: Seq<char>, secrets: Seq<Seq<char>>, kind: Seq<char>, head: Seq<char>)
    requires
        section_kind(section) == kind,
        head == kind + ": +"@,
    ensures
        head.is_prefix_of(describe(section, secrets).0),
{
    let line = describe(section, secrets).0;
    assert(line.subrange(0, head.len() as int) =~= head);
}

/// The kind line of a change names the git header its section carries, and
/// nothing else decides it: a section with a `new file mode ` header is
/// "added"; otherwise one with `deleted file mode ` is "deleted"; otherwise one
/// with `rename from ` is "renamed"; otherwise one with a binary marker is
/// "binary"; one with none of these is "modified".
pub proof fn kind_names_the_header(section: Seq<char>, secrets: Seq<Seq<char>>)
    ensures
        contains_seq(section, "new file mode "@) ==> "added: +"@.is_prefix_of(
            describe(section, secrets).0,
        ),
        !contains_seq(section, "new file mode "@) && contains_seq(section, "deleted file mode "@)
            ==> "deleted: +"@.is_prefix_of(describe(section, secrets).0),
        !contains_seq(section, "new file mode "@) && !contains_seq(section, "deleted file mode "@)
            && contains_seq(section, "rename from "@) ==> "renamed: +"@.is_prefix_of(
            describe(section, secrets).0,
        ),
        !contains_seq(section, "new file mode "@) && !contains_seq(section, "deleted file mode "@)
            && !contains_seq(section, "rename from "@) && (contains_seq(section, "GIT binary patch"@)
            || contains_seq(section, "Binary files "@)) ==> "binary: +"@.is_prefix_of(
            describe(section, secrets).0,
        ),
        !contains_seq(section, "new file mode "@) && !contains_seq(section, "deleted file mode "@)
            && !contains_seq(section, "rename from "@) && !contains_seq(section, "GIT binary patch"@)
            && !contains_seq(section, "Binary files "@) ==> "modified: +"@.is_prefix_of(
            describe(section, secrets).0,
        ),
{
    reveal_strlit("added");
    reveal_strlit("deleted");
    reveal_strlit("renamed");
    reveal_strlit("modified");
    reveal_strlit(": +");
    reveal_strlit("added: +");
    reveal_strlit("deleted: +");
    reveal_strlit("renamed: +");
    reveal_strlit("modified: +");
    reveal_strlit("binary");
    reveal_strlit("binary: +");
    let k = section_kind(section);
    if k == "added"@ {
        assert("added: +"@ =~= "added"@ + ": +"@);
        lemma_kind_prefix(section, secrets, k, "added: +"@);
    } else if k == "deleted"@ {
        assert("deleted: +"@ =~= "deleted"@ + ": +"@);
        lemma_kind_prefix(section, secrets, k, "deleted: +"@);
    } else if k == "renamed"@ {
        assert("renamed: +"@ =~= "renamed"@ + ": +"@);
        lemma_kind_prefix(section, secrets, k, "renamed: +"@);
    } else if k == "modified"@ {
        assert("modified: +"@ =~= "modified"@ + ": +"@);
        lemma_kind_prefix(section, secrets, k, "modified: +"@);
    } else if k == "binary"@ {
        assert("binary: +"@ =~= "binary"@ + ": +"@);
        lemma_kind_prefix(section, secrets, k, "binary: +"@);
    }
}

/// The texts of a list joined end to end.
pub open spec fn joined(texts: Seq<Seq<char>>) -> Seq<char>
    decreases texts.len(),
{
    if texts.len() == 0 {
        Seq::empty()
    } else {
        joined(texts.drop_last()) + texts.last()
    }
}

proof fn lemma_split_covers(s: Seq<char>, p: int, current: Seq<char>, done: Seq<Seq<char>>)
    requires
        0 <= p <= s.len(),
        joined(done) + current == s.subrange(0, p),
        forall|k: int| 0 <= k < done.len() ==> starts(#[trigger] done[k], "diff --git "@),
        current.len() > 0 ==> starts(current, "diff --git "@),
    ensures
        split_sections(s, p, current, done) matches Some(sections) ==> joined(sections) == s
            && forall|k: int| 0 <= k < sections.len() ==> starts(#[trigger] sections[k], "diff --git "@),
    decreases s.len() - p,
{
    let d = "diff --git "@;
    if p >= s.len() {
        assert(s.subrange(0, p) =~= s);
        if current.len() > 0 {
            assert(done.push(current).drop_last() =~= done);
        }
    } else {
        crate::config::lemma_find(s, '\n', p);
        let (piece, next) = piece_at(s, p);
        assert(p < next <= s.len());
        assert(piece =~= s.subrange(p, next));
        assert(s.subrange(0, p) + piece =~= s.subrange(0, next));
        if starts(piece, d) {
            let pushed = if current.len() > 0 {
                done.push(current)
            } else {
                done
            };
            if current.len() > 0 {
                assert(done.push(current).drop_last() =~= done);
                assert forall|k: int| 0 <= k < pushed.len() implies starts(#[trigger] pushed[k], d) by {
                    if k < done.len() {
                        assert(pushed[k] == done[k]);
                    }
                }
            } else {
                assert(current =~= Seq::<char>::empty());
                assert(joined(done) + current =~= joined(done));
            }
            assert(joined(pushed) + piece =~= s.subrange(0, next));
            lemma_split_covers(s, next, piece, pushed);
        } else if current.len() > 0 {
            assert((current + piece).subrange(0, d.len() as int) =~= current.subrange(0, d.len() as int));
            assert(joined(done) + (current + piece) =~= s.subrange(0, next));
            lemma_split_covers(s, next, current + piece, done);
        }
    }
}

/// The sections of a diff are the diff cut apart: joined in order they give
/// the whole diff back, and each starts with a `diff --git ` line.
pub proof fn sections_partition_the_diff(diff: Seq<char>)
    ensures
        split_sections(diff, 0, Seq::empty(), Seq::empty()) matches Some(sections) ==> joined(sections)
            == diff && forall|k: int|
            0 <= k < sections.len() ==> starts(#[trigger] sections[k], "diff --git "@),
{
    assert(joined(Seq::<Seq<char>>::empty()) + Seq::<char>::empty() =~= diff.subrange(0, 0));
    lemma_split_covers(diff, 0, Seq::empty(), Seq::empty());
}

/// Each line of a section is counted by its sign once a hunk has begun: a
/// line starting `+` (but not `+++`) adds one to the added lines, a line
/// starting `-` (but not `---`) adds one to the deleted lines, and any other
/// line, or any line before the first `@@` header, changes neither count.
pub proof fn hunk_lines_are_counted_by_their_sign(st: DescribeState, line: Seq<char>)
    ensures
        ({
            let next = describe_step(st, line);
            let in_hunk = st.in_hunk || starts(line, "@@"@);
            &&& in_hunk && starts(line, "+"@) && !starts(line, "+++"@) ==> next.additions
                == st.additions + 1 && next.deletions == st.deletions
            &&& in_hunk && starts(line, "-"@) && !starts(line, "---"@) ==> next.deletions
                == st.deletions + 1 && next.additions == st.additions
            &&& !in_hunk || (!starts(line, "+"@) && !starts(line, "-"@)) ==> next.additions
                == st.additions && next.deletions == st.deletions
        }),
{
    reveal_strlit("+");
    reveal_strlit("-");
    if starts(line, "+"@) && starts(line, "-"@) {
        assert(line.subrange(0, 1)[0] == line[0]);
        assert("+"@[0] != "-"@[0]);
    }
}

proof fn lemma_find_before(t: Seq<char>, c: char, i: int)
    requires
        0 <= i <= t.len(),
    ensures
        forall|k: int| i <= k < find(t, c, i) ==> t[k] != c,
    decreases t.len() - i,
{
    if i < t.len() && t[i] != c {
        lemma_find_before(t, c, i + 1);
    }
}

proof fn lemma_run_counts_nonneg(s: Seq<char>, p: int, st: DescribeState)
    requires
        st.additions >= 0,
        st.deletions >= 0,
    ensures
        describe_run(s, p, st).additions >= 0,
        describe_run(s, p, st).deletions >= 0,
    decreases s.len() - p,
{
    if 0 <= p < s.len() {
        crate::config::lemma_find(s, '\n', p);
        let (line, next) = line_at(s, p);
        lemma_run_counts_nonneg(s, next, describe_step(st, line));
    }
}

/// Reading a section, then more text after its last line feed, is reading the
/// lines of the section and then the lines of the rest.
proof fn lemma_run_append(s: Seq<char>, x: Seq<char>, p: int, st: DescribeState)
    requires
        0 <= p <= s.len(),
        s.len() == 0 || s.last() == '\n',
    ensures
        describe_run(s + x, p, st) == describe_run(s + x, s.len() as int, describe_run(s, p, st)),
    decreases s.len() - p,
{
    let t = s + x;
    if p < s.len() {
        crate::config::lemma_find(s, '\n', p);
        lemma_find_before(s, '\n', p);
        let e = find(s, '\n', p);
        if e >= s.len() {
            assert(s[s.len() - 1] != '\n');
        }
        assert(e < s.len());
        assert forall|k: int| p <= k < e implies t[k] != '\n' by {
            assert(t[k] == s[k]);
        }
        crate::config::lemma_find_at(t, '\n', p, e);
        assert(t.subrange(p, e) =~= s.subrange(p, e));
        assert(line_at(t, p) == line_at(s, p));
        let (line, next) = line_at(s, p);
        lemma_run_append(s, x, next, describe_step(st, line));
    }
}

/// Reading a section and one more line is one more step after reading it.
proof fn lemma_run_last_line(s: Seq<char>, line: Seq<char>, st: DescribeState)
    requires
        s.len() == 0 || s.last() == '\n',
        forall|k: int| 0 <= k < line.len() ==> line[k] != '\n',
        line.len() == 0 || line.last() != '\r',
    ensures
        describe_run(s + line + seq!['\n'], 0, st) == describe_step(describe_run(s, 0, st), line),
{
    let x = line + seq!['\n'];
    let t = s + x;
    assert(s + line + seq!['\n'] =~= t);
    lemma_run_append(s, x, 0, st);
    let st1 = describe_run(s, 0, st);
    let at = s.len() as int;
    assert forall|k: int| at <= k < t.len() - 1 implies t[k] != '\n' by {
        assert(t[k] == line[k - at]);
    }
    crate::config::lemma_find_at(t, '\n', at, t.len() - 1);
    assert(t.subrange(at, t.len() - 1) =~= line);
    assert(line_at(t, at) == (line, t.len() as int));
    assert(describe_run(t, at, st1) == describe_run(t, t.len() as int, describe_step(st1, line)));
}

/// Within a hunk, an added line raises the added count of a change by one and
/// a deleted line raises its deleted count by one, the other count staying:
/// for a section that ends with a hunk header line, the kind line reads
/// `+a -d` before and `+(a+1) -d` or `+a -(d+1)` after one more such line.
pub proof fn hunk_lines_move_the_counts(
    before: Seq<char>,
    header: Seq<char>,
    line: Seq<char>,
    secrets: Seq<Seq<char>>,
)
    requires
        before.len() == 0 || before.last() == '\n',
        forall|k: int| 0 <= k < header.len() ==> header[k] != '\n',
        header.len() == 0 || header.last() != '\r',
        starts(header, "@@"@),
        forall|k: int| 0 <= k < line.len() ==> line[k] != '\n',
        line.len() == 0 || line.last() != '\r',
    ensures
        ({
            let section = before + header + seq!['\n'];
            let longer = section + line + seq!['\n'];
            &&& starts(line, "+"@) && !starts(line, "+++"@) ==> exists|a: nat, d: nat|
                describe(section, secrets).0 == section_kind(section) + ": +"@ + #[trigger] nat_text(a)
                    + " -"@ + #[trigger] nat_text(d) + " lines"@ && describe(longer, secrets).0
                    == section_kind(longer) + ": +"@ + nat_text(a + 1) + " -"@ + nat_text(d)
                    + " lines"@
            &&& starts(line, "-"@) && !starts(line, "---"@) ==> exists|a: nat, d: nat|
                describe(section, secrets).0 == section_kind(section) + ": +"@ + #[trigger] nat_text(a)
                    + " -"@ + #[trigger] nat_text(d) + " lines"@ && describe(longer, secrets).0
                    == section_kind(longer) + ": +"@ + nat_text(a) + " -"@ + nat_text(d + 1)
                    + " lines"@
        }),
{
    let section = before + header + seq!['\n'];
    let longer = section + line + seq!['\n'];
    let st0 = DescribeState {
        in_hunk: false,
        binary: false,
        additions: 0,
        deletions: 0,
        excerpt: Seq::empty(),
    };
    lemma_run_last_line(before, header, st0);
    lemma_run_last_line(section, line, st0);
    let mid = describe_run(before, 0, st0);
    lemma_run_counts_nonneg(before, 0, st0);
    let st1 = describe_run(section, 0, st0);
    assert(st1 == describe_step(mid, header));
    assert(st1.in_hunk);
    assert(st1.additions >= 0 && st1.deletions >= 0);
    hunk_lines_are_counted_by_their_sign(st1, line);
    let st2 = describe_run(longer, 0, st0);
    assert(st2 == describe_step(st1, line));
    let a = st1.additions as nat;
    let d = st1.deletions as nat;
    assert(describe(section, secrets).0 == section_kind(section) + ": +"@ + nat_text(a) + " -"@
        + nat_text(d) + " lines"@);
    if starts(line, "+"@) && !starts(line, "+++"@) {
        assert(st2.additions as nat == a + 1 && st2.deletions as nat == d);
        assert(describe(longer, secrets).0 == section_kind(longer) + ": +"@ + nat_text(a + 1) + " -"@
            + nat_text(d) + " lines"@);
    }
    if starts(line, "-"@) && !starts(line, "---"@) {
        assert(st2.deletions as nat == d + 1 && st2.additions as nat == a);
        assert(describe(longer, secrets).0 == section_kind(longer) + ": +"@ + nat_text(a) + " -"@
            + nat_text(d + 1) + " lines"@);
    }
}

} // verus!
