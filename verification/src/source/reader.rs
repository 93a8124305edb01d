//! The leading module declaration header of a command or module source.
//!
//! A source declares its pure-Lua dependencies in leading comment lines of the
//! form `-- koru-module: name`. Blank lines, ordinary comments and long comments
//! may appear among them; the header ends at the first line of code.
use crate::config::{find, is_space, lead, lemma_find, trim};
use crate::credentials::occurs_at;
use crate::error::{ErrorCode, KoruError};
use crate::source::names::{is_module_name, is_module};
use crate::text::{chars_of, push_str, string_from_chars};
use vstd::prelude::*;

verus! {

broadcast use vstd::string::group_string_axioms;

/// `t` without leading white space.
pub open spec fn trim_start(t: Seq<char>) -> Seq<char> {
    t.subrange(lead(t, 0), t.len() as int)
}

/// The first position at or after `i` where `pat` occurs.
pub open spec fn find_seq(t: Seq<char>, pat: Seq<char>, i: int) -> Option<int>
    decreases t.len() + 1 - i,
{
    if i < 0 || i + pat.len() > t.len() {
        None
    } else if occurs_at(t, i, pat) {
        Some(i)
    } else {
        find_seq(t, pat, i + 1)
    }
}

/// The number of `=` characters starting at `i`.
pub open spec fn eq_run(t: Seq<char>, i: int) -> int
    decreases t.len() - i,
{
    if 0 <= i < t.len() && t[i] == '=' {
        1 + eq_run(t, i + 1)
    } else {
        0
    }
}

/// The closing bracket of a long comment opened with `n` equals signs.
pub open spec fn long_close(n: int) -> Seq<char> {
    seq![']'] + Seq::new(n as nat, |k: int| '=') + seq![']']
}

/// The header scan state: the declared modules, a pending long-comment close,
/// and whether the header has ended.
pub struct HeaderState {
    /// Declared modules, in order.
    pub deps: Seq<Seq<char>>,
    /// The closing bracket of an open long comment.
    pub close: Option<Seq<char>>,
    /// Whether code has been reached.
    pub done: bool,
}

/// Handle a declaration or the end of the header in `rest`.
pub open spec fn directive(st: HeaderState, rest: Seq<char>) -> Option<HeaderState> {
    if occurs_at(rest, 0, "-- koru-module:"@) {
        let name = trim(rest.subrange(15, rest.len() as int));
        if !is_module_name(name) || st.deps.contains(name) {
            None
        } else {
            Some(HeaderState { deps: st.deps.push(name), ..st })
        }
    } else if rest.len() > 0 && !occurs_at(rest, 0, "--"@) {
        Some(HeaderState { done: true, ..st })
    } else {
        Some(st)
    }
}

/// Skip a long comment opened in `rest`, then handle what follows it.
pub open spec fn after_comment(st: HeaderState, rest: Seq<char>) -> Option<HeaderState> {
    if occurs_at(rest, 0, "--["@) {
        let opener = rest.subrange(3, rest.len() as int);
        let n = eq_run(opener, 0);
        if n < opener.len() && opener[n] == '[' {
            let close = long_close(n);
            let inside = opener.subrange(n + 1, opener.len() as int);
            match find_seq(inside, close, 0) {
                Some(at) => directive(
                    st,
                    trim_start(inside.subrange(at + close.len(), inside.len() as int)),
                ),
                None => Some(HeaderState { close: Some(close), ..st }),
            }
        } else {
            directive(st, rest)
        }
    } else {
        directive(st, rest)
    }
}

/// The state after one line of the header.
pub open spec fn header_step(st: HeaderState, line: Seq<char>) -> Option<HeaderState> {
    if st.done {
        Some(st)
    } else {
        let rest = trim_start(line);
        match st.close {
            Some(close) => match find_seq(rest, close, 0) {
                None => Some(st),
                Some(at) => after_comment(
                    HeaderState { close: None, ..st },
                    trim_start(rest.subrange(at + close.len(), rest.len() as int)),
                ),
            },
            None => after_comment(st, rest),
        }
    }
}

/// The state after the lines starting at `p`.
///
/// Lines are split at `\n`; a `\r` before it and an empty last line change
/// nothing here, as every use of a line trims or searches it.
pub open spec fn header_run(s: Seq<char>, p: int, st: HeaderState) -> Option<HeaderState>
    decreases s.len() - p,
{
    if p < 0 || p > s.len() {
        None
    } else {
        let e = find(s, '\n', p);
        proof {
            lemma_find(s, '\n', p);
        }
        match header_step(st, s.subrange(p, e)) {
            None => None,
            Some(next) => if e < s.len() {
                header_run(s, e + 1, next)
            } else {
                Some(next)
            },
        }
    }
}

/// The modules a source declares, or `None` when a declaration is invalid or
/// repeated.
pub open spec fn declared_modules(text: Seq<char>) -> Option<Seq<Seq<char>>> {
    match header_run(text, 0, HeaderState { deps: Seq::empty(), close: None, done: false }) {
        Some(st) => Some(st.deps),
        None => None,
    }
}

/// The texts of a list of strings.
pub open spec fn string_texts(items: Seq<String>) -> Seq<Seq<char>> {
    Seq::new(items.len(), |k: int| items[k]@)
}

fn slice_of(t: &Vec<char>, a: usize, b: usize) -> (out: Vec<char>)
    requires
        a <= b <= t@.len(),
    ensures
        out@ == t@.subrange(a as int, b as int),
{
    let mut out: Vec<char> = Vec::new();
    let mut i = a;
    while i < b
        invariant
            a <= i <= b <= t@.len(),
            out@ == t@.subrange(a as int, i as int),
        decreases b - i,
    {
        out.push(t[i]);
        i = i + 1;
        assert(out@ == t@.subrange(a as int, i as int));
    }
    out
}

fn trim_start_exec(t: &Vec<char>) -> (out: Vec<char>)
    ensures
        out@ == trim_start(t@),
{
    let mut a: usize = 0;
    while a < t.len() && crate::config::is_space_exec(t[a])
        invariant
            a <= t@.len(),
            lead(t@, a as int) == lead(t@, 0),
        decreases t@.len() - a,
    {
        a = a + 1;
    }
    slice_of(t, a, t.len())
}

pub(crate) fn occurs_exec(t: &Vec<char>, i: usize, pat: &Vec<char>) -> (found: bool)
    requires
        i <= t@.len(),
    ensures
        found == occurs_at(t@, i as int, pat@),
{
    let tl = t.len();
    if pat.len() > tl - i {
        return false;
    }
    let mut k: usize = 0;
    while k < pat.len()
        invariant
            tl == t@.len(),
            k <= pat@.len(),
            i + pat@.len() <= t@.len(),
            forall|j: int| 0 <= j < k ==> t@[i + j] == pat@[j],
        decreases pat@.len() - k,
    {
        if t[i + k] != pat[k] {
            assert(t@.subrange(i as int, i + pat@.len())[k as int] != pat@[k as int]);
            return false;
        }
        k = k + 1;
    }
    assert(t@.subrange(i as int, i + pat@.len()) =~= pat@);
    true
}

fn find_seq_exec(t: &Vec<char>, pat: &Vec<char>) -> (at: Option<usize>)
    ensures
        match find_seq(t@, pat@, 0) {
            Some(i) => at == Some(i as usize) && 0 <= i && i + pat@.len() <= t@.len(),
            None => at is None,
        },
{
    let mut i: usize = 0;
    while i <= t.len()
        invariant
            i <= t@.len() + 1,
            find_seq(t@, pat@, 0) == find_seq(t@, pat@, i as int),
        decreases t@.len() + 1 - i,
    {
        if pat.len() > t.len() - i {
            return None;
        }
        if occurs_exec(t, i, pat) {
            return Some(i);
        }
        if i == t.len() {
            proof {
                if pat@.len() == 0 {
                    assert(t@.subrange(i as int, i as int) =~= pat@);
                }
            }
            return None;
        }
        i = i + 1;
    }
    None
}

fn literal_chars(lit: &str) -> (out: Vec<char>)
    ensures
        out@ == lit@,
{
    chars_of(lit)
}

fn long_close_exec(n: usize) -> (close: Vec<char>)
    ensures
        close@ == long_close(n as int),
{
    let mut close: Vec<char> = Vec::new();
    close.push(']');
    let mut k: usize = 0;
    while k < n
        invariant
            k <= n,
            close@ == seq![']'] + Seq::new(k as nat, |j: int| '='),
        decreases n - k,
    {
        close.push('=');
        k = k + 1;
        assert(close@ =~= seq![']'] + Seq::new(k as nat, |j: int| '='));
    }
    close.push(']');
    assert(close@ =~= long_close(n as int));
    close
}

fn eq_run_exec(t: &Vec<char>) -> (n: usize)
    ensures
        n == eq_run(t@, 0),
        n <= t@.len(),
{
    let mut k: usize = 0;
    while k < t.len() && t[k] == '='
        invariant
            k <= t@.len(),
            eq_run(t@, 0) == k + eq_run(t@, k as int),
        decreases t@.len() - k,
    {
        k = k + 1;
    }
    k
}

pub(crate) fn contains_text(items: &Vec<String>, name: &str) -> (found: bool)
    ensures
        found == string_texts(items@).contains(name@),
{
    let mut i: usize = 0;
    while i < items.len()
        invariant
            i <= items@.len(),
            forall|k: int| 0 <= k < i ==> string_texts(items@)[k] != name@,
        decreases items@.len() - i,
    {
        if crate::text::str_eq(items[i].as_str(), name) {
            assert(string_texts(items@)[i as int] == name@);
            return true;
        }
        i = i + 1;
    }
    false
}

fn trimmed(t: &Vec<char>) -> (out: Vec<char>)
    ensures
        out@ == trim(t@),
{
    let mut a: usize = 0;
    while a < t.len() && crate::config::is_space_exec(t[a])
        invariant
            a <= t@.len(),
            lead(t@, a as int) == lead(t@, 0),
        decreases t@.len() - a,
    {
        a = a + 1;
    }
    let mut b: usize = t.len();
    while b > a && crate::config::is_space_exec(t[b - 1])
        invariant
            a <= b <= t@.len(),
            a == lead(t@, 0),
            crate::config::trail(t@, a as int, b as int) == crate::config::trail(
                t@,
                a as int,
                t@.len() as int,
            ),
        decreases b - a,
    {
        b = b - 1;
    }
    slice_of(t, a, b)
}

/// Mutable scan state.
struct Scan {
    deps: Vec<String>,
    close: Option<Vec<char>>,
    done: bool,
}

impl Scan {
    spec fn model(&self) -> HeaderState {
        HeaderState {
            deps: string_texts(self.deps@),
            close: match self.close {
                Some(c) => Some(c@),
                None => None,
            },
            done: self.done,
        }
    }

    fn directive(&mut self, rest: &Vec<char>) -> (result: Result<(), KoruError>)
        ensures
            match directive(old(self).model(), rest@) {
                Some(next) => result is Ok && final(self).model() == next,
                None => result matches Err(e) && e.spec_code() == ErrorCode::Validation,
            },
    {
        proof {
            reveal_strlit("-- koru-module:");
            reveal_strlit("--");
        }
        let marker = literal_chars("-- koru-module:");
        if occurs_exec(rest, 0, &marker) {
            let name_chars = trimmed(&slice_of(rest, 15, rest.len()));
            let name = string_from_chars(name_chars.as_slice());
            if !is_module(name.as_str()) {
                let mut message = String::new();
                push_str(&mut message, "invalid module name ");
                push_str(&mut message, name.as_str());
                return Err(KoruError::new(ErrorCode::Validation, message.as_str()));
            }
            if contains_text(&self.deps, name.as_str()) {
                let mut message = String::new();
                push_str(&mut message, "duplicate module directive ");
                push_str(&mut message, name.as_str());
                return Err(KoruError::new(ErrorCode::Validation, message.as_str()));
            }
            let ghost before = self.deps@;
            self.deps.push(name);
            assert(string_texts(self.deps@) =~= string_texts(before).push(name_chars@));
            Ok(())
        } else {
            let dashes = literal_chars("--");
            if rest.len() > 0 && !occurs_exec(rest, 0, &dashes) {
                self.done = true;
            }
            Ok(())
        }
    }

    fn after_comment(&mut self, rest: &Vec<char>) -> (result: Result<(), KoruError>)
        ensures
            match after_comment(old(self).model(), rest@) {
                Some(next) => result is Ok && final(self).model() == next,
                None => result matches Err(e) && e.spec_code() == ErrorCode::Validation,
            },
    {
        proof {
            reveal_strlit("--[");
        }
        let opener_mark = literal_chars("--[");
        if occurs_exec(rest, 0, &opener_mark) {
            let opener = slice_of(rest, 3, rest.len());
            let n = eq_run_exec(&opener);
            if n < opener.len() && opener[n] == '[' {
                let close = long_close_exec(n);
                let inside = slice_of(&opener, n + 1, opener.len());
                match find_seq_exec(&inside, &close) {
                    Some(at) => {
                        let n = inside.len();
                        assert(at + close@.len() <= n);
                        let end = at + close.len();
                        let after = trim_start_exec(&slice_of(&inside, end, n));
                        self.directive(&after)
                    },
                    None => {
                        self.close = Some(close);
                        Ok(())
                    },
                }
            } else {
                self.directive(rest)
            }
        } else {
            self.directive(rest)
        }
    }

    fn step(&mut self, line: &Vec<char>) -> (result: Result<(), KoruError>)
        ensures
            match header_step(old(self).model(), line@) {
                Some(next) => result is Ok && final(self).model() == next,
                None => result matches Err(e) && e.spec_code() == ErrorCode::Validation,
            },
    {
        if self.done {
            return Ok(());
        }
        let rest = trim_start_exec(line);
        let mut pending: Option<Vec<char>> = None;
        std::mem::swap(&mut pending, &mut self.close);
        match pending {
            None => self.after_comment(&rest),
            Some(close) => match find_seq_exec(&rest, &close) {
                None => {
                    self.close = Some(close);
                    Ok(())
                },
                Some(at) => {
                    let n = rest.len();
                    assert(at + close@.len() <= n);
                    let end = at + close.len();
                    let after = trim_start_exec(&slice_of(&rest, end, n));
                    self.after_comment(&after)
                },
            },
        }
    }
}

/// The modules a source declares in its leading header.
pub fn parse_directives(text: &str) -> (result: Result<Vec<String>, KoruError>)
    ensures
        match declared_modules(text@) {
            Some(deps) => result matches Ok(v) && string_texts(v@) == deps,
            None => result matches Err(e) && e.spec_code() == ErrorCode::Validation,
        },
{
    let s = chars_of(text);
    let mut scan = Scan { deps: Vec::new(), close: None, done: false };
    let ghost init = HeaderState { deps: Seq::empty(), close: None, done: false };
    assert(scan.model() == init) by {
        assert(string_texts(scan.deps@) =~= Seq::<Seq<char>>::empty());
    }
    let mut p: usize = 0;
    loop
        invariant_except_break
            p <= s@.len(),
            header_run(s@, 0, init) == header_run(s@, p as int, scan.model()),
        invariant
            s@ == text@,
            init == (HeaderState { deps: Seq::empty(), close: None, done: false }),
        ensures
            header_run(s@, 0, init) == Some(scan.model()),
        decreases s@.len() - p,
    {
        let mut e = p;
        while e < s.len() && s[e] != '\n'
            invariant
                p <= e <= s@.len(),
                find(s@, '\n', e as int) == find(s@, '\n', p as int),
            decreases s@.len() - e,
        {
            e = e + 1;
        }
        let line = slice_of(&s, p, e);
        let ghost st = scan.model();
        if let Err(error) = scan.step(&line) {
            assert(header_run(s@, p as int, st) is None);
            return Err(error);
        }
        if e < s.len() {
            p = e + 1;
        } else {
            break;
        }
    }
    Ok(scan.deps)
}

} // verus!
