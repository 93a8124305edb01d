//! Environment credentials and value redaction.
//!
//! Provider keys are read through the [`Environment`] trait so tests never mutate
//! process globals. Credentials never enter `config.toml`, never reach Lua, and
//! are removed from error and diagnostic text by [`redact`].
use crate::error::{ErrorCode, KoruError};
use crate::text::{chars_of, push_char, push_str, str_eq};
use vstd::prelude::*;

verus! {

broadcast use vstd::string::group_string_axioms;

/// Environment variable holding the DeepSeek API key.
pub const DEEPSEEK_API_KEY: &'static str = "DEEPSEEK_API_KEY";

/// Environment variable holding the OpenCode (Zen and Go) API key.
pub const OPENCODE_API_KEY: &'static str = "OPENCODE_API_KEY";

/// All credential variables, in order.
pub open spec fn credential_variables() -> Seq<Seq<char>> {
    seq!["DEEPSEEK_API_KEY"@, "OPENCODE_API_KEY"@]
}

/// All credential variables understood here.
pub fn credential_variable_names() -> (names: [&'static str; 2])
    ensures
        names@[0]@ == credential_variables()[0],
        names@[1]@ == credential_variables()[1],
{
    [DEEPSEEK_API_KEY, OPENCODE_API_KEY]
}

/// A read-only view of environment variables.
pub trait Environment {
    /// Return the variable's value when it is set and valid UTF-8.
    fn get(&self, name: &str) -> Option<String>;
}

/// The value bound to `name` by the last pair that names it.
pub open spec fn pair_lookup(pairs: Seq<(Seq<char>, Seq<char>)>, name: Seq<char>) -> Option<Seq<char>>
    decreases pairs.len(),
{
    if pairs.len() == 0 {
        None
    } else if pairs.last().0 == name {
        Some(pairs.last().1)
    } else {
        pair_lookup(pairs.drop_last(), name)
    }
}

/// The texts of name/value pairs.
pub open spec fn pair_texts(pairs: Seq<(String, String)>) -> Seq<(Seq<char>, Seq<char>)> {
    Seq::new(pairs.len(), |k: int| (pairs[k].0@, pairs[k].1@))
}

fn lookup_pair<'a>(pairs: &'a Vec<(String, String)>, name: &str) -> (found: Option<&'a String>)
    ensures
        match pair_lookup(pair_texts(pairs@), name@) {
            Some(v) => found matches Some(s) && s@ == v,
            None => found is None,
        },
{
    let ghost ps = pair_texts(pairs@);
    let mut i: usize = pairs.len();
    assert(ps.subrange(0, ps.len() as int) =~= ps);
    while i > 0
        invariant
            i <= pairs@.len(),
            ps == pair_texts(pairs@),
            pair_lookup(ps, name@) == pair_lookup(ps.subrange(0, i as int), name@),
        decreases i,
    {
        let ghost pre = ps.subrange(0, i as int);
        assert(pre.drop_last() =~= ps.subrange(0, i - 1));
        assert(pre.last() == (pairs@[i - 1].0@, pairs@[i - 1].1@));
        if str_eq(pairs[i - 1].0.as_str(), name) {
            return Some(&pairs[i - 1].1);
        }
        i = i - 1;
    }
    None
}

/// A fixed environment used by tests.
#[derive(Debug, Clone)]
pub struct MapEnvironment {
    pairs: Vec<(String, String)>,
}

impl MapEnvironment {
    /// Build a map environment from name/value pairs; a later pair wins.
    pub fn new(pairs: Vec<(String, String)>) -> (env: Self)
        ensures
            env.spec_pairs() == pair_texts(pairs@),
    {
        MapEnvironment { pairs }
    }

    /// The name/value pairs, in order.
    pub closed spec fn spec_pairs(&self) -> Seq<(Seq<char>, Seq<char>)> {
        pair_texts(self.pairs@)
    }

    /// The value of one variable.
    pub fn value(&self, name: &str) -> (value: Option<String>)
        ensures
            match pair_lookup(self.spec_pairs(), name@) {
                Some(v) => value matches Some(s) && s@ == v,
                None => value is None,
            },
    {
        match lookup_pair(&self.pairs, name) {
            Some(v) => Some(v.clone()),
            None => None,
        }
    }
}

impl Environment for MapEnvironment {
    fn get(&self, name: &str) -> (value: Option<String>)
        ensures
            match pair_lookup(self.spec_pairs(), name@) {
                Some(v) => value matches Some(s) && s@ == v,
                None => value is None,
            },
    {
        self.value(name)
    }
}

/// The resolved provider credentials.
#[derive(Clone)]
pub struct Credentials {
    values: Vec<(String, String)>,
}

/// A value that is present and not empty.
pub open spec fn present(value: Option<Seq<char>>) -> bool {
    value matches Some(v) && v.len() > 0
}

impl Credentials {
    /// The stored variable/value pairs.
    pub closed spec fn spec_values(&self) -> Seq<(Seq<char>, Seq<char>)> {
        pair_texts(self.values@)
    }

    /// The stored value of one variable.
    pub open spec fn value_of(&self, variable: Seq<char>) -> Option<Seq<char>> {
        pair_lookup(self.spec_values(), variable)
    }

    /// Build credentials from the values found for [`credential_variable_names`],
    /// in that order.
    pub fn from_values(deepseek: Option<String>, opencode: Option<String>) -> (credentials: Self)
        ensures
            credentials.value_of("DEEPSEEK_API_KEY"@) == (match deepseek {
                Some(v) => Some(v@),
                None => None::<Seq<char>>,
            }),
            credentials.value_of("OPENCODE_API_KEY"@) == (match opencode {
                Some(v) => Some(v@),
                None => None::<Seq<char>>,
            }),
            forall|name: Seq<char>|
                name != "DEEPSEEK_API_KEY"@ && name != "OPENCODE_API_KEY"@ ==> (
                #[trigger] credentials.value_of(name)) is None,
    {
        proof {
            reveal_strlit("DEEPSEEK_API_KEY");
            reveal_strlit("OPENCODE_API_KEY");
            assert("DEEPSEEK_API_KEY"@ != "OPENCODE_API_KEY"@) by {
                assert("DEEPSEEK_API_KEY"@[0] != "OPENCODE_API_KEY"@[0]);
            }
        }
        let mut values: Vec<(String, String)> = Vec::new();
        let ghost v0 = values@;
        if let Some(value) = deepseek {
            values.push((DEEPSEEK_API_KEY.to_owned(), value));
        }
        let ghost v1 = values@;
        if let Some(value) = opencode {
            values.push((OPENCODE_API_KEY.to_owned(), value));
        }
        let credentials = Credentials { values };
        proof {
            reveal_with_fuel(pair_lookup, 3);
            let ps = pair_texts(credentials.values@);
            let p1 = pair_texts(v1);
            assert(pair_texts(v0) =~= Seq::<(Seq<char>, Seq<char>)>::empty());
            if opencode is Some {
                assert(ps.drop_last() =~= p1);
            } else {
                assert(ps =~= p1);
            }
            if deepseek is Some {
                assert(p1.drop_last() =~= pair_texts(v0));
            } else {
                assert(p1 =~= pair_texts(v0));
            }
        }
        credentials
    }

    /// Read every known credential variable from `env`.
    pub fn from_environment(env: &dyn Environment) -> (credentials: Self)
        ensures
            forall|name: Seq<char>|
                name != "DEEPSEEK_API_KEY"@ && name != "OPENCODE_API_KEY"@ ==> (
                #[trigger] credentials.value_of(name)) is None,
    {
        let deepseek = env.get(DEEPSEEK_API_KEY);
        let opencode = env.get(OPENCODE_API_KEY);
        Credentials::from_values(deepseek, opencode)
    }

    /// Return a required credential or an actionable error naming its variable.
    pub fn require(&self, variable: &str) -> (result: Result<&str, KoruError>)
        ensures
            match self.value_of(variable@) {
                Some(v) if v.len() > 0 => result matches Ok(s) && s@ == v,
                _ => result matches Err(e) && e.spec_code() == ErrorCode::Validation
                    && e.spec_message() == missing_message(variable@),
            },
    {
        match lookup_pair(&self.values, variable) {
            Some(value) => {
                if value.as_str().is_empty() {
                    return Err(missing(variable));
                }
                Ok(value.as_str())
            },
            None => Err(missing(variable)),
        }
    }

    /// Whether a credential is present and non-empty.
    pub fn is_set(&self, variable: &str) -> (set: bool)
        ensures
            set == present(self.value_of(variable@)),
    {
        match lookup_pair(&self.values, variable) {
            Some(value) => !value.as_str().is_empty(),
            None => false,
        }
    }

    /// The credential variables that are set, in order: all that a diagnostic
    /// shows of the credentials.
    pub fn set_names(&self) -> (names: Vec<&'static str>)
        ensures
            Seq::new(names@.len(), |k: int| names@[k]@) == credential_variables().filter(
                |name: Seq<char>| present(self.value_of(name)),
            ),
    {
        let all = credential_variable_names();
        let mut names: Vec<&'static str> = Vec::new();
        let mut i: usize = 0;
        while i < 2
            invariant
                i <= 2,
                all@[0]@ == credential_variables()[0],
                all@[1]@ == credential_variables()[1],
                Seq::new(names@.len(), |k: int| names@[k]@) == credential_variables().take(
                    i as int,
                ).filter(|name: Seq<char>| present(self.value_of(name))),
            decreases 2 - i,
        {
            let ghost before = Seq::new(names@.len(), |k: int| names@[k]@);
            let ghost pred = |name: Seq<char>| present(self.value_of(name));
            assert(credential_variables().take(i + 1) =~= credential_variables().take(i as int).push(
                credential_variables()[i as int],
            ));
            proof {
                credential_variables().take(i as int).lemma_filter_push(
                    credential_variables()[i as int],
                    pred,
                );
            }
            if self.is_set(all[i]) {
                names.push(all[i]);
                assert(Seq::new(names@.len(), |k: int| names@[k]@) =~= before.push(all@[i as int]@));
            } else {
                assert(Seq::new(names@.len(), |k: int| names@[k]@) =~= before);
            }
            i = i + 1;
        }
        assert(credential_variables().take(2) =~= credential_variables());
        names
    }

    /// Remove every stored credential value from `text`.
    pub fn redact(&self, text: &str) -> (out: String)
        ensures
            out@ == redact_all(Seq::new(self.spec_values().len(), |k: int| self.spec_values()[k].1), text@),
    {
        let mut secrets: Vec<&str> = Vec::new();
        let mut i: usize = 0;
        while i < self.values.len()
            invariant
                i <= self.values@.len(),
                secrets@.len() == i,
                forall|k: int| 0 <= k < i ==> (#[trigger] secrets@[k])@ == self.values@[k].1@,
            decreases self.values@.len() - i,
        {
            secrets.push(self.values[i].1.as_str());
            i = i + 1;
        }
        let out = redact(&secrets, text);
        proof {
            assert(Seq::new(secrets@.len(), |k: int| secrets@[k]@) =~= Seq::new(
                self.spec_values().len(),
                |k: int| self.spec_values()[k].1,
            ));
        }
        out
    }
}

fn missing(variable: &str) -> (error: KoruError)
    ensures
        error.spec_code() == ErrorCode::Validation,
        error.spec_message() == missing_message(variable@),
{
    let mut message = String::new();
    push_str(&mut message, variable);
    push_str(&mut message, " is not set; export it to use this provider");
    KoruError::new(ErrorCode::Validation, message.as_str())
}

/// The message naming an unset credential variable.
pub open spec fn missing_message(variable: Seq<char>) -> Seq<char> {
    variable + " is not set; export it to use this provider"@
}

/// Whether `pat` occurs in `t` at `i`.
pub open spec fn occurs_at(t: Seq<char>, i: int, pat: Seq<char>) -> bool {
    0 <= i && i + pat.len() <= t.len() && t.subrange(i, i + pat.len()) == pat
}

/// `t[i..]` with every non-overlapping occurrence of `pat`, left to right,
/// replaced by `rep`, as `str::replace` does.
pub open spec fn replace_from(t: Seq<char>, i: int, pat: Seq<char>, rep: Seq<char>) -> Seq<char>
    decreases t.len() - i,
{
    if i < 0 || i >= t.len() || pat.len() == 0 {
        t.subrange(if 0 <= i <= t.len() { i } else { t.len() as int }, t.len() as int)
    } else if occurs_at(t, i, pat) {
        rep + replace_from(t, i + pat.len(), pat, rep)
    } else {
        seq![t[i]] + replace_from(t, i + 1, pat, rep)
    }
}

/// `text` with each non-empty secret, in order, replaced by `[redacted]`.
pub open spec fn redact_all(secrets: Seq<Seq<char>>, text: Seq<char>) -> Seq<char>
    decreases secrets.len(),
{
    if secrets.len() == 0 {
        text
    } else {
        let before = redact_all(secrets.drop_last(), text);
        if secrets.last().len() == 0 {
            before
        } else {
            replace_from(before, 0, secrets.last(), "[redacted]"@)
        }
    }
}

fn occurs_at_exec(t: &Vec<char>, i: usize, pat: &Vec<char>) -> (found: bool)
    requires
        i <= t@.len(),
    ensures
        found == occurs_at(t@, i as int, pat@),
{
    let tl = t.len();
    if pat.len() > tl - i {
        return false;
    }
    let mut k: usize = 0;
    while k < pat.len()
        invariant
            tl == t@.len(),
            k <= pat@.len(),
            i + pat@.len() <= t@.len(),
            forall|j: int| 0 <= j < k ==> t@[i + j] == pat@[j],
        decreases pat@.len() - k,
    {
        if t[i + k] != pat[k] {
            assert(t@.subrange(i as int, i + pat@.len())[k as int] != pat@[k as int]);
            return false;
        }
        k = k + 1;
    }
    assert(t@.subrange(i as int, i + pat@.len()) =~= pat@);
    true
}

/// `text` with every occurrence of a non-empty `pat` replaced by `rep`.
pub fn replace(text: &str, pat: &str, rep: &str) -> (out: String)
    requires
        pat@.len() > 0,
    ensures
        out@ == replace_from(text@, 0, pat@, rep@),
{
    let t = chars_of(text);
    let p = chars_of(pat);
    let mut out = String::new();
    let mut i: usize = 0;
    while i < t.len()
        invariant
            i <= t@.len(),
            t@ == text@,
            p@ == pat@,
            p@.len() > 0,
            out@ + replace_from(t@, i as int, p@, rep@) == replace_from(t@, 0, p@, rep@),
        decreases t@.len() - i,
    {
        let ghost before = out@;
        if occurs_at_exec(&t, i, &p) {
            push_str(&mut out, rep);
            proof {
                assert(before + replace_from(t@, i as int, p@, rep@) =~= out@ + replace_from(
                    t@,
                    i + p@.len(),
                    p@,
                    rep@,
                ));
            }
            i = i + p.len();
        } else {
            push_char(&mut out, t[i]);
            proof {
                assert(before + replace_from(t@, i as int, p@, rep@) =~= out@ + replace_from(
                    t@,
                    i + 1,
                    p@,
                    rep@,
                ));
            }
            i = i + 1;
        }
    }
    assert(replace_from(t@, i as int, p@, rep@) =~= Seq::<char>::empty());
    assert(out@ + Seq::<char>::empty() =~= out@);
    out
}

/// Replace every non-empty secret in `secrets` with `[redacted]`.
pub fn redact(secrets: &Vec<&str>, text: &str) -> (out: String)
    ensures
        out@ == redact_all(Seq::new(secrets@.len(), |k: int| secrets@[k]@), text@),
{
    let ghost all = Seq::new(secrets@.len(), |k: int| secrets@[k]@);
    let mut out = text.to_owned();
    let mut i: usize = 0;
    assert(all.subrange(0, 0) =~= Seq::<Seq<char>>::empty());
    while i < secrets.len()
        invariant
            i <= secrets@.len(),
            all == Seq::new(secrets@.len(), |k: int| secrets@[k]@),
            out@ == redact_all(all.subrange(0, i as int), text@),
        decreases secrets@.len() - i,
    {
        let secret = secrets[i];
        proof {
            reveal_strlit("[redacted]");
            let pre = all.subrange(0, i + 1);
            assert(pre.drop_last() =~= all.subrange(0, i as int));
            assert(pre.last() == secret@);
        }
        if !secret.is_empty() {
            out = replace(out.as_str(), secret, "[redacted]");
        }
        i = i + 1;
    }
    assert(all.subrange(0, all.len() as int) =~= all);
    out
}

} // verus!
