//! Restrained ANSI styling that is disabled for redirected output.
//!
//! Every user-facing prompt is English; color is an optional emphasis that
//! must never leak into a pipe, a file, or a `NO_COLOR` session. Whether a
//! stream is a terminal, and the environment, are read by the application.
use crate::text::{push_char, push_str};
use vstd::prelude::*;

verus! {

broadcast use vstd::string::group_string_axioms;

/// A style bound to one output stream's color capability.
#[derive(Debug, Clone, Copy)]
pub struct Style {
    enabled: bool,
}

/// `text` wrapped in the escape sequence `code` and a reset when styling is on.
pub open spec fn painted(enabled: bool, code: Seq<char>, text: Seq<char>) -> Seq<char> {
    if enabled {
        seq!['\u{1b}', '['] + code + seq!['m'] + text + seq!['\u{1b}', '[', '0', 'm']
    } else {
        text
    }
}

impl Style {
    /// Whether escape codes are emitted.
    pub closed spec fn spec_enabled(&self) -> bool {
        self.enabled
    }

    /// Styling that never emits escape codes; used by fixtures and redirected output.
    pub fn plain() -> (style: Self)
        ensures
            !style.spec_enabled(),
    {
        Style { enabled: false }
    }

    /// Styling for a stream: on only for a terminal without `NO_COLOR` and with
    /// a `TERM` other than `dumb`.
    pub fn detect(on_terminal: bool, no_color: bool, dumb_term: bool) -> (style: Self)
        ensures
            style.spec_enabled() == (on_terminal && !no_color && !dumb_term),
    {
        Style { enabled: on_terminal && !(no_color || dumb_term) }
    }

    /// Whether this style emits escape codes.
    pub fn enabled(self) -> (enabled: bool)
        ensures
            enabled == self.spec_enabled(),
    {
        self.enabled
    }

    fn paint(self, code: &str, text: &str) -> (out: String)
        ensures
            out@ == painted(self.spec_enabled(), code@, text@),
    {
        let mut out = String::new();
        if self.enabled {
            push_char(&mut out, '\u{1b}');
            push_char(&mut out, '[');
            push_str(&mut out, code);
            push_char(&mut out, 'm');
            push_str(&mut out, text);
            push_char(&mut out, '\u{1b}');
            push_char(&mut out, '[');
            push_char(&mut out, '0');
            push_char(&mut out, 'm');
        } else {
            push_str(&mut out, text);
        }
        assert(out@ =~= painted(self.spec_enabled(), code@, text@));
        out
    }

    /// Bold emphasis for headings and prompts.
    pub fn bold(self, text: &str) -> (out: String)
        ensures
            out@ == painted(self.spec_enabled(), seq!['1'], text@),
    {
        proof {
            reveal_strlit("1");
        }
        self.paint("1", text)
    }

    /// Dim text for secondary diagnostics such as the selected model line.
    pub fn dim(self, text: &str) -> (out: String)
        ensures
            out@ == painted(self.spec_enabled(), seq!['2'], text@),
    {
        proof {
            reveal_strlit("2");
        }
        self.paint("2", text)
    }

    /// Red for failures and denied actions.
    pub fn red(self, text: &str) -> (out: String)
        ensures
            out@ == painted(self.spec_enabled(), seq!['3', '1'], text@),
    {
        proof {
            reveal_strlit("31");
        }
        self.paint("31", text)
    }

    /// Green for successful checks.
    pub fn green(self, text: &str) -> (out: String)
        ensures
            out@ == painted(self.spec_enabled(), seq!['3', '2'], text@),
    {
        proof {
            reveal_strlit("32");
        }
        self.paint("32", text)
    }

    /// Yellow for warnings and truncation notices.
    pub fn yellow(self, text: &str) -> (out: String)
        ensures
            out@ == painted(self.spec_enabled(), seq!['3', '3'], text@),
    {
        proof {
            reveal_strlit("33");
        }
        self.paint("33", text)
    }

    /// Cyan for interactive prompts and structured keys.
    pub fn cyan(self, text: &str) -> (out: String)
        ensures
            out@ == painted(self.spec_enabled(), seq!['3', '6'], text@),
    {
        proof {
            reveal_strlit("36");
        }
        self.paint("36", text)
    }
}

} // verus!
