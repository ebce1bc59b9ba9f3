//! The reports a program gives when it panics: the message, a backtrace when one was asked
//! for, and otherwise a hint on how to ask for one.
use vstd::prelude::*;
use crate::display::int_to_string;
use crate::text::str_eq;

verus! {

/// The hint given when no backtrace is shown.
pub const HELP_TEXT: &'static str = "run with `RUST_BACKTRACE=1` environment variable to display a backtrace";

/// Whether backtraces are asked for, given the value of the `RUST_BACKTRACE` environment
/// variable (`None` when it is not set or not valid text): any value but the empty one and
/// `0`.
pub fn is_rust_backtrace_enabled(var: Option<&str>) -> (r: bool)
    ensures
        r == (match var {
            Some(v) => v@.len() > 0 && v@ != "0"@,
            None => false,
        }),
{
    match var {
        Some(v) => {
            let n = v.unicode_len();
            n > 0 && !str_eq(v, "0")
        },
        None => false,
    }
}

/// A panic's message, with the backtrace or the hint on how to get one.
#[derive(Clone, Debug)]
pub struct Panic {
    message: String,
    backtrace: Option<String>,
    help: Option<&'static str>,
}

pub open spec fn opt_text(o: Option<Seq<char>>) -> Seq<char> {
    match o {
        Some(s) => s,
        None => Seq::empty(),
    }
}

impl Panic {
    pub closed spec fn message_view(&self) -> Seq<char> {
        self.message@
    }

    pub closed spec fn backtrace_view(&self) -> Option<Seq<char>> {
        match self.backtrace {
            Some(b) => Some(b@),
            None => None,
        }
    }

    pub closed spec fn help_view(&self) -> Option<Seq<char>> {
        match self.help {
            Some(h) => Some(h@),
            None => None,
        }
    }

    /// A report of `message`. With a `backtrace` (given when backtraces are asked for) the
    /// report carries it and no hint; without one it carries the hint `HELP_TEXT`.
    pub fn new(message: String, backtrace: Option<String>) -> (r: Panic)
        ensures
            r.message_view() == message@,
            r.backtrace_view() == (match backtrace {
                Some(b) => Some(b@),
                None => None::<Seq<char>>,
            }),
            r.help_view() == (if backtrace is Some { None } else { Some(HELP_TEXT@) }),
    {
        let help = match &backtrace {
            Some(_) => None,
            None => Some(HELP_TEXT),
        };
        Panic { message, backtrace, help }
    }

    /// The hint, when there is no backtrace.
    pub fn help(&self) -> (r: Option<&'static str>)
        ensures
            match r {
                Some(h) => self.help_view() == Some(h@),
                None => self.help_view() is None,
            },
    {
        self.help
    }

    /// The message followed by the backtrace, if any.
    pub fn to_string(&self) -> (r: String)
        ensures
            r@ == self.message_view() + opt_text(self.backtrace_view()),
    {
        let mut out = self.message.clone();
        match &self.backtrace {
            Some(b) => out.append(b.as_str()),
            None => {},
        }
        assert(out@ =~= self.message_view() + opt_text(self.backtrace_view()));
        out
    }
}

/// A panic with the place in the source where it happened.
#[derive(Debug)]
pub struct PanicLocation {
    panic: Panic,
    filename: String,
    line: u32,
    col: u32,
    help: Option<&'static str>,
}

impl PanicLocation {
    pub closed spec fn panic_view(&self) -> Panic {
        self.panic
    }

    pub closed spec fn place(&self) -> (Seq<char>, u32, u32) {
        (self.filename@, self.line, self.col)
    }

    pub closed spec fn help_view(&self) -> Option<Seq<char>> {
        match self.help {
            Some(h) => Some(h@),
            None => None,
        }
    }

    /// `panic` as it happened at column `col` of line `line` of file `filename`. The hint
    /// `HELP_TEXT` is kept unless backtraces were asked for.
    pub fn new(panic: Panic, filename: String, line: u32, col: u32, backtrace_enabled: bool) -> (r: PanicLocation)
        ensures
            r.panic_view() == panic,
            r.place() == (filename@, line, col),
            r.help_view() == (if backtrace_enabled { None } else { Some(HELP_TEXT@) }),
    {
        let help = if backtrace_enabled { None } else { Some(HELP_TEXT) };
        PanicLocation { panic, filename, line, col, help }
    }

    /// The panic this location is for.
    pub fn panic(&self) -> (r: &Panic)
        ensures
            *r == self.panic_view(),
    {
        &self.panic
    }

    /// The hint, unless backtraces were asked for.
    pub fn help(&self) -> (r: Option<&'static str>)
        ensures
            match r {
                Some(h) => self.help_view() == Some(h@),
                None => self.help_view() is None,
            },
    {
        self.help
    }

    /// `Panic at <file>:<line>:<column>`.
    pub fn to_string(&self) -> (r: String)
        ensures
            r@ == "Panic at "@ + self.place().0 + seq![':'] + crate::display::int_text(self.place().1 as int)
                + seq![':'] + crate::display::int_text(self.place().2 as int),
    {
        proof {
            reveal_strlit(":");
        }
        let mut out = String::from_str("Panic at ");
        out.append(self.filename.as_str());
        out.append(":");
        let l = int_to_string(self.line as i64);
        out.append(l.as_str());
        out.append(":");
        let c = int_to_string(self.col as i64);
        out.append(c.as_str());
        out
    }
}

} // verus!
