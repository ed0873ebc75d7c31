//! The error produced when loading or parsing environment variables, and the
//! text it is shown as.

use vstd::prelude::*;

verus! {

/// Error produced when loading or parsing environment variables.
#[derive(Debug)]
#[non_exhaustive]
pub enum EnvLockError {
    /// A required variable was absent from the environment (or the map).
    #[non_exhaustive]
    Missing {
        variable: String,
        /// Optional hint attached via [`EnvLockError::with_hint`].
        hint: Option<String>,
    },
    /// A variable was present but its value could not be parsed into the target type.
    #[non_exhaustive]
    Parse {
        variable: String,
        found: String,
        /// Description of what was expected (the text of the parse failure).
        expected: String,
        /// Optional extra hint added via [`EnvLockError::with_hint`].
        hint: Option<String>,
    },
    /// A `.env` file could not be loaded.
    #[non_exhaustive]
    Dotenv {
        path: String,
        cause: String,
        /// Optional hint attached via [`EnvLockError::with_hint`].
        hint: Option<String>,
    },
}

/// The mathematical value of an [`EnvLockError`]: the same variants, with
/// every text as a sequence of characters.
pub enum ErrorView {
    Missing { variable: Seq<char>, hint: Option<Seq<char>> },
    Parse { variable: Seq<char>, found: Seq<char>, expected: Seq<char>, hint: Option<Seq<char>> },
    Dotenv { path: Seq<char>, cause: Seq<char>, hint: Option<Seq<char>> },
}

pub open spec fn opt_text(o: Option<String>) -> Option<Seq<char>> {
    match o {
        Some(s) => Some(s@),
        None => None,
    }
}

impl View for EnvLockError {
    type V = ErrorView;

    open spec fn view(&self) -> ErrorView {
        match self {
            EnvLockError::Missing { variable, hint } => ErrorView::Missing {
                variable: variable@,
                hint: opt_text(*hint),
            },
            EnvLockError::Parse { variable, found, expected, hint } => ErrorView::Parse {
                variable: variable@,
                found: found@,
                expected: expected@,
                hint: opt_text(*hint),
            },
            EnvLockError::Dotenv { path, cause, hint } => ErrorView::Dotenv {
                path: path@,
                cause: cause@,
                hint: opt_text(*hint),
            },
        }
    }
}

/// The line that a hint adds to the text of an error.
pub open spec fn hint_line(hint: Option<Seq<char>>) -> Seq<char> {
    match hint {
        Some(h) => "\n  hint: "@ + h,
        None => Seq::empty(),
    }
}

impl ErrorView {
    /// The hint attached to the error, whatever its variant.
    pub open spec fn hint(self) -> Option<Seq<char>> {
        match self {
            ErrorView::Missing { hint, .. } => hint,
            ErrorView::Parse { hint, .. } => hint,
            ErrorView::Dotenv { hint, .. } => hint,
        }
    }

    /// The same error with its hint replaced by `h`.
    pub open spec fn with_hint(self, h: Option<Seq<char>>) -> ErrorView {
        match self {
            ErrorView::Missing { variable, .. } => ErrorView::Missing { variable, hint: h },
            ErrorView::Parse { variable, found, expected, .. } => ErrorView::Parse {
                variable,
                found,
                expected,
                hint: h,
            },
            ErrorView::Dotenv { path, cause, .. } => ErrorView::Dotenv { path, cause, hint: h },
        }
    }

    /// The text of the error without its hint line.
    pub open spec fn message(self) -> Seq<char> {
        match self {
            ErrorView::Missing { variable, .. } => "EnvLockError: missing required variable\n  variable: "@
                + variable + "\n  hint: add "@ + variable + " to your environment or .env file"@,
            ErrorView::Parse { variable, found, expected, .. } =>
                "EnvLockError: failed to parse environment variable\n  variable: "@ + variable
                + "\n  found: \""@ + found + "\"\n  expected type: "@ + expected,
            ErrorView::Dotenv { path, cause, .. } => "EnvLockError: failed to load .env file\n  path: "@
                + path + "\n  cause: "@ + cause,
        }
    }

    /// The text an error is shown as: its message, then its hint if it has one.
    pub open spec fn display(self) -> Seq<char> {
        self.message() + hint_line(self.hint())
    }
}

fn clone_hint(h: &Option<String>) -> (r: Option<String>)
    ensures
        opt_text(r) == opt_text(*h),
{
    match h {
        Some(s) => Some(s.clone()),
        None => None,
    }
}

impl Clone for EnvLockError {
    fn clone(&self) -> (r: Self)
        ensures
            r@ == self@,
    {
        match self {
            EnvLockError::Missing { variable, hint } => EnvLockError::Missing {
                variable: variable.clone(),
                hint: clone_hint(hint),
            },
            EnvLockError::Parse { variable, found, expected, hint } => EnvLockError::Parse {
                variable: variable.clone(),
                found: found.clone(),
                expected: expected.clone(),
                hint: clone_hint(hint),
            },
            EnvLockError::Dotenv { path, cause, hint } => EnvLockError::Dotenv {
                path: path.clone(),
                cause: cause.clone(),
                hint: clone_hint(hint),
            },
        }
    }
}

/// Whether `part` occurs in `whole` as a contiguous run of characters.
pub open spec fn contains_text(whole: Seq<char>, part: Seq<char>) -> bool {
    exists|i: int| 0 <= i <= whole.len() - part.len() && #[trigger] whole.subrange(i, i + part.len()) == part
}

/// A text that can be attached to an error as its hint: a string slice or
/// an owned string.
pub trait HintText: Sized {
    /// The characters of the hint.
    spec fn text(&self) -> Seq<char>;

    /// The hint as an owned string.
    fn into_hint(self) -> (r: String)
        ensures
            r@ == self.text(),
    ;
}

impl<'a> HintText for &'a str {
    open spec fn text(&self) -> Seq<char> {
        (*self)@
    }

    fn into_hint(self) -> (r: String) {
        self.to_string()
    }
}

impl HintText for String {
    open spec fn text(&self) -> Seq<char> {
        self@
    }

    fn into_hint(self) -> (r: String) {
        self
    }
}

impl EnvLockError {
    /// Create a `Missing` error for the given variable name.
    #[must_use]
    pub fn missing(variable: String) -> (r: Self)
        ensures
            r@ == (ErrorView::Missing { variable: variable@, hint: None }),
    {
        EnvLockError::Missing { variable, hint: None }
    }

    /// Create a `Parse` error, converting the parse failure to a string automatically.
    pub fn parse_error<E: std::fmt::Display>(variable: String, found: String, err: E) -> (r: Self)
        ensures
            r matches EnvLockError::Parse { variable: v, found: f, expected: x, hint: None } && v@
                == variable@ && f@ == found@
                && vstd::string::to_string_from_display_ensures::<E>(&err, x),
    {
        EnvLockError::Parse { variable, found, expected: err.to_string(), hint: None }
    }

    /// Create a `Parse` error whose expectation is already a text.
    pub fn parse_failure(variable: String, found: String, expected: String) -> (r: Self)
        ensures
            r@ == (ErrorView::Parse {
                variable: variable@,
                found: found@,
                expected: expected@,
                hint: None,
            }),
    {
        EnvLockError::Parse { variable, found, expected, hint: None }
    }

    /// Create a `Dotenv` error.
    #[must_use]
    pub fn dotenv(path: String, cause: String) -> (r: Self)
        ensures
            r@ == (ErrorView::Dotenv { path: path@, cause: cause@, hint: None }),
    {
        EnvLockError::Dotenv { path, cause, hint: None }
    }

    /// Attach a hint to any error variant, replacing the one it had.
    /// The hint is shown in the text of the error after the primary message.
    #[must_use]
    pub fn with_hint<H: HintText>(self, hint: H) -> (r: Self)
        ensures
            r@ == self@.with_hint(Some(hint.text())),
    {
        let h: String = hint.into_hint();
        match self {
            EnvLockError::Missing { variable, .. } => EnvLockError::Missing {
                variable,
                hint: Some(h),
            },
            EnvLockError::Parse { variable, found, expected, .. } => EnvLockError::Parse {
                variable,
                found,
                expected,
                hint: Some(h),
            },
            EnvLockError::Dotenv { path, cause, .. } => EnvLockError::Dotenv {
                path,
                cause,
                hint: Some(h),
            },
        }
    }

    /// The text of the error, as its `Display` output shows it.
    pub fn to_string(&self) -> (r: String)
        ensures
            r@ == self@.display(),
    {
        let mut r: String;
        let hint: &Option<String>;
        match self {
            EnvLockError::Missing { variable, hint: h } => {
                r = String::from_str("EnvLockError: missing required variable\n  variable: ");
                r.append(variable.as_str());
                r.append("\n  hint: add ");
                r.append(variable.as_str());
                r.append(" to your environment or .env file");
                hint = h;
            },
            EnvLockError::Parse { variable, found, expected, hint: h } => {
                r = String::from_str("EnvLockError: failed to parse environment variable\n  variable: ");
                r.append(variable.as_str());
                r.append("\n  found: \"");
                r.append(found.as_str());
                r.append("\"\n  expected type: ");
                r.append(expected.as_str());
                hint = h;
            },
            EnvLockError::Dotenv { path, cause, hint: h } => {
                r = String::from_str("EnvLockError: failed to load .env file\n  path: ");
                r.append(path.as_str());
                r.append("\n  cause: ");
                r.append(cause.as_str());
                hint = h;
            },
        }
        assert(r@ =~= self@.message());
        if let Some(h) = hint {
            r.append("\n  hint: ");
            r.append(h.as_str());
        }
        assert(r@ =~= self@.display());
        r
    }
}

/// The text of an error names the variable it is about (a missing or
/// unparsable variable), and for a parse error also the value found.
pub proof fn lemma_display_names_variable(e: ErrorView)
    ensures
        e matches ErrorView::Missing { variable, .. } ==> contains_text(e.display(), variable),
        e matches ErrorView::Parse { variable, found, .. } ==> contains_text(e.display(), variable)
            && contains_text(e.display(), found),
        e matches ErrorView::Dotenv { path, cause, .. } ==> contains_text(e.display(), path)
            && contains_text(e.display(), cause),
{
    let d = e.display();
    match e {
        ErrorView::Missing { variable, .. } => {
            let p = "EnvLockError: missing required variable\n  variable: "@;
            assert(d.subrange(p.len() as int, (p.len() + variable.len()) as int) =~= variable);
        },
        ErrorView::Parse { variable, found, expected, .. } => {
            let p = "EnvLockError: failed to parse environment variable\n  variable: "@;
            let q = p + variable + "\n  found: \""@;
            assert(d.subrange(p.len() as int, (p.len() + variable.len()) as int) =~= variable);
            assert(d.subrange(q.len() as int, (q.len() + found.len()) as int) =~= found);
        },
        ErrorView::Dotenv { path, cause, .. } => {
            let p = "EnvLockError: failed to load .env file\n  path: "@;
            let q = p + path + "\n  cause: "@;
            assert(d.subrange(p.len() as int, (p.len() + path.len()) as int) =~= path);
            assert(d.subrange(q.len() as int, (q.len() + cause.len()) as int) =~= cause);
        },
    }
}

/// A hint attached to an error is shown after the error's message: the text
/// of the error with hint `h` is its message followed by `"\n  hint: "` and `h`,
/// whatever hint it had before.
pub proof fn lemma_hint_shown_after_message(e: ErrorView, h: Seq<char>)
    ensures
        e.with_hint(Some(h)).display() == e.message() + "\n  hint: "@ + h,
        e.with_hint(Some(h)).message() == e.message(),
{
    assert(e.with_hint(Some(h)).display() =~= e.message() + "\n  hint: "@ + h);
}

/// Attaching a second hint replaces the first: only the last hint stays.
pub proof fn lemma_last_hint_wins(e: ErrorView, h1: Option<Seq<char>>, h2: Option<Seq<char>>)
    ensures
        e.with_hint(h1).with_hint(h2) == e.with_hint(h2),
{
}

} // verus!
