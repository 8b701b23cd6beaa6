//! Command-line handling of the language server: what the arguments ask for,
//! and the version and help texts.

use vstd::prelude::*;
use crate::split::strings_view;
use crate::text::{chars_of, join3, str_eq};

verus! {

/// Version of this package, as the server reports it.
pub const PACKAGE_VERSION: &'static str = "0.1.0";

/// How the server was asked to start.
#[derive(Debug, PartialEq, Eq)]
pub enum StartupMode {
    /// Serve the language server protocol on standard input and output.
    Server,
    /// Print the version and exit.
    Version,
    /// Print the help text and exit.
    Help,
    /// Report a usage error.
    Error(String),
}

pub enum StartupView {
    Server,
    Version,
    Help,
    Error(Seq<char>),
}

impl View for StartupMode {
    type V = StartupView;

    open spec fn view(&self) -> StartupView {
        match self {
            StartupMode::Server => StartupView::Server,
            StartupMode::Version => StartupView::Version,
            StartupMode::Help => StartupView::Help,
            StartupMode::Error(m) => StartupView::Error(m@),
        }
    }
}

/// No argument starts the server; one argument asks for the version or the
/// help text; anything else is a usage error.
pub open spec fn startup_spec(args: Seq<Seq<char>>) -> StartupView {
    if args.len() == 0 {
        StartupView::Server
    } else if args.len() > 1 {
        StartupView::Error("error: expected at most one argument"@)
    } else if args[0] == "--version"@ || args[0] == "-V"@ {
        StartupView::Version
    } else if args[0] == "--help"@ || args[0] == "-h"@ {
        StartupView::Help
    } else {
        StartupView::Error("error: unknown argument `"@ + args[0] + "`"@)
    }
}

/// What the command-line arguments (without the program name) ask for.
pub fn startup_mode(args: &[String]) -> (r: StartupMode)
    ensures
        r@ == startup_spec(strings_view(args@)),
{
    if args.len() == 0 {
        return StartupMode::Server;
    }
    if args.len() > 1 {
        return StartupMode::Error("error: expected at most one argument".to_owned());
    }
    let arg = args[0].as_str();
    assert(strings_view(args@)[0] == arg@);
    if str_eq(arg, "--version") || str_eq(arg, "-V") {
        StartupMode::Version
    } else if str_eq(arg, "--help") || str_eq(arg, "-h") {
        StartupMode::Help
    } else {
        let chars = chars_of(arg);
        StartupMode::Error(join3("error: unknown argument `", chars.as_slice(), "`"))
    }
}

/// `mcdp-lsp` followed by the package version.
pub fn version_text() -> (r: String)
    ensures
        r@ == "mcdp-lsp "@ + PACKAGE_VERSION@,
{
    let version = chars_of(PACKAGE_VERSION);
    let mut out: Vec<char> = Vec::new();
    crate::text::push_chars(&mut out, "mcdp-lsp ");
    crate::text::push_range(&mut out, version.as_slice(), 0, version.len());
    assert(version@.subrange(0, version@.len() as int) =~= version@);
    crate::text::string_from_chars(out.as_slice())
}

/// The usage text.
pub fn help_text() -> (r: &'static str)
    ensures
        r@ == "Usage: mcdp-lsp [--version]\n\nOptions:\n  -V, --version  Print version and exit\n  -h, --help     Print help and exit\n"@,
{
    "Usage: mcdp-lsp [--version]\n\nOptions:\n  -V, --version  Print version and exit\n  -h, --help     Print help and exit\n"
}

} // verus!
