//! Classification of the first command-line argument: thin glue between the
//! process entry point and the picker, form and resolver.

use vstd::prelude::*;

use crate::text::{eq_ci, eq_ignore_case};

verus! {

/// What an invocation asks for.
#[derive(Debug, PartialEq, Eq)]
pub enum CliCommand {
    NoArgument,
    NewWorkspace,
    ListNames,
    Browse,
    Launch { name: String },
}

/// The mathematical value of a [`CliCommand`].
#[verifier::ext_equal]
pub enum CliCommandV {
    NoArgument,
    NewWorkspace,
    ListNames,
    Browse,
    Launch { name: Seq<char> },
}

impl View for CliCommand {
    type V = CliCommandV;

    open spec fn view(&self) -> CliCommandV {
        match self {
            CliCommand::NoArgument => CliCommandV::NoArgument,
            CliCommand::NewWorkspace => CliCommandV::NewWorkspace,
            CliCommand::ListNames => CliCommandV::ListNames,
            CliCommand::Browse => CliCommandV::Browse,
            CliCommand::Launch { name } => CliCommandV::Launch { name: name@ },
        }
    }
}

/// How the first argument is read, case-insensitively: `-new` starts the
/// workspace-creation form, `-list` prints the workspace names, `list`,
/// `lf` and `l` enter the directory picker, any other value names a
/// workspace to resolve and launch, and no argument asks for nothing but
/// first-run setup.
pub open spec fn parse_cli_spec(arg: Option<Seq<char>>) -> CliCommandV {
    match arg {
        None => CliCommandV::NoArgument,
        Some(a) => {
            if eq_ci(a, "-new"@) {
                CliCommandV::NewWorkspace
            } else if eq_ci(a, "-list"@) {
                CliCommandV::ListNames
            } else if eq_ci(a, "list"@) || eq_ci(a, "lf"@) || eq_ci(a, "l"@) {
                CliCommandV::Browse
            } else {
                CliCommandV::Launch { name: a }
            }
        },
    }
}

/// Classifies the first command-line argument.
pub fn parse_cli(arg: Option<&String>) -> (r: CliCommand)
    ensures
        r@ == parse_cli_spec(arg.deep_view()),
{
    match arg {
        None => CliCommand::NoArgument,
        Some(a) => {
            if eq_ignore_case(a.as_str(), "-new") {
                CliCommand::NewWorkspace
            } else if eq_ignore_case(a.as_str(), "-list") {
                CliCommand::ListNames
            } else if eq_ignore_case(a.as_str(), "list") || eq_ignore_case(a.as_str(), "lf")
                || eq_ignore_case(a.as_str(), "l") {
                CliCommand::Browse
            } else {
                CliCommand::Launch { name: a.clone() }
            }
        },
    }
}

} // verus!
