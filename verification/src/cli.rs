//! baller's command line: the commands it takes, and what a parse failure
//! becomes. The argument grammar itself is declared by the front end.

use vstd::prelude::*;
use vstd::string::*;

use crate::commands::spec_reserved_commands;
use crate::error::{BallError, ErrorView};
use crate::help::spec_builtin_commands;
use crate::text::concat;

verus! {

/// A parsed command line.
#[derive(Debug)]
pub struct BallerCommand {
    pub command: CommandTypes,
}

/// The subcommands.
#[derive(Debug)]
pub enum CommandTypes {
    /// Drafts (Installs) a new player onto your team
    Draft { package_name: String },
    /// Ejects (Uninstalls) a player from your team
    Eject { package_name: String, yes: bool },
    /// Freezes (Pins) a player so they cannot be substituted or updated
    Freeze { package_name: String },
    /// Rosters (Lists) active players on your team or searches for one
    Roster { package_name: Option<String> },
    /// Substitutes (Swaps) a current player for a new one cleanly
    Substitute { old_package: String, new_package: String },
    /// Sweeps (Cleans) the arena of leftover caching debris
    Sweep { yes: bool },
    /// Updates all active packages on the team
    Update,
    /// Builds a package natively from a local manifest
    Build { path: String },
    /// Injects a custom command described by a .ball file
    Inject { path: String },
    /// Prints every available command, or details for one of them
    Help { command: Option<String> },
    /// Any unknown subcommand: dispatched to an injected command, if one matches
    External(Vec<String>),
}

/// The names the subcommands are invoked by (an external command has
/// whatever name it was given).
pub open spec fn spec_subcommand_names() -> Seq<Seq<char>> {
    seq![
        "draft"@,
        "eject"@,
        "freeze"@,
        "roster"@,
        "substitute"@,
        "sweep"@,
        "update"@,
        "build"@,
        "inject"@,
        "help"@,
    ]
}

/// The names the subcommands are invoked by.
pub fn subcommand_names() -> (r: Vec<&'static str>)
    ensures
        r@.map_values(|n: &str| n@) == spec_subcommand_names(),
{
    let r = vec!["draft", "eject", "freeze", "roster", "substitute", "sweep", "update", "build", "inject", "help"];
    proof {
        assert(r@.map_values(|n: &str| n@) =~= spec_subcommand_names());
    }
    r
}

impl CommandTypes {
    /// The name this subcommand is invoked by; none for an external one.
    pub fn name(&self) -> (r: Option<&'static str>)
        ensures
            match self {
                CommandTypes::External(_) => r is None,
                _ => r matches Some(n) && spec_subcommand_names().contains(n@),
            },
    {
        let r = match self {
            CommandTypes::Draft { .. } => Some("draft"),
            CommandTypes::Eject { .. } => Some("eject"),
            CommandTypes::Freeze { .. } => Some("freeze"),
            CommandTypes::Roster { .. } => Some("roster"),
            CommandTypes::Substitute { .. } => Some("substitute"),
            CommandTypes::Sweep { .. } => Some("sweep"),
            CommandTypes::Update => Some("update"),
            CommandTypes::Build { .. } => Some("build"),
            CommandTypes::Inject { .. } => Some("inject"),
            CommandTypes::Help { .. } => Some("help"),
            CommandTypes::External(_) => None,
        };
        proof {
            let s = spec_subcommand_names();
            match self {
                CommandTypes::Draft { .. } => assert(s[0] == "draft"@),
                CommandTypes::Eject { .. } => assert(s[1] == "eject"@),
                CommandTypes::Freeze { .. } => assert(s[2] == "freeze"@),
                CommandTypes::Roster { .. } => assert(s[3] == "roster"@),
                CommandTypes::Substitute { .. } => assert(s[4] == "substitute"@),
                CommandTypes::Sweep { .. } => assert(s[5] == "sweep"@),
                CommandTypes::Update => assert(s[6] == "update"@),
                CommandTypes::Build { .. } => assert(s[7] == "build"@),
                CommandTypes::Inject { .. } => assert(s[8] == "inject"@),
                CommandTypes::Help { .. } => assert(s[9] == "help"@),
                CommandTypes::External(_) => {},
            }
        }
        r
    }
}

/// Why the argument parser stopped.
#[derive(Debug, Clone, Copy, PartialEq, Eq, Structural)]
pub enum CliErrorKind {
    DisplayHelp,
    DisplayVersion,
    DisplayHelpOnMissingArgumentOrSubcommand,
    Other,
}

/// The parser stopped only because it was asked to print help or version.
pub fn is_display_request(kind: CliErrorKind) -> (r: bool)
    ensures
        r == (kind != CliErrorKind::Other),
{
    match kind {
        CliErrorKind::Other => false,
        _ => true,
    }
}

/// What became of the command line.
#[derive(Debug)]
pub enum ParsedCommand {
    /// A command to run.
    Run(BallerCommand),
    /// Help or version was asked for: the parser prints it and exits.
    Display,
    /// The command line is wrong.
    Failed(BallError),
}

impl BallerCommand {
    /// What the parser's outcome becomes: the command, a display request, or
    /// an error carrying the parser's message.
    pub fn parse_command(parsed: Result<BallerCommand, (CliErrorKind, String)>) -> (r: ParsedCommand)
        ensures
            match parsed {
                Ok(c) => r == ParsedCommand::Run(c),
                Err((kind, msg)) => if kind != CliErrorKind::Other {
                    r is Display
                } else {
                    r matches ParsedCommand::Failed(e) && e@ == ErrorView::InvalidConfig("CLI Error: "@ + msg@)
                },
            },
    {
        match parsed {
            Ok(c) => ParsedCommand::Run(c),
            Err((kind, msg)) => if is_display_request(kind) {
                ParsedCommand::Display
            } else {
                ParsedCommand::Failed(BallError::InvalidConfig(concat("CLI Error: ", msg.as_str())))
            },
        }
    }
}

/// An external subcommand's name and the arguments that follow it.
pub fn external_invocation(args: &Vec<String>) -> (r: Result<(String, Vec<String>), BallError>)
    ensures
        args.len() == 0 ==> (r matches Err(e) && e@ == ErrorView::UnsupportedCommand("<empty>"@)),
        args.len() > 0 ==> (r matches Ok((name, rest)) && name@ == args@[0]@ && rest.deep_view()
            == args.deep_view().subrange(1, args.len() as int)),
{
    if args.len() == 0 {
        return Err(BallError::UnsupportedCommand(String::from_str("<empty>")));
    }
    let name = args[0].clone();
    let mut rest: Vec<String> = Vec::new();
    let mut i: usize = 1;
    proof {
        assert(rest.deep_view() =~= args.deep_view().subrange(1, 1));
    }
    while i < args.len()
        invariant
            1 <= i <= args.len(),
            rest.deep_view() == args.deep_view().subrange(1, i as int),
        decreases args.len() - i,
    {
        let ghost before = rest.deep_view();
        rest.push(args[i].clone());
        proof {
            assert(rest.deep_view() =~= before.push(args@[i as int]@));
            assert(args.deep_view().subrange(1, i + 1) =~= args.deep_view().subrange(1, i as int).push(
                args@[i as int]@,
            ));
        }
        i = i + 1;
    }
    Ok((name, rest))
}

// ---------------------------------------------------------------------------
// Laws
// ---------------------------------------------------------------------------

/// Every subcommand the parser knows has an entry in the help table.
pub proof fn law_every_subcommand_is_documented()
    ensures
        forall|i: int|
            0 <= i < spec_subcommand_names().len() ==> exists|j: int|
                0 <= j < spec_builtin_commands().len() && #[trigger] spec_builtin_commands()[j].name
                    == #[trigger] spec_subcommand_names()[i],
{
    let s = spec_subcommand_names();
    let b = spec_builtin_commands();
    assert forall|i: int| 0 <= i < s.len() implies exists|j: int|
        0 <= j < b.len() && #[trigger] b[j].name == #[trigger] s[i] by {
        assert(b[i].name == s[i]);
    }
}

/// Every documented built-in is reserved: no injected command can take its
/// name.
pub proof fn law_documented_commands_are_reserved()
    ensures
        forall|i: int|
            0 <= i < spec_builtin_commands().len() ==> spec_reserved_commands().contains(
                #[trigger] spec_builtin_commands()[i].name,
            ),
{
    let r = spec_reserved_commands();
    let b = spec_builtin_commands();
    assert forall|i: int| 0 <= i < b.len() implies r.contains(#[trigger] b[i].name) by {
        assert(r[i] == b[i].name);
    }
}

} // verus!
