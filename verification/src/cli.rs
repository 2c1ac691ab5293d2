//! The command line of the monitor.

use crate::args::{
    count_of, nothing_found, parse_count, parse_tokens, scanned, tokens_of, ArgError, Found, FoundModel, OptionShape,
    Shape, ShapeModel,
};
use crate::text::{opt_text, same_text};
use vstd::prelude::*;

verus! {

/// A command line that was understood; without a command it asks for the window.
#[derive(Debug)]
pub struct Cli {
    pub command: Option<Commands>,
}

/// The commands.
#[allow(inconsistent_fields)]
#[derive(Debug)]
pub enum Commands {
    /// Show the window.
    Run,
    /// List stutters.
    Events { from: Option<String>, to: Option<String>, limit: usize },
    /// List samples.
    Samples { from: Option<String>, to: Option<String>, limit: usize },
    /// Summarise a range.
    Analysis { from: Option<String>, to: Option<String> },
    /// Ask the database.
    Query { sql: String, db: Option<String> },
    /// Show the settings.
    Config,
    /// Show the state of the service.
    Status,
    /// Show the top processes of this moment.
    Process { limit: usize },
    /// Write samples to a file.
    Export { from: String, to: String, output: String },
    /// Upgrade the service.
    Upgrade { no_build: bool },
    /// Thin out old samples and shrink the database.
    Maintenance { skip_vacuum: bool },
}

/// What a command holds.
pub enum CommandModel {
    Run,
    Events(Option<Seq<char>>, Option<Seq<char>>, int),
    Samples(Option<Seq<char>>, Option<Seq<char>>, int),
    Analysis(Option<Seq<char>>, Option<Seq<char>>),
    Query(Seq<char>, Option<Seq<char>>),
    Config,
    Status,
    Process(int),
    Export(Seq<char>, Seq<char>, Seq<char>),
    Upgrade(bool),
    Maintenance(bool),
}

impl View for Commands {
    type V = CommandModel;

    open spec fn view(&self) -> CommandModel {
        match self {
            Commands::Run => CommandModel::Run,
            Commands::Events { from, to, limit } => CommandModel::Events(opt_text(*from), opt_text(*to), *limit as int),
            Commands::Samples { from, to, limit } => CommandModel::Samples(
                opt_text(*from),
                opt_text(*to),
                *limit as int,
            ),
            Commands::Analysis { from, to } => CommandModel::Analysis(opt_text(*from), opt_text(*to)),
            Commands::Query { sql, db } => CommandModel::Query(sql@, opt_text(*db)),
            Commands::Config => CommandModel::Config,
            Commands::Status => CommandModel::Status,
            Commands::Process { limit } => CommandModel::Process(*limit as int),
            Commands::Export { from, to, output } => CommandModel::Export(from@, to@, output@),
            Commands::Upgrade { no_build } => CommandModel::Upgrade(*no_build),
            Commands::Maintenance { skip_vacuum } => CommandModel::Maintenance(*skip_vacuum),
        }
    }
}

/// The commands by name.
#[derive(Clone, Copy, Debug, PartialEq, Eq, Structural)]
pub enum CommandName {
    Run,
    Events,
    Samples,
    Analysis,
    Query,
    Config,
    Status,
    Process,
    Export,
    Upgrade,
    Maintenance,
}

/// The command with a name.
pub open spec fn command_named(t: Seq<char>) -> Option<CommandName> {
    if t == "run"@ {
        Some(CommandName::Run)
    } else if t == "events"@ {
        Some(CommandName::Events)
    } else if t == "samples"@ {
        Some(CommandName::Samples)
    } else if t == "analysis"@ {
        Some(CommandName::Analysis)
    } else if t == "query"@ {
        Some(CommandName::Query)
    } else if t == "config"@ {
        Some(CommandName::Config)
    } else if t == "status"@ {
        Some(CommandName::Status)
    } else if t == "process"@ {
        Some(CommandName::Process)
    } else if t == "export"@ {
        Some(CommandName::Export)
    } else if t == "upgrade"@ {
        Some(CommandName::Upgrade)
    } else if t == "maintenance"@ {
        Some(CommandName::Maintenance)
    } else {
        None
    }
}

fn name_command(t: &str) -> (r: Option<CommandName>)
    ensures
        r == command_named(t@),
{
    if same_text(t, "run") {
        Some(CommandName::Run)
    } else if same_text(t, "events") {
        Some(CommandName::Events)
    } else if same_text(t, "samples") {
        Some(CommandName::Samples)
    } else if same_text(t, "analysis") {
        Some(CommandName::Analysis)
    } else if same_text(t, "query") {
        Some(CommandName::Query)
    } else if same_text(t, "config") {
        Some(CommandName::Config)
    } else if same_text(t, "status") {
        Some(CommandName::Status)
    } else if same_text(t, "process") {
        Some(CommandName::Process)
    } else if same_text(t, "export") {
        Some(CommandName::Export)
    } else if same_text(t, "upgrade") {
        Some(CommandName::Upgrade)
    } else if same_text(t, "maintenance") {
        Some(CommandName::Maintenance)
    } else {
        None
    }
}

/// What each command accepts.
pub open spec fn shape_of(c: CommandName) -> ShapeModel {
    let none = ShapeModel { longs: seq![], shorts: seq![], switch: None, positional: false };
    match c {
        CommandName::Events | CommandName::Samples => ShapeModel {
            longs: seq!["from"@, "to"@, "limit"@],
            shorts: seq![None, None, Some('l')],
            ..none
        },
        CommandName::Analysis => ShapeModel { longs: seq!["from"@, "to"@], shorts: seq![None, None], ..none },
        CommandName::Query => ShapeModel { longs: seq!["db"@], shorts: seq![None], positional: true, ..none },
        CommandName::Process => ShapeModel { longs: seq!["limit"@], shorts: seq![Some('l')], ..none },
        CommandName::Export => ShapeModel {
            longs: seq!["from"@, "to"@, "output"@],
            shorts: seq![None, None, Some('o')],
            ..none
        },
        CommandName::Upgrade => ShapeModel { switch: Some("no-build"@), ..none },
        CommandName::Maintenance => ShapeModel { switch: Some("skip-vacuum"@), ..none },
        _ => none,
    }
}

fn make_shape(c: CommandName) -> (s: Shape)
    ensures
        s@ == shape_of(c),
        s.options@.len() == shape_of(c).longs.len(),
{
    let mut options: Vec<OptionShape> = Vec::new();
    let mut switch: Option<&'static str> = None;
    let mut positional = false;
    match c {
        CommandName::Events | CommandName::Samples => {
            options.push(OptionShape { long: "from", short: None });
            options.push(OptionShape { long: "to", short: None });
            options.push(OptionShape { long: "limit", short: Some('l') });
        },
        CommandName::Analysis => {
            options.push(OptionShape { long: "from", short: None });
            options.push(OptionShape { long: "to", short: None });
        },
        CommandName::Query => {
            options.push(OptionShape { long: "db", short: None });
            positional = true;
        },
        CommandName::Process => {
            options.push(OptionShape { long: "limit", short: Some('l') });
        },
        CommandName::Export => {
            options.push(OptionShape { long: "from", short: None });
            options.push(OptionShape { long: "to", short: None });
            options.push(OptionShape { long: "output", short: Some('o') });
        },
        CommandName::Upgrade => {
            switch = Some("no-build");
        },
        CommandName::Maintenance => {
            switch = Some("skip-vacuum");
        },
        _ => {},
    }
    let s = Shape { options, switch, positional };
    proof {
        assert(s@.longs =~= shape_of(c).longs);
        assert(s@.shorts =~= shape_of(c).shorts);
    }
    s
}

/// A count that an option gives, or its default.
pub open spec fn count_given(v: Option<Seq<char>>, default: int) -> Result<int, ArgError> {
    match v {
        Some(s) => match count_of(s) {
            Some(n) => Ok(n),
            None => Err(ArgError::InvalidNumber),
        },
        None => Ok(default),
    }
}

fn give_count(v: &Option<String>, default: usize) -> (r: Result<usize, ArgError>)
    ensures
        match r {
            Ok(n) => count_given(opt_text(*v), default as int) == Ok::<int, ArgError>(n as int),
            Err(e) => count_given(opt_text(*v), default as int) == Err::<int, ArgError>(e),
        },
{
    match v {
        Some(s) => match parse_count(s.as_str()) {
            Some(n) => Ok(n),
            None => Err(ArgError::InvalidNumber),
        },
        None => Ok(default),
    }
}

/// The command of what was found for it.
pub open spec fn command_of(c: CommandName, f: FoundModel) -> Result<CommandModel, ArgError> {
    match c {
        CommandName::Run => Ok(CommandModel::Run),
        CommandName::Events => match count_given(f.values[2], 100) {
            Ok(n) => Ok(CommandModel::Events(f.values[0], f.values[1], n)),
            Err(e) => Err(e),
        },
        CommandName::Samples => match count_given(f.values[2], 1000) {
            Ok(n) => Ok(CommandModel::Samples(f.values[0], f.values[1], n)),
            Err(e) => Err(e),
        },
        CommandName::Analysis => Ok(CommandModel::Analysis(f.values[0], f.values[1])),
        CommandName::Query => match f.positional {
            Some(sql) => Ok(CommandModel::Query(sql, f.values[0])),
            None => Err(ArgError::MissingRequired),
        },
        CommandName::Config => Ok(CommandModel::Config),
        CommandName::Status => Ok(CommandModel::Status),
        CommandName::Process => match count_given(f.values[0], 10) {
            Ok(n) => Ok(CommandModel::Process(n)),
            Err(e) => Err(e),
        },
        CommandName::Export => match (f.values[0], f.values[1]) {
            (Some(from), Some(to)) => Ok(
                CommandModel::Export(
                    from,
                    to,
                    match f.values[2] {
                        Some(o) => o,
                        None => "export.csv"@,
                    },
                ),
            ),
            _ => Err(ArgError::MissingRequired),
        },
        CommandName::Upgrade => Ok(CommandModel::Upgrade(f.switch)),
        CommandName::Maintenance => Ok(CommandModel::Maintenance(f.switch)),
    }
}

fn copy_opt(s: &Option<String>) -> (r: Option<String>)
    ensures
        opt_text(r) == opt_text(*s),
{
    match s {
        Some(x) => Some(x.clone()),
        None => None,
    }
}

fn make_command(c: CommandName, f: &Found) -> (r: Result<Commands, ArgError>)
    requires
        f.values@.len() == shape_of(c).longs.len(),
    ensures
        match r {
            Ok(x) => command_of(c, f@) == Ok::<CommandModel, ArgError>(x@),
            Err(e) => command_of(c, f@) == Err::<CommandModel, ArgError>(e),
        },
{
    let ghost vs = f@.values;
    proof {
        assert forall|i: int| 0 <= i < f.values@.len() implies #[trigger] vs[i] == opt_text(f.values@[i]) by {}
    }
    match c {
        CommandName::Run => Ok(Commands::Run),
        CommandName::Events => match give_count(&f.values[2], 100) {
            Ok(limit) => Ok(Commands::Events { from: copy_opt(&f.values[0]), to: copy_opt(&f.values[1]), limit }),
            Err(e) => Err(e),
        },
        CommandName::Samples => match give_count(&f.values[2], 1000) {
            Ok(limit) => Ok(Commands::Samples { from: copy_opt(&f.values[0]), to: copy_opt(&f.values[1]), limit }),
            Err(e) => Err(e),
        },
        CommandName::Analysis => Ok(Commands::Analysis { from: copy_opt(&f.values[0]), to: copy_opt(&f.values[1]) }),
        CommandName::Query => match &f.positional {
            Some(sql) => Ok(Commands::Query { sql: sql.clone(), db: copy_opt(&f.values[0]) }),
            None => Err(ArgError::MissingRequired),
        },
        CommandName::Config => Ok(Commands::Config),
        CommandName::Status => Ok(Commands::Status),
        CommandName::Process => match give_count(&f.values[0], 10) {
            Ok(limit) => Ok(Commands::Process { limit }),
            Err(e) => Err(e),
        },
        CommandName::Export => match (&f.values[0], &f.values[1]) {
            (Some(from), Some(to)) => {
                let output = match &f.values[2] {
                    Some(o) => o.clone(),
                    None => String::from_str("export.csv"),
                };
                Ok(Commands::Export { from: from.clone(), to: to.clone(), output })
            },
            _ => Err(ArgError::MissingRequired),
        },
        CommandName::Upgrade => Ok(Commands::Upgrade { no_build: f.switch }),
        CommandName::Maintenance => Ok(Commands::Maintenance { skip_vacuum: f.switch }),
    }
}

/// What a command line asks for; its first token is the name of the program. No command can follow the
/// end of the options.
pub open spec fn parsed(tokens: Seq<Seq<char>>) -> Result<Option<CommandModel>, ArgError> {
    if tokens.len() <= 1 {
        Ok(None)
    } else {
        let t = tokens[1];
        if t == "help"@ || t == "--help"@ || t == "-h"@ {
            Err(ArgError::Help)
        } else if t == "--version"@ || t == "-V"@ {
            Err(ArgError::Version)
        } else if t == "--"@ && tokens.len() == 2 {
            Ok(None)
        } else if t.len() > 1 && t[0] == '-' {
            Err(ArgError::UnexpectedArgument)
        } else {
            match command_named(t) {
                None => Err(ArgError::UnknownCommand),
                Some(c) => match scanned(
                    shape_of(c),
                    tokens,
                    2,
                    false,
                    nothing_found(shape_of(c).longs.len() as int),
                ) {
                    Ok(f) => match command_of(c, f) {
                        Ok(x) => Ok(Some(x)),
                        Err(e) => Err(e),
                    },
                    Err(e) => Err(e),
                },
            }
        }
    }
}

fn dash_first(t: &str) -> (r: bool)
    ensures
        r == (t@.len() > 1 && t@[0] == '-'),
{
    t.unicode_len() > 1 && t.get_char(0) == '-'
}

impl Cli {
    /// Understands a command line; its first token is the name of the program.
    pub fn try_parse_from(args: &[&str]) -> (r: Result<Cli, ArgError>)
        ensures
            match r {
                Ok(cli) => parsed(tokens_of(args@)) == Ok::<Option<CommandModel>, ArgError>(
                    match cli.command {
                        Some(c) => Some(c@),
                        None => None,
                    },
                ),
                Err(e) => parsed(tokens_of(args@)) == Err::<Option<CommandModel>, ArgError>(e),
            },
    {
        if args.len() <= 1 {
            return Ok(Cli { command: None });
        }
        let t = args[1];
        proof {
            assert(tokens_of(args@)[1] == t@);
        }
        if same_text(t, "help") || same_text(t, "--help") || same_text(t, "-h") {
            return Err(ArgError::Help);
        }
        if same_text(t, "--version") || same_text(t, "-V") {
            return Err(ArgError::Version);
        }
        if same_text(t, "--") && args.len() == 2 {
            return Ok(Cli { command: None });
        }
        if dash_first(t) {
            return Err(ArgError::UnexpectedArgument);
        }
        match name_command(t) {
            None => Err(ArgError::UnknownCommand),
            Some(c) => {
                let shape = make_shape(c);
                match parse_tokens(&shape, args, 2) {
                    Ok(f) => match make_command(c, &f) {
                        Ok(x) => Ok(Cli { command: Some(x) }),
                        Err(e) => Err(e),
                    },
                    Err(e) => Err(e),
                }
            },
        }
    }
}

/// Understands the command line of the process.
pub fn parse_args(args: &[&str]) -> (r: Result<Cli, ArgError>)
    ensures
        match r {
            Ok(cli) => parsed(tokens_of(args@)) == Ok::<Option<CommandModel>, ArgError>(
                match cli.command {
                    Some(c) => Some(c@),
                    None => None,
                },
            ),
            Err(e) => parsed(tokens_of(args@)) == Err::<Option<CommandModel>, ArgError>(e),
        },
{
    Cli::try_parse_from(args)
}

/// Understands a given command line.
pub fn try_parse_args_from(args: &[&str]) -> (r: Result<Cli, ArgError>)
    ensures
        match r {
            Ok(cli) => parsed(tokens_of(args@)) == Ok::<Option<CommandModel>, ArgError>(
                match cli.command {
                    Some(c) => Some(c@),
                    None => None,
                },
            ),
            Err(e) => parsed(tokens_of(args@)) == Err::<Option<CommandModel>, ArgError>(e),
        },
{
    Cli::try_parse_from(args)
}

/// Where a command line leads.
#[derive(Clone, Copy, Debug, PartialEq, Eq, Structural)]
pub enum DispatchOutcome {
    /// To the window.
    LaunchGui,
    /// To an answer on the terminal.
    Done,
}

/// Where a command leads.
pub open spec fn leads_to(command: Option<CommandModel>) -> DispatchOutcome {
    match command {
        None => DispatchOutcome::LaunchGui,
        Some(c) => if c is Run {
            DispatchOutcome::LaunchGui
        } else {
            DispatchOutcome::Done
        },
    }
}

/// Where a command line leads: to the window without a command or with the one to show it, else to an
/// answer.
pub fn dispatch(cli: &Cli) -> (r: DispatchOutcome)
    ensures
        r == leads_to(
            match cli.command {
                Some(c) => Some(c@),
                None => None,
            },
        ),
        r == (match cli.command {
            None => DispatchOutcome::LaunchGui,
            Some(c) => if c is Run {
                DispatchOutcome::LaunchGui
            } else {
                DispatchOutcome::Done
            },
        }),
{
    match &cli.command {
        None => DispatchOutcome::LaunchGui,
        Some(c) => match c {
            Commands::Run => DispatchOutcome::LaunchGui,
            _ => DispatchOutcome::Done,
        },
    }
}

} // verus!
