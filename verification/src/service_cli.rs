//! The command line of the service.

use crate::args::{
    looks_like_option, nothing_found, parse_tokens, scanned, tokens_of, ArgError, OptionShape, Shape,
    ShapeModel,
};
use crate::text::{chars_of, opt_text, same_text};
use vstd::prelude::*;

verus! {

/// A command line of the service; without a command the service manager started it.
#[derive(Debug)]
pub struct Cli {
    /// The path of the settings.
    pub config: String,
    pub command: Option<Commands>,
}

/// The commands of the service.
#[derive(Clone, Copy, Debug, PartialEq, Eq, Structural)]
pub enum Commands {
    /// Run in the foreground.
    Run,
    Install,
    Uninstall,
    Start,
    Stop,
    Status,
    /// Install and start in one go.
    InstallStart,
}

/// The command with a name.
pub open spec fn command_named(t: Seq<char>) -> Option<Commands> {
    if t == "run"@ {
        Some(Commands::Run)
    } else if t == "install"@ {
        Some(Commands::Install)
    } else if t == "uninstall"@ {
        Some(Commands::Uninstall)
    } else if t == "start"@ {
        Some(Commands::Start)
    } else if t == "stop"@ {
        Some(Commands::Stop)
    } else if t == "status"@ {
        Some(Commands::Status)
    } else if t == "install-start"@ {
        Some(Commands::InstallStart)
    } else {
        None
    }
}

fn name_command(t: &str) -> (r: Option<Commands>)
    ensures
        r == command_named(t@),
{
    if same_text(t, "run") {
        Some(Commands::Run)
    } else if same_text(t, "install") {
        Some(Commands::Install)
    } else if same_text(t, "uninstall") {
        Some(Commands::Uninstall)
    } else if same_text(t, "start") {
        Some(Commands::Start)
    } else if same_text(t, "stop") {
        Some(Commands::Stop)
    } else if same_text(t, "status") {
        Some(Commands::Status)
    } else if same_text(t, "install-start") {
        Some(Commands::InstallStart)
    } else {
        None
    }
}

/// What every command accepts: the path of the settings.
pub open spec fn config_shape() -> ShapeModel {
    ShapeModel { longs: seq!["config"@], shorts: seq![None], switch: None, positional: false }
}

/// The position of the command: behind the options that come first, and never behind their end.
pub open spec fn command_position(tokens: Seq<Seq<char>>, i: int) -> int
    decreases tokens.len() + 1 - i,
{
    if i < 0 || i >= tokens.len() {
        tokens.len() as int
    } else if !looks_like_option(tokens[i]) {
        i
    } else if tokens[i] == "--"@ {
        tokens.len() as int
    } else if tokens[i] == "--config"@ {
        command_position(tokens, i + 2)
    } else {
        command_position(tokens, i + 1)
    }
}

/// The path of the settings: the last given, that of the command before that of the program.
pub open spec fn config_given(own: Option<Seq<char>>, outer: Option<Seq<char>>) -> Seq<char> {
    match own {
        Some(c) => c,
        None => match outer {
            Some(c) => c,
            None => "config.toml"@,
        },
    }
}

/// What a command line asks for; its first token is the name of the program.
pub open spec fn parsed(tokens: Seq<Seq<char>>) -> Result<(Seq<char>, Option<Commands>), ArgError> {
    let at = command_position(tokens, 1);
    match scanned(config_shape(), tokens.take(at), 1, false, nothing_found(1)) {
        Err(e) => Err(e),
        Ok(outer) => if at >= tokens.len() {
            Ok((config_given(None, outer.values[0]), None))
        } else if tokens[at] == "help"@ {
            Err(ArgError::Help)
        } else {
            match command_named(tokens[at]) {
                None => Err(ArgError::UnknownCommand),
                Some(c) => match scanned(config_shape(), tokens, at + 1, false, nothing_found(1)) {
                    Ok(own) => Ok((config_given(own.values[0], outer.values[0]), Some(c))),
                    Err(e) => Err(e),
                },
            }
        },
    }
}

fn make_shape() -> (s: Shape)
    ensures
        s@ == config_shape(),
        s.options@.len() == 1,
{
    let mut options: Vec<OptionShape> = Vec::new();
    options.push(OptionShape { long: "config", short: None });
    let s = Shape { options, switch: None, positional: false };
    proof {
        assert(s@.longs =~= config_shape().longs);
        assert(s@.shorts =~= config_shape().shorts);
    }
    s
}

fn find_command(tokens: &[&str]) -> (at: usize)
    ensures
        at == command_position(tokens_of(tokens@), 1),
        at <= tokens@.len(),
{
    let len: usize = tokens.len();
    let ghost ts = tokens_of(tokens@);
    let mut i: usize = 1;
    while i < len
        invariant
            len == tokens@.len(),
            ts == tokens_of(tokens@),
            1 <= i,
            command_position(ts, i as int) == command_position(ts, 1),
        decreases len - i,
    {
        let t = tokens[i];
        proof {
            assert(ts[i as int] == t@);
        }
        let v = chars_of(t);
        if v.len() <= 1 || v[0] != '-' {
            return i;
        }
        if same_text(t, "--") {
            return len;
        }
        if same_text(t, "--config") {
            if len - i <= 2 {
                proof {
                    assert(command_position(ts, i + 2) == ts.len());
                }
                return len;
            }
            i += 2;
        } else {
            i += 1;
        }
    }
    len
}

fn front<'a>(tokens: &[&'a str], n: usize) -> (v: Vec<&'a str>)
    requires
        n <= tokens@.len(),
    ensures
        tokens_of(v@) == tokens_of(tokens@).take(n as int),
{
    let mut v: Vec<&str> = Vec::new();
    let mut i: usize = 0;
    proof {
        assert(tokens_of(v@) =~= tokens_of(tokens@).take(0));
    }
    while i < n
        invariant
            i <= n <= tokens@.len(),
            tokens_of(v@) == tokens_of(tokens@).take(i as int),
        decreases n - i,
    {
        let ghost before = v@;
        v.push(tokens[i]);
        i += 1;
        proof {
            assert(tokens_of(v@) =~= tokens_of(before).push(tokens@[i - 1]@));
            assert(tokens_of(v@) =~= tokens_of(tokens@).take(i as int));
        }
    }
    v
}

fn choose_config(own: &Option<String>, outer: &Option<String>) -> (s: String)
    ensures
        s@ == config_given(opt_text(*own), opt_text(*outer)),
{
    match own {
        Some(c) => c.clone(),
        None => match outer {
            Some(c) => c.clone(),
            None => String::from_str("config.toml"),
        },
    }
}

impl Cli {
    /// Understands a command line of the service; its first token is the name of the program.
    pub fn try_parse_from(args: &[&str]) -> (r: Result<Cli, ArgError>)
        ensures
            match r {
                Ok(cli) => parsed(tokens_of(args@)) == Ok::<(Seq<char>, Option<Commands>), ArgError>(
                    (cli.config@, cli.command),
                ),
                Err(e) => parsed(tokens_of(args@)) == Err::<(Seq<char>, Option<Commands>), ArgError>(e),
            },
    {
        let shape = make_shape();
        let at = find_command(args);
        let head = front(args, at);
        let outer = match parse_tokens(&shape, head.as_slice(), 1) {
            Ok(f) => f,
            Err(e) => return Err(e),
        };
        proof {
            assert(outer@.values[0] == opt_text(outer.values@[0]));
        }
        if at >= args.len() {
            return Ok(Cli { config: choose_config(&None, &outer.values[0]), command: None });
        }
        let t = args[at];
        proof {
            assert(tokens_of(args@)[at as int] == t@);
        }
        if same_text(t, "help") {
            return Err(ArgError::Help);
        }
        match name_command(t) {
            None => Err(ArgError::UnknownCommand),
            Some(c) => match parse_tokens(&shape, args, at + 1) {
                Ok(own) => {
                    proof {
                        assert(own@.values[0] == opt_text(own.values@[0]));
                    }
                    Ok(Cli { config: choose_config(&own.values[0], &outer.values[0]), command: Some(c) })
                },
                Err(e) => Err(e),
            },
        }
    }
}

} // verus!
