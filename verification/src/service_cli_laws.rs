//! What the command line of the service asks for.

use crate::args::{looks_like_option, nothing_found, scanned, ArgError, FoundModel};
use crate::command_laws::{lemma_options_are_read, long_option, with_value};
use crate::service_cli::{command_named, command_position, config_shape, parsed, Commands};
use vstd::prelude::*;

verus! {

/// Commands of the service go by their names.
pub proof fn lemma_service_commands_by_name()
    ensures
        command_named("run"@) == Some(Commands::Run),
        command_named("install"@) == Some(Commands::Install),
        command_named("uninstall"@) == Some(Commands::Uninstall),
        command_named("start"@) == Some(Commands::Start),
        command_named("stop"@) == Some(Commands::Stop),
        command_named("status"@) == Some(Commands::Status),
        command_named("install-start"@) == Some(Commands::InstallStart),
{
    reveal_strlit("run");
    reveal_strlit("install");
    reveal_strlit("uninstall");
    reveal_strlit("start");
    reveal_strlit("stop");
    reveal_strlit("status");
    reveal_strlit("install-start");
    assert("run"@.len() == 3);
    assert("install"@.len() == 7);
    assert("uninstall"@.len() == 9);
    assert("start"@.len() == 5);
    assert("stop"@.len() == 4);
    assert("status"@.len() == 6);
    assert("install-start"@.len() == 13);
}

proof fn lemma_config_option()
    ensures
        long_option(config_shape(), "config"@, 0),
        seq!['-', '-'] + "config"@ == "--config"@,
        looks_like_option("--config"@),
        "--config"@ != "--"@,
{
    reveal_strlit("config");
    reveal_strlit("help");
    reveal_strlit("--config");
    reveal_strlit("--");
    assert("config"@.len() == 6 && "help"@.len() == 4);
    assert(seq!['-', '-'] + "config"@ =~= "--config"@);
    assert("--config"@.len() == 8 && "--"@.len() == 2);
}

/// The settings are at `config.toml` unless another place is given, in front of the command or behind it; what
/// stands behind the command goes first. Without a command there is none.
pub proof fn lemma_service_command_lines(program: Seq<char>, word: Seq<char>, c: Commands, path: Seq<char>, other: Seq<char>)
    requires
        !looks_like_option(word),
        word != "help"@,
        command_named(word) == Some(c),
        !looks_like_option(path),
        !looks_like_option(other),
    ensures
        parsed(seq![program]) == Ok::<(Seq<char>, Option<Commands>), ArgError>(("config.toml"@, None)),
        parsed(seq![program, word]) == Ok::<(Seq<char>, Option<Commands>), ArgError>(("config.toml"@, Some(c))),
        parsed(seq![program, "--config"@, path, word]) == Ok::<(Seq<char>, Option<Commands>), ArgError>((path, Some(c))),
        parsed(seq![program, word, "--config"@, path]) == Ok::<(Seq<char>, Option<Commands>), ArgError>((path, Some(c))),
        parsed(seq![program, "--config"@, other, word, "--config"@, path]) == Ok::<(Seq<char>, Option<Commands>), ArgError>(
            (path, Some(c)),
        ),
        parsed(seq![program, "--config"@, path]) == Ok::<(Seq<char>, Option<Commands>), ArgError>((path, None)),
{
    lemma_config_option();
    let shape = config_shape();
    let none = nothing_found(1);
    let flag = "--config"@;
    reveal_with_fuel(command_position, 4);
    let t0 = seq![program];
    assert(command_position(t0, 1) == 1);
    assert(t0.take(1) =~= t0);
    let t1 = seq![program, word];
    assert(command_position(t1, 1) == 1);
    assert(scanned(shape, t1.take(1), 1, false, none) == Ok::<FoundModel, ArgError>(none));
    assert(scanned(shape, t1, 2, false, none) == Ok::<FoundModel, ArgError>(none));
    let t2 = seq![program, flag, path, word];
    assert(t2[1] == flag && t2[3] == word);
    assert(command_position(t2, 1) == 3);
    let h2 = t2.take(3);
    assert(h2[1] == flag && h2[2] == path);
    lemma_options_are_read(shape, h2, 1, none, "config"@, 0, path);
    assert(scanned(shape, h2, 3, false, with_value(none, 0, path)) == Ok::<FoundModel, ArgError>(with_value(none, 0, path)));
    assert(scanned(shape, t2, 4, false, none) == Ok::<FoundModel, ArgError>(none));
    let t3 = seq![program, word, flag, path];
    assert(t3[1] == word && t3[2] == flag && t3[3] == path);
    assert(command_position(t3, 1) == 1);
    lemma_options_are_read(shape, t3, 2, none, "config"@, 0, path);
    assert(scanned(shape, t3.take(1), 1, false, none) == Ok::<FoundModel, ArgError>(none));
    assert(scanned(shape, t3, 4, false, with_value(none, 0, path)) == Ok::<FoundModel, ArgError>(with_value(none, 0, path)));
    let t4 = seq![program, flag, other, word, flag, path];
    assert(t4[1] == flag && t4[3] == word && t4[4] == flag && t4[5] == path);
    assert(command_position(t4, 1) == 3);
    let h4 = t4.take(3);
    assert(h4[1] == flag && h4[2] == other);
    lemma_options_are_read(shape, h4, 1, none, "config"@, 0, other);
    assert(scanned(shape, h4, 3, false, with_value(none, 0, other)) == Ok::<FoundModel, ArgError>(with_value(none, 0, other)));
    lemma_options_are_read(shape, t4, 4, none, "config"@, 0, path);
    assert(scanned(shape, t4, 6, false, with_value(none, 0, path)) == Ok::<FoundModel, ArgError>(with_value(none, 0, path)));
    let t5 = seq![program, flag, path];
    assert(t5[1] == flag && t5[2] == path);
    assert(command_position(t5, 1) == 3);
    assert(t5.take(3) =~= t5);
    lemma_options_are_read(shape, t5, 1, none, "config"@, 0, path);
    assert(scanned(shape, t5, 3, false, with_value(none, 0, path)) == Ok::<FoundModel, ArgError>(with_value(none, 0, path)));
}

} // verus!
