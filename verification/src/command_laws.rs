//! What command lines ask for.

use crate::args::{
    count_of, digits_value, equals_from, long_at, looks_like_option, nothing_found, scanned, short_at, token_of, ArgError,
    FoundModel, ShapeModel, TokenModel,
};
use crate::cli::{command_named, command_of, leads_to, parsed, shape_of, CommandModel, CommandName, DispatchOutcome};
use crate::counting_laws::lemma_digits_stand_for_numbers;
use crate::text::{decimal, digit_char};
use vstd::prelude::*;

verus! {

/// A count is read from its decimal digits, with or without a plus sign in front.
pub proof fn lemma_counts_are_read(n: nat)
    requires
        n <= usize::MAX,
    ensures
        count_of(decimal(n)) == Some(n as int),
        count_of(seq!['+'] + decimal(n)) == Some(n as int),
{
    lemma_digits_read(n);
    lemma_digits_stand_for_numbers(n);
    let signed = seq!['+'] + decimal(n);
    assert(signed.skip(1) =~= decimal(n));
    assert('0' as u32 <= decimal(n)[0] as u32);
}

proof fn lemma_digits_read(n: nat)
    ensures
        digits_value(decimal(n)) == Some(n as int),
        decimal(n)[0] != '+',
    decreases n,
{
    reveal_with_fuel(digits_value, 2);
    if n < 10 {
        assert(decimal(n).drop_last() =~= seq![]);
        assert(decimal(n).last() == digit_char(n));
    } else {
        lemma_digits_read(n / 10);
        assert(decimal(n).drop_last() =~= decimal(n / 10));
        assert(decimal(n).last() == digit_char(n % 10));
    }
}

/// What holds anything but digits is no count.
pub proof fn lemma_no_counts(s: Seq<char>, i: int)
    requires
        0 <= i < s.len(),
        !('0' <= s[i] && s[i] <= '9'),
        i > 0 || s[0] != '+',
    ensures
        count_of(s) is None,
{
    if s[0] == '+' {
        let rest = s.skip(1);
        assert(rest[i - 1] == s[i]);
        lemma_no_digits(rest, i - 1);
    } else {
        lemma_no_digits(s, i);
    }
}

proof fn lemma_no_digits(s: Seq<char>, i: int)
    requires
        0 <= i < s.len(),
        !('0' <= s[i] && s[i] <= '9'),
    ensures
        digits_value(s) is None,
    decreases s.len(),
{
    if i < s.len() - 1 {
        lemma_no_digits(s.drop_last(), i);
    }
}

/// A name that an option of a command can have.
pub open spec fn plain_name(shape: ShapeModel, name: Seq<char>) -> bool {
    &&& name.len() > 0
    &&& forall|i: int| 0 <= i < name.len() ==> name[i] != '='
    &&& name != "help"@
    &&& shape.switch != Some(name)
}

/// An option with a long name is the one at `k`.
pub open spec fn long_option(shape: ShapeModel, name: Seq<char>, k: int) -> bool {
    &&& plain_name(shape, name)
    &&& 0 <= k < shape.longs.len()
    &&& shape.longs[k] == name
    &&& forall|j: int| 0 <= j < k ==> #[trigger] shape.longs[j] != name
}

/// What was found, with one more value.
pub open spec fn with_value(f: FoundModel, k: int, v: Seq<char>) -> FoundModel {
    FoundModel { values: f.values.update(k, Some(v)), ..f }
}

proof fn lemma_equals(t: Seq<char>, from: int, at: int)
    requires
        0 <= from <= at <= t.len(),
        at < t.len() ==> t[at] == '=',
        forall|i: int| from <= i < at ==> t[i] != '=',
    ensures
        equals_from(t, from) == at,
    decreases at - from,
{
    if from < at {
        lemma_equals(t, from + 1, at);
    }
}

proof fn lemma_long_at(shape: ShapeModel, name: Seq<char>, from: int, k: int)
    requires
        0 <= from <= k < shape.longs.len(),
        shape.longs[k] == name,
        forall|j: int| 0 <= j < k ==> #[trigger] shape.longs[j] != name,
    ensures
        long_at(shape, name, from) == k,
    decreases k - from,
{
    if from < k {
        assert(shape.longs[from] != name);
        lemma_long_at(shape, name, from + 1, k);
    }
}

proof fn lemma_long_token(shape: ShapeModel, name: Seq<char>, k: int, v: Seq<char>)
    requires
        long_option(shape, name, k),
    ensures
        token_of(shape, seq!['-', '-'] + name) == TokenModel::Option(k, None),
        token_of(shape, seq!['-', '-'] + name + seq!['='] + v) == TokenModel::Option(k, Some(v)),
{
    let dashes = seq!['-', '-'];
    let n = name.len() as int;
    let a = dashes + name;
    let b = dashes + name + seq!['='] + v;
    lemma_equals(a, 2, n + 2);
    lemma_equals(b, 2, n + 2);
    assert(a.subrange(2, n + 2) =~= name);
    assert(b.subrange(2, n + 2) =~= name);
    assert(b.skip(n + 3) =~= v);
    lemma_long_at(shape, name, 0, k);
}

/// An option may give its value in the next argument or behind an equals sign; either way it is the value of
/// that option, and a second one is refused.
pub proof fn lemma_options_are_read(
    shape: ShapeModel,
    tokens: Seq<Seq<char>>,
    i: int,
    f: FoundModel,
    name: Seq<char>,
    k: int,
    v: Seq<char>,
)
    requires
        long_option(shape, name, k),
        0 <= i < tokens.len(),
        f.values.len() == shape.longs.len(),
    ensures
        tokens[i] == seq!['-', '-'] + name + seq!['='] + v && f.values[k] is None ==> scanned(shape, tokens, i, false, f) == scanned(
            shape,
            tokens,
            i + 1,
            false,
            with_value(f, k, v),
        ),
        tokens[i] == seq!['-', '-'] + name && f.values[k] is None && i + 1 < tokens.len() && tokens[i + 1] == v
            && !looks_like_option(v) ==> scanned(shape, tokens, i, false, f) == scanned(
            shape,
            tokens,
            i + 2,
            false,
            with_value(f, k, v),
        ),
        tokens[i] == seq!['-', '-'] + name && f.values[k] is Some ==> scanned(shape, tokens, i, false, f) == Err::<
            FoundModel,
            ArgError,
        >(ArgError::RepeatedOption),
        tokens[i] == seq!['-', '-'] + name && f.values[k] is None && (i + 1 == tokens.len() || looks_like_option(tokens[i + 1]))
            ==> scanned(shape, tokens, i, false, f) == Err::<FoundModel, ArgError>(ArgError::MissingValue),
{
    lemma_long_token(shape, name, k, v);
}

proof fn lemma_short_at(shape: ShapeModel, c: char, from: int, k: int)
    requires
        0 <= from <= k < shape.shorts.len(),
        shape.shorts[k] == Some(c),
        forall|j: int| 0 <= j < k ==> #[trigger] shape.shorts[j] != Some(c),
    ensures
        short_at(shape, c, from) == k,
    decreases k - from,
{
    if from < k {
        assert(shape.shorts[from] != Some(c));
        lemma_short_at(shape, c, from + 1, k);
    }
}

/// A short option may give its value in the next argument, behind an equals sign or right behind its letter.
pub proof fn lemma_short_options_are_read(
    shape: ShapeModel,
    tokens: Seq<Seq<char>>,
    i: int,
    f: FoundModel,
    c: char,
    k: int,
    v: Seq<char>,
)
    requires
        c != '-' && c != 'h',
        0 <= k < shape.shorts.len(),
        shape.shorts[k] == Some(c),
        forall|j: int| 0 <= j < k ==> #[trigger] shape.shorts[j] != Some(c),
        0 <= i < tokens.len(),
        f.values.len() == shape.shorts.len(),
        f.values[k] is None,
    ensures
        tokens[i] == seq!['-', c] && i + 1 < tokens.len() && tokens[i + 1] == v && !looks_like_option(v) ==> scanned(
            shape,
            tokens,
            i,
            false,
            f,
        ) == scanned(shape, tokens, i + 2, false, with_value(f, k, v)),
        tokens[i] == seq!['-', c, '='] + v ==> scanned(shape, tokens, i, false, f) == scanned(
            shape,
            tokens,
            i + 1,
            false,
            with_value(f, k, v),
        ),
        tokens[i] == seq!['-', c] + v && v.len() > 0 && v[0] != '=' ==> scanned(shape, tokens, i, false, f) == scanned(
            shape,
            tokens,
            i + 1,
            false,
            with_value(f, k, v),
        ),
{
    lemma_short_at(shape, c, 0, k);
    let a = seq!['-', c];
    let b = seq!['-', c, '='] + v;
    let d = seq!['-', c] + v;
    assert(a.skip(2) =~= seq![]);
    assert(b.skip(2) =~= seq!['='] + v);
    assert((seq!['='] + v).skip(1) =~= v);
    assert(d.skip(2) =~= v);
}

/// A switch is on once it is given, and refused twice or with a value; help is given wherever it is asked for;
/// an unknown option or an unwanted argument is refused; behind two dashes nothing is an option.
pub proof fn lemma_other_arguments(shape: ShapeModel, tokens: Seq<Seq<char>>, i: int, f: FoundModel, name: Seq<char>)
    requires
        0 <= i < tokens.len(),
        name.len() > 0,
        forall|j: int| 0 <= j < name.len() ==> name[j] != '=',
        name != "help"@,
    ensures
        ({
            let r = scanned(shape, tokens, i, false, f);
            let t = tokens[i];
            &&& t == seq!['-', '-'] + name && shape.switch == Some(name) && !f.switch ==> r == scanned(
                shape,
                tokens,
                i + 1,
                false,
                FoundModel { switch: true, ..f },
            )
            &&& t == seq!['-', '-'] + name && shape.switch == Some(name) && f.switch ==> r == Err::<FoundModel, ArgError>(
                ArgError::RepeatedOption,
            )
            &&& t == seq!['-', '-'] + name && shape.switch != Some(name) && !shape.longs.contains(name) ==> r == Err::<
                FoundModel,
                ArgError,
            >(ArgError::UnexpectedArgument)
            &&& t == seq!['-', '-', 'h', 'e', 'l', 'p'] || t == seq!['-', 'h'] ==> r == Err::<FoundModel, ArgError>(
                ArgError::Help,
            )
            &&& !looks_like_option(t) && shape.positional && f.positional is None ==> r == scanned(
                shape,
                tokens,
                i + 1,
                false,
                FoundModel { positional: Some(t), ..f },
            )
            &&& !looks_like_option(t) && (!shape.positional || f.positional is Some) ==> r == Err::<FoundModel, ArgError>(
                ArgError::UnexpectedArgument,
            )
            &&& t == seq!['-', '-'] ==> r == scanned(shape, tokens, i + 1, true, f)
            &&& shape.positional && f.positional is None ==> scanned(shape, tokens, i, true, f) == scanned(
                shape,
                tokens,
                i + 1,
                true,
                FoundModel { positional: Some(t), ..f },
            )
        }),
        scanned(shape, tokens, tokens.len() as int, false, f) == Ok::<FoundModel, ArgError>(f),
{
    let t = tokens[i];
    let n = name.len() as int;
    if t == seq!['-', '-'] + name {
        lemma_equals(t, 2, n + 2);
        assert(t.subrange(2, n + 2) =~= name);
        if !shape.longs.contains(name) {
            lemma_no_long(shape, name, 0);
        }
    }
    let help = seq!['-', '-', 'h', 'e', 'l', 'p'];
    if t == help {
        reveal_strlit("help");
        lemma_equals(t, 2, 6);
        assert(t.subrange(2, 6) =~= "help"@);
    }
}

proof fn lemma_no_long(shape: ShapeModel, name: Seq<char>, i: int)
    requires
        0 <= i <= shape.longs.len(),
        !shape.longs.contains(name),
    ensures
        long_at(shape, name, i) == shape.longs.len(),
    decreases shape.longs.len() - i,
{
    if i < shape.longs.len() {
        assert(shape.longs.contains(shape.longs[i]));
        lemma_no_long(shape, name, i + 1);
    }
}

/// A word that names no help, no version and no option.
pub open spec fn first_word(t: Seq<char>) -> bool {
    t != "help"@ && t != "--help"@ && t != "-h"@ && t != "--version"@ && t != "-V"@ && t != "--"@ && !looks_like_option(t)
}

/// Commands go by their names.
pub proof fn lemma_commands_by_name()
    ensures
        command_named("run"@) == Some(CommandName::Run),
        command_named("events"@) == Some(CommandName::Events),
        command_named("samples"@) == Some(CommandName::Samples),
        command_named("analysis"@) == Some(CommandName::Analysis),
        command_named("query"@) == Some(CommandName::Query),
        command_named("config"@) == Some(CommandName::Config),
        command_named("status"@) == Some(CommandName::Status),
        command_named("process"@) == Some(CommandName::Process),
        command_named("export"@) == Some(CommandName::Export),
        command_named("upgrade"@) == Some(CommandName::Upgrade),
        command_named("maintenance"@) == Some(CommandName::Maintenance),
        first_word("run"@),
        first_word("events"@),
        first_word("samples"@),
        first_word("analysis"@),
        first_word("query"@),
        first_word("config"@),
        first_word("status"@),
        first_word("process"@),
        first_word("export"@),
        first_word("upgrade"@),
        first_word("maintenance"@),
{
    reveal_strlit("run");
    reveal_strlit("events");
    reveal_strlit("samples");
    reveal_strlit("analysis");
    reveal_strlit("query");
    reveal_strlit("config");
    reveal_strlit("status");
    reveal_strlit("process");
    reveal_strlit("export");
    reveal_strlit("upgrade");
    reveal_strlit("maintenance");
    reveal_strlit("help");
    reveal_strlit("--help");
    reveal_strlit("-h");
    reveal_strlit("--version");
    reveal_strlit("-V");
    reveal_strlit("--");
    assert("run"@.len() == 3 && "run"@[0] == 'r' && "run"@[1] == 'u');
    assert("events"@.len() == 6 && "events"@[0] == 'e' && "events"@[1] == 'v');
    assert("samples"@.len() == 7 && "samples"@[0] == 's' && "samples"@[1] == 'a');
    assert("analysis"@.len() == 8 && "analysis"@[0] == 'a' && "analysis"@[1] == 'n');
    assert("query"@.len() == 5 && "query"@[0] == 'q' && "query"@[1] == 'u');
    assert("config"@.len() == 6 && "config"@[0] == 'c' && "config"@[1] == 'o');
    assert("status"@.len() == 6 && "status"@[0] == 's' && "status"@[1] == 't');
    assert("process"@.len() == 7 && "process"@[0] == 'p' && "process"@[1] == 'r');
    assert("export"@.len() == 6 && "export"@[0] == 'e' && "export"@[1] == 'x');
    assert("upgrade"@.len() == 7 && "upgrade"@[0] == 'u' && "upgrade"@[1] == 'p');
    assert("maintenance"@.len() == 11 && "maintenance"@[0] == 'm' && "maintenance"@[1] == 'a');
    assert("help"@.len() == 4 && "help"@[0] == 'h' && "help"@[1] == 'e');
    assert("--help"@.len() == 6 && "--help"@[0] == '-' && "--help"@[1] == '-');
    assert("-h"@.len() == 2 && "-h"@[0] == '-' && "-h"@[1] == 'h');
    assert("--version"@.len() == 9 && "--version"@[0] == '-' && "--version"@[1] == '-');
    assert("-V"@.len() == 2 && "-V"@[0] == '-' && "-V"@[1] == 'V');
    assert("--"@.len() == 2 && "--"@[0] == '-' && "--"@[1] == '-');
}

/// What a command line with a command asks for is what its options say.
pub proof fn lemma_command_lines(tokens: Seq<Seq<char>>, c: CommandName)
    requires
        tokens.len() >= 2,
        first_word(tokens[1]),
        command_named(tokens[1]) == Some(c),
    ensures
        ({
            let found = scanned(shape_of(c), tokens, 2, false, nothing_found(shape_of(c).longs.len() as int));
            match found {
                Ok(f) => match command_of(c, f) {
                    Ok(x) => parsed(tokens) == Ok::<Option<CommandModel>, ArgError>(Some(x)),
                    Err(e) => parsed(tokens) == Err::<Option<CommandModel>, ArgError>(e),
                },
                Err(e) => parsed(tokens) == Err::<Option<CommandModel>, ArgError>(e),
            }
        }),
{
}

/// Commands without options: each asks for what it is named after, with its default count or without bounds;
/// a query needs its statement and an export its bounds.
pub proof fn lemma_bare_commands(program: Seq<char>)
    ensures
        parsed(seq![program]) == Ok::<Option<CommandModel>, ArgError>(None),
        parsed(seq![program, "run"@]) == Ok::<Option<CommandModel>, ArgError>(Some(CommandModel::Run)),
        parsed(seq![program, "config"@]) == Ok::<Option<CommandModel>, ArgError>(Some(CommandModel::Config)),
        parsed(seq![program, "status"@]) == Ok::<Option<CommandModel>, ArgError>(Some(CommandModel::Status)),
        parsed(seq![program, "events"@]) == Ok::<Option<CommandModel>, ArgError>(Some(CommandModel::Events(None, None, 100))),
        parsed(seq![program, "samples"@]) == Ok::<Option<CommandModel>, ArgError>(
            Some(CommandModel::Samples(None, None, 1000)),
        ),
        parsed(seq![program, "analysis"@]) == Ok::<Option<CommandModel>, ArgError>(Some(CommandModel::Analysis(None, None))),
        parsed(seq![program, "process"@]) == Ok::<Option<CommandModel>, ArgError>(Some(CommandModel::Process(10))),
        parsed(seq![program, "upgrade"@]) == Ok::<Option<CommandModel>, ArgError>(Some(CommandModel::Upgrade(false))),
        parsed(seq![program, "maintenance"@]) == Ok::<Option<CommandModel>, ArgError>(
            Some(CommandModel::Maintenance(false)),
        ),
        parsed(seq![program, "query"@]) == Err::<Option<CommandModel>, ArgError>(ArgError::MissingRequired),
        parsed(seq![program, "export"@]) == Err::<Option<CommandModel>, ArgError>(ArgError::MissingRequired),
{
    lemma_commands_by_name();
    lemma_bare(program, "run"@, CommandName::Run);
    lemma_bare(program, "config"@, CommandName::Config);
    lemma_bare(program, "status"@, CommandName::Status);
    lemma_bare(program, "events"@, CommandName::Events);
    lemma_bare(program, "samples"@, CommandName::Samples);
    lemma_bare(program, "analysis"@, CommandName::Analysis);
    lemma_bare(program, "process"@, CommandName::Process);
    lemma_bare(program, "upgrade"@, CommandName::Upgrade);
    lemma_bare(program, "maintenance"@, CommandName::Maintenance);
    lemma_bare(program, "query"@, CommandName::Query);
    lemma_bare(program, "export"@, CommandName::Export);
}

proof fn lemma_bare(program: Seq<char>, word: Seq<char>, c: CommandName)
    requires
        first_word(word),
        command_named(word) == Some(c),
    ensures
        ({
            let r = command_of(c, nothing_found(shape_of(c).longs.len() as int));
            let p = parsed(seq![program, word]);
            match r {
                Ok(x) => p == Ok::<Option<CommandModel>, ArgError>(Some(x)),
                Err(e) => p == Err::<Option<CommandModel>, ArgError>(e),
            }
        }),
{
    let tokens = seq![program, word];
    assert(tokens[1] == word);
    lemma_command_lines(tokens, c);
}

/// The long option of a name.
pub open spec fn dashed(name: Seq<char>) -> Seq<char> {
    seq!['-', '-'] + name
}

proof fn lemma_option_names()
    ensures
        long_option(shape_of(CommandName::Events), "from"@, 0),
        long_option(shape_of(CommandName::Events), "to"@, 1),
        long_option(shape_of(CommandName::Events), "limit"@, 2),
        long_option(shape_of(CommandName::Samples), "from"@, 0),
        long_option(shape_of(CommandName::Samples), "to"@, 1),
        long_option(shape_of(CommandName::Samples), "limit"@, 2),
        long_option(shape_of(CommandName::Analysis), "from"@, 0),
        long_option(shape_of(CommandName::Analysis), "to"@, 1),
        long_option(shape_of(CommandName::Query), "db"@, 0),
        long_option(shape_of(CommandName::Process), "limit"@, 0),
        long_option(shape_of(CommandName::Export), "from"@, 0),
        long_option(shape_of(CommandName::Export), "to"@, 1),
        long_option(shape_of(CommandName::Export), "output"@, 2),
{
    reveal_strlit("from");
    reveal_strlit("to");
    reveal_strlit("limit");
    reveal_strlit("db");
    reveal_strlit("output");
    reveal_strlit("help");
    assert("from"@.len() == 4 && "from"@[0] == 'f');
    assert("to"@.len() == 2);
    assert("limit"@.len() == 5);
    assert("db"@.len() == 2);
    assert("output"@.len() == 6);
    assert("help"@.len() == 4 && "help"@[0] == 'h');
}

/// Three options with their values are found as they are given.
proof fn lemma_three_options(
    c: CommandName,
    tokens: Seq<Seq<char>>,
    x: Seq<char>,
    y: Seq<char>,
    z: Seq<char>,
    a: Seq<char>,
    b: Seq<char>,
    d: Seq<char>,
)
    requires
        shape_of(c).longs.len() == 3,
        long_option(shape_of(c), x, 0) && long_option(shape_of(c), y, 1) && long_option(shape_of(c), z, 2),
        !looks_like_option(a) && !looks_like_option(b) && !looks_like_option(d),
        tokens.len() == 8,
        tokens[2] == dashed(x) && tokens[3] == a && tokens[4] == dashed(y) && tokens[5] == b && tokens[6] == dashed(z)
            && tokens[7] == d,
    ensures
        scanned(shape_of(c), tokens, 2, false, nothing_found(3)) == Ok::<FoundModel, ArgError>(
            FoundModel { values: seq![Some(a), Some(b), Some(d)], switch: false, positional: None },
        ),
{
    let shape = shape_of(c);
    let f0 = nothing_found(3);
    let f1 = with_value(f0, 0, a);
    let f2 = with_value(f1, 1, b);
    let f3 = with_value(f2, 2, d);
    lemma_options_are_read(shape, tokens, 2, f0, x, 0, a);
    lemma_options_are_read(shape, tokens, 4, f1, y, 1, b);
    lemma_options_are_read(shape, tokens, 6, f2, z, 2, d);
    assert(f3.values =~= seq![Some(a), Some(b), Some(d)]);
}

/// Lists of events and samples go from one bound to another, with as many as are asked for; an export goes to
/// the file that is named.
pub proof fn lemma_full_commands(program: Seq<char>, a: Seq<char>, b: Seq<char>, n: nat, file: Seq<char>)
    requires
        !looks_like_option(a) && !looks_like_option(b) && !looks_like_option(file),
        n <= usize::MAX,
    ensures
        parsed(seq![program, "events"@, dashed("from"@), a, dashed("to"@), b, dashed("limit"@), decimal(n)]) == Ok::<
            Option<CommandModel>,
            ArgError,
        >(Some(CommandModel::Events(Some(a), Some(b), n as int))),
        parsed(seq![program, "samples"@, dashed("from"@), a, dashed("to"@), b, dashed("limit"@), decimal(n)]) == Ok::<
            Option<CommandModel>,
            ArgError,
        >(Some(CommandModel::Samples(Some(a), Some(b), n as int))),
        parsed(seq![program, "export"@, dashed("from"@), a, dashed("to"@), b, dashed("output"@), file]) == Ok::<
            Option<CommandModel>,
            ArgError,
        >(Some(CommandModel::Export(a, b, file))),
        parsed(seq![program, "export"@, dashed("from"@), a, dashed("to"@), b]) == Ok::<Option<CommandModel>, ArgError>(
            Some(CommandModel::Export(a, b, "export.csv"@)),
        ),
        parsed(seq![program, "analysis"@, dashed("from"@), a, dashed("to"@), b]) == Ok::<Option<CommandModel>, ArgError>(
            Some(CommandModel::Analysis(Some(a), Some(b))),
        ),
        parsed(seq![program, "process"@, dashed("limit"@), decimal(n)]) == Ok::<Option<CommandModel>, ArgError>(
            Some(CommandModel::Process(n as int)),
        ),
{
    lemma_commands_by_name();
    lemma_option_names();
    lemma_counts_are_read(n);
    lemma_digits_stand_for_numbers(n);
    assert(!looks_like_option(decimal(n))) by {
        assert('0' as u32 <= decimal(n)[0] as u32);
    }
    let t1 = seq![program, "events"@, dashed("from"@), a, dashed("to"@), b, dashed("limit"@), decimal(n)];
    lemma_three_options(CommandName::Events, t1, "from"@, "to"@, "limit"@, a, b, decimal(n));
    lemma_command_lines(t1, CommandName::Events);
    let t2 = seq![program, "samples"@, dashed("from"@), a, dashed("to"@), b, dashed("limit"@), decimal(n)];
    lemma_three_options(CommandName::Samples, t2, "from"@, "to"@, "limit"@, a, b, decimal(n));
    lemma_command_lines(t2, CommandName::Samples);
    let t3 = seq![program, "export"@, dashed("from"@), a, dashed("to"@), b, dashed("output"@), file];
    lemma_three_options(CommandName::Export, t3, "from"@, "to"@, "output"@, a, b, file);
    lemma_command_lines(t3, CommandName::Export);
    let t4 = seq![program, "export"@, dashed("from"@), a, dashed("to"@), b];
    let s4 = shape_of(CommandName::Export);
    lemma_options_are_read(s4, t4, 2, nothing_found(3), "from"@, 0, a);
    lemma_options_are_read(s4, t4, 4, with_value(nothing_found(3), 0, a), "to"@, 1, b);
    lemma_command_lines(t4, CommandName::Export);
    let t5 = seq![program, "analysis"@, dashed("from"@), a, dashed("to"@), b];
    let s5 = shape_of(CommandName::Analysis);
    lemma_options_are_read(s5, t5, 2, nothing_found(2), "from"@, 0, a);
    lemma_options_are_read(s5, t5, 4, with_value(nothing_found(2), 0, a), "to"@, 1, b);
    lemma_command_lines(t5, CommandName::Analysis);
    let t6 = seq![program, "process"@, dashed("limit"@), decimal(n)];
    let s6 = shape_of(CommandName::Process);
    lemma_options_are_read(s6, t6, 2, nothing_found(1), "limit"@, 0, decimal(n));
    lemma_command_lines(t6, CommandName::Process);
}

/// A query takes its statement, and the database that is named; an upgrade may leave out the build, and
/// maintenance the rewriting of the file.
pub proof fn lemma_queries_and_switches(program: Seq<char>, sql: Seq<char>, db: Seq<char>)
    requires
        !looks_like_option(sql) && !looks_like_option(db),
    ensures
        parsed(seq![program, "query"@, sql]) == Ok::<Option<CommandModel>, ArgError>(Some(CommandModel::Query(sql, None))),
        parsed(seq![program, "query"@, sql, dashed("db"@), db]) == Ok::<Option<CommandModel>, ArgError>(
            Some(CommandModel::Query(sql, Some(db))),
        ),
        parsed(seq![program, "upgrade"@, dashed("no-build"@)]) == Ok::<Option<CommandModel>, ArgError>(
            Some(CommandModel::Upgrade(true)),
        ),
        parsed(seq![program, "maintenance"@, dashed("skip-vacuum"@)]) == Ok::<Option<CommandModel>, ArgError>(
            Some(CommandModel::Maintenance(true)),
        ),
{
    lemma_commands_by_name();
    lemma_option_names();
    reveal_strlit("no-build");
    reveal_strlit("skip-vacuum");
    reveal_strlit("help");
    assert("no-build"@.len() == 8 && "skip-vacuum"@.len() == 11 && "help"@.len() == 4);
    let s = shape_of(CommandName::Query);
    let t1 = seq![program, "query"@, sql];
    lemma_other_arguments(s, t1, 2, nothing_found(1), "db"@);
    lemma_command_lines(t1, CommandName::Query);
    let t2 = seq![program, "query"@, sql, dashed("db"@), db];
    let f = FoundModel { positional: Some(sql), ..nothing_found(1) };
    lemma_other_arguments(s, t2, 2, nothing_found(1), "db"@);
    lemma_options_are_read(s, t2, 3, f, "db"@, 0, db);
    lemma_command_lines(t2, CommandName::Query);
    let t3 = seq![program, "upgrade"@, dashed("no-build"@)];
    lemma_other_arguments(shape_of(CommandName::Upgrade), t3, 2, nothing_found(0), "no-build"@);
    lemma_command_lines(t3, CommandName::Upgrade);
    let t4 = seq![program, "maintenance"@, dashed("skip-vacuum"@)];
    lemma_other_arguments(shape_of(CommandName::Maintenance), t4, 2, nothing_found(0), "skip-vacuum"@);
    lemma_command_lines(t4, CommandName::Maintenance);
}

/// Without a command, or with the one to show it, a command line leads to the window; any other is answered.
pub proof fn lemma_where_commands_lead(c: CommandModel)
    ensures
        leads_to(None) == DispatchOutcome::LaunchGui,
        leads_to(Some(CommandModel::Run)) == DispatchOutcome::LaunchGui,
        !(c is Run) ==> leads_to(Some(c)) == DispatchOutcome::Done,
{
}

} // verus!
