//! Command lines: options with values, switches and positional arguments.
//!
//! An option is given as `--name value`, `--name=value`, `-n value`, `-nvalue` or `-n=value`, at most
//! once; `--` ends the options. A value of its own does not look like an option.

use crate::text::{chars_of, opt_text, same_text, string_of};
use vstd::prelude::*;

verus! {

/// Why a command line was not understood, or what it asks for instead of a command.
#[derive(Clone, Copy, Debug, PartialEq, Eq, Structural)]
pub enum ArgError {
    Help,
    Version,
    UnknownCommand,
    UnexpectedArgument,
    MissingValue,
    RepeatedOption,
    InvalidNumber,
    MissingRequired,
}

/// An option that takes a value.
#[derive(Clone, Copy, Debug)]
pub struct OptionShape {
    pub long: &'static str,
    pub short: Option<char>,
}

/// What a command accepts.
#[derive(Debug)]
pub struct Shape {
    pub options: Vec<OptionShape>,
    /// The name of its switch, if it has one.
    pub switch: Option<&'static str>,
    /// Whether it takes a positional argument.
    pub positional: bool,
}

/// What a [`Shape`] holds.
pub struct ShapeModel {
    pub longs: Seq<Seq<char>>,
    pub shorts: Seq<Option<char>>,
    pub switch: Option<Seq<char>>,
    pub positional: bool,
}

impl View for Shape {
    type V = ShapeModel;

    open spec fn view(&self) -> ShapeModel {
        ShapeModel {
            longs: Seq::new(self.options@.len(), |i: int| self.options@[i].long@),
            shorts: Seq::new(self.options@.len(), |i: int| self.options@[i].short),
            switch: match self.switch {
                Some(s) => Some(s@),
                None => None,
            },
            positional: self.positional,
        }
    }
}

/// What was found on a command line.
#[derive(Debug)]
pub struct Found {
    /// The value of each option.
    pub values: Vec<Option<String>>,
    pub switch: bool,
    pub positional: Option<String>,
}

/// What a [`Found`] holds.
pub struct FoundModel {
    pub values: Seq<Option<Seq<char>>>,
    pub switch: bool,
    pub positional: Option<Seq<char>>,
}

impl View for Found {
    type V = FoundModel;

    open spec fn view(&self) -> FoundModel {
        FoundModel {
            values: Seq::new(self.values@.len(), |i: int| opt_text(self.values@[i])),
            switch: self.switch,
            positional: opt_text(self.positional),
        }
    }
}

/// Nothing found yet.
pub open spec fn nothing_found(options: int) -> FoundModel {
    FoundModel { values: Seq::new(options as nat, |i: int| None), switch: false, positional: None }
}

/// Whether a token looks like an option.
pub open spec fn looks_like_option(t: Seq<char>) -> bool {
    t.len() > 1 && t[0] == '-'
}

/// The position of the first `=` from `i` on; the length where there is none.
pub open spec fn equals_from(t: Seq<char>, i: int) -> int
    decreases t.len() - i,
{
    if i >= t.len() {
        t.len() as int
    } else if t[i] == '=' {
        i
    } else {
        equals_from(t, i + 1)
    }
}

/// The index of the option with a long name, from `i` on; the count of options where there is none.
pub open spec fn long_at(shape: ShapeModel, name: Seq<char>, i: int) -> int
    decreases shape.longs.len() - i,
{
    if i >= shape.longs.len() {
        shape.longs.len() as int
    } else if shape.longs[i] == name {
        i
    } else {
        long_at(shape, name, i + 1)
    }
}

/// The index of the option with a short name, from `i` on; the count of options where there is none.
pub open spec fn short_at(shape: ShapeModel, name: char, i: int) -> int
    decreases shape.shorts.len() - i,
{
    if i >= shape.shorts.len() {
        shape.shorts.len() as int
    } else if shape.shorts[i] == Some(name) {
        i
    } else {
        short_at(shape, name, i + 1)
    }
}

/// What a token means where options are still possible.
pub enum TokenModel {
    EndOfOptions,
    Help,
    Switch,
    /// The switch with a value, or an option that is not known.
    Unknown,
    /// An option and the value that the token itself gives it, if any.
    Option(int, Option<Seq<char>>),
    Positional,
}

/// What a token means for a command.
pub open spec fn token_of(shape: ShapeModel, t: Seq<char>) -> TokenModel {
    if !looks_like_option(t) {
        TokenModel::Positional
    } else if t[1] == '-' {
        if t.len() == 2 {
            TokenModel::EndOfOptions
        } else {
            let e = equals_from(t, 2);
            let name = t.subrange(2, e);
            let value = if e < t.len() {
                Some(t.skip(e + 1))
            } else {
                None
            };
            if name == "help"@ && value is None {
                TokenModel::Help
            } else if shape.switch == Some(name) {
                if value is Some {
                    TokenModel::Unknown
                } else {
                    TokenModel::Switch
                }
            } else {
                let slot = long_at(shape, name, 0);
                if slot >= shape.longs.len() {
                    TokenModel::Unknown
                } else {
                    TokenModel::Option(slot, value)
                }
            }
        }
    } else if t[1] == 'h' {
        TokenModel::Help
    } else {
        let slot = short_at(shape, t[1], 0);
        let rest = t.skip(2);
        if slot >= shape.shorts.len() {
            TokenModel::Unknown
        } else if rest.len() == 0 {
            TokenModel::Option(slot, None)
        } else if rest[0] == '=' {
            TokenModel::Option(slot, Some(rest.skip(1)))
        } else {
            TokenModel::Option(slot, Some(rest))
        }
    }
}

/// A positional argument is taken where one is wanted.
pub open spec fn with_positional(shape: ShapeModel, found: FoundModel, t: Seq<char>) -> Result<FoundModel, ArgError> {
    if shape.positional && found.positional is None {
        Ok(FoundModel { positional: Some(t), ..found })
    } else {
        Err(ArgError::UnexpectedArgument)
    }
}

/// What the tokens from `i` on give, beyond what was found before; `ended` says whether the options
/// have ended.
pub open spec fn scanned(shape: ShapeModel, tokens: Seq<Seq<char>>, i: int, ended: bool, found: FoundModel) -> Result<
    FoundModel,
    ArgError,
>
    decreases tokens.len() + 1 - i,
{
    if i < 0 || i >= tokens.len() {
        Ok(found)
    } else {
        let t = tokens[i];
        let meaning = if ended {
            TokenModel::Positional
        } else {
            token_of(shape, t)
        };
        match meaning {
            TokenModel::EndOfOptions => scanned(shape, tokens, i + 1, true, found),
            TokenModel::Help => Err(ArgError::Help),
            TokenModel::Unknown => Err(ArgError::UnexpectedArgument),
            TokenModel::Switch => if found.switch {
                Err(ArgError::RepeatedOption)
            } else {
                scanned(shape, tokens, i + 1, ended, FoundModel { switch: true, ..found })
            },
            TokenModel::Positional => match with_positional(shape, found, t) {
                Ok(f) => scanned(shape, tokens, i + 1, ended, f),
                Err(e) => Err(e),
            },
            TokenModel::Option(slot, value) => if found.values[slot] is Some {
                Err(ArgError::RepeatedOption)
            } else {
                match value {
                    Some(v) => scanned(
                        shape,
                        tokens,
                        i + 1,
                        ended,
                        FoundModel { values: found.values.update(slot, Some(v)), ..found },
                    ),
                    None => if i + 1 < tokens.len() && !looks_like_option(tokens[i + 1]) {
                        scanned(
                            shape,
                            tokens,
                            i + 2,
                            ended,
                            FoundModel { values: found.values.update(slot, Some(tokens[i + 1])), ..found },
                        )
                    } else {
                        Err(ArgError::MissingValue)
                    },
                }
            },
        }
    }
}

/// The contents of tokens.
pub open spec fn tokens_of(v: Seq<&str>) -> Seq<Seq<char>> {
    Seq::new(v.len(), |i: int| v[i]@)
}

/// A token as it is read.
enum Token {
    EndOfOptions,
    Help,
    Switch,
    Unknown,
    Option(usize, Option<String>),
    Positional,
}

impl View for Token {
    type V = TokenModel;

    closed spec fn view(&self) -> TokenModel {
        match self {
            Token::EndOfOptions => TokenModel::EndOfOptions,
            Token::Help => TokenModel::Help,
            Token::Switch => TokenModel::Switch,
            Token::Unknown => TokenModel::Unknown,
            Token::Option(slot, v) => TokenModel::Option(*slot as int, opt_text(*v)),
            Token::Positional => TokenModel::Positional,
        }
    }
}

fn part(v: &Vec<char>, from: usize, to: usize) -> (s: String)
    requires
        from <= to <= v@.len(),
    ensures
        s@ == v@.subrange(from as int, to as int),
{
    let mut out: Vec<char> = Vec::new();
    let mut i: usize = from;
    while i < to
        invariant
            from <= i <= to <= v@.len(),
            out@ == v@.subrange(from as int, i as int),
        decreases to - i,
    {
        out.push(v[i]);
        i += 1;
        proof {
            assert(out@ =~= v@.subrange(from as int, i as int));
        }
    }
    string_of(&out)
}

fn find_long(shape: &Shape, name: &str) -> (i: usize)
    ensures
        i == long_at(shape@, name@, 0),
        i <= shape.options@.len(),
{
    let mut i: usize = 0;
    while i < shape.options.len() && !same_text(shape.options[i].long, name)
        invariant
            i <= shape.options@.len(),
            long_at(shape@, name@, i as int) == long_at(shape@, name@, 0),
        decreases shape.options@.len() - i,
    {
        i += 1;
    }
    i
}

fn find_short(shape: &Shape, name: char) -> (i: usize)
    ensures
        i == short_at(shape@, name, 0),
        i <= shape.options@.len(),
{
    let mut i: usize = 0;
    while i < shape.options.len()
        invariant
            i <= shape.options@.len(),
            short_at(shape@, name, i as int) == short_at(shape@, name, 0),
        decreases shape.options@.len() - i,
    {
        if let Some(c) = shape.options[i].short {
            if c == name {
                return i;
            }
        }
        i += 1;
    }
    i
}

fn is_switch(shape: &Shape, name: &str) -> (r: bool)
    ensures
        r == (shape@.switch == Some(name@)),
{
    match shape.switch {
        Some(s) => same_text(s, name),
        None => false,
    }
}

fn find_equals(v: &Vec<char>, from: usize) -> (i: usize)
    requires
        from <= v@.len(),
    ensures
        from <= i <= v@.len(),
        i == equals_from(v@, from as int),
{
    let mut i: usize = from;
    while i < v.len() && v[i] != '='
        invariant
            from <= i <= v@.len(),
            equals_from(v@, i as int) == equals_from(v@, from as int),
        decreases v@.len() - i,
    {
        i += 1;
    }
    i
}

fn read_token(shape: &Shape, t: &str) -> (r: Token)
    ensures
        r@ == token_of(shape@, t@),
        r is Option ==> r->Option_0 < shape.options@.len(),
{
    let v = chars_of(t);
    if v.len() <= 1 || v[0] != '-' {
        return Token::Positional;
    }
    if v[1] == '-' {
        if v.len() == 2 {
            return Token::EndOfOptions;
        }
        let e = find_equals(&v, 2);
        let name = part(&v, 2, e);
        let value = if e < v.len() {
            let s = part(&v, e + 1, v.len());
            proof {
                assert(v@.subrange(e + 1, v@.len() as int) =~= v@.skip(e + 1));
            }
            Some(s)
        } else {
            None
        };
        if same_text(name.as_str(), "help") && value.is_none() {
            return Token::Help;
        }
        if is_switch(shape, name.as_str()) {
            return if value.is_some() {
                Token::Unknown
            } else {
                Token::Switch
            };
        }
        let slot = find_long(shape, name.as_str());
        if slot >= shape.options.len() {
            return Token::Unknown;
        }
        return Token::Option(slot, value);
    }
    if v[1] == 'h' {
        return Token::Help;
    }
    let slot = find_short(shape, v[1]);
    if slot >= shape.options.len() {
        return Token::Unknown;
    }
    proof {
        assert(v@.subrange(2, v@.len() as int) =~= v@.skip(2));
        assert(v@.len() > 2 ==> v@.subrange(3, v@.len() as int) =~= v@.skip(2).skip(1));
    }
    if v.len() == 2 {
        Token::Option(slot, None)
    } else if v[2] == '=' {
        Token::Option(slot, Some(part(&v, 3, v.len())))
    } else {
        Token::Option(slot, Some(part(&v, 2, v.len())))
    }
}

fn option_like(t: &str) -> (r: bool)
    ensures
        r == looks_like_option(t@),
{
    let v = chars_of(t);
    v.len() > 1 && v[0] == '-'
}

fn set_value(found: &mut Found, slot: usize, value: String)
    requires
        slot < old(found).values@.len(),
    ensures
        final(found)@ == (FoundModel { values: old(found)@.values.update(slot as int, Some(value@)), ..old(found)@ }),
        final(found).values@.len() == old(found).values@.len(),
{
    let ghost before = found@;
    found.values.set(slot, Some(value));
    proof {
        assert(found@.values =~= before.values.update(slot as int, Some(value@)));
    }
}

/// An empty finding for a command.
pub fn find_nothing(shape: &Shape) -> (f: Found)
    ensures
        f@ == nothing_found(shape.options@.len() as int),
        f.values@.len() == shape.options@.len(),
{
    let mut values: Vec<Option<String>> = Vec::new();
    let mut i: usize = 0;
    while i < shape.options.len()
        invariant
            i <= shape.options@.len(),
            values@.len() == i,
            forall|k: int| 0 <= k < i ==> #[trigger] values@[k] is None,
        decreases shape.options@.len() - i,
    {
        values.push(None);
        i += 1;
    }
    let f = Found { values, switch: false, positional: None };
    proof {
        assert(f@.values =~= nothing_found(shape.options@.len() as int).values);
    }
    f
}

/// What the tokens from `from` on give for a command.
pub fn parse_tokens(shape: &Shape, tokens: &[&str], from: usize) -> (r: Result<Found, ArgError>)
    ensures
        match r {
            Ok(f) => scanned(shape@, tokens_of(tokens@), from as int, false, nothing_found(shape.options@.len() as int))
                == Ok::<FoundModel, ArgError>(f@) && f.values@.len() == shape.options@.len(),
            Err(e) => scanned(
                shape@,
                tokens_of(tokens@),
                from as int,
                false,
                nothing_found(shape.options@.len() as int),
            ) == Err::<FoundModel, ArgError>(e),
        },
{
    let len: usize = tokens.len();
    let ghost ts = tokens_of(tokens@);
    let ghost want = scanned(shape@, ts, from as int, false, nothing_found(shape.options@.len() as int));
    let mut found = find_nothing(shape);
    let mut ended = false;
    let mut i: usize = from;
    while i < len
        invariant
            len == tokens@.len(),
            ts == tokens_of(tokens@),
            want == scanned(shape@, ts, from as int, false, nothing_found(shape.options@.len() as int)),
            found.values@.len() == shape.options@.len(),
            scanned(shape@, ts, i as int, ended, found@) == want,
            i <= len || i == from,
        decreases len - i,
    {
        let t = tokens[i];
        proof {
            assert(ts[i as int] == t@);
        }
        let token = if ended {
            Token::Positional
        } else {
            read_token(shape, t)
        };
        match token {
            Token::EndOfOptions => {
                ended = true;
                i += 1;
            },
            Token::Help => {
                return Err(ArgError::Help);
            },
            Token::Unknown => {
                return Err(ArgError::UnexpectedArgument);
            },
            Token::Switch => {
                if found.switch {
                    return Err(ArgError::RepeatedOption);
                }
                found.switch = true;
                i += 1;
            },
            Token::Positional => {
                if !shape.positional || found.positional.is_some() {
                    return Err(ArgError::UnexpectedArgument);
                }
                found.positional = Some(String::from_str(t));
                i += 1;
            },
            Token::Option(slot, value) => {
                proof {
                    assert(found@.values[slot as int] == opt_text(found.values@[slot as int]));
                }
                if found.values[slot].is_some() {
                    return Err(ArgError::RepeatedOption);
                }
                match value {
                    Some(v) => {
                        set_value(&mut found, slot, v);
                        i += 1;
                    },
                    None => {
                        if len - i <= 1 || option_like(tokens[i + 1]) {
                            return Err(ArgError::MissingValue);
                        }
                        proof {
                            assert(ts[i + 1] == tokens@[i + 1]@);
                        }
                        set_value(&mut found, slot, String::from_str(tokens[i + 1]));
                        i += 2;
                    },
                }
            },
        }
    }
    Ok(found)
}

/// The value of a decimal digit.
pub open spec fn digit_of(c: char) -> Option<int> {
    if '0' <= c && c <= '9' {
        Some(c as int - '0' as int)
    } else {
        None
    }
}

/// The number that digits make, if all are digits.
pub open spec fn digits_value(s: Seq<char>) -> Option<int>
    decreases s.len(),
{
    if s.len() == 0 {
        Some(0)
    } else {
        match (digits_value(s.drop_last()), digit_of(s.last())) {
            (Some(v), Some(d)) => Some(v * 10 + d),
            _ => None,
        }
    }
}

/// A count in decimal digits, with or without a plus sign, that fits.
pub open spec fn count_of(s: Seq<char>) -> Option<int> {
    let digits = if s.len() > 0 && s[0] == '+' {
        s.skip(1)
    } else {
        s
    };
    if digits.len() == 0 {
        None
    } else {
        match digits_value(digits) {
            Some(v) => if v <= usize::MAX {
                Some(v)
            } else {
                None
            },
            None => None,
        }
    }
}

proof fn lemma_digits_grow(s: Seq<char>, n: int)
    requires
        0 <= n <= s.len(),
        digits_value(s) is Some,
    ensures
        digits_value(s.take(n)) is Some,
        0 <= digits_value(s.take(n))->0 <= digits_value(s)->0,
    decreases s.len() - n, s.len(),
{
    if n < s.len() {
        assert(s.drop_last().take(n) =~= s.take(n));
        lemma_digits_grow(s.drop_last(), n);
    } else {
        assert(s.take(n) =~= s);
        if s.len() > 0 {
            assert(s.drop_last().take(s.len() - 1) =~= s.drop_last());
            lemma_digits_grow(s.drop_last(), s.len() - 1);
        }
    }
}

fn digit_value(c: char) -> (d: Option<u32>)
    ensures
        match d {
            Some(x) => digit_of(c) == Some(x as int) && x < 10,
            None => digit_of(c) is None,
        },
{
    let n: u32 = c as u32;
    if n >= 48 && n <= 57 {
        Some(n - 48)
    } else {
        None
    }
}

/// A count in decimal digits.
pub fn parse_count(s: &str) -> (r: Option<usize>)
    ensures
        match r {
            Some(n) => count_of(s@) == Some(n as int),
            None => count_of(s@) is None,
        },
{
    let v = chars_of(s);
    let from: usize = if v.len() > 0 && v[0] == '+' {
        1
    } else {
        0
    };
    let ghost digits = v@.skip(from as int);
    proof {
        assert(from == 0 ==> digits =~= v@);
    }
    if v.len() == from {
        return None;
    }
    let mut n: u128 = 0;
    let mut i: usize = from;
    proof {
        assert(digits.take(0) =~= seq![]);
    }
    while i < v.len()
        invariant
            from <= i <= v@.len(),
            from <= 1,
            v@ == s@,
            digits == v@.skip(from as int),
            digits.len() > 0,
            count_of(s@) == (match digits_value(digits) {
                Some(x) => if x <= usize::MAX {
                    Some(x)
                } else {
                    None
                },
                None => None,
            }),
            n <= usize::MAX,
            digits_value(digits.take(i - from)) == Some(n as int),
        decreases v@.len() - i,
    {
        proof {
            let ahead = digits.take(i - from + 1);
            assert(ahead.drop_last() =~= digits.take(i - from));
            assert(ahead.last() == v@[i as int]);
            if digits_value(digits) is Some {
                lemma_digits_grow(digits, i - from + 1);
            }
        }
        match digit_value(v[i]) {
            Some(d) => {
                n = n * 10 + d as u128;
                if n > usize::MAX as u128 {
                    return None;
                }
            },
            None => {
                return None;
            },
        }
        i += 1;
    }
    proof {
        assert(digits.take(v@.len() - from) =~= digits);
    }
    Some(n as usize)
}

} // verus!
