//! Times given on the command line.
//!
//! A time is given as RFC 3339 with its own offset, or without one as date and time, date and
//! minute, or date alone; without an offset it is meant in the local time zone.

use crate::text::{chars_of, same_text, string_of};
use crate::timestamps::{date_moment, naive_moment, parse_date, parse_naive, parse_rfc3339, rfc3339_moment};
use crate::types::Timestamp;
use vstd::prelude::*;

verus! {

/// A time argument that was understood.
#[derive(Clone, Copy, Debug, PartialEq, Eq)]
pub enum TimeArg {
    /// A moment.
    Moment(Timestamp),
    /// A reading of a local clock, written as if the clock showed UTC.
    LocalClock(Timestamp),
}

/// White space.
pub open spec fn is_white(c: char) -> bool {
    let n = c as u32;
    ||| 0x9 <= n <= 0xd
    ||| n == 0x20
    ||| n == 0x85
    ||| n == 0xa0
    ||| n == 0x1680
    ||| 0x2000 <= n <= 0x200a
    ||| n == 0x2028
    ||| n == 0x2029
    ||| n == 0x202f
    ||| n == 0x205f
    ||| n == 0x3000
}

/// A text without white space in front.
pub open spec fn trimmed_front(s: Seq<char>) -> Seq<char>
    decreases s.len(),
{
    if s.len() > 0 && is_white(s[0]) {
        trimmed_front(s.skip(1))
    } else {
        s
    }
}

/// A text without white space behind.
pub open spec fn trimmed_back(s: Seq<char>) -> Seq<char>
    decreases s.len(),
{
    if s.len() > 0 && is_white(s.last()) {
        trimmed_back(s.drop_last())
    } else {
        s
    }
}

/// A text without white space around it.
pub open spec fn trimmed(s: Seq<char>) -> Seq<char> {
    trimmed_back(trimmed_front(s))
}

/// A text with every `T` replaced by a space.
pub open spec fn spaced(s: Seq<char>) -> Seq<char> {
    Seq::new(
        s.len(),
        |i: int|
            if s[i] == 'T' {
                ' '
            } else {
                s[i]
            },
    )
}

/// What a time argument means by the forms in which it could be read, the most exact first.
pub open spec fn first_meaning(
    rfc3339: Option<Timestamp>,
    to_second: Option<Timestamp>,
    to_minute: Option<Timestamp>,
    date: Option<Timestamp>,
) -> Option<TimeArg> {
    match (rfc3339, to_second, to_minute, date) {
        (Some(t), _, _, _) => Some(TimeArg::Moment(t)),
        (None, Some(t), _, _) => Some(TimeArg::LocalClock(t)),
        (None, None, Some(t), _) => Some(TimeArg::LocalClock(t)),
        (None, None, None, Some(t)) => Some(TimeArg::LocalClock(t)),
        (None, None, None, None) => None,
    }
}

/// What a trimmed time argument means.
pub open spec fn time_meant(s: Seq<char>) -> Option<TimeArg> {
    if s.len() == 0 {
        None
    } else {
        first_meaning(
            rfc3339_moment(s),
            naive_moment(spaced(s), "%Y-%m-%d %H:%M:%S"@),
            naive_moment(spaced(s), "%Y-%m-%d %H:%M"@),
            date_moment(s, "%Y-%m-%d"@),
        )
    }
}

/// What a time argument means by the forms in which it could be read.
pub fn choose_meaning(
    rfc3339: Option<Timestamp>,
    to_second: Option<Timestamp>,
    to_minute: Option<Timestamp>,
    date: Option<Timestamp>,
) -> (r: Option<TimeArg>)
    ensures
        r == first_meaning(rfc3339, to_second, to_minute, date),
{
    if let Some(t) = rfc3339 {
        return Some(TimeArg::Moment(t));
    }
    if let Some(t) = to_second {
        return Some(TimeArg::LocalClock(t));
    }
    if let Some(t) = to_minute {
        return Some(TimeArg::LocalClock(t));
    }
    match date {
        Some(t) => Some(TimeArg::LocalClock(t)),
        None => None,
    }
}

fn white(c: char) -> (r: bool)
    ensures
        r == is_white(c),
{
    let n: u32 = c as u32;
    0x9 <= n && n <= 0xd || n == 0x20 || n == 0x85 || n == 0xa0 || n == 0x1680 || 0x2000 <= n && n <= 0x200a || n
        == 0x2028 || n == 0x2029 || n == 0x202f || n == 0x205f || n == 0x3000
}

/// A text without white space around it.
pub fn trim(s: &str) -> (r: String)
    ensures
        r@ == trimmed(s@),
{
    let v = chars_of(s);
    let mut from: usize = 0;
    proof {
        assert(v@.skip(0) =~= v@);
    }
    while from < v.len() && white(v[from])
        invariant
            from <= v@.len(),
            trimmed_front(v@.skip(from as int)) == trimmed_front(v@),
        decreases v@.len() - from,
    {
        proof {
            assert(v@.skip(from as int).skip(1) =~= v@.skip(from + 1));
        }
        from += 1;
    }
    let ghost front = v@.skip(from as int);
    let mut to: usize = v.len();
    proof {
        assert(v@.subrange(from as int, to as int) =~= front);
    }
    while to > from && white(v[to - 1])
        invariant
            from <= to <= v@.len(),
            trimmed_back(v@.subrange(from as int, to as int)) == trimmed_back(front),
        decreases to,
    {
        proof {
            assert(v@.subrange(from as int, to as int).drop_last() =~= v@.subrange(from as int, to - 1));
        }
        to -= 1;
    }
    let mut out: Vec<char> = Vec::new();
    let mut i: usize = from;
    while i < to
        invariant
            from <= i <= to <= v@.len(),
            out@ == v@.subrange(from as int, i as int),
        decreases to - i,
    {
        out.push(v[i]);
        i += 1;
        proof {
            assert(out@ =~= v@.subrange(from as int, i as int));
        }
    }
    string_of(&out)
}

fn space_out(s: &str) -> (r: String)
    ensures
        r@ == spaced(s@),
{
    let v = chars_of(s);
    let mut out: Vec<char> = Vec::new();
    let mut i: usize = 0;
    while i < v.len()
        invariant
            i <= v@.len(),
            out@ == spaced(v@).take(i as int),
        decreases v@.len() - i,
    {
        out.push(
            if v[i] == 'T' {
                ' '
            } else {
                v[i]
            },
        );
        i += 1;
        proof {
            assert(out@ =~= spaced(v@).take(i as int));
        }
    }
    proof {
        assert(out@ =~= spaced(v@));
    }
    string_of(&out)
}

/// What a time argument means; none where it is no time in any of the forms.
pub fn parse_time_arg(s: &str) -> (r: Option<TimeArg>)
    ensures
        r == time_meant(trimmed(s@)),
{
    let t = trim(s);
    if same_text(t.as_str(), "") {
        proof {
            reveal_strlit("");
        }
        return None;
    }
    proof {
        reveal_strlit("");
        assert(t@.len() == 0 ==> t@ =~= ""@);
    }
    let normal = space_out(t.as_str());
    choose_meaning(
        parse_rfc3339(t.as_str()),
        parse_naive(normal.as_str(), "%Y-%m-%d %H:%M:%S"),
        parse_naive(normal.as_str(), "%Y-%m-%d %H:%M"),
        parse_date(t.as_str(), "%Y-%m-%d"),
    )
}

/// The moment of a time argument, given the one moment at which the local clock showed the
/// reading, if there is exactly one.
pub open spec fn settled(arg: Option<TimeArg>, local: Option<Timestamp>) -> Option<Timestamp> {
    match arg {
        Some(TimeArg::Moment(t)) => Some(t),
        Some(TimeArg::LocalClock(_)) => local,
        None => None,
    }
}

/// The moment of a time argument. `local` is the one moment at which the local clock showed the
/// reading of a [`TimeArg::LocalClock`]; none where it showed it never or twice.
pub fn settle(arg: Option<TimeArg>, local: Option<Timestamp>) -> (r: Option<Timestamp>)
    ensures
        r == settled(arg, local),
{
    match arg {
        Some(TimeArg::Moment(t)) => Some(t),
        Some(TimeArg::LocalClock(_)) => local,
        None => None,
    }
}

/// White space around a time argument does not change what it means.
pub proof fn lemma_trimming_settles(s: Seq<char>)
    ensures
        trimmed(trimmed(s)) == trimmed(s),
{
    lemma_front_done(s);
    lemma_back_done(trimmed_front(s));
    let t = trimmed(s);
    assert(trimmed_front(t) == t) by {
        if t.len() > 0 {
            assert(t[0] == trimmed_front(s)[0]);
        }
    }
}

pub(crate) proof fn lemma_front_done(s: Seq<char>)
    ensures
        trimmed_front(s).len() > 0 ==> !is_white(trimmed_front(s)[0]),
    decreases s.len(),
{
    if s.len() > 0 && is_white(s[0]) {
        lemma_front_done(s.skip(1));
    }
}

pub(crate) proof fn lemma_back_done(s: Seq<char>)
    ensures
        trimmed_back(s).len() > 0 ==> !is_white(trimmed_back(s).last()),
        trimmed_back(s).is_prefix_of(s),
    decreases s.len(),
{
    if s.len() > 0 && is_white(s.last()) {
        lemma_back_done(s.drop_last());
        assert(trimmed_back(s) =~= s.subrange(0, trimmed_back(s).len() as int));
    } else {
        assert(s =~= s.subrange(0, s.len() as int));
    }
}

/// A date and time means the same with a `T` or a space between them.
pub proof fn lemma_separators_mean_the_same(a: Seq<char>, b: Seq<char>)
    requires
        spaced(a) == spaced(b),
        rfc3339_moment(a) is None,
        rfc3339_moment(b) is None,
        naive_moment(spaced(a), "%Y-%m-%d %H:%M:%S"@) is Some || naive_moment(spaced(a), "%Y-%m-%d %H:%M"@) is Some,
    ensures
        time_meant(a) == time_meant(b),
{
    assert(spaced(a).len() == a.len());
    assert(spaced(b).len() == b.len());
}

} // verus!
