//! Running a program with raised rights: what is passed to it, and how it went.

use crate::event_log::{is_high, is_low, pair_code, utf16_text};
use crate::text::{chars_of, decimal_signed, decimal_signed_text, texts};
use vstd::prelude::*;

verus! {

/// How a program with raised rights went.
#[derive(Debug, PartialEq, Eq)]
pub enum ElevateOutcome {
    /// It ran and ended with an exit code.
    Exited(i32),
    /// The user refused.
    UacDenied,
    /// The shell could not start it.
    ShellFailed(i32),
    /// It did not end in time.
    Timeout,
    /// Rights cannot be raised on this system.
    Unsupported,
    /// The system reported something else.
    Os(String),
}

/// The line about an outcome.
pub open spec fn outcome_message(o: ElevateOutcome) -> Seq<char> {
    match o {
        ElevateOutcome::Exited(c) => if c == 0 {
            "提权进程成功完成（退出码 0）"@
        } else {
            "提权进程完成但退出码非 0: "@ + decimal_signed(c as int)
        },
        ElevateOutcome::UacDenied => "UAC 弹窗被用户拒绝（点「否」或 ESC）"@,
        ElevateOutcome::ShellFailed(c) => "ShellExecuteExW 失败 (code="@ + decimal_signed(c as int) + ")"@,
        ElevateOutcome::Timeout => "提权进程超时未退出"@,
        ElevateOutcome::Unsupported => "当前 OS 不支持 UAC 提权（非 Windows）"@,
        ElevateOutcome::Os(e) => "OS 字符串转换失败: "@ + e@,
    }
}

impl ElevateOutcome {
    /// One line about the outcome.
    pub fn message(&self) -> (s: String)
        ensures
            s@ == outcome_message(*self),
    {
        match self {
            ElevateOutcome::Exited(c) => if *c == 0 {
                String::from_str("提权进程成功完成（退出码 0）")
            } else {
                String::from_str("提权进程完成但退出码非 0: ").concat(decimal_signed_text(*c as i64).as_str())
            },
            ElevateOutcome::UacDenied => String::from_str("UAC 弹窗被用户拒绝（点「否」或 ESC）"),
            ElevateOutcome::ShellFailed(c) => {
                let mut s = String::from_str("ShellExecuteExW 失败 (code=");
                s.append(decimal_signed_text(*c as i64).as_str());
                s.append(")");
                s
            },
            ElevateOutcome::Timeout => String::from_str("提权进程超时未退出"),
            ElevateOutcome::Unsupported => String::from_str("当前 OS 不支持 UAC 提权（非 Windows）"),
            ElevateOutcome::Os(e) => String::from_str("OS 字符串转换失败: ").concat(e.as_str()),
        }
    }

    /// Whether the program ran and ended well.
    pub fn is_ok(&self) -> (r: bool)
        ensures
            r == (*self == ElevateOutcome::Exited(0)),
    {
        match self {
            ElevateOutcome::Exited(c) => *c == 0,
            _ => false,
        }
    }
}

/// The UTF-16 units of a character.
pub open spec fn char_units(c: char) -> Seq<u16> {
    let n = c as u32;
    if n < 0x1_0000 {
        seq![n as u16]
    } else {
        seq![(0xd800 + (n - 0x1_0000) / 0x400) as u16, (0xdc00 + (n - 0x1_0000) % 0x400) as u16]
    }
}

/// The UTF-16 units of a text.
pub open spec fn text_units(s: Seq<char>) -> Seq<u16>
    decreases s.len(),
{
    if s.len() == 0 {
        seq![]
    } else {
        text_units(s.drop_last()) + char_units(s.last())
    }
}

/// The UTF-16 units of a text, with a zero behind them.
pub fn wide_string(s: &str) -> (r: Vec<u16>)
    ensures
        r@ == text_units(s@).push(0),
{
    let v = chars_of(s);
    let mut r: Vec<u16> = Vec::new();
    let mut i: usize = 0;
    proof {
        assert(r@ =~= text_units(v@.take(0)));
    }
    while i < v.len()
        invariant
            i <= v@.len(),
            r@ == text_units(v@.take(i as int)),
        decreases v@.len() - i,
    {
        let n: u32 = v[i] as u32;
        let ghost before = r@;
        if n < 0x1_0000 {
            r.push(n as u16);
        } else {
            let rest: u32 = n - 0x1_0000;
            r.push((0xd800 + rest / 0x400) as u16);
            r.push((0xdc00 + rest % 0x400) as u16);
        }
        i += 1;
        proof {
            let ahead = v@.take(i as int);
            assert(ahead.drop_last() =~= v@.take(i - 1));
            assert(ahead.last() == v@[i - 1]);
            assert(r@ =~= before + char_units(v@[i - 1]));
        }
    }
    proof {
        assert(v@.take(v@.len() as int) =~= v@);
    }
    r.push(0);
    r
}

proof fn lemma_units_front(s: Seq<char>)
    requires
        s.len() > 0,
    ensures
        text_units(s) == char_units(s[0]) + text_units(s.skip(1)),
    decreases s.len(),
{
    if s.len() == 1 {
        assert(s.drop_last() =~= seq![]);
        assert(s.skip(1) =~= seq![]);
        assert(text_units(s) =~= char_units(s[0]) + text_units(s.skip(1)));
    } else {
        lemma_units_front(s.drop_last());
        assert(s.drop_last().skip(1) =~= s.skip(1).drop_last());
        assert(s.drop_last()[0] == s[0]);
        assert(s.skip(1).last() == s.last());
        assert(text_units(s) =~= char_units(s[0]) + (text_units(s.skip(1).drop_last()) + char_units(s.last())));
    }
}

/// The units of a character stand for it alone.
proof fn lemma_char_units(c: char)
    ensures
        ({
            let n = c as u32;
            &&& n < 0x1_0000 ==> !is_high(n as u16) && !is_low(n as u16) && (n as u16) as char == c
            &&& n >= 0x1_0000 ==> {
                let high = (0xd800 + (n - 0x1_0000) / 0x400) as u16;
                let low = (0xdc00 + (n - 0x1_0000) % 0x400) as u16;
                is_high(high) && is_low(low) && pair_code(high, low) == n && pair_code(high, low) as char == c
            }
        }),
{
}

/// A text survives being written in UTF-16 and read back.
pub proof fn lemma_wide_text_survives(s: Seq<char>)
    ensures
        utf16_text(text_units(s)) == s,
    decreases s.len(),
{
    if s.len() == 0 {
        assert(utf16_text(text_units(s)) =~= s);
    } else {
        let c = s[0];
        let n = c as u32;
        let rest = text_units(s.skip(1));
        lemma_units_front(s);
        lemma_wide_text_survives(s.skip(1));
        let units = text_units(s);
        lemma_char_units(c);
        if n < 0x1_0000 {
            assert(units[0] == n as u16);
            assert(!is_high(units[0]) && !is_low(units[0]));
            assert(units.skip(1) =~= rest);
            assert(units[0] as char == c);
        } else {
            let high = (0xd800 + (n - 0x1_0000) / 0x400) as u16;
            let low = (0xdc00 + (n - 0x1_0000) % 0x400) as u16;
            assert(units[0] == high && units[1] == low);
            assert(is_high(high) && is_low(low));
            assert(pair_code(high, low) == n);
            assert(units.skip(2) =~= rest);
        }
        assert(utf16_text(units) =~= seq![c] + s.skip(1));
        assert(seq![c] + s.skip(1) =~= s);
    }
}

/// An argument as it stands on a command line: in quotes where it holds a space or a tab.
pub open spec fn quoted(arg: Seq<char>) -> Seq<char> {
    if arg.contains(' ') || arg.contains('\t') {
        "\""@ + arg + "\""@
    } else {
        arg
    }
}

/// Arguments as a command line: each as it stands there, with spaces between them.
pub open spec fn command_line(args: Seq<Seq<char>>) -> Seq<char>
    decreases args.len(),
{
    if args.len() == 0 {
        seq![]
    } else if args.len() == 1 {
        quoted(args[0])
    } else {
        command_line(args.drop_last()) + " "@ + quoted(args.last())
    }
}

fn has_blank(arg: &str) -> (r: bool)
    ensures
        r == (arg@.contains(' ') || arg@.contains('\t')),
{
    let v = chars_of(arg);
    let mut i: usize = 0;
    while i < v.len()
        invariant
            i <= v@.len(),
            v@ == arg@,
            forall|j: int| 0 <= j < i ==> v@[j] != ' ' && v@[j] != '\t',
        decreases v@.len() - i,
    {
        if v[i] == ' ' || v[i] == '\t' {
            proof {
                assert(v@[i as int] == v@[i as int]);
                assert(v@.contains(v@[i as int]));
            }
            return true;
        }
        i += 1;
    }
    false
}

/// Arguments as a command line.
pub fn join_args(args: &Vec<String>) -> (s: String)
    ensures
        s@ == command_line(texts(args@)),
{
    let mut s = String::new();
    let mut i: usize = 0;
    proof {
        assert(s@ =~= command_line(texts(args@).take(0)));
    }
    while i < args.len()
        invariant
            i <= args@.len(),
            s@ == command_line(texts(args@).take(i as int)),
        decreases args@.len() - i,
    {
        proof {
            let ahead = texts(args@).take(i + 1);
            assert(ahead.drop_last() =~= texts(args@).take(i as int));
            assert(ahead.last() == args@[i as int]@);
        }
        let ghost before = s@;
        if i > 0 {
            s.append(" ");
        }
        if has_blank(args[i].as_str()) {
            let mut q = String::from_str("\"");
            q.append(args[i].as_str());
            q.append("\"");
            s.append(q.as_str());
        } else {
            s.append(args[i].as_str());
        }
        proof {
            if i == 0 {
                assert(s@ =~= quoted(args@[0]@));
            }
        }
        i += 1;
    }
    proof {
        assert(texts(args@).take(args@.len() as int) =~= texts(args@));
    }
    s
}

/// The upper-case digit of a number below sixteen.
pub open spec fn hex_char(d: int) -> char {
    seq!['0', '1', '2', '3', '4', '5', '6', '7', '8', '9', 'A', 'B', 'C', 'D', 'E', 'F'][d]
}

/// The last `n` upper-case hexadecimal digits of a number.
pub open spec fn hex_digits(v: int, n: int) -> Seq<char>
    decreases n,
{
    if n <= 0 {
        seq![]
    } else {
        hex_digits(v / 16, n - 1).push(hex_char(v % 16))
    }
}

fn hex_digit(d: u32) -> (c: char)
    requires
        d < 16,
    ensures
        c == hex_char(d as int),
{
    match d {
        0 => '0',
        1 => '1',
        2 => '2',
        3 => '3',
        4 => '4',
        5 => '5',
        6 => '6',
        7 => '7',
        8 => '8',
        9 => '9',
        10 => 'A',
        11 => 'B',
        12 => 'C',
        13 => 'D',
        14 => 'E',
        _ => 'F',
    }
}

fn hex_text(v: u32, n: u32) -> (s: String)
    ensures
        s@ == hex_digits(v as int, n as int),
    decreases n,
{
    if n == 0 {
        let s = String::new();
        proof {
            assert(s@ =~= seq![]);
        }
        s
    } else {
        let mut s = hex_text(v / 16, n - 1);
        s.push(hex_digit(v % 16));
        s
    }
}

/// What follows where rights cannot be raised at all, or the program is not there.
pub open spec fn refusal(windows: bool, exists: bool) -> Option<ElevateOutcome> {
    if !windows {
        Some(ElevateOutcome::Unsupported)
    } else if !exists {
        Some(ElevateOutcome::ShellFailed(0))
    } else {
        None
    }
}

/// What follows where rights cannot be raised at all, or the program is not there.
pub fn refused_early(windows: bool, exists: bool) -> (r: Option<ElevateOutcome>)
    ensures
        r == (if !windows {
            Some(ElevateOutcome::Unsupported)
        } else if !exists {
            Some(ElevateOutcome::ShellFailed(0))
        } else {
            None
        }),
        r == refusal(windows, exists),
{
    if !windows {
        Some(ElevateOutcome::Unsupported)
    } else if !exists {
        Some(ElevateOutcome::ShellFailed(0))
    } else {
        None
    }
}

/// The user refused: as an error code, or wrapped in a result code.
pub open spec fn was_denied(code: u32) -> bool {
    code == 1223 || code == 0x8007_04c7
}

/// The outcome of a failed start: a refusal, as an error code or wrapped in a result code, or an
/// error of the system.
pub fn start_failed(code: u32) -> (r: ElevateOutcome)
    ensures
        was_denied(code) <==> r is UacDenied,
        code == 1223 || code == 0x8007_04c7 ==> r == ElevateOutcome::UacDenied,
        code != 1223 && code != 0x8007_04c7 ==> r is Os && r->Os_0@ == "ShellExecuteExW HRESULT 0x"@ + hex_digits(
            code as int,
            8,
        ),
{
    if code == 1223 || code == 0x8007_04c7 {
        ElevateOutcome::UacDenied
    } else {
        let mut s = String::from_str("ShellExecuteExW HRESULT 0x");
        s.append(hex_text(code, 8).as_str());
        ElevateOutcome::Os(s)
    }
}

/// What waiting for a program gave.
#[derive(Clone, Copy, Debug, PartialEq, Eq, Structural)]
pub enum WaitResult {
    /// It ended; its exit code, if it could be read.
    Ended(Option<u32>),
    TimedOut,
    /// Something else.
    Abnormal(u32),
}

/// An exit code as a signed number.
pub open spec fn signed_code(code: u32) -> i32 {
    if code <= i32::MAX {
        code as i32
    } else {
        (code - 0x1_0000_0000) as i32
    }
}

/// The outcome of waiting for a program.
pub fn waited(w: WaitResult) -> (r: ElevateOutcome)
    ensures
        match w {
            WaitResult::Ended(Some(c)) => r == ElevateOutcome::Exited(signed_code(c)),
            WaitResult::Ended(None) => r is Os && r->Os_0@ == "GetExitCodeProcess failed"@,
            WaitResult::TimedOut => r == ElevateOutcome::Timeout,
            WaitResult::Abnormal(n) => r is Os && r->Os_0@ == "WaitForSingleObject 异常: WAIT_EVENT("@
                + decimal_signed(n as int) + ")"@,
        },
{
    match w {
        WaitResult::Ended(code) => match code {
            Some(c) => {
                let signed: i32 = if c <= 0x7fff_ffff {
                    c as i32
                } else {
                    (c as i64 - 0x1_0000_0000) as i32
                };
                ElevateOutcome::Exited(signed)
            },
            None => ElevateOutcome::Os(String::from_str("GetExitCodeProcess failed")),
        },
        WaitResult::TimedOut => ElevateOutcome::Timeout,
        WaitResult::Abnormal(n) => {
            let mut s = String::from_str("WaitForSingleObject 异常: WAIT_EVENT(");
            s.append(decimal_signed_text(n as i64).as_str());
            s.append(")");
            ElevateOutcome::Os(s)
        },
    }
}

} // verus!
