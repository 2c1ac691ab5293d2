//! Records of the Windows event log, read from their bytes.

use crate::software_root_cause::WindowsEventRecord;
use crate::text::{decimal_signed, decimal_signed_text, opt_text};
use crate::timestamps::{rfc3339_text, to_rfc3339};
use crate::types::Timestamp;
use vstd::prelude::*;

verus! {

/// `char::from_u32` gives the character with a code point, if there is one.
pub assume_specification[ char::from_u32 ](i: u32) -> (c: Option<char>)
    ensures
        match c {
            Some(x) => is_scalar(i) && x == i as char,
            None => !is_scalar(i),
        },
;

/// A code point that is a character.
pub open spec fn is_scalar(n: u32) -> bool {
    n < 0xd800 || 0xe000 <= n <= 0x10ffff
}

/// The size of the header of a record.
pub const HEADER_SIZE: usize = 56;

/// The size of the first read of a channel.
pub const EVENT_READ_BUF: usize = 65_536;

/// The largest size of a read.
pub const EVENT_READ_MAX: usize = 4_194_304;

/// How many records of a channel are read at most, and in how many reads.
pub const MAX_RECORDS: u32 = 5000;

/// How many characters of a message are kept.
pub const MESSAGE_MAX: usize = 512;

/// The first half of a surrogate pair.
pub open spec fn is_high(u: u16) -> bool {
    0xd800 <= u <= 0xdbff
}

/// The second half of a surrogate pair.
pub open spec fn is_low(u: u16) -> bool {
    0xdc00 <= u <= 0xdfff
}

/// The code point of a surrogate pair.
pub open spec fn pair_code(high: u16, low: u16) -> int {
    0x1_0000 + (high - 0xd800) * 0x400 + (low - 0xdc00)
}

/// The text of UTF-16 units, with a replacement character for every half of a pair that stands alone.
pub open spec fn utf16_text(units: Seq<u16>) -> Seq<char>
    decreases units.len(),
{
    if units.len() == 0 {
        seq![]
    } else if is_high(units[0]) && units.len() > 1 && is_low(units[1]) {
        seq![pair_code(units[0], units[1]) as char] + utf16_text(units.skip(2))
    } else if is_high(units[0]) || is_low(units[0]) {
        seq!['\u{fffd}'] + utf16_text(units.skip(1))
    } else {
        seq![units[0] as char] + utf16_text(units.skip(1))
    }
}

/// The text of UTF-16 units.
pub fn decode_units(units: &Vec<u16>) -> (s: String)
    ensures
        s@ == utf16_text(units@),
{
    let mut s = String::new();
    let mut i: usize = 0;
    proof {
        assert(units@.skip(0) =~= units@);
        assert(s@ + utf16_text(units@) =~= utf16_text(units@));
    }
    while i < units.len()
        invariant
            i <= units@.len(),
            s@ + utf16_text(units@.skip(i as int)) == utf16_text(units@),
        decreases units@.len() - i,
    {
        let ghost rest = units@.skip(i as int);
        let ghost before = s@;
        let u = units[i];
        let high = 0xd800 <= u && u <= 0xdbff;
        let low = 0xdc00 <= u && u <= 0xdfff;
        if high && i + 1 < units.len() && 0xdc00 <= units[i + 1] && units[i + 1] <= 0xdfff {
            let code: u32 = 0x1_0000 + (u as u32 - 0xd800) * 0x400 + (units[i + 1] as u32 - 0xdc00);
            let c = match char::from_u32(code) {
                Some(c) => c,
                None => '\u{fffd}',
            };
            s.push(c);
            proof {
                assert(c == pair_code(rest[0], rest[1]) as char);
                assert(rest.skip(2) =~= units@.skip(i + 2));
                assert(before + (seq![c] + utf16_text(rest.skip(2))) =~= s@ + utf16_text(units@.skip(i + 2)));
            }
            i += 2;
        } else {
            let c = if high || low {
                '\u{fffd}'
            } else {
                match char::from_u32(u as u32) {
                    Some(c) => c,
                    None => '\u{fffd}',
                }
            };
            s.push(c);
            proof {
                assert(!(high || low) ==> c == rest[0] as char);
                assert(rest.skip(1) =~= units@.skip(i + 1));
                assert(before + (seq![c] + utf16_text(rest.skip(1))) =~= s@ + utf16_text(units@.skip(i + 1)));
            }
            i += 1;
        }
    }
    proof {
        assert(units@.skip(units@.len() as int) =~= seq![]);
        assert(s@ + utf16_text(seq![]) =~= s@);
    }
    s
}

/// The units in front of the first zero, from `i` on.
pub open spec fn zero_unit(units: Seq<u16>, i: int) -> int
    decreases units.len() - i,
{
    if i >= units.len() || units[i] == 0 {
        i
    } else {
        zero_unit(units, i + 1)
    }
}

/// The text of UTF-16 units up to the first zero.
pub fn decode_utf16(arr: &[u16]) -> (s: String)
    ensures
        s@ == utf16_text(arr@.take(zero_unit(arr@, 0))),
{
    let mut units: Vec<u16> = Vec::new();
    let mut i: usize = 0;
    while i < arr.len() && arr[i] != 0
        invariant
            i <= arr@.len(),
            units@ == arr@.take(i as int),
            zero_unit(arr@, i as int) == zero_unit(arr@, 0),
        decreases arr@.len() - i,
    {
        units.push(arr[i]);
        i += 1;
        proof {
            assert(units@ =~= arr@.take(i as int));
        }
    }
    decode_units(&units)
}

/// The number of two bytes.
pub open spec fn word_at(b: Seq<u8>, at: int) -> int {
    b[at] + 256 * b[at + 1]
}

/// The number of four bytes.
pub open spec fn long_at(b: Seq<u8>, at: int) -> int {
    word_at(b, at) + 0x1_0000 * word_at(b, at + 2)
}

fn read_u16(b: &[u8], at: usize) -> (v: u16)
    requires
        at + 2 <= b@.len(),
    ensures
        v == word_at(b@, at as int),
{
    let len: usize = b.len();
    b[at] as u16 + 256 * b[at + 1] as u16
}

fn read_u32(b: &[u8], at: usize) -> (v: u32)
    requires
        at + 4 <= b@.len(),
    ensures
        v == long_at(b@, at as int),
{
    let len: usize = b.len();
    read_u16(b, at) as u32 + 0x1_0000 * read_u16(b, at + 2) as u32
}

/// Where the zero unit that ends the text at `end` stands, if one does.
pub open spec fn text_end(b: Seq<u8>, end: int) -> Option<int>
    decreases b.len() - end,
{
    if end + 1 >= b.len() {
        None
    } else if word_at(b, end) == 0 {
        Some(end)
    } else {
        text_end(b, end + 2)
    }
}

/// The units of the bytes from `start` to `end`.
pub open spec fn units_between(b: Seq<u8>, start: int, end: int) -> Seq<u16> {
    Seq::new(((end - start) / 2) as nat, |i: int| word_at(b, start + 2 * i) as u16)
}

/// Reads the units at `start` up to a zero unit or the last whole unit; the position behind the zero
/// unit, if there is one.
fn read_units(buf: &[u8], start: usize) -> (r: (Vec<u16>, Option<usize>))
    ensures
        match r.1 {
            Some(next) => text_end(buf@, start as int) == Some(next - 2) && start + 2 <= next <= buf@.len()
                && r.0@ == units_between(buf@, start as int, next - 2),
            None => text_end(buf@, start as int) is None && (start < buf@.len() ==> r.0@ == units_between(
                buf@,
                start as int,
                buf@.len() as int,
            )) && (start >= buf@.len() ==> r.0@ == Seq::<u16>::empty()),
        },
{
    let len: usize = buf.len();
    let mut units: Vec<u16> = Vec::new();
    let mut end: usize = start;
    proof {
        assert(units@ =~= units_between(buf@, start as int, end as int));
    }
    while end < len && len - end > 1
        invariant
            len == buf@.len(),
            start <= end,
            (end - start) % 2 == 0,
            start < len ==> end <= len,
            start >= len ==> end == start,
            units@ == units_between(buf@, start as int, end as int),
            text_end(buf@, end as int) == text_end(buf@, start as int),
        decreases len - end,
    {
        let u = read_u16(buf, end);
        if u == 0 {
            return (units, Some(end + 2));
        }
        units.push(u);
        end += 2;
        proof {
            assert(units@ =~= units_between(buf@, start as int, end as int));
        }
    }
    proof {
        if start < len {
            assert(units@ =~= units_between(buf@, start as int, len as int));
        } else {
            assert(units@ =~= Seq::<u16>::empty());
        }
    }
    (units, None)
}

/// The zero-terminated UTF-16 text at `start`, and the position behind it; none where it does not end
/// within the bytes.
pub fn read_utf16_z_at(buf: &[u8], start: usize) -> (r: Option<(String, usize)>)
    ensures
        match r {
            Some((s, next)) => text_end(buf@, start as int) == Some(next - 2) && s@ == utf16_text(
                units_between(buf@, start as int, next - 2),
            ) && start + 2 <= next <= buf@.len(),
            None => text_end(buf@, start as int) is None,
        },
{
    let (units, behind) = read_units(buf, start);
    match behind {
        Some(next) => Some((decode_units(&units), next)),
        None => None,
    }
}

/// The UTF-16 text at `start`: up to a zero unit, or without one to the end of the bytes.
pub open spec fn text_at(b: Seq<u8>, start: int) -> Seq<char> {
    if start >= b.len() {
        seq![]
    } else {
        match text_end(b, start) {
            Some(end) => utf16_text(units_between(b, start, end)),
            None => utf16_text(units_between(b, start, b.len() as int)),
        }
    }
}

/// The UTF-16 text at `start`: up to a zero unit, or without one to the end of the bytes.
pub fn read_utf16_z(buf: &[u8], start: usize) -> (s: String)
    ensures
        s@ == text_at(buf@, start as int),
{
    let (units, _) = read_units(buf, start);
    decode_units(&units)
}

/// The shown moment of Unix seconds: RFC 3339, or the number where the calendar does not reach it.
pub open spec fn seconds_shown(secs: i64, text: Option<Seq<char>>) -> Seq<char> {
    match text {
        Some(s) => s,
        None => decimal_signed(secs as int),
    }
}

/// The shown moment of Unix seconds, given its RFC 3339 text, if it has one.
pub fn show_seconds(unix_secs: i64, text: Option<String>) -> (s: String)
    ensures
        s@ == seconds_shown(unix_secs, opt_text(text)),
{
    match text {
        Some(s) => s,
        None => decimal_signed_text(unix_secs),
    }
}

/// The shown moment of Unix seconds.
pub fn format_ts(unix_secs: i64) -> (s: String)
    ensures
        s@ == seconds_shown(unix_secs, rfc3339_text(Timestamp { secs: unix_secs, nanos: 0 })),
{
    show_seconds(unix_secs, to_rfc3339(Timestamp { secs: unix_secs, nanos: 0 }))
}

/// A message with one more text, separated by a space; empty texts are left out.
pub open spec fn lengthened(message: Seq<char>, text: Seq<char>) -> Seq<char> {
    if text.len() == 0 {
        message
    } else if message.len() == 0 {
        text
    } else {
        message + " "@ + text
    }
}

/// The message of up to `n` texts from position `p` on, behind what is there already.
pub open spec fn message_from(b: Seq<u8>, p: int, n: int, message: Seq<char>) -> Seq<char>
    decreases n,
{
    if n <= 0 || p >= b.len() {
        message
    } else {
        match text_end(b, p) {
            Some(end) => message_from(
                b,
                end + 2,
                n - 1,
                lengthened(message, utf16_text(units_between(b, p, end))),
            ),
            None => message,
        }
    }
}

/// The message of a record: its texts, where its header points behind itself and into the record.
pub open spec fn message_of(b: Seq<u8>) -> Seq<char> {
    let at = long_at(b, 36);
    if HEADER_SIZE <= at < b.len() {
        message_from(b, at, word_at(b, 26), seq![])
    } else {
        seq![]
    }
}

/// The word for the type of an event.
pub open spec fn level_word(event_type: int) -> Seq<char> {
    if event_type == 1 {
        "Error"@
    } else if event_type == 2 {
        "Warning"@
    } else if event_type == 4 {
        "Information"@
    } else {
        "Other"@
    }
}

/// At most the first characters of a message.
pub open spec fn shortened(message: Seq<char>) -> Seq<char> {
    if message.len() > MESSAGE_MAX {
        message.take(MESSAGE_MAX as int)
    } else {
        message
    }
}

/// What a [`WindowsEventRecord`] holds.
pub struct RecordModel {
    pub channel: Seq<char>,
    pub provider: Seq<char>,
    pub win_event_id: u32,
    pub level: Seq<char>,
    pub message: Seq<char>,
    pub ts: Seq<char>,
}

impl View for WindowsEventRecord {
    type V = RecordModel;

    open spec fn view(&self) -> RecordModel {
        RecordModel {
            channel: self.channel@,
            provider: self.provider@,
            win_event_id: self.win_event_id,
            level: self.level@,
            message: self.message@,
            ts: self.ts@,
        }
    }
}

/// What the bytes of a record hold; nothing where they are no record or name no source.
pub open spec fn record_of(b: Seq<u8>, channel: Seq<char>) -> Option<RecordModel> {
    if b.len() < HEADER_SIZE || text_at(b, HEADER_SIZE as int).len() == 0 {
        None
    } else {
        Some(
            RecordModel {
                channel,
                provider: text_at(b, HEADER_SIZE as int),
                win_event_id: word_at(b, 20) as u32,
                level: level_word(word_at(b, 24)),
                message: shortened(message_of(b)),
                ts: seconds_shown(
                    long_at(b, 12) as i64,
                    rfc3339_text(Timestamp { secs: long_at(b, 12) as i64, nanos: 0 }),
                ),
            },
        )
    }
}

fn read_message(buf: &[u8], at: usize, n: u16) -> (s: String)
    ensures
        s@ == message_from(buf@, at as int, n as int, seq![]),
{
    let len: usize = buf.len();
    let mut message = String::new();
    let mut p: usize = at;
    let mut left: u16 = n;
    proof {
        assert(message@ =~= seq![]);
    }
    while left > 0 && p < len
        invariant
            len == buf@.len(),
            message_from(buf@, p as int, left as int, message@) == message_from(buf@, at as int, n as int, seq![]),
        decreases left,
    {
        match read_utf16_z_at(buf, p) {
            Some((s, next)) => {
                let ghost before = message@;
                if !is_empty(&s) {
                    if !is_empty(&message) {
                        message.append(" ");
                        message.append(s.as_str());
                    } else {
                        message = s;
                    }
                }
                p = next;
                left -= 1;
            },
            None => {
                return message;
            },
        }
    }
    message
}

fn is_empty(s: &String) -> (r: bool)
    ensures
        r == (s@.len() == 0),
{
    s.as_str().unicode_len() == 0
}

fn shorten(s: String) -> (r: String)
    ensures
        r@ == shortened(s@),
{
    if s.as_str().unicode_len() > MESSAGE_MAX {
        let head = String::from_str(s.as_str().substring_char(0, MESSAGE_MAX));
        proof {
            assert(s@.subrange(0, MESSAGE_MAX as int) =~= s@.take(MESSAGE_MAX as int));
        }
        head
    } else {
        s
    }
}

/// The record that bytes hold; none where they are no record or name no source.
pub fn parse_record(buf: &[u8], channel: &str) -> (r: Option<WindowsEventRecord>)
    ensures
        match r {
            Some(x) => record_of(buf@, channel@) == Some(x@),
            None => record_of(buf@, channel@) is None,
        },
{
    let len: usize = buf.len();
    if len < HEADER_SIZE {
        return None;
    }
    let provider = read_utf16_z(buf, HEADER_SIZE);
    if is_empty(&provider) {
        return None;
    }
    let event_type = read_u16(buf, 24);
    let level = if event_type == 1 {
        "Error"
    } else if event_type == 2 {
        "Warning"
    } else if event_type == 4 {
        "Information"
    } else {
        "Other"
    };
    let at: usize = read_u32(buf, 36) as usize;
    let message = if at >= HEADER_SIZE && at < len {
        read_message(buf, at, read_u16(buf, 26))
    } else {
        let none = String::new();
        proof {
            assert(none@ =~= seq![]);
        }
        none
    };
    Some(
        WindowsEventRecord {
            channel: String::from_str(channel),
            provider,
            win_event_id: read_u16(buf, 20) as u32,
            level: String::from_str(level),
            message: shorten(message),
            ts: format_ts(read_u32(buf, 12) as i64),
        },
    )
}

/// What records hold.
pub open spec fn record_models(v: Seq<WindowsEventRecord>) -> Seq<RecordModel> {
    Seq::new(v.len(), |i: int| v[i]@)
}

/// The window of time that is looked at, in Unix seconds.
#[derive(Clone, Copy, Debug, PartialEq, Eq)]
pub struct Window {
    pub since: i64,
    pub until: i64,
}

/// What a search through a batch comes to.
pub struct ScanModel {
    pub records: Seq<RecordModel>,
    /// How many more records may be read.
    pub left: int,
    /// Whether the search of the channel is over.
    pub over: bool,
}

/// The records of a batch from position `off` on, behind those already found. Batches run from the
/// newest record back, so one that is older than the window ends the search. So does the end of what
/// may be read.
pub open spec fn scanned(b: Seq<u8>, off: int, channel: Seq<char>, w: Window, left: int, found: Seq<RecordModel>) -> ScanModel
    decreases b.len() - off,
{
    if left <= 0 {
        ScanModel { records: found, left, over: true }
    } else if off < 0 || off + HEADER_SIZE > b.len() {
        ScanModel { records: found, left, over: false }
    } else {
        let length = long_at(b, off);
        if length <= 0 || off + length > b.len() {
            ScanModel { records: found, left, over: false }
        } else {
            let ts = long_at(b, off + 12);
            if ts < w.since {
                ScanModel { records: found, left: left - 1, over: true }
            } else {
                let more = if ts <= w.until {
                    match record_of(b.subrange(off, off + length), channel) {
                        Some(r) => found.push(r),
                        None => found,
                    }
                } else {
                    found
                };
                scanned(b, off + length, channel, w, left - 1, more)
            }
        }
    }
}

/// A record is of a channel, and its moment lies in a window.
pub open spec fn lies_in(r: RecordModel, channel: Seq<char>, w: Window) -> bool {
    r.channel == channel && exists|secs: i64|
        w.since <= secs <= w.until && r.ts == #[trigger] seconds_shown(
            secs,
            rfc3339_text(Timestamp { secs, nanos: 0 }),
        )
}

/// Whatever bytes are read, only records of the channel and of the window are kept.
pub proof fn lemma_records_lie_in_window(
    b: Seq<u8>,
    off: int,
    channel: Seq<char>,
    w: Window,
    left: int,
    found: Seq<RecordModel>,
)
    requires
        forall|i: int| 0 <= i < found.len() ==> lies_in(#[trigger] found[i], channel, w),
    ensures
        forall|i: int|
            0 <= i < scanned(b, off, channel, w, left, found).records.len() ==> lies_in(
                #[trigger] scanned(b, off, channel, w, left, found).records[i],
                channel,
                w,
            ),
    decreases b.len() - off,
{
    let length = long_at(b, off);
    let ts = long_at(b, off + 12);
    if left > 0 && 0 <= off && off + HEADER_SIZE <= b.len() && length > 0 && off + length <= b.len() && ts >= w.since {
        let part = b.subrange(off, off + length);
        let more = if ts <= w.until {
            match record_of(part, channel) {
                Some(r) => found.push(r),
                None => found,
            }
        } else {
            found
        };
        if more.len() > found.len() {
            let secs = ts as i64;
            let r = record_of(part, channel)->0;
            assert(long_at(part, 12) == ts);
            assert(r.ts == seconds_shown(secs, rfc3339_text(Timestamp { secs, nanos: 0 })));
            assert(lies_in(r, channel, w));
        }
        lemma_records_lie_in_window(b, off + length, channel, w, left - 1, more);
        assert(scanned(b, off, channel, w, left, found) == scanned(b, off + length, channel, w, left - 1, more));
    } else {
        assert(scanned(b, off, channel, w, left, found).records == found);
    }
}

fn piece(buf: &[u8], from: usize, to: usize) -> (v: Vec<u8>)
    requires
        from <= to <= buf@.len(),
    ensures
        v@ == buf@.subrange(from as int, to as int),
{
    let mut v: Vec<u8> = Vec::new();
    let mut i: usize = from;
    while i < to
        invariant
            from <= i <= to <= buf@.len(),
            v@ == buf@.subrange(from as int, i as int),
        decreases to - i,
    {
        v.push(buf[i]);
        i += 1;
        proof {
            assert(v@ =~= buf@.subrange(from as int, i as int));
        }
    }
    v
}

/// Records that were found, and how many more may be read.
#[derive(Debug)]
struct Catch {
    records: Vec<WindowsEventRecord>,
    left: u32,
}

impl Catch {
    /// No more records can come together than may be read of a channel.
    spec fn bounded(&self) -> bool {
        self.records@.len() + self.left <= MAX_RECORDS
    }
}

fn scan(buf: &[u8], channel: &str, w: Window, c: &mut Catch) -> (over: bool)
    ensures
        (ScanModel { records: record_models(final(c).records@), left: final(c).left as int, over }) == scanned(
            buf@,
            0,
            channel@,
            w,
            old(c).left as int,
            record_models(old(c).records@),
        ),
        old(c).bounded() ==> final(c).bounded(),
{
    let len: usize = buf.len();
    let ghost whole = scanned(buf@, 0, channel@, w, c.left as int, record_models(c.records@));
    let mut off: usize = 0;
    while c.left > 0 && off <= len && len - off >= HEADER_SIZE
        invariant
            len == buf@.len(),
            off <= len,
            old(c).bounded() ==> c.bounded(),
            whole == scanned(buf@, 0, channel@, w, old(c).left as int, record_models(old(c).records@)),
            scanned(buf@, off as int, channel@, w, c.left as int, record_models(c.records@)) == whole,
        decreases len - off,
    {
        let length: usize = read_u32(buf, off) as usize;
        if length == 0 || length > len - off {
            return false;
        }
        c.left = c.left - 1;
        let ts: i64 = read_u32(buf, off + 12) as i64;
        if ts < w.since {
            return true;
        }
        if ts <= w.until {
            let bytes = piece(buf, off, off + length);
            if let Some(r) = parse_record(bytes.as_slice(), channel) {
                let ghost before = c.records@;
                let ghost m = r@;
                c.records.push(r);
                proof {
                    assert(record_models(c.records@) =~= record_models(before).push(m));
                }
            }
        }
        off += length;
    }
    c.left == 0
}

/// The reading of one channel, batch by batch from the newest record back.
#[derive(Debug)]
pub struct ChannelReader {
    channel: String,
    window: Window,
    reads: u32,
    buf_size: usize,
    done: bool,
    found: Catch,
}

/// What a [`ChannelReader`] holds.
pub struct ReaderModel {
    pub channel: Seq<char>,
    pub window: Window,
    pub reads: int,
    pub buf_size: int,
    pub done: bool,
    pub records: Seq<RecordModel>,
    /// How many more records may be read.
    pub left: int,
}

impl View for ChannelReader {
    type V = ReaderModel;

    closed spec fn view(&self) -> ReaderModel {
        ReaderModel {
            channel: self.channel@,
            window: self.window,
            reads: self.reads as int,
            buf_size: self.buf_size as int,
            done: self.done,
            records: record_models(self.found.records@),
            left: self.found.left as int,
        }
    }
}

/// The next read: it is counted, and the reading ends after too many.
pub open spec fn read_next(m: ReaderModel) -> ReaderModel {
    if m.done || m.reads >= MAX_RECORDS {
        ReaderModel { done: true, ..m }
    } else {
        ReaderModel { reads: m.reads + 1, ..m }
    }
}

/// A batch was read: its records in the window are kept. The reading goes on only where the batch
/// filled the buffer, no record was older than the window, and more records may be read.
pub open spec fn batch_read(m: ReaderModel, data: Seq<u8>) -> ReaderModel {
    let s = scanned(data, 0, m.channel, m.window, m.left, m.records);
    if data.len() == 0 {
        ReaderModel { done: true, ..m }
    } else {
        ReaderModel { records: s.records, left: s.left, done: s.over || data.len() != m.buf_size, ..m }
    }
}

/// The buffer was too small: the next one has twice the size, up to the largest.
pub open spec fn batch_too_large(m: ReaderModel) -> ReaderModel {
    ReaderModel {
        buf_size: if m.buf_size * 2 <= EVENT_READ_MAX {
            m.buf_size * 2
        } else {
            EVENT_READ_MAX as int
        },
        ..m
    }
}

impl ChannelReader {
    #[verifier::type_invariant]
    spec fn bounded(self) -> bool {
        self.found.bounded()
    }

    /// Starts the reading of a channel over a window of time.
    pub fn new(channel: &str, window: Window) -> (r: ChannelReader)
        ensures
            r@ == (ReaderModel {
                channel: channel@,
                window,
                reads: 0,
                buf_size: EVENT_READ_BUF as int,
                done: false,
                records: seq![],
                left: MAX_RECORDS as int,
            }),
    {
        let r = ChannelReader {
            channel: String::from_str(channel),
            window,
            reads: 0,
            buf_size: EVENT_READ_BUF,
            done: false,
            found: Catch { records: Vec::new(), left: MAX_RECORDS },
        };
        proof {
            assert(r@.records =~= seq![]);
        }
        r
    }

    /// The size of the buffer for the next read; none where the reading has ended.
    pub fn next_read(&mut self) -> (size: Option<usize>)
        ensures
            final(self)@ == read_next(old(self)@),
            match size {
                Some(n) => !final(self)@.done && n == final(self)@.buf_size,
                None => final(self)@.done,
            },
    {
        proof {
            use_type_invariant(&*self);
        }
        if self.done || self.reads >= MAX_RECORDS {
            self.done = true;
            return None;
        }
        self.reads = self.reads + 1;
        Some(self.buf_size)
    }

    /// Takes in the bytes of a read. However much is read, no more than the largest number of records
    /// is kept.
    pub fn absorb(&mut self, data: &[u8])
        ensures
            final(self)@ == batch_read(old(self)@, data@),
            final(self)@.records.len() <= MAX_RECORDS,
    {
        proof {
            use_type_invariant(&*self);
        }
        if data.len() == 0 {
            self.done = true;
            return;
        }
        let mut found = Catch { records: Vec::new(), left: 0 };
        std::mem::swap(&mut self.found, &mut found);
        let over = scan(data, self.channel.as_str(), self.window, &mut found);
        self.found = found;
        self.done = over || data.len() != self.buf_size;
    }

    /// The read failed because the buffer was too small.
    pub fn grow(&mut self)
        ensures
            final(self)@ == batch_too_large(old(self)@),
    {
        proof {
            use_type_invariant(&*self);
        }
        self.buf_size = if self.buf_size <= EVENT_READ_MAX / 2 {
            self.buf_size * 2
        } else {
            EVENT_READ_MAX
        };
    }

    /// The read failed otherwise: the reading ends.
    pub fn fail(&mut self)
        ensures
            final(self)@ == (ReaderModel { done: true, ..old(self)@ }),
    {
        proof {
            use_type_invariant(&*self);
        }
        self.done = true;
    }

    /// The records that were found.
    pub fn finish(self) -> (r: Vec<WindowsEventRecord>)
        ensures
            record_models(r@) == self@.records,
            r@.len() <= MAX_RECORDS,
    {
        proof {
            use_type_invariant(&self);
        }
        self.found.records
    }
}

/// A reading ends: every read that is granted uses up one of a limited number.
pub proof fn lemma_reading_ends(m: ReaderModel)
    requires
        0 <= m.reads <= MAX_RECORDS,
    ensures
        !read_next(m).done ==> m.reads < read_next(m).reads <= MAX_RECORDS,
{
}

} // verus!
