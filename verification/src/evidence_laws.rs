//! What is read out of the event log and out of call stacks.

use crate::counting_laws::{lemma_groups_count, times};
use crate::elevate::{char_units, lemma_wide_text_survives, text_units};
use crate::event_log::{
    batch_read, batch_too_large, long_at, message_from, message_of, read_next, record_of, scanned, text_at, text_end,
    units_between, utf16_text, word_at, zero_unit, ReaderModel, RecordModel, Window,
};
use crate::grouping::{groups_of, lemma_groups_upto};
use crate::order::{ascending, lemma_ascending, lemma_position, reordered};
use crate::stack_sampler::{
    address_count, entry_path, frames_at, hit_of, hits_upto, hot_spots, little_endian, module_at, modules_at, name_of, spot_keys, spots_of, stack_addresses,
    Hit, ModuleEntry, ModuleSpan, ProcessModules, RawFrame, StackModel,
};
use crate::types::{first_of, ProcessModel};
use vstd::prelude::*;

verus! {

/// The bytes of UTF-16 units, the lower byte first.
pub open spec fn unit_bytes(units: Seq<u16>) -> Seq<u8> {
    Seq::new(
        2 * units.len(),
        |i: int|
            if i % 2 == 0 {
                (units[i / 2] % 256) as u8
            } else {
                (units[i / 2] / 256) as u8
            },
    )
}

/// Bytes that hold a text and the zero behind it, between other bytes.
pub open spec fn with_text(front: Seq<u8>, s: Seq<char>, back: Seq<u8>) -> Seq<u8> {
    front + unit_bytes(text_units(s)) + seq![0u8, 0u8] + back
}

proof fn lemma_unit_read(front: Seq<u8>, units: Seq<u16>, back: Seq<u8>, i: int)
    requires
        0 <= i < units.len(),
    ensures
        word_at(front + unit_bytes(units) + seq![0u8, 0u8] + back, front.len() + 2 * i) == units[i],
{
    let bytes = unit_bytes(units);
    let b = front + bytes + seq![0u8, 0u8] + back;
    let at = front.len() + 2 * i;
    assert(b[at] == bytes[2 * i]);
    assert(b[at + 1] == bytes[2 * i + 1]);
    assert((2 * i) / 2 == i && (2 * i) % 2 == 0 && (2 * i + 1) / 2 == i && (2 * i + 1) % 2 == 1);
}

proof fn lemma_end_found(front: Seq<u8>, units: Seq<u16>, back: Seq<u8>, i: int)
    requires
        0 <= i <= units.len(),
        forall|k: int| 0 <= k < units.len() ==> #[trigger] units[k] != 0,
    ensures
        text_end(front + unit_bytes(units) + seq![0u8, 0u8] + back, front.len() + 2 * i) == Some(
            (front.len() + 2 * units.len()) as int,
        ),
    decreases units.len() - i,
{
    let b = front + unit_bytes(units) + seq![0u8, 0u8] + back;
    if i < units.len() {
        lemma_unit_read(front, units, back, i);
        assert(units[i] != 0);
        lemma_end_found(front, units, back, i + 1);
    } else {
        let at = front.len() + 2 * i;
        assert(b[at] == 0 && b[at + 1] == 0);
    }
}

proof fn lemma_char_not_zero(c: char)
    requires
        c as u32 != 0,
    ensures
        forall|k: int| 0 <= k < char_units(c).len() ==> #[trigger] char_units(c)[k] != 0,
{
}

proof fn lemma_units_not_zero(s: Seq<char>)
    requires
        forall|i: int| 0 <= i < s.len() ==> s[i] as u32 != 0,
    ensures
        forall|k: int| 0 <= k < text_units(s).len() ==> #[trigger] text_units(s)[k] != 0,
    decreases s.len(),
{
    if s.len() > 0 {
        let front = s.drop_last();
        lemma_units_not_zero(front);
        let a = text_units(front);
        let b = char_units(s.last());
        lemma_char_not_zero(s[s.len() - 1]);
        assert forall|k: int| 0 <= k < (a + b).len() implies #[trigger] (a + b)[k] != 0 by {
            if k < a.len() {
                assert(a[k] != 0);
            } else {
                assert(b[k - a.len()] != 0);
            }
        }
    }
}

/// A text in a record, with a zero behind it, is read as it was written, whatever stands around it.
pub proof fn lemma_texts_are_read(front: Seq<u8>, s: Seq<char>, back: Seq<u8>)
    requires
        forall|i: int| 0 <= i < s.len() ==> s[i] as u32 != 0,
    ensures
        text_at(with_text(front, s, back), front.len() as int) == s,
        text_end(with_text(front, s, back), front.len() as int) == Some((front.len() + 2 * text_units(s).len()) as int),
        utf16_text(
            units_between(with_text(front, s, back), front.len() as int, (front.len() + 2 * text_units(s).len()) as int),
        ) == s,
{
    let units = text_units(s);
    let b = with_text(front, s, back);
    lemma_units_not_zero(s);
    lemma_end_found(front, units, back, 0);
    lemma_wide_text_survives(s);
    let end = (front.len() + 2 * units.len()) as int;
    let found = units_between(b, front.len() as int, end);
    assert(found =~= units) by {
        assert forall|i: int| 0 <= i < units.len() implies found[i] == units[i] by {
            lemma_unit_read(front, units, back, i);
        }
    }
}

/// A text without a zero behind it is read to the end of the bytes.
pub proof fn lemma_open_texts_are_read(front: Seq<u8>, s: Seq<char>)
    requires
        forall|i: int| 0 <= i < s.len() ==> s[i] as u32 != 0,
        s.len() > 0,
    ensures
        text_at(front + unit_bytes(text_units(s)), front.len() as int) == s,
{
    let units = text_units(s);
    let b = front + unit_bytes(units);
    lemma_units_not_zero(s);
    lemma_wide_text_survives(s);
    lemma_no_end(front, units, 0);
    lemma_some_units(s);
    let found = units_between(b, front.len() as int, b.len() as int);
    assert(found =~= units) by {
        assert forall|i: int| 0 <= i < units.len() implies found[i] == units[i] by {
            lemma_open_unit_read(front, units, i);
        }
    }
}

proof fn lemma_some_units(s: Seq<char>)
    requires
        s.len() > 0,
    ensures
        text_units(s).len() > 0,
{
}

proof fn lemma_open_unit_read(front: Seq<u8>, units: Seq<u16>, i: int)
    requires
        0 <= i < units.len(),
    ensures
        word_at(front + unit_bytes(units), front.len() + 2 * i) == units[i],
{
    let bytes = unit_bytes(units);
    let b = front + bytes;
    let at = front.len() + 2 * i;
    assert(b[at] == bytes[2 * i]);
    assert(b[at + 1] == bytes[2 * i + 1]);
    assert((2 * i) / 2 == i && (2 * i) % 2 == 0 && (2 * i + 1) / 2 == i && (2 * i + 1) % 2 == 1);
}

proof fn lemma_no_end(front: Seq<u8>, units: Seq<u16>, i: int)
    requires
        0 <= i <= units.len(),
        forall|k: int| 0 <= k < units.len() ==> #[trigger] units[k] != 0,
    ensures
        text_end(front + unit_bytes(units), front.len() + 2 * i) is None,
    decreases units.len() - i,
{
    if i < units.len() {
        lemma_open_unit_read(front, units, i);
        assert(units[i] != 0);
        lemma_no_end(front, units, i + 1);
    }
}

/// The next text of a message is put behind those before it, with a blank between two that are not empty.
pub proof fn lemma_messages_gather(front: Seq<u8>, s: Seq<char>, back: Seq<u8>, n: int, message: Seq<char>)
    requires
        forall|i: int| 0 <= i < s.len() ==> s[i] as u32 != 0,
        n > 0,
    ensures
        ({
            let b = with_text(front, s, back);
            let behind = front.len() + 2 * text_units(s).len() + 2;
            let longer = if s.len() == 0 {
                message
            } else if message.len() == 0 {
                s
            } else {
                message + seq![' '] + s
            };
            message_from(b, front.len() as int, n, message) == message_from(b, behind as int, n - 1, longer)
        }),
        message_from(with_text(front, s, back), front.len() as int, 0, message) == message,
{
    lemma_texts_are_read(front, s, back);
    reveal_strlit(" ");
    assert(" "@ =~= seq![' ']);
}

/// The number that four bytes hold, the lowest first.
pub open spec fn number_at(b: Seq<u8>, at: int) -> int {
    b[at] + 0x100 * b[at + 1] + 0x1_0000 * b[at + 2] + 0x100_0000 * b[at + 3]
}

/// A record holds its source behind its header, its number in the lower half of the word at 20, its type at
/// 24 and its time at 12; its message is cut at 512 characters. Without a header or a source there is none.
pub proof fn lemma_fields_of_records(b: Seq<u8>, channel: Seq<char>)
    ensures
        record_of(b, channel) is Some <==> b.len() >= 56 && text_at(b, 56).len() > 0,
        record_of(b, channel) is Some ==> {
            let r = record_of(b, channel)->0;
            let kind = b[24] + 0x100 * b[25];
            &&& r.channel == channel
            &&& r.provider == text_at(b, 56)
            &&& r.win_event_id == b[20] + 0x100 * b[21]
            &&& kind == 1 ==> r.level == "Error"@
            &&& kind == 2 ==> r.level == "Warning"@
            &&& kind == 4 ==> r.level == "Information"@
            &&& kind != 1 && kind != 2 && kind != 4 ==> r.level == "Other"@
            &&& r.message.len() <= 512
            &&& r.message.is_prefix_of(message_of(b))
            &&& message_of(b).len() <= 512 ==> r.message == message_of(b)
            &&& message_of(b).len() > 512 ==> r.message.len() == 512
            &&& r.ts == crate::event_log::seconds_shown(
                number_at(b, 12) as i64,
                crate::timestamps::rfc3339_text(crate::types::Timestamp { secs: number_at(b, 12) as i64, nanos: 0 }),
            )
        },
        ({
            let at = number_at(b, 36);
            let n = b[26] + 0x100 * b[27];
            &&& 56 <= at < b.len() ==> message_of(b) == message_from(b, at, n, seq![])
            &&& !(56 <= at < b.len()) ==> message_of(b) == Seq::<char>::empty()
        }),
{
    let m = message_of(b);
    assert(long_at(b, 12) == number_at(b, 12));
    assert(long_at(b, 36) == number_at(b, 36));
    if m.len() > 512 {
        assert(m.take(512) =~= m.subrange(0, 512));
    } else {
        assert(m =~= m.subrange(0, m.len() as int));
    }
}

proof fn lemma_shifted(a: Seq<u8>, b: Seq<u8>, off: int, channel: Seq<char>, w: Window, left: int, found: Seq<RecordModel>)
    requires
        0 <= off <= b.len(),
    ensures
        scanned(a + b, a.len() + off, channel, w, left, found) == scanned(b, off, channel, w, left, found),
    decreases b.len() - off,
{
    let whole = a + b;
    let at = a.len() + off;
    if left > 0 && off + 56 <= b.len() {
        assert(forall|k: int| 0 <= k < b.len() ==> whole[a.len() + k] == #[trigger] b[k]);
        assert(long_at(whole, at) == long_at(b, off)) by {
            assert(whole[at] == b[off] && whole[at + 1] == b[off + 1] && whole[at + 2] == b[off + 2] && whole[at + 3] == b[off + 3]);
        }
        assert(long_at(whole, at + 12) == long_at(b, off + 12)) by {
            assert(whole[at + 12] == b[off + 12] && whole[at + 13] == b[off + 13] && whole[at + 14] == b[off + 14]
                && whole[at + 15] == b[off + 15]);
        }
        let length = long_at(b, off);
        if length > 0 && off + length <= b.len() {
            assert(whole.subrange(at, at + length) =~= b.subrange(off, off + length));
            let ts = long_at(b, off + 12);
            if ts >= w.since {
                let more = if ts <= w.until {
                    match record_of(b.subrange(off, off + length), channel) {
                        Some(r) => found.push(r),
                        None => found,
                    }
                } else {
                    found
                };
                lemma_shifted(a, b, off + length, channel, w, left - 1, more);
            }
        }
    }
}

/// A batch is searched record by record: one of the window is kept, one later than the window is passed over,
/// and one earlier ends the search. Each counts against what may be read, and nothing is read beyond that.
pub proof fn lemma_records_are_searched(
    rec: Seq<u8>,
    rest: Seq<u8>,
    channel: Seq<char>,
    w: Window,
    left: int,
    found: Seq<RecordModel>,
)
    requires
        rec.len() >= 56,
        number_at(rec, 0) == rec.len(),
    ensures
        ({
            let r = scanned(rec + rest, 0, channel, w, left, found);
            let ts = number_at(rec, 12);
            let kept = if ts <= w.until && record_of(rec, channel) is Some {
                found.push(record_of(rec, channel)->0)
            } else {
                found
            };
            &&& left <= 0 ==> r.records == found && r.over
            &&& left > 0 && ts < w.since ==> r.records == found && r.over
            &&& left > 0 && ts >= w.since ==> r == scanned(rest, 0, channel, w, left - 1, kept)
        }),
        scanned(Seq::empty(), 0, channel, w, left, found).records == found,
{
    let whole = rec + rest;
    let n = rec.len() as int;
    assert(whole[0] == rec[0] && whole[1] == rec[1] && whole[2] == rec[2] && whole[3] == rec[3]);
    assert(whole[12] == rec[12] && whole[13] == rec[13] && whole[14] == rec[14] && whole[15] == rec[15]);
    assert(long_at(whole, 0) == n);
    assert(long_at(whole, 12) == number_at(rec, 12));
    assert(whole.subrange(0, n) =~= rec);
    let ts = number_at(rec, 12);
    if left > 0 && ts >= w.since {
        let kept = if ts <= w.until && record_of(rec, channel) is Some {
            found.push(record_of(rec, channel)->0)
        } else {
            found
        };
        lemma_shifted(rec, rest, 0, channel, w, left - 1, kept);
    }
}

/// A channel is read until a batch does not fill the buffer, an older record comes, or five thousand reads or
/// records are used up; a buffer that is too small is doubled, up to four megabytes.
pub proof fn lemma_reading_of_channels(m: ReaderModel, data: Seq<u8>)
    ensures
        m.done || m.reads >= 5000 ==> read_next(m).done,
        !m.done && m.reads < 5000 ==> read_next(m) == (ReaderModel { reads: m.reads + 1, ..m }),
        data.len() == 0 ==> batch_read(m, data) == (ReaderModel { done: true, ..m }),
        data.len() > 0 && data.len() != m.buf_size ==> batch_read(m, data).done,
        data.len() > 0 ==> batch_read(m, data).records == scanned(data, 0, m.channel, m.window, m.left, m.records).records,
        data.len() > 0 && data.len() == m.buf_size ==> batch_read(m, data).done == scanned(
            data,
            0,
            m.channel,
            m.window,
            m.left,
            m.records,
        ).over,
        0 < m.buf_size <= 2_097_152 ==> batch_too_large(m) == (ReaderModel { buf_size: 2 * m.buf_size, ..m }),
        m.buf_size > 2_097_152 ==> batch_too_large(m) == (ReaderModel { buf_size: 4_194_304, ..m }),
{
}

/// A word of a stack item holds its bytes, the lowest first.
pub proof fn lemma_words_of_stacks(b: Seq<u8>, at: int)
    ensures
        little_endian(b, at, 4) == number_at(b, at),
        little_endian(b, at, 8) == number_at(b, at) + 0x1_0000_0000 * number_at(b, at + 4),
{
    reveal_with_fuel(little_endian, 9);
}

/// The addresses of a stack item are its words from the second on, as many as fit beside its stamp of eight
/// bytes, in order, without the zeros.
pub proof fn lemma_addresses_of_stacks(data: Seq<u8>, width: int, n: int)
    requires
        width == 4 || width == 8,
        0 <= n,
    ensures
        stack_addresses(data, width, 0) == Seq::<u64>::empty(),
        ({
            let word = little_endian(data, (n + 1) * width, width) as u64;
            &&& word == 0 ==> stack_addresses(data, width, n + 1) == stack_addresses(data, width, n)
            &&& word != 0 ==> stack_addresses(data, width, n + 1) == stack_addresses(data, width, n).push(word)
        }),
        data.len() < 8 ==> address_count(data.len() as int, width) == 0,
        data.len() >= 8 ==> {
            let c = address_count(data.len() as int, width);
            c * width + 8 <= data.len() < (c + 1) * width + 8
        },
{
}

/// An address belongs to the first module whose range holds it.
pub proof fn lemma_first_module_holds(mods: Seq<ModuleSpan>, address: u64, i: int)
    requires
        0 <= i <= mods.len(),
        forall|j: int| 0 <= j < i ==> address < (#[trigger] mods[j]).base || address - mods[j].base >= mods[j].size,
        i < mods.len() ==> address >= mods[i].base && address - mods[i].base < mods[i].size,
    ensures
        module_at(mods, address, 0) == i,
{
    lemma_module_at(mods, address, 0, i);
}

proof fn lemma_module_at(mods: Seq<ModuleSpan>, address: u64, from: int, i: int)
    requires
        0 <= from <= i <= mods.len(),
        forall|j: int| 0 <= j < i ==> address < (#[trigger] mods[j]).base || address - mods[j].base >= mods[j].size,
        i < mods.len() ==> address >= mods[i].base && address - mods[i].base < mods[i].size,
    ensures
        module_at(mods, address, from) == i,
    decreases i - from,
{
    if from < i {
        assert(address < mods[from].base || address - mods[from].base >= mods[from].size);
        lemma_module_at(mods, address, from + 1, i);
    }
}

/// A frame hits where its process is a culprit and its address lies in a module of that process: under the
/// name of the culprit, in the module, at the offset from its base.
pub proof fn lemma_where_frames_hit(maps: Seq<ProcessModules>, procs: Seq<ProcessModel>, f: RawFrame)
    ensures
        match hit_of(maps, procs, f) {
            Some(h) => {
                &&& h.pid == f.pid
                &&& exists|i: int| 0 <= i < procs.len() && (#[trigger] procs[i]).pid == f.pid && procs[i].name == h.process_name
                &&& exists|i: int, k: int|
                    0 <= i < maps.len() && maps[i].pid == f.pid && 0 <= k < maps[i].modules@.len() && (
                    #[trigger] maps[i].modules@[k]).path@ == h.module && maps[i].modules@[k].base + h.rva == f.address && h.rva
                        < maps[i].modules@[k].size
            },
            None => {
                ||| forall|i: int| 0 <= i < procs.len() ==> (#[trigger] procs[i]).pid != f.pid
                ||| forall|i: int| 0 <= i < maps.len() ==> (#[trigger] maps[i]).pid != f.pid
                ||| exists|i: int|
                    0 <= i < maps.len() && (#[trigger] maps[i]).pid == f.pid && module_at(maps[i].modules@, f.address, 0)
                        >= maps[i].modules@.len()
            },
        },
{
    lemma_name_of(procs, f.pid, procs.len() as int);
    lemma_modules_at(maps, f.pid, 0);
    let i = modules_at(maps, f.pid, 0);
    if i < maps.len() {
        let mods = maps[i].modules@;
        let k = module_at(mods, f.address, 0);
        lemma_module_in(mods, f.address, 0);
        if k < mods.len() {
            crate::stack_sampler::lemma_offset_is_in_module(mods, f.address, 0);
            assert(mods[k] == maps[i].modules@[k]);
        }
    }
}

proof fn lemma_module_in(mods: Seq<ModuleSpan>, address: u64, i: int)
    requires
        0 <= i <= mods.len(),
    ensures
        i <= module_at(mods, address, i) <= mods.len(),
    decreases mods.len() - i,
{
    if i < mods.len() && !crate::stack_sampler::lies_in(mods[i], address) {
        lemma_module_in(mods, address, i + 1);
    }
}

proof fn lemma_name_of(procs: Seq<ProcessModel>, pid: u32, n: int)
    requires
        0 <= n <= procs.len(),
    ensures
        match name_of(procs, pid, n) {
            Some(name) => exists|i: int| 0 <= i < n && (#[trigger] procs[i]).pid == pid && procs[i].name == name,
            None => forall|i: int| 0 <= i < n ==> (#[trigger] procs[i]).pid != pid,
        },
    decreases n,
{
    if n > 0 {
        if procs[n - 1].pid == pid {
            assert(procs[n - 1].name == name_of(procs, pid, n)->0);
        } else {
            lemma_name_of(procs, pid, n - 1);
        }
    }
}

proof fn lemma_modules_at(maps: Seq<ProcessModules>, pid: u32, i: int)
    requires
        0 <= i <= maps.len(),
    ensures
        i <= modules_at(maps, pid, i) <= maps.len(),
        modules_at(maps, pid, i) < maps.len() ==> maps[modules_at(maps, pid, i)].pid == pid,
        modules_at(maps, pid, i) == maps.len() ==> forall|j: int| i <= j < maps.len() ==> (#[trigger] maps[j]).pid != pid,
    decreases maps.len() - i,
{
    if i < maps.len() && maps[i].pid != pid {
        lemma_modules_at(maps, pid, i + 1);
    }
}

/// The hits of one more frame come behind those before.
pub proof fn lemma_hits_gather(maps: Seq<ProcessModules>, procs: Seq<ProcessModel>, frames: Seq<RawFrame>, n: int)
    requires
        0 <= n < frames.len(),
    ensures
        hits_upto(maps, procs, frames, 0) == Seq::<Hit>::empty(),
        hit_of(maps, procs, frames[n]) is Some ==> hits_upto(maps, procs, frames, n + 1) == hits_upto(maps, procs, frames, n).push(
            hit_of(maps, procs, frames[n])->0,
        ),
        hit_of(maps, procs, frames[n]) is None ==> hits_upto(maps, procs, frames, n + 1) == hits_upto(maps, procs, frames, n),
{
}

/// A hot spot is as hot as often it was hit.
pub open spec fn counts_hits(s: StackModel, hits: Seq<Hit>) -> bool {
    s.sample_count > 0 && s.sample_count == times(
        hits,
        Hit { pid: s.pid, process_name: s.process_name, module: s.module, rva: s.rva },
        hits.len() as int,
    )
}

/// Hot spots count the hits at one offset of one module of one process, the hottest first, twenty at most; one
/// that is left out is no hotter than one that is kept, and with room none is left out.
pub proof fn lemma_hot_spots_count_hits(hits: Seq<Hit>)
    requires
        hits.len() <= u64::MAX,
    ensures
        ({
            let r = hot_spots(hits);
            &&& r.len() <= 20
            &&& forall|i: int| 0 <= i < r.len() ==> counts_hits(#[trigger] r[i], hits)
            &&& forall|i: int, j: int| 0 <= i < j < r.len() ==> (#[trigger] r[i]).sample_count >= (#[trigger] r[j]).sample_count
            &&& forall|s: StackModel, i: int|
                counts_hits(s, hits) && 0 <= i < r.len() && !r.contains(s) ==> #[trigger] no_hotter(s, r[i])
            &&& forall|s: StackModel| counts_hits(s, hits) && r.len() < 20 ==> #[trigger] r.contains(s)
        }),
{
    let n = hits.len() as int;
    let groups = groups_of(hits);
    let all = spots_of(hits);
    let keys = spot_keys(all);
    let order = ascending(keys);
    let ranked = reordered(all, order);
    let r = hot_spots(hits);
    let zeros = Seq::new(hits.len(), |i: int| 0u64);
    lemma_groups_count(hits, zeros, n);
    lemma_groups_upto(hits, n);
    lemma_ascending(keys);
    assert(r == first_of(ranked, 20));
    assert forall|x: int| 0 <= x < all.len() implies counts_hits(#[trigger] all[x], hits) by {
        let g = groups[x];
        assert(g.len() >= 1);
        lemma_times_bounded(hits, hits[g[0]], n);
    }
    assert forall|i: int| 0 <= i < r.len() implies counts_hits(#[trigger] r[i], hits) by {
        assert(r[i] == all[order[i]]);
    }
    assert forall|i: int, j: int| 0 <= i < j < ranked.len() implies (#[trigger] ranked[i]).sample_count >= (
    #[trigger] ranked[j]).sample_count by {
        assert(keys[order[i]] <= keys[order[j]]);
    }
    assert forall|i: int, j: int| 0 <= i < j < r.len() implies (#[trigger] r[i]).sample_count >= (#[trigger] r[j]).sample_count by {
        assert(r[i] == ranked[i] && r[j] == ranked[j]);
    }
    assert forall|s: StackModel| counts_hits(s, hits) implies exists|k: int| 0 <= k < ranked.len() && #[trigger] ranked[k] == s by {
        let h = Hit { pid: s.pid, process_name: s.process_name, module: s.module, rva: s.rva };
        assert(exists|x: int| 0 <= x < groups.len() && hits[(#[trigger] groups[x])[0]] == h);
        let x = choose|x: int| 0 <= x < groups.len() && hits[(#[trigger] groups[x])[0]] == h;
        assert(all[x] == s) by {
            assert(counts_hits(all[x], hits));
        }
        let k = lemma_position(order, all.len() as int, x);
        assert(ranked[k] == s);
    }
    assert forall|s: StackModel, i: int| counts_hits(s, hits) && 0 <= i < r.len() && !r.contains(s) implies #[trigger] no_hotter(
        s,
        r[i],
    ) by {
        let k = choose|k: int| 0 <= k < ranked.len() && #[trigger] ranked[k] == s;
        if k < r.len() {
            assert(r[k] == s);
        }
        assert(r[i] == ranked[i]);
    }
    assert forall|s: StackModel| counts_hits(s, hits) && r.len() < 20 implies #[trigger] r.contains(s) by {
        let k = choose|k: int| 0 <= k < ranked.len() && #[trigger] ranked[k] == s;
        assert(r == ranked);
        assert(r[k] == s);
    }
}

/// A hot spot was hit no more often than another.
pub open spec fn no_hotter(s: StackModel, t: StackModel) -> bool {
    s.sample_count <= t.sample_count
}

proof fn lemma_times_bounded<K>(keys: Seq<K>, k: K, n: int)
    requires
        0 <= n,
    ensures
        0 <= times(keys, k, n) <= n,
    decreases n,
{
    if n > 0 {
        lemma_times_bounded(keys, k, n - 1);
    }
}

/// A listed path ends at the first zero.
pub proof fn lemma_paths_end_at_zero(units: Seq<u16>, i: int)
    requires
        0 <= i <= units.len(),
    ensures
        i <= zero_unit(units, i) <= units.len(),
        zero_unit(units, i) < units.len() ==> units[zero_unit(units, i)] == 0,
        forall|j: int| i <= j < zero_unit(units, i) ==> units[j] != 0,
    decreases units.len() - i,
{
    if i < units.len() && units[i] != 0 {
        lemma_paths_end_at_zero(units, i + 1);
    }
}

/// A path that is filled up with zeros is read as it was written.
pub proof fn lemma_paths_are_read(e: ModuleEntry, s: Seq<char>, fill: Seq<u16>)
    requires
        forall|i: int| 0 <= i < s.len() ==> s[i] as u32 != 0,
        e.path@ == text_units(s) + fill,
        fill.len() > 0 ==> fill[0] == 0,
    ensures
        entry_path(e) == s,
{
    let units = text_units(s);
    let n = units.len() as int;
    lemma_units_not_zero(s);
    lemma_wide_text_survives(s);
    lemma_paths_end_at_zero(e.path@, 0);
    let at = zero_unit(e.path@, 0);
    if at < n {
        assert(units[at] != 0);
        assert(e.path@[at] == units[at]);
    }
    if at > n {
        assert(e.path@[n] == fill[0]);
    }
    assert(e.path@.take(at) =~= units);
}

/// Frames are of the process that was sampled, at the addresses that were read.
pub proof fn lemma_frames_of_a_process(pid: u32, addresses: Seq<u64>)
    ensures
        frames_at(pid, addresses).len() == addresses.len(),
        forall|i: int|
            0 <= i < addresses.len() ==> (#[trigger] frames_at(pid, addresses)[i]).pid == pid && frames_at(pid, addresses)[i].address
                == addresses[i],
{
}

} // verus!
