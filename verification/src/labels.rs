//! Names, labels and classes of causes and severities, as they are stored and shown.

use crate::cause::{kind_name, severity_word, CauseKind, Severity};
use crate::text::{same_text, starts_with};
use crate::text_order::{lemma_text_order, text_less};
use vstd::prelude::*;

verus! {

/// The class of a cause text, by what it begins with.
pub open spec fn class_of(cause: Seq<char>) -> Seq<char> {
    if "CPU usage"@.is_prefix_of(cause) {
        "CPU 过高"@
    } else if "CPU spike"@.is_prefix_of(cause) {
        "CPU 突增"@
    } else if "Disk write"@.is_prefix_of(cause) {
        "磁盘突增"@
    } else if "Network"@.is_prefix_of(cause) {
        "网络突增"@
    } else if "Memory available"@.is_prefix_of(cause) {
        "内存骤降"@
    } else if "Memory usage"@.is_prefix_of(cause) {
        "内存过高"@
    } else if "Available memory"@.is_prefix_of(cause) {
        "内存不足"@
    } else if "Commit charge"@.is_prefix_of(cause) {
        "提交电荷"@
    } else if "Memory paging"@.is_prefix_of(cause) {
        "内存分页"@
    } else {
        "其他"@
    }
}

/// The class of a cause text.
pub fn classify_cause(cause: &str) -> (class: &'static str)
    ensures
        class@ == class_of(cause@),
{
    if starts_with(cause, "CPU usage") {
        "CPU 过高"
    } else if starts_with(cause, "CPU spike") {
        "CPU 突增"
    } else if starts_with(cause, "Disk write") {
        "磁盘突增"
    } else if starts_with(cause, "Network") {
        "网络突增"
    } else if starts_with(cause, "Memory available") {
        "内存骤降"
    } else if starts_with(cause, "Memory usage") {
        "内存过高"
    } else if starts_with(cause, "Available memory") {
        "内存不足"
    } else if starts_with(cause, "Commit charge") {
        "提交电荷"
    } else if starts_with(cause, "Memory paging") {
        "内存分页"
    } else {
        "其他"
    }
}

/// The shown label of a kind.
pub open spec fn label_of(k: CauseKind) -> Seq<char> {
    match k {
        CauseKind::CpuHigh => "CPU 占用高"@,
        CauseKind::CpuSpike => "CPU 突增"@,
        CauseKind::MemLow => "内存不足"@,
        CauseKind::DiskBusy => "磁盘繁忙"@,
        CauseKind::DiskSpike => "磁盘突增"@,
        CauseKind::GpuHigh => "GPU 占用高"@,
        CauseKind::ThermalThrottle => "温度降频"@,
        CauseKind::DpcInterrupt => "DPC 风暴"@,
        CauseKind::InterruptStorm => "中断风暴"@,
        CauseKind::ContextSwitchStorm => "上下文切换风暴"@,
        CauseKind::NetSpike => "网络突增"@,
        CauseKind::UiFrozen => "界面冻结"@,
        CauseKind::ProcessHandleLeak => "句柄泄漏"@,
        CauseKind::HandleHigh => "句柄数偏高"@,
        CauseKind::GdiObjectLeak => "GDI 对象泄漏"@,
        CauseKind::DriverTimeout => "驱动超时"@,
        CauseKind::ServiceCrash => "服务崩溃"@,
        CauseKind::DiskIoError => "磁盘 I/O 错误"@,
        CauseKind::HardwareError => "硬件错误"@,
    }
}

/// The shown label of a kind.
pub fn cause_kind_label(kind: CauseKind) -> (label: &'static str)
    ensures
        label@ == label_of(kind),
{
    match kind {
        CauseKind::CpuHigh => "CPU 占用高",
        CauseKind::CpuSpike => "CPU 突增",
        CauseKind::MemLow => "内存不足",
        CauseKind::DiskBusy => "磁盘繁忙",
        CauseKind::DiskSpike => "磁盘突增",
        CauseKind::GpuHigh => "GPU 占用高",
        CauseKind::ThermalThrottle => "温度降频",
        CauseKind::DpcInterrupt => "DPC 风暴",
        CauseKind::InterruptStorm => "中断风暴",
        CauseKind::ContextSwitchStorm => "上下文切换风暴",
        CauseKind::NetSpike => "网络突增",
        CauseKind::UiFrozen => "界面冻结",
        CauseKind::ProcessHandleLeak => "句柄泄漏",
        CauseKind::HandleHigh => "句柄数偏高",
        CauseKind::GdiObjectLeak => "GDI 对象泄漏",
        CauseKind::DriverTimeout => "驱动超时",
        CauseKind::ServiceCrash => "服务崩溃",
        CauseKind::DiskIoError => "磁盘 I/O 错误",
        CauseKind::HardwareError => "硬件错误",
    }
}

/// How many kinds there are.
pub const KIND_COUNT: usize = 19;

/// The place of a kind when kinds are put in the order of their names.
pub open spec fn name_rank(k: CauseKind) -> int {
    match k {
        CauseKind::ContextSwitchStorm => 0,
        CauseKind::CpuHigh => 1,
        CauseKind::CpuSpike => 2,
        CauseKind::DiskBusy => 3,
        CauseKind::DiskIoError => 4,
        CauseKind::DiskSpike => 5,
        CauseKind::DpcInterrupt => 6,
        CauseKind::DriverTimeout => 7,
        CauseKind::GdiObjectLeak => 8,
        CauseKind::GpuHigh => 9,
        CauseKind::HandleHigh => 10,
        CauseKind::HardwareError => 11,
        CauseKind::InterruptStorm => 12,
        CauseKind::MemLow => 13,
        CauseKind::NetSpike => 14,
        CauseKind::ProcessHandleLeak => 15,
        CauseKind::ServiceCrash => 16,
        CauseKind::ThermalThrottle => 17,
        CauseKind::UiFrozen => 18,
    }
}

/// The place of a kind when kinds are put in the order of their names.
pub fn kind_rank(k: CauseKind) -> (r: u8)
    ensures
        r == name_rank(k),
        r < KIND_COUNT,
{
    match k {
        CauseKind::ContextSwitchStorm => 0,
        CauseKind::CpuHigh => 1,
        CauseKind::CpuSpike => 2,
        CauseKind::DiskBusy => 3,
        CauseKind::DiskIoError => 4,
        CauseKind::DiskSpike => 5,
        CauseKind::DpcInterrupt => 6,
        CauseKind::DriverTimeout => 7,
        CauseKind::GdiObjectLeak => 8,
        CauseKind::GpuHigh => 9,
        CauseKind::HandleHigh => 10,
        CauseKind::HardwareError => 11,
        CauseKind::InterruptStorm => 12,
        CauseKind::MemLow => 13,
        CauseKind::NetSpike => 14,
        CauseKind::ProcessHandleLeak => 15,
        CauseKind::ServiceCrash => 16,
        CauseKind::ThermalThrottle => 17,
        CauseKind::UiFrozen => 18,
    }
}

/// The kind at a place in the order of names.
pub open spec fn ranked_kind(i: int) -> CauseKind {
    if i == 0 {
        CauseKind::ContextSwitchStorm
    } else if i == 1 {
        CauseKind::CpuHigh
    } else if i == 2 {
        CauseKind::CpuSpike
    } else if i == 3 {
        CauseKind::DiskBusy
    } else if i == 4 {
        CauseKind::DiskIoError
    } else if i == 5 {
        CauseKind::DiskSpike
    } else if i == 6 {
        CauseKind::DpcInterrupt
    } else if i == 7 {
        CauseKind::DriverTimeout
    } else if i == 8 {
        CauseKind::GdiObjectLeak
    } else if i == 9 {
        CauseKind::GpuHigh
    } else if i == 10 {
        CauseKind::HandleHigh
    } else if i == 11 {
        CauseKind::HardwareError
    } else if i == 12 {
        CauseKind::InterruptStorm
    } else if i == 13 {
        CauseKind::MemLow
    } else if i == 14 {
        CauseKind::NetSpike
    } else if i == 15 {
        CauseKind::ProcessHandleLeak
    } else if i == 16 {
        CauseKind::ServiceCrash
    } else if i == 17 {
        CauseKind::ThermalThrottle
    } else {
        CauseKind::UiFrozen
    }
}

/// The kind at a place in the order of names.
pub fn kind_at_rank(i: usize) -> (k: CauseKind)
    requires
        i < KIND_COUNT,
    ensures
        k == ranked_kind(i as int),
{
    match i {
        0 => CauseKind::ContextSwitchStorm,
        1 => CauseKind::CpuHigh,
        2 => CauseKind::CpuSpike,
        3 => CauseKind::DiskBusy,
        4 => CauseKind::DiskIoError,
        5 => CauseKind::DiskSpike,
        6 => CauseKind::DpcInterrupt,
        7 => CauseKind::DriverTimeout,
        8 => CauseKind::GdiObjectLeak,
        9 => CauseKind::GpuHigh,
        10 => CauseKind::HandleHigh,
        11 => CauseKind::HardwareError,
        12 => CauseKind::InterruptStorm,
        13 => CauseKind::MemLow,
        14 => CauseKind::NetSpike,
        15 => CauseKind::ProcessHandleLeak,
        16 => CauseKind::ServiceCrash,
        17 => CauseKind::ThermalThrottle,
        _ => CauseKind::UiFrozen,
    }
}

/// The kind with a stored name; none where the name is not that of a kind.
pub fn cause_kind_from_key(key: &str) -> (r: Option<CauseKind>)
    ensures
        match r {
            Some(k) => kind_name(k) == key@,
            None => forall|k: CauseKind| kind_name(k) != key@,
        },
{
    let mut i: usize = 0;
    while i < KIND_COUNT
        invariant
            i <= KIND_COUNT,
            forall|j: int| 0 <= j < i ==> kind_name(#[trigger] ranked_kind(j)) != key@,
        decreases KIND_COUNT - i,
    {
        let k = kind_at_rank(i);
        if same_text(k.name(), key) {
            return Some(k);
        }
        i += 1;
    }
    proof {
        assert forall|k: CauseKind| kind_name(k) != key@ by {
            assert(ranked_kind(name_rank(k)) == k);
        }
    }
    None
}

/// The severity with a stored word; every other word is a minor one.
pub open spec fn severity_from(word: Seq<char>) -> Severity {
    if word == "critical"@ {
        Severity::Critical
    } else if word == "major"@ {
        Severity::Major
    } else {
        Severity::Minor
    }
}

/// The severity with a stored word.
pub fn parse_severity(s: &str) -> (r: Severity)
    ensures
        r == severity_from(s@),
{
    if same_text(s, "critical") {
        Severity::Critical
    } else if same_text(s, "major") {
        Severity::Major
    } else {
        Severity::Minor
    }
}

/// The shown label of a stored severity; an unknown word is shown as it is.
pub open spec fn severity_label(word: Seq<char>) -> Seq<char> {
    if word == "critical"@ {
        "危急"@
    } else if word == "major"@ {
        "严重"@
    } else if word == "minor"@ {
        "轻微"@
    } else {
        word
    }
}

/// The shown label of a stored severity.
pub fn severity_cn(sev: &str) -> (r: String)
    ensures
        r@ == severity_label(sev@),
{
    if same_text(sev, "critical") {
        String::from_str("危急")
    } else if same_text(sev, "major") {
        String::from_str("严重")
    } else if same_text(sev, "minor") {
        String::from_str("轻微")
    } else {
        String::from_str(sev)
    }
}

/// A text comes before another where they first differ with a smaller character.
proof fn lemma_less_at(a: Seq<char>, b: Seq<char>, i: int)
    requires
        0 <= i < a.len(),
        i < b.len(),
        forall|j: int| 0 <= j < i ==> a[j] == b[j],
        (a[i] as u32) < (b[i] as u32),
    ensures
        text_less(a, b),
    decreases i,
{
    if i > 0 {
        assert(a.skip(1)[i - 1] == a[i]);
        assert(b.skip(1)[i - 1] == b[i]);
        assert forall|j: int| 0 <= j < i - 1 implies a.skip(1)[j] == b.skip(1)[j] by {
            assert(a[j + 1] == b[j + 1]);
        }
        lemma_less_at(a.skip(1), b.skip(1), i - 1);
    }
}

proof fn lemma_next_name(i: int)
    requires
        0 <= i < KIND_COUNT - 1,
    ensures
        text_less(kind_name(ranked_kind(i)), kind_name(ranked_kind(i + 1))),
{
    if i == 0 {
        reveal_strlit("ContextSwitchStorm");
        reveal_strlit("CpuHigh");
        assert("ContextSwitchStorm"@[0] == "CpuHigh"@[0]);
        lemma_less_at("ContextSwitchStorm"@, "CpuHigh"@, 1);
    }
    if i == 1 {
        reveal_strlit("CpuHigh");
        reveal_strlit("CpuSpike");
        assert("CpuHigh"@[0] == "CpuSpike"@[0]);
        assert("CpuHigh"@[1] == "CpuSpike"@[1]);
        assert("CpuHigh"@[2] == "CpuSpike"@[2]);
        lemma_less_at("CpuHigh"@, "CpuSpike"@, 3);
    }
    if i == 2 {
        reveal_strlit("CpuSpike");
        reveal_strlit("DiskBusy");
        lemma_less_at("CpuSpike"@, "DiskBusy"@, 0);
    }
    if i == 3 {
        reveal_strlit("DiskBusy");
        reveal_strlit("DiskIoError");
        assert("DiskBusy"@[0] == "DiskIoError"@[0]);
        assert("DiskBusy"@[1] == "DiskIoError"@[1]);
        assert("DiskBusy"@[2] == "DiskIoError"@[2]);
        assert("DiskBusy"@[3] == "DiskIoError"@[3]);
        lemma_less_at("DiskBusy"@, "DiskIoError"@, 4);
    }
    if i == 4 {
        reveal_strlit("DiskIoError");
        reveal_strlit("DiskSpike");
        assert("DiskIoError"@[0] == "DiskSpike"@[0]);
        assert("DiskIoError"@[1] == "DiskSpike"@[1]);
        assert("DiskIoError"@[2] == "DiskSpike"@[2]);
        assert("DiskIoError"@[3] == "DiskSpike"@[3]);
        lemma_less_at("DiskIoError"@, "DiskSpike"@, 4);
    }
    if i == 5 {
        reveal_strlit("DiskSpike");
        reveal_strlit("DpcInterrupt");
        assert("DiskSpike"@[0] == "DpcInterrupt"@[0]);
        lemma_less_at("DiskSpike"@, "DpcInterrupt"@, 1);
    }
    if i == 6 {
        reveal_strlit("DpcInterrupt");
        reveal_strlit("DriverTimeout");
        assert("DpcInterrupt"@[0] == "DriverTimeout"@[0]);
        lemma_less_at("DpcInterrupt"@, "DriverTimeout"@, 1);
    }
    if i == 7 {
        reveal_strlit("DriverTimeout");
        reveal_strlit("GdiObjectLeak");
        lemma_less_at("DriverTimeout"@, "GdiObjectLeak"@, 0);
    }
    if i == 8 {
        reveal_strlit("GdiObjectLeak");
        reveal_strlit("GpuHigh");
        assert("GdiObjectLeak"@[0] == "GpuHigh"@[0]);
        lemma_less_at("GdiObjectLeak"@, "GpuHigh"@, 1);
    }
    if i == 9 {
        reveal_strlit("GpuHigh");
        reveal_strlit("HandleHigh");
        lemma_less_at("GpuHigh"@, "HandleHigh"@, 0);
    }
    if i == 10 {
        reveal_strlit("HandleHigh");
        reveal_strlit("HardwareError");
        assert("HandleHigh"@[0] == "HardwareError"@[0]);
        assert("HandleHigh"@[1] == "HardwareError"@[1]);
        lemma_less_at("HandleHigh"@, "HardwareError"@, 2);
    }
    if i == 11 {
        reveal_strlit("HardwareError");
        reveal_strlit("InterruptStorm");
        lemma_less_at("HardwareError"@, "InterruptStorm"@, 0);
    }
    if i == 12 {
        reveal_strlit("InterruptStorm");
        reveal_strlit("MemLow");
        lemma_less_at("InterruptStorm"@, "MemLow"@, 0);
    }
    if i == 13 {
        reveal_strlit("MemLow");
        reveal_strlit("NetSpike");
        lemma_less_at("MemLow"@, "NetSpike"@, 0);
    }
    if i == 14 {
        reveal_strlit("NetSpike");
        reveal_strlit("ProcessHandleLeak");
        lemma_less_at("NetSpike"@, "ProcessHandleLeak"@, 0);
    }
    if i == 15 {
        reveal_strlit("ProcessHandleLeak");
        reveal_strlit("ServiceCrash");
        lemma_less_at("ProcessHandleLeak"@, "ServiceCrash"@, 0);
    }
    if i == 16 {
        reveal_strlit("ServiceCrash");
        reveal_strlit("ThermalThrottle");
        lemma_less_at("ServiceCrash"@, "ThermalThrottle"@, 0);
    }
    if i == 17 {
        reveal_strlit("ThermalThrottle");
        reveal_strlit("UiFrozen");
        lemma_less_at("ThermalThrottle"@, "UiFrozen"@, 0);
    }
}

proof fn lemma_ranks_ascend(i: int, j: int)
    requires
        0 <= i < j < KIND_COUNT,
    ensures
        text_less(kind_name(ranked_kind(i)), kind_name(ranked_kind(j))),
    decreases j - i,
{
    lemma_next_name(j - 1);
    if i < j - 1 {
        lemma_ranks_ascend(i, j - 1);
        lemma_text_order(kind_name(ranked_kind(i)), kind_name(ranked_kind(j - 1)), kind_name(ranked_kind(j)));
    }
}

/// Kinds rank as their names are ordered, and no two kinds share a name: a kind is found again by its
/// name.
pub proof fn lemma_name_ranks(a: CauseKind, b: CauseKind)
    ensures
        name_rank(a) < name_rank(b) <==> text_less(kind_name(a), kind_name(b)),
        kind_name(a) == kind_name(b) ==> a == b,
{
    let i = name_rank(a);
    let j = name_rank(b);
    assert(ranked_kind(i) == a && ranked_kind(j) == b);
    if i < j {
        lemma_ranks_ascend(i, j);
    } else if j < i {
        lemma_ranks_ascend(j, i);
    }
    lemma_text_order(kind_name(a), kind_name(b), kind_name(b));
}

/// A severity survives being stored and read back.
pub proof fn lemma_severity_survives(s: Severity)
    ensures
        severity_from(severity_word(s)) == s,
{
    reveal_strlit("minor");
    reveal_strlit("major");
    reveal_strlit("critical");
    assert("minor"@[1] == 'i');
    assert("major"@[1] == 'a');
    assert("critical"@.len() == 8);
}

} // verus!
