//! What cause texts and kinds of causes stand for.

use crate::cause::{
    key_of, kind_name, kind_of, lemma_first_prefix, lemma_known_prefix, pressure_kind, severity_word, software_kind, CauseKind,
    Severity,
};
use crate::labels::{label_of, severity_from};
use vstd::prelude::*;

verus! {

proof fn lemma_begins(front: Seq<char>, rest: Seq<char>)
    ensures
        front.is_prefix_of(front + rest),
{
    assert(front =~= (front + rest).subrange(0, front.len() as int));
}

/// The kind and the key of a cause go by how its text begins, whatever follows.
pub proof fn lemma_kinds_by_beginning(rest: Seq<char>)
    ensures
        kind_of("CPU usage"@ + rest) == Some(CauseKind::CpuHigh) && key_of("CPU usage"@ + rest) == "CPU usage"@,
        kind_of("CPU spike"@ + rest) == Some(CauseKind::CpuSpike) && key_of("CPU spike"@ + rest) == "CPU spike"@,
        kind_of("Disk write"@ + rest) == Some(CauseKind::DiskSpike) && key_of("Disk write"@ + rest) == "Disk write"@,
        kind_of("Disk busy"@ + rest) == Some(CauseKind::DiskBusy) && key_of("Disk busy"@ + rest) == "Disk busy"@,
        kind_of("DPC time"@ + rest) == Some(CauseKind::DpcInterrupt) && key_of("DPC time"@ + rest) == "DPC time"@,
        kind_of("Interrupt time"@ + rest) == Some(CauseKind::InterruptStorm) && key_of("Interrupt time"@ + rest) == "Interrupt time"@,
        kind_of("Context switches"@ + rest) == Some(CauseKind::ContextSwitchStorm) && key_of("Context switches"@ + rest) == "Context switches"@,
        kind_of("Thermal throttle"@ + rest) == Some(CauseKind::ThermalThrottle) && key_of("Thermal throttle"@ + rest) == "Thermal throttle"@,
        kind_of("UI frozen"@ + rest) == Some(CauseKind::UiFrozen) && key_of("UI frozen"@ + rest) == "UI frozen"@,
        kind_of("Network"@ + rest) == Some(CauseKind::NetSpike) && key_of("Network"@ + rest) == "Network"@,
        kind_of("Memory usage"@ + rest) == Some(CauseKind::MemLow) && key_of("Memory usage"@ + rest) == "Memory usage"@,
        kind_of("Memory available"@ + rest) == Some(CauseKind::MemLow) && key_of("Memory available"@ + rest) == "Memory available"@,
        kind_of("Available memory"@ + rest) == Some(CauseKind::MemLow) && key_of("Available memory"@ + rest) == "Available memory"@,
        kind_of("Commit charge"@ + rest) == Some(CauseKind::MemLow) && key_of("Commit charge"@ + rest) == "Commit charge"@,
        kind_of("Memory paging"@ + rest) == Some(CauseKind::MemLow) && key_of("Memory paging"@ + rest) == "Memory paging"@,
        kind_of("句柄泄漏"@ + rest) == Some(CauseKind::ProcessHandleLeak) && key_of("句柄泄漏"@ + rest) == "句柄泄漏"@,
        kind_of("句柄数偏高"@ + rest) == Some(CauseKind::HandleHigh) && key_of("句柄数偏高"@ + rest) == "句柄数偏高"@,
{
    lemma_begins("CPU usage"@, rest);
    lemma_known_prefix("CPU usage"@ + rest, 0);
    lemma_begins("CPU spike"@, rest);
    lemma_known_prefix("CPU spike"@ + rest, 1);
    lemma_begins("Disk write"@, rest);
    lemma_known_prefix("Disk write"@ + rest, 2);
    lemma_begins("Disk busy"@, rest);
    lemma_known_prefix("Disk busy"@ + rest, 3);
    lemma_begins("DPC time"@, rest);
    lemma_known_prefix("DPC time"@ + rest, 4);
    lemma_begins("Interrupt time"@, rest);
    lemma_known_prefix("Interrupt time"@ + rest, 5);
    lemma_begins("Context switches"@, rest);
    lemma_known_prefix("Context switches"@ + rest, 6);
    lemma_begins("Thermal throttle"@, rest);
    lemma_known_prefix("Thermal throttle"@ + rest, 7);
    lemma_begins("UI frozen"@, rest);
    lemma_known_prefix("UI frozen"@ + rest, 8);
    lemma_begins("Network"@, rest);
    lemma_known_prefix("Network"@ + rest, 9);
    lemma_begins("Memory usage"@, rest);
    lemma_known_prefix("Memory usage"@ + rest, 10);
    lemma_begins("Memory available"@, rest);
    lemma_known_prefix("Memory available"@ + rest, 11);
    lemma_begins("Available memory"@, rest);
    lemma_known_prefix("Available memory"@ + rest, 12);
    lemma_begins("Commit charge"@, rest);
    lemma_known_prefix("Commit charge"@ + rest, 13);
    lemma_begins("Memory paging"@, rest);
    lemma_known_prefix("Memory paging"@ + rest, 14);
    lemma_begins("句柄泄漏"@, rest);
    lemma_known_prefix("句柄泄漏"@ + rest, 15);
    lemma_begins("句柄数偏高"@, rest);
    lemma_known_prefix("句柄数偏高"@ + rest, 16);
}

/// A text that begins like no known cause has no kind, and is its own key.
pub proof fn lemma_unknown_causes(rest: Seq<char>)
    requires
        !"CPU usage"@.is_prefix_of(rest),
        !"CPU spike"@.is_prefix_of(rest),
        !"Disk write"@.is_prefix_of(rest),
        !"Disk busy"@.is_prefix_of(rest),
        !"DPC time"@.is_prefix_of(rest),
        !"Interrupt time"@.is_prefix_of(rest),
        !"Context switches"@.is_prefix_of(rest),
        !"Thermal throttle"@.is_prefix_of(rest),
        !"UI frozen"@.is_prefix_of(rest),
        !"Network"@.is_prefix_of(rest),
        !"Memory usage"@.is_prefix_of(rest),
        !"Memory available"@.is_prefix_of(rest),
        !"Available memory"@.is_prefix_of(rest),
        !"Commit charge"@.is_prefix_of(rest),
        !"Memory paging"@.is_prefix_of(rest),
        !"句柄泄漏"@.is_prefix_of(rest),
        !"句柄数偏高"@.is_prefix_of(rest),
    ensures
        kind_of(rest) is None,
        key_of(rest) == rest,
{
    lemma_first_prefix(rest, 0);
}

/// Throughput of network and disk is no pressure on the system; every other kind is.
pub proof fn lemma_pressure(k: CauseKind)
    ensures
        pressure_kind(k) <==> k != CauseKind::NetSpike && k != CauseKind::DiskSpike,
{
}

/// Leaks, many handles, drivers, services, disk errors and hardware are software causes; what a reading of a
/// resource raises is not.
pub proof fn lemma_software_or_resource(k: CauseKind)
    ensures
        !software_kind(k) <==> k == CauseKind::CpuHigh || k == CauseKind::CpuSpike || k == CauseKind::MemLow || k
            == CauseKind::DiskBusy || k == CauseKind::DiskSpike || k == CauseKind::GpuHigh || k == CauseKind::ThermalThrottle
            || k == CauseKind::DpcInterrupt || k == CauseKind::InterruptStorm || k == CauseKind::ContextSwitchStorm || k
            == CauseKind::NetSpike || k == CauseKind::UiFrozen,
{
}

/// A stored severity is read by its word; any word that is not a graver one reads as the lightest.
pub proof fn lemma_severity_words(word: Seq<char>)
    ensures
        severity_word(Severity::Minor) == "minor"@,
        severity_word(Severity::Major) == "major"@,
        severity_word(Severity::Critical) == "critical"@,
        severity_from(word) == Severity::Critical <==> word == "critical"@,
        severity_from(word) == Severity::Major <==> word == "major"@,
{
    reveal_strlit("major");
    reveal_strlit("critical");
    assert("major"@.len() == 5);
    assert("critical"@.len() == 8);
}

/// A kind is shown under one label and stored under one name, which is that of the kind itself.
pub proof fn lemma_labels_and_names(k: CauseKind)
    ensures
        match k {
            CauseKind::CpuHigh => label_of(k) == "CPU 占用高"@ && kind_name(k) == "CpuHigh"@,
            CauseKind::CpuSpike => label_of(k) == "CPU 突增"@ && kind_name(k) == "CpuSpike"@,
            CauseKind::MemLow => label_of(k) == "内存不足"@ && kind_name(k) == "MemLow"@,
            CauseKind::DiskBusy => label_of(k) == "磁盘繁忙"@ && kind_name(k) == "DiskBusy"@,
            CauseKind::DiskSpike => label_of(k) == "磁盘突增"@ && kind_name(k) == "DiskSpike"@,
            CauseKind::GpuHigh => label_of(k) == "GPU 占用高"@ && kind_name(k) == "GpuHigh"@,
            CauseKind::ThermalThrottle => label_of(k) == "温度降频"@ && kind_name(k) == "ThermalThrottle"@,
            CauseKind::DpcInterrupt => label_of(k) == "DPC 风暴"@ && kind_name(k) == "DpcInterrupt"@,
            CauseKind::InterruptStorm => label_of(k) == "中断风暴"@ && kind_name(k) == "InterruptStorm"@,
            CauseKind::ContextSwitchStorm => label_of(k) == "上下文切换风暴"@ && kind_name(k) == "ContextSwitchStorm"@,
            CauseKind::NetSpike => label_of(k) == "网络突增"@ && kind_name(k) == "NetSpike"@,
            CauseKind::UiFrozen => label_of(k) == "界面冻结"@ && kind_name(k) == "UiFrozen"@,
            CauseKind::ProcessHandleLeak => label_of(k) == "句柄泄漏"@ && kind_name(k) == "ProcessHandleLeak"@,
            CauseKind::HandleHigh => label_of(k) == "句柄数偏高"@ && kind_name(k) == "HandleHigh"@,
            CauseKind::GdiObjectLeak => label_of(k) == "GDI 对象泄漏"@ && kind_name(k) == "GdiObjectLeak"@,
            CauseKind::DriverTimeout => label_of(k) == "驱动超时"@ && kind_name(k) == "DriverTimeout"@,
            CauseKind::ServiceCrash => label_of(k) == "服务崩溃"@ && kind_name(k) == "ServiceCrash"@,
            CauseKind::DiskIoError => label_of(k) == "磁盘 I/O 错误"@ && kind_name(k) == "DiskIoError"@,
            CauseKind::HardwareError => label_of(k) == "硬件错误"@ && kind_name(k) == "HardwareError"@,
        },
{
}

} // verus!
