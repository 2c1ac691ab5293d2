//! The settings of the monitor and their defaults.

use crate::level::Level;
use vstd::prelude::*;

verus! {

/// The numeric lines of the detector.
///
/// A signal with hysteresis has two lines: it starts above one and ends below the other.
#[derive(Clone, Copy, Debug, PartialEq, Eq)]
pub struct Lines {
    /// CPU use above which the signal starts.
    pub cpu_threshold: Level,
    /// CPU use below which it ends: the threshold less the hysteresis.
    pub cpu_exit: Level,
    /// Memory use above which the water mark is crossed.
    pub mem_threshold_percent: Level,
    /// Memory use at or below which it may end.
    pub mem_exit_percent: Level,
    /// Available memory below which the water mark is crossed.
    pub mem_threshold_mb: u64,
    /// Available memory at or above which it may end.
    pub mem_available_exit_mb: u64,
    /// After how long a steady water mark stops being reported.
    pub mem_chronic_seconds: u32,
    /// Commit charge above which there is evidence of memory pressure.
    pub commit_threshold_percent: Level,
    /// Page reads per second above which paging counts, given evidence of pressure.
    pub page_reads_threshold: Level,
    /// Kept for what-if runs; the detector does not read it.
    pub disk_rate_spike_ratio: Level,
    /// Rise over the baseline, as a multiple of it, above which a sample is a spike.
    pub spike_ratio: Level,
    /// Average rise below which a spike ends: half the ratio.
    pub spike_release: Level,
    /// CPU use below which no sample is a spike.
    pub spike_min_cpu_percent: Level,
    /// Network rate below which no sample is a spike.
    pub spike_min_bps: Level,
    /// How long a stutter lasts at least to be recorded.
    pub sustained_seconds: u32,
    /// Disk time above which the disk is busy.
    pub disk_busy_threshold_percent: Level,
    /// Disk time below which it may calm down.
    pub disk_busy_exit: Level,
    /// Transfer time above which the disk is busy.
    pub disk_io_threshold_ms: Level,
    /// Transfer time below which it may calm down.
    pub disk_io_exit: Level,
    /// DPC time above which the signal starts.
    pub dpc_threshold_percent: Level,
    /// DPC time below which it ends.
    pub dpc_exit: Level,
    /// Interrupt time above which the signal starts.
    pub interrupt_threshold_percent: Level,
    /// Interrupt time below which it ends.
    pub interrupt_exit: Level,
    /// Context switches per second above which the signal starts.
    pub context_switch_threshold_per_sec: Level,
    /// Context switches per second below which it ends.
    pub context_switch_exit: Level,
    /// Context switches per second and core that a recount of an event asks for.
    pub context_switch_threshold_per_core: Level,
    /// CPU use from which context switches count as pressure in a recount.
    pub evidence_cpu_percent: Level,
    /// How long the foreground window may take to answer.
    pub ui_freeze_timeout_ms: u32,
    /// Temperature above which a lowered clock is throttling.
    pub thermal_threshold_celsius: Level,
    /// Share of the peak clock below which the clock counts as lowered.
    pub thermal_freq_drop_ratio: Level,
    /// Factor by which the remembered peak clock fades with each reading.
    pub thermal_freq_peak_decay: Level,
    /// How long a signal may be held by hysteresis alone.
    pub hysteresis_hold_max_secs: u32,
    /// A longer gap between ticks is an interruption of the sampling.
    pub max_tick_gap_secs: u32,
    /// Handles above which a process is looked at for a leak.
    pub handle_leak_threshold: u32,
    /// Growth of the mean handle count that is a leak.
    pub handle_leak_growth_threshold: u32,
    /// GDI and USER objects above which a process leaks them.
    pub gdi_leak_threshold: u32,
}

/// The default lines.
pub open spec fn default_lines() -> Lines {
    Lines {
        cpu_threshold: Level::At(0x4056_8000_0000_0000),
        cpu_exit: Level::At(0x4054_0000_0000_0000),
        mem_threshold_percent: Level::At(0x4056_8000_0000_0000),
        mem_exit_percent: Level::At(0x4055_4000_0000_0000),
        mem_threshold_mb: 500,
        mem_available_exit_mb: 600,
        mem_chronic_seconds: 300,
        commit_threshold_percent: Level::At(0x4056_8000_0000_0000),
        page_reads_threshold: Level::At(0x4072_c000_0000_0000),
        disk_rate_spike_ratio: Level::At(0x4024_0000_0000_0000),
        spike_ratio: Level::At(0x4008_0000_0000_0000),
        spike_release: Level::At(0x3ff8_0000_0000_0000),
        spike_min_cpu_percent: Level::At(0x4049_0000_0000_0000),
        spike_min_bps: Level::At(0x413e_8480_0000_0000),
        sustained_seconds: 3,
        disk_busy_threshold_percent: Level::At(0x4057_c000_0000_0000),
        disk_busy_exit: Level::At(0x4047_c000_0000_0000),
        disk_io_threshold_ms: Level::At(0x4049_0000_0000_0000),
        disk_io_exit: Level::At(0x4039_0000_0000_0000),
        dpc_threshold_percent: Level::At(0x4024_0000_0000_0000),
        dpc_exit: Level::At(0x4014_0000_0000_0000),
        interrupt_threshold_percent: Level::At(0x4024_0000_0000_0000),
        interrupt_exit: Level::At(0x4014_0000_0000_0000),
        context_switch_threshold_per_sec: Level::At(0x40e8_6a00_0000_0000),
        context_switch_exit: Level::At(0x40d8_6a00_0000_0000),
        context_switch_threshold_per_core: Level::At(0x40c3_8800_0000_0000),
        evidence_cpu_percent: Level::At(0x4054_0000_0000_0000),
        ui_freeze_timeout_ms: 200,
        thermal_threshold_celsius: Level::At(0x4055_4000_0000_0000),
        thermal_freq_drop_ratio: Level::At(0x3feb_3333_4000_0000),
        thermal_freq_peak_decay: Level::At(0x3fef_d70a_4000_0000),
        hysteresis_hold_max_secs: 30,
        max_tick_gap_secs: 30,
        handle_leak_threshold: 10000,
        handle_leak_growth_threshold: 2000,
        gdi_leak_threshold: 10000,
    }
}

impl Default for Lines {
    fn default() -> (r: Lines)
        ensures
            r == default_lines(),
    {
        Lines {
            cpu_threshold: Level::At(0x4056_8000_0000_0000),
            cpu_exit: Level::At(0x4054_0000_0000_0000),
            mem_threshold_percent: Level::At(0x4056_8000_0000_0000),
            mem_exit_percent: Level::At(0x4055_4000_0000_0000),
            mem_threshold_mb: 500,
            mem_available_exit_mb: 600,
            mem_chronic_seconds: 300,
            commit_threshold_percent: Level::At(0x4056_8000_0000_0000),
            page_reads_threshold: Level::At(0x4072_c000_0000_0000),
            disk_rate_spike_ratio: Level::At(0x4024_0000_0000_0000),
            spike_ratio: Level::At(0x4008_0000_0000_0000),
            spike_release: Level::At(0x3ff8_0000_0000_0000),
            spike_min_cpu_percent: Level::At(0x4049_0000_0000_0000),
            spike_min_bps: Level::At(0x413e_8480_0000_0000),
            sustained_seconds: 3,
            disk_busy_threshold_percent: Level::At(0x4057_c000_0000_0000),
            disk_busy_exit: Level::At(0x4047_c000_0000_0000),
            disk_io_threshold_ms: Level::At(0x4049_0000_0000_0000),
            disk_io_exit: Level::At(0x4039_0000_0000_0000),
            dpc_threshold_percent: Level::At(0x4024_0000_0000_0000),
            dpc_exit: Level::At(0x4014_0000_0000_0000),
            interrupt_threshold_percent: Level::At(0x4024_0000_0000_0000),
            interrupt_exit: Level::At(0x4014_0000_0000_0000),
            context_switch_threshold_per_sec: Level::At(0x40e8_6a00_0000_0000),
            context_switch_exit: Level::At(0x40d8_6a00_0000_0000),
            context_switch_threshold_per_core: Level::At(0x40c3_8800_0000_0000),
            evidence_cpu_percent: Level::At(0x4054_0000_0000_0000),
            ui_freeze_timeout_ms: 200,
            thermal_threshold_celsius: Level::At(0x4055_4000_0000_0000),
            thermal_freq_drop_ratio: Level::At(0x3feb_3333_4000_0000),
            thermal_freq_peak_decay: Level::At(0x3fef_d70a_4000_0000),
            hysteresis_hold_max_secs: 30,
            max_tick_gap_secs: 30,
            handle_leak_threshold: 10000,
            handle_leak_growth_threshold: 2000,
            gdi_leak_threshold: 10000,
        }
    }
}

/// How lines are written in cause texts.
#[derive(Debug)]
pub struct LineTexts {
    pub cpu_threshold: String,
    pub mem_threshold_percent: String,
    pub page_reads_threshold: String,
    pub dpc_threshold_percent: String,
    pub interrupt_threshold_percent: String,
    pub context_switch_threshold_per_sec: String,
    pub context_switch_threshold_per_core: String,
}

/// What [`LineTexts`] holds.
pub struct LineTextsModel {
    pub cpu_threshold: Seq<char>,
    pub mem_threshold_percent: Seq<char>,
    pub page_reads_threshold: Seq<char>,
    pub dpc_threshold_percent: Seq<char>,
    pub interrupt_threshold_percent: Seq<char>,
    pub context_switch_threshold_per_sec: Seq<char>,
    pub context_switch_threshold_per_core: Seq<char>,
}

impl View for LineTexts {
    type V = LineTextsModel;

    open spec fn view(&self) -> LineTextsModel {
        LineTextsModel {
            cpu_threshold: self.cpu_threshold@,
            mem_threshold_percent: self.mem_threshold_percent@,
            page_reads_threshold: self.page_reads_threshold@,
            dpc_threshold_percent: self.dpc_threshold_percent@,
            interrupt_threshold_percent: self.interrupt_threshold_percent@,
            context_switch_threshold_per_sec: self.context_switch_threshold_per_sec@,
            context_switch_threshold_per_core: self.context_switch_threshold_per_core@,
        }
    }
}

/// How the default lines are written.
pub open spec fn default_line_texts() -> LineTextsModel {
    LineTextsModel {
        cpu_threshold: "90"@,
        mem_threshold_percent: "90"@,
        page_reads_threshold: "300"@,
        dpc_threshold_percent: "10"@,
        interrupt_threshold_percent: "10"@,
        context_switch_threshold_per_sec: "50000"@,
        context_switch_threshold_per_core: "10000"@,
    }
}

impl Default for LineTexts {
    fn default() -> (r: LineTexts)
        ensures
            r@ == default_line_texts(),
    {
        LineTexts {
            cpu_threshold: String::from_str("90"),
            mem_threshold_percent: String::from_str("90"),
            page_reads_threshold: String::from_str("300"),
            dpc_threshold_percent: String::from_str("10"),
            interrupt_threshold_percent: String::from_str("10"),
            context_switch_threshold_per_sec: String::from_str("50000"),
            context_switch_threshold_per_core: String::from_str("10000"),
        }
    }
}

/// The detector's settings.
#[derive(Debug)]
pub struct DetectionConfig {
    pub lines: Lines,
    pub texts: LineTexts,
}

/// What a [`DetectionConfig`] holds.
pub struct DetectionModel {
    pub lines: Lines,
    pub texts: LineTextsModel,
}

impl View for DetectionConfig {
    type V = DetectionModel;

    open spec fn view(&self) -> DetectionModel {
        DetectionModel { lines: self.lines, texts: self.texts@ }
    }
}

/// The default settings of the detector.
pub open spec fn default_detection() -> DetectionModel {
    DetectionModel { lines: default_lines(), texts: default_line_texts() }
}

impl Default for DetectionConfig {
    fn default() -> (r: DetectionConfig)
        ensures
            r@ == default_detection(),
    {
        DetectionConfig { lines: Lines::default(), texts: LineTexts::default() }
    }
}

impl DetectionConfig {
    /// A copy.
    pub fn copy(&self) -> (r: DetectionConfig)
        ensures
            r@ == self@,
    {
        DetectionConfig {
            lines: self.lines,
            texts: LineTexts {
                cpu_threshold: self.texts.cpu_threshold.clone(),
                mem_threshold_percent: self.texts.mem_threshold_percent.clone(),
                page_reads_threshold: self.texts.page_reads_threshold.clone(),
                dpc_threshold_percent: self.texts.dpc_threshold_percent.clone(),
                interrupt_threshold_percent: self.texts.interrupt_threshold_percent.clone(),
                context_switch_threshold_per_sec: self.texts.context_switch_threshold_per_sec.clone(),
                context_switch_threshold_per_core: self.texts.context_switch_threshold_per_core.clone(),
            },
        }
    }
}

/// How often samples are taken.
#[derive(Debug)]
pub struct SamplingConfig {
    pub interval_ms: u64,
    pub slow_interval_factor: u32,
}

impl Default for SamplingConfig {
    fn default() -> (r: SamplingConfig)
        ensures
            r.interval_ms == 1000,
            r.slow_interval_factor == 5,
    {
        SamplingConfig { interval_ms: 1000, slow_interval_factor: 5 }
    }
}

/// Where samples and events are stored and for how long.
#[derive(Debug)]
pub struct StorageConfig {
    pub db_path: String,
    pub retention_days: u32,
    /// Events are kept for their own number of days.
    pub event_retention_days: u32,
    /// Samples older than this are thinned to one a minute; zero keeps them all.
    pub hot_retention_days: u32,
}

impl Default for StorageConfig {
    fn default() -> (r: StorageConfig)
        ensures
            r.db_path@ == "stutter.db"@,
            r.retention_days == 30,
            r.event_retention_days == 7,
            r.hot_retention_days == 7,
    {
        StorageConfig {
            db_path: String::from_str("stutter.db"),
            retention_days: 30,
            event_retention_days: 7,
            hot_retention_days: 7,
        }
    }
}

/// What the overlay shows.
#[derive(Debug)]
pub struct UiConfig {
    pub skin: String,
    pub always_on_top: bool,
    pub show_upload: bool,
    pub show_download: bool,
    pub show_cpu: bool,
    pub show_memory: bool,
    pub show_gpu: bool,
    pub show_disk: bool,
    pub show_cpu_freq: bool,
    pub show_temperature: bool,
    pub mouse_transparent: bool,
    pub click_through: bool,
    pub auto_start_service: bool,
    pub taskbar: bool,
    /// Rows of the process page above this share are marked.
    pub process_highlight_pct: Level,
    pub process_refresh_ms: u64,
}

impl Default for UiConfig {
    fn default() -> (r: UiConfig)
        ensures
            r.skin@ == "default"@,
            r.always_on_top && r.show_upload && r.show_download && r.show_cpu && r.show_memory && r.show_gpu
                && r.show_disk && r.auto_start_service,
            !r.show_cpu_freq && !r.show_temperature && !r.mouse_transparent && !r.click_through && !r.taskbar,
            r.process_highlight_pct == Level::At(0x403e_0000_0000_0000),
            r.process_refresh_ms == 30_000,
    {
        UiConfig {
            skin: String::from_str("default"),
            always_on_top: true,
            show_upload: true,
            show_download: true,
            show_cpu: true,
            show_memory: true,
            show_gpu: true,
            show_disk: true,
            show_cpu_freq: false,
            show_temperature: false,
            mouse_transparent: false,
            click_through: false,
            auto_start_service: true,
            taskbar: false,
            process_highlight_pct: Level::At(0x403e_0000_0000_0000),
            process_refresh_ms: 30_000,
        }
    }
}

/// Which stutters raise a notification.
#[derive(Debug)]
pub struct NotificationConfig {
    pub stutter_alert: bool,
    pub min_severity: String,
}

impl Default for NotificationConfig {
    fn default() -> (r: NotificationConfig)
        ensures
            r.stutter_alert,
            r.min_severity@ == "major"@,
    {
        NotificationConfig { stutter_alert: true, min_severity: String::from_str("major") }
    }
}

/// How much is logged.
#[derive(Debug)]
pub struct LoggingConfig {
    pub level: String,
}

impl Default for LoggingConfig {
    fn default() -> (r: LoggingConfig)
        ensures
            r.level@ == "info"@,
    {
        LoggingConfig { level: String::from_str("info") }
    }
}

/// All settings.
#[derive(Debug)]
pub struct Config {
    pub sampling: SamplingConfig,
    pub detection: DetectionConfig,
    pub ui: UiConfig,
    pub storage: StorageConfig,
    pub notifications: NotificationConfig,
    pub logging: LoggingConfig,
}

impl Default for Config {
    fn default() -> (r: Config)
        ensures
            r.sampling.interval_ms == 1000,
            r.sampling.slow_interval_factor == 5,
            r.detection@ == default_detection(),
            r.ui.skin@ == "default"@,
            r.ui.process_highlight_pct == Level::At(0x403e_0000_0000_0000),
            r.ui.process_refresh_ms == 30_000,
            r.ui.always_on_top && r.ui.show_upload && r.ui.show_download && r.ui.show_cpu && r.ui.show_memory
                && r.ui.show_gpu && r.ui.show_disk && r.ui.auto_start_service,
            !r.ui.show_cpu_freq && !r.ui.show_temperature && !r.ui.mouse_transparent && !r.ui.click_through
                && !r.ui.taskbar,
            r.storage.db_path@ == "stutter.db"@,
            r.storage.retention_days == 30,
            r.storage.event_retention_days == 7,
            r.storage.hot_retention_days == 7,
            r.notifications.stutter_alert,
            r.notifications.min_severity@ == "major"@,
            r.logging.level@ == "info"@,
    {
        Config {
            sampling: SamplingConfig::default(),
            detection: DetectionConfig::default(),
            ui: UiConfig::default(),
            storage: StorageConfig::default(),
            notifications: NotificationConfig::default(),
            logging: LoggingConfig::default(),
        }
    }
}

} // verus!
