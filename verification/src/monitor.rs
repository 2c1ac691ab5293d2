//! The monitor: the detector together with what is gathered for the root causes of its events.

use crate::cause::{EventModel, StutterEvent};
use crate::config::{DetectionConfig, DetectionModel};
use crate::detector::{fresh, tick, Clock, Detector, DetectorModel, Figures};
use crate::software_root_cause::{
    count_lists, enrich_software_causes, merge_software_causes, merged_event, record_handles, software_causes, with_counts,
    LeakLimits, WindowsEventRecord,
};
use crate::types::{briefs, Sample, SampleModel};
use std::collections::HashMap;
use vstd::prelude::*;

verus! {

/// The monitor.
#[derive(Debug)]
pub struct Monitor {
    detector: Detector,
    /// The handle counts of each process since the last event.
    handles: HashMap<u32, Vec<u32>>,
}

/// What a [`Monitor`] holds.
pub struct MonitorModel {
    pub detector: DetectorModel,
    pub handles: Map<u32, Seq<u32>>,
}

impl View for Monitor {
    type V = MonitorModel;

    closed spec fn view(&self) -> MonitorModel {
        MonitorModel { detector: self.detector@, handles: count_lists(self.handles@) }
    }
}

/// The leak thresholds of settings.
pub open spec fn leak_limits(config: DetectionModel) -> LeakLimits {
    LeakLimits {
        handles: config.lines.handle_leak_threshold,
        handle_growth: config.lines.handle_leak_growth_threshold,
        gdi: config.lines.gdi_leak_threshold,
    }
}

/// An event with the software causes that its culprits and the event log show.
pub open spec fn concluded(m: MonitorModel, e: EventModel, records: Seq<WindowsEventRecord>) -> EventModel {
    merged_event(e, software_causes(e.culprits, records, m.handles, leak_limits(m.detector.config)))
}

/// One tick of a monitor: the next state, and the event of a stutter that ends with it.
pub open spec fn monitored(m: MonitorModel, sample: SampleModel, f: Figures, now: Clock, frozen: bool) -> (
    MonitorModel,
    Option<EventModel>,
) {
    let (next, e) = tick(m.detector, sample, f, now, frozen);
    (
        MonitorModel {
            detector: next,
            handles: with_counts(m.handles, sample.top_processes, sample.top_processes.len() as int),
        },
        e,
    )
}

/// A monitor once an event was concluded.
pub open spec fn cleared(m: MonitorModel) -> MonitorModel {
    MonitorModel { handles: Map::empty(), ..m }
}

impl Monitor {
    /// A monitor that has seen nothing.
    pub fn new(config: &DetectionConfig) -> (m: Monitor)
        ensures
            m@ == (MonitorModel { detector: fresh(config@), handles: Map::empty() }),
    {
        let m = Monitor { detector: Detector::new(config), handles: HashMap::new() };
        proof {
            assert(m@.handles =~= Map::<u32, Seq<u32>>::empty());
        }
        m
    }

    /// The detector.
    pub fn detector(&self) -> (d: &Detector)
        ensures
            d@ == self@.detector,
    {
        &self.detector
    }

    /// One tick: notes the handle counts of a sample and gives the stutter that ends with it, if one
    /// does.
    pub fn observe(&mut self, sample: &Sample, f: &Figures, now: Clock, frozen: bool) -> (event: Option<StutterEvent>)
        ensures
            ({
                let (next, e) = tick(old(self)@.detector, sample@, *f, now, frozen);
                &&& final(self)@ == (MonitorModel {
                    detector: next,
                    handles: with_counts(
                        old(self)@.handles,
                        briefs(sample.top_processes@),
                        sample.top_processes@.len() as int,
                    ),
                })
                &&& match event {
                    Some(x) => e == Some(x@),
                    None => e is None,
                }
            }),
            ({
                let (next, e) = monitored(old(self)@, sample@, *f, now, frozen);
                &&& final(self)@ == next
                &&& match event {
                    Some(x) => e == Some(x@),
                    None => e is None,
                }
            }),
    {
        record_handles(&mut self.handles, &sample.top_processes);
        self.detector.analyze(sample, f, now, frozen)
    }

    /// Ends an event: it takes in the software causes, and the handle counts are forgotten.
    pub fn conclude(&mut self, event: StutterEvent, records: &Vec<WindowsEventRecord>) -> (r: StutterEvent)
        ensures
            r@ == concluded(old(self)@, event@, records@),
            final(self)@ == (MonitorModel { handles: Map::empty(), ..old(self)@ }),
            final(self)@ == cleared(old(self)@),
    {
        let lines = self.detector.config().lines;
        let causes = enrich_software_causes(
            &event.culprits,
            records,
            &self.handles,
            lines.handle_leak_threshold,
            lines.handle_leak_growth_threshold,
            lines.gdi_leak_threshold,
        );
        self.handles.clear();
        proof {
            assert(count_lists(self.handles@) =~= Map::<u32, Seq<u32>>::empty());
        }
        merge_software_causes(event, causes)
    }
}

} // verus!
