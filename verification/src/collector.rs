//! The collector: the registry of the metrics, their states, the units and
//! the properties.

use crate::emf::Unit;
use crate::labels::Label;
use crate::model::{
    wrapped_sum, CollectorModel, ConfigModel, GroupModel, MetricKind, MetricModel, Recorded,
    MAX_HISTOGRAM_VALUES,
};
use crate::name_map::NameMap;
use crate::preserve::{
    lemma_counter_add_wf, lemma_describe_wf, lemma_gauge_set_wf, lemma_histogram_record_wf,
    lemma_remove_property_wf, lemma_set_property_wf,
};
use crate::value::JsonValue;
use vstd::prelude::*;

verus! {

/// What a collector is made with.
#[derive(Debug)]
pub struct Config {
    /// The namespace of every document.
    pub cloudwatch_namespace: String,
    /// The dimensions of every document, before those of the labels.
    pub default_dimensions: Vec<(String, String)>,
    /// The time of every document, where it is not the time of the flush.
    pub timestamp: Option<u64>,
    /// Whether a counter is listed when nothing was added to it.
    pub emit_zeros: bool,
    /// The name of the metric that announces a cold start.
    pub lambda_cold_start: Option<String>,
    /// The name of the property that holds the request's identifier.
    pub lambda_request_id: Option<String>,
    /// The name of the property that holds the request's trace identifier.
    pub lambda_xray_trace_id: Option<String>,
}

impl View for Config {
    type V = ConfigModel;

    open spec fn view(&self) -> ConfigModel {
        ConfigModel {
            cloudwatch_namespace: self.cloudwatch_namespace@,
            default_dimensions: self.default_dimensions.deep_view(),
            timestamp: self.timestamp,
            emit_zeros: self.emit_zeros,
            lambda_cold_start: self.lambda_cold_start.deep_view(),
            lambda_request_id: self.lambda_request_id.deep_view(),
            lambda_xray_trace_id: self.lambda_xray_trace_id.deep_view(),
        }
    }
}

/// The state of one metric.
#[derive(Debug)]
pub(crate) enum MetricState {
    Counter(u64),
    Gauge(u64),
    Histogram(Vec<u64>),
}

impl View for MetricState {
    type V = MetricModel;

    open(crate) spec fn view(&self) -> MetricModel {
        match self {
            MetricState::Counter(v) => MetricModel::Counter(*v),
            MetricState::Gauge(bits) => MetricModel::Gauge(*bits),
            MetricState::Histogram(samples) => MetricModel::Histogram(samples@),
        }
    }
}

impl MetricState {
    pub(crate) fn initial(kind: MetricKind) -> (r: MetricState)
        ensures
            r@ == MetricModel::initial(kind),
    {
        match kind {
            MetricKind::Counter => MetricState::Counter(0),
            MetricKind::Gauge => MetricState::Gauge(0),
            MetricKind::Histogram => MetricState::Histogram(Vec::new()),
        }
    }

    pub(crate) fn kind(&self) -> (r: MetricKind)
        ensures
            r == self@.kind(),
    {
        match self {
            MetricState::Counter(_) => MetricKind::Counter,
            MetricState::Gauge(_) => MetricKind::Gauge,
            MetricState::Histogram(_) => MetricKind::Histogram,
        }
    }
}

/// The metrics registered under one label set.
#[derive(Debug)]
pub(crate) struct Group {
    pub(crate) key: Vec<Label>,
    pub(crate) labels: Vec<Label>,
    pub(crate) metrics: NameMap<usize>,
}

impl View for Group {
    type V = GroupModel;

    open(crate) spec fn view(&self) -> GroupModel {
        GroupModel {
            key: self.key.deep_view(),
            labels: self.labels.deep_view(),
            metrics: self.metrics@,
        }
    }
}

/// The handle of a counter. One that does nothing has no slot.
#[derive(Clone, Copy, Debug)]
pub struct CounterHandle {
    pub(crate) slot: Option<usize>,
}

/// The handle of a gauge. One that does nothing has no slot.
#[derive(Clone, Copy, Debug)]
pub struct GaugeHandle {
    pub(crate) slot: Option<usize>,
}

/// The handle of a histogram. One that does nothing has no slot.
#[derive(Clone, Copy, Debug)]
pub struct HistogramHandle {
    pub(crate) slot: Option<usize>,
}

impl View for CounterHandle {
    type V = Option<usize>;

    open(crate) spec fn view(&self) -> Option<usize> {
        self.slot
    }
}

impl View for GaugeHandle {
    type V = Option<usize>;

    open(crate) spec fn view(&self) -> Option<usize> {
        self.slot
    }
}

impl View for HistogramHandle {
    type V = Option<usize>;

    open(crate) spec fn view(&self) -> Option<usize> {
        self.slot
    }
}

impl CounterHandle {
    /// The place of the metric's state in the collector; none for a handle
    /// that does nothing.
    pub fn slot(&self) -> (r: Option<usize>)
        ensures
            r == self@,
    {
        self.slot
    }

    /// The handle that does nothing.
    pub fn noop() -> (r: CounterHandle)
        ensures
            r@ is None,
    {
        CounterHandle { slot: None }
    }

    /// Whether the handle does nothing.
    pub fn is_noop(&self) -> (r: bool)
        ensures
            r == (self@ is None),
    {
        self.slot.is_none()
    }
}

impl GaugeHandle {
    /// The place of the metric's state in the collector; none for a handle
    /// that does nothing.
    pub fn slot(&self) -> (r: Option<usize>)
        ensures
            r == self@,
    {
        self.slot
    }

    /// The handle that does nothing.
    pub fn noop() -> (r: GaugeHandle)
        ensures
            r@ is None,
    {
        GaugeHandle { slot: None }
    }

    /// Whether the handle does nothing.
    pub fn is_noop(&self) -> (r: bool)
        ensures
            r == (self@ is None),
    {
        self.slot.is_none()
    }
}

impl HistogramHandle {
    /// The place of the metric's state in the collector; none for a handle
    /// that does nothing.
    pub fn slot(&self) -> (r: Option<usize>)
        ensures
            r == self@,
    {
        self.slot
    }

    /// The handle that does nothing.
    pub fn noop() -> (r: HistogramHandle)
        ensures
            r@ is None,
    {
        HistogramHandle { slot: None }
    }

    /// Whether the handle does nothing.
    pub fn is_noop(&self) -> (r: bool)
        ensures
            r == (self@ is None),
    {
        self.slot.is_none()
    }
}

/// Collects counters, gauges and histograms, and writes them out as documents.
#[derive(Debug)]
pub struct Collector {
    pub(crate) config: Config,
    pub(crate) groups: Vec<Group>,
    pub(crate) slots: Vec<MetricState>,
    pub(crate) units: NameMap<Unit>,
    pub(crate) properties: NameMap<JsonValue>,
    pub(crate) cold_start_pending: bool,
    pub(crate) cold_start_active: bool,
}

/// The models of `groups`.
pub(crate) open spec fn group_models(groups: Seq<Group>) -> Seq<GroupModel> {
    Seq::new(groups.len(), |i: int| groups[i]@)
}

/// The models of `slots`.
pub(crate) open spec fn slot_models(slots: Seq<MetricState>) -> Seq<MetricModel> {
    Seq::new(slots.len(), |i: int| slots[i]@)
}

impl View for Collector {
    type V = CollectorModel;

    open(crate) spec fn view(&self) -> CollectorModel {
        CollectorModel {
            config: self.config@,
            groups: group_models(self.groups@),
            slots: slot_models(self.slots@),
            units: self.units@,
            properties: self.properties@,
            cold_start_pending: self.cold_start_pending,
            cold_start_active: self.cold_start_active,
        }
    }
}

impl Collector {
    /// The invariant of a collector.
    pub open spec fn wf(&self) -> bool {
        self@.wf()
    }

    /// A collector with no metric, no unit and no property.
    pub fn new(config: Config) -> (r: Collector)
        ensures
            r.wf(),
            r@.config == config@,
            r@.groups.len() == 0,
            r@.slots.len() == 0,
            r@.units.len() == 0,
            r@.properties.len() == 0,
            r@.cold_start_pending,
            r@.cold_start_active,
    {
        Collector {
            config,
            groups: Vec::new(),
            slots: Vec::new(),
            units: NameMap::new(),
            properties: NameMap::new(),
            cold_start_pending: true,
            cold_start_active: true,
        }
    }

    /// What the collector was made with.
    pub fn config(&self) -> (r: &Config)
        ensures
            r@ == self@.config,
    {
        &self.config
    }

    /// The number of label sets under which a metric is registered.
    pub fn label_set_count(&self) -> (r: usize)
        ensures
            r == self@.groups.len(),
    {
        self.groups.len()
    }

    /// The number of registered metrics.
    pub fn metric_count(&self) -> (r: usize)
        ensures
            r == self@.slots.len(),
    {
        self.slots.len()
    }

    /// The time that a flush at `now` writes, in milliseconds since the epoch:
    /// the configured one if there is one.
    pub fn timestamp(&self, now: u64) -> (r: u64)
        ensures
            r == self@.timestamp(now),
    {
        match self.config.timestamp {
            Some(t) => t,
            None => now,
        }
    }

    /// Adds `delta` to a counter. The sum wraps at 2^64. A handle that does
    /// nothing, or that is not of this collector, changes nothing.
    pub fn counter_add(&mut self, handle: &CounterHandle, delta: u64)
        requires
            old(self).wf(),
        ensures
            final(self).wf(),
            final(self)@ == old(self)@.counter_add(handle@, delta),
    {
        proof {
            lemma_counter_add_wf(self@, handle@, delta);
        }
        if let Some(s) = handle.slot {
            if s < self.slots.len() {
                if let MetricState::Counter(v) = self.slots[s] {
                    let sum = if delta <= u64::MAX - v {
                        v + delta
                    } else {
                        delta - (u64::MAX - v) - 1
                    };
                    assert(sum == wrapped_sum(v, delta));
                    self.slots.set(s, MetricState::Counter(sum));
                    assert(self@.slots =~= old(self)@.counter_add(handle@, delta).slots);
                }
            }
        }
    }

    /// What was added to a counter since the last flush, if the handle is one
    /// of a counter of this collector.
    pub fn counter_value(&self, handle: &CounterHandle) -> (r: Option<u64>)
        ensures
            r == if self@.holds_kind(handle@, MetricKind::Counter) {
                Some(self@.slots[handle@->0 as int]->Counter_0)
            } else {
                None
            },
    {
        if let Some(s) = handle.slot {
            if s < self.slots.len() {
                if let MetricState::Counter(v) = self.slots[s] {
                    return Some(v);
                }
            }
        }
        None
    }

    /// Sets a gauge to the value with the given bits. A handle that does
    /// nothing, or that is not of this collector, changes nothing.
    pub fn gauge_set(&mut self, handle: &GaugeHandle, bits: u64)
        requires
            old(self).wf(),
        ensures
            final(self).wf(),
            final(self)@ == old(self)@.gauge_set(handle@, bits),
    {
        proof {
            lemma_gauge_set_wf(self@, handle@, bits);
        }
        if let Some(s) = handle.slot {
            if s < self.slots.len() {
                if let MetricState::Gauge(_) = self.slots[s] {
                    self.slots.set(s, MetricState::Gauge(bits));
                    assert(self@.slots =~= old(self)@.gauge_set(handle@, bits).slots);
                }
            }
        }
    }

    /// The bits of the value of a gauge, if the handle is one of a gauge of
    /// this collector.
    pub fn gauge_value(&self, handle: &GaugeHandle) -> (r: Option<u64>)
        ensures
            r == if self@.holds_kind(handle@, MetricKind::Gauge) {
                Some(self@.slots[handle@->0 as int]->Gauge_0)
            } else {
                None
            },
    {
        if let Some(s) = handle.slot {
            if s < self.slots.len() {
                if let MetricState::Gauge(bits) = self.slots[s] {
                    return Some(bits);
                }
            }
        }
        None
    }

    /// Hands the sample with the given bits to a histogram. A histogram that
    /// is full drops the sample; a handle that does nothing, or that is not of
    /// this collector, changes nothing.
    pub fn histogram_record(&mut self, handle: &HistogramHandle, bits: u64) -> (r: Recorded)
        requires
            old(self).wf(),
        ensures
            final(self).wf(),
            r == old(self)@.histogram_recorded(handle@),
            final(self)@ == old(self)@.histogram_record(handle@, bits),
    {
        proof {
            lemma_histogram_record_wf(self@, handle@, bits);
        }
        if let Some(s) = handle.slot {
            if s < self.slots.len() {
                let room = match &self.slots[s] {
                    MetricState::Histogram(samples) => Some(samples.len() < MAX_HISTOGRAM_VALUES),
                    _ => None,
                };
                match room {
                    Some(true) => {
                        if let MetricState::Histogram(samples) = &mut self.slots[s] {
                            samples.push(bits);
                        }
                        assert(self@.slots =~= old(self)@.histogram_record(handle@, bits).slots);
                        return Recorded::Kept;
                    },
                    Some(false) => {
                        return Recorded::Dropped;
                    },
                    None => {},
                }
            }
        }
        Recorded::Ignored
    }

    /// The number of samples that a histogram holds, if the handle is one of a
    /// histogram of this collector.
    pub fn histogram_len(&self, handle: &HistogramHandle) -> (r: Option<usize>)
        ensures
            r == if self@.holds_kind(handle@, MetricKind::Histogram) {
                Some(self@.slots[handle@->0 as int]->Histogram_0.len() as usize)
            } else {
                None
            },
    {
        if let Some(s) = handle.slot {
            if s < self.slots.len() {
                if let MetricState::Histogram(samples) = &self.slots[s] {
                    return Some(samples.len());
                }
            }
        }
        None
    }

    /// Sets the unit of the metrics called `name`, or takes it away: under
    /// every label set, and whatever their kind.
    pub fn update_unit(&mut self, name: &str, unit: Option<Unit>)
        requires
            old(self).wf(),
        ensures
            final(self).wf(),
            final(self)@ == old(self)@.describe(name@, unit),
    {
        proof {
            lemma_describe_wf(self@, name@, unit);
        }
        match unit {
            Some(u) => self.units.insert(name, u),
            None => self.units.remove(name),
        }
    }

    /// Sets the unit of the counters called `name`, or takes it away.
    pub fn describe_counter(&mut self, name: &str, unit: Option<Unit>)
        requires
            old(self).wf(),
        ensures
            final(self).wf(),
            final(self)@ == old(self)@.describe(name@, unit),
    {
        self.update_unit(name, unit)
    }

    /// Sets the unit of the gauges called `name`, or takes it away.
    pub fn describe_gauge(&mut self, name: &str, unit: Option<Unit>)
        requires
            old(self).wf(),
        ensures
            final(self).wf(),
            final(self)@ == old(self)@.describe(name@, unit),
    {
        self.update_unit(name, unit)
    }

    /// Sets the unit of the histograms called `name`, or takes it away.
    pub fn describe_histogram(&mut self, name: &str, unit: Option<Unit>)
        requires
            old(self).wf(),
        ensures
            final(self).wf(),
            final(self)@ == old(self)@.describe(name@, unit),
    {
        self.update_unit(name, unit)
    }

    /// Sets a property, which every document holds from now on. A property
    /// of the same name is replaced. Gives the collector back, for the next call.
    pub fn set_property(&mut self, name: &str, value: JsonValue) -> (r: &mut Collector)
        requires
            old(self).wf(),
        ensures
            r.wf(),
            r@ == old(self)@.set_property(name@, value@),
            *final(self) == *final(r),
    {
        proof {
            lemma_set_property_wf(self@, name@, value@);
        }
        self.properties.insert(name, value);
        self
    }

    /// Takes a property away. Gives the collector back, for the next call.
    pub fn remove_property(&mut self, name: &str) -> (r: &mut Collector)
        requires
            old(self).wf(),
        ensures
            r.wf(),
            r@ == old(self)@.remove_property(name@),
            *final(self) == *final(r),
    {
        proof {
            lemma_remove_property_wf(self@, name@);
        }
        self.properties.remove(name);
        self
    }

    /// Ends the cold start.
    pub fn end_cold_start(&mut self)
        requires
            old(self).wf(),
        ensures
            final(self).wf(),
            final(self)@ == (CollectorModel { cold_start_active: false, ..old(self)@ }),
    {
        self.cold_start_active = false;
    }
}

} // verus!
