//! The mathematical model of a collector: what it holds, what each operation
//! makes of it, and what a flush writes.

use crate::emf::{
    unit_text, EmbeddedMetricModel, EmbeddedMetricsAwsModel, EmbeddedMetricsModel,
    EmbeddedNamespaceModel, Unit,
};
use crate::json::{text_atoms, Atom};
use crate::labels::{canonical, label_set_less};
use crate::name_map::{lookup, names_sorted, put, without};
use crate::value::{float_models, ScalarModel, ValueModel};
use vstd::prelude::*;

verus! {

/// A histogram keeps at most this many samples between two flushes.
pub const MAX_HISTOGRAM_VALUES: usize = 100;

/// A document has at most this many dimensions.
pub const MAX_DIMENSIONS: usize = 30;

/// The three kinds of metric.
#[derive(Clone, Copy, Debug, PartialEq, Eq, Structural)]
pub enum MetricKind {
    Counter,
    Gauge,
    Histogram,
}

/// Why a registration gave a handle that does nothing.
#[derive(Clone, Copy, Debug, PartialEq, Eq, Structural)]
pub enum RegisterError {
    /// The labels, together with the configured dimensions, are more than a
    /// document can hold.
    TooManyDimensions,
    /// The name is registered under these labels as a metric of another kind.
    KindMismatch { existing: MetricKind },
}

/// What became of a sample handed to a histogram.
#[derive(Clone, Copy, Debug, PartialEq, Eq, Structural)]
pub enum Recorded {
    /// The sample was taken.
    Kept,
    /// The histogram was full; the sample was dropped.
    Dropped,
    /// The handle does nothing.
    Ignored,
}

/// The state of one metric. A gauge holds the bits of its value, a histogram
/// the bits of its samples in the order in which they came.
pub enum MetricModel {
    Counter(u64),
    Gauge(u64),
    Histogram(Seq<u64>),
}

/// The sum of `v` and `delta` as a counter keeps it: modulo 2^64.
pub open spec fn wrapped_sum(v: u64, delta: u64) -> u64 {
    if v + delta > u64::MAX {
        (v + delta - u64::MAX - 1) as u64
    } else {
        (v + delta) as u64
    }
}

impl MetricModel {
    /// The kind of the metric.
    pub open spec fn kind(self) -> MetricKind {
        match self {
            MetricModel::Counter(_) => MetricKind::Counter,
            MetricModel::Gauge(_) => MetricKind::Gauge,
            MetricModel::Histogram(_) => MetricKind::Histogram,
        }
    }

    /// The state of a metric that was just registered.
    pub open spec fn initial(kind: MetricKind) -> MetricModel {
        match kind {
            MetricKind::Counter => MetricModel::Counter(0),
            MetricKind::Gauge => MetricModel::Gauge(0),
            MetricKind::Histogram => MetricModel::Histogram(Seq::empty()),
        }
    }

    /// The state after a flush: a counter starts again at zero, a gauge keeps
    /// its value, a histogram is empty.
    pub open spec fn reset(self) -> MetricModel {
        match self {
            MetricModel::Counter(_) => MetricModel::Counter(0),
            MetricModel::Gauge(bits) => MetricModel::Gauge(bits),
            MetricModel::Histogram(_) => MetricModel::Histogram(Seq::empty()),
        }
    }

    /// What a flush lists for the metric, if it lists it: a counter unless it
    /// is zero and zeros are not asked for, a gauge always, a histogram unless
    /// it is empty.
    pub open spec fn reading(self, emit_zeros: bool) -> Option<ValueModel> {
        match self {
            MetricModel::Counter(v) => if v != 0 || emit_zeros {
                Some(ValueModel::Scalar(ScalarModel::Unsigned(v)))
            } else {
                None
            },
            MetricModel::Gauge(bits) => Some(ValueModel::Scalar(ScalarModel::Float(bits))),
            MetricModel::Histogram(samples) => if samples.len() > 0 {
                Some(ValueModel::Array(float_models(samples)))
            } else {
                None
            },
        }
    }

    /// A histogram holds no more samples than it may.
    pub open spec fn bounded(self) -> bool {
        match self {
            MetricModel::Histogram(samples) => samples.len() <= MAX_HISTOGRAM_VALUES,
            _ => true,
        }
    }
}

/// The model of a configuration.
pub struct ConfigModel {
    pub cloudwatch_namespace: Seq<char>,
    pub default_dimensions: Seq<(Seq<char>, Seq<char>)>,
    pub timestamp: Option<u64>,
    pub emit_zeros: bool,
    pub lambda_cold_start: Option<Seq<char>>,
    pub lambda_request_id: Option<Seq<char>>,
    pub lambda_xray_trace_id: Option<Seq<char>>,
}

/// The metrics registered under one label set: the canonical form of the
/// labels, the labels as they were first given, and for each name the place
/// of the metric's state.
pub struct GroupModel {
    pub key: Seq<(Seq<char>, Seq<char>)>,
    pub labels: Seq<(Seq<char>, Seq<char>)>,
    pub metrics: Seq<(Seq<char>, usize)>,
}

/// The model of a collector.
pub struct CollectorModel {
    pub config: ConfigModel,
    /// The label sets, in the order of their canonical forms.
    pub groups: Seq<GroupModel>,
    /// The states of the metrics; a handle holds a position in this list.
    pub slots: Seq<MetricModel>,
    pub units: Seq<(Seq<char>, Unit)>,
    pub properties: Seq<(Seq<char>, ValueModel)>,
    /// Whether the cold start is still to be announced.
    pub cold_start_pending: bool,
    /// Whether the cold start has not ended yet.
    pub cold_start_active: bool,
}

/// The number of leading groups whose key comes before `key`.
pub open spec fn group_rank(groups: Seq<GroupModel>, key: Seq<(Seq<char>, Seq<char>)>) -> nat
    decreases groups.len(),
{
    if groups.len() == 0 || !label_set_less(groups[0].key, key) {
        0
    } else {
        1 + group_rank(groups.drop_first(), key)
    }
}

/// The keys of `groups` are strictly increasing.
pub open spec fn groups_sorted(groups: Seq<GroupModel>) -> bool {
    forall|i: int, j: int|
        0 <= i < j < groups.len() ==> label_set_less((#[trigger] groups[i]).key, (#[trigger] groups[j]).key)
}

/// Some entry of `groups` holds the slot `s`.
pub open spec fn indexed(groups: Seq<GroupModel>, s: int) -> bool {
    exists|g: int, e: int|
        0 <= g < groups.len() && 0 <= e < groups[g].metrics.len() && (#[trigger] groups[g].metrics[e]).1
            == s
}

/// Some entry of `entries` holds the slot `s`.
pub open spec fn owns(entries: Seq<(Seq<char>, usize)>, s: int) -> bool {
    exists|e: int| 0 <= e < entries.len() && (#[trigger] entries[e]).1 == s
}

/// What a flush lists of `entries`, in their order: each name with its reading.
pub open spec fn listing(
    entries: Seq<(Seq<char>, usize)>,
    slots: Seq<MetricModel>,
    emit_zeros: bool,
) -> Seq<(Seq<char>, ValueModel)>
    decreases entries.len(),
{
    if entries.len() == 0 {
        Seq::empty()
    } else {
        let rest = listing(entries.drop_last(), slots, emit_zeros);
        match slots[entries.last().1 as int].reading(emit_zeros) {
            Some(value) => rest.push((entries.last().0, value)),
            None => rest,
        }
    }
}

/// The definition of the metric `name`: with its unit if `units` has one for it.
pub open spec fn definition(name: Seq<char>, units: Seq<(Seq<char>, Unit)>) -> EmbeddedMetricModel {
    EmbeddedMetricModel {
        name,
        unit: match lookup(units, name) {
            Some(unit) => Some(unit_text(unit)),
            None => None,
        },
    }
}

/// The definitions of the listed metrics.
pub open spec fn definitions(
    listed: Seq<(Seq<char>, ValueModel)>,
    units: Seq<(Seq<char>, Unit)>,
) -> Seq<EmbeddedMetricModel> {
    Seq::new(listed.len(), |i: int| definition(listed[i].0, units))
}

/// The first components of `pairs`.
pub open spec fn firsts(pairs: Seq<(Seq<char>, Seq<char>)>) -> Seq<Seq<char>> {
    Seq::new(pairs.len(), |i: int| pairs[i].0)
}

/// The map that binds each first component of `pairs` to its second; where a
/// name occurs twice, the later pair counts.
pub open spec fn bindings(pairs: Seq<(Seq<char>, Seq<char>)>) -> Seq<(Seq<char>, Seq<char>)>
    decreases pairs.len(),
{
    if pairs.len() == 0 {
        Seq::empty()
    } else {
        put(bindings(pairs.drop_last()), pairs.last().0, pairs.last().1)
    }
}

impl CollectorModel {
    /// The time that a flush at `now` writes: the configured one if there is one.
    pub open spec fn timestamp(self, now: u64) -> u64 {
        match self.config.timestamp {
            Some(t) => t,
            None => now,
        }
    }

    /// Each group is filed under the canonical form of its labels, has its
    /// metrics in the order of their names, and keeps within the dimensions
    /// that a document can hold.
    pub open spec fn groups_wf(self) -> bool {
        forall|g: int|
            0 <= g < self.groups.len() ==> {
                &&& (#[trigger] self.groups[g]).key == canonical(self.groups[g].labels)
                &&& names_sorted(self.groups[g].metrics)
                &&& self.config.default_dimensions.len() + self.groups[g].labels.len()
                    <= MAX_DIMENSIONS
            }
    }

    /// Every entry holds the slot of a metric.
    pub open spec fn slots_valid(self) -> bool {
        forall|g: int, e: int|
            0 <= g < self.groups.len() && 0 <= e < self.groups[g].metrics.len() ==> (
            #[trigger] self.groups[g].metrics[e]).1 < self.slots.len()
    }

    /// No two entries hold the same slot.
    pub open spec fn slots_distinct(self) -> bool {
        forall|g: int, e: int, h: int, f: int|
            0 <= g < self.groups.len() && 0 <= e < self.groups[g].metrics.len() && 0 <= h
                < self.groups.len() && 0 <= f < self.groups[h].metrics.len() && (
            #[trigger] self.groups[g].metrics[e]).1 == (#[trigger] self.groups[h].metrics[f]).1 ==> g
                == h && e == f
    }

    /// Every slot is held by an entry.
    pub open spec fn slots_covered(self) -> bool {
        forall|s: int| 0 <= s < self.slots.len() ==> #[trigger] indexed(self.groups, s)
    }

    /// No histogram holds more samples than it may, and the number of the
    /// metrics is one that the machine can count.
    pub open spec fn slots_bounded(self) -> bool {
        &&& self.slots.len() <= usize::MAX
        &&& forall|s: int| 0 <= s < self.slots.len() ==> (#[trigger] self.slots[s]).bounded()
    }

    /// There is room for one more metric.
    pub open spec fn has_room(self) -> bool {
        self.slots.len() < usize::MAX
    }

    /// The invariant of a collector.
    pub open spec fn wf(self) -> bool {
        &&& groups_sorted(self.groups)
        &&& self.groups_wf()
        &&& self.slots_valid()
        &&& self.slots_distinct()
        &&& self.slots_covered()
        &&& self.slots_bounded()
        &&& names_sorted(self.units)
        &&& names_sorted(self.properties)
    }

    /// Whether `labels`, together with the configured dimensions, are more than
    /// a document can hold.
    pub open spec fn over_budget(self, labels: Seq<(Seq<char>, Seq<char>)>) -> bool {
        self.config.default_dimensions.len() + labels.len() > MAX_DIMENSIONS
    }

    /// The position of the group of `labels`, if there is one.
    pub open spec fn find_group(self, labels: Seq<(Seq<char>, Seq<char>)>) -> Option<int> {
        let g = group_rank(self.groups, canonical(labels)) as int;
        if g < self.groups.len() && self.groups[g].key == canonical(labels) {
            Some(g)
        } else {
            None
        }
    }

    /// The slot of the metric `name` under `labels`, if it is registered.
    pub open spec fn find_slot(self, name: Seq<char>, labels: Seq<(Seq<char>, Seq<char>)>) -> Option<
        usize,
    > {
        match self.find_group(labels) {
            Some(g) => lookup(self.groups[g].metrics, name),
            None => None,
        }
    }

    /// The collector with a new metric `name` under `labels`, in a new slot.
    pub open spec fn with_new_metric(
        self,
        name: Seq<char>,
        labels: Seq<(Seq<char>, Seq<char>)>,
        kind: MetricKind,
    ) -> CollectorModel {
        let slot = self.slots.len() as usize;
        let g = group_rank(self.groups, canonical(labels)) as int;
        CollectorModel {
            groups: if self.find_group(labels) is Some {
                self.groups.update(
                    g,
                    GroupModel { metrics: put(self.groups[g].metrics, name, slot), ..self.groups[g] },
                )
            } else {
                self.groups.insert(
                    g,
                    GroupModel { key: canonical(labels), labels, metrics: seq![(name, slot)] },
                )
            },
            slots: self.slots.push(MetricModel::initial(kind)),
            ..self
        }
    }

    /// Why registering `name` under `labels` as a metric of `kind` fails, if it does.
    pub open spec fn register_error(
        self,
        name: Seq<char>,
        labels: Seq<(Seq<char>, Seq<char>)>,
        kind: MetricKind,
    ) -> Option<RegisterError> {
        if self.over_budget(labels) {
            Some(RegisterError::TooManyDimensions)
        } else {
            match self.find_slot(name, labels) {
                Some(slot) => if self.slots[slot as int].kind() == kind {
                    None
                } else {
                    Some(RegisterError::KindMismatch { existing: self.slots[slot as int].kind() })
                },
                None => None,
            }
        }
    }

    /// The slot that a registration hands out: that of the metric if it is
    /// registered with this kind, a new one if it is not registered, none if
    /// the registration fails.
    pub open spec fn register_slot(
        self,
        name: Seq<char>,
        labels: Seq<(Seq<char>, Seq<char>)>,
        kind: MetricKind,
    ) -> Option<usize> {
        if self.register_error(name, labels, kind) is Some {
            None
        } else {
            match self.find_slot(name, labels) {
                Some(slot) => Some(slot),
                None => Some(self.slots.len() as usize),
            }
        }
    }

    /// The collector after a registration: with the new metric if the
    /// registration succeeds and the metric was not registered, else unchanged.
    pub open spec fn register(
        self,
        name: Seq<char>,
        labels: Seq<(Seq<char>, Seq<char>)>,
        kind: MetricKind,
    ) -> CollectorModel {
        if self.over_budget(labels) || self.find_slot(name, labels) is Some {
            self
        } else {
            self.with_new_metric(name, labels, kind)
        }
    }

    /// Whether `slot` is the slot of a metric of `kind`.
    pub open spec fn holds_kind(self, slot: Option<usize>, kind: MetricKind) -> bool {
        match slot {
            Some(s) => s < self.slots.len() && self.slots[s as int].kind() == kind,
            None => false,
        }
    }

    /// The collector after `delta` was added to the counter at `slot`.
    pub open spec fn counter_add(self, slot: Option<usize>, delta: u64) -> CollectorModel {
        if self.holds_kind(slot, MetricKind::Counter) {
            let s = slot->0 as int;
            CollectorModel {
                slots: self.slots.update(
                    s,
                    MetricModel::Counter(wrapped_sum(self.slots[s]->Counter_0, delta)),
                ),
                ..self
            }
        } else {
            self
        }
    }

    /// The collector after the gauge at `slot` was set to the value with `bits`.
    pub open spec fn gauge_set(self, slot: Option<usize>, bits: u64) -> CollectorModel {
        if self.holds_kind(slot, MetricKind::Gauge) {
            CollectorModel { slots: self.slots.update(slot->0 as int, MetricModel::Gauge(bits)), ..self }
        } else {
            self
        }
    }

    /// What becomes of a sample handed to the histogram at `slot`.
    pub open spec fn histogram_recorded(self, slot: Option<usize>) -> Recorded {
        if self.holds_kind(slot, MetricKind::Histogram) {
            if self.slots[slot->0 as int]->Histogram_0.len() < MAX_HISTOGRAM_VALUES {
                Recorded::Kept
            } else {
                Recorded::Dropped
            }
        } else {
            Recorded::Ignored
        }
    }

    /// The collector after the sample with `bits` was handed to the histogram
    /// at `slot`.
    pub open spec fn histogram_record(self, slot: Option<usize>, bits: u64) -> CollectorModel {
        if self.histogram_recorded(slot) == Recorded::Kept {
            let s = slot->0 as int;
            CollectorModel {
                slots: self.slots.update(
                    s,
                    MetricModel::Histogram(self.slots[s]->Histogram_0.push(bits)),
                ),
                ..self
            }
        } else {
            self
        }
    }

    /// The collector after the unit of `name` was set, or taken away.
    pub open spec fn describe(self, name: Seq<char>, unit: Option<Unit>) -> CollectorModel {
        CollectorModel {
            units: match unit {
                Some(u) => put(self.units, name, u),
                None => without(self.units, name),
            },
            ..self
        }
    }

    /// The collector after the property `name` was set.
    pub open spec fn set_property(self, name: Seq<char>, value: ValueModel) -> CollectorModel {
        CollectorModel { properties: put(self.properties, name, value), ..self }
    }

    /// The collector after the property `name` was taken away.
    pub open spec fn remove_property(self, name: Seq<char>) -> CollectorModel {
        CollectorModel { properties: without(self.properties, name), ..self }
    }

    /// The document with the given dimensions after the configured ones, and
    /// with the given metrics.
    pub open spec fn document(
        self,
        labels: Seq<(Seq<char>, Seq<char>)>,
        definitions: Seq<EmbeddedMetricModel>,
        values: Seq<(Seq<char>, ValueModel)>,
        timestamp: u64,
    ) -> EmbeddedMetricsModel {
        EmbeddedMetricsModel {
            aws: EmbeddedMetricsAwsModel {
                timestamp,
                cloudwatch_metrics: EmbeddedNamespaceModel {
                    namespace: self.config.cloudwatch_namespace,
                    dimensions: firsts(self.config.default_dimensions + labels),
                    metrics: definitions,
                },
            },
            dimensions: bindings(self.config.default_dimensions + labels),
            properties: self.properties,
            values,
        }
    }

    /// What a flush lists of the group at `g`.
    pub open spec fn group_listing(self, g: int) -> Seq<(Seq<char>, ValueModel)> {
        listing(self.groups[g].metrics, self.slots, self.config.emit_zeros)
    }

    /// The document of the group at `g`.
    pub open spec fn group_document(self, g: int, timestamp: u64) -> EmbeddedMetricsModel {
        self.document(
            self.groups[g].labels,
            definitions(self.group_listing(g), self.units),
            self.group_listing(g),
            timestamp,
        )
    }

    /// What a flush writes for the group at `g`: its document and a newline, or
    /// nothing if none of its metrics is listed.
    pub open spec fn group_text(self, g: int, timestamp: u64) -> Seq<Atom> {
        if self.group_listing(g).len() == 0 {
            Seq::empty()
        } else {
            self.group_document(g, timestamp).atoms() + text_atoms("\n"@)
        }
    }

    /// What a flush writes for the first `n` groups.
    pub open spec fn groups_text(self, n: int, timestamp: u64) -> Seq<Atom>
        decreases n,
    {
        if n <= 0 {
            Seq::empty()
        } else {
            self.groups_text(n - 1, timestamp) + self.group_text(n - 1, timestamp)
        }
    }

    /// What a flush writes: the documents of the groups, in the order of the groups.
    pub open spec fn flush_text(self, timestamp: u64) -> Seq<Atom> {
        self.groups_text(self.groups.len() as int, timestamp)
    }

    /// The collector after the group at `g` was flushed: its metrics are reset.
    pub open spec fn flush_group(self, g: int) -> CollectorModel {
        CollectorModel {
            slots: Seq::new(
                self.slots.len(),
                |s: int|
                    if owns(self.groups[g].metrics, s) {
                        self.slots[s].reset()
                    } else {
                        self.slots[s]
                    },
            ),
            ..self
        }
    }

    /// The collector after a flush: every metric is reset.
    pub open spec fn flushed(self) -> CollectorModel {
        CollectorModel { slots: Seq::new(self.slots.len(), |s: int| self.slots[s].reset()), ..self }
    }

    /// The document that holds the single metric `name`, which is in no registry.
    pub open spec fn single_document(
        self,
        name: Seq<char>,
        unit: Option<Unit>,
        value: ValueModel,
        timestamp: u64,
    ) -> EmbeddedMetricsModel {
        self.document(
            Seq::empty(),
            seq![
                EmbeddedMetricModel {
                    name,
                    unit: match unit {
                        Some(u) => Some(unit_text(u)),
                        None => None,
                    },
                },
            ],
            seq![(name, value)],
            timestamp,
        )
    }
}

} // verus!
