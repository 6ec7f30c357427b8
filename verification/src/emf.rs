//! Documents in the CloudWatch embedded metric format, and their JSON text.

use crate::json::{decimal, join, quoted, text_atoms, Atom, JsonText};
use crate::name_map::NameMap;
use crate::value::{lemma_join_push, JsonValue, ValueModel};
use vstd::prelude::*;

verus! {

/// The unit in which a metric is measured.
#[derive(Clone, Copy, Debug, PartialEq, Eq, Structural)]
pub enum Unit {
    Count,
    Percent,
    Seconds,
    Milliseconds,
    Microseconds,
    Nanoseconds,
    Tebibytes,
    Gibibytes,
    Mebibytes,
    Kibibytes,
    Bytes,
    TerabitsPerSecond,
    GigabitsPerSecond,
    MegabitsPerSecond,
    KilobitsPerSecond,
    BitsPerSecond,
    CountPerSecond,
}

impl View for Unit {
    type V = Unit;

    open spec fn view(&self) -> Unit {
        *self
    }
}

/// The name that CloudWatch has for a unit.
pub open spec fn unit_text(unit: Unit) -> Seq<char> {
    match unit {
        Unit::Count => "Count"@,
        Unit::Percent => "Percent"@,
        Unit::Seconds => "Seconds"@,
        Unit::Milliseconds => "Milliseconds"@,
        Unit::Microseconds => "Microseconds"@,
        Unit::Nanoseconds => "Nanoseconds"@,
        Unit::Tebibytes => "Terabytes"@,
        Unit::Gibibytes => "Gigabytes"@,
        Unit::Mebibytes => "Megabytes"@,
        Unit::Kibibytes => "Kilobytes"@,
        Unit::Bytes => "Bytes"@,
        Unit::TerabitsPerSecond => "Terabits/Second"@,
        Unit::GigabitsPerSecond => "Gigabits/Second"@,
        Unit::MegabitsPerSecond => "Megabits/Second"@,
        Unit::KilobitsPerSecond => "Kilobits/Second"@,
        Unit::BitsPerSecond => "Bits/Second"@,
        Unit::CountPerSecond => "Count/Second"@,
    }
}

/// The name that CloudWatch has for a unit.
pub fn unit_to_str(unit: &Unit) -> (r: &'static str)
    ensures
        r@ == unit_text(*unit),
{
    match unit {
        Unit::Count => "Count",
        Unit::Percent => "Percent",
        Unit::Seconds => "Seconds",
        Unit::Milliseconds => "Milliseconds",
        Unit::Microseconds => "Microseconds",
        Unit::Nanoseconds => "Nanoseconds",
        Unit::Tebibytes => "Terabytes",
        Unit::Gibibytes => "Gigabytes",
        Unit::Mebibytes => "Megabytes",
        Unit::Kibibytes => "Kilobytes",
        Unit::Bytes => "Bytes",
        Unit::TerabitsPerSecond => "Terabits/Second",
        Unit::GigabitsPerSecond => "Gigabits/Second",
        Unit::MegabitsPerSecond => "Megabits/Second",
        Unit::KilobitsPerSecond => "Kilobits/Second",
        Unit::BitsPerSecond => "Bits/Second",
        Unit::CountPerSecond => "Count/Second",
    }
}

/// The definition of one metric in a document: its name and, if it has one, its unit.
#[derive(Debug)]
pub struct EmbeddedMetric {
    pub name: String,
    pub unit: Option<&'static str>,
}

/// The model of an `EmbeddedMetric`.
pub struct EmbeddedMetricModel {
    pub name: Seq<char>,
    pub unit: Option<Seq<char>>,
}

/// The namespace of a document, with the names of its dimensions and the
/// definitions of its metrics. A document has one set of dimensions.
#[derive(Debug)]
pub struct EmbeddedNamespace {
    pub namespace: String,
    pub dimensions: [Vec<String>; 1],
    pub metrics: Vec<EmbeddedMetric>,
}

/// The model of an `EmbeddedNamespace`.
pub struct EmbeddedNamespaceModel {
    pub namespace: Seq<char>,
    pub dimensions: Seq<Seq<char>>,
    pub metrics: Seq<EmbeddedMetricModel>,
}

/// The metadata of a document: its time in milliseconds since the epoch, and
/// its namespace. A document has one namespace.
#[derive(Debug)]
pub struct EmbeddedMetricsAws {
    pub timestamp: u64,
    pub cloudwatch_metrics: [EmbeddedNamespace; 1],
}

/// The model of an `EmbeddedMetricsAws`.
pub struct EmbeddedMetricsAwsModel {
    pub timestamp: u64,
    pub cloudwatch_metrics: EmbeddedNamespaceModel,
}

/// A document: the metadata, then the values of the dimensions, the properties
/// and the values of the metrics, each of the three in the order of the names.
#[derive(Debug)]
pub struct EmbeddedMetrics {
    pub aws: EmbeddedMetricsAws,
    pub dimensions: NameMap<String>,
    pub properties: NameMap<JsonValue>,
    pub values: NameMap<JsonValue>,
}

/// The model of an `EmbeddedMetrics`.
pub struct EmbeddedMetricsModel {
    pub aws: EmbeddedMetricsAwsModel,
    pub dimensions: Seq<(Seq<char>, Seq<char>)>,
    pub properties: Seq<(Seq<char>, ValueModel)>,
    pub values: Seq<(Seq<char>, ValueModel)>,
}

/// The texts of `names` as JSON string literals.
pub open spec fn quoted_texts(names: Seq<Seq<char>>) -> Seq<Seq<Atom>> {
    Seq::new(names.len(), |i: int| text_atoms(quoted(names[i])))
}

/// The texts of the metric definitions `metrics`.
pub open spec fn metric_texts(metrics: Seq<EmbeddedMetricModel>) -> Seq<Seq<Atom>> {
    Seq::new(metrics.len(), |i: int| metrics[i].atoms())
}

/// The members `,"name":"value"` for the entries of `s`, in order.
pub open spec fn text_members(s: Seq<(Seq<char>, Seq<char>)>) -> Seq<Atom>
    decreases s.len(),
{
    if s.len() == 0 {
        Seq::empty()
    } else {
        text_members(s.drop_last()) + text_atoms(","@) + text_atoms(quoted(s.last().0))
            + text_atoms(":"@) + text_atoms(quoted(s.last().1))
    }
}

/// The members `,"name":value` for the entries of `s`, in order.
pub open spec fn value_members(s: Seq<(Seq<char>, ValueModel)>) -> Seq<Atom>
    decreases s.len(),
{
    if s.len() == 0 {
        Seq::empty()
    } else {
        value_members(s.drop_last()) + text_atoms(","@) + text_atoms(quoted(s.last().0))
            + text_atoms(":"@) + s.last().1.atoms()
    }
}

impl EmbeddedMetricModel {
    /// `{"Name":..}`, with `"Unit"` behind the name where the metric has one.
    pub open spec fn atoms(self) -> Seq<Atom> {
        text_atoms("{\"Name\":"@) + text_atoms(quoted(self.name)) + (match self.unit {
            Some(unit) => text_atoms(",\"Unit\":"@) + text_atoms(quoted(unit)),
            None => Seq::empty(),
        }) + text_atoms("}"@)
    }
}

impl EmbeddedNamespaceModel {
    /// `{"Namespace":..,"Dimensions":[[..]],"Metrics":[..]}`.
    pub open spec fn atoms(self) -> Seq<Atom> {
        text_atoms("{\"Namespace\":"@) + text_atoms(quoted(self.namespace)) + text_atoms(
            ",\"Dimensions\":[["@,
        ) + join(quoted_texts(self.dimensions), text_atoms(","@)) + text_atoms("]],\"Metrics\":["@)
            + join(metric_texts(self.metrics), text_atoms(","@)) + text_atoms("]}"@)
    }
}

impl EmbeddedMetricsAwsModel {
    /// `{"Timestamp":..,"CloudWatchMetrics":[..]}`.
    pub open spec fn atoms(self) -> Seq<Atom> {
        text_atoms("{\"Timestamp\":"@) + text_atoms(decimal(self.timestamp as nat)) + text_atoms(
            ",\"CloudWatchMetrics\":["@,
        ) + self.cloudwatch_metrics.atoms() + text_atoms("]}"@)
    }
}

impl EmbeddedMetricsModel {
    /// The JSON text of the document: `"_aws"` first, then the three groups of
    /// members.
    pub open spec fn atoms(self) -> Seq<Atom> {
        text_atoms("{\"_aws\":"@) + self.aws.atoms() + text_members(self.dimensions)
            + value_members(self.properties) + value_members(self.values) + text_atoms("}"@)
    }
}

impl View for EmbeddedMetric {
    type V = EmbeddedMetricModel;

    open spec fn view(&self) -> EmbeddedMetricModel {
        EmbeddedMetricModel {
            name: self.name@,
            unit: match self.unit {
                Some(unit) => Some(unit@),
                None => None,
            },
        }
    }
}

/// The models of the metric definitions `metrics`.
pub open spec fn metric_models(metrics: Seq<EmbeddedMetric>) -> Seq<EmbeddedMetricModel> {
    Seq::new(metrics.len(), |i: int| metrics[i]@)
}

impl View for EmbeddedNamespace {
    type V = EmbeddedNamespaceModel;

    open spec fn view(&self) -> EmbeddedNamespaceModel {
        EmbeddedNamespaceModel {
            namespace: self.namespace@,
            dimensions: self.dimensions@[0].deep_view(),
            metrics: metric_models(self.metrics@),
        }
    }
}

impl View for EmbeddedMetricsAws {
    type V = EmbeddedMetricsAwsModel;

    open spec fn view(&self) -> EmbeddedMetricsAwsModel {
        EmbeddedMetricsAwsModel {
            timestamp: self.timestamp,
            cloudwatch_metrics: self.cloudwatch_metrics@[0]@,
        }
    }
}

impl View for EmbeddedMetrics {
    type V = EmbeddedMetricsModel;

    open spec fn view(&self) -> EmbeddedMetricsModel {
        EmbeddedMetricsModel {
            aws: self.aws@,
            dimensions: self.dimensions@,
            properties: self.properties@,
            values: self.values@,
        }
    }
}

/// Appends the strings of `names` as JSON string literals with commas between.
pub fn render_names(names: &Vec<String>, out: &mut JsonText)
    ensures
        final(out)@ == old(out)@ + join(quoted_texts(names.deep_view()), text_atoms(","@)),
{
    let ghost models = names.deep_view();
    let ghost sep = text_atoms(","@);
    let ghost start = out@;
    let mut i: usize = 0;
    assert(quoted_texts(models.take(0)) =~= Seq::<Seq<Atom>>::empty());
    assert(out@ =~= start + join(quoted_texts(models.take(0)), sep));
    while i < names.len()
        invariant
            i <= names.len(),
            models == names.deep_view(),
            sep == text_atoms(","@),
            out@ == start + join(quoted_texts(models.take(i as int)), sep),
        decreases names.len() - i,
    {
        if i > 0 {
            out.push_str(",");
        }
        out.push_quoted(names[i].as_str());
        proof {
            let before = quoted_texts(models.take(i as int));
            let part = text_atoms(quoted(models[i as int]));
            assert(quoted_texts(models.take(i + 1)) =~= before.push(part));
            lemma_join_push(before, part, sep);
            assert(out@ =~= start + join(quoted_texts(models.take(i + 1)), sep));
        }
        i += 1;
    }
    proof {
        assert(models.take(names@.len() as int) =~= models);
    }
}

impl EmbeddedMetric {
    /// Appends the JSON text of the definition to `out`.
    pub fn render(&self, out: &mut JsonText)
        ensures
            final(out)@ == old(out)@ + self@.atoms(),
    {
        out.push_str("{\"Name\":");
        out.push_quoted(self.name.as_str());
        match self.unit {
            Some(unit) => {
                out.push_str(",\"Unit\":");
                out.push_quoted(unit);
            },
            None => {},
        }
        out.push_str("}");
        assert(out@ =~= old(out)@ + self@.atoms());
    }
}

impl EmbeddedNamespace {
    /// Appends the JSON text of the namespace to `out`.
    pub fn render(&self, out: &mut JsonText)
        ensures
            final(out)@ == old(out)@ + self@.atoms(),
    {
        out.push_str("{\"Namespace\":");
        out.push_quoted(self.namespace.as_str());
        out.push_str(",\"Dimensions\":[[");
        render_names(&self.dimensions[0], out);
        out.push_str("]],\"Metrics\":[");
        let ghost models = metric_models(self.metrics@);
        let ghost sep = text_atoms(","@);
        let ghost start = out@;
        let mut i: usize = 0;
        assert(metric_texts(models.take(0)) =~= Seq::<Seq<Atom>>::empty());
        assert(out@ =~= start + join(metric_texts(models.take(0)), sep));
        while i < self.metrics.len()
            invariant
                i <= self.metrics.len(),
                models == metric_models(self.metrics@),
                sep == text_atoms(","@),
                out@ == start + join(metric_texts(models.take(i as int)), sep),
            decreases self.metrics.len() - i,
        {
            if i > 0 {
                out.push_str(",");
            }
            self.metrics[i].render(out);
            proof {
                let before = metric_texts(models.take(i as int));
                let part = models[i as int].atoms();
                assert(metric_texts(models.take(i + 1)) =~= before.push(part));
                lemma_join_push(before, part, sep);
                assert(out@ =~= start + join(metric_texts(models.take(i + 1)), sep));
            }
            i += 1;
        }
        proof {
            assert(models.take(self.metrics@.len() as int) =~= models);
        }
        out.push_str("]}");
        assert(out@ =~= old(out)@ + self@.atoms());
    }
}

impl EmbeddedMetricsAws {
    /// Appends the JSON text of the metadata to `out`.
    pub fn render(&self, out: &mut JsonText)
        ensures
            final(out)@ == old(out)@ + self@.atoms(),
    {
        out.push_str("{\"Timestamp\":");
        out.push_u64(self.timestamp);
        out.push_str(",\"CloudWatchMetrics\":[");
        self.cloudwatch_metrics[0].render(out);
        out.push_str("]}");
        assert(out@ =~= old(out)@ + self@.atoms());
    }
}

/// Appends a member `,"name":"value"` for each entry of `map`, in order.
pub fn render_text_members(map: &NameMap<String>, out: &mut JsonText)
    ensures
        final(out)@ == old(out)@ + text_members(map@),
{
    let ghost start = out@;
    let mut i: usize = 0;
    assert(map@.take(0) =~= Seq::<(Seq<char>, Seq<char>)>::empty());
    assert(out@ =~= start + text_members(map@.take(0)));
    while i < map.len()
        invariant
            i <= map@.len(),
            out@ == start + text_members(map@.take(i as int)),
        decreases map@.len() - i,
    {
        out.push_str(",");
        out.push_quoted(map.name_at(i));
        out.push_str(":");
        out.push_quoted(map.value_at(i).as_str());
        proof {
            assert(map@.take(i + 1).drop_last() =~= map@.take(i as int));
            assert(out@ =~= start + text_members(map@.take(i + 1)));
        }
        i += 1;
    }
    proof {
        assert(map@.take(map@.len() as int) =~= map@);
    }
}

/// Appends a member `,"name":value` for each entry of `map`, in order.
pub fn render_value_members(map: &NameMap<JsonValue>, out: &mut JsonText)
    ensures
        final(out)@ == old(out)@ + value_members(map@),
{
    let ghost start = out@;
    let mut i: usize = 0;
    assert(map@.take(0) =~= Seq::<(Seq<char>, ValueModel)>::empty());
    assert(out@ =~= start + value_members(map@.take(0)));
    while i < map.len()
        invariant
            i <= map@.len(),
            out@ == start + value_members(map@.take(i as int)),
        decreases map@.len() - i,
    {
        out.push_str(",");
        out.push_quoted(map.name_at(i));
        out.push_str(":");
        map.value_at(i).render(out);
        proof {
            assert(map@.take(i + 1).drop_last() =~= map@.take(i as int));
            assert(out@ =~= start + value_members(map@.take(i + 1)));
        }
        i += 1;
    }
    proof {
        assert(map@.take(map@.len() as int) =~= map@);
    }
}

impl EmbeddedMetrics {
    /// Appends the JSON text of the document to `out`.
    pub fn render(&self, out: &mut JsonText)
        ensures
            final(out)@ == old(out)@ + self@.atoms(),
    {
        out.push_str("{\"_aws\":");
        self.aws.render(out);
        render_text_members(&self.dimensions, out);
        render_value_members(&self.properties, out);
        render_value_members(&self.values, out);
        out.push_str("}");
        assert(out@ =~= old(out)@ + self@.atoms());
    }

    /// The JSON text of the document.
    pub fn to_json(&self) -> (r: JsonText)
        ensures
            r@ == self@.atoms(),
    {
        let mut out = JsonText::new();
        self.render(&mut out);
        assert(out@ =~= self@.atoms());
        out
    }
}

} // verus!
