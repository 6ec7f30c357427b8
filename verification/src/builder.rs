//! Building the configuration of a collector.

use crate::collector::{Collector, Config};
use crate::model::ConfigModel;
use vstd::prelude::*;

verus! {

/// Why a collector could not be made.
#[derive(Clone, Copy, Debug, PartialEq, Eq, Structural)]
pub enum InitError {
    /// No namespace was given.
    NamespaceMissing,
}

impl InitError {
    /// The error in words.
    pub fn message(&self) -> (r: &'static str)
        ensures
            r@ == "cloudwatch_namespace missing"@,
    {
        match self {
            InitError::NamespaceMissing => "cloudwatch_namespace missing",
        }
    }
}

/// Collects what a collector is made with.
#[derive(Debug)]
pub struct Builder {
    cloudwatch_namespace: Option<String>,
    default_dimensions: Vec<(String, String)>,
    timestamp: Option<u64>,
    emit_zeros: bool,
    lambda_cold_start: Option<String>,
    lambda_request_id: Option<String>,
    lambda_xray_trace_id: Option<String>,
}

/// The model of a builder: what was given so far.
pub struct BuilderModel {
    pub cloudwatch_namespace: Option<Seq<char>>,
    pub default_dimensions: Seq<(Seq<char>, Seq<char>)>,
    pub timestamp: Option<u64>,
    pub emit_zeros: bool,
    pub lambda_cold_start: Option<Seq<char>>,
    pub lambda_request_id: Option<Seq<char>>,
    pub lambda_xray_trace_id: Option<Seq<char>>,
}

impl BuilderModel {
    /// The configuration that the builder gives, if a namespace was given.
    pub open spec fn config(self) -> Option<ConfigModel> {
        match self.cloudwatch_namespace {
            Some(namespace) => Some(
                ConfigModel {
                    cloudwatch_namespace: namespace,
                    default_dimensions: self.default_dimensions,
                    timestamp: self.timestamp,
                    emit_zeros: self.emit_zeros,
                    lambda_cold_start: self.lambda_cold_start,
                    lambda_request_id: self.lambda_request_id,
                    lambda_xray_trace_id: self.lambda_xray_trace_id,
                },
            ),
            None => None,
        }
    }
}

impl View for Builder {
    type V = BuilderModel;

    closed spec fn view(&self) -> BuilderModel {
        BuilderModel {
            cloudwatch_namespace: self.cloudwatch_namespace.deep_view(),
            default_dimensions: self.default_dimensions.deep_view(),
            timestamp: self.timestamp,
            emit_zeros: self.emit_zeros,
            lambda_cold_start: self.lambda_cold_start.deep_view(),
            lambda_request_id: self.lambda_request_id.deep_view(),
            lambda_xray_trace_id: self.lambda_xray_trace_id.deep_view(),
        }
    }
}

impl Builder {
    /// A builder to which nothing was given: no namespace, no dimension, no
    /// fixed time, and counters that are not listed while they are zero.
    pub fn new() -> (r: Builder)
        ensures
            r@ == (BuilderModel {
                cloudwatch_namespace: None,
                default_dimensions: Seq::empty(),
                timestamp: None,
                emit_zeros: false,
                lambda_cold_start: None,
                lambda_request_id: None,
                lambda_xray_trace_id: None,
            }),
    {
        let r = Builder {
            cloudwatch_namespace: None,
            default_dimensions: Vec::new(),
            timestamp: None,
            emit_zeros: false,
            lambda_cold_start: None,
            lambda_request_id: None,
            lambda_xray_trace_id: None,
        };
        assert(r@.default_dimensions =~= Seq::empty());
        r
    }

    /// Sets the namespace of every document. Without one, no collector is made.
    pub fn cloudwatch_namespace(self, namespace: &str) -> (r: Builder)
        ensures
            r@ == (BuilderModel { cloudwatch_namespace: Some(namespace@), ..self@ }),
    {
        let mut r = self;
        r.cloudwatch_namespace = Some(String::from_str(namespace));
        r
    }

    /// Adds a dimension that every document holds, behind those added before.
    pub fn with_dimension(self, name: &str, value: &str) -> (r: Builder)
        ensures
            r@ == (BuilderModel {
                default_dimensions: self@.default_dimensions.push((name@, value@)),
                ..self@
            }),
    {
        let mut r = self;
        r.default_dimensions.push((String::from_str(name), String::from_str(value)));
        assert(r@.default_dimensions =~= self@.default_dimensions.push((name@, value@)));
        r
    }

    /// Sets the time of every document, in milliseconds since the epoch, in
    /// place of the time of the flush.
    pub fn with_timestamp(self, timestamp: u64) -> (r: Builder)
        ensures
            r@ == (BuilderModel { timestamp: Some(timestamp), ..self@ }),
    {
        let mut r = self;
        r.timestamp = Some(timestamp);
        r
    }

    /// Sets whether a counter is listed when nothing was added to it since
    /// the last flush.
    pub fn emit_zeros(self, emit_zeros: bool) -> (r: Builder)
        ensures
            r@ == (BuilderModel { emit_zeros, ..self@ }),
    {
        let mut r = self;
        r.emit_zeros = emit_zeros;
        r
    }

    /// Sets the name of the metric that announces a cold start, once.
    pub fn lambda_cold_start_metric(self, name: &str) -> (r: Builder)
        ensures
            r@ == (BuilderModel { lambda_cold_start: Some(name@), ..self@ }),
    {
        let mut r = self;
        r.lambda_cold_start = Some(String::from_str(name));
        r
    }

    /// Sets the name of the property that holds the identifier of the request.
    pub fn with_lambda_request_id(self, name: &str) -> (r: Builder)
        ensures
            r@ == (BuilderModel { lambda_request_id: Some(name@), ..self@ }),
    {
        let mut r = self;
        r.lambda_request_id = Some(String::from_str(name));
        r
    }

    /// Sets the name of the property that holds the trace identifier of the
    /// request.
    pub fn with_lambda_xray_trace_id(self, name: &str) -> (r: Builder)
        ensures
            r@ == (BuilderModel { lambda_xray_trace_id: Some(name@), ..self@ }),
    {
        let mut r = self;
        r.lambda_xray_trace_id = Some(String::from_str(name));
        r
    }

    /// The configuration, if a namespace was given.
    pub fn build(self) -> (r: Result<Config, InitError>)
        ensures
            match r {
                Ok(config) => self@.config() == Some(config@),
                Err(e) => self@.config() is None && e == InitError::NamespaceMissing,
            },
    {
        match self.cloudwatch_namespace {
            Some(namespace) => Ok(
                Config {
                    cloudwatch_namespace: namespace,
                    default_dimensions: self.default_dimensions,
                    timestamp: self.timestamp,
                    emit_zeros: self.emit_zeros,
                    lambda_cold_start: self.lambda_cold_start,
                    lambda_request_id: self.lambda_request_id,
                    lambda_xray_trace_id: self.lambda_xray_trace_id,
                },
            ),
            None => Err(InitError::NamespaceMissing),
        }
    }

    /// A collector with no metric, if a namespace was given.
    pub fn init(self) -> (r: Result<Collector, InitError>)
        ensures
            match r {
                Ok(collector) => {
                    &&& collector.wf()
                    &&& self@.config() == Some(collector@.config)
                    &&& collector@.groups.len() == 0
                    &&& collector@.slots.len() == 0
                    &&& collector@.units.len() == 0
                    &&& collector@.properties.len() == 0
                    &&& collector@.cold_start_pending
                    &&& collector@.cold_start_active
                },
                Err(e) => self@.config() is None && e == InitError::NamespaceMissing,
            },
    {
        match self.build() {
            Ok(config) => Ok(Collector::new(config)),
            Err(e) => Err(e),
        }
    }
}

} // verus!
