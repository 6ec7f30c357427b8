//! What a collector does at the start and at the end of an invocation of a
//! Lambda function. The caller does the rest: it hands in what the runtime
//! says of the request, and writes out what comes back.

use crate::collector::Collector;
use crate::emf::Unit;
use crate::json::{text_atoms, Atom, JsonText};
use crate::model::CollectorModel;
use crate::value::{JsonScalar, JsonValue, ScalarModel, ValueModel};
use vstd::prelude::*;

verus! {

impl CollectorModel {
    /// The collector with the identifier of the request as a property, where
    /// a name is configured for it.
    pub open spec fn with_request_id(self, request_id: Seq<char>) -> CollectorModel {
        match self.config.lambda_request_id {
            Some(name) => self.set_property(
                name,
                ValueModel::Scalar(ScalarModel::Text(request_id)),
            ),
            None => self,
        }
    }

    /// The collector with the trace identifier of the request as a property,
    /// where a name is configured for it; the property is null where the
    /// request has none.
    pub open spec fn with_xray_trace_id(self, xray_trace_id: Option<Seq<char>>) -> CollectorModel {
        match self.config.lambda_xray_trace_id {
            Some(name) => self.set_property(
                name,
                ValueModel::Scalar(
                    match xray_trace_id {
                        Some(id) => ScalarModel::Text(id),
                        None => ScalarModel::Null,
                    },
                ),
            ),
            None => self,
        }
    }

    /// Whether the next invocation announces the cold start: a name is
    /// configured for it, and it was not announced yet.
    pub open spec fn announces_cold_start(self) -> bool {
        self.config.lambda_cold_start is Some && self.cold_start_pending
    }

    /// The collector after the start of an invocation: with the properties of
    /// the request, and with the cold start announced.
    pub open spec fn begin_invocation(
        self,
        request_id: Seq<char>,
        xray_trace_id: Option<Seq<char>>,
    ) -> CollectorModel {
        let with_properties = self.with_request_id(request_id).with_xray_trace_id(xray_trace_id);
        CollectorModel {
            cold_start_pending: self.cold_start_pending && self.config.lambda_cold_start is None,
            ..with_properties
        }
    }

    /// What the announcement of the cold start writes: the document of one
    /// count of the configured name, with the properties of the request.
    pub open spec fn cold_start_text(
        self,
        request_id: Seq<char>,
        xray_trace_id: Option<Seq<char>>,
        timestamp: u64,
    ) -> Seq<Atom> {
        self.with_request_id(request_id).with_xray_trace_id(xray_trace_id).single_document(
            self.config.lambda_cold_start->0,
            Some(Unit::Count),
            ValueModel::Scalar(ScalarModel::Unsigned(1)),
            timestamp,
        ).atoms() + text_atoms("\n"@)
    }

    /// The collector after the end of an invocation: flushed, and with the
    /// cold start over.
    pub open spec fn end_invocation(self) -> CollectorModel {
        CollectorModel { cold_start_active: false, ..self.flushed() }
    }
}

impl Collector {
    /// Whether the cold start has not ended yet.
    pub fn in_cold_start(&self) -> (r: bool)
        ensures
            r == self@.cold_start_active,
    {
        self.cold_start_active
    }

    /// Starts an invocation: sets the properties for which a name is
    /// configured, and, at the first invocation, gives the document that
    /// announces the cold start, if a name is configured for it.
    pub fn begin_invocation(&mut self, request_id: &str, xray_trace_id: Option<&str>, now: u64) -> (r:
        Option<JsonText>)
        requires
            old(self).wf(),
        ensures
            final(self).wf(),
            final(self)@ == old(self)@.begin_invocation(
                request_id@,
                match xray_trace_id {
                    Some(id) => Some(id@),
                    None => None,
                },
            ),
            match r {
                Some(text) => old(self)@.announces_cold_start() && text@ == old(self)@.cold_start_text(
                    request_id@,
                    match xray_trace_id {
                        Some(id) => Some(id@),
                        None => None,
                    },
                    old(self)@.timestamp(now),
                ),
                None => !old(self)@.announces_cold_start(),
            },
    {
        let request_name = match &self.config.lambda_request_id {
            Some(name) => Some(name.clone()),
            None => None,
        };
        match request_name {
            Some(name) => {
                self.set_property(
                    name.as_str(),
                    JsonValue::Scalar(JsonScalar::Text(String::from_str(request_id))),
                );
            },
            None => {},
        }
        let trace_name = match &self.config.lambda_xray_trace_id {
            Some(name) => Some(name.clone()),
            None => None,
        };
        match trace_name {
            Some(name) => {
                let value = match xray_trace_id {
                    Some(id) => JsonScalar::Text(String::from_str(id)),
                    None => JsonScalar::Null,
                };
                self.set_property(name.as_str(), JsonValue::Scalar(value));
            },
            None => {},
        }
        let cold_start_name = match &self.config.lambda_cold_start {
            Some(name) => Some(name.clone()),
            None => None,
        };
        match cold_start_name {
            Some(name) => {
                if self.cold_start_pending {
                    let text = self.write_single(
                        name.as_str(),
                        Some(Unit::Count),
                        JsonValue::Scalar(JsonScalar::Unsigned(1)),
                        now,
                    );
                    self.cold_start_pending = false;
                    Some(text)
                } else {
                    None
                }
            },
            None => None,
        }
    }

    /// Ends an invocation: flushes every label set, and ends the cold start.
    pub fn end_invocation(&mut self, now: u64) -> (out: JsonText)
        requires
            old(self).wf(),
        ensures
            final(self).wf(),
            out@ == old(self)@.flush_text(old(self)@.timestamp(now)),
            final(self)@ == old(self)@.end_invocation(),
    {
        let out = self.flush(now);
        self.end_cold_start();
        out
    }
}

} // verus!
