//! Message processors: the closed set of per-probe output translators that
//! turn log lines into modify-path directives.
use vstd::prelude::*;

use crate::ping::{PingInstView, PingMonitorMessageProcessor, PingMonitorMessageProcessorInstance, PingProcView};
use crate::snmp::{SnmpInstView, SnmpMonitorMessageProcessor, SnmpMonitorMessageProcessorInstance, SnmpProcView};

verus! {

/// A configured message processor: the closed set of output translators.
pub enum MonitorMessageProcessor {
    Ping(PingMonitorMessageProcessor),
    Snmp(SnmpMonitorMessageProcessor),
}

/// The mathematical shape of a processor configuration.
pub enum ProcCfgView {
    Ping(PingProcView),
    Snmp(SnmpProcView),
}

impl View for MonitorMessageProcessor {
    type V = ProcCfgView;

    open spec fn view(&self) -> ProcCfgView {
        match self {
            MonitorMessageProcessor::Ping(p) => ProcCfgView::Ping(p@),
            MonitorMessageProcessor::Snmp(s) => ProcCfgView::Snmp(s@),
        }
    }
}

impl Clone for MonitorMessageProcessor {
    fn clone(&self) -> (r: Self)
        ensures
            r@ == self@,
    {
        match self {
            MonitorMessageProcessor::Ping(p) => MonitorMessageProcessor::Ping(p.clone()),
            MonitorMessageProcessor::Snmp(s) => MonitorMessageProcessor::Snmp(s.clone()),
        }
    }
}

/// A per-run instance of a message processor, accumulating state across one
/// probe run.
pub enum MonitorMessageProcessorInstance {
    Ping(PingMonitorMessageProcessorInstance),
    Snmp(SnmpMonitorMessageProcessorInstance),
}

/// The mathematical shape of a processor instance.
pub enum ProcInstView {
    Ping(PingInstView),
    Snmp(SnmpInstView),
}

impl View for MonitorMessageProcessorInstance {
    type V = ProcInstView;

    open spec fn view(&self) -> ProcInstView {
        match self {
            MonitorMessageProcessorInstance::Ping(p) => ProcInstView::Ping(p@),
            MonitorMessageProcessorInstance::Snmp(s) => ProcInstView::Snmp(s@),
        }
    }
}

/// The fresh instance a processor configuration starts each run with.
pub open spec fn instance_spec(p: ProcCfgView) -> ProcInstView {
    match p {
        ProcCfgView::Ping(c) => ProcInstView::Ping(crate::ping::ping_instance_spec(c)),
        ProcCfgView::Snmp(c) => ProcInstView::Snmp(crate::snmp::snmp_instance_spec(c)),
    }
}

/// Whether a processor instance is well formed.
pub open spec fn inst_wf(i: ProcInstView) -> bool {
    match i {
        ProcInstView::Ping(_) => true,
        ProcInstView::Snmp(s) => crate::snmp::snmp_inst_wf(s),
    }
}

/// What one log line does to an instance: the successor state and the
/// directives it synthesises.
pub open spec fn inst_process_spec(i: ProcInstView, line: Seq<char>) -> (ProcInstView, Seq<
    Seq<char>,
>) {
    match i {
        ProcInstView::Ping(p) => {
            let (p2, out) = crate::ping::ping_process_spec(p, line);
            (ProcInstView::Ping(p2), out)
        },
        ProcInstView::Snmp(s) => {
            let (s2, out) = crate::snmp::snmp_process_spec(s, line);
            (ProcInstView::Snmp(s2), out)
        },
    }
}

/// The directives an instance emits when the run's output ends.
pub open spec fn inst_finalize_spec(i: ProcInstView) -> Seq<Seq<char>> {
    match i {
        ProcInstView::Ping(p) => crate::ping::ping_finalize_spec(p),
        ProcInstView::Snmp(s) => crate::snmp::snmp_finalize_spec(s),
    }
}

impl MonitorMessageProcessor {
    /// Start a fresh per-run instance of this processor.
    pub fn instance(&self) -> (r: MonitorMessageProcessorInstance)
        ensures
            r@ == instance_spec(self@),
            inst_wf(r@),
    {
        match self {
            MonitorMessageProcessor::Ping(p) => MonitorMessageProcessorInstance::Ping(p.instance()),
            MonitorMessageProcessor::Snmp(s) => MonitorMessageProcessorInstance::Snmp(s.instance()),
        }
    }
}

impl MonitorMessageProcessorInstance {
    /// Feed one log line; the returned strings are directives to emit as
    /// metadata events.
    pub fn process_message(&mut self, input: &str) -> (r: Vec<String>)
        requires
            inst_wf(old(self)@),
        ensures
            inst_wf(final(self)@),
            final(self)@ == inst_process_spec(old(self)@, input@).0,
            r.deep_view() == inst_process_spec(old(self)@, input@).1,
    {
        match self {
            MonitorMessageProcessorInstance::Ping(p) => p.process_message(input),
            MonitorMessageProcessorInstance::Snmp(s) => s.process_message(input),
        }
    }

    /// The run's output has ended: emit the closing directives.
    pub fn finalize(&mut self) -> (r: Vec<String>)
        requires
            inst_wf(old(self)@),
        ensures
            inst_wf(final(self)@),
            r.deep_view() == inst_finalize_spec(old(self)@),
    {
        match self {
            MonitorMessageProcessorInstance::Ping(p) => p.finalize(),
            MonitorMessageProcessorInstance::Snmp(s) => s.finalize(),
        }
    }
}

} // verus!
