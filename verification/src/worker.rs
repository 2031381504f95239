//! One probe run as a state machine: events are emitted in order —
//! `Starting`, then log and metadata events, then exactly one terminal
//! event — while the byte streams run through line buffers and the
//! configured message processor.
use vstd::prelude::*;

use crate::linebuf::{lb_close, lb_empty, lb_run, LineBuf};
use crate::monitor::{
    inst_finalize_spec, inst_process_spec, inst_wf, MonitorMessageProcessorInstance, ProcInstView,
};
use crate::text::{chars_to_string, push_str_chars, starts_with_chars, string_to_chars, trim_chars,
    trim_spec, u64_to_chars};

verus! {

/// The sentinel a dropped supervisor turns event delivery into: the worker
/// loop ends silently.
pub struct ShuttingDown;

/// Which pipe a log line arrived on.
#[derive(Clone, Copy, Debug, PartialEq, Eq, Structural)]
pub enum LogStream {
    StdOut,
    StdErr,
}

/// One event of a worker run.
pub enum WorkerMessage {
    Starting,
    LogMessage(LogStream, String),
    Metadata(String),
    Termination(i64),
    AbnormalTermination(String),
}

/// The mathematical shape of a worker event.
pub enum EventView {
    Starting,
    Log(LogStream, Seq<char>),
    Meta(Seq<char>),
    Term(i64),
    Abnormal(Seq<char>),
}

impl View for WorkerMessage {
    type V = EventView;

    open spec fn view(&self) -> EventView {
        match self {
            WorkerMessage::Starting => EventView::Starting,
            WorkerMessage::LogMessage(st, s) => EventView::Log(*st, s@),
            WorkerMessage::Metadata(s) => EventView::Meta(s@),
            WorkerMessage::Termination(c) => EventView::Term(*c),
            WorkerMessage::AbnormalTermination(s) => EventView::Abnormal(s@),
        }
    }
}

/// Whether an event ends a run.
pub open spec fn is_terminal(e: EventView) -> bool {
    e is Term || e is Abnormal
}

/// How a child process came to rest.
#[derive(Clone, Copy, Debug, PartialEq, Eq, Structural)]
pub enum ExitOutcome {
    Exited(u32),
    Signaled(u8),
    Other(i32),
    Undetermined,
    Wedged,
}

/// The terminal event an exit outcome maps to: a normal exit reports its
/// code, everything else is an abnormal termination with its reason.
pub open spec fn termination_event(outcome: ExitOutcome) -> EventView {
    match outcome {
        ExitOutcome::Exited(code) => EventView::Term(code as i64),
        ExitOutcome::Signaled(sig) => EventView::Abnormal(
            "Process exited with signal "@ + crate::text::dec_rep_nat(sig as nat),
        ),
        ExitOutcome::Other(code) => EventView::Abnormal(
            "Process exited for unknown reason "@ + crate::text::hex_rep_nat(
                (code as u32) as nat,
            ),
        ),
        ExitOutcome::Undetermined => EventView::Abnormal("Process exited for unknown reason"@),
        ExitOutcome::Wedged => EventView::Abnormal("Process timed out"@),
    }
}

/// The outcome the escalation ladder reports: the first wait's own result
/// when it saw the exit; a soft termination counts as signal 1, a hard kill
/// as signal 9; a process that survived both is wedged.
pub fn death_ladder_outcome(first: Option<ExitOutcome>, terminated: bool, killed: bool) -> (r:
    ExitOutcome)
    ensures
        r == (match first {
            Some(o) => o,
            None => {
                if terminated {
                    ExitOutcome::Signaled(1)
                } else if killed {
                    ExitOutcome::Signaled(9)
                } else {
                    ExitOutcome::Wedged
                }
            },
        }),
{
    match first {
        Some(o) => o,
        None => {
            if terminated {
                ExitOutcome::Signaled(1)
            } else if killed {
                ExitOutcome::Signaled(9)
            } else {
                ExitOutcome::Wedged
            }
        },
    }
}

/// The wait budget after the read loop: the rest of the run's timeout, and
/// never less than a quarter second.
pub fn escalation_wait_ms(timeout_ms: u64, elapsed_ms: u64) -> (r: u64)
    ensures
        timeout_ms > elapsed_ms && timeout_ms - elapsed_ms > 250 ==> r == timeout_ms
            - elapsed_ms,
        !(timeout_ms > elapsed_ms && timeout_ms - elapsed_ms > 250) ==> r == 250,
{
    if timeout_ms > elapsed_ms && timeout_ms - elapsed_ms > 250 {
        timeout_ms - elapsed_ms
    } else {
        250
    }
}

/// The tag of a stream in log lines.
pub open spec fn stream_tag(st: LogStream) -> Seq<char> {
    match st {
        LogStream::StdOut => "stdout"@,
        LogStream::StdErr => "stderr"@,
    }
}

/// What one delivered line becomes: a line opening with the out-of-band
/// prefix becomes a metadata event carrying the trimmed remainder and skips
/// the processor; any other line is a log event, and the processor's
/// directives follow as metadata events.
pub open spec fn classify_line(proc: Option<ProcInstView>, st: LogStream, line: Seq<char>) -> (
    Option<ProcInstView>,
    Seq<EventView>,
) {
    if line.len() >= 10 && line.take(10) == "@@STYLUS@@"@ {
        (proc, seq![EventView::Meta(trim_spec(line.skip(10)))])
    } else {
        match proc {
            None => (proc, seq![EventView::Log(st, line)]),
            Some(p) => {
                let (p2, dirs) = inst_process_spec(p, line);
                (
                    Some(p2),
                    seq![EventView::Log(st, line)] + dirs.map_values(|d: Seq<char>| EventView::Meta(d)),
                )
            },
        }
    }
}

/// A chunk's worth of lines, classified in order.
pub open spec fn classify_lines(
    proc: Option<ProcInstView>,
    st: LogStream,
    lines: Seq<Seq<char>>,
) -> (Option<ProcInstView>, Seq<EventView>)
    decreases lines.len(),
{
    if lines.len() == 0 {
        (proc, Seq::empty())
    } else {
        let (p1, evs1) = classify_line(proc, st, lines.first());
        let (p2, evs2) = classify_lines(p1, st, lines.drop_first());
        (p2, evs1 + evs2)
    }
}

proof fn lemma_classify_lines_snoc(
    proc: Option<ProcInstView>,
    st: LogStream,
    lines: Seq<Seq<char>>,
    line: Seq<char>,
)
    ensures
        classify_lines(proc, st, lines.push(line)).0 == classify_line(
            classify_lines(proc, st, lines).0,
            st,
            line,
        ).0,
        classify_lines(proc, st, lines.push(line)).1 == classify_lines(proc, st, lines).1
            + classify_line(classify_lines(proc, st, lines).0, st, line).1,
    decreases lines.len(),
{
    let p1 = classify_lines(proc, st, lines).0;
    let evs1 = classify_lines(proc, st, lines).1;
    let e2 = classify_line(p1, st, line).1;
    if lines.len() == 0 {
        assert(lines.push(line).first() == line);
        assert(lines.push(line).drop_first() =~= Seq::<Seq<char>>::empty());
        assert(classify_lines(classify_line(proc, st, line).0, st, lines.push(line).drop_first()).1
            =~= Seq::<EventView>::empty());
        assert(classify_line(proc, st, line).1 + Seq::<EventView>::empty() =~= classify_line(
            proc,
            st,
            line,
        ).1);
        assert(evs1 + e2 =~= e2);
    } else {
        assert(lines.push(line).first() == lines.first());
        assert(lines.push(line).drop_first() =~= lines.drop_first().push(line));
        lemma_classify_lines_snoc(classify_line(proc, st, lines.first()).0, st, lines.drop_first(), line);
        let h = classify_line(proc, st, lines.first()).1;
        let m = classify_lines(classify_line(proc, st, lines.first()).0, st, lines.drop_first()).1;
        assert(h + (m + e2) =~= (h + m) + e2);
    }
}

/// The phase a run session is in.
#[derive(Clone, Copy, Debug, PartialEq, Eq, Structural)]
pub enum RunPhase {
    Idle,
    Running,
    Flushed,
    Done,
}

/// One probe run: two line buffers, the optional processor instance, and
/// the events emitted so far.
pub struct RunSession {
    phase: RunPhase,
    stdout: LineBuf,
    stderr: LineBuf,
    processor: Option<MonitorMessageProcessorInstance>,
    history: Ghost<Seq<EventView>>,
}

impl RunSession {
    /// The events this run has emitted, in order.
    pub closed spec fn history(&self) -> Seq<EventView> {
        self.history@
    }

    pub closed spec fn phase(&self) -> RunPhase {
        self.phase
    }

    pub closed spec fn proc_view(&self) -> Option<ProcInstView> {
        match self.processor {
            Some(p) => Some(p@),
            None => None,
        }
    }

    pub closed spec fn buffers_view(&self) -> (crate::linebuf::LbState, crate::linebuf::LbState) {
        (self.stdout@, self.stderr@)
    }

    /// The event discipline of one run: nothing before `Starting`, no
    /// second `Starting`, and exactly one terminal event, last, once the
    /// run is done.
    pub closed spec fn wf(&self) -> bool {
        &&& self.stdout.wf()
        &&& self.stderr.wf()
        &&& self.stdout.cap() == 100
        &&& self.stderr.cap() == 100
        &&& (match self.processor {
            Some(p) => inst_wf(p@),
            None => true,
        })
        &&& (match self.phase {
            RunPhase::Idle => self.history@.len() == 0,
            RunPhase::Running | RunPhase::Flushed => self.history@.len() >= 1 && self.history@[0]
                == EventView::Starting && forall|i: int|
                1 <= i < self.history@.len() ==> !is_terminal(#[trigger] self.history@[i]) && self.history@[i]
                    != EventView::Starting,
            RunPhase::Done => self.history@.len() >= 2 && self.history@[0] == EventView::Starting
                && is_terminal(self.history@.last()) && forall|i: int|
                1 <= i < self.history@.len() - 1 ==> !is_terminal(#[trigger] self.history@[i])
                    && self.history@[i] != EventView::Starting,
        })
    }

    /// Begin a run with fresh line buffers and a fresh processor instance.
    pub fn new(processor: Option<MonitorMessageProcessorInstance>) -> (r: RunSession)
        requires
            match processor {
                Some(p) => inst_wf(p@),
                None => true,
            },
        ensures
            r.wf(),
            r.phase() == RunPhase::Idle,
            r.history() == Seq::<EventView>::empty(),
            r.proc_view() == (match processor {
                Some(p) => Some(p@),
                None => None::<ProcInstView>,
            }),
    {
        RunSession {
            phase: RunPhase::Idle,
            stdout: LineBuf::new(100),
            stderr: LineBuf::new(100),
            processor,
            history: Ghost(Seq::empty()),
        }
    }

    /// Open the run: the `Starting` event.
    pub fn start(&mut self) -> (e: WorkerMessage)
        requires
            old(self).wf(),
            old(self).phase() == RunPhase::Idle,
        ensures
            final(self).wf(),
            final(self).phase() == RunPhase::Running,
            e@ == EventView::Starting,
            final(self).history() == old(self).history().push(EventView::Starting),
            final(self).proc_view() == old(self).proc_view(),
            final(self).buffers_view() == old(self).buffers_view(),
    {
        self.phase = RunPhase::Running;
        proof {
            self.history@ = self.history@.push(EventView::Starting);
        }
        WorkerMessage::Starting
    }

    /// Feed one chunk from one pipe: the lines it completes become events,
    /// as `classify_lines` says over the line buffer's records.
    pub fn feed(&mut self, stream: LogStream, bytes: &[u8]) -> (events: Vec<WorkerMessage>)
        requires
            old(self).wf(),
            old(self).phase() == RunPhase::Running,
        ensures
            final(self).wf(),
            final(self).phase() == RunPhase::Running,
            ({
                let buf = if stream == LogStream::StdOut {
                    old(self).buffers_view().0
                } else {
                    old(self).buffers_view().1
                };
                let cap = 100nat;
                let recs = lb_run(cap, buf, bytes@).1.map_values(
                    |r: Seq<u8>| crate::linebuf::lossy_of(r),
                );
                let (p2, evs) = classify_lines(old(self).proc_view(), stream, recs);
                &&& final(self).proc_view() == p2
                &&& evs == events@.map_values(|m: WorkerMessage| m@)
                &&& final(self).history() == old(self).history() + evs
                &&& (if stream == LogStream::StdOut {
                    final(self).buffers_view().0 == lb_run(cap, buf, bytes@).0 && final(self).buffers_view().1 == old(self).buffers_view().1
                } else {
                    final(self).buffers_view().1 == lb_run(cap, buf, bytes@).0 && final(self).buffers_view().0 == old(self).buffers_view().0
                })
            }),
    {
        let lines: Vec<String> = if matches!(stream, LogStream::StdOut) {
            self.stdout.accept(bytes)
        } else {
            self.stderr.accept(bytes)
        };
        let ghost recs: Seq<Seq<char>> = lines.deep_view();
        proof {
            let buf = if stream == LogStream::StdOut {
                old(self).buffers_view().0
            } else {
                old(self).buffers_view().1
            };
            let raw = lb_run(100nat, buf, bytes@).1;
            assert(recs.len() == lines@.len());
            assert(lines@.len() == raw.len());
            assert forall|k: int|
                0 <= k < recs.len() implies recs[k] == raw.map_values(
                |r: Seq<u8>| crate::linebuf::lossy_of(r),
            )[k] by {
                assert(recs[k] == lines@[k]@);
                assert(lines@[k]@ == crate::linebuf::lossy_of(raw[k]));
            }
            assert(recs =~= raw.map_values(|r: Seq<u8>| crate::linebuf::lossy_of(r)));
        }
        self.deliver_lines(stream, lines, Ghost(recs))
    }

    /// Classify a batch of completed lines into events.
    fn deliver_lines(&mut self, stream: LogStream, lines: Vec<String>, recs: Ghost<Seq<Seq<char>>>) -> (events: Vec<
        WorkerMessage,
    >)
        requires
            old(self).wf(),
            old(self).phase() == RunPhase::Running,
            recs@ == lines.deep_view(),
        ensures
            final(self).wf(),
            final(self).phase() == RunPhase::Running,
            final(self).buffers_view() == old(self).buffers_view(),
            ({
                let (p2, evs) = classify_lines(old(self).proc_view(), stream, recs@);
                &&& final(self).proc_view() == p2
                &&& evs == events@.map_values(|m: WorkerMessage| m@)
                &&& final(self).history() == old(self).history() + evs
            }),
    {
        let mut events: Vec<WorkerMessage> = Vec::new();
        let n = lines.len();
        let mut i: usize = 0;
        let ghost p0: Option<ProcInstView> = self.proc_view();
        let ghost h0: Seq<EventView> = self.history@;
        proof {
            assert(recs@.take(0) =~= Seq::<Seq<char>>::empty());
            assert(events@.map_values(|m: WorkerMessage| m@) =~= Seq::<EventView>::empty());
            assert(h0 + classify_lines(p0, stream, recs@.take(0)).1 =~= h0);
        }
        while i < n
            invariant
                i <= n,
                n == lines@.len(),
                recs@ == lines.deep_view(),
                self.wf(),
                self.phase() == RunPhase::Running,
                self.buffers_view() == old(self).buffers_view(),
                self.proc_view() == classify_lines(p0, stream, recs@.take(i as int)).0,
                events@.map_values(|m: WorkerMessage| m@) == classify_lines(
                    p0,
                    stream,
                    recs@.take(i as int),
                ).1,
                self.history@ == h0 + classify_lines(p0, stream, recs@.take(i as int)).1,
                h0 == old(self).history(),
                p0 == old(self).proc_view(),
                h0.len() >= 1 && h0[0] == EventView::Starting,
            decreases n - i,
        {
            let ghost pre_p: Option<ProcInstView> = self.proc_view();
            let ghost pre_evs: Seq<EventView> = events@.map_values(|m: WorkerMessage| m@);
            let line = &lines[i];
            proof {
                assert(recs@[i as int] == lines@[i as int]@);
            }
            let cs = string_to_chars(line.as_str());
            let prefix = string_to_chars("@@STYLUS@@");
            proof {
                assert(prefix@ == "@@STYLUS@@"@);
                reveal_strlit("@@STYLUS@@");
                assert(prefix@.len() == 10);
            }
            if starts_with_chars(&cs, &prefix) {
                let mut rest: Vec<char> = Vec::new();
                let mut j: usize = 10;
                while j < cs.len()
                    invariant
                        10 <= j <= cs@.len() || (cs@.len() < 10 && j == 10),
                        rest@ == cs@.skip(10).take(j - 10 as int) || (cs@.len() < 10 && rest@
                            == Seq::<char>::empty()),
                        cs@.len() >= 10,
                    decreases cs@.len() - j,
                {
                    proof {
                        assert(cs@.skip(10).take(j - 10 + 1 as int) =~= cs@.skip(10).take(
                            j - 10 as int,
                        ).push(cs@[j as int]));
                    }
                    rest.push(cs[j]);
                    j = j + 1;
                }
                proof {
                    assert(rest@ =~= cs@.skip(10));
                }
                let trimmed = trim_chars(&rest);
                let ev = WorkerMessage::Metadata(chars_to_string(&trimmed));
                events.push(ev);
                proof {
                    assert(cs@.take(10) =~= prefix@);
                    self.history@ = self.history@.push(
                        EventView::Meta(trim_spec(recs@[i as int].skip(10))),
                    );
                    assert(classify_line(pre_p, stream, recs@[i as int]).1 =~= seq![
                        EventView::Meta(trim_spec(recs@[i as int].skip(10))),
                    ]);
                }
            } else {
                proof {
                    if recs@[i as int].len() >= 10 && recs@[i as int].take(10) == "@@STYLUS@@"@ {
                        assert(prefix@.len() <= cs@.len() && cs@.take(prefix@.len() as int)
                            == prefix@);
                    }
                }
                let mut dirs: Vec<String> = Vec::new();
                match &mut self.processor {
                    Some(p) => {
                        dirs = p.process_message(line.as_str());
                    },
                    None => {},
                }
                let ev = WorkerMessage::LogMessage(stream, line.clone());
                events.push(ev);
                let m = dirs.len();
                let mut dk: usize = 0;
                let ghost dview: Seq<Seq<char>> = dirs.deep_view();
                while dk < m
                    invariant
                        dk <= m,
                        m == dirs@.len(),
                        dview == dirs.deep_view(),
                        events@.len() >= 1,
                        events@.map_values(|mm: WorkerMessage| mm@) =~= pre_evs + seq![
                            EventView::Log(stream, recs@[i as int]),
                        ] + dview.take(dk as int).map_values(|d: Seq<char>| EventView::Meta(d)),
                        recs@ == lines.deep_view(),
                        i < n,
                        n == lines@.len(),
                    decreases m - dk,
                {
                    proof {
                        assert(dview[dk as int] == dirs@[dk as int]@);
                    }
                    let ghost pre_batch: Seq<WorkerMessage> = events@;
                    events.push(WorkerMessage::Metadata(dirs[dk].clone()));
                    proof {
                        let goal = pre_evs + seq![EventView::Log(stream, recs@[i as int])]
                            + dview.take(dk + 1 as int).map_values(
                            |d: Seq<char>| EventView::Meta(d),
                        );
                        assert(pre_batch.map_values(|mm: WorkerMessage| mm@).len()
                            == pre_batch.len());
                        assert(goal.len() == events@.len());
                        assert forall|j: int|
                            0 <= j < events@.len() implies events@.map_values(
                            |mm: WorkerMessage| mm@,
                        )[j] == goal[j] by {
                            assert(events@.map_values(|mm: WorkerMessage| mm@)[j] == events@[j]@);
                            if j < pre_batch.len() {
                                assert(events@[j] == pre_batch[j]);
                                assert(pre_batch.map_values(|mm: WorkerMessage| mm@)[j]
                                    == pre_batch[j]@);
                                assert(pre_batch.map_values(|mm: WorkerMessage| mm@)[j] == (pre_evs
                                    + seq![EventView::Log(stream, recs@[i as int])]
                                    + dview.take(dk as int).map_values(
                                    |d: Seq<char>| EventView::Meta(d),
                                ))[j]);
                                assert(goal[j] == (pre_evs + seq![
                                    EventView::Log(stream, recs@[i as int]),
                                ] + dview.take(dk as int).map_values(
                                    |d: Seq<char>| EventView::Meta(d),
                                ))[j]);
                            } else {
                                assert(events@[j]@ == EventView::Meta(dview[dk as int]));
                                assert(goal[j] == dview.take(dk + 1 as int).map_values(
                                    |d: Seq<char>| EventView::Meta(d),
                                )[dk as int]);
                            }
                        }
                        assert(events@.map_values(|mm: WorkerMessage| mm@) =~= goal);
                    }
                    dk = dk + 1;
                }
                proof {
                    assert(dview.take(m as int) =~= dview);
                    self.history@ = self.history@ + classify_line(pre_p, stream, recs@[i as int]).1;
                }
            }
            proof {
                lemma_classify_lines_snoc(p0, stream, recs@.take(i as int), recs@[i as int]);
                assert(recs@.take(i as int).push(recs@[i as int]) =~= recs@.take(i + 1 as int));
                assert(events@.map_values(|mm: WorkerMessage| mm@) =~= classify_lines(
                    p0,
                    stream,
                    recs@.take(i + 1 as int),
                ).1);
                assert(self.history@ =~= h0 + classify_lines(p0, stream, recs@.take(i + 1 as int)).1);
            }
            i = i + 1;
        }
        proof {
            assert(recs@.take(n as int) =~= recs@);
        }
        events
    }

    /// Close the streams: residual lines become events, then the
    /// processor's closing directives follow as metadata events.
    pub fn flush(&mut self) -> (events: Vec<WorkerMessage>)
        requires
            old(self).wf(),
            old(self).phase() == RunPhase::Running,
        ensures
            final(self).wf(),
            final(self).phase() == RunPhase::Flushed,
            ({
                let out_lines = lb_close(old(self).buffers_view().0).map_values(
                    |r: Seq<u8>| crate::linebuf::lossy_of(r),
                );
                let err_lines = lb_close(old(self).buffers_view().1).map_values(
                    |r: Seq<u8>| crate::linebuf::lossy_of(r),
                );
                let (p1, evs1) = classify_lines(old(self).proc_view(), LogStream::StdOut, out_lines);
                let (p2, evs2) = classify_lines(p1, LogStream::StdErr, err_lines);
                let fins: Seq<EventView> = match p2 {
                    Some(p) => inst_finalize_spec(p).map_values(|d: Seq<char>| EventView::Meta(d)),
                    None => Seq::empty(),
                };
                &&& events@.map_values(|m: WorkerMessage| m@) == evs1 + evs2 + fins
                &&& final(self).history() == old(self).history() + evs1 + evs2 + fins
            }),
    {
        let out_lines = self.stdout.close();
        let ghost out_recs: Seq<Seq<char>> = out_lines.deep_view();
        proof {
            assert(out_recs =~= lb_close(old(self).buffers_view().0).map_values(
                |r: Seq<u8>| crate::linebuf::lossy_of(r),
            ));
        }
        let mut events = self.deliver_lines(LogStream::StdOut, out_lines, Ghost(out_recs));
        let err_lines = self.stderr.close();
        let ghost err_recs: Seq<Seq<char>> = err_lines.deep_view();
        proof {
            assert(err_recs =~= lb_close(old(self).buffers_view().1).map_values(
                |r: Seq<u8>| crate::linebuf::lossy_of(r),
            ));
        }
        let mut more = self.deliver_lines(LogStream::StdErr, err_lines, Ghost(err_recs));
        let ghost evs1: Seq<EventView> = events@.map_values(|m: WorkerMessage| m@);
        let ghost evs2: Seq<EventView> = more@.map_values(|m: WorkerMessage| m@);
        events.append(&mut more);
        proof {
            assert(events@.map_values(|m: WorkerMessage| m@) =~= evs1 + evs2);
        }
        match &mut self.processor {
            Some(p) => {
                let fins = p.finalize();
                let m = fins.len();
                let ghost fview: Seq<Seq<char>> = fins.deep_view();
                let ghost pre_evs: Seq<EventView> = events@.map_values(|mm: WorkerMessage| mm@);
                let mut fk: usize = 0;
                while fk < m
                    invariant
                        fk <= m,
                        m == fins@.len(),
                        fview == fins.deep_view(),
                        events@.map_values(|mm: WorkerMessage| mm@) =~= pre_evs + fview.take(
                            fk as int,
                        ).map_values(|d: Seq<char>| EventView::Meta(d)),
                    decreases m - fk,
                {
                    proof {
                        assert(fview[fk as int] == fins@[fk as int]@);
                    }
                    let ghost pre_batch: Seq<WorkerMessage> = events@;
                    events.push(WorkerMessage::Metadata(fins[fk].clone()));
                    proof {
                        let goal = pre_evs + fview.take(fk + 1 as int).map_values(
                            |d: Seq<char>| EventView::Meta(d),
                        );
                        assert(pre_batch.map_values(|mm: WorkerMessage| mm@).len()
                            == pre_batch.len());
                        assert(goal.len() == events@.len());
                        assert forall|j: int|
                            0 <= j < events@.len() implies events@.map_values(
                            |mm: WorkerMessage| mm@,
                        )[j] == goal[j] by {
                            assert(events@.map_values(|mm: WorkerMessage| mm@)[j] == events@[j]@);
                            if j < pre_batch.len() {
                                assert(events@[j] == pre_batch[j]);
                                assert(pre_batch.map_values(|mm: WorkerMessage| mm@)[j]
                                    == pre_batch[j]@);
                                assert(pre_batch.map_values(|mm: WorkerMessage| mm@)[j] == (pre_evs
                                    + fview.take(fk as int).map_values(
                                    |d: Seq<char>| EventView::Meta(d),
                                ))[j]);
                                assert(goal[j] == (pre_evs + fview.take(fk as int).map_values(
                                    |d: Seq<char>| EventView::Meta(d),
                                ))[j]);
                            } else {
                                assert(events@[j]@ == EventView::Meta(fview[fk as int]));
                                assert(goal[j] == fview.take(fk + 1 as int).map_values(
                                    |d: Seq<char>| EventView::Meta(d),
                                )[fk as int]);
                            }
                        }
                        assert(events@.map_values(|mm: WorkerMessage| mm@) =~= goal);
                    }
                    fk = fk + 1;
                }
                proof {
                    assert(fview.take(m as int) =~= fview);
                    let pre_h = self.history@;
                    self.history@ = self.history@ + fview.map_values(
                        |d: Seq<char>| EventView::Meta(d),
                    );
                    assert forall|i: int|
                        1 <= i < self.history@.len() implies !is_terminal(
                        #[trigger] self.history@[i],
                    ) && self.history@[i] != EventView::Starting by {
                        if i < pre_h.len() {
                            assert(self.history@[i] == pre_h[i]);
                        } else {
                            assert(self.history@[i] == fview.map_values(
                                |d: Seq<char>| EventView::Meta(d),
                            )[i - pre_h.len()]);
                        }
                    }
                }
            },
            None => {},
        }
        self.phase = RunPhase::Flushed;
        events
    }

    /// End the run with the process's exit outcome: the one terminal event.
    pub fn complete(&mut self, outcome: ExitOutcome) -> (e: WorkerMessage)
        requires
            old(self).wf(),
            old(self).phase() == RunPhase::Flushed,
        ensures
            final(self).wf(),
            final(self).phase() == RunPhase::Done,
            e@ == termination_event(outcome),
            final(self).history() == old(self).history().push(termination_event(outcome)),
    {
        self.phase = RunPhase::Done;
        let e = match outcome {
            ExitOutcome::Exited(code) => WorkerMessage::Termination(code as i64),
            ExitOutcome::Signaled(sig) => {
                let mut s: Vec<char> = Vec::new();
                push_str_chars(&mut s, "Process exited with signal ");
                let d = u64_to_chars(sig as u64);
                crate::text::push_chars(&mut s, &d);
                proof {
                    assert(s@ =~= "Process exited with signal "@ + crate::text::dec_rep_nat(
                        sig as nat,
                    ));
                }
                WorkerMessage::AbnormalTermination(chars_to_string(&s))
            },
            ExitOutcome::Other(code) => {
                let mut s: Vec<char> = Vec::new();
                push_str_chars(&mut s, "Process exited for unknown reason ");
                let h = crate::text::u32_to_hex_chars(code as u32);
                crate::text::push_chars(&mut s, &h);
                proof {
                    assert(s@ =~= "Process exited for unknown reason "@
                        + crate::text::hex_rep_nat((code as u32) as nat));
                }
                WorkerMessage::AbnormalTermination(chars_to_string(&s))
            },
            ExitOutcome::Undetermined => WorkerMessage::AbnormalTermination(
                String::from_str("Process exited for unknown reason"),
            ),
            ExitOutcome::Wedged => WorkerMessage::AbnormalTermination(
                String::from_str("Process timed out"),
            ),
        };
        proof {
            self.history@ = self.history@.push(termination_event(outcome));
        }
        e
    }

    /// End the run with a failure of the run itself: spawn or read errors
    /// become one abnormal termination.
    pub fn abort(&mut self, reason: String) -> (e: WorkerMessage)
        requires
            old(self).wf(),
            old(self).phase() == RunPhase::Running || old(self).phase() == RunPhase::Flushed,
        ensures
            final(self).wf(),
            final(self).phase() == RunPhase::Done,
            e@ == EventView::Abnormal(reason@),
            final(self).history() == old(self).history().push(EventView::Abnormal(reason@)),
    {
        self.phase = RunPhase::Done;
        proof {
            self.history@ = self.history@.push(EventView::Abnormal(reason@));
        }
        WorkerMessage::AbnormalTermination(reason)
    }
}

/// One run emits `Starting` first, then log and metadata events, and
/// exactly one terminal event, after which nothing follows: the event
/// discipline of a completed run.
pub proof fn lemma_run_event_discipline(s: &RunSession)
    requires
        s.wf(),
        s.phase() == RunPhase::Done,
    ensures
        s.history().len() >= 2,
        s.history()[0] == EventView::Starting,
        is_terminal(s.history().last()),
        forall|i: int| 0 < i < s.history().len() - 1 ==> !is_terminal(#[trigger] s.history()[i]),
        forall|i: int| 0 < i < s.history().len() ==> #[trigger] s.history()[i] != EventView::Starting,
{
    assert forall|i: int| 0 < i < s.history().len() implies #[trigger] s.history()[i]
        != EventView::Starting by {
        if i == s.history().len() - 1 {
            assert(is_terminal(s.history().last()));
        }
    }
}

} // verus!
