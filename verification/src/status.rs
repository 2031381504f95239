//! Per-monitor status state: how worker events mutate a monitor's status,
//! how terminal outcomes fold staged updates in, and how group children are
//! finished alongside their parent.
use vstd::prelude::*;

use crate::config::{CssMetadataConfig, MonitorDirAxisValue, MonitorDirConfig, MonitorDirRootConfig,
    MonitorDirTestConfig, StrMap};
use crate::kmap::KeyMap;
use crate::text::{chars_to_string, push_chars, push_str_chars, string_to_chars, trim_end_chars,
    trim_end_spec};
use crate::worker::{stream_tag, LogStream, WorkerMessage};

verus! {

/// A status colour: `Blank` is the uninitialised placeholder, terminal
/// outcomes choose among the others.
#[derive(Clone, Copy, Debug, PartialEq, Eq, Structural)]
pub enum StatusState {
    Blank,
    Green,
    Yellow,
    Red,
    Orange,
    Blue,
}

/// The lowercase name of a colour.
pub open spec fn colour_name(s: StatusState) -> Seq<char> {
    match s {
        StatusState::Blank => "blank"@,
        StatusState::Green => "green"@,
        StatusState::Yellow => "yellow"@,
        StatusState::Red => "red"@,
        StatusState::Orange => "orange"@,
        StatusState::Blue => "blue"@,
    }
}

impl StatusState {
    /// The lowercase name of this colour.
    pub fn name(&self) -> (r: String)
        ensures
            r@ == colour_name(*self),
    {
        match self {
            StatusState::Blank => String::from_str("blank"),
            StatusState::Green => String::from_str("green"),
            StatusState::Yellow => String::from_str("yellow"),
            StatusState::Red => String::from_str("red"),
            StatusState::Orange => String::from_str("orange"),
            StatusState::Blue => String::from_str("blue"),
        }
    }
}

/// The colour-derived CSS custom properties of a status.
pub struct MonitorCssStatus {
    pub metadata: StrMap,
}

/// A staging area: updates a run records before its terminal outcome.
pub struct MonitorPendingStatus {
    pub status: Option<StatusState>,
    pub description: Option<String>,
    pub metadata: Option<StrMap>,
}

/// The status of one monitor or one group child.
pub struct MonitorStatus {
    pub status: Option<StatusState>,
    pub code: i64,
    pub description: String,
    pub css: MonitorCssStatus,
    pub metadata: StrMap,
    pub log: Vec<String>,
    pub pending: Option<MonitorPendingStatus>,
}

/// The mathematical shape of a staging area.
#[verifier::ext_equal]
pub struct PendingView {
    pub status: Option<StatusState>,
    pub description: Option<Seq<char>>,
    pub metadata_keys: Option<Seq<Seq<char>>>,
    pub metadata_vals: Option<Seq<Seq<char>>>,
}

/// The mathematical shape of a status.
#[verifier::ext_equal]
pub struct StatusView {
    pub status: Option<StatusState>,
    pub code: i64,
    pub description: Seq<char>,
    pub css_keys: Seq<Seq<char>>,
    pub css_vals: Seq<Seq<char>>,
    pub metadata_keys: Seq<Seq<char>>,
    pub metadata_vals: Seq<Seq<char>>,
    pub log: Seq<Seq<char>>,
    pub pending: Option<PendingView>,
}

impl View for MonitorPendingStatus {
    type V = PendingView;

    open spec fn view(&self) -> PendingView {
        PendingView {
            status: self.status,
            description: match self.description {
                Some(d) => Some(d@),
                None => None,
            },
            metadata_keys: match self.metadata {
                Some(m) => Some(m.keys()),
                None => None,
            },
            metadata_vals: match self.metadata {
                Some(m) => Some(m.vals()),
                None => None,
            },
        }
    }
}

impl View for MonitorStatus {
    type V = StatusView;

    open spec fn view(&self) -> StatusView {
        StatusView {
            status: self.status,
            code: self.code,
            description: self.description@,
            css_keys: self.css.metadata.keys(),
            css_vals: self.css.metadata.vals(),
            metadata_keys: self.metadata.keys(),
            metadata_vals: self.metadata.vals(),
            log: self.log.deep_view(),
            pending: match self.pending {
                Some(p) => Some(p@),
                None => None,
            },
        }
    }
}

/// A well-formed status: its maps are well formed.
pub open spec fn status_wf(s: &MonitorStatus) -> bool {
    &&& s.css.metadata.wf()
    &&& s.metadata.wf()
    &&& match s.pending {
        Some(p) => match p.metadata {
            Some(m) => m.wf(),
            None => true,
        },
        None => true,
    }
}

/// One group child's status: its axis values and its own status.
pub struct MonitorChildStatus {
    pub axes: KeyMap<MonitorDirAxisValue>,
    pub status: MonitorStatus,
}

/// The mathematical shape of a child status.
#[verifier::ext_equal]
pub struct ChildView {
    pub axis_keys: Seq<Seq<char>>,
    pub axis_vals: Seq<crate::config::AxisValView>,
    pub status: StatusView,
}

impl View for MonitorChildStatus {
    type V = ChildView;

    open spec fn view(&self) -> ChildView {
        ChildView { axis_keys: self.axes.keys(), axis_vals: self.axes.vals(), status: self.status@ }
    }
}

/// The status every monitor starts with: everything empty, no colour yet.
pub fn empty_status() -> (r: MonitorStatus)
    ensures
        r@.status is None,
        r@.code == 0,
        r@.description == Seq::<char>::empty(),
        r@.css_keys == Seq::<Seq<char>>::empty(),
        r@.metadata_keys == Seq::<Seq<char>>::empty(),
        r@.log == Seq::<Seq<char>>::empty(),
        r@.pending is None,
        status_wf(&r),
{
    let r = MonitorStatus {
        status: None,
        code: 0,
        description: String::new(),
        css: MonitorCssStatus { metadata: KeyMap::new() },
        metadata: KeyMap::new(),
        log: Vec::new(),
        pending: None,
    };
    proof {
        assert(r@.log =~= Seq::<Seq<char>>::empty());
    }
    r
}

/// The palette entry of a colour.
pub open spec fn palette_keys(config: &CssMetadataConfig, s: StatusState) -> Seq<Seq<char>> {
    match s {
        StatusState::Blank => config.blank.keys(),
        StatusState::Green => config.green.keys(),
        StatusState::Yellow => config.yellow.keys(),
        StatusState::Red => config.red.keys(),
        StatusState::Orange => config.orange.keys(),
        StatusState::Blue => config.blue.keys(),
    }
}

pub open spec fn palette_vals(config: &CssMetadataConfig, s: StatusState) -> Seq<Seq<char>> {
    match s {
        StatusState::Blank => config.blank.vals(),
        StatusState::Green => config.green.vals(),
        StatusState::Yellow => config.yellow.vals(),
        StatusState::Red => config.red.vals(),
        StatusState::Orange => config.orange.vals(),
        StatusState::Blue => config.blue.vals(),
    }
}

/// Copy a string map.
pub fn clone_strmap(m: &StrMap) -> (r: StrMap)
    requires
        m.wf(),
    ensures
        r.wf(),
        r.keys() == m.keys(),
        r.vals() == m.vals(),
{
    let n = m.len();
    let mut r: StrMap = KeyMap::new();
    let mut i: usize = 0;
    while i < n
        invariant
            i <= n,
            m.wf(),
            r.wf(),
            n == m.spec_len(),
            r.keys() =~= m.keys().take(i as int),
            r.vals() =~= m.vals().take(i as int),
        decreases n - i,
    {
        proof {
            assert forall|j: int|
                0 <= j < i implies m.keys().take(i as int)[j] != m.keys()[i as int] by {
                assert(m.keys()[j] != m.keys()[i as int]);
            }
            crate::kmap::lemma_find_key_absent(m.keys().take(i as int), m.keys()[i as int]);
        }
        r.insert(m.key_at(i).clone(), m.val_at(i).clone());
        proof {
            assert(r.keys() =~= m.keys().take(i + 1 as int));
            assert(r.vals() =~= m.vals().take(i + 1 as int));
        }
        i = i + 1;
    }
    proof {
        assert(m.keys().take(n as int) =~= m.keys());
        assert(m.vals().take(n as int) =~= m.vals());
    }
    r
}

fn clone_palette(config: &CssMetadataConfig, s: StatusState) -> (r: StrMap)
    requires
        config.wf(),
    ensures
        r.wf(),
        r.keys() == palette_keys(config, s),
        r.vals() == palette_vals(config, s),
{
    match s {
        StatusState::Blank => clone_strmap(&config.blank),
        StatusState::Green => clone_strmap(&config.green),
        StatusState::Yellow => clone_strmap(&config.yellow),
        StatusState::Red => clone_strmap(&config.red),
        StatusState::Orange => clone_strmap(&config.orange),
        StatusState::Blue => clone_strmap(&config.blue),
    }
}

/// What finishing a run does to one status: the terminal tuple lands, a
/// green outcome folds the staged updates in, the staging area is consumed,
/// and the palette entry of the final colour is adopted.
pub open spec fn finish_status_spec(
    old_s: StatusView,
    status: StatusState,
    code: i64,
    description: Seq<char>,
    config: &CssMetadataConfig,
) -> StatusView {
    let pending = old_s.pending;
    let ps: Option<StatusState> = match pending {
        Some(p) => p.status,
        None => None,
    };
    let pd: Option<Seq<char>> = match pending {
        Some(p) => p.description,
        None => None,
    };
    let pmk: Option<Seq<Seq<char>>> = match pending {
        Some(p) => p.metadata_keys,
        None => None,
    };
    let pmv: Option<Seq<Seq<char>>> = match pending {
        Some(p) => p.metadata_vals,
        None => None,
    };
    let green = status == StatusState::Green;
    let fin_status: StatusState = if green && ps is Some {
        ps->Some_0
    } else {
        status
    };
    let fin_desc: Seq<char> = if green && pd is Some {
        pd->Some_0
    } else {
        description
    };
    let fin_mk: Seq<Seq<char>> = if green && pmk is Some {
        pmk->Some_0
    } else {
        Seq::empty()
    };
    let fin_mv: Seq<Seq<char>> = if green && pmv is Some {
        pmv->Some_0
    } else {
        Seq::empty()
    };
    StatusView {
        status: Some(fin_status),
        code,
        description: fin_desc,
        css_keys: palette_keys(config, fin_status),
        css_vals: palette_vals(config, fin_status),
        metadata_keys: fin_mk,
        metadata_vals: fin_mv,
        log: old_s.log,
        pending: None,
    }
}

impl MonitorStatus {
    /// Give a fresh status its placeholder: blank, with the blank palette.
    pub fn initialize(&mut self, config: &CssMetadataConfig)
        requires
            status_wf(old(self)),
            config.wf(),
        ensures
            status_wf(final(self)),
            final(self)@ == (StatusView {
                status: Some(StatusState::Blank),
                description: "Unknown (initializing)"@,
                css_keys: config.blank.keys(),
                css_vals: config.blank.vals(),
                ..old(self)@
            }),
    {
        self.description = String::from_str("Unknown (initializing)");
        self.status = Some(StatusState::Blank);
        self.css.metadata = clone_strmap(&config.blank);
        proof {
            assert(self@ =~~= (StatusView {
                status: Some(StatusState::Blank),
                description: "Unknown (initializing)"@,
                css_keys: config.blank.keys(),
                css_vals: config.blank.vals(),
                ..old(self)@
            }));
        }
    }

    /// Whether a staged colour is waiting.
    pub fn is_pending_status_set(&self) -> (r: bool)
        ensures
            r == (self@.pending is Some && self@.pending->Some_0.status is Some),
    {
        match &self.pending {
            Some(p) => p.status.is_some(),
            None => false,
        }
    }

    /// Whether this status has never completed a run.
    pub fn is_uninitialized(&self) -> (r: bool)
        ensures
            r == (self@.status is None),
    {
        self.status.is_none()
    }

    /// Finish a run, as `finish_status_spec` says.
    pub fn finish(&mut self, status: StatusState, code: i64, description: String, config: &CssMetadataConfig)
        requires
            status_wf(old(self)),
            config.wf(),
        ensures
            status_wf(final(self)),
            final(self)@ == finish_status_spec(old(self)@, status, code, description@, config),
    {
        let green = matches!(status, StatusState::Green);
        let mut fin_status: StatusState = status;
        let mut fin_desc: String = description;
        let mut fin_meta: StrMap = KeyMap::new();
        match &self.pending {
            Some(p) => {
                if green {
                    match &p.status {
                        Some(s) => {
                            fin_status = *s;
                        },
                        None => {},
                    }
                    match &p.description {
                        Some(d) => {
                            fin_desc = d.clone();
                        },
                        None => {},
                    }
                    match &p.metadata {
                        Some(m) => {
                            fin_meta = clone_strmap(m);
                        },
                        None => {},
                    }
                }
            },
            None => {},
        }
        self.pending = None;
        self.code = code;
        self.status = Some(fin_status);
        self.description = fin_desc;
        self.metadata = fin_meta;
        self.css.metadata = clone_palette(config, fin_status);
        proof {
            assert(self@ =~~= finish_status_spec(old(self)@, status, code, description@, config));
        }
    }
}

/// What a valid directive leaves behind: the staged update landed on its
/// target, and the directive was logged as applied metadata.
pub open spec fn meta_case(
    old_status: StatusView,
    old_ck: Seq<Seq<char>>,
    old_cv: Seq<ChildView>,
    new_status: StatusView,
    new_ck: Seq<Seq<char>>,
    new_cv: Seq<ChildView>,
    target: Option<Seq<char>>,
    op: crate::interpolate::StageView,
    expr: Seq<char>,
    cap: nat,
) -> bool {
    match target {
        None => new_status == (StatusView {
            log: push_log(old_status.log, log_line_spec("meta  "@, expr), cap),
            ..crate::interpolate::stage_spec(old_status, op)
        }) && new_ck == old_ck && new_cv == old_cv,
        Some(id) => new_status == (StatusView {
            log: push_log(old_status.log, log_line_spec("meta  "@, expr), cap),
            ..old_status
        }) && (new_ck, new_cv) == crate::interpolate::children_staged(old_ck, old_cv, id, op),
    }
}

/// A log line, capped: the newest line enters, the oldest leaves when the
/// bound is exceeded.
pub open spec fn push_log(log: Seq<Seq<char>>, line: Seq<char>, cap: nat) -> Seq<Seq<char>> {
    let l = log.push(line);
    if l.len() > cap {
        l.skip(l.len() - cap)
    } else {
        l
    }
}

/// The log rendering of a line: the stream tag, then the line with
/// trailing whitespace removed.
pub open spec fn log_line_spec(tag: Seq<char>, message: Seq<char>) -> Seq<char> {
    "["@ + tag + "] "@ + trim_end_spec(message)
}

/// The state of one monitor: its identity, probe, status and children.
pub struct MonitorState {
    pub id: String,
    pub config: MonitorDirTestConfig,
    pub status: MonitorStatus,
    pub css: Option<String>,
    pub children: KeyMap<MonitorChildStatus>,
    pub log_cap: usize,
}

/// A well-formed monitor state: its maps are well formed and the log is
/// within its bound.
pub open spec fn state_wf(s: &MonitorState) -> bool {
    &&& status_wf(&s.status)
    &&& s.children.wf()
    &&& s.log_cap >= 1
    &&& s.status.log@.len() <= s.log_cap
    &&& forall|i: int|
        0 <= i < s.children.vals().len() ==> child_wf_at(#[trigger] s.children.vals()[i])
}

/// A well-formed status shape: positional maps match and keys are
/// distinct.
pub open spec fn status_view_wf(v: StatusView) -> bool {
    &&& v.metadata_keys.len() == v.metadata_vals.len()
    &&& (forall|a: int, b: int|
        0 <= a < b < v.metadata_keys.len() ==> v.metadata_keys[a] != v.metadata_keys[b])
    &&& v.css_keys.len() == v.css_vals.len()
    &&& (forall|a: int, b: int| 0 <= a < b < v.css_keys.len() ==> v.css_keys[a] != v.css_keys[b])
    &&& match v.pending {
        Some(p) => (p.metadata_keys is Some) == (p.metadata_vals is Some) && (match (
            p.metadata_keys,
            p.metadata_vals,
        ) {
            (Some(mk), Some(mv)) => mk.len() == mv.len() && forall|a: int, b: int|
                0 <= a < b < mk.len() ==> mk[a] != mk[b],
            _ => true,
        }),
        None => true,
    }
}

/// A well-formed child: its axes map and its status shape are well formed.
pub open spec fn child_wf_at(c: ChildView) -> bool {
    &&& status_view_wf(c.status)
    &&& c.axis_keys.len() == c.axis_vals.len()
    &&& forall|a: int, b: int| 0 <= a < b < c.axis_keys.len() ==> c.axis_keys[a] != c.axis_keys[b]
}

/// The default bound on retained log lines.
pub const DEFAULT_LOG_CAP: usize = 100;

impl MonitorState {
    /// The state a monitor starts from: its configuration's children, all
    /// statuses empty.
    pub fn new(config: &MonitorDirConfig) -> (r: MonitorState)
        requires
            config.root.test_ready(),
            match config.root {
                MonitorDirRootConfig::Group(g) => g.children.wf() && forall|i: int|
                    0 <= i < g.children.vals().len() ==> crate::config::child_cfg_wf(
                        #[trigger] g.children.vals()[i],
                    ),
                _ => true,
            },
        ensures
            state_wf(&r),
            r.id@ == config.id@,
            r.config@ == config.root.spec_test(),
            r.status@.status is None,
            r.status@.pending is None,
            r.css is None,
            match config.root {
                MonitorDirRootConfig::Group(g) => r.children.keys() == g.children.keys(),
                _ => r.children.keys() == Seq::<Seq<char>>::empty(),
            },
            forall|i: int|
                0 <= i < r.children.vals().len() ==> (#[trigger] r.children.vals()[i]).status.status
                    is None && r.children.vals()[i].status.pending is None,
    {
        let mut children: KeyMap<MonitorChildStatus> = KeyMap::new();
        match &config.root {
            MonitorDirRootConfig::Group(g) => {
                let n = g.children.len();
                let mut i: usize = 0;
                while i < n
                    invariant
                        i <= n,
                        g.children.wf(),
                        n == g.children.spec_len(),
                        children.wf(),
                        forall|j: int|
                            0 <= j < g.children.vals().len() ==> crate::config::child_cfg_wf(
                                #[trigger] g.children.vals()[j],
                            ),
                        children.keys() =~= g.children.keys().take(i as int),
                        forall|j: int|
                            0 <= j < children.vals().len() ==> (
                            #[trigger] children.vals()[j]).status.status is None
                                && children.vals()[j].status.pending is None && child_wf_at(
                                children.vals()[j],
                            ),
                    decreases n - i,
                {
                    proof {
                        assert forall|j: int|
                            0 <= j < i implies g.children.keys().take(i as int)[j]
                            != g.children.keys()[i as int] by {
                            assert(g.children.keys()[j] != g.children.keys()[i as int]);
                        }
                        crate::kmap::lemma_find_key_absent(
                            g.children.keys().take(i as int),
                            g.children.keys()[i as int],
                        );
                    }
                    let child_cfg = g.children.val_at(i);
                    proof {
                        assert(crate::config::child_cfg_wf(g.children.vals()[i as int]));
                        assert(child_cfg.axes.wf());
                    }
                    let mut axes: KeyMap<MonitorDirAxisValue> = KeyMap::new();
                    let an = child_cfg.axes.len();
                    let mut a: usize = 0;
                    while a < an
                        invariant
                            a <= an,
                            child_cfg.axes.wf(),
                            an == child_cfg.axes.spec_len(),
                            axes.wf(),
                        decreases an - a,
                    {
                        axes.insert(child_cfg.axes.key_at(a).clone(), child_cfg.axes.val_at(a).clone());
                        a = a + 1;
                    }
                    let child = MonitorChildStatus { axes, status: empty_status() };
                    children.insert(g.children.key_at(i).clone(), child);
                    proof {
                        assert(children.keys() =~= g.children.keys().take(i + 1 as int));
                    }
                    i = i + 1;
                }
                proof {
                    assert(g.children.keys().take(n as int) =~= g.children.keys());
                }
            },
            _ => {},
        }
        let r = MonitorState {
            id: config.id.clone(),
            config: config.root.test().clone(),
            status: empty_status(),
            css: None,
            children,
            log_cap: DEFAULT_LOG_CAP,
        };
        proof {
            if !(config.root is Group) {
                assert(r.children.keys() =~= Seq::<Seq<char>>::empty());
            }
        }
        r
    }

    /// Append one tagged line to the log, evicting the oldest past the cap.
    fn log_push(&mut self, line: String)
        requires
            state_wf(old(self)),
        ensures
            state_wf(final(self)),
            final(self).status@ == (StatusView {
                log: push_log(old(self).status@.log, line@, old(self).log_cap as nat),
                ..old(self).status@
            }),
            final(self).id == old(self).id,
            final(self).config == old(self).config,
            final(self).css == old(self).css,
            final(self).children == old(self).children,
            final(self).log_cap == old(self).log_cap,
    {
        let ghost pre: Seq<String> = self.status.log@;
        let ghost pre_dv: Seq<Seq<char>> = self.status.log.deep_view();
        let ghost lv: Seq<char> = line@;
        self.status.log.push(line);
        proof {
            assert forall|j: int|
                0 <= j < self.status.log@.len() implies self.status.log.deep_view()[j]
                == pre_dv.push(lv)[j] by {
                assert(self.status.log.deep_view()[j] == self.status.log@[j]@);
                if j < pre.len() {
                    assert(self.status.log@[j] == pre[j]);
                    assert(pre_dv[j] == pre[j]@);
                }
            }
            assert(self.status.log.deep_view() =~= pre_dv.push(lv));
        }
        if self.status.log.len() > self.log_cap {
            let ghost mid: Seq<String> = self.status.log@;
            let ghost mid_dv: Seq<Seq<char>> = self.status.log.deep_view();
            let _evicted = self.status.log.remove(0);
            proof {
                assert(self.status.log@ =~= mid.skip(1));
                assert forall|j: int|
                    0 <= j < self.status.log@.len() implies self.status.log.deep_view()[j]
                    == mid_dv.skip(1)[j] by {
                    assert(self.status.log.deep_view()[j] == self.status.log@[j]@);
                    assert(self.status.log@[j] == mid[j + 1]);
                    assert(mid_dv[j + 1] == mid[j + 1]@);
                }
                assert(self.status.log.deep_view() =~= mid_dv.skip(1));
                assert(self.status.log.deep_view() =~= push_log(
                    pre_dv,
                    lv,
                    old(self).log_cap as nat,
                ));
            }
        } else {
            proof {
                assert(self.status.log.deep_view() =~= push_log(
                    pre_dv,
                    lv,
                    old(self).log_cap as nat,
                ));
            }
        }
        proof {
            assert(final(self).status@ =~~= (StatusView {
                log: push_log(old(self).status@.log, lv, old(self).log_cap as nat),
                ..old(self).status@
            }));
        }
    }

    /// Append one stream-tagged message to the log.
    fn process_log_message(&mut self, tag: &str, message: &str)
        requires
            state_wf(old(self)),
        ensures
            state_wf(final(self)),
            final(self).status@ == (StatusView {
                log: push_log(
                    old(self).status@.log,
                    log_line_spec(tag@, message@),
                    old(self).log_cap as nat,
                ),
                ..old(self).status@
            }),
            final(self).id == old(self).id,
            final(self).config == old(self).config,
            final(self).css == old(self).css,
            final(self).children == old(self).children,
            final(self).log_cap == old(self).log_cap,
    {
        let mut line: Vec<char> = Vec::new();
        push_str_chars(&mut line, "[");
        push_str_chars(&mut line, tag);
        push_str_chars(&mut line, "] ");
        let mc = string_to_chars(message);
        let trimmed = trim_end_chars(&mc);
        push_chars(&mut line, &trimmed);
        proof {
            assert(line@ =~= log_line_spec(tag@, message@));
        }
        self.log_push(chars_to_string(&line));
    }

    /// What a terminal outcome does to one child: a child with a staged
    /// colour, or any non-green outcome, takes the terminal tuple; a green
    /// outcome leaves an untouched child blank.
    pub open spec fn finish_child_spec(
        c: ChildView,
        status: StatusState,
        code: i64,
        description: Seq<char>,
        config: &CssMetadataConfig,
    ) -> ChildView {
        if (c.status.pending is Some && c.status.pending->Some_0.status is Some) || status
            != StatusState::Green {
            ChildView {
                status: finish_status_spec(c.status, status, code, description, config),
                ..c
            }
        } else {
            ChildView {
                status: finish_status_spec(
                    c.status,
                    StatusState::Blank,
                    code,
                    Seq::empty(),
                    config,
                ),
                ..c
            }
        }
    }

    /// Finish the run: the memoised stylesheet is dropped, every child is
    /// finished per `finish_child_spec`, and the monitor's own status per
    /// `finish_status_spec`.
    fn finish(&mut self, status: StatusState, code: i64, description: String, config: &CssMetadataConfig)
        requires
            state_wf(old(self)),
            config.wf(),
        ensures
            state_wf(final(self)),
            final(self).css is None,
            final(self).children.keys() == old(self).children.keys(),
            final(self).children.vals().len() == old(self).children.vals().len(),
            forall|i: int|
                0 <= i < final(self).children.vals().len()
                    ==> #[trigger] final(self).children.vals()[i]
                    == MonitorState::finish_child_spec(
                    old(self).children.vals()[i],
                    status,
                    code,
                    description@,
                    config,
                ),
            final(self).status@ == finish_status_spec(
                old(self).status@,
                status,
                code,
                description@,
                config,
            ),
            final(self).id == old(self).id,
            final(self).config == old(self).config,
            final(self).log_cap == old(self).log_cap,
    {
        self.css = None;
        let n = self.children.len();
        let mut i: usize = 0;
        while i < n
            invariant
                i <= n,
                config.wf(),
                self.children.wf(),
                n == self.children.spec_len(),
                self.children.keys() == old(self).children.keys(),
                self.children.vals().len() == old(self).children.vals().len(),
                forall|j: int|
                    0 <= j < i ==> #[trigger] self.children.vals()[j]
                        == MonitorState::finish_child_spec(
                        old(self).children.vals()[j],
                        status,
                        code,
                        description@,
                        config,
                    ),
                forall|j: int|
                    i <= j < n ==> #[trigger] self.children.vals()[j] == old(
                        self,
                    ).children.vals()[j],
                forall|j: int|
                    0 <= j < self.children.vals().len() ==> child_wf_at(
                        #[trigger] self.children.vals()[j],
                    ),
                self.css is None,
                status_wf(&self.status),
                self.status == old(self).status,
                self.log_cap == old(self).log_cap,
                self.log_cap >= 1,
                self.status.log@.len() <= self.log_cap,
                self.id == old(self).id,
                self.config == old(self).config,
            decreases n - i,
        {
            let child = self.children.val_at(i);
            proof {
                assert(child_wf_at(self.children.vals()[i as int]));
                assert(child.status.metadata.wf());
                assert(child.status.css.metadata.wf());
                assert(status_wf(&child.status));
                assert(child.axes.wf());
            }
            let pending_set = child.status.is_pending_status_set();
            let green = matches!(status, StatusState::Green);
            let mut new_status = clone_status(&child.status);
            let new_axes = clone_axes(&child.axes);
            if pending_set || !green {
                new_status.finish(status, code, description.clone(), config);
            } else {
                new_status.finish(StatusState::Blank, code, String::new(), config);
            }
            let updated = MonitorChildStatus { axes: new_axes, status: new_status };
            proof {
                assert(updated@ =~~= MonitorState::finish_child_spec(
                    old(self).children.vals()[i as int],
                    status,
                    code,
                    description@,
                    config,
                ));
            }
            self.children.set_val_at(i, updated);
            i = i + 1;
        }
        self.status.finish(status, code, description, config);
        proof {
            assert(self.status@.log == old(self).status@.log);
            assert(self.status.log@.len() == self.status.log.deep_view().len());
            assert(old(self).status.log@.len() == old(self).status.log.deep_view().len());
        }
    }

    /// Feed one worker event through the state machine: `Starting` clears
    /// the staging area and the log, lines are logged, directives stage
    /// updates or log their failure, and a terminal event finishes the run.
    pub fn process_message(&mut self, msg: WorkerMessage, config: &CssMetadataConfig)
        requires
            state_wf(old(self)),
            config.wf(),
        ensures
            state_wf(final(self)),
            match msg@ {
                crate::worker::EventView::Starting => final(self).status@ == (StatusView {
                    pending: None,
                    log: Seq::empty(),
                    ..old(self).status@
                }) && final(self).children == old(self).children && final(self).css == old(
                    self,
                ).css,
                crate::worker::EventView::Log(st, m) => final(self).status@ == (StatusView {
                    log: push_log(
                        old(self).status@.log,
                        log_line_spec(stream_tag(st), m),
                        old(self).log_cap as nat,
                    ),
                    ..old(self).status@
                }) && final(self).children == old(self).children && final(self).css == old(
                    self,
                ).css,
                crate::worker::EventView::Meta(expr) => {
                    let cap = old(self).log_cap as nat;
                    final(self).css == old(self).css && match crate::interpolate::modify_view(
                        expr,
                    ) {
                        crate::interpolate::ModView::Invalid => final(self).status@ == (StatusView {
                            log: push_log(
                                push_log(
                                    old(self).status@.log,
                                    log_line_spec("error "@, expr),
                                    cap,
                                ),
                                log_line_spec("error "@, "invalid directive"@),
                                cap,
                            ),
                            ..old(self).status@
                        }) && final(self).children.keys() == old(self).children.keys()
                            && final(self).children.vals() == old(self).children.vals(),
                        crate::interpolate::ModView::SetStatus(t, c) => meta_case(
                            old(self).status@,
                            old(self).children.keys(),
                            old(self).children.vals(),
                            final(self).status@,
                            final(self).children.keys(),
                            final(self).children.vals(),
                            t,
                            crate::interpolate::StageView::St(c),
                            expr,
                            cap,
                        ),
                        crate::interpolate::ModView::SetDesc(t, d) => meta_case(
                            old(self).status@,
                            old(self).children.keys(),
                            old(self).children.vals(),
                            final(self).status@,
                            final(self).children.keys(),
                            final(self).children.vals(),
                            t,
                            crate::interpolate::StageView::De(d),
                            expr,
                            cap,
                        ),
                        crate::interpolate::ModView::SetMeta(t, k, v) => meta_case(
                            old(self).status@,
                            old(self).children.keys(),
                            old(self).children.vals(),
                            final(self).status@,
                            final(self).children.keys(),
                            final(self).children.vals(),
                            t,
                            crate::interpolate::StageView::Me(k, v),
                            expr,
                            cap,
                        ),
                    }
                },
                crate::worker::EventView::Abnormal(reason) => final(self).css is None
                    && final(self).status@ == finish_status_spec(
                    old(self).status@,
                    StatusState::Yellow,
                    -1i64,
                    reason,
                    config,
                ) && final(self).children.keys() == old(self).children.keys() && forall|i: int|
                    0 <= i < final(self).children.vals().len()
                        ==> #[trigger] final(self).children.vals()[i]
                        == MonitorState::finish_child_spec(
                        old(self).children.vals()[i],
                        StatusState::Yellow,
                        -1i64,
                        reason,
                        config,
                    ),
                crate::worker::EventView::Term(code) => {
                    let colour = if code == 0 {
                        StatusState::Green
                    } else {
                        StatusState::Red
                    };
                    let desc: Seq<char> = if code == 0 {
                        "Success"@
                    } else {
                        "Failed"@
                    };
                    final(self).css is None && final(self).status@ == finish_status_spec(
                        old(self).status@,
                        colour,
                        code,
                        desc,
                        config,
                    ) && final(self).children.keys() == old(self).children.keys() && forall|i: int|
                        0 <= i < final(self).children.vals().len()
                            ==> #[trigger] final(self).children.vals()[i]
                            == MonitorState::finish_child_spec(
                            old(self).children.vals()[i],
                            colour,
                            code,
                            desc,
                            config,
                        )
                },
            },
    {
        match msg {
            WorkerMessage::Starting => {
                self.status.pending = None;
                self.status.log = Vec::new();
                proof {
                    assert(self.status.log.deep_view() =~= Seq::<Seq<char>>::empty());
                    assert(final(self).status@ =~~= (StatusView {
                        pending: None,
                        log: Seq::empty(),
                        ..old(self).status@
                    }));
                }
            },
            WorkerMessage::LogMessage(stream, m) => {
                let tag: &str = match stream {
                    LogStream::StdOut => "stdout",
                    LogStream::StdErr => "stderr",
                };
                self.process_log_message(tag, m.as_str());
            },
            WorkerMessage::Metadata(expr) => {
                let ghost old_status: StatusView = self.status@;
                let ghost old_ck: Seq<Seq<char>> = self.children.keys();
                let ghost old_cv: Seq<ChildView> = self.children.vals();
                let ghost cap: nat = self.log_cap as nat;
                let outcome = crate::interpolate::interpolate_modify(
                    &mut self.status,
                    &mut self.children,
                    expr.as_str(),
                );
                match outcome {
                    Ok(_) => {
                        self.process_log_message("meta  ", expr.as_str());
                        proof {
                            let line = log_line_spec("meta  "@, expr@);
                            match crate::interpolate::modify_view(expr@) {
                                crate::interpolate::ModView::Invalid => {},
                                crate::interpolate::ModView::SetStatus(t, c) => {
                                    assert(meta_case(
                                        old_status,
                                        old_ck,
                                        old_cv,
                                        self.status@,
                                        self.children.keys(),
                                        self.children.vals(),
                                        t,
                                        crate::interpolate::StageView::St(c),
                                        expr@,
                                        cap,
                                    )) by {
                                        match t {
                                            None => {
                                                assert(self.status@ =~~= (StatusView {
                                                    log: push_log(old_status.log, line, cap),
                                                    ..crate::interpolate::stage_spec(
                                                        old_status,
                                                        crate::interpolate::StageView::St(c),
                                                    )
                                                }));
                                            },
                                            Some(_) => {
                                                assert(self.status@ =~~= (StatusView {
                                                    log: push_log(old_status.log, line, cap),
                                                    ..old_status
                                                }));
                                            },
                                        }
                                    }
                                },
                                crate::interpolate::ModView::SetDesc(t, d) => {
                                    assert(meta_case(
                                        old_status,
                                        old_ck,
                                        old_cv,
                                        self.status@,
                                        self.children.keys(),
                                        self.children.vals(),
                                        t,
                                        crate::interpolate::StageView::De(d),
                                        expr@,
                                        cap,
                                    )) by {
                                        match t {
                                            None => {
                                                assert(self.status@ =~~= (StatusView {
                                                    log: push_log(old_status.log, line, cap),
                                                    ..crate::interpolate::stage_spec(
                                                        old_status,
                                                        crate::interpolate::StageView::De(d),
                                                    )
                                                }));
                                            },
                                            Some(_) => {
                                                assert(self.status@ =~~= (StatusView {
                                                    log: push_log(old_status.log, line, cap),
                                                    ..old_status
                                                }));
                                            },
                                        }
                                    }
                                },
                                crate::interpolate::ModView::SetMeta(t, k, v) => {
                                    assert(meta_case(
                                        old_status,
                                        old_ck,
                                        old_cv,
                                        self.status@,
                                        self.children.keys(),
                                        self.children.vals(),
                                        t,
                                        crate::interpolate::StageView::Me(k, v),
                                        expr@,
                                        cap,
                                    )) by {
                                        match t {
                                            None => {
                                                assert(self.status@ =~~= (StatusView {
                                                    log: push_log(old_status.log, line, cap),
                                                    ..crate::interpolate::stage_spec(
                                                        old_status,
                                                        crate::interpolate::StageView::Me(k, v),
                                                    )
                                                }));
                                            },
                                            Some(_) => {
                                                assert(self.status@ =~~= (StatusView {
                                                    log: push_log(old_status.log, line, cap),
                                                    ..old_status
                                                }));
                                            },
                                        }
                                    }
                                },
                            }
                        }
                    },
                    Err(message) => {
                        self.process_log_message("error ", expr.as_str());
                        self.process_log_message("error ", message.as_str());
                        proof {
                            if crate::interpolate::modify_view(expr@) is Invalid {
                                assert(self.status@ =~~= (StatusView {
                                    log: push_log(
                                        push_log(
                                            old_status.log,
                                            log_line_spec("error "@, expr@),
                                            cap,
                                        ),
                                        log_line_spec("error "@, "invalid directive"@),
                                        cap,
                                    ),
                                    ..old_status
                                }));
                            }
                        }
                    },
                }
            },
            WorkerMessage::AbnormalTermination(reason) => {
                self.finish(StatusState::Yellow, -1, reason, config);
            },
            WorkerMessage::Termination(code) => {
                if code == 0 {
                    self.finish(StatusState::Green, code, String::from_str("Success"), config);
                } else {
                    self.finish(StatusState::Red, code, String::from_str("Failed"), config);
                }
            },
        }
    }
}

/// Copy a monitor status.
pub fn clone_status(s: &MonitorStatus) -> (r: MonitorStatus)
    requires
        status_wf(s),
    ensures
        status_wf(&r),
        r@ == s@,
{
    let pending: Option<MonitorPendingStatus> = match &s.pending {
        Some(p) => Some(
            MonitorPendingStatus {
                status: p.status,
                description: match &p.description {
                    Some(d) => Some(d.clone()),
                    None => None,
                },
                metadata: match &p.metadata {
                    Some(m) => Some(clone_strmap(m)),
                    None => None,
                },
            },
        ),
        None => None,
    };
    let r = MonitorStatus {
        status: s.status,
        code: s.code,
        description: s.description.clone(),
        css: MonitorCssStatus { metadata: clone_strmap(&s.css.metadata) },
        metadata: clone_strmap(&s.metadata),
        log: crate::config::clone_strings(&s.log),
        pending,
    };
    proof {
        assert(r@ =~~= s@);
    }
    r
}

/// Copy an axes map.
pub fn clone_axes(m: &KeyMap<MonitorDirAxisValue>) -> (r: KeyMap<MonitorDirAxisValue>)
    requires
        m.wf(),
    ensures
        r.wf(),
        r.keys() == m.keys(),
        r.vals() == m.vals(),
{
    let n = m.len();
    let mut r: KeyMap<MonitorDirAxisValue> = KeyMap::new();
    let mut i: usize = 0;
    while i < n
        invariant
            i <= n,
            m.wf(),
            r.wf(),
            n == m.spec_len(),
            r.keys() =~= m.keys().take(i as int),
            r.vals() =~= m.vals().take(i as int),
        decreases n - i,
    {
        proof {
            assert forall|j: int|
                0 <= j < i implies m.keys().take(i as int)[j] != m.keys()[i as int] by {
                assert(m.keys()[j] != m.keys()[i as int]);
            }
            crate::kmap::lemma_find_key_absent(m.keys().take(i as int), m.keys()[i as int]);
        }
        r.insert(m.key_at(i).clone(), m.val_at(i).clone());
        proof {
            assert(r.keys() =~= m.keys().take(i + 1 as int));
            assert(r.vals() =~= m.vals().take(i + 1 as int));
        }
        i = i + 1;
    }
    proof {
        assert(m.keys().take(n as int) =~= m.keys());
        assert(m.vals().take(n as int) =~= m.vals());
    }
    r
}

/// After any terminal event, the status holds a colour and the staging
/// area is consumed.
pub proof fn lemma_terminal_resolves(
    s: StatusView,
    status: StatusState,
    code: i64,
    description: Seq<char>,
    config: &CssMetadataConfig,
)
    ensures
        finish_status_spec(s, status, code, description, config).status is Some,
        finish_status_spec(s, status, code, description, config).pending is None,
{
}

/// After a parent's clean green outcome, a child with no staged colour is
/// blanked: colour blank, empty description, nothing staged, no metadata.
pub proof fn lemma_green_blanks_untouched_child(
    c: ChildView,
    code: i64,
    description: Seq<char>,
    config: &CssMetadataConfig,
)
    requires
        !(c.status.pending is Some && c.status.pending->Some_0.status is Some),
    ensures
        MonitorState::finish_child_spec(c, StatusState::Green, code, description, config).status.status
            == Some(StatusState::Blank),
        MonitorState::finish_child_spec(c, StatusState::Green, code, description, config).status.description
            == Seq::<char>::empty(),
        MonitorState::finish_child_spec(c, StatusState::Green, code, description, config).status.code
            == code,
        MonitorState::finish_child_spec(c, StatusState::Green, code, description, config).status.pending
            is None,
        MonitorState::finish_child_spec(c, StatusState::Green, code, description, config).status.metadata_keys
            == Seq::<Seq<char>>::empty(),
{
}

/// After a non-green terminal outcome, every child takes the parent's
/// terminal colour, code and description, whatever it had staged: its
/// staging area is discarded and its metadata cleared.
pub proof fn lemma_non_green_overrides_children(
    c: ChildView,
    status: StatusState,
    code: i64,
    description: Seq<char>,
    config: &CssMetadataConfig,
)
    requires
        status != StatusState::Green,
    ensures
        MonitorState::finish_child_spec(c, status, code, description, config).status.status
            == Some(status),
        MonitorState::finish_child_spec(c, status, code, description, config).status.code == code,
        MonitorState::finish_child_spec(c, status, code, description, config).status.description
            == description,
        MonitorState::finish_child_spec(c, status, code, description, config).status.pending
            is None,
        MonitorState::finish_child_spec(c, status, code, description, config).status.metadata_keys
            == Seq::<Seq<char>>::empty(),
{
}

/// The whole-table form of the green rule: a clean green run with no child
/// staged leaves every child blank, with an empty description and nothing
/// pending; the parent's own status follows `finish_status_spec` with its
/// staged overrides folded in.
pub proof fn lemma_green_blanks_all_children(
    old_cv: Seq<ChildView>,
    new_cv: Seq<ChildView>,
    code: i64,
    description: Seq<char>,
    config: &CssMetadataConfig,
)
    requires
        new_cv.len() == old_cv.len(),
        forall|i: int|
            0 <= i < new_cv.len() ==> #[trigger] new_cv[i] == MonitorState::finish_child_spec(
                old_cv[i],
                StatusState::Green,
                code,
                description,
                config,
            ),
        forall|i: int|
            0 <= i < old_cv.len() ==> !((#[trigger] old_cv[i]).status.pending is Some
                && old_cv[i].status.pending->Some_0.status is Some),
    ensures
        forall|i: int|
            0 <= i < new_cv.len() ==> {
                &&& (#[trigger] new_cv[i]).status.status == Some(StatusState::Blank)
                &&& new_cv[i].status.description == Seq::<char>::empty()
                &&& new_cv[i].status.code == code
                &&& new_cv[i].status.pending is None
                &&& new_cv[i].status.metadata_keys == Seq::<Seq<char>>::empty()
            },
{
    assert forall|i: int| 0 <= i < new_cv.len() implies {
        &&& (#[trigger] new_cv[i]).status.status == Some(StatusState::Blank)
        &&& new_cv[i].status.description == Seq::<char>::empty()
        &&& new_cv[i].status.code == code
        &&& new_cv[i].status.pending is None
        &&& new_cv[i].status.metadata_keys == Seq::<Seq<char>>::empty()
    } by {
        lemma_green_blanks_untouched_child(old_cv[i], code, description, config);
    }
}

/// The whole-table form of the non-green rule: after a failed or abnormal
/// run, every child carries the parent's terminal colour, code and
/// description, with nothing staged and no metadata.
pub proof fn lemma_non_green_overrides_all_children(
    old_cv: Seq<ChildView>,
    new_cv: Seq<ChildView>,
    status: StatusState,
    code: i64,
    description: Seq<char>,
    config: &CssMetadataConfig,
)
    requires
        status != StatusState::Green,
        new_cv.len() == old_cv.len(),
        forall|i: int|
            0 <= i < new_cv.len() ==> #[trigger] new_cv[i] == MonitorState::finish_child_spec(
                old_cv[i],
                status,
                code,
                description,
                config,
            ),
    ensures
        forall|i: int|
            0 <= i < new_cv.len() ==> {
                &&& (#[trigger] new_cv[i]).status.status == Some(status)
                &&& new_cv[i].status.code == code
                &&& new_cv[i].status.description == description
                &&& new_cv[i].status.pending is None
                &&& new_cv[i].status.metadata_keys == Seq::<Seq<char>>::empty()
            },
{
    assert forall|i: int| 0 <= i < new_cv.len() implies {
        &&& (#[trigger] new_cv[i]).status.status == Some(status)
        &&& new_cv[i].status.code == code
        &&& new_cv[i].status.description == description
        &&& new_cv[i].status.pending is None
        &&& new_cv[i].status.metadata_keys == Seq::<Seq<char>>::empty()
    } by {
        lemma_non_green_overrides_children(old_cv[i], status, code, description, config);
    }
}

} // verus!
