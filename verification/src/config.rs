//! The typed configuration model: global server and CSS settings, and the
//! per-monitor probe configuration, including group-child materialisation.
use vstd::prelude::*;

use crate::kmap::KeyMap;
use crate::monitor::MonitorMessageProcessor;

verus! {

/// An ordered mapping from string keys to string values.
pub type StrMap = KeyMap<String>;

fn default_server_port() -> (r: u16)
    ensures
        r == 80,
{
    80
}

fn default_listen_addr() -> (r: String)
    ensures
        r@ == "0.0.0.0"@,
{
    String::from_str("0.0.0.0")
}

/// The static-file directory assumed when none is configured.
pub fn default_server_static() -> (r: String)
    ensures
        r@ == "static"@,
{
    String::from_str("static")
}

fn default_monitor_dir() -> (r: String)
    ensures
        r@ == "monitor.d"@,
{
    String::from_str("monitor.d")
}

/// The HTTP server settings.
pub struct ServerConfig {
    pub port: u16,
    pub listen_addr: String,
    pub static_path: Option<String>,
}

impl Default for ServerConfig {
    fn default() -> (r: Self)
        ensures
            r.port == 80,
            r.listen_addr@ == "0.0.0.0"@,
            r.static_path matches Some(p) && p@ == "static"@,
    {
        ServerConfig {
            port: default_server_port(),
            listen_addr: default_listen_addr(),
            static_path: Some(default_server_static()),
        }
    }
}

/// Where the monitor directory lives.
pub struct MonitorConfig {
    pub dir: String,
}

impl Default for MonitorConfig {
    fn default() -> (r: Self)
        ensures
            r.dir@ == "monitor.d"@,
    {
        MonitorConfig { dir: default_monitor_dir() }
    }
}

/// One user-defined stylesheet rule: templated selectors and declarations.
pub struct CssRule {
    pub selectors: String,
    pub declarations: String,
}

/// The palette: one mapping of CSS properties per status colour.
pub struct CssMetadataConfig {
    pub blank: StrMap,
    pub red: StrMap,
    pub yellow: StrMap,
    pub green: StrMap,
    pub blue: StrMap,
    pub orange: StrMap,
}

impl CssMetadataConfig {
    pub open spec fn wf(&self) -> bool {
        self.blank.wf() && self.red.wf() && self.yellow.wf() && self.green.wf() && self.blue.wf()
            && self.orange.wf()
    }
}

impl Default for CssMetadataConfig {
    fn default() -> (r: Self)
        ensures
            r.wf(),
            r.blank.spec_len() == 0,
            r.red.spec_len() == 0,
            r.yellow.spec_len() == 0,
            r.green.spec_len() == 0,
            r.blue.spec_len() == 0,
            r.orange.spec_len() == 0,
    {
        CssMetadataConfig {
            blank: KeyMap::new(),
            red: KeyMap::new(),
            yellow: KeyMap::new(),
            green: KeyMap::new(),
            blue: KeyMap::new(),
            orange: KeyMap::new(),
        }
    }
}

/// The stylesheet settings: the palette and the user rules.
pub struct CssConfig {
    pub metadata: CssMetadataConfig,
    pub rules: Vec<CssRule>,
}

impl Default for CssConfig {
    fn default() -> (r: Self)
        ensures
            r.metadata.wf(),
            r.rules@.len() == 0,
    {
        CssConfig { metadata: Default::default(), rules: Vec::new() }
    }
}

/// The global configuration: server, monitor directory and stylesheet.
pub struct Config {
    pub version: u32,
    pub server: ServerConfig,
    pub monitor: MonitorConfig,
    pub css: CssConfig,
    pub base_path: String,
}

/// One value along a group axis.
pub enum MonitorDirAxisValue {
    String(String),
    Number(i64),
}

/// The mathematical shape of an axis value.
pub enum AxisValView {
    Str(Seq<char>),
    Int(i64),
}

impl View for MonitorDirAxisValue {
    type V = AxisValView;

    open spec fn view(&self) -> AxisValView {
        match self {
            MonitorDirAxisValue::String(s) => AxisValView::Str(s@),
            MonitorDirAxisValue::Number(n) => AxisValView::Int(*n),
        }
    }
}

impl DeepView for MonitorDirAxisValue {
    type V = AxisValView;

    open spec fn deep_view(&self) -> AxisValView {
        self.view()
    }
}

impl Clone for MonitorDirAxisValue {
    fn clone(&self) -> (r: Self)
        ensures
            r@ == self@,
    {
        match self {
            MonitorDirAxisValue::String(s) => MonitorDirAxisValue::String(s.clone()),
            MonitorDirAxisValue::Number(n) => MonitorDirAxisValue::Number(*n),
        }
    }
}

/// One axis of a group: a name and the values it ranges over.
pub struct MonitorDirAxisConfig {
    pub values: Vec<MonitorDirAxisValue>,
    pub name: String,
}

/// The timing and command of one probe.
pub struct MonitorDirTestConfig {
    pub interval_ms: u64,
    pub timeout_ms: u64,
    pub command: String,
    pub args: Vec<String>,
    pub processor: Option<MonitorMessageProcessor>,
}

/// The mathematical shape of a probe configuration.
pub struct TestCfgView {
    pub interval_ms: u64,
    pub timeout_ms: u64,
    pub command: Seq<char>,
    pub args: Seq<Seq<char>>,
    pub processor: Option<crate::monitor::ProcCfgView>,
}

impl View for MonitorDirTestConfig {
    type V = TestCfgView;

    open spec fn view(&self) -> TestCfgView {
        TestCfgView {
            interval_ms: self.interval_ms,
            timeout_ms: self.timeout_ms,
            command: self.command@,
            args: self.args.deep_view(),
            processor: match self.processor {
                Some(p) => Some(p@),
                None => None,
            },
        }
    }
}

/// Copy a vector of strings.
pub fn clone_strings(v: &Vec<String>) -> (r: Vec<String>)
    ensures
        r.deep_view() == v.deep_view(),
{
    let mut r: Vec<String> = Vec::new();
    let mut i: usize = 0;
    while i < v.len()
        invariant
            i <= v@.len(),
            r@.len() == i,
            forall|j: int| 0 <= j < i ==> #[trigger] r@[j]@ == v@[j]@,
        decreases v@.len() - i,
    {
        r.push(v[i].clone());
        i = i + 1;
    }
    proof {
        assert forall|j: int| 0 <= j < v@.len() implies r.deep_view()[j] == v.deep_view()[j] by {
            assert(r@[j]@ == v@[j]@);
        }
        assert(r.deep_view() =~= v.deep_view());
    }
    r
}

impl Clone for MonitorDirTestConfig {
    fn clone(&self) -> (r: Self)
        ensures
            r@ == self@,
    {
        let r = MonitorDirTestConfig {
            interval_ms: self.interval_ms,
            timeout_ms: self.timeout_ms,
            command: self.command.clone(),
            args: clone_strings(&self.args),
            processor: match &self.processor {
                Some(p) => Some(p.clone()),
                None => None,
            },
        };
        proof {
            assert(r@ =~~= self@);
        }
        r
    }
}

impl Default for MonitorDirTestConfig {
    fn default() -> (r: Self)
        ensures
            r.interval_ms == 0,
            r.timeout_ms == 0,
            r.command@ == Seq::<char>::empty(),
            r.args@.len() == 0,
            r.processor is None,
    {
        let r = MonitorDirTestConfig {
            interval_ms: 0,
            timeout_ms: 0,
            command: String::new(),
            args: Vec::new(),
            processor: None,
        };
        r
    }
}

/// One materialised group child: its axis values and its probe.
pub struct MonitorDirChildConfig {
    pub axes: KeyMap<MonitorDirAxisValue>,
    pub test: MonitorDirTestConfig,
}

/// The mathematical shape of a group child configuration.
#[verifier::ext_equal]
pub struct ChildCfgView {
    pub axis_keys: Seq<Seq<char>>,
    pub axis_vals: Seq<AxisValView>,
    pub test: TestCfgView,
}

impl View for MonitorDirChildConfig {
    type V = ChildCfgView;

    open spec fn view(&self) -> ChildCfgView {
        ChildCfgView {
            axis_keys: self.axes.keys(),
            axis_vals: self.axes.vals(),
            test: self.test@,
        }
    }
}

/// A group probe: one test replicated over the product of its axes.
pub struct MonitorDirGroupConfig {
    pub id: String,
    pub test: MonitorDirTestConfig,
    pub axes: Vec<MonitorDirAxisConfig>,
    pub children: KeyMap<MonitorDirChildConfig>,
}

/// The tagged union of probe kinds.
pub enum MonitorDirRootConfig {
    Test(MonitorDirTestConfig),
    Group(MonitorDirGroupConfig),
    Snmp(crate::snmp::SnmpNetworkMonitorConfig),
}

impl MonitorDirRootConfig {
    /// The probe configuration this root runs; for an SNMP root it must have
    /// been materialised first.
    pub open spec fn spec_test(&self) -> TestCfgView {
        match self {
            MonitorDirRootConfig::Test(t) => t@,
            MonitorDirRootConfig::Group(g) => g.test@,
            MonitorDirRootConfig::Snmp(s) => s.test->Some_0@,
        }
    }

    pub open spec fn test_ready(&self) -> bool {
        match self {
            MonitorDirRootConfig::Snmp(s) => s.test is Some,
            _ => true,
        }
    }

    /// The probe configuration for this root.
    pub fn test(&self) -> (r: &MonitorDirTestConfig)
        requires
            self.test_ready(),
        ensures
            r@ == self.spec_test(),
    {
        match self {
            MonitorDirRootConfig::Test(t) => t,
            MonitorDirRootConfig::Group(g) => &g.test,
            MonitorDirRootConfig::Snmp(s) => match &s.test {
                Some(t) => t,
                None => vstd::pervasive::unreached(),
            },
        }
    }

    /// Materialise the probe configuration: for an SNMP root, synthesise the
    /// walk invocation; other roots already carry theirs.
    pub fn test_materialize(&mut self)
        ensures
            final(self).test_ready(),
            match *old(self) {
                MonitorDirRootConfig::Snmp(s) => (*final(self)) matches MonitorDirRootConfig::Snmp(s2)
                    && s2.test is Some && (s.test is Some ==> s2 == s) && (s.test is None
                    ==> s2.test->Some_0@ == crate::snmp::snmp_test_spec(&s) && s2.id == s.id
                    && s2.target == s.target && s2.interval_ms == s.interval_ms && s2.timeout_ms
                    == s.timeout_ms && s2.accept == s.accept && s2.exclude == s.exclude && s2.red
                    == s.red && s2.green == s.green && s2.children == s.children),
                _ => *final(self) == *old(self),
            },
    {
        match self {
            MonitorDirRootConfig::Snmp(s) => {
                if s.test.is_none() {
                    let t = s.test();
                    s.test = Some(t);
                }
            },
            _ => {},
        }
    }
}

/// One monitor directory entry: the root probe, its base path and id.
pub struct MonitorDirConfig {
    pub root: MonitorDirRootConfig,
    pub base_path: String,
    pub id: String,
}

impl Default for MonitorDirConfig {
    fn default() -> (r: Self)
        ensures
            r.root matches MonitorDirRootConfig::Test(t) && t.interval_ms == 0 && t.timeout_ms
                == 0 && t.command@ == Seq::<char>::empty() && t.args@.len() == 0 && t.processor
                is None,
            r.base_path@ == Seq::<char>::empty(),
            r.id@ == Seq::<char>::empty(),
    {
        MonitorDirConfig {
            root: MonitorDirRootConfig::Test(Default::default()),
            base_path: String::new(),
            id: String::new(),
        }
    }
}

/// Resolve the configured command once the caller has checked the
/// filesystem: when the command resolves to an executable, adopt the
/// resolved path; otherwise a command line containing whitespace re-invokes
/// through the shell, and anything else is rejected.
pub fn resolve_command(test: &mut MonitorDirTestConfig, resolved: Option<String>) -> (r: Result<
    (),
    String,
>)
    ensures
        match resolved {
            Some(path) => r is Ok && final(test).command@ == path@ && final(test).args
                == old(test).args && final(test).processor == old(test).processor,
            None => {
                if old(test).command@.contains(' ') {
                    r is Ok && final(test).command@ == "/bin/sh"@ && final(test).args.deep_view()
                        =~= seq!["-c"@, old(test).command@] && final(test).processor == old(
                        test,
                    ).processor
                } else {
                    r is Err && *final(test) == *old(test)
                }
            },
        },
        final(test).interval_ms == old(test).interval_ms,
        final(test).timeout_ms == old(test).timeout_ms,
{
    match resolved {
        Some(path) => {
            test.command = path;
            Ok(())
        },
        None => {
            let cs = crate::text::string_to_chars(test.command.as_str());
            let mut has_space: bool = false;
            let mut i: usize = 0;
            while i < cs.len()
                invariant
                    i <= cs@.len(),
                    has_space == exists|j: int| 0 <= j < i && cs@[j] == ' ',
                decreases cs@.len() - i,
            {
                if cs[i] == ' ' {
                    has_space = true;
                }
                i = i + 1;
            }
            if has_space {
                let mut args: Vec<String> = Vec::new();
                args.push(String::from_str("-c"));
                let old_command = crate::text::chars_to_string(&cs);
                args.push(old_command);
                test.args = args;
                test.command = String::from_str("/bin/sh");
                proof {
                    assert(test.args.deep_view() =~= seq!["-c"@, old(test).command@]);
                }
                Ok(())
            } else {
                Err(String::from_str("command is not available"))
            }
        },
    }
}

/// One step of the axis product: each existing point extended with each
/// value of the next axis, value-major within a point.
pub open spec fn extend_points(
    points: Seq<Seq<AxisValView>>,
    vals: Seq<AxisValView>,
) -> Seq<Seq<AxisValView>>
    decreases points.len(),
{
    if points.len() == 0 {
        Seq::empty()
    } else {
        vals.map_values(|v: AxisValView| points.first().push(v)) + extend_points(
            points.drop_first(),
            vals,
        )
    }
}

/// The Cartesian product of the first `k` axes, first axis slowest.
pub open spec fn cart_points(axes: Seq<Seq<AxisValView>>, k: int) -> Seq<Seq<AxisValView>>
    decreases k,
{
    if k <= 0 {
        seq![Seq::empty()]
    } else {
        extend_points(cart_points(axes, k - 1), axes[k - 1])
    }
}

proof fn lemma_extend_points_snoc(points: Seq<Seq<AxisValView>>, p: Seq<AxisValView>, vals: Seq<AxisValView>)
    ensures
        extend_points(points.push(p), vals) == extend_points(points, vals) + vals.map_values(
            |v: AxisValView| p.push(v),
        ),
    decreases points.len(),
{
    if points.len() == 0 {
        assert(points.push(p).drop_first() =~= Seq::<Seq<AxisValView>>::empty());
        assert(points.push(p).first() == p);
        assert(extend_points(points.push(p), vals) == vals.map_values(
            |v: AxisValView| points.push(p).first().push(v),
        ) + extend_points(points.push(p).drop_first(), vals));
        assert(extend_points(Seq::<Seq<AxisValView>>::empty(), vals)
            == Seq::<Seq<AxisValView>>::empty());
        assert(vals.map_values(|v: AxisValView| points.push(p).first().push(v)) =~= vals.map_values(
            |v: AxisValView| p.push(v),
        ));
        assert(extend_points(points.push(p), vals) =~= vals.map_values(
            |v: AxisValView| p.push(v),
        ));
        assert(extend_points(points, vals) == Seq::<Seq<AxisValView>>::empty());
        assert(extend_points(points, vals) + vals.map_values(|v: AxisValView| p.push(v))
            =~= vals.map_values(|v: AxisValView| p.push(v)));
    } else {
        assert(points.push(p).first() == points.first());
        assert(points.push(p).drop_first() =~= points.drop_first().push(p));
        lemma_extend_points_snoc(points.drop_first(), p, vals);
        assert(extend_points(points.push(p), vals) == vals.map_values(
            |v: AxisValView| points.push(p).first().push(v),
        ) + extend_points(points.push(p).drop_first(), vals));
        assert(vals.map_values(|v: AxisValView| points.push(p).first().push(v)) =~= vals.map_values(
            |v: AxisValView| points.first().push(v),
        ));
        assert(vals.map_values(|v: AxisValView| points.first().push(v)) + (extend_points(
            points.drop_first(),
            vals,
        ) + vals.map_values(|v: AxisValView| p.push(v))) =~= (vals.map_values(
            |v: AxisValView| points.first().push(v),
        ) + extend_points(points.drop_first(), vals)) + vals.map_values(
            |v: AxisValView| p.push(v),
        ));
        assert(extend_points(points.push(p), vals) =~= extend_points(points, vals)
            + vals.map_values(|v: AxisValView| p.push(v)));
    }
}

fn clone_axis_values(v: &Vec<MonitorDirAxisValue>) -> (r: Vec<MonitorDirAxisValue>)
    ensures
        r.deep_view() == v.deep_view(),
{
    let mut r: Vec<MonitorDirAxisValue> = Vec::new();
    let mut i: usize = 0;
    while i < v.len()
        invariant
            i <= v@.len(),
            r@.len() == i,
            forall|j: int| 0 <= j < i ==> #[trigger] r@[j]@ == v@[j]@,
        decreases v@.len() - i,
    {
        r.push(v[i].clone());
        i = i + 1;
    }
    proof {
        assert forall|j: int| 0 <= j < v@.len() implies r.deep_view()[j] == v.deep_view()[j] by {
            assert(r@[j]@ == v@[j]@);
        }
        assert(r.deep_view() =~= v.deep_view());
    }
    r
}

/// The value sequences of the axes, in axis order.
pub open spec fn axes_values(axes: Seq<MonitorDirAxisConfig>) -> Seq<Seq<AxisValView>> {
    axes.map_values(|a: MonitorDirAxisConfig| a.values.deep_view())
}

/// The id a group child gets: the template rendered against one point of
/// the axis product.
pub open spec fn child_id_of(
    template: Seq<char>,
    names: Seq<Seq<char>>,
    pt: Seq<AxisValView>,
) -> Option<Seq<char>> {
    crate::interpolate::render_id_of(
        template,
        names,
        pt.map_values(|v: AxisValView| crate::interpolate::axis_val_str(v)),
    )
}

/// A well-formed child configuration: its axes map is well formed.
pub open spec fn child_cfg_wf(c: ChildCfgView) -> bool {
    c.axis_keys.len() == c.axis_vals.len() && forall|a: int, b: int|
        0 <= a < b < c.axis_keys.len() ==> c.axis_keys[a] != c.axis_keys[b]
}

/// Whether the members of a sequence are pairwise distinct.
pub open spec fn distinct_seqs(names: Seq<Seq<char>>) -> bool {
    forall|i: int, j: int| 0 <= i < j < names.len() ==> names[i] != names[j]
}

/// Whether every product point's id renders.
pub open spec fn all_ids_render(
    template: Seq<char>,
    names: Seq<Seq<char>>,
    pts: Seq<Seq<AxisValView>>,
) -> bool {
    forall|k: int| 0 <= k < pts.len() ==> child_id_of(template, names, (#[trigger] pts[k])) is Some
}

/// The keys of the children built from the first `i` product points: each
/// point's rendered id, inserted in product order, a repeated id keeping
/// its first position.
pub open spec fn built_children_keys(
    template: Seq<char>,
    names: Seq<Seq<char>>,
    pts: Seq<Seq<AxisValView>>,
    i: int,
) -> Seq<Seq<char>>
    decreases i,
{
    if i <= 0 {
        Seq::empty()
    } else {
        crate::kmap::insert_keys(
            built_children_keys(template, names, pts, i - 1),
            child_id_of(template, names, pts[i - 1])->Some_0,
        )
    }
}

/// The children built from the first `i` product points: each carries its
/// point as axes and the group's test; a repeated id replaces the earlier
/// child in place.
pub open spec fn built_children_vals(
    template: Seq<char>,
    names: Seq<Seq<char>>,
    pts: Seq<Seq<AxisValView>>,
    test: TestCfgView,
    i: int,
) -> Seq<ChildCfgView>
    decreases i,
{
    if i <= 0 {
        Seq::empty()
    } else {
        crate::kmap::insert_vals(
            built_children_keys(template, names, pts, i - 1),
            built_children_vals(template, names, pts, test, i - 1),
            child_id_of(template, names, pts[i - 1])->Some_0,
            ChildCfgView { axis_keys: names, axis_vals: pts[i - 1], test },
        )
    }
}

proof fn lemma_extend_points_elem_len(points: Seq<Seq<AxisValView>>, vals: Seq<AxisValView>, n: int)
    requires
        forall|i: int| 0 <= i < points.len() ==> (#[trigger] points[i]).len() == n,
    ensures
        forall|j: int|
            0 <= j < extend_points(points, vals).len() ==> (#[trigger] extend_points(points, vals)[j]).len()
                == n + 1,
    decreases points.len(),
{
    if points.len() > 0 {
        assert forall|i: int| 0 <= i < points.drop_first().len() implies (#[trigger] points.drop_first()[i]).len()
            == n by {
            assert(points.drop_first()[i] == points[i + 1]);
        }
        lemma_extend_points_elem_len(points.drop_first(), vals, n);
        let m = vals.map_values(|v: AxisValView| points.first().push(v));
        assert forall|j: int| 0 <= j < extend_points(points, vals).len() implies (
        #[trigger] extend_points(points, vals)[j]).len() == n + 1 by {
            if j < m.len() {
                assert(extend_points(points, vals)[j] == m[j]);
                assert(m[j] == points.first().push(vals[j]));
            } else {
                assert(extend_points(points, vals)[j] == extend_points(points.drop_first(), vals)[j
                    - m.len()]);
            }
        }
    }
}

proof fn lemma_cart_points_len(axes: Seq<Seq<AxisValView>>, k: int)
    requires
        k >= 0,
    ensures
        forall|j: int|
            0 <= j < cart_points(axes, k).len() ==> (#[trigger] cart_points(axes, k)[j]).len() == k,
    decreases k,
{
    if k > 0 {
        lemma_cart_points_len(axes, k - 1);
        lemma_extend_points_elem_len(cart_points(axes, k - 1), axes[k - 1], k - 1);
    }
}

/// Materialise the children of a group: one child per point of the
/// Cartesian product of the axes, keyed by the id template rendered in
/// strict mode against the point, in product order (a repeated id replaces
/// the earlier child).  Fails when some point's id does not render.
pub fn materialize_group_children(group: &mut MonitorDirGroupConfig) -> (r: Result<(), String>)
    requires
        old(group).children.wf(),
    ensures
        final(group).id == old(group).id,
        final(group).test == old(group).test,
        final(group).axes == old(group).axes,
        final(group).children.wf(),
        r is Err ==> final(group).children == old(group).children,
        r is Ok ==> forall|i: int|
            0 <= i < final(group).children.vals().len() ==> (
            #[trigger] final(group).children.vals()[i]).test == old(group).test@,
        ({
            let names = old(group).axes@.map_values(|a: MonitorDirAxisConfig| a.name@);
            let pts = cart_points(axes_values(old(group).axes@), old(group).axes@.len() as int);
            distinct_seqs(names) ==> {
                &&& (r is Ok <==> all_ids_render(old(group).id@, names, pts))
                &&& (r is Ok ==> final(group).children.keys() == built_children_keys(
                    old(group).id@,
                    names,
                    pts,
                    pts.len() as int,
                ))
                &&& (r is Ok ==> final(group).children.vals() == built_children_vals(
                    old(group).id@,
                    names,
                    pts,
                    old(group).test@,
                    pts.len() as int,
                ))
            }
        }),
{
    let ghost axvals: Seq<Seq<AxisValView>> = axes_values(group.axes@);
    let ghost names: Seq<Seq<char>> = group.axes@.map_values(|a: MonitorDirAxisConfig| a.name@);
    let mut points: Vec<Vec<MonitorDirAxisValue>> = Vec::new();
    points.push(Vec::new());
    proof {
        assert(points.deep_view() =~~= cart_points(axvals, 0));
    }
    let mut level: usize = 0;
    while level < group.axes.len()
        invariant
            level <= group.axes@.len(),
            axvals == axes_values(group.axes@),
            points.deep_view() == cart_points(axvals, level as int),
        decreases group.axes@.len() - level,
    {
        let ghost pre_points: Seq<Seq<AxisValView>> = points.deep_view();
        let vals = &group.axes[level].values;
        let ghost vdeep: Seq<AxisValView> = vals.deep_view();
        proof {
            assert(axvals[level as int] == group.axes@[level as int].values.deep_view());
        }
        let mut next: Vec<Vec<MonitorDirAxisValue>> = Vec::new();
        let ghost mut built: Seq<Seq<AxisValView>> = Seq::empty();
        let mut pi: usize = 0;
        proof {
            assert(built =~= extend_points(pre_points.take(0), vdeep));
        }
        while pi < points.len()
            invariant
                pi <= points@.len(),
                pre_points == points.deep_view(),
                pre_points.len() == points@.len(),
                vdeep == vals.deep_view(),
                next@.len() == built.len(),
                forall|j: int| 0 <= j < built.len() ==> #[trigger] next@[j].deep_view() == built[j],
                built == extend_points(pre_points.take(pi as int), vdeep),
            decreases points@.len() - pi,
        {
            let ghost ptv: Seq<AxisValView> = pre_points[pi as int];
            proof {
                assert(points@[pi as int].deep_view() == ptv);
            }
            let ghost built0: Seq<Seq<AxisValView>> = built;
            let mut vi: usize = 0;
            proof {
                assert(vdeep.take(0).map_values(|v: AxisValView| ptv.push(v))
                    =~= Seq::<Seq<AxisValView>>::empty());
                assert(built =~= built0 + vdeep.take(0).map_values(|v: AxisValView| ptv.push(v)));
            }
            while vi < vals.len()
                invariant
                    vi <= vals@.len(),
                    pi < points@.len(),
                    pre_points == points.deep_view(),
                    pre_points.len() == points@.len(),
                    vdeep == vals.deep_view(),
                    ptv == pre_points[pi as int],
                    points@[pi as int].deep_view() == ptv,
                    next@.len() == built.len(),
                    forall|j: int|
                        0 <= j < built.len() ==> #[trigger] next@[j].deep_view() == built[j],
                    built == built0 + vdeep.take(vi as int).map_values(
                        |v: AxisValView| ptv.push(v),
                    ),
                decreases vals@.len() - vi,
            {
                let mut pt = clone_axis_values(&points[pi]);
                pt.push(vals[vi].clone());
                proof {
                    assert(pt.deep_view() =~= ptv.push(vdeep[vi as int]));
                }
                next.push(pt);
                proof {
                    built = built.push(ptv.push(vdeep[vi as int]));
                    assert(vdeep.take(vi + 1 as int).map_values(|v: AxisValView| ptv.push(v))
                        =~= vdeep.take(vi as int).map_values(|v: AxisValView| ptv.push(v)).push(
                        ptv.push(vdeep[vi as int]),
                    ));
                    assert(built =~= built0 + vdeep.take(vi + 1 as int).map_values(
                        |v: AxisValView| ptv.push(v),
                    ));
                }
                vi = vi + 1;
            }
            proof {
                assert(vdeep.take(vdeep.len() as int) =~= vdeep);
                lemma_extend_points_snoc(pre_points.take(pi as int), ptv, vdeep);
                assert(pre_points.take(pi as int).push(ptv) =~= pre_points.take(pi + 1 as int));
                assert(built =~= extend_points(pre_points.take(pi + 1 as int), vdeep));
            }
            pi = pi + 1;
        }
        proof {
            assert(pre_points.take(pre_points.len() as int) =~= pre_points);
            assert forall|j: int|
                0 <= j < built.len() implies next.deep_view()[j] == built[j] by {
                assert(next@[j].deep_view() == built[j]);
            }
            assert(next.deep_view() =~= built);
        }
        points = next;
        level = level + 1;
    }
    let ghost pts: Seq<Seq<AxisValView>> = cart_points(axvals, group.axes@.len() as int);
    let ghost tmpl: Seq<char> = group.id@;
    let ghost gtest: TestCfgView = group.test@;
    proof {
        lemma_cart_points_len(axvals, group.axes@.len() as int);
    }
    let mut children: KeyMap<MonitorDirChildConfig> = KeyMap::new();
    let mut k: usize = 0;
    while k < points.len()
        invariant
            k <= points@.len(),
            points.deep_view() == pts,
            children.wf(),
            old(group).children.wf(),
            axvals == axes_values(group.axes@),
            names == group.axes@.map_values(|a: MonitorDirAxisConfig| a.name@),
            pts == cart_points(axvals, group.axes@.len() as int),
            tmpl == group.id@,
            gtest == group.test@,
            forall|j: int| 0 <= j < pts.len() ==> (#[trigger] pts[j]).len() == group.axes@.len(),
            distinct_seqs(names) ==> forall|j: int|
                0 <= j < k ==> child_id_of(tmpl, names, (#[trigger] pts[j])) is Some,
            distinct_seqs(names) ==> children.keys() == built_children_keys(
                tmpl,
                names,
                pts,
                k as int,
            ),
            distinct_seqs(names) ==> children.vals() == built_children_vals(
                tmpl,
                names,
                pts,
                gtest,
                k as int,
            ),
            children.keys().len() <= k,
            forall|i: int|
                0 <= i < children.vals().len() ==> (#[trigger] children.vals()[i]).test
                    == group.test@,
        decreases points@.len() - k,
    {
        let pt = &points[k];
        proof {
            assert(pt.deep_view() == pts[k as int]);
        }
        let mut axes: KeyMap<MonitorDirAxisValue> = KeyMap::new();
        let mut j: usize = 0;
        while j < group.axes.len()
            invariant
                j <= group.axes@.len(),
                pt.deep_view() == pts[k as int],
                k < points@.len(),
                points.deep_view() == pts,
                pts[k as int].len() == group.axes@.len(),
                names == group.axes@.map_values(|a: MonitorDirAxisConfig| a.name@),
                axes.wf(),
                distinct_seqs(names) ==> axes.keys() =~= names.take(j as int) && axes.vals()
                    =~= pts[k as int].take(j as int),
            decreases group.axes@.len() - j,
        {
            let ghost pre_axes = axes;
            axes.insert(group.axes[j].name.clone(), pt[j].clone());
            proof {
                if distinct_seqs(names) {
                    crate::kmap::lemma_find_key(pre_axes.keys(), names[j as int]);
                    if crate::kmap::find_key(pre_axes.keys(), names[j as int]) >= 0 {
                        let f = crate::kmap::find_key(pre_axes.keys(), names[j as int]);
                        assert(pre_axes.keys()[f] == names[f]);
                        assert(false);
                    }
                    assert(axes.keys() =~= names.take(j + 1 as int));
                    assert(axes.vals() =~= pts[k as int].take(j + 1 as int));
                }
            }
            j = j + 1;
        }
        proof {
            if distinct_seqs(names) {
                assert(names.take(names.len() as int) =~= names);
                assert(pts[k as int].take(pts[k as int].len() as int) =~= pts[k as int]);
            }
        }
        let ghost axk: Seq<Seq<char>> = axes.keys();
        let ghost axv: Seq<AxisValView> = axes.vals();
        proof {
            if distinct_seqs(names) {
                assert(axv.map_values(|v| crate::interpolate::axis_val_str(v))
                    =~~= pts[k as int].map_values(|v| crate::interpolate::axis_val_str(v)));
            }
        }
        match crate::interpolate::interpolate_id(&axes, group.id.as_str()) {
            Some(id) => {
                let ghost pre_children = children;
                let child = MonitorDirChildConfig { axes, test: group.test.clone() };
                proof {
                    if distinct_seqs(names) {
                        assert(child_id_of(tmpl, names, pts[k as int]) == Some(id@));
                        assert(child@ =~~= ChildCfgView {
                            axis_keys: names,
                            axis_vals: pts[k as int],
                            test: gtest,
                        });
                    }
                }
                children.insert(id, child);
                proof {
                    let f = crate::kmap::find_key(pre_children.keys(), id@);
                    crate::kmap::lemma_find_key(pre_children.keys(), id@);
                    if distinct_seqs(names) {
                        assert(children.keys() == built_children_keys(
                            tmpl,
                            names,
                            pts,
                            k + 1 as int,
                        ));
                        assert(children.vals() == built_children_vals(
                            tmpl,
                            names,
                            pts,
                            gtest,
                            k + 1 as int,
                        ));
                    }
                    assert forall|i: int|
                        0 <= i < children.vals().len() implies (
                    #[trigger] children.vals()[i]).test == group.test@ by {
                        if f >= 0 {
                            if i != f {
                                assert(children.vals()[i] == pre_children.vals()[i]);
                            }
                        } else {
                            if i < pre_children.vals().len() {
                                assert(children.vals()[i] == pre_children.vals()[i]);
                            }
                        }
                    }
                }
            },
            None => {
                proof {
                    assert(group.children == old(group).children);
                    assert(group.children.wf());
                    if distinct_seqs(names) {
                        assert(0 <= k < pts.len());
                        assert(child_id_of(tmpl, names, pts[k as int]) is None);
                        assert(!all_ids_render(tmpl, names, pts));
                    }
                }
                return Err(String::from_str("failed to render group child id"));
            },
        }
        k = k + 1;
    }
    proof {
        assert(children.keys().len() <= pts.len());
        if distinct_seqs(names) {
            assert(all_ids_render(tmpl, names, pts)) by {
                assert(forall|j: int|
                    0 <= j < pts.len() ==> child_id_of(tmpl, names, (#[trigger] pts[j])) is Some);
            }
        }
    }
    group.children = children;
    Ok(())
}

} // verus!
