//! Template interpolation for child ids, and the modify-path directive
//! language that probes use to stage status updates.
use vstd::prelude::*;

use crate::config::MonitorDirAxisValue;
use crate::kmap::KeyMap;

verus! {

/// Whether a mustache opened at `j` reaches a partial or decorator sigil:
/// after whitespace, at most one `~` and at most one `#`, the next character
/// is `>` or `*`.
pub open spec fn sigil_after(t: Seq<char>, j: int, tilde_seen: bool, hash_seen: bool) -> bool
    decreases t.len() - j,
{
    if j < 0 || j >= t.len() {
        false
    } else if crate::text::is_space_char(t[j]) {
        sigil_after(t, j + 1, tilde_seen, hash_seen)
    } else if t[j] == '~' && !tilde_seen && !hash_seen {
        sigil_after(t, j + 1, true, hash_seen)
    } else if t[j] == '#' && !hash_seen {
        sigil_after(t, j + 1, tilde_seen, true)
    } else {
        t[j] == '>' || t[j] == '*'
    }
}

/// A template that cannot invoke or define a template partial: no `{{`
/// opens a partial expression, partial block, or decorator.  Rendering such
/// a template never re-enters another template, so it terminates.
pub open spec fn template_safe(t: Seq<char>) -> bool {
    forall|i: int|
        0 <= i && i + 2 <= t.len() && (#[trigger] t[i]) == '{' && t[i + 1] == '{'
            ==> !sigil_after(t, i + 2, false, false)
}

fn sigil_after_exec(t: &Vec<char>, j: usize, tilde_seen: bool, hash_seen: bool) -> (r: bool)
    requires
        j <= t@.len(),
    ensures
        r == sigil_after(t@, j as int, tilde_seen, hash_seen),
    decreases t@.len() - j,
{
    if j >= t.len() {
        false
    } else {
        let c = t[j];
        if crate::text::is_space(c) {
            sigil_after_exec(t, j + 1, tilde_seen, hash_seen)
        } else if c == '~' && !tilde_seen && !hash_seen {
            sigil_after_exec(t, j + 1, true, hash_seen)
        } else if c == '#' && !hash_seen {
            sigil_after_exec(t, j + 1, tilde_seen, true)
        } else {
            c == '>' || c == '*'
        }
    }
}

/// Decide `template_safe` for a template text.
pub fn template_safe_check(t: &str) -> (r: bool)
    ensures
        r == template_safe(t@),
{
    let cs = crate::text::string_to_chars(t);
    let n = cs.len();
    if n < 2 {
        return true;
    }
    let mut i: usize = 0;
    while i <= n - 2
        invariant
            n >= 2,
            n == cs@.len(),
            cs@ == t@,
            i <= n - 1,
            forall|m: int|
                0 <= m < i && m + 2 <= cs@.len() && (#[trigger] cs@[m]) == '{' && cs@[m + 1] == '{'
                    ==> !sigil_after(cs@, m + 2, false, false),
        decreases n - i,
    {
        if cs[i] == '{' && cs[i + 1] == '{' {
            if sigil_after_exec(&cs, i + 2, false, false) {
                proof {
                    assert(!template_safe(t@));
                }
                return false;
            }
        }
        i = i + 1;
    }
    true
}

/// What rendering a template against a string map yields: the trimmed
/// rendering, or nothing when the template is malformed or references an
/// unknown key.
pub uninterp spec fn hb_render_of(
    template: Seq<char>,
    keys: Seq<Seq<char>>,
    vals: Seq<Seq<char>>,
) -> Option<Seq<char>>;

/// What rendering a child-id template yields: the trimmed rendering for a
/// template free of partial syntax, nothing otherwise — a template that
/// could define or invoke a partial is never handed to the engine, because
/// two inline partials naming each other would recurse without bound.
pub open spec fn render_id_of(
    template: Seq<char>,
    keys: Seq<Seq<char>>,
    vals: Seq<Seq<char>>,
) -> Option<Seq<char>> {
    if template_safe(template) {
        hb_render_of(template, keys, vals)
    } else {
        None
    }
}

/// Relies on handlebars in strict mode: registering the template and
/// rendering it against the given mapping; the trimmed result depends on the
/// template and the mapping alone, and rendering fails on a malformed
/// template or an unresolved reference.  The engine guards only a partial
/// that includes the template it is directly named in, so a template with
/// partial syntax could recurse without bound at render time; `requires`
/// admits only templates without it, which render in one pass and return.
#[verifier::external_body]
fn hb_render(template: &str, keys: &Vec<String>, vals: &Vec<String>) -> (r: Option<String>)
    requires
        keys@.len() == vals@.len(),
        template_safe(template@),
    ensures
        match r {
            Some(s) => hb_render_of(template@, strs_view(keys@), strs_view(vals@)) == Some(s@),
            None => hb_render_of(template@, strs_view(keys@), strs_view(vals@)) is None,
        },
{
    let mut handlebars = handlebars::Handlebars::new();
    handlebars.set_strict_mode(true);
    if handlebars.register_template_string("t", template).is_err() {
        return None;
    }
    let mut map = std::collections::BTreeMap::new();
    for (k, v) in keys.iter().zip(vals.iter()) {
        map.insert(k.clone(), v.clone());
    }
    match handlebars.render("t", &map) {
        Ok(s) => Some(s.trim().to_owned()),
        Err(_) => None,
    }
}

/// The character sequences of a string sequence.
pub open spec fn strs_view(ss: Seq<String>) -> Seq<Seq<char>> {
    ss.map_values(|s: String| s@)
}

/// What parsing a text as one JSON string yields: the decoded string, or
/// nothing when the text is not exactly a JSON string.
pub uninterp spec fn json_string_of(s: Seq<char>) -> Option<Seq<char>>;

/// Relies on serde_json: parsing the text as a JSON string yields exactly
/// the decoded string; any other JSON value, and malformed JSON, fail.
#[verifier::external_body]
fn json_parse_string(s: &str) -> (r: Option<String>)
    ensures
        match r {
            Some(v) => json_string_of(s@) == Some(v@),
            None => json_string_of(s@) is None,
        },
{
    serde_json::from_str::<String>(s).ok()
}

/// The rendering of an axis value into template context: strings stand as
/// they are, numbers in decimal.
pub open spec fn axis_val_str(v: crate::config::AxisValView) -> Seq<char> {
    match v {
        crate::config::AxisValView::Str(s) => s,
        crate::config::AxisValView::Int(n) => crate::text::dec_rep_int(n as int),
    }
}

/// Render a child id template against axis values, in strict mode: an
/// unresolved reference fails the render, and a template holding partial
/// syntax is rejected without rendering.
pub fn interpolate_id(values: &KeyMap<MonitorDirAxisValue>, s: &str) -> (r: Option<String>)
    requires
        values.wf(),
    ensures
        match r {
            Some(id) => render_id_of(
                s@,
                values.keys(),
                values.vals().map_values(|v| axis_val_str(v)),
            ) == Some(id@),
            None => render_id_of(
                s@,
                values.keys(),
                values.vals().map_values(|v| axis_val_str(v)),
            ) is None,
        },
{
    if !template_safe_check(s) {
        return None;
    }
    let n = values.len();
    let mut keys: Vec<String> = Vec::new();
    let mut vals: Vec<String> = Vec::new();
    let mut i: usize = 0;
    while i < n
        invariant
            i <= n,
            values.wf(),
            n == values.spec_len(),
            keys@.len() == i,
            vals@.len() == i,
            forall|j: int| 0 <= j < i ==> #[trigger] keys@[j]@ == values.keys()[j],
            forall|j: int|
                0 <= j < i ==> #[trigger] vals@[j]@ == axis_val_str(values.vals()[j]),
        decreases n - i,
    {
        keys.push(values.key_at(i).clone());
        let v = values.val_at(i);
        let rendered = match v {
            MonitorDirAxisValue::String(text) => text.clone(),
            MonitorDirAxisValue::Number(num) => {
                let cs = crate::text::i64_to_chars(*num);
                crate::text::chars_to_string(&cs)
            },
        };
        vals.push(rendered);
        i = i + 1;
    }
    proof {
        assert forall|j: int| 0 <= j < n implies strs_view(keys@)[j] == values.keys()[j] by {
            assert(keys@[j]@ == values.keys()[j]);
        }
        assert forall|j: int|
            0 <= j < n implies strs_view(vals@)[j] == values.vals().map_values(
            |v| axis_val_str(v),
        )[j] by {
            assert(vals@[j]@ == axis_val_str(values.vals()[j]));
        }
        assert(strs_view(keys@) =~= values.keys());
        assert(strs_view(vals@) =~= values.vals().map_values(|v| axis_val_str(v)));
    }
    hb_render(s, &keys, &vals)
}

/// The parsed shape of a modify-path directive: which status it targets,
/// and which pending field it stages.
pub enum ModView {
    Invalid,
    SetStatus(Option<Seq<char>>, crate::status::StatusState),
    SetDesc(Option<Seq<char>>, Seq<char>),
    SetMeta(Option<Seq<char>>, Seq<char>, Seq<char>),
}

/// The colour a lowercase name denotes.
pub open spec fn colour_of_name(s: Seq<char>) -> Option<crate::status::StatusState> {
    if s == "blank"@ {
        Some(crate::status::StatusState::Blank)
    } else if s == "green"@ {
        Some(crate::status::StatusState::Green)
    } else if s == "yellow"@ {
        Some(crate::status::StatusState::Yellow)
    } else if s == "red"@ {
        Some(crate::status::StatusState::Red)
    } else if s == "orange"@ {
        Some(crate::status::StatusState::Orange)
    } else if s == "blue"@ {
        Some(crate::status::StatusState::Blue)
    } else {
        None
    }
}

fn colour_of_name_exec(s: &str) -> (r: Option<crate::status::StatusState>)
    ensures
        r == colour_of_name(s@),
{
    if crate::text::str_eq(s, "blank") {
        Some(crate::status::StatusState::Blank)
    } else if crate::text::str_eq(s, "green") {
        Some(crate::status::StatusState::Green)
    } else if crate::text::str_eq(s, "yellow") {
        Some(crate::status::StatusState::Yellow)
    } else if crate::text::str_eq(s, "red") {
        Some(crate::status::StatusState::Red)
    } else if crate::text::str_eq(s, "orange") {
        Some(crate::status::StatusState::Orange)
    } else if crate::text::str_eq(s, "blue") {
        Some(crate::status::StatusState::Blue)
    } else {
        None
    }
}

/// Index of the first `c` in `s`, or `-1`.
pub open spec fn first_idx_of(s: Seq<char>, c: char) -> int
    decreases s.len(),
{
    if s.len() == 0 {
        -1
    } else if s.first() == c {
        0
    } else {
        let r = first_idx_of(s.drop_first(), c);
        if r < 0 {
            -1
        } else {
            r + 1
        }
    }
}

pub proof fn lemma_first_idx_of(s: Seq<char>, c: char)
    ensures
        first_idx_of(s, c) >= 0 ==> first_idx_of(s, c) < s.len() && s[first_idx_of(s, c)] == c
            && forall|j: int| 0 <= j < first_idx_of(s, c) ==> s[j] != c,
        first_idx_of(s, c) < 0 ==> forall|j: int| 0 <= j < s.len() ==> s[j] != c,
    decreases s.len(),
{
    if s.len() > 0 && s.first() != c {
        lemma_first_idx_of(s.drop_first(), c);
        if first_idx_of(s.drop_first(), c) >= 0 {
            assert forall|j: int| 0 <= j < first_idx_of(s, c) implies s[j] != c by {
                if j > 0 {
                    assert(s.drop_first()[j - 1] != c);
                }
            }
        } else {
            assert forall|j: int| 0 <= j < s.len() implies s[j] != c by {
                if j > 0 {
                    assert(s.drop_first()[j - 1] != c);
                }
            }
        }
    }
}

/// Index of the last `c` in `s`, or `-1`.
pub open spec fn last_idx_of(s: Seq<char>, c: char) -> int
    decreases s.len(),
{
    if s.len() == 0 {
        -1
    } else if s.last() == c {
        s.len() - 1
    } else {
        last_idx_of(s.drop_last(), c)
    }
}

pub proof fn lemma_last_idx_of(s: Seq<char>, c: char)
    ensures
        last_idx_of(s, c) >= 0 ==> last_idx_of(s, c) < s.len() && s[last_idx_of(s, c)] == c
            && forall|j: int| last_idx_of(s, c) < j < s.len() ==> s[j] != c,
        last_idx_of(s, c) < 0 ==> forall|j: int| 0 <= j < s.len() ==> s[j] != c,
    decreases s.len(),
{
    if s.len() > 0 && s.last() != c {
        lemma_last_idx_of(s.drop_last(), c);
        assert forall|j: int| 0 <= j < s.drop_last().len() implies s.drop_last()[j] == s[j] by {}
    }
}

/// The path segment before the first dot, and what follows the dot.
pub open spec fn seg_split(p: Seq<char>) -> (Seq<char>, Option<Seq<char>>) {
    let d = first_idx_of(p, '.');
    if d < 0 {
        (p, None)
    } else {
        (p.take(d), Some(p.skip(d + 1)))
    }
}

/// The staged update a directive denotes.  A directive is
/// `<path>=<json-string>`; the path starts `status.` for this monitor or
/// `group.<child>.status.` for a child, and stages the colour, the
/// description, or one metadata key.
pub open spec fn modify_view(s: Seq<char>) -> ModView {
    let e = first_idx_of(s, '=');
    if e < 0 {
        ModView::Invalid
    } else {
        let raw_path = s.take(e);
        let value = json_string_of(s.skip(e + 1));
        if value is None {
            ModView::Invalid
        } else {
            let v = value->Some_0;
            let (seg0, rest0) = seg_split(raw_path);
            if seg0 == "status"@ {
                match tail_op(rest0, v) {
                    Some(op) => op_to_mod(None, op),
                    None => ModView::Invalid,
                }
            } else if seg0 == "group"@ {
                match rest0 {
                    None => ModView::Invalid,
                    Some(r1) => {
                        let (child, rest1) = seg_split(r1);
                        let (seg2, rest2) = match rest1 {
                            None => (Seq::<char>::empty(), None::<Seq<char>>),
                            Some(r2) => seg_split(r2),
                        };
                        if rest1 is Some && seg2 == "status"@ {
                            match tail_op(rest2, v) {
                                Some(op) => op_to_mod(Some(child), op),
                                None => ModView::Invalid,
                            }
                        } else {
                            ModView::Invalid
                        }
                    },
                }
            } else {
                ModView::Invalid
            }
        }
    }
}

/// A staged update, before its target is attached.
pub enum StageView {
    St(crate::status::StatusState),
    De(Seq<char>),
    Me(Seq<char>, Seq<char>),
}

/// The tail of a path after its `status` segment: `.status`,
/// `.description`, or `.metadata.<k>`.
pub open spec fn tail_op(rest: Option<Seq<char>>, v: Seq<char>) -> Option<StageView> {
    match rest {
        None => None,
        Some(r) => {
            let (seg, more) = seg_split(r);
            if seg == "status"@ && more is None {
                match colour_of_name(v) {
                    Some(c) => Some(StageView::St(c)),
                    None => None,
                }
            } else if seg == "description"@ && more is None {
                Some(StageView::De(v))
            } else if seg == "metadata"@ && more is Some && more->Some_0.len() > 0
                && first_idx_of(more->Some_0, '.') < 0 {
                Some(StageView::Me(more->Some_0, v))
            } else {
                None
            }
        },
    }
}

/// Attach a target to a staged update.
pub open spec fn op_to_mod(target: Option<Seq<char>>, op: StageView) -> ModView {
    match op {
        StageView::St(c) => ModView::SetStatus(target, c),
        StageView::De(d) => ModView::SetDesc(target, d),
        StageView::Me(k, v) => ModView::SetMeta(target, k, v),
    }
}

/// The axes a child auto-created from a directive gets: a numeric suffix
/// after the last dash becomes its `index`.
pub open spec fn child_axes_of(id: Seq<char>) -> Option<i64> {
    let d = last_idx_of(id, '-');
    if d < 0 {
        None
    } else {
        crate::snmp::parse_i64_all(id.skip(d + 1))
    }
}

/// The staging area's fields, with the absent staging area reading as all
/// empty.
pub open spec fn pend_of(sv: crate::status::StatusView) -> crate::status::PendingView {
    match sv.pending {
        Some(p) => p,
        None => crate::status::PendingView {
            status: None,
            description: None,
            metadata_keys: None,
            metadata_vals: None,
        },
    }
}

/// One staged update applied to a status: the named pending field changes,
/// everything else stays.
pub open spec fn stage_spec(sv: crate::status::StatusView, op: StageView) -> crate::status::StatusView {
    let p = pend_of(sv);
    let p2 = match op {
        StageView::St(c) => crate::status::PendingView { status: Some(c), ..p },
        StageView::De(d) => crate::status::PendingView { description: Some(d), ..p },
        StageView::Me(k, v) => {
            let mk = match p.metadata_keys {
                Some(mk) => mk,
                None => Seq::empty(),
            };
            let mv = match p.metadata_vals {
                Some(mv) => mv,
                None => Seq::empty(),
            };
            crate::status::PendingView {
                metadata_keys: Some(crate::kmap::insert_keys(mk, k)),
                metadata_vals: Some(crate::kmap::insert_vals(mk, mv, k, v)),
                ..p
            }
        },
    };
    crate::status::StatusView { pending: Some(p2), ..sv }
}

/// An executable staged update.
pub enum StageOp {
    St(crate::status::StatusState),
    De(String),
    Me(String, String),
}

impl View for StageOp {
    type V = StageView;

    open spec fn view(&self) -> StageView {
        match self {
            StageOp::St(c) => StageView::St(*c),
            StageOp::De(d) => StageView::De(d@),
            StageOp::Me(k, v) => StageView::Me(k@, v@),
        }
    }
}

/// Apply one staged update to a status, as `stage_spec` says.
fn stage_exec(status: &mut crate::status::MonitorStatus, op: StageOp)
    requires
        crate::status::status_wf(old(status)),
    ensures
        crate::status::status_wf(final(status)),
        final(status)@ == stage_spec(old(status)@, op@),
{
    let (mut ps, mut pd, mut pm): (
        Option<crate::status::StatusState>,
        Option<String>,
        Option<crate::config::StrMap>,
    ) = match &status.pending {
        Some(p) => (
            p.status,
            match &p.description {
                Some(d) => Some(d.clone()),
                None => None,
            },
            match &p.metadata {
                Some(m) => Some(crate::status::clone_strmap(m)),
                None => None,
            },
        ),
        None => (None, None, None),
    };
    match op {
        StageOp::St(c) => {
            ps = Some(c);
        },
        StageOp::De(d) => {
            pd = Some(d);
        },
        StageOp::Me(k, v) => {
            let mut m: crate::config::StrMap = match pm {
                Some(m) => m,
                None => KeyMap::new(),
            };
            m.insert(k, v);
            pm = Some(m);
        },
    }
    status.pending = Some(
        crate::status::MonitorPendingStatus { status: ps, description: pd, metadata: pm },
    );
    proof {
        assert(final(status)@ =~~= stage_spec(old(status)@, op@));
    }
}

/// The children after a staged update lands on the named child: an
/// existing child's status takes the update in place; an unknown child is
/// created with the update staged and its axes derived from its id.
pub open spec fn children_staged(
    keys: Seq<Seq<char>>,
    vals: Seq<crate::status::ChildView>,
    id: Seq<char>,
    op: StageView,
) -> (Seq<Seq<char>>, Seq<crate::status::ChildView>) {
    let f = crate::kmap::find_key(keys, id);
    if f >= 0 {
        (
            keys,
            vals.update(
                f,
                crate::status::ChildView { status: stage_spec(vals[f].status, op), ..vals[f] },
            ),
        )
    } else {
        let (ak, av): (Seq<Seq<char>>, Seq<crate::config::AxisValView>) = match child_axes_of(id) {
            Some(n) => (seq!["index"@], seq![crate::config::AxisValView::Int(n)]),
            None => (Seq::empty(), Seq::empty()),
        };
        (
            keys.push(id),
            vals.push(
                crate::status::ChildView {
                    axis_keys: ak,
                    axis_vals: av,
                    status: stage_spec(empty_status_view(), op),
                },
            ),
        )
    }
}

/// The status a fresh child starts from.
pub open spec fn empty_status_view() -> crate::status::StatusView {
    crate::status::StatusView {
        status: None,
        code: 0,
        description: Seq::empty(),
        css_keys: Seq::empty(),
        css_vals: Seq::empty(),
        metadata_keys: Seq::empty(),
        metadata_vals: Seq::empty(),
        log: Seq::empty(),
        pending: None,
    }
}

/// Split a character vector at the first dot, as `seg_split` says.
fn seg_split_exec(p: &Vec<char>) -> (r: (Vec<char>, Option<Vec<char>>))
    ensures
        r.0@ == seg_split(p@).0,
        match r.1 {
            Some(rest) => seg_split(p@).1 == Some(rest@),
            None => seg_split(p@).1 is None,
        },
{
    let n = p.len();
    let mut d: usize = 0;
    while d < n && p[d] != '.'
        invariant
            d <= n,
            n == p@.len(),
            forall|j: int| 0 <= j < d ==> p@[j] != '.',
        decreases n - d,
    {
        d = d + 1;
    }
    proof {
        lemma_first_idx_of(p@, '.');
        let f = first_idx_of(p@, '.');
        if d < n {
            if f < 0 {
                assert(p@[d as int] != '.');
                assert(false);
            } else if f < d as int {
                assert(p@[f] == '.');
                assert(false);
            } else if f > d as int {
                assert(p@[d as int] != '.');
                assert(false);
            }
        } else {
            if f >= 0 {
                assert(p@[f] == '.');
                assert(false);
            }
        }
    }
    let mut head: Vec<char> = Vec::new();
    let mut i: usize = 0;
    while i < d
        invariant
            i <= d <= n,
            n == p@.len(),
            head@ == p@.take(d as int).take(i as int),
        decreases d - i,
    {
        proof {
            assert(p@.take(d as int).take(i + 1 as int) =~= p@.take(d as int).take(i as int).push(
                p@[i as int],
            ));
        }
        head.push(p[i]);
        i = i + 1;
    }
    proof {
        assert(head@ =~= p@.take(d as int));
    }
    if d >= n {
        proof {
            assert(p@.take(n as int) =~= p@);
        }
        (head, None)
    } else {
        let mut tail: Vec<char> = Vec::new();
        let mut j: usize = d + 1;
        while j < n
            invariant
                d + 1 <= j <= n,
                n == p@.len(),
                tail@ == p@.skip(d + 1 as int).take(j - (d + 1) as int),
            decreases n - j,
        {
            proof {
                assert(p@.skip(d + 1 as int).take(j + 1 - (d + 1) as int) =~= p@.skip(
                    d + 1 as int,
                ).take(j - (d + 1) as int).push(p@[j as int]));
            }
            tail.push(p[j]);
            j = j + 1;
        }
        proof {
            assert(tail@ =~= p@.skip(d + 1 as int));
        }
        (head, Some(tail))
    }
}

/// Parse the tail of a path after its `status` segment into a staged
/// update, as `tail_op` says.
fn parse_tail_exec(rest: Option<Vec<char>>, v: &String) -> (r: Option<StageOp>)
    ensures
        match r {
            Some(op) => tail_op(
                match rest {
                    Some(rr) => Some(rr@),
                    None => None,
                },
                v@,
            ) == Some(op@),
            None => tail_op(
                match rest {
                    Some(rr) => Some(rr@),
                    None => None,
                },
                v@,
            ) is None,
        },
{
    match rest {
        None => None,
        Some(r) => {
            let (seg, more) = seg_split_exec(&r);
            let seg_s = crate::text::chars_to_string(&seg);
            if crate::text::str_eq(seg_s.as_str(), "status") && more.is_none() {
                match colour_of_name_exec(v.as_str()) {
                    Some(c) => Some(StageOp::St(c)),
                    None => None,
                }
            } else if crate::text::str_eq(seg_s.as_str(), "description") && more.is_none() {
                Some(StageOp::De(v.clone()))
            } else {
                match more {
                    Some(mr) => {
                        if crate::text::str_eq(seg_s.as_str(), "metadata") && mr.len() > 0 {
                            let md = seg_split_exec(&mr);
                            match md.1 {
                                None => {
                                    proof {
                                        lemma_first_idx_of(mr@, '.');
                                    }
                                    Some(
                                        StageOp::Me(crate::text::chars_to_string(&md.0), v.clone()),
                                    )
                                },
                                Some(_) => {
                                    proof {
                                        lemma_first_idx_of(mr@, '.');
                                        if first_idx_of(mr@, '.') < 0 {
                                            assert(false);
                                        }
                                    }
                                    None
                                },
                            }
                        } else {
                            None
                        }
                    },
                    None => None,
                }
            }
        },
    }
}

/// Apply one modify-path directive: stage the update it denotes on this
/// monitor or on the named child (created if unknown), as `modify_view`
/// says; a malformed directive changes nothing and reports its failure.
pub fn interpolate_modify(
    status: &mut crate::status::MonitorStatus,
    children: &mut KeyMap<crate::status::MonitorChildStatus>,
    s: &str,
) -> (r: Result<(), String>)
    requires
        crate::status::status_wf(old(status)),
        old(children).wf(),
        forall|i: int|
            0 <= i < old(children).vals().len() ==> crate::status::child_wf_at(
                #[trigger] old(children).vals()[i],
            ),
    ensures
        crate::status::status_wf(final(status)),
        final(children).wf(),
        forall|i: int|
            0 <= i < final(children).vals().len() ==> crate::status::child_wf_at(
                #[trigger] final(children).vals()[i],
            ),
        match modify_view(s@) {
            ModView::Invalid => (r matches Err(m) && m@ == "invalid directive"@)
                && final(status)@ == old(status)@ && final(children).keys() == old(
                children,
            ).keys() && final(children).vals() == old(children).vals(),
            ModView::SetStatus(t, c) => r is Ok && modify_applied(
                old(status)@,
                old(children).keys(),
                old(children).vals(),
                final(status)@,
                final(children).keys(),
                final(children).vals(),
                t,
                StageView::St(c),
            ),
            ModView::SetDesc(t, d) => r is Ok && modify_applied(
                old(status)@,
                old(children).keys(),
                old(children).vals(),
                final(status)@,
                final(children).keys(),
                final(children).vals(),
                t,
                StageView::De(d),
            ),
            ModView::SetMeta(t, k, v) => r is Ok && modify_applied(
                old(status)@,
                old(children).keys(),
                old(children).vals(),
                final(status)@,
                final(children).keys(),
                final(children).vals(),
                t,
                StageView::Me(k, v),
            ),
        },
{
    let cs = crate::text::string_to_chars(s);
    let n = cs.len();
    let mut e: usize = 0;
    while e < n && cs[e] != '='
        invariant
            e <= n,
            n == cs@.len(),
            forall|j: int| 0 <= j < e ==> cs@[j] != '=',
        decreases n - e,
    {
        e = e + 1;
    }
    proof {
        lemma_first_idx_of(cs@, '=');
        let f = first_idx_of(cs@, '=');
        if e < n {
            if f < 0 {
                assert(cs@[e as int] != '=');
                assert(false);
            } else if f < e as int {
                assert(cs@[f] == '=');
                assert(false);
            } else if f > e as int {
                assert(cs@[e as int] != '=');
                assert(false);
            }
        } else {
            if f >= 0 {
                assert(cs@[f] == '=');
                assert(false);
            }
        }
    }
    if e >= n {
        return Err(String::from_str("invalid directive"));
    }
    let mut value_raw: Vec<char> = Vec::new();
    let mut j: usize = e + 1;
    while j < n
        invariant
            e + 1 <= j <= n,
            n == cs@.len(),
            value_raw@ == cs@.skip(e + 1 as int).take(j - (e + 1) as int),
        decreases n - j,
    {
        proof {
            assert(cs@.skip(e + 1 as int).take(j + 1 - (e + 1) as int) =~= cs@.skip(
                e + 1 as int,
            ).take(j - (e + 1) as int).push(cs@[j as int]));
        }
        value_raw.push(cs[j]);
        j = j + 1;
    }
    proof {
        assert(value_raw@ =~= cs@.skip(e + 1 as int));
    }
    let value_s = crate::text::chars_to_string(&value_raw);
    let value = match json_parse_string(value_s.as_str()) {
        Some(v) => v,
        None => {
            return Err(String::from_str("invalid directive"));
        },
    };
    let mut path: Vec<char> = Vec::new();
    let mut i: usize = 0;
    while i < e
        invariant
            i <= e <= n,
            n == cs@.len(),
            path@ == cs@.take(e as int).take(i as int),
        decreases e - i,
    {
        proof {
            assert(cs@.take(e as int).take(i + 1 as int) =~= cs@.take(e as int).take(
                i as int,
            ).push(cs@[i as int]));
        }
        path.push(cs[i]);
        i = i + 1;
    }
    proof {
        assert(path@ =~= cs@.take(e as int));
    }
    let (seg0, rest0) = seg_split_exec(&path);
    let seg0_s = crate::text::chars_to_string(&seg0);
    if crate::text::str_eq(seg0_s.as_str(), "status") {
        match parse_tail_exec(rest0, &value) {
            Some(op) => {
                stage_exec(status, op);
                Ok(())
            },
            None => Err(String::from_str("invalid directive")),
        }
    } else if crate::text::str_eq(seg0_s.as_str(), "group") {
        match rest0 {
            None => Err(String::from_str("invalid directive")),
            Some(r1) => {
                let (child_cs, rest1) = seg_split_exec(&r1);
                match rest1 {
                    None => Err(String::from_str("invalid directive")),
                    Some(r2) => {
                        let (seg2, rest2) = seg_split_exec(&r2);
                        let seg2_s = crate::text::chars_to_string(&seg2);
                        if crate::text::str_eq(seg2_s.as_str(), "status") {
                            match parse_tail_exec(rest2, &value) {
                                Some(op) => {
                                    apply_child(children, &child_cs, op);
                                    Ok(())
                                },
                                None => Err(String::from_str("invalid directive")),
                            }
                        } else {
                            Err(String::from_str("invalid directive"))
                        }
                    },
                }
            },
        }
    } else {
        Err(String::from_str("invalid directive"))
    }
}

/// Whether the staged update landed where the directive aimed.
pub open spec fn modify_applied(
    old_status: crate::status::StatusView,
    old_keys: Seq<Seq<char>>,
    old_vals: Seq<crate::status::ChildView>,
    new_status: crate::status::StatusView,
    new_keys: Seq<Seq<char>>,
    new_vals: Seq<crate::status::ChildView>,
    target: Option<Seq<char>>,
    op: StageView,
) -> bool {
    match target {
        None => new_status == stage_spec(old_status, op) && new_keys == old_keys && new_vals
            == old_vals,
        Some(id) => new_status == old_status && (new_keys, new_vals) == children_staged(
            old_keys,
            old_vals,
            id,
            op,
        ),
    }
}

/// Stage an update on the named child, creating it when unknown.
fn apply_child(
    children: &mut KeyMap<crate::status::MonitorChildStatus>,
    child_cs: &Vec<char>,
    op: StageOp,
)
    requires
        old(children).wf(),
        forall|i: int|
            0 <= i < old(children).vals().len() ==> crate::status::child_wf_at(
                #[trigger] old(children).vals()[i],
            ),
    ensures
        final(children).wf(),
        forall|i: int|
            0 <= i < final(children).vals().len() ==> crate::status::child_wf_at(
                #[trigger] final(children).vals()[i],
            ),
        (final(children).keys(), final(children).vals()) == children_staged(
            old(children).keys(),
            old(children).vals(),
            child_cs@,
            op@,
        ),
{
    let id = crate::text::chars_to_string(child_cs);
    match children.position(id.as_str()) {
        Some(pos) => {
            let child = children.val_at(pos);
            let mut new_status = crate::status::clone_status(&child.status);
            let new_axes = crate::status::clone_axes(&child.axes);
            stage_exec(&mut new_status, op);
            let updated = crate::status::MonitorChildStatus { axes: new_axes, status: new_status };
            proof {
                assert(updated@ =~~= crate::status::ChildView {
                    status: stage_spec(old(children).vals()[pos as int].status, op@),
                    ..old(children).vals()[pos as int]
                });
            }
            children.set_val_at(pos, updated);
        },
        None => {
            let mut axes: KeyMap<MonitorDirAxisValue> = KeyMap::new();
            let nd = child_cs.len();
            let mut d: usize = nd;
            let mut dash_found: bool = false;
            proof {
                assert(child_cs@.take(nd as int) =~= child_cs@);
            }
            while d > 0 && !dash_found
                invariant
                    d <= nd,
                    nd == child_cs@.len(),
                    !dash_found ==> last_idx_of(child_cs@, '-') == last_idx_of(
                        child_cs@.take(d as int),
                        '-',
                    ),
                    dash_found ==> d >= 1 && d <= nd && child_cs@[d - 1] == '-' && last_idx_of(
                        child_cs@,
                        '-',
                    ) == d - 1,
                decreases d + (if dash_found {
                    0int
                } else {
                    1int
                }),
            {
                proof {
                    assert(child_cs@.take(d as int).drop_last() =~= child_cs@.take(d - 1 as int));
                    assert(child_cs@.take(d as int).last() == child_cs@[d - 1 as int]);
                }
                if child_cs[d - 1] == '-' {
                    dash_found = true;
                } else {
                    d = d - 1;
                }
            }
            if dash_found {
                let mut suffix: Vec<char> = Vec::new();
                let mut t: usize = d;
                while t < nd
                    invariant
                        d <= t <= nd,
                        nd == child_cs@.len(),
                        suffix@ == child_cs@.skip(d as int).take(t - d as int),
                    decreases nd - t,
                {
                    proof {
                        assert(child_cs@.skip(d as int).take(t + 1 - d as int) =~= child_cs@.skip(
                            d as int,
                        ).take(t - d as int).push(child_cs@[t as int]));
                    }
                    suffix.push(child_cs[t]);
                    t = t + 1;
                }
                proof {
                    assert(suffix@ =~= child_cs@.skip(d as int));
                }
                match crate::snmp::parse_i64_all_exec(&suffix) {
                    Some(num) => {
                        axes.insert(
                            String::from_str("index"),
                            MonitorDirAxisValue::Number(num),
                        );
                        proof {
                            assert(axes.keys() =~= seq!["index"@]);
                            assert(axes.vals() =~= seq![crate::config::AxisValView::Int(num)]);
                        }
                    },
                    None => {},
                }
            } else {
                proof {
                    assert(child_cs@.take(0int).len() == 0);
                    assert(last_idx_of(child_cs@, '-') < 0);
                }
            }
            let mut fresh = crate::status::empty_status();
            stage_exec(&mut fresh, op);
            let child = crate::status::MonitorChildStatus { axes, status: fresh };
            proof {
                crate::kmap::lemma_find_key(children.keys(), id@);
                if crate::kmap::find_key(children.keys(), id@) >= 0 {
                    assert(false);
                }
                assert(child@.status =~~= stage_spec(empty_status_view(), op@));
            }
            children.insert(id, child);
            proof {
                assert(final(children).vals() =~= children_staged(
                    old(children).keys(),
                    old(children).vals(),
                    child_cs@,
                    op@,
                ).1);
            }
        },
    }
}

} // verus!
