//! The stylesheet generator: a synthetic per-monitor block exposing the
//! current status as CSS custom properties, followed by the user rules
//! rendered against the monitor (a failed render yields a placeholder
//! comment, so one bad rule never breaks the stylesheet).
use vstd::prelude::*;

use crate::config::CssConfig;
use crate::status::{colour_name, MonitorState, MonitorStatus, StatusView};
use crate::text::{chars_to_string, i64_to_chars, json_quote_chars, json_quote_spec, push_chars,
    push_str_chars, string_to_chars};

verus! {

/// Whether a metadata key may become a CSS custom property name: letters,
/// digits and dashes only.
pub open spec fn css_key_ok(k: Seq<char>) -> bool {
    forall|i: int|
        0 <= i < k.len() ==> {
            let c = #[trigger] k[i];
            (48 <= c as int && c as int <= 57) || (65 <= c as int && c as int <= 90) || (97
                <= c as int && c as int <= 122) || c == '-'
        }
}

fn css_key_ok_exec(k: &Vec<char>) -> (r: bool)
    ensures
        r == css_key_ok(k@),
{
    let mut i: usize = 0;
    while i < k.len()
        invariant
            i <= k@.len(),
            forall|j: int|
                0 <= j < i ==> {
                    let c = #[trigger] k@[j];
                    (48 <= c as int && c as int <= 57) || (65 <= c as int && c as int <= 90) || (97
                        <= c as int && c as int <= 122) || c == '-'
                },
        decreases k@.len() - i,
    {
        let c = k[i];
        let ok = (c >= '0' && c <= '9') || (c >= 'A' && c <= 'Z') || (c >= 'a' && c <= 'z') || c
            == '-';
        if !ok {
            return false;
        }
        i = i + 1;
    }
    true
}

/// One custom property line for a metadata entry, nothing for a key that
/// cannot name a property.
pub open spec fn css_prop_line(k: Seq<char>, v: Seq<char>) -> Seq<char> {
    if css_key_ok(k) {
        "  --monitor-metadata-"@ + k + ": "@ + v + ";\n"@
    } else {
        Seq::empty()
    }
}

/// The custom property lines of a metadata map, in map order.
pub open spec fn css_props(keys: Seq<Seq<char>>, vals: Seq<Seq<char>>, i: int) -> Seq<char>
    decreases keys.len() - i,
{
    if i < 0 || i >= keys.len() {
        Seq::empty()
    } else {
        css_prop_line(keys[i], vals[i]) + css_props(keys, vals, i + 1)
    }
}

/// The synthetic block of one status: its identity, colour, code,
/// description, then the palette properties and the user metadata
/// properties.
pub open spec fn css_block(id: Seq<char>, sv: StatusView) -> Seq<char> {
    "[data-monitor-id="@ + json_quote_spec(id) + "] {\n"@ + "  --monitor-id: "@ + json_quote_spec(
        id,
    ) + ";\n"@ + (match sv.status {
        Some(s) => "  --monitor-status: "@ + colour_name(s) + ";\n"@,
        None => Seq::empty(),
    }) + "  --monitor-code: "@ + crate::text::dec_rep_int(sv.code as int) + ";\n"@
        + "  --monitor-description: "@ + json_quote_spec(sv.description) + ";\n"@ + css_props(
        sv.css_keys,
        sv.css_vals,
        0,
    ) + css_props(sv.metadata_keys, sv.metadata_vals, 0) + "}\n"@
}

/// Build the synthetic block of one status, as `css_block` says.
pub fn css_monitor_block(id: &str, status: &MonitorStatus) -> (r: String)
    requires
        crate::status::status_wf(status),
    ensures
        r@ == css_block(id@, status@),
{
    let mut out: Vec<char> = Vec::new();
    push_str_chars(&mut out, "[data-monitor-id=");
    let idc = string_to_chars(id);
    let idq = json_quote_chars(&idc);
    push_chars(&mut out, &idq);
    push_str_chars(&mut out, "] {\n");
    push_str_chars(&mut out, "  --monitor-id: ");
    push_chars(&mut out, &idq);
    push_str_chars(&mut out, ";\n");
    match &status.status {
        Some(s) => {
            push_str_chars(&mut out, "  --monitor-status: ");
            let name = s.name();
            push_str_chars(&mut out, name.as_str());
            push_str_chars(&mut out, ";\n");
        },
        None => {},
    }
    push_str_chars(&mut out, "  --monitor-code: ");
    let code = i64_to_chars(status.code);
    push_chars(&mut out, &code);
    push_str_chars(&mut out, ";\n");
    push_str_chars(&mut out, "  --monitor-description: ");
    let dc = string_to_chars(status.description.as_str());
    let dq = json_quote_chars(&dc);
    push_chars(&mut out, &dq);
    push_str_chars(&mut out, ";\n");
    let ghost mid: Seq<char> = out@;
    push_props(&mut out, &status.css.metadata);
    proof {
        assert(out@ == mid + css_props(status@.css_keys, status@.css_vals, 0));
    }
    push_props(&mut out, &status.metadata);
    push_str_chars(&mut out, "}\n");
    proof {
        assert(out@ =~= css_block(id@, status@));
    }
    chars_to_string(&out)
}

proof fn lemma_css_props_snoc(keys: Seq<Seq<char>>, vals: Seq<Seq<char>>, i: int, k: int)
    requires
        0 <= i <= k <= keys.len(),
        vals.len() == keys.len(),
    ensures
        css_props(keys.take(k), vals.take(k), i) + (if k < keys.len() {
            css_prop_line(keys[k], vals[k])
        } else {
            Seq::empty()
        }) == css_props(keys.take(k + 1), vals.take(k + 1), i) || k >= keys.len(),
    decreases k - i,
{
    if k < keys.len() {
        if i == k {
            assert(keys.take(k + 1)[i] == keys[i]);
            assert(vals.take(k + 1)[i] == vals[i]);
            assert(css_props(keys.take(k), vals.take(k), i) =~= Seq::<char>::empty());
            assert(css_props(keys.take(k + 1), vals.take(k + 1), i) =~= css_prop_line(
                keys.take(k + 1)[i],
                vals.take(k + 1)[i],
            ) + css_props(keys.take(k + 1), vals.take(k + 1), i + 1));
            assert(css_props(keys.take(k + 1), vals.take(k + 1), i + 1) =~= Seq::<char>::empty());
            assert(css_props(keys.take(k), vals.take(k), i) + css_prop_line(keys[k], vals[k])
                =~= css_props(keys.take(k + 1), vals.take(k + 1), i));
        } else {
            lemma_css_props_snoc(keys, vals, i + 1, k);
            assert(keys.take(k)[i] == keys[i]);
            assert(keys.take(k + 1)[i] == keys[i]);
            assert(vals.take(k)[i] == vals[i]);
            assert(vals.take(k + 1)[i] == vals[i]);
            assert((css_prop_line(keys[i], vals[i]) + css_props(keys.take(k), vals.take(k), i + 1))
                + css_prop_line(keys[k], vals[k]) =~= css_prop_line(keys[i], vals[i]) + (css_props(
                keys.take(k),
                vals.take(k),
                i + 1,
            ) + css_prop_line(keys[k], vals[k])));
        }
    }
}

/// Append a metadata map's custom property lines.
fn push_props(out: &mut Vec<char>, m: &crate::config::StrMap)
    requires
        m.wf(),
    ensures
        final(out)@ == old(out)@ + css_props(m.keys(), m.vals(), 0),
{
    let ghost base: Seq<char> = out@;
    let n = m.len();
    let mut i: usize = 0;
    proof {
        assert(css_props(m.keys().take(0), m.vals().take(0), 0) =~= Seq::<char>::empty());
        assert(out@ =~= base + css_props(m.keys().take(0), m.vals().take(0), 0));
    }
    while i < n
        invariant
            i <= n,
            m.wf(),
            n == m.spec_len(),
            out@ == base + css_props(m.keys().take(i as int), m.vals().take(i as int), 0),
        decreases n - i,
    {
        let kc = string_to_chars(m.key_at(i).as_str());
        if css_key_ok_exec(&kc) {
            push_str_chars(out, "  --monitor-metadata-");
            push_chars(out, &kc);
            push_str_chars(out, ": ");
            push_str_chars(out, m.val_at(i).as_str());
            push_str_chars(out, ";\n");
        }
        proof {
            lemma_css_props_snoc(m.keys(), m.vals(), 0, i as int);
            assert(out@ =~= base + css_props(
                m.keys().take(i + 1 as int),
                m.vals().take(i + 1 as int),
                0,
            ));
        }
        i = i + 1;
    }
    proof {
        assert(m.keys().take(n as int) =~= m.keys());
        assert(m.vals().take(n as int) =~= m.vals());
    }
}

/// One rendered rule: its selectors and declarations, a placeholder
/// comment standing in for a failed render.
pub open spec fn css_section(sel: Option<Seq<char>>, decl: Option<Seq<char>>) -> Seq<char> {
    (match sel {
        Some(s) => s,
        None => "/* failed */"@,
    }) + " {\n"@ + (match decl {
        Some(d) => d,
        None => "/* failed */"@,
    }) + "\n}\n\n"@
}

/// The rendered-rule sections of a consecutive run of renders.
pub open spec fn css_sections(renders: Seq<Option<Seq<char>>>, i: int, count: int) -> Seq<char>
    decreases count,
{
    if count <= 0 || i < 0 || i + 2 > renders.len() {
        Seq::empty()
    } else {
        css_section(renders[i], renders[i + 1]) + css_sections(renders, i + 2, count - 1)
    }
}

/// The views of a render list.
pub open spec fn renders_view(renders: Seq<Option<String>>) -> Seq<Option<Seq<char>>> {
    renders.map_values(
        |o: Option<String>|
            match o {
                Some(s) => Some(s@),
                None => None,
            },
    )
}

/// The stylesheet fragment of one monitor: its own synthetic block and
/// rendered rules, then each child's synthetic block and rendered rules.
/// `renders` holds the rule templates rendered against the monitor, two per
/// rule — selectors then declarations — for the monitor itself and then for
/// each child in order.
pub open spec fn css_monitor_spec(
    rules: int,
    monitor: &MonitorState,
    renders: Seq<Option<Seq<char>>>,
) -> Seq<char> {
    "/* "@ + monitor.id@ + " */\n\n/* Default rules */\n"@ + css_block(monitor.id@, monitor.status@)
        + css_sections(renders, 0, rules) + css_children_spec(monitor, renders, rules, 0)
}

/// The stylesheet fragments of the children from position `k` on.
pub open spec fn css_children_spec(
    monitor: &MonitorState,
    renders: Seq<Option<Seq<char>>>,
    rules: int,
    k: int,
) -> Seq<char>
    decreases monitor.children.keys().len() - k,
{
    if k < 0 || k >= monitor.children.keys().len() || rules < 0 {
        Seq::empty()
    } else {
        css_block(monitor.children.keys()[k], monitor.children.vals()[k].status) + css_sections(
            renders,
            2 * rules * (k + 1),
            rules,
        ) + css_children_spec(monitor, renders, rules, k + 1)
    }
}

/// Append one rendered section.
fn push_section(out: &mut Vec<char>, sel: &Option<String>, decl: &Option<String>)
    ensures
        final(out)@ == old(out)@ + css_section(
            match sel {
                Some(s) => Some(s@),
                None => None,
            },
            match decl {
                Some(d) => Some(d@),
                None => None,
            },
        ),
{
    let ghost base: Seq<char> = out@;
    match sel {
        Some(s) => push_str_chars(out, s.as_str()),
        None => push_str_chars(out, "/* failed */"),
    }
    push_str_chars(out, " {\n");
    match decl {
        Some(d) => push_str_chars(out, d.as_str()),
        None => push_str_chars(out, "/* failed */"),
    }
    push_str_chars(out, "\n}\n\n");
    proof {
        assert(out@ =~= base + css_section(
            match sel {
                Some(s) => Some(s@),
                None => None,
            },
            match decl {
                Some(d) => Some(d@),
                None => None,
            },
        ));
    }
}

/// Assemble one monitor's stylesheet fragment from the rendered rule
/// templates, as `css_monitor_spec` says.
pub fn generate_css_for_monitor(
    config: &CssConfig,
    monitor: &MonitorState,
    renders: &Vec<Option<String>>,
) -> (r: String)
    requires
        crate::status::state_wf(monitor),
        renders@.len() == 2 * config.rules@.len() * (1 + monitor.children.spec_len()),
    ensures
        r@ == css_monitor_spec(config.rules@.len() as int, monitor, renders_view(renders@)),
{
    let rules = config.rules.len();
    let rlen = renders.len();
    let ghost rv: Seq<Option<Seq<char>>> = renders_view(renders@);
    let ghost nch_g: int = monitor.children.spec_len() as int;
    proof {
        assert(rv.len() == renders@.len());
        assert(2 * (rules as int) * (1 + nch_g) >= 2 * (rules as int)) by (nonlinear_arith)
            requires
                nch_g >= 0,
                rules >= 0,
        ;
    }
    let mut out: Vec<char> = Vec::new();
    push_str_chars(&mut out, "/* ");
    push_str_chars(&mut out, monitor.id.as_str());
    push_str_chars(&mut out, " */\n\n/* Default rules */\n");
    let block = css_monitor_block(monitor.id.as_str(), &monitor.status);
    push_str_chars(&mut out, block.as_str());
    let ghost base: Seq<char> = out@;
    let mut idx: usize = 0;
    let mut ri: usize = 0;
    proof {
        assert(out@ =~= base + css_sections(rv, 0, 0));
    }
    while ri < rules
        invariant
            ri <= rules,
            idx == 2 * ri,
            rules == config.rules@.len(),
            rv == renders_view(renders@),
            rlen == renders@.len(),
            renders@.len() == 2 * rules * (1 + monitor.children.spec_len()),
            renders@.len() >= 2 * rules,
            out@ == base + css_sections(rv, 0, ri as int),
        decreases rules - ri,
    {
        proof {
            assert(idx + 1 < rv.len());
            assert(rv[idx as int] == (match renders@[idx as int] {
                Some(s) => Some(s@),
                None => None::<Seq<char>>,
            }));
            assert(rv[idx + 1 as int] == (match renders@[idx + 1] {
                Some(s) => Some(s@),
                None => None::<Seq<char>>,
            }));
            lemma_css_sections_snoc(rv, 0, ri as int);
        }
        push_section(&mut out, &renders[idx], &renders[idx + 1]);
        idx = idx + 2;
        ri = ri + 1;
    }
    let nch = monitor.children.len();
    let mut k: usize = 0;
    let ghost whole: Seq<char> = base + css_sections(rv, 0, rules as int);
    proof {
        assert(css_suffix(monitor, rv, rules as int, 0, 0) =~= Seq::<char>::empty());
        assert(out@ =~= whole + css_suffix(monitor, rv, rules as int, 0, 0));
    }
    while k < nch
        invariant
            k <= nch,
            idx == 2 * rules * (k + 1),
            rules == config.rules@.len(),
            rv == renders_view(renders@),
            rlen == renders@.len(),
            renders@.len() == 2 * rules * (1 + monitor.children.spec_len()),
            nch == monitor.children.spec_len(),
            crate::status::state_wf(monitor),
            whole == base + css_sections(rv, 0, rules as int),
            out@ == whole + css_suffix(monitor, rv, rules as int, 0, k as int),
        decreases nch - k,
    {
        proof {
            assert(2 * (rules as int) * (k + 2) <= 2 * (rules as int) * (1 + nch as int))
                by (nonlinear_arith)
                requires
                    0 <= k,
                    (k as int) + 1 <= nch as int,
                    rules >= 0,
            ;
            assert(2 * (rules as int) * ((k as int) + 1) + 2 * (rules as int) == 2 * (rules as int)
                * ((k as int) + 2)) by (nonlinear_arith);
        }
        let child_id = monitor.children.key_at(k);
        let child = monitor.children.val_at(k);
        proof {
            assert(crate::status::child_wf_at(monitor.children.vals()[k as int]));
            assert(crate::status::status_wf(&child.status));
        }
        let block = css_monitor_block(child_id.as_str(), &child.status);
        push_str_chars(&mut out, block.as_str());
        let mut rj: usize = 0;
        let ghost cb: Seq<char> = out@;
        let ghost cbase: int = idx as int;
        proof {
            assert(out@ =~= cb + css_sections(rv, cbase, 0));
        }
        while rj < rules
            invariant
                rj <= rules,
                k < nch,
                idx == cbase + 2 * rj,
                cbase == 2 * rules * (k + 1),
                cbase + 2 * (rules as int) <= renders@.len(),
                rules == config.rules@.len(),
                rv == renders_view(renders@),
                rlen == renders@.len(),
                renders@.len() == 2 * rules * (1 + monitor.children.spec_len()),
                nch == monitor.children.spec_len(),
                out@ == cb + css_sections(rv, cbase, rj as int),
            decreases rules - rj,
        {
            proof {
                assert(idx + 1 < rv.len());
                assert(rv[idx as int] == (match renders@[idx as int] {
                    Some(s) => Some(s@),
                    None => None::<Seq<char>>,
                }));
                assert(rv[idx + 1 as int] == (match renders@[idx + 1] {
                    Some(s) => Some(s@),
                    None => None::<Seq<char>>,
                }));
                lemma_css_sections_snoc(rv, cbase, rj as int);
            }
            push_section(&mut out, &renders[idx], &renders[idx + 1]);
            idx = idx + 2;
            rj = rj + 1;
        }
        proof {
            lemma_css_suffix_snoc(monitor, rv, rules as int, k as int);
            assert(out@ =~= whole + css_suffix(monitor, rv, rules as int, 0, k + 1 as int));
        }
        k = k + 1;
    }
    proof {
        lemma_css_suffix_whole(monitor, rv, rules as int, 0);
        assert(out@ =~= css_monitor_spec(rules as int, monitor, rv));
    }
    chars_to_string(&out)
}

/// The children's fragments between two positions.
pub open spec fn css_suffix(
    monitor: &MonitorState,
    renders: Seq<Option<Seq<char>>>,
    rules: int,
    lo: int,
    hi: int,
) -> Seq<char>
    decreases hi - lo,
{
    if lo < 0 || lo >= hi || hi > monitor.children.keys().len() || rules < 0 {
        Seq::empty()
    } else {
        css_block(monitor.children.keys()[lo], monitor.children.vals()[lo].status) + css_sections(
            renders,
            2 * rules * (lo + 1),
            rules,
        ) + css_suffix(monitor, renders, rules, lo + 1, hi)
    }
}

proof fn lemma_css_sections_snoc(renders: Seq<Option<Seq<char>>>, base: int, i: int)
    requires
        0 <= base,
        0 <= i,
        base + 2 * i + 2 <= renders.len(),
    ensures
        css_sections(renders, base, i + 1) == css_sections(renders, base, i) + css_section(
            renders[base + 2 * i],
            renders[base + 2 * i + 1],
        ),
    decreases i,
{
    if i == 0 {
        assert(css_sections(renders, base, 1) =~= css_section(renders[base], renders[base + 1])
            + css_sections(renders, base + 2, 0));
        assert(css_sections(renders, base + 2, 0) =~= Seq::<char>::empty());
        assert(css_sections(renders, base, 0) =~= Seq::<char>::empty());
        assert(css_sections(renders, base, 0) + css_section(renders[base], renders[base + 1])
            =~= css_section(renders[base], renders[base + 1]) + Seq::<char>::empty());
    } else {
        lemma_css_sections_snoc(renders, base + 2, i - 1);
        assert((css_section(renders[base], renders[base + 1]) + css_sections(
            renders,
            base + 2,
            i - 1,
        )) + css_section(renders[base + 2 * i], renders[base + 2 * i + 1]) =~= css_section(
            renders[base],
            renders[base + 1],
        ) + (css_sections(renders, base + 2, i - 1) + css_section(
            renders[base + 2 * i],
            renders[base + 2 * i + 1],
        )));
    }
}

proof fn lemma_css_suffix_snoc(
    monitor: &MonitorState,
    renders: Seq<Option<Seq<char>>>,
    rules: int,
    k: int,
)
    requires
        0 <= k < monitor.children.keys().len(),
        rules >= 0,
    ensures
        css_suffix(monitor, renders, rules, 0, k + 1) == css_suffix(monitor, renders, rules, 0, k)
            + (css_block(monitor.children.keys()[k], monitor.children.vals()[k].status)
            + css_sections(renders, 2 * rules * (k + 1), rules)),
{
    lemma_css_suffix_split(monitor, renders, rules, 0, k);
}

proof fn lemma_css_suffix_split(
    monitor: &MonitorState,
    renders: Seq<Option<Seq<char>>>,
    rules: int,
    lo: int,
    k: int,
)
    requires
        0 <= lo <= k < monitor.children.keys().len(),
        rules >= 0,
    ensures
        css_suffix(monitor, renders, rules, lo, k + 1) == css_suffix(monitor, renders, rules, lo, k)
            + (css_block(monitor.children.keys()[k], monitor.children.vals()[k].status)
            + css_sections(renders, 2 * rules * (k + 1), rules)),
    decreases k - lo,
{
    let piece = css_block(monitor.children.keys()[k], monitor.children.vals()[k].status)
        + css_sections(renders, 2 * rules * (k + 1), rules);
    if lo == k {
        assert(css_suffix(monitor, renders, rules, lo, k) =~= Seq::<char>::empty());
        assert(css_suffix(monitor, renders, rules, k + 1, k + 1) =~= Seq::<char>::empty());
        assert(css_suffix(monitor, renders, rules, lo, k + 1) =~= piece + Seq::<char>::empty());
        assert(css_suffix(monitor, renders, rules, lo, k) + piece =~= piece + Seq::<char>::empty());
    } else {
        lemma_css_suffix_split(monitor, renders, rules, lo + 1, k);
        let head = css_block(monitor.children.keys()[lo], monitor.children.vals()[lo].status)
            + css_sections(renders, 2 * rules * (lo + 1), rules);
        assert((head + css_suffix(monitor, renders, rules, lo + 1, k)) + piece =~= head
            + (css_suffix(monitor, renders, rules, lo + 1, k) + piece));
    }
}

proof fn lemma_css_suffix_whole(
    monitor: &MonitorState,
    renders: Seq<Option<Seq<char>>>,
    rules: int,
    k: int,
)
    requires
        0 <= k <= monitor.children.keys().len(),
        rules >= 0,
    ensures
        css_suffix(monitor, renders, rules, k, monitor.children.keys().len() as int)
            == css_children_spec(monitor, renders, rules, k),
    decreases monitor.children.keys().len() - k,
{
    if k < monitor.children.keys().len() {
        lemma_css_suffix_whole(monitor, renders, rules, k + 1);
    } else {
        assert(css_suffix(monitor, renders, rules, k, monitor.children.keys().len() as int)
            =~= Seq::<char>::empty());
        assert(css_children_spec(monitor, renders, rules, k) =~= Seq::<char>::empty());
    }
}

} // verus!
