//! The ping probe: configuration, the RTT line parser, and the processor
//! that turns one run's RTT samples into status directives.
use vstd::prelude::*;

use crate::config::MonitorDirTestConfig;
use crate::expressions::{calc_bool_spec, calculate_bool, as_str_spec, Ctx, ValView, Value};
use crate::kmap::KeyMap;
use crate::text::{
    char_is_digit, chars_to_string, dec_val, digit_prefix_len, find_idx, find_sub, is_digit_char,
    json_quote_spec, lemma_dec_val_nonneg, lemma_digit_prefix_from_digits, lemma_find_idx,
    matches_at, push_chars, push_str_chars, string_to_chars, u64_to_chars,
};

verus! {

/// The ping probe configuration, with its colour predicates.
pub struct PingMonitorConfig {
    pub host: String,
    pub interval_ms: u64,
    pub timeout_ms: u64,
    pub warning_timeout_ms: u64,
    pub count: u32,
    pub red: String,
    pub green: String,
    pub blue: String,
    pub orange: String,
    pub yellow: String,
    pub test: Option<MonitorDirTestConfig>,
}

pub fn default_warning_timeout() -> (r: u64)
    ensures
        r == 1000,
{
    1000
}

pub fn default_count() -> (r: u32)
    ensures
        r == 1,
{
    1
}

pub fn default_red() -> (r: String)
    ensures
        r@ == "lost == count"@,
{
    String::from_str("lost == count")
}

pub fn default_green() -> (r: String)
    ensures
        r@ == "lost == 0"@,
{
    String::from_str("lost == 0")
}

pub fn default_blue() -> (r: String)
    ensures
        r@ == "false"@,
{
    String::from_str("false")
}

pub fn default_orange() -> (r: String)
    ensures
        r@ == "lost > 0 or (lost == 0 and rtt_max > warning_timeout)"@,
{
    String::from_str("lost > 0 or (lost == 0 and rtt_max > warning_timeout)")
}

pub fn default_yellow() -> (r: String)
    ensures
        r@ == "false"@,
{
    String::from_str("false")
}

/// Saturating widening of a nonnegative value into `u64`.
pub open spec fn sat_u64(x: int) -> u64 {
    if x > u64::MAX {
        u64::MAX as u64
    } else if x < 0 {
        0u64
    } else {
        x as u64
    }
}

/// Saturating narrowing of an unsigned value into `i64`.
pub open spec fn sat_i64_of_u64(x: u64) -> i64 {
    if x > i64::MAX {
        i64::MAX as i64
    } else {
        x as i64
    }
}

fn sat_i64_exec(x: u64) -> (r: i64)
    ensures
        r == sat_i64_of_u64(x),
{
    if x > 9223372036854775807u64 {
        i64::MAX
    } else {
        x as i64
    }
}

impl PingMonitorConfig {
    /// The probe this configuration runs: a `ping` invocation through `env`,
    /// with this configuration's processor installed.
    pub fn test(&self) -> (r: MonitorDirTestConfig)
        ensures
            r.interval_ms == self.interval_ms,
            r.timeout_ms == self.timeout_ms,
            r.command@ == "/usr/bin/env"@,
            r.args.deep_view() =~= seq![
                "ping"@,
                "-c"@,
                crate::text::dec_rep_nat(self.count as nat),
                self.host@,
            ],
            r.processor matches Some(p) && p@ == crate::monitor::ProcCfgView::Ping(
                PingProcView {
                    count: self.count,
                    warning_timeout_us: sat_u64(self.warning_timeout_ms * 1000),
                    red: self.red@,
                    green: self.green@,
                    blue: self.blue@,
                    orange: self.orange@,
                    yellow: self.yellow@,
                },
            ),
    {
        let mut args: Vec<String> = Vec::new();
        args.push(String::from_str("ping"));
        args.push(String::from_str("-c"));
        let cnt = crate::text::u64_to_chars(self.count as u64);
        args.push(chars_to_string(&cnt));
        args.push(self.host.clone());
        let warn_us: u64 = match self.warning_timeout_ms.checked_mul(1000) {
            Some(v) => v,
            None => u64::MAX,
        };
        MonitorDirTestConfig {
            interval_ms: self.interval_ms,
            timeout_ms: self.timeout_ms,
            command: String::from_str("/usr/bin/env"),
            args,
            processor: Some(
                crate::monitor::MonitorMessageProcessor::Ping(
                    PingMonitorMessageProcessor {
                        count: self.count,
                        warning_timeout_us: warn_us,
                        red: self.red.clone(),
                        green: self.green.clone(),
                        blue: self.blue.clone(),
                        orange: self.orange.clone(),
                        yellow: self.yellow.clone(),
                    },
                ),
            ),
        }
    }
}

/// The installed ping processor: the run-independent settings.
pub struct PingMonitorMessageProcessor {
    pub count: u32,
    pub warning_timeout_us: u64,
    pub red: String,
    pub green: String,
    pub blue: String,
    pub orange: String,
    pub yellow: String,
}

/// The mathematical shape of the ping processor settings.
pub struct PingProcView {
    pub count: u32,
    pub warning_timeout_us: u64,
    pub red: Seq<char>,
    pub green: Seq<char>,
    pub blue: Seq<char>,
    pub orange: Seq<char>,
    pub yellow: Seq<char>,
}

impl View for PingMonitorMessageProcessor {
    type V = PingProcView;

    open spec fn view(&self) -> PingProcView {
        PingProcView {
            count: self.count,
            warning_timeout_us: self.warning_timeout_us,
            red: self.red@,
            green: self.green@,
            blue: self.blue@,
            orange: self.orange@,
            yellow: self.yellow@,
        }
    }
}

impl Clone for PingMonitorMessageProcessor {
    fn clone(&self) -> (r: Self)
        ensures
            r@ == self@,
    {
        PingMonitorMessageProcessor {
            count: self.count,
            warning_timeout_us: self.warning_timeout_us,
            red: self.red.clone(),
            green: self.green.clone(),
            blue: self.blue.clone(),
            orange: self.orange.clone(),
            yellow: self.yellow.clone(),
        }
    }
}

/// One run's ping state: the settings and the RTT samples seen so far, in
/// microseconds.
pub struct PingMonitorMessageProcessorInstance {
    pub count: u32,
    pub warning_timeout_us: u64,
    pub red: String,
    pub green: String,
    pub blue: String,
    pub orange: String,
    pub yellow: String,
    pub ping_output: Vec<u64>,
}

/// The mathematical shape of one run's ping state.
pub struct PingInstView {
    pub settings: PingProcView,
    pub output: Seq<u64>,
}

impl View for PingMonitorMessageProcessorInstance {
    type V = PingInstView;

    open spec fn view(&self) -> PingInstView {
        PingInstView {
            settings: PingProcView {
                count: self.count,
                warning_timeout_us: self.warning_timeout_us,
                red: self.red@,
                green: self.green@,
                blue: self.blue@,
                orange: self.orange@,
                yellow: self.yellow@,
            },
            output: self.ping_output@,
        }
    }
}

/// The fresh per-run state of the ping processor: no samples yet.
pub open spec fn ping_instance_spec(c: PingProcView) -> PingInstView {
    PingInstView { settings: c, output: Seq::empty() }
}

/// Length of the longest prefix of digit-or-dot characters.
pub open spec fn num_prefix_len(s: Seq<char>) -> int
    decreases s.len(),
{
    if s.len() == 0 || !(is_digit_char(s.first()) || s.first() == '.') {
        0
    } else {
        1 + num_prefix_len(s.drop_first())
    }
}

proof fn lemma_num_prefix_from_chars(s: Seq<char>, k: int)
    requires
        0 <= k <= s.len(),
        forall|j: int| 0 <= j < k ==> is_digit_char(#[trigger] s[j]) || s[j] == '.',
        k == s.len() || !(is_digit_char(s[k]) || s[k] == '.'),
    ensures
        num_prefix_len(s) == k,
    decreases s.len(),
{
    if k == 0 {
    } else {
        lemma_num_prefix_from_chars(s.drop_first(), k - 1);
    }
}

/// The microseconds encoded by up to the first three fraction digits.
pub open spec fn frac3(fd: Seq<char>) -> int {
    if fd.len() >= 3 {
        dec_val(fd.take(3))
    } else if fd.len() == 2 {
        dec_val(fd) * 10
    } else if fd.len() == 1 {
        dec_val(fd) * 100
    } else {
        0
    }
}

/// The microsecond value of a decimal `seconds.millis`-style text, when the
/// text is exactly `digits`, `digits.digits` or `.digits`.
pub open spec fn ping_time_value(t: Seq<char>) -> Option<int> {
    let a = digit_prefix_len(t);
    if t.len() == 0 {
        None
    } else if a == t.len() {
        Some(dec_val(t) * 1000)
    } else if t[a] == '.' {
        let c = digit_prefix_len(t.skip(a + 1));
        if a + 1 + c == t.len() && (a > 0 || c > 0) {
            Some(dec_val(t.take(a)) * 1000 + frac3(t.skip(a + 1)))
        } else {
            None
        }
    } else {
        None
    }
}

/// Whether `needle` occurs anywhere in `hay`.
pub open spec fn contains_sub(hay: Seq<char>, needle: Seq<char>) -> bool {
    exists|i: int| matches_at(hay, needle, i)
}

/// A below-resolution RTT report: any of the sub-millisecond notations
/// counts as one millisecond.
pub open spec fn sub_ms_report(line: Seq<char>) -> bool {
    contains_sub(line, "time<1ms"@) || contains_sub(line, "time<1 ms"@) || contains_sub(
        line,
        "time=<1ms"@,
    )
}

/// The RTT a ping output line reports, in microseconds: the decimal after
/// the first `time=`, or one millisecond for a sub-millisecond notation.
pub open spec fn ping_rtt_us(line: Seq<char>) -> Option<u64> {
    let f = find_idx(line, "time="@);
    if f >= 0 {
        let rest = line.skip(f + 5);
        let t = rest.take(num_prefix_len(rest));
        match ping_time_value(t) {
            Some(v) => Some(sat_u64(v)),
            None => if sub_ms_report(line) {
                Some(1000)
            } else {
                None
            },
        }
    } else {
        if sub_ms_report(line) {
            Some(1000)
        } else {
            None
        }
    }
}

/// Accumulate the decimal value of a digit run, reporting saturation.
fn dec_val_acc(cs: &Vec<char>, lo: usize, hi: usize) -> (r: (u64, bool))
    requires
        lo <= hi <= cs@.len(),
        forall|j: int| lo <= j < hi ==> is_digit_char(#[trigger] cs@[j]),
    ensures
        !r.1 ==> r.0 as int == dec_val(cs@.subrange(lo as int, hi as int)),
        r.1 ==> dec_val(cs@.subrange(lo as int, hi as int)) > u64::MAX as int,
{
    let mut acc: u64 = 0;
    let mut overflow: bool = false;
    let mut i: usize = lo;
    while i < hi
        invariant
            lo <= i <= hi <= cs@.len(),
            forall|j: int| lo <= j < hi ==> is_digit_char(#[trigger] cs@[j]),
            !overflow ==> acc as int == dec_val(cs@.subrange(lo as int, i as int)),
            overflow ==> dec_val(cs@.subrange(lo as int, i as int)) > u64::MAX as int,
        decreases hi - i,
    {
        let d: u64 = match crate::text::char_digit(cs[i]) {
            Some(d) => d,
            None => 0,
        };
        proof {
            assert(cs@.subrange(lo as int, i + 1 as int).drop_last() =~= cs@.subrange(
                lo as int,
                i as int,
            ));
            assert(cs@.subrange(lo as int, i + 1 as int).last() == cs@[i as int]);
            lemma_dec_val_nonneg(cs@.subrange(lo as int, i as int));
        }
        if !overflow {
            if acc > (u64::MAX - d) / 10 {
                overflow = true;
            } else {
                acc = acc * 10 + d;
            }
        }
        i = i + 1;
    }
    (acc, overflow)
}

/// Parse the RTT reported by one ping output line, as `ping_rtt_us` says.
pub fn parse_ping_output(line: &str) -> (r: Option<u64>)
    ensures
        r == ping_rtt_us(line@),
{
    let cs = string_to_chars(line);
    let needle = string_to_chars("time=");
    let found = find_sub(&cs, &needle);
    proof {
        lemma_find_idx(cs@, "time="@);
    }
    match found {
        None => {
            proof {
                if find_idx(cs@, "time="@) >= 0 {
                    assert(matches_at(cs@, "time="@, find_idx(cs@, "time="@)));
                }
            }
            sub_ms_exec(&cs)
        },
        Some(i) => {
            let clen = cs.len();
            proof {
                let f = find_idx(cs@, "time="@);
                assert(matches_at(cs@, "time="@, i as int));
                if f < 0 {
                    assert(false);
                } else if f < i as int {
                    assert(matches_at(cs@, "time="@, f));
                    assert(false);
                } else if f > i as int {
                    assert(!matches_at(cs@, "time="@, i as int));
                    assert(false);
                }
                assert(needle@.len() == 5) by {
                    reveal_strlit("time=");
                }
            }
            proof {
                assert(i + 5 <= clen);
            }
            let start = i + 5;
            let ghost rest: Seq<char> = cs@.skip(start as int);
            // the digit-or-dot prefix after `time=`
            let mut k: usize = start;
            while k < cs.len() && (char_is_digit(cs[k]) || cs[k] == '.')
                invariant
                    start <= k <= cs@.len(),
                    forall|j: int|
                        start <= j < k ==> is_digit_char(#[trigger] cs@[j]) || cs@[j] == '.',
                decreases cs@.len() - k,
            {
                k = k + 1;
            }
            proof {
                assert forall|j: int| 0 <= j < k - start implies is_digit_char(#[trigger] rest[j])
                    || rest[j] == '.' by {
                    assert(rest[j] == cs@[start + j]);
                }
                if (k as int - start as int) < rest.len() {
                    assert(rest[k - start as int] == cs@[k as int]);
                }
                lemma_num_prefix_from_chars(rest, k as int - start as int);
            }
            let ghost t: Seq<char> = rest.take(num_prefix_len(rest));
            proof {
                assert(t =~= cs@.subrange(start as int, k as int));
            }
            // the integer digits
            let mut a: usize = start;
            while a < k && char_is_digit(cs[a])
                invariant
                    start <= a <= k <= cs@.len(),
                    forall|j: int| start <= j < a ==> is_digit_char(#[trigger] cs@[j]),
                decreases k - a,
            {
                a = a + 1;
            }
            proof {
                assert forall|j: int| 0 <= j < a - start implies is_digit_char(#[trigger] t[j]) by {
                    assert(t[j] == cs@[start + j]);
                }
                if (a as int - start as int) < t.len() {
                    assert(t[a - start as int] == cs@[a as int]);
                }
                lemma_digit_prefix_from_digits(t, a as int - start as int);
            }
            if k == start {
                // no decimal at all after time=
                assert(t.len() == 0);
                sub_ms_exec(&cs)
            } else if a == k {
                // a pure integer of milliseconds
                let (acc, overflow) = dec_val_acc(&cs, start, k);
                proof {
                    assert(cs@.subrange(start as int, k as int) =~= t);
                    assert(t.take(digit_prefix_len(t)) =~= t);
                }
                Some(scale_ms(acc, overflow, 0, Ghost(t)))
            } else {
                proof {
                    assert(t[a - start as int] == cs@[a as int]);
                }
                if cs[a] == '.' {
                    // fraction digits
                    let fstart = a + 1;
                    let mut c: usize = fstart;
                    while c < k && char_is_digit(cs[c])
                        invariant
                            fstart <= c <= k <= cs@.len(),
                            forall|j: int| fstart <= j < c ==> is_digit_char(#[trigger] cs@[j]),
                        decreases k - c,
                    {
                        c = c + 1;
                    }
                    let ghost fd: Seq<char> = t.skip(a - start + 1 as int);
                    proof {
                        assert(fd =~= cs@.subrange(fstart as int, k as int));
                        assert forall|j: int| 0 <= j < c - fstart implies is_digit_char(
                            #[trigger] fd[j],
                        ) by {
                            assert(fd[j] == cs@[fstart + j]);
                        }
                        if (c as int - fstart as int) < fd.len() {
                            assert(fd[c - fstart as int] == cs@[c as int]);
                        }
                        lemma_digit_prefix_from_digits(fd, c as int - fstart as int);
                    }
                    if c == k && (a > start || c > fstart) {
                        // digits '.' digits, at least one digit
                        let (acc, overflow) = dec_val_acc(&cs, start, a);
                        proof {
                            assert(cs@.subrange(start as int, a as int) =~= t.take(
                                a - start as int,
                            ));
                        }
                        let f3 = frac3_exec(&cs, fstart, k);
                        proof {
                            assert(cs@.subrange(fstart as int, k as int) =~= fd);
                        }
                        Some(scale_ms(acc, overflow, f3, Ghost(t)))
                    } else {
                        // a second dot inside the number, or a bare dot
                        proof {
                            if c < k {
                                assert(t[c - start as int] == cs@[c as int]);
                                assert(is_digit_char(cs@[c as int]) || cs@[c as int] == '.');
                            }
                        }
                        sub_ms_exec(&cs)
                    }
                } else {
                    proof {
                        assert(is_digit_char(cs@[a as int]) || cs@[a as int] == '.');
                        assert(false);
                    }
                    None
                }
            }
        },
    }
}

/// Millisecond-to-microsecond scaling with saturation: the integer part,
/// saturation flag, and fraction microseconds combine into the reported RTT.
fn scale_ms(acc: u64, overflow: bool, f3: u64, t: Ghost<Seq<char>>) -> (r: u64)
    requires
        f3 <= 999,
        ({
            let a = digit_prefix_len(t@);
            &&& (!overflow ==> acc as int == dec_val(t@.take(a)))
            &&& (overflow ==> dec_val(t@.take(a)) > u64::MAX as int)
            &&& ping_time_value(t@) matches Some(v) && v == dec_val(t@.take(a)) * 1000 + f3
        }),
    ensures
        r == sat_u64(ping_time_value(t@)->Some_0),
{
    let ghost a = digit_prefix_len(t@);
    let ghost iv = dec_val(t@.take(a));
    proof {
        lemma_dec_val_nonneg_weak(t@.take(a));
    }
    if overflow {
        proof {
            assert(iv * 1000 >= iv) by (nonlinear_arith)
                requires
                    iv >= 0,
            ;
        }
        u64::MAX
    } else {
        match acc.checked_mul(1000) {
            None => {
                proof {
                    assert(iv * 1000 + f3 >= iv * 1000);
                }
                u64::MAX
            },
            Some(b) => {
                match b.checked_add(f3) {
                    None => u64::MAX,
                    Some(v) => v,
                }
            },
        }
    }
}

proof fn lemma_dec_val_nonneg_weak(s: Seq<char>)
    ensures
        dec_val(s) >= 0 || exists|j: int| 0 <= j < s.len() && !is_digit_char(#[trigger] s[j]),
    decreases s.len(),
{
    if s.len() > 0 {
        lemma_dec_val_nonneg_weak(s.drop_last());
        if forall|j: int| 0 <= j < s.len() ==> is_digit_char(#[trigger] s[j]) {
            assert forall|j: int| 0 <= j < s.drop_last().len() implies is_digit_char(
                #[trigger] s.drop_last()[j],
            ) by {
                assert(s.drop_last()[j] == s[j]);
            }
            crate::text::lemma_dec_val_nonneg(s.drop_last());
            assert(is_digit_char(s.last()));
        }
    }
}

/// The first three fraction digits as microseconds.
fn frac3_exec(cs: &Vec<char>, lo: usize, hi: usize) -> (r: u64)
    requires
        lo <= hi <= cs@.len(),
        forall|j: int| lo <= j < hi ==> is_digit_char(#[trigger] cs@[j]),
    ensures
        r as int == frac3(cs@.subrange(lo as int, hi as int)),
        r <= 999,
{
    let ghost fd: Seq<char> = cs@.subrange(lo as int, hi as int);
    let n = hi - lo;
    if n == 0 {
        0
    } else {
        let d0: u64 = match crate::text::char_digit(cs[lo]) {
            Some(d) => d,
            None => 0,
        };
        proof {
            assert(fd.take(1).drop_last() =~= Seq::<char>::empty());
            assert(fd.take(1).last() == cs@[lo as int]);
        }
        if n == 1 {
            proof {
                assert(dec_val(Seq::<char>::empty()) == 0);
                assert(dec_val(fd.take(1)) == d0 as int);
                assert(fd.take(1) =~= fd);
            }
            d0 * 100
        } else {
            let d1: u64 = match crate::text::char_digit(cs[lo + 1]) {
                Some(d) => d,
                None => 0,
            };
            proof {
                assert(fd.take(2).drop_last() =~= fd.take(1));
                assert(fd.take(2).last() == cs@[lo + 1]);
            }
            if n == 2 {
                proof {
                    assert(dec_val(Seq::<char>::empty()) == 0);
                    assert(dec_val(fd.take(1)) == d0 as int);
                    assert(dec_val(fd.take(2)) == d0 as int * 10 + d1 as int);
                    assert(fd.take(2) =~= fd);
                }
                (d0 * 10 + d1) * 10
            } else {
                let d2: u64 = match crate::text::char_digit(cs[lo + 2]) {
                    Some(d) => d,
                    None => 0,
                };
                proof {
                    assert(fd.take(3).drop_last() =~= fd.take(2));
                    assert(fd.take(3).last() == cs@[lo + 2]);
                    assert(dec_val(Seq::<char>::empty()) == 0);
                    assert(dec_val(fd.take(1)) == d0 as int);
                    assert(dec_val(fd.take(2)) == d0 as int * 10 + d1 as int);
                    assert(dec_val(fd.take(3)) == (d0 as int * 10 + d1 as int) * 10 + d2 as int);
                }
                (d0 * 10 + d1) * 10 + d2
            }
        }
    }
}

/// Recognise the sub-millisecond notations.
fn sub_ms_exec(cs: &Vec<char>) -> (r: Option<u64>)
    ensures
        r == (if sub_ms_report(cs@) {
            Some(1000u64)
        } else {
            None::<u64>
        }),
{
    let n1 = string_to_chars("time<1ms");
    let n2 = string_to_chars("time<1 ms");
    let n3 = string_to_chars("time=<1ms");
    let h1 = find_sub(cs, &n1);
    let h2 = find_sub(cs, &n2);
    let h3 = find_sub(cs, &n3);
    proof {
        match h1 {
            Some(i) => {
                assert(matches_at(cs@, "time<1ms"@, i as int));
            },
            None => {},
        }
        match h2 {
            Some(i) => {
                assert(matches_at(cs@, "time<1 ms"@, i as int));
            },
            None => {},
        }
        match h3 {
            Some(i) => {
                assert(matches_at(cs@, "time=<1ms"@, i as int));
            },
            None => {},
        }
    }
    if h1.is_some() || h2.is_some() || h3.is_some() {
        Some(1000)
    } else {
        None
    }
}

/// What one line does to the run state: a parsed RTT is appended, anything
/// else leaves the state alone; no directives are synthesised per line.
pub open spec fn ping_process_spec(p: PingInstView, line: Seq<char>) -> (PingInstView, Seq<
    Seq<char>,
>) {
    match ping_rtt_us(line) {
        Some(rtt) => (
            PingInstView { settings: p.settings, output: p.output.push(rtt) },
            Seq::empty(),
        ),
        None => (p, Seq::empty()),
    }
}

/// Sum with saturation.
pub open spec fn sat_sum(s: Seq<u64>) -> u64
    decreases s.len(),
{
    if s.len() == 0 {
        0u64
    } else {
        sat_u64(sat_sum(s.drop_last()) + s.last())
    }
}

/// Least element of a non-empty sequence.
pub open spec fn seq_min_u64(s: Seq<u64>) -> u64
    decreases s.len(),
{
    if s.len() <= 1 {
        s[0]
    } else if s.last() < seq_min_u64(s.drop_last()) {
        s.last()
    } else {
        seq_min_u64(s.drop_last())
    }
}

/// Greatest element of a non-empty sequence.
pub open spec fn seq_max_u64(s: Seq<u64>) -> u64
    decreases s.len(),
{
    if s.len() <= 1 {
        s[0]
    } else if s.last() > seq_max_u64(s.drop_last()) {
        s.last()
    } else {
        seq_max_u64(s.drop_last())
    }
}

/// The evaluation context of one ping run, in sorted key order: the packet
/// counts and the RTT statistics, the placeholder of one minute when
/// nothing came back.
pub open spec fn ping_ctx_keys() -> Seq<Seq<char>> {
    seq!["count"@, "lost"@, "rtt_avg"@, "rtt_max"@, "rtt_min"@, "warning_timeout"@]
}

pub open spec fn ping_ctx_vals(p: PingInstView) -> Seq<ValView> {
    let n = p.output.len();
    let lost: i64 = if p.settings.count > n {
        (p.settings.count - n) as i64
    } else {
        0
    };
    let avg: u64 = if n == 0 {
        60000000u64
    } else {
        sat_sum(p.output) / (n as u64)
    };
    let mn: u64 = if n == 0 {
        60000000u64
    } else {
        seq_min_u64(p.output)
    };
    let mx: u64 = if n == 0 {
        60000000u64
    } else {
        seq_max_u64(p.output)
    };
    seq![
        ValView::Int(p.settings.count as i64),
        ValView::Int(lost),
        ValView::Int(sat_i64_of_u64(avg)),
        ValView::Int(sat_i64_of_u64(mx)),
        ValView::Int(sat_i64_of_u64(mn)),
        ValView::Int(sat_i64_of_u64(p.settings.warning_timeout_us)),
    ]
}

/// One staged metadata directive.
pub open spec fn meta_directive(k: Seq<char>, v: ValView) -> Seq<char> {
    "status.metadata."@ + k + "="@ + json_quote_spec(as_str_spec(v))
}

/// The colour the five predicates pick, by priority.
pub open spec fn ping_colour(p: PingInstView) -> Seq<char> {
    let keys = ping_ctx_keys();
    let vals = ping_ctx_vals(p);
    if calc_bool_spec(p.settings.red, keys, vals) {
        "red"@
    } else if calc_bool_spec(p.settings.orange, keys, vals) {
        "orange"@
    } else if calc_bool_spec(p.settings.yellow, keys, vals) {
        "yellow"@
    } else if calc_bool_spec(p.settings.blue, keys, vals) {
        "blue"@
    } else if calc_bool_spec(p.settings.green, keys, vals) {
        "green"@
    } else {
        "blank"@
    }
}

/// The directives one ping run closes with: every context entry staged as
/// metadata, then the chosen colour.
pub open spec fn ping_finalize_spec(p: PingInstView) -> Seq<Seq<char>> {
    let keys = ping_ctx_keys();
    let vals = ping_ctx_vals(p);
    Seq::new(keys.len(), |i: int| meta_directive(keys[i], vals[i])) + seq![
        "status.status="@ + json_quote_spec(ping_colour(p)),
    ]
}

/// Build one staged metadata directive.
fn meta_directive_exec(k: &str, v: &Value) -> (r: String)
    ensures
        r@ == meta_directive(k@, v@),
{
    let mut out: Vec<char> = Vec::new();
    push_str_chars(&mut out, "status.metadata.");
    push_str_chars(&mut out, k);
    push_str_chars(&mut out, "=");
    let vs = v.as_str();
    let vc = string_to_chars(vs.as_str());
    let quoted = crate::text::json_quote_chars(&vc);
    push_chars(&mut out, &quoted);
    proof {
        assert(out@ =~= meta_directive(k@, v@));
    }
    chars_to_string(&out)
}

impl PingMonitorMessageProcessor {
    /// Start one run's state: the settings, and no samples.
    pub fn instance(&self) -> (r: PingMonitorMessageProcessorInstance)
        ensures
            r@ == ping_instance_spec(self@),
    {
        let r = PingMonitorMessageProcessorInstance {
            count: self.count,
            warning_timeout_us: self.warning_timeout_us,
            red: self.red.clone(),
            green: self.green.clone(),
            blue: self.blue.clone(),
            orange: self.orange.clone(),
            yellow: self.yellow.clone(),
            ping_output: Vec::new(),
        };
        proof {
            assert(r@.output =~= ping_instance_spec(self@).output);
        }
        r
    }
}

impl PingMonitorMessageProcessorInstance {
    /// Store the RTT a line reports, if any; lines synthesise no directives.
    pub fn process_message(&mut self, input: &str) -> (r: Vec<String>)
        ensures
            final(self)@ == ping_process_spec(old(self)@, input@).0,
            r.deep_view() == ping_process_spec(old(self)@, input@).1,
    {
        match parse_ping_output(input) {
            Some(rtt) => {
                self.ping_output.push(rtt);
            },
            None => {},
        }
        let r: Vec<String> = Vec::new();
        proof {
            assert(r.deep_view() =~= Seq::<Seq<char>>::empty());
        }
        r
    }

    /// Close the run: stage the statistics and the chosen colour.
    pub fn finalize(&mut self) -> (r: Vec<String>)
        ensures
            final(self)@ == old(self)@,
            r.deep_view() == ping_finalize_spec(old(self)@),
    {
        let ghost p: PingInstView = self@;
        let n = self.ping_output.len();
        let lost: i64 = if (self.count as u64) > (n as u64) {
            (self.count - (n as u32)) as i64
        } else {
            0
        };
        let avg: u64;
        let mn: u64;
        let mx: u64;
        if n == 0 {
            avg = 60000000;
            mn = 60000000;
            mx = 60000000;
        } else {
            let mut total: u64 = 0;
            let mut lo: u64 = self.ping_output[0];
            let mut hi: u64 = self.ping_output[0];
            let mut i: usize = 0;
            while i < n
                invariant
                    i <= n,
                    n == self.ping_output@.len(),
                    n > 0,
                    total == sat_sum(self.ping_output@.take(i as int)),
                    i > 0 ==> lo == seq_min_u64(self.ping_output@.take(i as int)),
                    i > 0 ==> hi == seq_max_u64(self.ping_output@.take(i as int)),
                    i == 0 ==> lo == self.ping_output@[0] && hi == self.ping_output@[0],
                decreases n - i,
            {
                let x = self.ping_output[i];
                proof {
                    assert(self.ping_output@.take(i + 1 as int).drop_last()
                        =~= self.ping_output@.take(i as int));
                    assert(self.ping_output@.take(i + 1 as int).last()
                        == self.ping_output@[i as int]);
                }
                total = match total.checked_add(x) {
                    Some(t) => t,
                    None => u64::MAX,
                };
                if i == 0 {
                    lo = x;
                    hi = x;
                    proof {
                        assert(self.ping_output@.take(1int)[0] == self.ping_output@[0]);
                    }
                } else {
                    if x < lo {
                        lo = x;
                    }
                    if x > hi {
                        hi = x;
                    }
                }
                i = i + 1;
            }
            proof {
                assert(self.ping_output@.take(n as int) =~= self.ping_output@);
            }
            avg = total / (n as u64);
            mn = lo;
            mx = hi;
        }
        let mut ctx: Ctx = KeyMap::new();
        proof {
            reveal_strlit("count");
            reveal_strlit("lost");
            reveal_strlit("rtt_avg");
            reveal_strlit("rtt_min");
            reveal_strlit("rtt_max");
            reveal_strlit("warning_timeout");
        }
        ctx.insert(String::from_str("count"), Value::Int(self.count as i64));
        proof {
            reveal_strlit("count");
            crate::kmap::lemma_find_key_absent(Seq::<Seq<char>>::empty(), "count"@);
            assert(ctx.keys() =~= seq!["count"@]);
            assert(ctx.vals() =~= seq![ValView::Int(p.settings.count as i64)]);
        }
        ctx.insert(String::from_str("lost"), Value::Int(lost));
        proof {
            reveal_strlit("count");
            reveal_strlit("lost");
assert(("count"@).len() == 5);
            assert(("lost"@).len() == 4);
            assert(("rtt_avg"@).len() == 7);
            assert(("rtt_min"@).len() == 7);
            assert(("rtt_max"@).len() == 7);
            assert(("warning_timeout"@).len() == 15);
            assert(("rtt_avg"@)[4] != ("rtt_min"@)[4]);
            assert(("rtt_avg"@)[4] != ("rtt_max"@)[4]);
            assert(("rtt_min"@)[5] != ("rtt_max"@)[5]);
            crate::kmap::lemma_find_key_absent(seq!["count"@], "lost"@);
            assert(ctx.keys() =~= seq!["count"@, "lost"@]);
        }
        ctx.insert(String::from_str("rtt_avg"), Value::Int(sat_i64_exec(avg)));
        proof {
            reveal_strlit("count");
            reveal_strlit("lost");
            reveal_strlit("rtt_avg");
            assert(("count"@).len() == 5);
            assert(("lost"@).len() == 4);
            assert(("rtt_avg"@).len() == 7);
            
            crate::kmap::lemma_find_key_absent(seq!["count"@, "lost"@], "rtt_avg"@);
            assert(ctx.keys() =~= seq!["count"@, "lost"@, "rtt_avg"@]);
        }
        ctx.insert(String::from_str("rtt_max"), Value::Int(sat_i64_exec(mx)));
        proof {
            reveal_strlit("count");
            reveal_strlit("lost");
            reveal_strlit("rtt_avg");
            reveal_strlit("rtt_max");
            assert(("count"@).len() == 5);
            assert(("lost"@).len() == 4);
            assert(("rtt_max"@).len() == 7);
            assert(("rtt_avg"@)[4] != ("rtt_max"@)[4]);
            crate::kmap::lemma_find_key_absent(seq!["count"@, "lost"@, "rtt_avg"@], "rtt_max"@);
            assert(ctx.keys() =~= seq!["count"@, "lost"@, "rtt_avg"@, "rtt_max"@]);
        }
        ctx.insert(String::from_str("rtt_min"), Value::Int(sat_i64_exec(mn)));
        proof {
            reveal_strlit("count");
            reveal_strlit("lost");
            reveal_strlit("rtt_avg");
            reveal_strlit("rtt_min");
            reveal_strlit("rtt_max");
            assert(("count"@).len() == 5);
            assert(("lost"@).len() == 4);
            assert(("rtt_min"@).len() == 7);
            assert(("rtt_avg"@)[4] != ("rtt_min"@)[4]);
            assert(("rtt_min"@)[5] != ("rtt_max"@)[5]);
            crate::kmap::lemma_find_key_absent(
                seq!["count"@, "lost"@, "rtt_avg"@, "rtt_max"@],
                "rtt_min"@,
            );
            assert(ctx.keys() =~= seq!["count"@, "lost"@, "rtt_avg"@, "rtt_max"@, "rtt_min"@]);
        }
        ctx.insert(String::from_str("warning_timeout"), Value::Int(sat_i64_exec(self.warning_timeout_us)));
        proof {
            reveal_strlit("count");
            reveal_strlit("lost");
            reveal_strlit("rtt_avg");
            reveal_strlit("rtt_min");
            reveal_strlit("rtt_max");
            reveal_strlit("warning_timeout");
            assert(("count"@).len() == 5);
            assert(("lost"@).len() == 4);
            assert(("rtt_avg"@).len() == 7);
            assert(("rtt_min"@).len() == 7);
            assert(("rtt_max"@).len() == 7);
            assert(("warning_timeout"@).len() == 15);
            crate::kmap::lemma_find_key_absent(
                seq!["count"@, "lost"@, "rtt_avg"@, "rtt_max"@, "rtt_min"@],
                "warning_timeout"@,
            );
            assert(ctx.keys() =~= ping_ctx_keys());
            assert(ctx.vals() =~= ping_ctx_vals(p));
        }
        let mut out: Vec<String> = Vec::new();
        let m = ctx.len();
        let mut i: usize = 0;
        while i < m
            invariant
                i <= m,
                ctx.wf(),
                m == ctx.spec_len(),
                ctx.keys() == ping_ctx_keys(),
                ctx.vals() == ping_ctx_vals(p),
                out@.len() == i,
                out.deep_view() =~= Seq::new(i as nat, |j: int| meta_directive(
                    ping_ctx_keys()[j],
                    ping_ctx_vals(p)[j],
                )),
            decreases m - i,
        {
            let k = ctx.key_at(i).clone();
            let d = meta_directive_exec(k.as_str(), ctx.val_at(i));
            let ghost dv: Seq<char> = d@;
            let ghost pre_out: Seq<String> = out@;
            let ghost pre_dv: Seq<Seq<char>> = out.deep_view();
            out.push(d);
            proof {
                assert(k@ == ping_ctx_keys()[i as int]);
                assert(out@[i as int]@ == dv);
                assert forall|j: int|
                    0 <= j < i + 1 implies out.deep_view()[j] == Seq::new(
                    (i + 1) as nat,
                    |j2: int| meta_directive(ping_ctx_keys()[j2], ping_ctx_vals(p)[j2]),
                )[j] by {
                    assert(out.deep_view()[j] == out@[j]@);
                    if j < i {
                        assert(out@[j] == pre_out[j]);
                        assert(pre_dv[j] == pre_out[j]@);
                        assert(pre_dv[j] == Seq::new(
                            i as nat,
                            |j2: int| meta_directive(ping_ctx_keys()[j2], ping_ctx_vals(p)[j2]),
                        )[j]);
                    } else {
                        assert(out.deep_view()[j] == dv);
                        assert(dv == meta_directive(
                            ping_ctx_keys()[i as int],
                            ping_ctx_vals(p)[i as int],
                        ));
                    }
                }
                assert(out.deep_view() =~= Seq::new((i + 1) as nat, |j: int| meta_directive(
                    ping_ctx_keys()[j],
                    ping_ctx_vals(p)[j],
                )));
            }
            i = i + 1;
        }
        let red = calculate_bool(self.red.as_str(), &ctx);
        let orange = calculate_bool(self.orange.as_str(), &ctx);
        let yellow = calculate_bool(self.yellow.as_str(), &ctx);
        let blue = calculate_bool(self.blue.as_str(), &ctx);
        let green = calculate_bool(self.green.as_str(), &ctx);
        let colour: &str = if red {
            "red"
        } else if orange {
            "orange"
        } else if yellow {
            "yellow"
        } else if blue {
            "blue"
        } else if green {
            "green"
        } else {
            "blank"
        };
        let mut status_line: Vec<char> = Vec::new();
        push_str_chars(&mut status_line, "status.status=");
        let cc = string_to_chars(colour);
        let quoted = crate::text::json_quote_chars(&cc);
        push_chars(&mut status_line, &quoted);
        out.push(chars_to_string(&status_line));
        proof {
            assert(colour@ == ping_colour(p));
            assert(status_line@ =~= "status.status="@ + json_quote_spec(ping_colour(p)));
            assert(out.deep_view() =~= ping_finalize_spec(old(self)@));
        }
        out
    }
}

} // verus!
