//! The SNMP interface-table probe: configuration, the synthesised walk
//! invocation, the walk-output parser, and the per-interface colour
//! decision.
use vstd::prelude::*;

use crate::config::{MonitorDirChildConfig, MonitorDirTestConfig, TestCfgView};
use crate::expressions::{as_str_spec, calc_bool_spec, calculate_bool, Ctx, ValView, Value};
use crate::interpolate::{axis_val_str, interpolate_id, render_id_of};
use crate::kmap::{find_key, insert_keys, insert_vals, KeyMap};
use crate::text::{
    chars_to_string, char_is_digit, dec_rep_int, dec_rep_nat, dec_val, digit_prefix_len,
    is_digit_char, json_quote_spec, lemma_dec_val_nonneg, lemma_digit_prefix_from_digits,
    push_chars, push_str_chars, string_to_chars, trim_chars, trim_spec, u64_to_chars,
};

verus! {

/// The SNMP agent to walk, and how to authenticate against it.
pub struct SnmpNetworkMonitorSnmpConfig {
    pub host: String,
    pub port: Option<u16>,
    pub version: u8,
    pub community: String,
    pub username: Option<String>,
    pub auth_protocol: Option<String>,
    pub auth_password: Option<String>,
    pub privacy_protocol: Option<String>,
    pub privacy_password: Option<String>,
    pub bulk: bool,
}

pub fn default_community() -> (r: String)
    ensures
        r@ == "public"@,
{
    String::from_str("public")
}

pub fn default_version() -> (r: u8)
    ensures
        r == 2,
{
    2
}

pub fn default_bulk() -> (r: bool)
    ensures
        r,
{
    true
}

pub fn default_accept() -> (r: String)
    ensures
        r@ == "true"@,
{
    String::from_str("true")
}

pub fn default_exclude() -> (r: String)
    ensures
        r@ == "false"@,
{
    String::from_str("false")
}

pub fn default_red() -> (r: String)
    ensures
        r@ == "false"@,
{
    String::from_str("false")
}

pub fn default_green() -> (r: String)
    ensures
        r@ == "ifOperStatus == 'up' and ifAdminStatus == 'up'"@,
{
    String::from_str("ifOperStatus == 'up' and ifAdminStatus == 'up'")
}

/// The SNMP probe configuration: the target, the timing, and the
/// per-interface predicates.
pub struct SnmpNetworkMonitorConfig {
    pub target: SnmpNetworkMonitorSnmpConfig,
    pub id: String,
    pub interval_ms: u64,
    pub timeout_ms: u64,
    pub accept: String,
    pub exclude: String,
    pub red: String,
    pub green: String,
    pub children: KeyMap<MonitorDirChildConfig>,
    pub test: Option<MonitorDirTestConfig>,
}

/// The walk command line this configuration synthesises, in its fixed
/// order: output format, timeout, version, authentication, agent, and the
/// interface table OID.
pub open spec fn snmp_args_spec(s: &SnmpNetworkMonitorConfig) -> Seq<Seq<char>> {
    let bin: Seq<char> = if s.target.bulk {
        "snmpbulkwalk"@
    } else {
        "snmpwalk"@
    };
    let vflag: Seq<char> = if s.target.version == 1 {
        "1"@
    } else if s.target.version == 3 {
        "3"@
    } else {
        "2c"@
    };
    let auth: Seq<Seq<char>> = if s.target.version == 1 || s.target.version == 2 {
        seq!["-c"@, s.target.community@]
    } else if s.target.version == 3 {
        let has_auth = s.target.auth_protocol is Some && s.target.auth_password is Some;
        let has_priv = s.target.privacy_protocol is Some && s.target.privacy_password is Some;
        let level: Seq<char> = if has_priv {
            "authPriv"@
        } else if has_auth {
            "authNoPriv"@
        } else {
            "noAuthNoPriv"@
        };
        let user: Seq<Seq<char>> = match s.target.username {
            Some(u) => seq!["-u"@, u@],
            None => Seq::empty(),
        };
        let authopt: Seq<Seq<char>> = if has_auth {
            seq![
                "-a"@,
                crate::text::ascii_upper_seq(s.target.auth_protocol->Some_0@),
                "-A"@,
                s.target.auth_password->Some_0@,
            ]
        } else {
            Seq::empty()
        };
        let privopt: Seq<Seq<char>> = if has_priv {
            seq![
                "-x"@,
                crate::text::ascii_upper_seq(s.target.privacy_protocol->Some_0@),
                "-X"@,
                s.target.privacy_password->Some_0@,
            ]
        } else {
            Seq::empty()
        };
        user + seq!["-l"@, level] + authopt + privopt
    } else {
        Seq::empty()
    };
    let agent: Seq<char> = match s.target.port {
        Some(p) => s.target.host@ + ":"@ + dec_rep_nat(p as nat),
        None => s.target.host@,
    };
    seq![bin, "-OsQfne"@, "-t"@, dec_rep_nat((s.timeout_ms / 1000) as nat), "-v"@, vflag] + auth
        + seq![agent, "1.3.6.1.2.1.2.2"@]
}

/// The probe an SNMP configuration runs: a walk through `env` with this
/// configuration's processor installed.
pub open spec fn snmp_test_spec(s: &SnmpNetworkMonitorConfig) -> TestCfgView {
    TestCfgView {
        interval_ms: s.interval_ms,
        timeout_ms: s.timeout_ms,
        command: "/usr/bin/env"@,
        args: snmp_args_spec(s),
        processor: Some(
            crate::monitor::ProcCfgView::Snmp(
                SnmpProcView {
                    id: s.id@,
                    accept: s.accept@,
                    exclude: s.exclude@,
                    red: s.red@,
                    green: s.green@,
                },
            ),
        ),
    }
}

impl SnmpNetworkMonitorConfig {
    /// Synthesise the walk invocation, as `snmp_test_spec` says.
    pub fn test(&self) -> (r: MonitorDirTestConfig)
        ensures
            r@ == snmp_test_spec(self),
    {
        let mut args: Vec<String> = Vec::new();
        if self.target.bulk {
            args.push(String::from_str("snmpbulkwalk"));
        } else {
            args.push(String::from_str("snmpwalk"));
        }
        args.push(String::from_str("-OsQfne"));
        args.push(String::from_str("-t"));
        let secs = u64_to_chars(self.timeout_ms / 1000);
        args.push(chars_to_string(&secs));
        args.push(String::from_str("-v"));
        if self.target.version == 1 {
            args.push(String::from_str("1"));
        } else if self.target.version == 3 {
            args.push(String::from_str("3"));
        } else {
            args.push(String::from_str("2c"));
        }
        if self.target.version == 1 || self.target.version == 2 {
            args.push(String::from_str("-c"));
            args.push(self.target.community.clone());
        } else if self.target.version == 3 {
            match &self.target.username {
                Some(u) => {
                    args.push(String::from_str("-u"));
                    args.push(u.clone());
                },
                None => {},
            }
            let has_auth = self.target.auth_protocol.is_some()
                && self.target.auth_password.is_some();
            let has_priv = self.target.privacy_protocol.is_some()
                && self.target.privacy_password.is_some();
            args.push(String::from_str("-l"));
            if has_priv {
                args.push(String::from_str("authPriv"));
            } else if has_auth {
                args.push(String::from_str("authNoPriv"));
            } else {
                args.push(String::from_str("noAuthNoPriv"));
            }
            if has_auth {
                args.push(String::from_str("-a"));
                match &self.target.auth_protocol {
                    Some(p) => args.push(crate::text::ascii_upper(p.as_str())),
                    None => {},
                }
                args.push(String::from_str("-A"));
                match &self.target.auth_password {
                    Some(p) => args.push(p.clone()),
                    None => {},
                }
            }
            if has_priv {
                args.push(String::from_str("-x"));
                match &self.target.privacy_protocol {
                    Some(p) => args.push(crate::text::ascii_upper(p.as_str())),
                    None => {},
                }
                args.push(String::from_str("-X"));
                match &self.target.privacy_password {
                    Some(p) => args.push(p.clone()),
                    None => {},
                }
            }
        }
        match &self.target.port {
            Some(p) => {
                let mut agent: Vec<char> = Vec::new();
                push_str_chars(&mut agent, self.target.host.as_str());
                push_str_chars(&mut agent, ":");
                let pd = u64_to_chars(*p as u64);
                push_chars(&mut agent, &pd);
                args.push(chars_to_string(&agent));
            },
            None => {
                args.push(self.target.host.clone());
            },
        }
        args.push(String::from_str("1.3.6.1.2.1.2.2"));
        proof {
            assert(args.deep_view() =~= snmp_args_spec(self));
        }
        let r = MonitorDirTestConfig {
            interval_ms: self.interval_ms,
            timeout_ms: self.timeout_ms,
            command: String::from_str("/usr/bin/env"),
            args,
            processor: Some(
                crate::monitor::MonitorMessageProcessor::Snmp(
                    SnmpMonitorMessageProcessor {
                        id: self.id.clone(),
                        accept: self.accept.clone(),
                        exclude: self.exclude.clone(),
                        red: self.red.clone(),
                        green: self.green.clone(),
                    },
                ),
            ),
        };
        proof {
            assert(r@ =~~= snmp_test_spec(self));
        }
        r
    }
}

/// The installed SNMP processor: the id template and the predicates.
pub struct SnmpMonitorMessageProcessor {
    pub id: String,
    pub accept: String,
    pub exclude: String,
    pub red: String,
    pub green: String,
}

/// The mathematical shape of the SNMP processor settings.
pub struct SnmpProcView {
    pub id: Seq<char>,
    pub accept: Seq<char>,
    pub exclude: Seq<char>,
    pub red: Seq<char>,
    pub green: Seq<char>,
}

impl View for SnmpMonitorMessageProcessor {
    type V = SnmpProcView;

    open spec fn view(&self) -> SnmpProcView {
        SnmpProcView {
            id: self.id@,
            accept: self.accept@,
            exclude: self.exclude@,
            red: self.red@,
            green: self.green@,
        }
    }
}

impl Clone for SnmpMonitorMessageProcessor {
    fn clone(&self) -> (r: Self)
        ensures
            r@ == self@,
    {
        SnmpMonitorMessageProcessor {
            id: self.id.clone(),
            accept: self.accept.clone(),
            exclude: self.exclude.clone(),
            red: self.red.clone(),
            green: self.green.clone(),
        }
    }
}

/// The keys and values of one interface's collected columns.
#[verifier::ext_equal]
pub struct CtxModel {
    pub keys: Seq<Seq<char>>,
    pub vals: Seq<ValView>,
}

/// One run's SNMP state: the settings, and per-interface column maps keyed
/// by interface index, kept sorted by index.
pub struct SnmpMonitorMessageProcessorInstance {
    pub id: String,
    pub accept: String,
    pub exclude: String,
    pub red: String,
    pub green: String,
    pub port_ids: Vec<u32>,
    pub port_maps: Vec<Ctx>,
}

/// The mathematical shape of one run's SNMP state.
#[verifier::ext_equal]
pub struct SnmpInstView {
    pub settings: SnmpProcView,
    pub ids: Seq<u32>,
    pub maps: Seq<CtxModel>,
}

impl View for SnmpMonitorMessageProcessorInstance {
    type V = SnmpInstView;

    open spec fn view(&self) -> SnmpInstView {
        SnmpInstView {
            settings: SnmpProcView {
                id: self.id@,
                accept: self.accept@,
                exclude: self.exclude@,
                red: self.red@,
                green: self.green@,
            },
            ids: self.port_ids@,
            maps: self.port_maps@.map_values(|m: Ctx| CtxModel { keys: m.keys(), vals: m.vals() }),
        }
    }
}

/// A well-formed run state: as many maps as indexes, indexes strictly
/// increasing, and every map's keys distinct.
pub open spec fn snmp_inst_wf(s: SnmpInstView) -> bool {
    &&& s.ids.len() == s.maps.len()
    &&& forall|i: int, j: int| 0 <= i < j < s.ids.len() ==> s.ids[i] < s.ids[j]
    &&& forall|i: int|
        0 <= i < s.maps.len() ==> {
            &&& (#[trigger] s.maps[i]).keys.len() == s.maps[i].vals.len()
            &&& forall|a: int, b: int|
                0 <= a < b < s.maps[i].keys.len() ==> s.maps[i].keys[a] != s.maps[i].keys[b]
        }
}

/// The fresh per-run state of the SNMP processor: no interfaces yet.
pub open spec fn snmp_instance_spec(c: SnmpProcView) -> SnmpInstView {
    SnmpInstView { settings: c, ids: Seq::empty(), maps: Seq::empty() }
}

impl SnmpMonitorMessageProcessor {
    /// Start one run's state: the settings, and no interfaces.
    pub fn instance(&self) -> (r: SnmpMonitorMessageProcessorInstance)
        ensures
            r@ == snmp_instance_spec(self@),
            snmp_inst_wf(r@),
    {
        let r = SnmpMonitorMessageProcessorInstance {
            id: self.id.clone(),
            accept: self.accept.clone(),
            exclude: self.exclude.clone(),
            red: self.red.clone(),
            green: self.green.clone(),
            port_ids: Vec::new(),
            port_maps: Vec::new(),
        };
        proof {
            assert(r@.maps =~= snmp_instance_spec(self@).maps);
            assert(r@.ids =~= snmp_instance_spec(self@).ids);
        }
        r
    }
}

/// Index of the last `=` in a line, or `-1`.
pub open spec fn last_eq_idx(s: Seq<char>) -> int
    decreases s.len(),
{
    if s.len() == 0 {
        -1
    } else if s.last() == '=' {
        s.len() - 1
    } else {
        last_eq_idx(s.drop_last())
    }
}

proof fn lemma_last_eq_idx(s: Seq<char>)
    ensures
        last_eq_idx(s) >= 0 ==> last_eq_idx(s) < s.len() && s[last_eq_idx(s)] == '=' && forall|
            j: int,
        | last_eq_idx(s) < j < s.len() ==> s[j] != '=',
        last_eq_idx(s) < 0 ==> forall|j: int| 0 <= j < s.len() ==> s[j] != '=',
    decreases s.len(),
{
    if s.len() > 0 && s.last() != '=' {
        lemma_last_eq_idx(s.drop_last());
        assert forall|j: int| 0 <= j < s.drop_last().len() implies s.drop_last()[j] == s[j] by {}
    }
}

/// The numeric arcs of a dotted run of decimal segments: every segment must
/// be a nonempty digit run that fits.
pub open spec fn parse_arcs(s: Seq<char>) -> Option<Seq<u32>>
    decreases s.len(),
{
    let d = digit_prefix_len(s);
    if d == 0 {
        None
    } else if dec_val(s.take(d)) > u32::MAX {
        None
    } else if d == s.len() {
        Some(seq![dec_val(s.take(d)) as u32])
    } else if s[d] == '.' {
        let dd: int = if 0 <= d < s.len() {
            d + 1
        } else {
            s.len() as int
        };
        match parse_arcs(s.skip(dd)) {
            None => None,
            Some(rest) => Some(seq![dec_val(s.take(d)) as u32] + rest),
        }
    } else {
        None
    }
}

/// The interface-table column names, by column number.
pub open spec fn col_name(col: u32) -> Option<Seq<char>> {
    if col == 1 {
        Some("ifIndex"@)
    } else if col == 2 {
        Some("ifDescr"@)
    } else if col == 3 {
        Some("ifType"@)
    } else if col == 4 {
        Some("ifMtu"@)
    } else if col == 5 {
        Some("ifSpeed"@)
    } else if col == 6 {
        Some("ifPhysAddress"@)
    } else if col == 7 {
        Some("ifAdminStatus"@)
    } else if col == 8 {
        Some("ifOperStatus"@)
    } else if col == 9 {
        Some("ifLastChange"@)
    } else if col == 10 {
        Some("ifInOctets"@)
    } else if col == 11 {
        Some("ifInUcastPkts"@)
    } else if col == 12 {
        Some("ifInNUcastPkts"@)
    } else if col == 13 {
        Some("ifInDiscards"@)
    } else if col == 14 {
        Some("ifInErrors"@)
    } else if col == 15 {
        Some("ifInUnknownProtos"@)
    } else if col == 16 {
        Some("ifOutOctets"@)
    } else if col == 17 {
        Some("ifOutUcastPkts"@)
    } else if col == 18 {
        Some("ifOutNUcastPkts"@)
    } else if col == 19 {
        Some("ifOutDiscards"@)
    } else if col == 20 {
        Some("ifOutErrors"@)
    } else if col == 21 {
        Some("ifOutQLen"@)
    } else if col == 22 {
        Some("ifSpecific"@)
    } else {
        None
    }
}

fn col_name_exec(col: u32) -> (r: Option<String>)
    ensures
        match r {
            Some(s) => col_name(col) == Some(s@),
            None => col_name(col) is None,
        },
{
    if col == 1 {
        Some(String::from_str("ifIndex"))
    } else if col == 2 {
        Some(String::from_str("ifDescr"))
    } else if col == 3 {
        Some(String::from_str("ifType"))
    } else if col == 4 {
        Some(String::from_str("ifMtu"))
    } else if col == 5 {
        Some(String::from_str("ifSpeed"))
    } else if col == 6 {
        Some(String::from_str("ifPhysAddress"))
    } else if col == 7 {
        Some(String::from_str("ifAdminStatus"))
    } else if col == 8 {
        Some(String::from_str("ifOperStatus"))
    } else if col == 9 {
        Some(String::from_str("ifLastChange"))
    } else if col == 10 {
        Some(String::from_str("ifInOctets"))
    } else if col == 11 {
        Some(String::from_str("ifInUcastPkts"))
    } else if col == 12 {
        Some(String::from_str("ifInNUcastPkts"))
    } else if col == 13 {
        Some(String::from_str("ifInDiscards"))
    } else if col == 14 {
        Some(String::from_str("ifInErrors"))
    } else if col == 15 {
        Some(String::from_str("ifInUnknownProtos"))
    } else if col == 16 {
        Some(String::from_str("ifOutOctets"))
    } else if col == 17 {
        Some(String::from_str("ifOutUcastPkts"))
    } else if col == 18 {
        Some(String::from_str("ifOutNUcastPkts"))
    } else if col == 19 {
        Some(String::from_str("ifOutDiscards"))
    } else if col == 20 {
        Some(String::from_str("ifOutErrors"))
    } else if col == 21 {
        Some(String::from_str("ifOutQLen"))
    } else if col == 22 {
        Some(String::from_str("ifSpecific"))
    } else {
        None
    }
}

/// The interface-type names of the interface table, by type number.
pub open spec fn if_type_name(v: u32) -> Option<Seq<char>> {
    if v <= 74 {
        if_type_name_a(v)
    } else if v <= 149 {
        if_type_name_b(v)
    } else if v <= 224 {
        if_type_name_c(v)
    } else {
        if_type_name_d(v)
    }
}

/// The first quarter of the interface-type names.
pub open spec fn if_type_name_a(v: u32) -> Option<Seq<char>> {
    if v == 1 {
        Some("other"@)
    } else if v == 2 {
        Some("regular1822"@)
    } else if v == 3 {
        Some("hdh1822"@)
    } else if v == 4 {
        Some("ddnX25"@)
    } else if v == 5 {
        Some("rfc877x25"@)
    } else if v == 6 {
        Some("ethernetCsmacd"@)
    } else if v == 7 {
        Some("iso88023Csmacd"@)
    } else if v == 8 {
        Some("iso88024TokenBus"@)
    } else if v == 9 {
        Some("iso88025TokenRing"@)
    } else if v == 10 {
        Some("iso88026Man"@)
    } else if v == 11 {
        Some("starLan"@)
    } else if v == 12 {
        Some("proteon10Mbit"@)
    } else if v == 13 {
        Some("proteon80Mbit"@)
    } else if v == 14 {
        Some("hyperchannel"@)
    } else if v == 15 {
        Some("fddi"@)
    } else if v == 16 {
        Some("lapb"@)
    } else if v == 17 {
        Some("sdlc"@)
    } else if v == 18 {
        Some("ds1"@)
    } else if v == 19 {
        Some("e1"@)
    } else if v == 20 {
        Some("basicISDN"@)
    } else if v == 21 {
        Some("primaryISDN"@)
    } else if v == 22 {
        Some("propPointToPointSerial"@)
    } else if v == 23 {
        Some("ppp"@)
    } else if v == 24 {
        Some("softwareLoopback"@)
    } else if v == 25 {
        Some("eon"@)
    } else if v == 26 {
        Some("ethernet3Mbit"@)
    } else if v == 27 {
        Some("nsip"@)
    } else if v == 28 {
        Some("slip"@)
    } else if v == 29 {
        Some("ultra"@)
    } else if v == 30 {
        Some("ds3"@)
    } else if v == 31 {
        Some("sip"@)
    } else if v == 32 {
        Some("frameRelay"@)
    } else if v == 33 {
        Some("rs232"@)
    } else if v == 34 {
        Some("para"@)
    } else if v == 35 {
        Some("arcnet"@)
    } else if v == 36 {
        Some("arcnetPlus"@)
    } else if v == 37 {
        Some("atm"@)
    } else if v == 38 {
        Some("miox25"@)
    } else if v == 39 {
        Some("sonet"@)
    } else if v == 40 {
        Some("x25ple"@)
    } else if v == 41 {
        Some("iso88022llc"@)
    } else if v == 42 {
        Some("localTalk"@)
    } else if v == 43 {
        Some("smdsDxi"@)
    } else if v == 44 {
        Some("frameRelayService"@)
    } else if v == 45 {
        Some("v35"@)
    } else if v == 46 {
        Some("hssi"@)
    } else if v == 47 {
        Some("hippi"@)
    } else if v == 48 {
        Some("modem"@)
    } else if v == 49 {
        Some("aal5"@)
    } else if v == 50 {
        Some("sonetPath"@)
    } else if v == 51 {
        Some("sonetVT"@)
    } else if v == 52 {
        Some("smdsIcip"@)
    } else if v == 53 {
        Some("propVirtual"@)
    } else if v == 54 {
        Some("propMultiplexor"@)
    } else if v == 55 {
        Some("ieee80212"@)
    } else if v == 56 {
        Some("fibreChannel"@)
    } else if v == 57 {
        Some("hippiInterface"@)
    } else if v == 58 {
        Some("frameRelayInterconnect"@)
    } else if v == 59 {
        Some("aflane8023"@)
    } else if v == 60 {
        Some("aflane8025"@)
    } else if v == 61 {
        Some("cctEmul"@)
    } else if v == 62 {
        Some("fastEther"@)
    } else if v == 63 {
        Some("isdn"@)
    } else if v == 64 {
        Some("v11"@)
    } else if v == 65 {
        Some("v36"@)
    } else if v == 66 {
        Some("g703at64k"@)
    } else if v == 67 {
        Some("g703at2mb"@)
    } else if v == 68 {
        Some("qllc"@)
    } else if v == 69 {
        Some("fastEtherFX"@)
    } else if v == 70 {
        Some("channel"@)
    } else if v == 71 {
        Some("ieee80211"@)
    } else if v == 72 {
        Some("ibm370parChan"@)
    } else if v == 73 {
        Some("escon"@)
    } else if v == 74 {
        Some("dlsw"@)
    } else {
        None
    }
}

/// The second quarter of the interface-type names.
pub open spec fn if_type_name_b(v: u32) -> Option<Seq<char>> {
    if v == 75 {
        Some("isdns"@)
    } else if v == 76 {
        Some("isdnu"@)
    } else if v == 77 {
        Some("lapd"@)
    } else if v == 78 {
        Some("ipSwitch"@)
    } else if v == 79 {
        Some("rsrb"@)
    } else if v == 80 {
        Some("atmLogical"@)
    } else if v == 81 {
        Some("ds0"@)
    } else if v == 82 {
        Some("ds0Bundle"@)
    } else if v == 83 {
        Some("bsc"@)
    } else if v == 84 {
        Some("async"@)
    } else if v == 85 {
        Some("cnr"@)
    } else if v == 86 {
        Some("iso88025Dtr"@)
    } else if v == 87 {
        Some("eplrs"@)
    } else if v == 88 {
        Some("arap"@)
    } else if v == 89 {
        Some("propCnls"@)
    } else if v == 90 {
        Some("hostPad"@)
    } else if v == 91 {
        Some("termPad"@)
    } else if v == 92 {
        Some("frameRelayMPI"@)
    } else if v == 93 {
        Some("x213"@)
    } else if v == 94 {
        Some("adsl"@)
    } else if v == 95 {
        Some("radsl"@)
    } else if v == 96 {
        Some("sdsl"@)
    } else if v == 97 {
        Some("vdsl"@)
    } else if v == 98 {
        Some("iso88025CRFPInt"@)
    } else if v == 99 {
        Some("myrinet"@)
    } else if v == 100 {
        Some("voiceEM"@)
    } else if v == 101 {
        Some("voiceFXO"@)
    } else if v == 102 {
        Some("voiceFXS"@)
    } else if v == 103 {
        Some("voiceEncap"@)
    } else if v == 104 {
        Some("voiceOverIp"@)
    } else if v == 105 {
        Some("atmDxi"@)
    } else if v == 106 {
        Some("atmFuni"@)
    } else if v == 107 {
        Some("atmIma"@)
    } else if v == 108 {
        Some("pppMultilinkBundle"@)
    } else if v == 109 {
        Some("ipOverCdlc"@)
    } else if v == 110 {
        Some("ipOverClaw"@)
    } else if v == 111 {
        Some("stackToStack"@)
    } else if v == 112 {
        Some("virtualIpAddress"@)
    } else if v == 113 {
        Some("mpc"@)
    } else if v == 114 {
        Some("ipOverAtm"@)
    } else if v == 115 {
        Some("iso88025Fiber"@)
    } else if v == 116 {
        Some("tdlc"@)
    } else if v == 117 {
        Some("gigabitEthernet"@)
    } else if v == 118 {
        Some("hdlc"@)
    } else if v == 119 {
        Some("lapf"@)
    } else if v == 120 {
        Some("v37"@)
    } else if v == 121 {
        Some("x25mlp"@)
    } else if v == 122 {
        Some("x25huntGroup"@)
    } else if v == 123 {
        Some("transpHdlc"@)
    } else if v == 124 {
        Some("interleave"@)
    } else if v == 125 {
        Some("fast"@)
    } else if v == 126 {
        Some("ip"@)
    } else if v == 127 {
        Some("docsCableMaclayer"@)
    } else if v == 128 {
        Some("docsCableDownstream"@)
    } else if v == 129 {
        Some("docsCableUpstream"@)
    } else if v == 130 {
        Some("a12MppSwitch"@)
    } else if v == 131 {
        Some("tunnel"@)
    } else if v == 132 {
        Some("coffee"@)
    } else if v == 133 {
        Some("ces"@)
    } else if v == 134 {
        Some("atmSubInterface"@)
    } else if v == 135 {
        Some("l2vlan"@)
    } else if v == 136 {
        Some("l3ipvlan"@)
    } else if v == 137 {
        Some("l3ipxvlan"@)
    } else if v == 138 {
        Some("digitalPowerline"@)
    } else if v == 139 {
        Some("mediaMailOverIp"@)
    } else if v == 140 {
        Some("dtm"@)
    } else if v == 141 {
        Some("dcn"@)
    } else if v == 142 {
        Some("ipForward"@)
    } else if v == 143 {
        Some("msdsl"@)
    } else if v == 144 {
        Some("ieee1394"@)
    } else if v == 145 {
        Some("if-gsn"@)
    } else if v == 146 {
        Some("dvbRccMacLayer"@)
    } else if v == 147 {
        Some("dvbRccDownstream"@)
    } else if v == 148 {
        Some("dvbRccUpstream"@)
    } else if v == 149 {
        Some("atmVirtual"@)
    } else {
        None
    }
}

/// The third quarter of the interface-type names.
pub open spec fn if_type_name_c(v: u32) -> Option<Seq<char>> {
    if v == 150 {
        Some("mplsTunnel"@)
    } else if v == 151 {
        Some("srp"@)
    } else if v == 152 {
        Some("voiceOverAtm"@)
    } else if v == 153 {
        Some("voiceOverFrameRelay"@)
    } else if v == 154 {
        Some("idsl"@)
    } else if v == 155 {
        Some("compositeLink"@)
    } else if v == 156 {
        Some("ss7SigLink"@)
    } else if v == 157 {
        Some("propWirelessP2P"@)
    } else if v == 158 {
        Some("frForward"@)
    } else if v == 159 {
        Some("rfc1483"@)
    } else if v == 160 {
        Some("usb"@)
    } else if v == 161 {
        Some("ieee8023adLag"@)
    } else if v == 162 {
        Some("bgppolicyaccounting"@)
    } else if v == 163 {
        Some("frf16MfrBundle"@)
    } else if v == 164 {
        Some("h323Gatekeeper"@)
    } else if v == 165 {
        Some("h323Proxy"@)
    } else if v == 166 {
        Some("mpls"@)
    } else if v == 167 {
        Some("mfSigLink"@)
    } else if v == 168 {
        Some("hdsl2"@)
    } else if v == 169 {
        Some("shdsl"@)
    } else if v == 170 {
        Some("ds1FDL"@)
    } else if v == 171 {
        Some("pos"@)
    } else if v == 172 {
        Some("dvbAsiIn"@)
    } else if v == 173 {
        Some("dvbAsiOut"@)
    } else if v == 174 {
        Some("plc"@)
    } else if v == 175 {
        Some("nfas"@)
    } else if v == 176 {
        Some("tr008"@)
    } else if v == 177 {
        Some("gr303RDT"@)
    } else if v == 178 {
        Some("gr303IDT"@)
    } else if v == 179 {
        Some("isup"@)
    } else if v == 180 {
        Some("propDocsWirelessMaclayer"@)
    } else if v == 181 {
        Some("propDocsWirelessDownstream"@)
    } else if v == 182 {
        Some("propDocsWirelessUpstream"@)
    } else if v == 183 {
        Some("hiperlan2"@)
    } else if v == 184 {
        Some("propBWAp2Mp"@)
    } else if v == 185 {
        Some("sonetOverheadChannel"@)
    } else if v == 186 {
        Some("digitalWrapperOverheadChannel"@)
    } else if v == 187 {
        Some("aal2"@)
    } else if v == 188 {
        Some("radioMAC"@)
    } else if v == 189 {
        Some("atmRadio"@)
    } else if v == 190 {
        Some("imt"@)
    } else if v == 191 {
        Some("mvl"@)
    } else if v == 192 {
        Some("reachDSL"@)
    } else if v == 193 {
        Some("frDlciEndPt"@)
    } else if v == 194 {
        Some("atmVciEndPt"@)
    } else if v == 195 {
        Some("opticalChannel"@)
    } else if v == 196 {
        Some("opticalTransport"@)
    } else if v == 197 {
        Some("propAtm"@)
    } else if v == 198 {
        Some("voiceOverCable"@)
    } else if v == 199 {
        Some("infiniband"@)
    } else if v == 200 {
        Some("teLink"@)
    } else if v == 201 {
        Some("q2931"@)
    } else if v == 202 {
        Some("virtualTg"@)
    } else if v == 203 {
        Some("sipTg"@)
    } else if v == 204 {
        Some("sipSig"@)
    } else if v == 205 {
        Some("docsCableUpstreamChannel"@)
    } else if v == 206 {
        Some("econet"@)
    } else if v == 207 {
        Some("pon155"@)
    } else if v == 208 {
        Some("pon622"@)
    } else if v == 209 {
        Some("bridge"@)
    } else if v == 210 {
        Some("linegroup"@)
    } else if v == 211 {
        Some("voiceEMFGD"@)
    } else if v == 212 {
        Some("voiceFGDEANA"@)
    } else if v == 213 {
        Some("voiceDID"@)
    } else if v == 214 {
        Some("mpegTransport"@)
    } else if v == 215 {
        Some("sixToFour"@)
    } else if v == 216 {
        Some("gtp"@)
    } else if v == 217 {
        Some("pdnEtherLoop1"@)
    } else if v == 218 {
        Some("pdnEtherLoop2"@)
    } else if v == 219 {
        Some("opticalChannelGroup"@)
    } else if v == 220 {
        Some("homepna"@)
    } else if v == 221 {
        Some("gfp"@)
    } else if v == 222 {
        Some("ciscoISLvlan"@)
    } else if v == 223 {
        Some("actelisMetaLOOP"@)
    } else if v == 224 {
        Some("fcipLink"@)
    } else {
        None
    }
}

/// The last quarter of the interface-type names.
pub open spec fn if_type_name_d(v: u32) -> Option<Seq<char>> {
    if v == 225 {
        Some("rpr"@)
    } else if v == 226 {
        Some("qam"@)
    } else if v == 227 {
        Some("lmp"@)
    } else if v == 228 {
        Some("cblVectaStar"@)
    } else if v == 229 {
        Some("docsCableMCmtsDownstream"@)
    } else if v == 230 {
        Some("adsl2"@)
    } else if v == 231 {
        Some("macSecControlledIF"@)
    } else if v == 232 {
        Some("macSecUncontrolledIF"@)
    } else if v == 233 {
        Some("aviciOpticalEther"@)
    } else if v == 234 {
        Some("atmbond"@)
    } else if v == 235 {
        Some("voiceFGDOS"@)
    } else if v == 236 {
        Some("mocaVersion1"@)
    } else if v == 237 {
        Some("ieee80216WMAN"@)
    } else if v == 238 {
        Some("adsl2plus"@)
    } else if v == 239 {
        Some("dvbRcsMacLayer"@)
    } else if v == 240 {
        Some("dvbTdm"@)
    } else if v == 241 {
        Some("dvbRcsTdma"@)
    } else if v == 242 {
        Some("x86Laps"@)
    } else if v == 243 {
        Some("wwanPP"@)
    } else if v == 244 {
        Some("wwanPP2"@)
    } else if v == 245 {
        Some("voiceEBS"@)
    } else if v == 246 {
        Some("ifPwType"@)
    } else if v == 247 {
        Some("ilan"@)
    } else if v == 248 {
        Some("pip"@)
    } else if v == 249 {
        Some("aluELP"@)
    } else if v == 250 {
        Some("gpon"@)
    } else if v == 251 {
        Some("vdsl2"@)
    } else if v == 252 {
        Some("capwapDot11Profile"@)
    } else if v == 253 {
        Some("capwapDot11Bss"@)
    } else if v == 254 {
        Some("capwapWtpVirtualRadio"@)
    } else if v == 255 {
        Some("bits"@)
    } else if v == 256 {
        Some("docsCableUpstreamRfPort"@)
    } else if v == 257 {
        Some("cableDownstreamRfPort"@)
    } else if v == 258 {
        Some("vmwareVirtualNic"@)
    } else if v == 259 {
        Some("ieee802154"@)
    } else if v == 260 {
        Some("otnOdu"@)
    } else if v == 261 {
        Some("otnOtu"@)
    } else if v == 262 {
        Some("ifVfiType"@)
    } else if v == 263 {
        Some("g9981"@)
    } else if v == 264 {
        Some("g9982"@)
    } else if v == 265 {
        Some("g9983"@)
    } else if v == 266 {
        Some("aluEpon"@)
    } else if v == 267 {
        Some("aluEponOnu"@)
    } else if v == 268 {
        Some("aluEponPhysicalUni"@)
    } else if v == 269 {
        Some("aluEponLogicalLink"@)
    } else if v == 270 {
        Some("aluGponOnu"@)
    } else if v == 271 {
        Some("aluGponPhysicalUni"@)
    } else if v == 272 {
        Some("vmwareNicTeam"@)
    } else if v == 277 {
        Some("docsOfdmDownstream"@)
    } else if v == 278 {
        Some("docsOfdmaUpstream"@)
    } else if v == 279 {
        Some("gfast"@)
    } else if v == 280 {
        Some("sdci"@)
    } else if v == 281 {
        Some("xboxWireless"@)
    } else if v == 282 {
        Some("fastdsl"@)
    } else if v == 283 {
        Some("docsCableScte55d1FwdOob"@)
    } else if v == 284 {
        Some("docsCableScte55d1RetOob"@)
    } else if v == 285 {
        Some("docsCableScte55d2DsOob"@)
    } else if v == 286 {
        Some("docsCableScte55d2UsOob"@)
    } else if v == 287 {
        Some("docsCableNdf"@)
    } else if v == 288 {
        Some("docsCableNdr"@)
    } else if v == 289 {
        Some("ptm"@)
    } else if v == 290 {
        Some("ghn"@)
    } else if v == 291 {
        Some("otnOtsi"@)
    } else if v == 292 {
        Some("otnOtuc"@)
    } else if v == 293 {
        Some("otnOduc"@)
    } else if v == 294 {
        Some("otnOtsig"@)
    } else if v == 295 {
        Some("microwaveCarrierTermination"@)
    } else if v == 296 {
        Some("microwaveRadioLinkTerminal"@)
    } else if v == 297 {
        Some("ieee8021axDrni"@)
    } else if v == 298 {
        Some("ax25"@)
    } else if v == 299 {
        Some("ieee19061nanocom"@)
    } else if v == 300 {
        Some("cpri"@)
    } else if v == 301 {
        Some("omni"@)
    } else if v == 302 {
        Some("roe"@)
    } else if v == 303 {
        Some("p2pOverLan"@)
    } else {
        None
    }
}

/// Look up an interface-type name, as `if_type_name` says.
fn if_type_name_exec(v: u32) -> (r: Option<String>)
    ensures
        match r {
            Some(s) => if_type_name(v) == Some(s@),
            None => if_type_name(v) is None,
        },
{
    if v <= 74 {
        if_type_name_a_exec(v)
    } else if v <= 149 {
        if_type_name_b_exec(v)
    } else if v <= 224 {
        if_type_name_c_exec(v)
    } else {
        if_type_name_d_exec(v)
    }
}

fn if_type_name_a_exec(v: u32) -> (r: Option<String>)
    ensures
        match r {
            Some(s) => if_type_name_a(v) == Some(s@),
            None => if_type_name_a(v) is None,
        },
{
    if v == 1 {
        Some(String::from_str("other"))
    } else if v == 2 {
        Some(String::from_str("regular1822"))
    } else if v == 3 {
        Some(String::from_str("hdh1822"))
    } else if v == 4 {
        Some(String::from_str("ddnX25"))
    } else if v == 5 {
        Some(String::from_str("rfc877x25"))
    } else if v == 6 {
        Some(String::from_str("ethernetCsmacd"))
    } else if v == 7 {
        Some(String::from_str("iso88023Csmacd"))
    } else if v == 8 {
        Some(String::from_str("iso88024TokenBus"))
    } else if v == 9 {
        Some(String::from_str("iso88025TokenRing"))
    } else if v == 10 {
        Some(String::from_str("iso88026Man"))
    } else if v == 11 {
        Some(String::from_str("starLan"))
    } else if v == 12 {
        Some(String::from_str("proteon10Mbit"))
    } else if v == 13 {
        Some(String::from_str("proteon80Mbit"))
    } else if v == 14 {
        Some(String::from_str("hyperchannel"))
    } else if v == 15 {
        Some(String::from_str("fddi"))
    } else if v == 16 {
        Some(String::from_str("lapb"))
    } else if v == 17 {
        Some(String::from_str("sdlc"))
    } else if v == 18 {
        Some(String::from_str("ds1"))
    } else if v == 19 {
        Some(String::from_str("e1"))
    } else if v == 20 {
        Some(String::from_str("basicISDN"))
    } else if v == 21 {
        Some(String::from_str("primaryISDN"))
    } else if v == 22 {
        Some(String::from_str("propPointToPointSerial"))
    } else if v == 23 {
        Some(String::from_str("ppp"))
    } else if v == 24 {
        Some(String::from_str("softwareLoopback"))
    } else if v == 25 {
        Some(String::from_str("eon"))
    } else if v == 26 {
        Some(String::from_str("ethernet3Mbit"))
    } else if v == 27 {
        Some(String::from_str("nsip"))
    } else if v == 28 {
        Some(String::from_str("slip"))
    } else if v == 29 {
        Some(String::from_str("ultra"))
    } else if v == 30 {
        Some(String::from_str("ds3"))
    } else if v == 31 {
        Some(String::from_str("sip"))
    } else if v == 32 {
        Some(String::from_str("frameRelay"))
    } else if v == 33 {
        Some(String::from_str("rs232"))
    } else if v == 34 {
        Some(String::from_str("para"))
    } else if v == 35 {
        Some(String::from_str("arcnet"))
    } else if v == 36 {
        Some(String::from_str("arcnetPlus"))
    } else if v == 37 {
        Some(String::from_str("atm"))
    } else if v == 38 {
        Some(String::from_str("miox25"))
    } else if v == 39 {
        Some(String::from_str("sonet"))
    } else if v == 40 {
        Some(String::from_str("x25ple"))
    } else if v == 41 {
        Some(String::from_str("iso88022llc"))
    } else if v == 42 {
        Some(String::from_str("localTalk"))
    } else if v == 43 {
        Some(String::from_str("smdsDxi"))
    } else if v == 44 {
        Some(String::from_str("frameRelayService"))
    } else if v == 45 {
        Some(String::from_str("v35"))
    } else if v == 46 {
        Some(String::from_str("hssi"))
    } else if v == 47 {
        Some(String::from_str("hippi"))
    } else if v == 48 {
        Some(String::from_str("modem"))
    } else if v == 49 {
        Some(String::from_str("aal5"))
    } else if v == 50 {
        Some(String::from_str("sonetPath"))
    } else if v == 51 {
        Some(String::from_str("sonetVT"))
    } else if v == 52 {
        Some(String::from_str("smdsIcip"))
    } else if v == 53 {
        Some(String::from_str("propVirtual"))
    } else if v == 54 {
        Some(String::from_str("propMultiplexor"))
    } else if v == 55 {
        Some(String::from_str("ieee80212"))
    } else if v == 56 {
        Some(String::from_str("fibreChannel"))
    } else if v == 57 {
        Some(String::from_str("hippiInterface"))
    } else if v == 58 {
        Some(String::from_str("frameRelayInterconnect"))
    } else if v == 59 {
        Some(String::from_str("aflane8023"))
    } else if v == 60 {
        Some(String::from_str("aflane8025"))
    } else if v == 61 {
        Some(String::from_str("cctEmul"))
    } else if v == 62 {
        Some(String::from_str("fastEther"))
    } else if v == 63 {
        Some(String::from_str("isdn"))
    } else if v == 64 {
        Some(String::from_str("v11"))
    } else if v == 65 {
        Some(String::from_str("v36"))
    } else if v == 66 {
        Some(String::from_str("g703at64k"))
    } else if v == 67 {
        Some(String::from_str("g703at2mb"))
    } else if v == 68 {
        Some(String::from_str("qllc"))
    } else if v == 69 {
        Some(String::from_str("fastEtherFX"))
    } else if v == 70 {
        Some(String::from_str("channel"))
    } else if v == 71 {
        Some(String::from_str("ieee80211"))
    } else if v == 72 {
        Some(String::from_str("ibm370parChan"))
    } else if v == 73 {
        Some(String::from_str("escon"))
    } else if v == 74 {
        Some(String::from_str("dlsw"))
    } else {
        None
    }
}

fn if_type_name_b_exec(v: u32) -> (r: Option<String>)
    ensures
        match r {
            Some(s) => if_type_name_b(v) == Some(s@),
            None => if_type_name_b(v) is None,
        },
{
    if v == 75 {
        Some(String::from_str("isdns"))
    } else if v == 76 {
        Some(String::from_str("isdnu"))
    } else if v == 77 {
        Some(String::from_str("lapd"))
    } else if v == 78 {
        Some(String::from_str("ipSwitch"))
    } else if v == 79 {
        Some(String::from_str("rsrb"))
    } else if v == 80 {
        Some(String::from_str("atmLogical"))
    } else if v == 81 {
        Some(String::from_str("ds0"))
    } else if v == 82 {
        Some(String::from_str("ds0Bundle"))
    } else if v == 83 {
        Some(String::from_str("bsc"))
    } else if v == 84 {
        Some(String::from_str("async"))
    } else if v == 85 {
        Some(String::from_str("cnr"))
    } else if v == 86 {
        Some(String::from_str("iso88025Dtr"))
    } else if v == 87 {
        Some(String::from_str("eplrs"))
    } else if v == 88 {
        Some(String::from_str("arap"))
    } else if v == 89 {
        Some(String::from_str("propCnls"))
    } else if v == 90 {
        Some(String::from_str("hostPad"))
    } else if v == 91 {
        Some(String::from_str("termPad"))
    } else if v == 92 {
        Some(String::from_str("frameRelayMPI"))
    } else if v == 93 {
        Some(String::from_str("x213"))
    } else if v == 94 {
        Some(String::from_str("adsl"))
    } else if v == 95 {
        Some(String::from_str("radsl"))
    } else if v == 96 {
        Some(String::from_str("sdsl"))
    } else if v == 97 {
        Some(String::from_str("vdsl"))
    } else if v == 98 {
        Some(String::from_str("iso88025CRFPInt"))
    } else if v == 99 {
        Some(String::from_str("myrinet"))
    } else if v == 100 {
        Some(String::from_str("voiceEM"))
    } else if v == 101 {
        Some(String::from_str("voiceFXO"))
    } else if v == 102 {
        Some(String::from_str("voiceFXS"))
    } else if v == 103 {
        Some(String::from_str("voiceEncap"))
    } else if v == 104 {
        Some(String::from_str("voiceOverIp"))
    } else if v == 105 {
        Some(String::from_str("atmDxi"))
    } else if v == 106 {
        Some(String::from_str("atmFuni"))
    } else if v == 107 {
        Some(String::from_str("atmIma"))
    } else if v == 108 {
        Some(String::from_str("pppMultilinkBundle"))
    } else if v == 109 {
        Some(String::from_str("ipOverCdlc"))
    } else if v == 110 {
        Some(String::from_str("ipOverClaw"))
    } else if v == 111 {
        Some(String::from_str("stackToStack"))
    } else if v == 112 {
        Some(String::from_str("virtualIpAddress"))
    } else if v == 113 {
        Some(String::from_str("mpc"))
    } else if v == 114 {
        Some(String::from_str("ipOverAtm"))
    } else if v == 115 {
        Some(String::from_str("iso88025Fiber"))
    } else if v == 116 {
        Some(String::from_str("tdlc"))
    } else if v == 117 {
        Some(String::from_str("gigabitEthernet"))
    } else if v == 118 {
        Some(String::from_str("hdlc"))
    } else if v == 119 {
        Some(String::from_str("lapf"))
    } else if v == 120 {
        Some(String::from_str("v37"))
    } else if v == 121 {
        Some(String::from_str("x25mlp"))
    } else if v == 122 {
        Some(String::from_str("x25huntGroup"))
    } else if v == 123 {
        Some(String::from_str("transpHdlc"))
    } else if v == 124 {
        Some(String::from_str("interleave"))
    } else if v == 125 {
        Some(String::from_str("fast"))
    } else if v == 126 {
        Some(String::from_str("ip"))
    } else if v == 127 {
        Some(String::from_str("docsCableMaclayer"))
    } else if v == 128 {
        Some(String::from_str("docsCableDownstream"))
    } else if v == 129 {
        Some(String::from_str("docsCableUpstream"))
    } else if v == 130 {
        Some(String::from_str("a12MppSwitch"))
    } else if v == 131 {
        Some(String::from_str("tunnel"))
    } else if v == 132 {
        Some(String::from_str("coffee"))
    } else if v == 133 {
        Some(String::from_str("ces"))
    } else if v == 134 {
        Some(String::from_str("atmSubInterface"))
    } else if v == 135 {
        Some(String::from_str("l2vlan"))
    } else if v == 136 {
        Some(String::from_str("l3ipvlan"))
    } else if v == 137 {
        Some(String::from_str("l3ipxvlan"))
    } else if v == 138 {
        Some(String::from_str("digitalPowerline"))
    } else if v == 139 {
        Some(String::from_str("mediaMailOverIp"))
    } else if v == 140 {
        Some(String::from_str("dtm"))
    } else if v == 141 {
        Some(String::from_str("dcn"))
    } else if v == 142 {
        Some(String::from_str("ipForward"))
    } else if v == 143 {
        Some(String::from_str("msdsl"))
    } else if v == 144 {
        Some(String::from_str("ieee1394"))
    } else if v == 145 {
        Some(String::from_str("if-gsn"))
    } else if v == 146 {
        Some(String::from_str("dvbRccMacLayer"))
    } else if v == 147 {
        Some(String::from_str("dvbRccDownstream"))
    } else if v == 148 {
        Some(String::from_str("dvbRccUpstream"))
    } else if v == 149 {
        Some(String::from_str("atmVirtual"))
    } else {
        None
    }
}

fn if_type_name_c_exec(v: u32) -> (r: Option<String>)
    ensures
        match r {
            Some(s) => if_type_name_c(v) == Some(s@),
            None => if_type_name_c(v) is None,
        },
{
    if v == 150 {
        Some(String::from_str("mplsTunnel"))
    } else if v == 151 {
        Some(String::from_str("srp"))
    } else if v == 152 {
        Some(String::from_str("voiceOverAtm"))
    } else if v == 153 {
        Some(String::from_str("voiceOverFrameRelay"))
    } else if v == 154 {
        Some(String::from_str("idsl"))
    } else if v == 155 {
        Some(String::from_str("compositeLink"))
    } else if v == 156 {
        Some(String::from_str("ss7SigLink"))
    } else if v == 157 {
        Some(String::from_str("propWirelessP2P"))
    } else if v == 158 {
        Some(String::from_str("frForward"))
    } else if v == 159 {
        Some(String::from_str("rfc1483"))
    } else if v == 160 {
        Some(String::from_str("usb"))
    } else if v == 161 {
        Some(String::from_str("ieee8023adLag"))
    } else if v == 162 {
        Some(String::from_str("bgppolicyaccounting"))
    } else if v == 163 {
        Some(String::from_str("frf16MfrBundle"))
    } else if v == 164 {
        Some(String::from_str("h323Gatekeeper"))
    } else if v == 165 {
        Some(String::from_str("h323Proxy"))
    } else if v == 166 {
        Some(String::from_str("mpls"))
    } else if v == 167 {
        Some(String::from_str("mfSigLink"))
    } else if v == 168 {
        Some(String::from_str("hdsl2"))
    } else if v == 169 {
        Some(String::from_str("shdsl"))
    } else if v == 170 {
        Some(String::from_str("ds1FDL"))
    } else if v == 171 {
        Some(String::from_str("pos"))
    } else if v == 172 {
        Some(String::from_str("dvbAsiIn"))
    } else if v == 173 {
        Some(String::from_str("dvbAsiOut"))
    } else if v == 174 {
        Some(String::from_str("plc"))
    } else if v == 175 {
        Some(String::from_str("nfas"))
    } else if v == 176 {
        Some(String::from_str("tr008"))
    } else if v == 177 {
        Some(String::from_str("gr303RDT"))
    } else if v == 178 {
        Some(String::from_str("gr303IDT"))
    } else if v == 179 {
        Some(String::from_str("isup"))
    } else if v == 180 {
        Some(String::from_str("propDocsWirelessMaclayer"))
    } else if v == 181 {
        Some(String::from_str("propDocsWirelessDownstream"))
    } else if v == 182 {
        Some(String::from_str("propDocsWirelessUpstream"))
    } else if v == 183 {
        Some(String::from_str("hiperlan2"))
    } else if v == 184 {
        Some(String::from_str("propBWAp2Mp"))
    } else if v == 185 {
        Some(String::from_str("sonetOverheadChannel"))
    } else if v == 186 {
        Some(String::from_str("digitalWrapperOverheadChannel"))
    } else if v == 187 {
        Some(String::from_str("aal2"))
    } else if v == 188 {
        Some(String::from_str("radioMAC"))
    } else if v == 189 {
        Some(String::from_str("atmRadio"))
    } else if v == 190 {
        Some(String::from_str("imt"))
    } else if v == 191 {
        Some(String::from_str("mvl"))
    } else if v == 192 {
        Some(String::from_str("reachDSL"))
    } else if v == 193 {
        Some(String::from_str("frDlciEndPt"))
    } else if v == 194 {
        Some(String::from_str("atmVciEndPt"))
    } else if v == 195 {
        Some(String::from_str("opticalChannel"))
    } else if v == 196 {
        Some(String::from_str("opticalTransport"))
    } else if v == 197 {
        Some(String::from_str("propAtm"))
    } else if v == 198 {
        Some(String::from_str("voiceOverCable"))
    } else if v == 199 {
        Some(String::from_str("infiniband"))
    } else if v == 200 {
        Some(String::from_str("teLink"))
    } else if v == 201 {
        Some(String::from_str("q2931"))
    } else if v == 202 {
        Some(String::from_str("virtualTg"))
    } else if v == 203 {
        Some(String::from_str("sipTg"))
    } else if v == 204 {
        Some(String::from_str("sipSig"))
    } else if v == 205 {
        Some(String::from_str("docsCableUpstreamChannel"))
    } else if v == 206 {
        Some(String::from_str("econet"))
    } else if v == 207 {
        Some(String::from_str("pon155"))
    } else if v == 208 {
        Some(String::from_str("pon622"))
    } else if v == 209 {
        Some(String::from_str("bridge"))
    } else if v == 210 {
        Some(String::from_str("linegroup"))
    } else if v == 211 {
        Some(String::from_str("voiceEMFGD"))
    } else if v == 212 {
        Some(String::from_str("voiceFGDEANA"))
    } else if v == 213 {
        Some(String::from_str("voiceDID"))
    } else if v == 214 {
        Some(String::from_str("mpegTransport"))
    } else if v == 215 {
        Some(String::from_str("sixToFour"))
    } else if v == 216 {
        Some(String::from_str("gtp"))
    } else if v == 217 {
        Some(String::from_str("pdnEtherLoop1"))
    } else if v == 218 {
        Some(String::from_str("pdnEtherLoop2"))
    } else if v == 219 {
        Some(String::from_str("opticalChannelGroup"))
    } else if v == 220 {
        Some(String::from_str("homepna"))
    } else if v == 221 {
        Some(String::from_str("gfp"))
    } else if v == 222 {
        Some(String::from_str("ciscoISLvlan"))
    } else if v == 223 {
        Some(String::from_str("actelisMetaLOOP"))
    } else if v == 224 {
        Some(String::from_str("fcipLink"))
    } else {
        None
    }
}

fn if_type_name_d_exec(v: u32) -> (r: Option<String>)
    ensures
        match r {
            Some(s) => if_type_name_d(v) == Some(s@),
            None => if_type_name_d(v) is None,
        },
{
    if v == 225 {
        Some(String::from_str("rpr"))
    } else if v == 226 {
        Some(String::from_str("qam"))
    } else if v == 227 {
        Some(String::from_str("lmp"))
    } else if v == 228 {
        Some(String::from_str("cblVectaStar"))
    } else if v == 229 {
        Some(String::from_str("docsCableMCmtsDownstream"))
    } else if v == 230 {
        Some(String::from_str("adsl2"))
    } else if v == 231 {
        Some(String::from_str("macSecControlledIF"))
    } else if v == 232 {
        Some(String::from_str("macSecUncontrolledIF"))
    } else if v == 233 {
        Some(String::from_str("aviciOpticalEther"))
    } else if v == 234 {
        Some(String::from_str("atmbond"))
    } else if v == 235 {
        Some(String::from_str("voiceFGDOS"))
    } else if v == 236 {
        Some(String::from_str("mocaVersion1"))
    } else if v == 237 {
        Some(String::from_str("ieee80216WMAN"))
    } else if v == 238 {
        Some(String::from_str("adsl2plus"))
    } else if v == 239 {
        Some(String::from_str("dvbRcsMacLayer"))
    } else if v == 240 {
        Some(String::from_str("dvbTdm"))
    } else if v == 241 {
        Some(String::from_str("dvbRcsTdma"))
    } else if v == 242 {
        Some(String::from_str("x86Laps"))
    } else if v == 243 {
        Some(String::from_str("wwanPP"))
    } else if v == 244 {
        Some(String::from_str("wwanPP2"))
    } else if v == 245 {
        Some(String::from_str("voiceEBS"))
    } else if v == 246 {
        Some(String::from_str("ifPwType"))
    } else if v == 247 {
        Some(String::from_str("ilan"))
    } else if v == 248 {
        Some(String::from_str("pip"))
    } else if v == 249 {
        Some(String::from_str("aluELP"))
    } else if v == 250 {
        Some(String::from_str("gpon"))
    } else if v == 251 {
        Some(String::from_str("vdsl2"))
    } else if v == 252 {
        Some(String::from_str("capwapDot11Profile"))
    } else if v == 253 {
        Some(String::from_str("capwapDot11Bss"))
    } else if v == 254 {
        Some(String::from_str("capwapWtpVirtualRadio"))
    } else if v == 255 {
        Some(String::from_str("bits"))
    } else if v == 256 {
        Some(String::from_str("docsCableUpstreamRfPort"))
    } else if v == 257 {
        Some(String::from_str("cableDownstreamRfPort"))
    } else if v == 258 {
        Some(String::from_str("vmwareVirtualNic"))
    } else if v == 259 {
        Some(String::from_str("ieee802154"))
    } else if v == 260 {
        Some(String::from_str("otnOdu"))
    } else if v == 261 {
        Some(String::from_str("otnOtu"))
    } else if v == 262 {
        Some(String::from_str("ifVfiType"))
    } else if v == 263 {
        Some(String::from_str("g9981"))
    } else if v == 264 {
        Some(String::from_str("g9982"))
    } else if v == 265 {
        Some(String::from_str("g9983"))
    } else if v == 266 {
        Some(String::from_str("aluEpon"))
    } else if v == 267 {
        Some(String::from_str("aluEponOnu"))
    } else if v == 268 {
        Some(String::from_str("aluEponPhysicalUni"))
    } else if v == 269 {
        Some(String::from_str("aluEponLogicalLink"))
    } else if v == 270 {
        Some(String::from_str("aluGponOnu"))
    } else if v == 271 {
        Some(String::from_str("aluGponPhysicalUni"))
    } else if v == 272 {
        Some(String::from_str("vmwareNicTeam"))
    } else if v == 277 {
        Some(String::from_str("docsOfdmDownstream"))
    } else if v == 278 {
        Some(String::from_str("docsOfdmaUpstream"))
    } else if v == 279 {
        Some(String::from_str("gfast"))
    } else if v == 280 {
        Some(String::from_str("sdci"))
    } else if v == 281 {
        Some(String::from_str("xboxWireless"))
    } else if v == 282 {
        Some(String::from_str("fastdsl"))
    } else if v == 283 {
        Some(String::from_str("docsCableScte55d1FwdOob"))
    } else if v == 284 {
        Some(String::from_str("docsCableScte55d1RetOob"))
    } else if v == 285 {
        Some(String::from_str("docsCableScte55d2DsOob"))
    } else if v == 286 {
        Some(String::from_str("docsCableScte55d2UsOob"))
    } else if v == 287 {
        Some(String::from_str("docsCableNdf"))
    } else if v == 288 {
        Some(String::from_str("docsCableNdr"))
    } else if v == 289 {
        Some(String::from_str("ptm"))
    } else if v == 290 {
        Some(String::from_str("ghn"))
    } else if v == 291 {
        Some(String::from_str("otnOtsi"))
    } else if v == 292 {
        Some(String::from_str("otnOtuc"))
    } else if v == 293 {
        Some(String::from_str("otnOduc"))
    } else if v == 294 {
        Some(String::from_str("otnOtsig"))
    } else if v == 295 {
        Some(String::from_str("microwaveCarrierTermination"))
    } else if v == 296 {
        Some(String::from_str("microwaveRadioLinkTerminal"))
    } else if v == 297 {
        Some(String::from_str("ieee8021axDrni"))
    } else if v == 298 {
        Some(String::from_str("ax25"))
    } else if v == 299 {
        Some(String::from_str("ieee19061nanocom"))
    } else if v == 300 {
        Some(String::from_str("cpri"))
    } else if v == 301 {
        Some(String::from_str("omni"))
    } else if v == 302 {
        Some(String::from_str("roe"))
    } else if v == 303 {
        Some(String::from_str("p2pOverLan"))
    } else {
        None
    }
}

/// The interface status names: up, down, testing.
pub open spec fn oper_status_name(v: u32) -> Option<Seq<char>> {
    if v == 1 {
        Some("up"@)
    } else if v == 2 {
        Some("down"@)
    } else if v == 3 {
        Some("testing"@)
    } else {
        None
    }
}

fn oper_status_name_exec(v: u32) -> (r: Option<String>)
    ensures
        match r {
            Some(s) => oper_status_name(v) == Some(s@),
            None => oper_status_name(v) is None,
        },
{
    if v == 1 {
        Some(String::from_str("up"))
    } else if v == 2 {
        Some(String::from_str("down"))
    } else if v == 3 {
        Some(String::from_str("testing"))
    } else {
        None
    }
}

/// The value of a text that is exactly an unsigned decimal that fits; zero
/// otherwise.
pub open spec fn parse_u32_all(s: Seq<char>) -> u32 {
    if s.len() > 0 && digit_prefix_len(s) == s.len() && dec_val(s) <= u32::MAX {
        dec_val(s) as u32
    } else {
        0
    }
}

fn parse_u32_all_exec(cs: &Vec<char>) -> (r: u32)
    ensures
        r == parse_u32_all(cs@),
{
    let n = cs.len();
    let mut i: usize = 0;
    let mut acc: u64 = 0;
    let mut ok: bool = true;
    while i < n
        invariant
            i <= n,
            n == cs@.len(),
            forall|j: int| 0 <= j < i ==> is_digit_char(#[trigger] cs@[j]),
            ok ==> acc as int == dec_val(cs@.take(i as int)) && acc <= u32::MAX,
            !ok ==> dec_val(cs@.take(i as int)) > u32::MAX,
        decreases n - i,
    {
        proof {
            assert(cs@.take(i + 1 as int).drop_last() =~= cs@.take(i as int));
            assert(cs@.take(i + 1 as int).last() == cs@[i as int]);
            lemma_dec_val_nonneg(cs@.take(i as int));
        }
        match crate::text::char_digit(cs[i]) {
            Some(d) => {
                if ok {
                    let next = acc * 10 + d;
                    if next > 4294967295u64 {
                        ok = false;
                    } else {
                        acc = next;
                    }
                }
            },
            None => {
                proof {
                    if digit_prefix_len(cs@) == cs@.len() {
                        crate::text::lemma_digit_prefix_all(cs@);
                    }
                }
                return 0;
            },
        }
        i = i + 1;
    }
    proof {
        assert(cs@.take(n as int) =~= cs@);
    }
    if ok && n > 0 {
        proof {
            lemma_digit_prefix_from_digits(cs@, n as int);
        }
        acc as u32
    } else {
        proof {
            if !ok {
                if digit_prefix_len(cs@) == cs@.len() {
                    crate::text::lemma_digit_prefix_all(cs@);
                    lemma_dec_val_nonneg(cs@);
                }
            }
        }
        0
    }
}

/// The value of a text that is exactly a signed decimal that fits.
pub open spec fn parse_i64_all(s: Seq<char>) -> Option<i64> {
    let (neg, rest): (bool, Seq<char>) = if s.len() > 0 && (s.first() == '-' || s.first() == '+') {
        (s.first() == '-', s.drop_first())
    } else {
        (false, s)
    };
    if rest.len() > 0 && digit_prefix_len(rest) == rest.len() {
        let v = dec_val(rest);
        if neg {
            if -v >= i64::MIN as int {
                Some((-v) as i64)
            } else {
                None
            }
        } else {
            if v <= i64::MAX as int {
                Some(v as i64)
            } else {
                None
            }
        }
    } else {
        None
    }
}

pub fn parse_i64_all_exec(cs: &Vec<char>) -> (r: Option<i64>)
    ensures
        r == parse_i64_all(cs@),
{
    let mut start: usize = 0;
    let mut neg: bool = false;
    if cs.len() > 0 && (cs[0] == '-' || cs[0] == '+') {
        neg = cs[0] == '-';
        start = 1;
    }
    let ghost rest: Seq<char> = cs@.skip(start as int);
    proof {
        if start == 0 {
            assert(rest =~= cs@);
        } else {
            assert(rest =~= cs@.drop_first());
        }
    }
    let n = cs.len();
    if start >= n {
        assert(rest.len() == 0);
        return None;
    }
    let mut i: usize = start;
    let mut acc: u64 = 0;
    let mut over: bool = false;
    while i < n
        invariant
            start <= i <= n,
            n == cs@.len(),
            start == 0 || start == 1,
            rest == cs@.skip(start as int),
            (start == 1) == (cs@.len() > 0 && (cs@.first() == '-' || cs@.first() == '+')),
            neg == (start == 1 && cs@.first() == '-'),
            start == 1 ==> rest =~= cs@.drop_first(),
            start == 0 ==> rest =~= cs@,
            forall|j: int| start <= j < i ==> is_digit_char(#[trigger] cs@[j]),
            !over ==> acc as int == dec_val(cs@.subrange(start as int, i as int)),
            over ==> dec_val(cs@.subrange(start as int, i as int)) > u64::MAX as int,
        decreases n - i,
    {
        proof {
            assert(cs@.subrange(start as int, i + 1 as int).drop_last() =~= cs@.subrange(
                start as int,
                i as int,
            ));
            assert(cs@.subrange(start as int, i + 1 as int).last() == cs@[i as int]);
            lemma_dec_val_nonneg(cs@.subrange(start as int, i as int));
        }
        match crate::text::char_digit(cs[i]) {
            Some(d) => {
                if !over {
                    if acc > (u64::MAX - d) / 10 {
                        over = true;
                    } else {
                        acc = acc * 10 + d;
                    }
                }
            },
            None => {
                proof {
                    assert(rest[i - start as int] == cs@[i as int]);
                    if digit_prefix_len(rest) == rest.len() {
                        crate::text::lemma_digit_prefix_all(rest);
                    }
                }
                return None;
            },
        }
        i = i + 1;
    }
    proof {
        assert forall|j: int| 0 <= j < rest.len() implies is_digit_char(#[trigger] rest[j]) by {
            assert(rest[j] == cs@[start + j]);
        }
        lemma_digit_prefix_from_digits(rest, rest.len() as int);
        assert(cs@.subrange(start as int, n as int) =~= rest);
    }
    if over {
        proof {
            lemma_dec_val_nonneg(rest);
        }
        return None;
    }
    if neg {
        if acc <= 9223372036854775808u64 {
            if acc == 0 {
                Some(0)
            } else {
                Some((-((acc - 1) as i64)) - 1)
            }
        } else {
            None
        }
    } else {
        if acc <= 9223372036854775807u64 {
            Some(acc as i64)
        } else {
            None
        }
    }
}

/// What one walk line contributes: the column name, interface index, and
/// translated value — when the line has an `=`, its left side is a dotted
/// interface-table column OID with an index, and the column is known.
pub open spec fn snmp_parse_line(line: Seq<char>) -> Option<(Seq<char>, u32, ValView)> {
    let e = last_eq_idx(line);
    if e < 0 {
        None
    } else {
        let left = trim_spec(line.take(e));
        let right = trim_spec(line.skip(e + 1));
        if left.len() == 0 || left.first() != '.' {
            None
        } else {
            match parse_arcs(left.drop_first()) {
                None => None,
                Some(arcs) => {
                    if arcs.len() == 11 && arcs.take(9) == seq![
                        1u32,
                        3u32,
                        6u32,
                        1u32,
                        2u32,
                        1u32,
                        2u32,
                        2u32,
                        1u32,
                    ] {
                        let col = arcs[9];
                        let idx = arcs[10];
                        match col_name(col) {
                            None => None,
                            Some(name) => {
                                let translated: Seq<char> = if col == 7 || col == 8 {
                                    match oper_status_name(parse_u32_all(right)) {
                                        Some(n) => n,
                                        None => right,
                                    }
                                } else if col == 3 {
                                    match if_type_name(parse_u32_all(right)) {
                                        Some(n) => n,
                                        None => right,
                                    }
                                } else {
                                    right
                                };
                                let value: ValView = match parse_i64_all(translated) {
                                    Some(v) => ValView::Int(v),
                                    None => ValView::Str(translated),
                                };
                                Some((name, idx, value))
                            },
                        }
                    } else {
                        None
                    }
                },
            }
        }
    }
}

/// The position a new index takes in a sorted index sequence.
pub open spec fn lower_bound_u32(ids: Seq<u32>, x: u32) -> int
    decreases ids.len(),
{
    if ids.len() == 0 {
        0
    } else if ids.first() < x {
        1 + lower_bound_u32(ids.drop_first(), x)
    } else {
        0
    }
}

/// Position of an index in the sequence, or `-1`.
pub open spec fn find_port(ids: Seq<u32>, x: u32) -> int
    decreases ids.len(),
{
    if ids.len() == 0 {
        -1
    } else if ids.first() == x {
        0
    } else {
        let r = find_port(ids.drop_first(), x);
        if r < 0 {
            -1
        } else {
            r + 1
        }
    }
}

/// What one line does to the run state: a parsed column lands in its
/// interface's map, a new interface enters at its sorted position; no
/// directives are synthesised per line.
pub open spec fn snmp_process_spec(s: SnmpInstView, line: Seq<char>) -> (SnmpInstView, Seq<
    Seq<char>,
>) {
    match snmp_parse_line(line) {
        None => (s, Seq::empty()),
        Some((name, idx, v)) => {
            let f = find_port(s.ids, idx);
            if f >= 0 {
                let m = s.maps[f];
                let m2 = CtxModel {
                    keys: insert_keys(m.keys, name),
                    vals: insert_vals(m.keys, m.vals, name, v),
                };
                (
                    SnmpInstView { settings: s.settings, ids: s.ids, maps: s.maps.update(f, m2) },
                    Seq::empty(),
                )
            } else {
                let p = lower_bound_u32(s.ids, idx);
                (
                    SnmpInstView {
                        settings: s.settings,
                        ids: s.ids.insert(p, idx),
                        maps: s.maps.insert(p, CtxModel { keys: seq![name], vals: seq![v] }),
                    },
                    Seq::empty(),
                )
            }
        },
    }
}

/// The directives one interface contributes at the end of a run: nothing
/// when filtered out or when its id does not render; otherwise its columns
/// as child metadata, and the red or green decision.
pub open spec fn snmp_port_directives(c: SnmpProcView, idx: u32, m: CtxModel) -> Seq<Seq<char>> {
    if !calc_bool_spec(c.accept, m.keys, m.vals) {
        Seq::empty()
    } else if calc_bool_spec(c.exclude, m.keys, m.vals) {
        Seq::empty()
    } else {
        match render_id_of(c.id, seq!["index"@], seq![dec_rep_int(idx as int)]) {
            None => Seq::empty(),
            Some(pid) => {
                let metas = Seq::new(
                    m.keys.len(),
                    |i: int|
                        "group."@ + pid + ".status.metadata."@ + m.keys[i] + "="@ + json_quote_spec(
                            as_str_spec(m.vals[i]),
                        ),
                );
                let status: Seq<Seq<char>> = if calc_bool_spec(c.red, m.keys, m.vals) {
                    seq!["group."@ + pid + ".status.status="@ + json_quote_spec("red"@)]
                } else if calc_bool_spec(c.green, m.keys, m.vals) {
                    seq!["group."@ + pid + ".status.status="@ + json_quote_spec("green"@)]
                } else {
                    Seq::empty()
                };
                metas + status
            },
        }
    }
}

/// The directives of the interfaces up to a position, in index order.
pub open spec fn snmp_finalize_upto(s: SnmpInstView, k: int) -> Seq<Seq<char>>
    decreases k,
{
    if k <= 0 {
        Seq::empty()
    } else {
        snmp_finalize_upto(s, k - 1) + snmp_port_directives(s.settings, s.ids[k - 1], s.maps[k - 1])
    }
}

/// The directives one SNMP run closes with: each collected interface's
/// columns and colour decision, in interface order.
pub open spec fn snmp_finalize_spec(s: SnmpInstView) -> Seq<Seq<char>> {
    snmp_finalize_upto(s, s.ids.len() as int)
}

impl SnmpMonitorMessageProcessorInstance {
    /// Record the column a walk line reports, if any; lines synthesise no
    /// directives.
    pub fn process_message(&mut self, input: &str) -> (r: Vec<String>)
        requires
            snmp_inst_wf(old(self)@),
        ensures
            snmp_inst_wf(final(self)@),
            final(self)@ == snmp_process_spec(old(self)@, input@).0,
            r.deep_view() == snmp_process_spec(old(self)@, input@).1,
    {
        let r: Vec<String> = Vec::new();
        proof {
            assert(r.deep_view() =~= Seq::<Seq<char>>::empty());
        }
        let cs = string_to_chars(input);
        // find the last '='
        let mut e: usize = cs.len();
        let mut found: bool = false;
        proof {
            assert(cs@.take(cs@.len() as int) =~= cs@);
        }
        while e > 0 && !found
            invariant
                e <= cs@.len(),
                !found ==> last_eq_idx(cs@) == last_eq_idx(cs@.take(e as int)),
                found ==> e < cs@.len() + 1 && e >= 1 && cs@[e - 1] == '=' && last_eq_idx(cs@)
                    == e - 1,
            decreases e + (if found { 0int } else { 1int }),
        {
            proof {
                assert(cs@.take(e as int).drop_last() =~= cs@.take(e - 1 as int));
                assert(cs@.take(e as int).last() == cs@[e - 1 as int]);
            }
            if cs[e - 1] == '=' {
                found = true;
            } else {
                e = e - 1;
            }
        }
        if !found {
            proof {
                assert(cs@.take(0int).len() == 0);
                assert(last_eq_idx(cs@) < 0);
            }
            return r;
        }
        let eq = e - 1;
        let mut left_raw: Vec<char> = Vec::new();
        let mut i: usize = 0;
        while i < eq
            invariant
                i <= eq <= cs@.len(),
                left_raw@ == cs@.take(eq as int).take(i as int),
            decreases eq - i,
        {
            proof {
                assert(cs@.take(eq as int).take(i + 1 as int) =~= cs@.take(eq as int).take(
                    i as int,
                ).push(cs@[i as int]));
            }
            left_raw.push(cs[i]);
            i = i + 1;
        }
        proof {
            assert(left_raw@ =~= cs@.take(eq as int));
        }
        let mut right_raw: Vec<char> = Vec::new();
        let mut j: usize = eq + 1;
        while j < cs.len()
            invariant
                eq + 1 <= j <= cs@.len(),
                right_raw@ == cs@.skip(eq + 1 as int).take(j - (eq + 1) as int),
            decreases cs@.len() - j,
        {
            proof {
                assert(cs@.skip(eq + 1 as int).take(j + 1 - (eq + 1) as int) =~= cs@.skip(
                    eq + 1 as int,
                ).take(j - (eq + 1) as int).push(cs@[j as int]));
            }
            right_raw.push(cs[j]);
            j = j + 1;
        }
        proof {
            assert(right_raw@ =~= cs@.skip(eq + 1 as int));
        }
        let left = trim_chars(&left_raw);
        let right = trim_chars(&right_raw);
        if left.len() == 0 {
            return r;
        }
        if left[0] != '.' {
            return r;
        }
        let mut tail: Vec<char> = Vec::new();
        let mut t: usize = 1;
        while t < left.len()
            invariant
                1 <= t <= left@.len(),
                tail@ == left@.drop_first().take(t - 1 as int),
            decreases left@.len() - t,
        {
            proof {
                assert(left@.drop_first().take(t - 1 + 1 as int) =~= left@.drop_first().take(
                    t - 1 as int,
                ).push(left@[t as int]));
            }
            tail.push(left[t]);
            t = t + 1;
        }
        proof {
            assert(tail@ =~= left@.drop_first());
        }
        let arcs = match parse_arcs_exec(&tail) {
            Some(a) => a,
            None => {
                return r;
            },
        };
        if arcs.len() != 11 {
            return r;
        }
        let prefix_ok = arcs[0] == 1 && arcs[1] == 3 && arcs[2] == 6 && arcs[3] == 1 && arcs[4]
            == 2 && arcs[5] == 1 && arcs[6] == 2 && arcs[7] == 2 && arcs[8] == 1;
        proof {
            if prefix_ok {
                assert(arcs@.take(9) =~= seq![1u32, 3u32, 6u32, 1u32, 2u32, 1u32, 2u32, 2u32, 1u32]);
            } else {
                if arcs@.take(9) =~= seq![1u32, 3u32, 6u32, 1u32, 2u32, 1u32, 2u32, 2u32, 1u32] {
                    assert(arcs@.take(9)[0] == arcs@[0]);
                    assert(arcs@.take(9)[1] == arcs@[1]);
                    assert(arcs@.take(9)[2] == arcs@[2]);
                    assert(arcs@.take(9)[3] == arcs@[3]);
                    assert(arcs@.take(9)[4] == arcs@[4]);
                    assert(arcs@.take(9)[5] == arcs@[5]);
                    assert(arcs@.take(9)[6] == arcs@[6]);
                    assert(arcs@.take(9)[7] == arcs@[7]);
                    assert(arcs@.take(9)[8] == arcs@[8]);
                }
            }
        }
        if !prefix_ok {
            return r;
        }
        let col = arcs[9];
        let idx = arcs[10];
        let name = match col_name_exec(col) {
            Some(n) => n,
            None => {
                return r;
            },
        };
        let translated: String = if col == 7 || col == 8 {
            let rv = parse_u32_all_exec(&right);
            match oper_status_name_exec(rv) {
                Some(n) => n,
                None => chars_to_string(&right),
            }
        } else if col == 3 {
            let rv = parse_u32_all_exec(&right);
            match if_type_name_exec(rv) {
                Some(n) => n,
                None => chars_to_string(&right),
            }
        } else {
            chars_to_string(&right)
        };
        let tc = string_to_chars(translated.as_str());
        let value: Value = match parse_i64_all_exec(&tc) {
            Some(v) => Value::Int(v),
            None => Value::Str(translated),
        };
        // place the column in its interface's map
        let mut lo: usize = 0;
        let n = self.port_ids.len();
        while lo < n && self.port_ids[lo] < idx
            invariant
                lo <= n,
                n == self.port_ids@.len(),
                forall|j: int| 0 <= j < lo ==> self.port_ids@[j] < idx,
            decreases n - lo,
        {
            lo = lo + 1;
        }
        proof {
            lemma_lower_bound(self.port_ids@, idx, lo as int);
            lemma_find_port(self.port_ids@, idx);
        }
        if lo < n && self.port_ids[lo] == idx {
            proof {
                let f = find_port(self.port_ids@, idx);
                if f != lo as int {
                    if f < 0 {
                        assert(self.port_ids@[lo as int] != idx);
                    } else {
                        assert(self.port_ids@[f] == idx);
                        if f < lo as int {
                            assert(self.port_ids@[f] < idx);
                        } else {
                            assert(self.port_ids@[lo as int] != idx);
                        }
                    }
                    assert(false);
                }
            }
            proof {
                assert(self@.maps[lo as int] == CtxModel {
                    keys: self.port_maps@[lo as int].keys(),
                    vals: self.port_maps@[lo as int].vals(),
                });
                assert(self.port_maps@[lo as int].wf());
                assert(self.port_maps@.len() == self.port_ids@.len());
            }
            let mut m = self.port_maps.remove(lo);
            m.insert(name, value);
            self.port_maps.insert(lo, m);
            proof {
                assert(final(self)@.maps =~= snmp_process_spec(old(self)@, input@).0.maps);
                assert(final(self)@ =~~= snmp_process_spec(old(self)@, input@).0);
            }
        } else {
            proof {
                let f = find_port(self.port_ids@, idx);
                if f >= 0 {
                    assert(self.port_ids@[f] == idx);
                    if f < lo as int {
                        assert(self.port_ids@[f] < idx);
                    } else {
                        assert(lo < n ==> self.port_ids@[lo as int] != idx);
                        assert(forall|a: int, b: int|
                            0 <= a < b < self.port_ids@.len() ==> self.port_ids@[a]
                                < self.port_ids@[b]);
                        if lo < n {
                            assert(self.port_ids@[lo as int] < self.port_ids@[f] || lo as int == f);
                        }
                    }
                    assert(false);
                }
            }
            proof {
                assert(self.port_maps@.len() == self.port_ids@.len());
            }
            let mut m: Ctx = KeyMap::new();
            m.insert(name, value);
            self.port_ids.insert(lo, idx);
            self.port_maps.insert(lo, m);
            proof {
                assert(final(self)@.maps =~= snmp_process_spec(old(self)@, input@).0.maps);
                assert(final(self)@.ids =~= snmp_process_spec(old(self)@, input@).0.ids);
                assert(final(self)@ =~~= snmp_process_spec(old(self)@, input@).0);
            }
        }
        r
    }

    /// Close the run: emit each interface's directives, and forget the
    /// interfaces.
    #[verifier::rlimit(100)]
    pub fn finalize(&mut self) -> (r: Vec<String>)
        requires
            snmp_inst_wf(old(self)@),
        ensures
            snmp_inst_wf(final(self)@),
            r.deep_view() == snmp_finalize_spec(old(self)@),
            final(self)@.ids == Seq::<u32>::empty(),
    {
        let ghost s0: SnmpInstView = self@;
        let mut out: Vec<String> = Vec::new();
        let n = self.port_ids.len();
        let mut k: usize = 0;
        while k < n
            invariant
                k <= n,
                self@ == s0,
                snmp_inst_wf(s0),
                n == self.port_ids@.len(),
                out.deep_view() =~= snmp_finalize_upto(s0, k as int),
            decreases n - k,
        {
            let idx = self.port_ids[k];
            proof {
                assert(s0.maps[k as int] == CtxModel {
                    keys: self.port_maps@[k as int].keys(),
                    vals: self.port_maps@[k as int].vals(),
                });
                assert(self.port_maps@[k as int].wf());
            }
            let accept_ok = calculate_bool(self.accept.as_str(), &self.port_maps[k]);
            let exclude_ok = calculate_bool(self.exclude.as_str(), &self.port_maps[k]);
            if accept_ok && !exclude_ok {
                let mut axes: KeyMap<crate::config::MonitorDirAxisValue> = KeyMap::new();
                let idx_i64: i64 = idx as i64;
                axes.insert(
                    String::from_str("index"),
                    crate::config::MonitorDirAxisValue::Number(idx_i64),
                );
                proof {
                    assert(axes.keys() =~= seq!["index"@]);
                    assert(axes.vals().map_values(|v| axis_val_str(v)) =~= seq![
                        dec_rep_int(idx as int),
                    ]);
                }
                match interpolate_id(&axes, self.id.as_str()) {
                    Some(pid) => {
                        let cols = self.port_maps[k].len();
                        let mut c: usize = 0;
                        let ghost pid_s: Seq<char> = pid@;
                        let ghost base: Seq<Seq<char>> = snmp_finalize_upto(s0, k as int);
                        let ghost metas: Seq<Seq<char>> = Seq::new(
                            s0.maps[k as int].keys.len(),
                            |i: int|
                                "group."@ + pid_s + ".status.metadata."@ + s0.maps[k as int].keys[i]
                                    + "="@ + json_quote_spec(as_str_spec(s0.maps[k as int].vals[i])),
                        );
                        proof {
                            assert(out.deep_view() =~= base + metas.take(0));
                        }
                        while c < cols
                            invariant
                                c <= cols,
                                k < n,
                                self@ == s0,
                                snmp_inst_wf(s0),
                                n == self.port_ids@.len(),
                                cols == s0.maps[k as int].keys.len(),
                                pid_s == pid@,
                                base == snmp_finalize_upto(s0, k as int),
                                metas == Seq::new(
                                    s0.maps[k as int].keys.len(),
                                    |i: int|
                                        "group."@ + pid_s + ".status.metadata."@
                                            + s0.maps[k as int].keys[i] + "="@ + json_quote_spec(
                                            as_str_spec(s0.maps[k as int].vals[i]),
                                        ),
                                ),
                                out@.len() == base.len() + c,
                                out.deep_view() =~= base + metas.take(c as int),
                            decreases cols - c,
                        {
                            proof {
                                assert(s0.maps[k as int] == CtxModel {
                                    keys: self.port_maps@[k as int].keys(),
                                    vals: self.port_maps@[k as int].vals(),
                                });
                                assert(self.port_maps@[k as int].wf());
                            }
                            let mut d: Vec<char> = Vec::new();
                            push_str_chars(&mut d, "group.");
                            push_str_chars(&mut d, pid.as_str());
                            push_str_chars(&mut d, ".status.metadata.");
                            push_str_chars(&mut d, self.port_maps[k].key_at(c).as_str());
                            push_str_chars(&mut d, "=");
                            let vs = self.port_maps[k].val_at(c).as_str();
                            let vc = string_to_chars(vs.as_str());
                            let quoted = crate::text::json_quote_chars(&vc);
                            push_chars(&mut d, &quoted);
                            proof {
                                assert(d@ =~= metas[c as int]);
                            }
                            let ghost dv: Seq<char> = d@;
                            let ghost pre_out: Seq<String> = out@;
                            let ghost pre_dv: Seq<Seq<char>> = out.deep_view();
                            out.push(chars_to_string(&d));
                            proof {
                                assert forall|j: int|
                                    0 <= j < out@.len() implies out.deep_view()[j] == (base
                                    + metas.take(c + 1 as int))[j] by {
                                    assert(out.deep_view()[j] == out@[j]@);
                                    if j < pre_out.len() {
                                        assert(out@[j] == pre_out[j]);
                                        assert(pre_dv[j] == pre_out[j]@);
                                        assert(pre_dv[j] == (base + metas.take(c as int))[j]);
                                    } else {
                                        assert(out@[j]@ == dv);
                                    }
                                }
                                assert(out.deep_view() =~= base + metas.take(c + 1 as int));
                            }
                            c = c + 1;
                        }
                        proof {
                            assert(metas.take(cols as int) =~= metas);
                        }
                        let red_ok = calculate_bool(self.red.as_str(), &self.port_maps[k]);
                        let green_ok = calculate_bool(self.green.as_str(), &self.port_maps[k]);
                        let ghost status_seq: Seq<Seq<char>> = if calc_bool_spec(
                            s0.settings.red,
                            s0.maps[k as int].keys,
                            s0.maps[k as int].vals,
                        ) {
                            seq!["group."@ + pid_s + ".status.status="@ + json_quote_spec("red"@)]
                        } else if calc_bool_spec(
                            s0.settings.green,
                            s0.maps[k as int].keys,
                            s0.maps[k as int].vals,
                        ) {
                            seq![
                                "group."@ + pid_s + ".status.status="@ + json_quote_spec("green"@),
                            ]
                        } else {
                            Seq::empty()
                        };
                        if red_ok || green_ok {
                            let mut d: Vec<char> = Vec::new();
                            push_str_chars(&mut d, "group.");
                            push_str_chars(&mut d, pid.as_str());
                            push_str_chars(&mut d, ".status.status=");
                            let colour: &str = if red_ok {
                                "red"
                            } else {
                                "green"
                            };
                            let cc = string_to_chars(colour);
                            let quoted = crate::text::json_quote_chars(&cc);
                            push_chars(&mut d, &quoted);
                            proof {
                                if red_ok {
                                    assert(d@ =~= "group."@ + pid_s + ".status.status="@
                                        + json_quote_spec("red"@));
                                } else {
                                    assert(d@ =~= "group."@ + pid_s + ".status.status="@
                                        + json_quote_spec("green"@));
                                }
                                assert(d@ == status_seq[0]);
                            }
                            let ghost dv: Seq<char> = d@;
                            let ghost pre_out: Seq<String> = out@;
                            let ghost pre_dv: Seq<Seq<char>> = out.deep_view();
                            out.push(chars_to_string(&d));
                            proof {
                                assert forall|j: int|
                                    0 <= j < out@.len() implies out.deep_view()[j] == (base + metas
                                    + status_seq)[j] by {
                                    assert(out.deep_view()[j] == out@[j]@);
                                    if j < pre_out.len() {
                                        assert(out@[j] == pre_out[j]);
                                        assert(pre_dv[j] == pre_out[j]@);
                                        assert(pre_dv[j] == (base + metas)[j]);
                                    } else {
                                        assert(out@[j]@ == dv);
                                    }
                                }
                                assert(out.deep_view() =~= base + metas + status_seq);
                            }
                        } else {
                            proof {
                                assert(base + metas + status_seq =~= base + metas);
                                assert(out.deep_view() =~= base + metas + status_seq);
                            }
                        }
                        proof {
                            assert(snmp_port_directives(s0.settings, s0.ids[k as int], s0.maps[k as int])
                                =~= metas + status_seq);
                            assert(base + metas + status_seq =~= base + (metas + status_seq));
                            assert(out.deep_view() =~= snmp_finalize_upto(s0, k + 1 as int));
                        }
                    },
                    None => {
                        proof {
                            assert(snmp_port_directives(s0.settings, s0.ids[k as int], s0.maps[k as int])
                                =~= Seq::<Seq<char>>::empty());
                            assert(out.deep_view() =~= snmp_finalize_upto(s0, k + 1 as int));
                        }
                    },
                }
            } else {
                proof {
                    assert(out.deep_view() =~= snmp_finalize_upto(s0, k + 1 as int));
                }
            }
            k = k + 1;
        }
        self.port_ids = Vec::new();
        self.port_maps = Vec::new();
        proof {
            assert(final(self)@.ids =~= Seq::<u32>::empty());
            assert(final(self)@.maps =~= Seq::<CtxModel>::empty());
        }
        out
    }
}

proof fn lemma_lower_bound(ids: Seq<u32>, x: u32, p: int)
    requires
        0 <= p <= ids.len(),
        forall|j: int| 0 <= j < p ==> ids[j] < x,
        p == ids.len() || !(ids[p] < x),
    ensures
        lower_bound_u32(ids, x) == p,
    decreases ids.len(),
{
    if p == 0 {
    } else {
        assert(ids.first() < x);
        lemma_lower_bound(ids.drop_first(), x, p - 1);
    }
}

proof fn lemma_find_port(ids: Seq<u32>, x: u32)
    ensures
        find_port(ids, x) >= 0 ==> find_port(ids, x) < ids.len() && ids[find_port(ids, x)] == x,
        find_port(ids, x) < 0 ==> forall|j: int| 0 <= j < ids.len() ==> ids[j] != x,
    decreases ids.len(),
{
    if ids.len() > 0 && ids.first() != x {
        lemma_find_port(ids.drop_first(), x);
        if find_port(ids.drop_first(), x) < 0 {
            assert forall|j: int| 0 <= j < ids.len() implies ids[j] != x by {
                if j > 0 {
                    assert(ids.drop_first()[j - 1] != x);
                }
            }
        }
    }
}

/// Parse a dotted run of decimal arcs, as `parse_arcs` says.
fn parse_arcs_exec(cs: &Vec<char>) -> (r: Option<Vec<u32>>)
    ensures
        match r {
            Some(a) => parse_arcs(cs@) == Some(a@),
            None => parse_arcs(cs@) is None,
        },
{
    match parse_arcs_from(cs, 0) {
        Some(a) => {
            proof {
                assert(cs@.skip(0) =~= cs@);
            }
            Some(a)
        },
        None => {
            proof {
                assert(cs@.skip(0) =~= cs@);
            }
            None
        },
    }
}

fn parse_arcs_from(cs: &Vec<char>, pos: usize) -> (r: Option<Vec<u32>>)
    requires
        pos <= cs@.len(),
    ensures
        match r {
            Some(a) => parse_arcs(cs@.skip(pos as int)) == Some(a@),
            None => parse_arcs(cs@.skip(pos as int)) is None,
        },
    decreases cs@.len() - pos,
{
    let ghost s: Seq<char> = cs@.skip(pos as int);
    let mut i: usize = pos;
    let mut acc: u64 = 0;
    let mut over: bool = false;
    while i < cs.len() && char_is_digit(cs[i])
        invariant
            pos <= i <= cs@.len(),
            s == cs@.skip(pos as int),
            forall|j: int| pos <= j < i ==> is_digit_char(#[trigger] cs@[j]),
            !over ==> acc as int == dec_val(cs@.subrange(pos as int, i as int)),
            over ==> dec_val(cs@.subrange(pos as int, i as int)) > u64::MAX as int,
        decreases cs@.len() - i,
    {
        let d: u64 = match crate::text::char_digit(cs[i]) {
            Some(d) => d,
            None => 0,
        };
        proof {
            assert(cs@.subrange(pos as int, i + 1 as int).drop_last() =~= cs@.subrange(
                pos as int,
                i as int,
            ));
            assert(cs@.subrange(pos as int, i + 1 as int).last() == cs@[i as int]);
            lemma_dec_val_nonneg(cs@.subrange(pos as int, i as int));
        }
        if !over {
            if acc > (u64::MAX - d) / 10 {
                over = true;
            } else {
                acc = acc * 10 + d;
            }
        }
        i = i + 1;
    }
    proof {
        assert forall|j: int| 0 <= j < i - pos implies is_digit_char(#[trigger] s[j]) by {
            assert(s[j] == cs@[pos + j]);
        }
        if (i as int - pos as int) < s.len() {
            assert(s[i - pos as int] == cs@[i as int]);
        }
        lemma_digit_prefix_from_digits(s, i as int - pos as int);
        assert(s.take(i - pos as int) =~= cs@.subrange(pos as int, i as int));
    }
    if i == pos {
        return None;
    }
    if over || acc > 4294967295u64 {
        proof {
            if !over {
            } else {
                lemma_dec_val_nonneg(s.take(digit_prefix_len(s)));
            }
        }
        return None;
    }
    let arc: u32 = acc as u32;
    if i == cs.len() {
        let mut a: Vec<u32> = Vec::new();
        a.push(arc);
        proof {
            assert(s.len() == i - pos);
            assert(a@ =~= seq![dec_val(s.take(digit_prefix_len(s))) as u32]);
        }
        Some(a)
    } else if cs[i] == '.' {
        proof {
            assert(s[i - pos as int] == cs@[i as int]);
            assert(s.skip(i - pos + 1 as int) =~= cs@.skip(i + 1 as int));
        }
        match parse_arcs_from(cs, i + 1) {
            None => None,
            Some(rest) => {
                let mut a: Vec<u32> = Vec::new();
                a.push(arc);
                let mut j: usize = 0;
                while j < rest.len()
                    invariant
                        j <= rest@.len(),
                        a@ == seq![arc].add(rest@.take(j as int)),
                    decreases rest@.len() - j,
                {
                    a.push(rest[j]);
                    proof {
                        assert(seq![arc].add(rest@.take(j + 1 as int)) =~= seq![arc].add(
                            rest@.take(j as int),
                        ).push(rest@[j as int]));
                    }
                    j = j + 1;
                }
                proof {
                    assert(a@ =~= seq![dec_val(s.take(digit_prefix_len(s))) as u32] + rest@);
                }
                Some(a)
            },
        }
    } else {
        proof {
            assert(s[i - pos as int] == cs@[i as int]);
        }
        None
    }
}

} // verus!
