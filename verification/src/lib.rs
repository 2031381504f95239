//! Core of a status-dashboard daemon: supervised probe workers feed a
//! per-monitor status state machine; specialised processors translate ping
//! and SNMP output into status directives through a small expression
//! language; the aggregate state renders to CSS.
use vstd::prelude::*;

pub mod config;
pub mod css;
pub mod expressions;
pub mod interpolate;
pub mod kmap;
pub mod monitor;
pub mod ping;
pub mod snmp;
pub mod status;
pub mod worker;
pub mod linebuf;
pub mod text;

verus! {

/// Exit code reported when a run ends without a normal exit status.
pub const ABNORMAL_CODE: i64 = -1;

} // verus!
