//! The listener that hands out metrics.

use crate::text::{parse_number, spec_number, spec_trim, trim};
use vstd::prelude::*;

verus! {

/// The variable that selects the port.
pub const METRICS_PORT_ENV: &'static str = "COXAGENT_METRICS_PORT";

/// The port where none is selected.
pub const DEFAULT_METRICS_PORT: u16 = 9010;

/// The port that a setting selects: what is not a port must not keep the hub from starting.
pub fn metrics_port(setting: Option<&str>) -> (r: u16)
    ensures
        r == match setting {
            None => DEFAULT_METRICS_PORT as nat,
            Some(s) => match spec_number(spec_trim(s@), 65535) {
                Some(n) => n,
                None => DEFAULT_METRICS_PORT as nat,
            },
        },
{
    match setting {
        None => DEFAULT_METRICS_PORT,
        Some(s) => {
            let t = trim(s);
            match parse_number(t.as_str(), 65535) {
                Some(n) => n as u16,
                None => DEFAULT_METRICS_PORT,
            }
        },
    }
}

} // verus!
