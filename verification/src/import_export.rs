//! Export and import of the whole configuration.
use vstd::prelude::*;
use crate::profiles::Profile;
use crate::proxy_instance::SavedInstance;
use crate::scheduler::Schedule;
use crate::settings::AppSettings;
use crate::split_tunnel::RoutingRule;
use crate::text::{cat, decimal, decimal_string};

verus! {

/// Everything a configuration export holds.
#[derive(Debug)]
pub struct ExportBundle {
    pub version: u32,
    pub exported_at: u64,
    pub settings: AppSettings,
    pub instances: Vec<SavedInstance>,
    pub profiles: Vec<Profile>,
    pub split_tunnel_rules: Vec<RoutingRule>,
    pub schedules: Vec<Schedule>,
}

/// The file name of an export made at `ts` (seconds since the epoch).
pub open spec fn export_name(ts: u64) -> Seq<char> {
    "relay-export-"@ + decimal(ts as nat) + ".json"@
}

pub fn export_file_name(ts: u64) -> (r: String)
    ensures
        r@ == export_name(ts),
{
    cat(cat("relay-export-", decimal_string(ts).as_str()).as_str(), ".json")
}

} // verus!
