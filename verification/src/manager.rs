//! The manager's decisions over the deployment: which services to report,
//! which profile to start, and what the block-builder log tail says. The
//! decisions are pure; the caller performs the filesystem and container
//! runtime probes and hands their outcomes in as plain values.

use vstd::prelude::*;
use vstd::string::*;
use crate::extract::{extract_block_height, extracted_height};
use crate::service::{probes_view, reconcile, reconciled, ServiceStatus};

verus! {

/// Manages an orchestration deployment at a fixed installation path.
#[derive(Debug, Clone)]
pub struct IgraManager {
    pub orchestra_path: String,
    pub node_name: String,
    pub health_api_key: Option<String>,
}

impl IgraManager {
    /// A manager for the default installation path and node name.
    pub fn new() -> (r: Result<IgraManager, String>)
        ensures
            r is Ok,
            r->Ok_0.orchestra_path@ == "/home/kaspa/igra/igra-orchestra-public"@,
            r->Ok_0.node_name@ == "merlin"@,
            r->Ok_0.health_api_key is None,
    {
        Ok(
            IgraManager {
                orchestra_path: "/home/kaspa/igra/igra-orchestra-public".to_owned(),
                node_name: "merlin".to_owned(),
                health_api_key: None,
            },
        )
    }

    /// The deployment's service records, derived from the structured
    /// status lines with the individual probe outcomes as fallback, or an
    /// error when the installation is absent. `installed` is the caller's
    /// probe of the installation path.
    pub fn check_services(
        &self,
        installed: bool,
        ps_lines: &Vec<String>,
        probes: &Vec<(String, bool)>,
    ) -> (r: Result<Vec<ServiceStatus>, String>)
        ensures
            match r {
                Ok(v) => installed && v.deep_view() == reconciled(
                    ps_lines.deep_view(),
                    probes_view(probes@),
                ),
                Err(e) => !installed && e@ == "IGRA Orchestra not found"@,
            },
    {
        if !installed {
            return Err("IGRA Orchestra not found".to_owned());
        }
        Ok(reconcile(ps_lines, probes))
    }

    /// The compose profile to start when the installation is present:
    /// the deployment's backend profile; an error otherwise. `installed`
    /// is the caller's probe of the installation path.
    pub fn start_services(&self, installed: bool) -> (r: Result<String, String>)
        ensures
            match r {
                Ok(p) => installed && p@ == "backend"@,
                Err(e) => !installed && e@ == "IGRA Orchestra not found. Run setup first."@,
            },
    {
        if !installed {
            return Err("IGRA Orchestra not found. Run setup first.".to_owned());
        }
        Ok("backend".to_owned())
    }

    /// The block height the supplied block-builder log tail reports, or
    /// an error when no line reports one.
    pub fn get_block_height(&self, lines: &Vec<String>) -> (r: Result<u64, String>)
        ensures
            match r {
                Ok(h) => extracted_height(lines.deep_view()) == Some(h),
                Err(e) => extracted_height(lines.deep_view()) is None && e@
                    == "No block height found in logs"@,
            },
    {
        match extract_block_height(lines) {
            Some(h) => Ok(h),
            None => Err("No block height found in logs".to_owned()),
        }
    }
}

} // verus!
