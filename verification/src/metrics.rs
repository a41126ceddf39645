//! What the metrics exporter is wired with: the header values and the
//! resource identity that accompany every exported batch. Deciding these
//! values — which variables feed them and what stands in when one is
//! absent — happens here; the exporter itself is an outside collaborator
//! fed by the caller.

use vstd::prelude::*;
use vstd::string::StringExecFns;

use crate::config::or_default;

verus! {

/// The values the cloud log-service exporter is addressed with: four
/// credential headers and the three-part resource identity of this
/// process.
pub struct SlsMetadata {
    pub project: String,
    pub instance_id: String,
    pub ak_id: String,
    pub ak_secret: String,
    pub service_version: String,
    pub host_name: String,
    pub service_name: String,
}

impl SlsMetadata {
    /// Assembles the exporter metadata: a missing credential value becomes
    /// the empty string rather than a failure, the host name tells a debug
    /// build from a production one, and a missing service name falls back
    /// to a fixed placeholder.
    pub fn assemble(
        project: Option<String>,
        instance_id: Option<String>,
        ak_id: Option<String>,
        ak_secret: Option<String>,
        service_version: &str,
        debug_build: bool,
        service_name: Option<String>,
    ) -> (r: Self)
        ensures
            r.project@ == or_default(project, Seq::<char>::empty()),
            r.instance_id@ == or_default(instance_id, Seq::<char>::empty()),
            r.ak_id@ == or_default(ak_id, Seq::<char>::empty()),
            r.ak_secret@ == or_default(ak_secret, Seq::<char>::empty()),
            r.service_version@ == service_version@,
            debug_build ==> r.host_name@ == "debug"@,
            !debug_build ==> r.host_name@ == "prod"@,
            r.service_name@ == or_default(service_name, "unknown-service-name"@),
    {
        SlsMetadata {
            project: unwrap_or_empty(project),
            instance_id: unwrap_or_empty(instance_id),
            ak_id: unwrap_or_empty(ak_id),
            ak_secret: unwrap_or_empty(ak_secret),
            service_version: String::from_str(service_version),
            host_name: if debug_build {
                String::from_str("debug")
            } else {
                String::from_str("prod")
            },
            service_name: match service_name {
                Some(s) => s,
                None => String::from_str("unknown-service-name"),
            },
        }
    }
}

/// The value itself, or the empty string when absent.
fn unwrap_or_empty(o: Option<String>) -> (r: String)
    ensures
        r@ == or_default(o, Seq::<char>::empty()),
{
    match o {
        Some(s) => s,
        None => String::new(),
    }
}

} // verus!
