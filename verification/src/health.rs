//! Basic status of the service.
//!
//! The numbers come from the machine at the moment of the request; the
//! surrounding program gathers them and builds this value, which is what
//! the health endpoint and the command line report.

use vstd::prelude::*;

verus! {

/// A snapshot of the process and its machine.
pub struct HealthStatus {
    pub free_memory: u64,
    pub total_memory: u64,
    pub cpus: usize,
    pub application: String,
    pub version: String,
}

impl Clone for HealthStatus {
    fn clone(&self) -> (res: Self)
        ensures
            res == *self,
    {
        HealthStatus {
            free_memory: self.free_memory,
            total_memory: self.total_memory,
            cpus: self.cpus,
            application: self.application.clone(),
            version: self.version.clone(),
        }
    }
}

} // verus!
