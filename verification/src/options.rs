//! What the operator asks the orchestrator to do.

use vstd::prelude::*;

verus! {

/// The orchestrator command line options.
#[derive(Debug)]
pub struct Opts {
    /// The path to the settings file. This file contains basic information to deploy testbeds
    /// and run benchmarks such as the url of the git repo, the commit to deploy, etc.
    pub settings_path: String,
    /// The type of operation to run.
    pub operation: Operation,
}

/// The type of operation to run.
#[derive(Debug)]
pub enum Operation {
    /// Read or modify the status of the testbed.
    Testbed {
        /// The action to perform on the testbed.
        action: TestbedAction,
    },
    /// Deploy nodes and run a benchmark on the specified testbed.
    Benchmark {
        /// The committee size to deploy.
        committee: usize,
        /// The set of loads to submit to the system (tx/s). Each load triggers a separate
        /// benchmark run. Setting a load to zero will not deploy any benchmark clients
        /// (useful to boot testbeds designed to run with external clients and load generators).
        loads: Vec<usize>,
        /// Whether to skip testbed updates before running benchmarks. This is a dangerous
        /// operation as it may lead to running benchmarks on outdated nodes. It is however
        /// useful when debugging in some specific scenarios.
        skip_testbed_update: bool,
        /// Whether to skip testbed configuration before running benchmarks. This is a dangerous
        /// operation as it may lead to running benchmarks on misconfigured nodes. It is however
        /// useful when debugging in some specific scenarios.
        skip_testbed_configuration: bool,
    },
    /// Print a summary of the specified measurements collection.
    Summarize {
        /// The path to the settings file.
        path: String,
    },
}

/// The action to perform on the testbed.
#[derive(Debug)]
pub enum TestbedAction {
    /// Display the testbed status.
    Status,
    /// Deploy the specified number of instances in all regions specified by in the setting file.
    Deploy {
        /// Number of instances to deploy.
        instances: usize,
        /// The region where to deploy the instances. If this parameter is not specified, the
        /// command deploys the specified number of instances in all regions listed in the
        /// setting file.
        region: Option<String>,
    },
    /// Start at most the specified number of instances per region on an existing testbed.
    Start {
        /// Number of instances to deploy.
        instances: usize,
    },
    /// Stop an existing testbed (without destroying the instances).
    Stop,
    /// Destroy the testbed and terminate all instances.
    Destroy,
}

/// The settings file read unless the operator names another.
pub const DEFAULT_SETTINGS_PATH: &'static str = "crates/orchestrator/assets/settings.yml";

/// The committee size deployed unless the operator names another.
pub const DEFAULT_COMMITTEE: usize = 4;

/// The load submitted unless the operator names others.
pub const DEFAULT_LOAD: usize = 200;

/// The number of instances started per region unless the operator names another.
pub const DEFAULT_START_INSTANCES: usize = 10;

/// The instances a local benchmark needs: the committee, the dedicated
/// clients and, with monitoring, one to monitor.
pub open spec fn instances_needed(committee: nat, dedicated_clients: nat, monitoring: bool) -> nat {
    committee + dedicated_clients + if monitoring {
        1nat
    } else {
        0nat
    }
}

/// The instances to create for a local benchmark when there are none: two
/// more than it needs, and at least four.
pub open spec fn spec_instances_to_create(
    committee: nat,
    dedicated_clients: nat,
    monitoring: bool,
) -> nat {
    if instances_needed(committee, dedicated_clients, monitoring) + 2 >= 4 {
        instances_needed(committee, dedicated_clients, monitoring) + 2
    } else {
        4
    }
}

/// The instances to create for a local benchmark when there are none, or
/// nothing if their number cannot be counted.
pub fn instances_to_create(committee: usize, dedicated_clients: usize, monitoring: bool) -> (count:
    Option<usize>)
    ensures
        match count {
            Some(count) => count == spec_instances_to_create(
                committee as nat,
                dedicated_clients as nat,
                monitoring,
            ),
            None => spec_instances_to_create(committee as nat, dedicated_clients as nat, monitoring)
                > usize::MAX,
        },
{
    let monitor: usize = if monitoring {
        1
    } else {
        0
    };
    let nodes = match committee.checked_add(dedicated_clients) {
        Some(nodes) => nodes,
        None => {
            return None;
        },
    };
    let needed = match nodes.checked_add(monitor) {
        Some(needed) => needed,
        None => {
            return None;
        },
    };
    match needed.checked_add(2) {
        Some(padded) => if padded >= 4 {
            Some(padded)
        } else {
            Some(4)
        },
        None => None,
    }
}

impl Operation {
    /// Whether the operation runs benchmarks.
    pub fn is_benchmark(&self) -> (benchmark: bool)
        ensures
            benchmark == (self is Benchmark),
    {
        match self {
            Operation::Benchmark { .. } => true,
            _ => false,
        }
    }
}

} // verus!
