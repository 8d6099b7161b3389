use mysticeti::options::{
    instances_to_create, Operation, Opts, TestbedAction, DEFAULT_COMMITTEE, DEFAULT_LOAD,
    DEFAULT_SETTINGS_PATH, DEFAULT_START_INSTANCES,
};

#[test]
fn a_local_benchmark_creates_two_instances_more_than_it_needs() {
    assert_eq!(instances_to_create(4, 0, false), Some(6));
    assert_eq!(instances_to_create(4, 2, true), Some(9));
    assert_eq!(instances_to_create(10, 1, false), Some(13));
    assert_eq!(instances_to_create(2, 0, false), Some(4));
    assert_eq!(instances_to_create(1, 1, true), Some(5));
}

#[test]
fn a_local_benchmark_creates_at_least_four_instances() {
    assert_eq!(instances_to_create(0, 0, false), Some(4));
    assert_eq!(instances_to_create(0, 0, true), Some(4));
    assert_eq!(instances_to_create(1, 0, false), Some(4));
    assert_eq!(instances_to_create(1, 0, true), Some(4));
    assert_eq!(instances_to_create(1, 1, false), Some(4));
}

#[test]
fn instances_beyond_counting_are_not_created() {
    assert_eq!(instances_to_create(usize::MAX, 0, false), None);
    assert_eq!(instances_to_create(usize::MAX, 1, false), None);
    assert_eq!(instances_to_create(usize::MAX - 2, 0, true), None);
    assert_eq!(instances_to_create(usize::MAX - 2, 0, false), Some(usize::MAX));
    assert_eq!(instances_to_create(usize::MAX - 3, 0, true), Some(usize::MAX));
    assert_eq!(instances_to_create(1, usize::MAX, false), None);
}

#[test]
fn the_defaults_of_the_command_line() {
    assert_eq!(DEFAULT_SETTINGS_PATH, "crates/orchestrator/assets/settings.yml");
    assert_eq!(DEFAULT_COMMITTEE, 4);
    assert_eq!(DEFAULT_LOAD, 200);
    assert_eq!(DEFAULT_START_INSTANCES, 10);
}

#[test]
fn options_hold_an_operation() {
    let opts = Opts {
        settings_path: DEFAULT_SETTINGS_PATH.to_string(),
        operation: Operation::Benchmark {
            committee: DEFAULT_COMMITTEE,
            loads: vec![DEFAULT_LOAD],
            skip_testbed_update: false,
            skip_testbed_configuration: false,
        },
    };
    assert!(opts.operation.is_benchmark());
    let deploy = Operation::Testbed {
        action: TestbedAction::Deploy { instances: 3, region: Some("eu".to_string()) },
    };
    assert!(!deploy.is_benchmark());
    assert!(!Operation::Summarize { path: "m.json".to_string() }.is_benchmark());
    assert!(!Operation::Testbed { action: TestbedAction::Status }.is_benchmark());
}
