use mysticeti::client::local::{LocalClient, LOCALHOST, USERNAME};
use mysticeti::client::{Instance, InstanceStatus};

fn ids(instances: &[Instance]) -> Vec<String> {
    instances.iter().map(|i| i.id.clone()).collect()
}

fn statuses(client: &LocalClient) -> Vec<InstanceStatus> {
    client.list_instances().iter().map(|i| i.status).collect()
}

#[test]
fn a_new_client_holds_no_instance() {
    let client = LocalClient::new();
    assert!(client.list_instances().is_empty());
    assert_eq!(client.name(), "LocalClient");
    assert_eq!(USERNAME, "localhost");
    assert_eq!(LOCALHOST, [127, 0, 0, 1]);
}

#[test]
fn created_instances_are_active_and_local() {
    let mut client = LocalClient::new();
    let first = client.create_instance("us-east-1");
    let second = client.create_instance("anywhere");
    assert_eq!(first.id, "0");
    assert_eq!(second.id, "1");
    for instance in [&first, &second] {
        assert_eq!(instance.region, "local");
        assert_eq!(instance.specs, "local");
        assert_eq!(instance.main_ip, [127, 0, 0, 1]);
        assert!(instance.tags.is_empty());
        assert_eq!(instance.status, InstanceStatus::Active);
        assert!(instance.is_active());
        assert!(!instance.is_inactive());
    }
    assert_eq!(ids(&client.list_instances()), vec!["0", "1"]);
}

#[test]
fn the_identifier_is_the_number_of_instances_held() {
    let mut client = LocalClient::new();
    for expected in 0..12 {
        assert_eq!(client.create_instance("r").id, expected.to_string());
    }
    let third = client.list_instances().remove(3);
    client.delete_instance(&third);
    assert_eq!(client.create_instance("r").id, "11");
}

#[test]
fn stop_and_start_touch_the_chosen_instances_only() {
    let mut client = LocalClient::new();
    let a = client.create_instance("r");
    let _b = client.create_instance("r");
    let c = client.create_instance("r");
    client.stop_instances(&vec![a.clone(), c.clone()]);
    assert_eq!(
        statuses(&client),
        vec![InstanceStatus::Inactive, InstanceStatus::Active, InstanceStatus::Inactive]
    );
    assert!(client.list_instances()[0].is_inactive());
    client.start_instances(&vec![c]);
    assert_eq!(
        statuses(&client),
        vec![InstanceStatus::Inactive, InstanceStatus::Active, InstanceStatus::Active]
    );
    client.start_instances(&vec![]);
    client.stop_instances(&vec![]);
    assert_eq!(
        statuses(&client),
        vec![InstanceStatus::Inactive, InstanceStatus::Active, InstanceStatus::Active]
    );
    assert_eq!(ids(&client.list_instances()), vec!["0", "1", "2"]);
}

#[test]
fn instances_are_chosen_by_identifier_alone() {
    let mut client = LocalClient::new();
    client.create_instance("r");
    client.create_instance("r");
    let stranger = Instance {
        id: "1".to_string(),
        region: "elsewhere".to_string(),
        main_ip: [10, 0, 0, 1],
        tags: vec!["tag".to_string()],
        specs: "large".to_string(),
        status: InstanceStatus::Terminated,
    };
    client.stop_instances(&vec![stranger.clone()]);
    assert_eq!(statuses(&client), vec![InstanceStatus::Active, InstanceStatus::Inactive]);
    let listed = client.list_instances();
    assert_eq!(listed[1].region, "local");
    client.delete_instance(&stranger);
    assert_eq!(ids(&client.list_instances()), vec!["0"]);
}

#[test]
fn delete_keeps_the_others_in_order() {
    let mut client = LocalClient::new();
    let created: Vec<Instance> = (0..5).map(|_| client.create_instance("r")).collect();
    client.delete_instance(&created[2]);
    client.delete_instance(&created[0]);
    assert_eq!(ids(&client.list_instances()), vec!["1", "3", "4"]);
    client.delete_instance(&created[2]);
    assert_eq!(ids(&client.list_instances()), vec!["1", "3", "4"]);
}

#[test]
fn delete_removes_every_instance_of_that_identifier() {
    let mut client = LocalClient::new();
    let created: Vec<Instance> = (0..3).map(|_| client.create_instance("r")).collect();
    client.delete_instance(&created[0]);
    let again = client.create_instance("r");
    assert_eq!(again.id, "2");
    assert_eq!(ids(&client.list_instances()), vec!["1", "2", "2"]);
    client.delete_instance(&again);
    assert_eq!(ids(&client.list_instances()), vec!["1"]);
}

#[test]
fn a_copy_of_an_instance_holds_the_same_values() {
    let instance = Instance {
        id: "7".to_string(),
        region: "eu".to_string(),
        main_ip: [1, 2, 3, 4],
        tags: vec!["a".to_string(), "b".to_string()],
        specs: "small".to_string(),
        status: InstanceStatus::Terminated,
    };
    let copy = instance.clone();
    assert_eq!(copy.id, "7");
    assert_eq!(copy.region, "eu");
    assert_eq!(copy.main_ip, [1, 2, 3, 4]);
    assert_eq!(copy.tags, vec!["a", "b"]);
    assert_eq!(copy.specs, "small");
    assert_eq!(copy.status, InstanceStatus::Terminated);
}

#[test]
fn the_local_machine_needs_no_key_and_no_setup() {
    let client = LocalClient::new();
    client.register_ssh_public_key("ssh-ed25519 AAAA".to_string());
    assert!(client.instance_setup_commands().is_empty());
    assert!(client.list_instances().is_empty());
}
