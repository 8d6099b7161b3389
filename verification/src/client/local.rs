//! A provider of instances that all are the local machine.

use vstd::prelude::*;
use vstd::string::to_string_from_display_ensures;
use crate::client::{Instance, InstanceStatus, InstanceView};

verus! {

/// The user name under which the local client reaches its instances. It is
/// not used: commands run on the local machine without a remote shell.
pub const USERNAME: &'static str = "localhost";

/// The octets of the address of the local machine.
pub const LOCALHOST: [u8; 4] = [127, 0, 0, 1];

/// Whether one of `chosen` has the identifier `id`.
pub open spec fn identifies(chosen: Seq<InstanceView>, id: Seq<char>) -> bool {
    exists|j: int| 0 <= j < chosen.len() && (#[trigger] chosen[j]).id == id
}

/// `all` after every instance with the identifier of one of `chosen` was
/// put in the state `status`.
pub open spec fn with_status_of(
    all: Seq<InstanceView>,
    chosen: Seq<InstanceView>,
    status: InstanceStatus,
) -> Seq<InstanceView> {
    Seq::new(
        all.len(),
        |i: int|
            if identifies(chosen, all[i].id) {
                all[i].with_status(status)
            } else {
                all[i]
            },
    )
}

/// `all` without the instances that have the identifier `id`, in the same order.
pub open spec fn without_id(all: Seq<InstanceView>, id: Seq<char>) -> Seq<InstanceView>
    decreases all.len(),
{
    if all.len() == 0 {
        Seq::empty()
    } else if all.last().id == id {
        without_id(all.drop_last(), id)
    } else {
        without_id(all.drop_last(), id).push(all.last())
    }
}

/// The views of a list of instances.
pub open spec fn views_of(instances: Seq<Instance>) -> Seq<InstanceView> {
    Seq::new(instances.len(), |i: int| instances[i]@)
}

/// Whether `instance` is what the local client creates under the
/// identifier `id`: an active instance on the local machine.
pub open spec fn is_local_instance(instance: InstanceView, id: Seq<char>) -> bool {
    &&& instance.id == id
    &&& instance.region == "local"@
    &&& instance.main_ip == LOCALHOST@
    &&& instance.tags.len() == 0
    &&& instance.specs == "local"@
    &&& instance.status == InstanceStatus::Active
}

/// A local client that creates localhost instances for running benchmarks locally.
/// This client creates virtual instances that all point to localhost (127.0.0.1),
/// allowing you to run benchmarks on your local machine without cloud instances.
///
/// Commands are executed directly on the local machine without SSH.
#[derive(Debug)]
pub struct LocalClient {
    instances: Vec<Instance>,
}

impl View for LocalClient {
    type V = Seq<InstanceView>;

    closed spec fn view(&self) -> Seq<InstanceView> {
        views_of(self.instances@)
    }
}

impl LocalClient {
    /// Create a new local client.
    pub fn new() -> (client: Self)
        ensures
            client@.len() == 0,
    {
        Self { instances: Vec::new() }
    }

    /// The name under which the client presents itself.
    pub fn name(&self) -> (name: &'static str)
        ensures
            name@ == "LocalClient"@,
    {
        "LocalClient"
    }

    /// The instances created and not deleted, in the order of their creation.
    pub fn list_instances(&self) -> (instances: Vec<Instance>)
        ensures
            views_of(instances@) == self@,
    {
        let mut instances: Vec<Instance> = Vec::new();
        let mut i: usize = 0;
        while i < self.instances.len()
            invariant
                i <= self.instances.len(),
                instances@.len() == i,
                forall|j: int| 0 <= j < i ==> (#[trigger] instances@[j])@ == self.instances@[j]@,
            decreases self.instances.len() - i,
        {
            instances.push(self.instances[i].clone());
            i += 1;
        }
        assert(views_of(instances@) =~= self@);
        instances
    }

    /// Whether one of `chosen` has the identifier `id`.
    fn identifies(chosen: &Vec<Instance>, id: &String) -> (found: bool)
        ensures
            found == identifies(views_of(chosen@), id@),
    {
        let mut j: usize = 0;
        while j < chosen.len()
            invariant
                j <= chosen.len(),
                forall|k: int| 0 <= k < j ==> (#[trigger] views_of(chosen@)[k]).id != id@,
            decreases chosen.len() - j,
        {
            if chosen[j].id == *id {
                assert(views_of(chosen@)[j as int].id == id@);
                return true;
            }
            j += 1;
        }
        false
    }

    /// Puts every instance with the identifier of one of `chosen` in the state `status`.
    fn set_status(&mut self, chosen: &Vec<Instance>, status: InstanceStatus)
        ensures
            final(self)@ == with_status_of(old(self)@, views_of(chosen@), status),
    {
        let ghost before = self@;
        let mut i: usize = 0;
        while i < self.instances.len()
            invariant
                i <= self.instances.len(),
                self@.len() == before.len(),
                self.instances@.len() == before.len(),
                forall|k: int|
                    0 <= k < i ==> (#[trigger] self@[k]) == with_status_of(
                        before,
                        views_of(chosen@),
                        status,
                    )[k],
                forall|k: int| i <= k < before.len() ==> (#[trigger] self@[k]) == before[k],
            decreases self.instances.len() - i,
        {
            let ghost held = self@;
            assert(held[i as int] == before[i as int]);
            if Self::identifies(chosen, &self.instances[i].id) {
                self.instances[i].status = status;
                assert(self@[i as int].tags =~= held[i as int].tags);
                assert(self@[i as int] == held[i as int].with_status(status));
            }
            assert forall|k: int| 0 <= k < before.len() && k != i implies (#[trigger] self@[k])
                == held[k] by {}
            i += 1;
        }
        assert(self@ =~= with_status_of(before, views_of(chosen@), status));
    }

    /// Marks as active every instance with the identifier of one of `instances`.
    pub fn start_instances(&mut self, instances: &Vec<Instance>)
        ensures
            final(self)@ == with_status_of(
                old(self)@,
                views_of(instances@),
                InstanceStatus::Active,
            ),
    {
        self.set_status(instances, InstanceStatus::Active);
    }

    /// Marks as inactive every instance with the identifier of one of `instances`.
    pub fn stop_instances(&mut self, instances: &Vec<Instance>)
        ensures
            final(self)@ == with_status_of(
                old(self)@,
                views_of(instances@),
                InstanceStatus::Inactive,
            ),
    {
        self.set_status(instances, InstanceStatus::Inactive);
    }

    /// Creates an active instance on the local machine, whatever the region
    /// asked for. Its identifier is the number of instances held, in
    /// decimal.
    pub fn create_instance(&mut self, _region: &str) -> (instance: Instance)
        ensures
            final(self)@ == old(self)@.push(instance@),
            is_local_instance(instance@, instance@.id),
            to_string_from_display_ensures::<usize>(&(old(self)@.len() as usize), instance.id),
    {
        let id: usize = self.instances.len();
        let instance = Instance {
            id: id.to_string(),
            region: String::from_str("local"),
            main_ip: LOCALHOST,
            tags: Vec::new(),
            specs: String::from_str("local"),
            status: InstanceStatus::Active,
        };
        let ghost before = self@;
        self.instances.push(instance.clone());
        assert(self@ =~= before.push(instance@));
        instance
    }

    /// Deletes the instances that have the identifier of `instance`.
    pub fn delete_instance(&mut self, instance: &Instance)
        ensures
            final(self)@ == without_id(old(self)@, instance@.id),
    {
        let ghost before = self@;
        let mut kept: Vec<Instance> = Vec::new();
        let mut i: usize = 0;
        while i < self.instances.len()
            invariant
                i <= self.instances.len(),
                self@ == before,
                views_of(kept@) == without_id(before.take(i as int), instance@.id),
            decreases self.instances.len() - i,
        {
            let ghost shorter = views_of(kept@);
            assert(before.take(i + 1).drop_last() =~= before.take(i as int));
            assert(before.take(i + 1).last() == self.instances@[i as int]@);
            if self.instances[i].id != instance.id {
                kept.push(self.instances[i].clone());
                assert(views_of(kept@) =~= shorter.push(self.instances@[i as int]@));
            }
            i += 1;
        }
        assert(before.take(i as int) =~= before);
        self.instances = kept;
    }

    /// Registers a public key with the provider: nothing to do on the local machine.
    pub fn register_ssh_public_key(&self, _public_key: String) {
    }

    /// The commands that set up a fresh instance: none, the local machine
    /// is expected to be set up.
    pub fn instance_setup_commands(&self) -> (commands: Vec<String>)
        ensures
            commands@.len() == 0,
    {
        Vec::new()
    }
}

} // verus!
