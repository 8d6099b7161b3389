//! The machines of a testbed, as a cloud provider reports them.

use vstd::prelude::*;

pub mod local;

verus! {

/// Whether an instance is up.
#[derive(Clone, Copy, Debug, PartialEq, Eq, Structural, Hash)]
pub enum InstanceStatus {
    Active,
    Inactive,
    Terminated,
}

/// What an instance is, as mathematics.
pub struct InstanceView {
    pub id: Seq<char>,
    pub region: Seq<char>,
    pub main_ip: Seq<u8>,
    pub tags: Seq<Seq<char>>,
    pub specs: Seq<char>,
    pub status: InstanceStatus,
}

impl InstanceView {
    /// The same instance in the state `status`.
    pub open spec fn with_status(self, status: InstanceStatus) -> InstanceView {
        InstanceView { status, ..self }
    }
}

/// One machine of the testbed.
#[derive(Debug)]
pub struct Instance {
    /// The identifier that the provider gave the instance.
    pub id: String,
    /// The region the instance runs in.
    pub region: String,
    /// The four octets of the instance's public address.
    pub main_ip: [u8; 4],
    /// The labels attached to the instance.
    pub tags: Vec<String>,
    /// The kind of machine.
    pub specs: String,
    /// Whether the instance is up.
    pub status: InstanceStatus,
}

impl View for Instance {
    type V = InstanceView;

    open spec fn view(&self) -> InstanceView {
        InstanceView {
            id: self.id@,
            region: self.region@,
            main_ip: self.main_ip@,
            tags: Seq::new(self.tags@.len(), |i: int| self.tags@[i]@),
            specs: self.specs@,
            status: self.status,
        }
    }
}

impl Instance {
    /// Whether the instance is up.
    pub fn is_active(&self) -> (active: bool)
        ensures
            active == (self@.status == InstanceStatus::Active),
    {
        self.status == InstanceStatus::Active
    }

    /// Whether the instance is down but not gone.
    pub fn is_inactive(&self) -> (inactive: bool)
        ensures
            inactive == (self@.status == InstanceStatus::Inactive),
    {
        self.status == InstanceStatus::Inactive
    }
}

impl Clone for Instance {
    fn clone(&self) -> (copy: Self)
        ensures
            copy@ == self@,
    {
        let mut tags: Vec<String> = Vec::new();
        let mut i: usize = 0;
        while i < self.tags.len()
            invariant
                i <= self.tags.len(),
                tags@.len() == i,
                forall|j: int| 0 <= j < i ==> (#[trigger] tags@[j])@ == self.tags@[j]@,
            decreases self.tags.len() - i,
        {
            tags.push(self.tags[i].clone());
            i += 1;
        }
        let copy = Instance {
            id: self.id.clone(),
            region: self.region.clone(),
            main_ip: self.main_ip,
            tags,
            specs: self.specs.clone(),
            status: self.status,
        };
        assert(copy@.tags =~= self@.tags);
        copy
    }
}

} // verus!
