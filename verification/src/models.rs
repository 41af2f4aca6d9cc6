//! Records that the operations share, with the plain values that they stand for.

use vstd::prelude::*;
use crate::time::Timestamp;

verus! {

/// Names with their values, as a map holds them; an environment or a set of port mappings.
pub type Pairs = Vec<(String, String)>;

/// The texts of a list of names with their values.
pub type PairTexts = Seq<(Seq<char>, Seq<char>)>;

/// A result by the values of what it holds.
pub open spec fn outcome<T: DeepView, E: DeepView>(r: Result<T, E>) -> Result<T::V, E::V> {
    match r {
        Ok(v) => Ok(v.deep_view()),
        Err(e) => Err(e.deep_view()),
    }
}

/// The answer to a request.
#[derive(Debug, PartialEq, Eq)]
pub enum ApiResponse<T> {
    Success(T),
    Error(String),
}

/// The answer to a request, by the values of what it holds.
pub enum ApiResponseValue<V> {
    Success(V),
    Error(Seq<char>),
}

impl<T: DeepView> DeepView for ApiResponse<T> {
    type V = ApiResponseValue<T::V>;

    open spec fn deep_view(&self) -> ApiResponseValue<T::V> {
        match self {
            ApiResponse::Success(v) => ApiResponseValue::Success(v.deep_view()),
            ApiResponse::Error(m) => ApiResponseValue::Error(m@),
        }
    }
}

impl<T: DeepView> ApiResponse<T> {
    /// A successful answer.
    pub fn success(data: T) -> (r: ApiResponse<T>)
        ensures
            r == ApiResponse::Success(data),
    {
        ApiResponse::Success(data)
    }

    /// A refusal with its reason.
    pub fn error(message: String) -> (r: ApiResponse<T>)
        ensures
            r == ApiResponse::<T>::Error(message),
    {
        ApiResponse::Error(message)
    }
}

/// A host port bound to a port of a container.
#[derive(Clone, Debug, PartialEq, Eq)]
pub struct PortAllocation {
    pub container_port: String,
    pub host_port: String,
    pub host_ip: String,
    pub protocol: String,
}

/// The texts of a port allocation.
pub struct PortAllocationTexts {
    pub container_port: Seq<char>,
    pub host_port: Seq<char>,
    pub host_ip: Seq<char>,
    pub protocol: Seq<char>,
}

impl DeepView for PortAllocation {
    type V = PortAllocationTexts;

    open spec fn deep_view(&self) -> PortAllocationTexts {
        PortAllocationTexts {
            container_port: self.container_port@,
            host_port: self.host_port@,
            host_ip: self.host_ip@,
            protocol: self.protocol@,
        }
    }
}

impl PortAllocation {
    /// A copy of the allocation.
    pub fn copy(&self) -> (r: PortAllocation)
        ensures
            r == *self,
    {
        PortAllocation {
            container_port: self.container_port.clone(),
            host_port: self.host_port.clone(),
            host_ip: self.host_ip.clone(),
            protocol: self.protocol.clone(),
        }
    }
}

/// The resource limits of a container as names with values. Nothing here reads them.
#[derive(Clone, Debug, PartialEq, Eq)]
pub struct ResourceLimits {
    pub settings: Pairs,
}

impl DeepView for ResourceLimits {
    type V = PairTexts;

    open spec fn deep_view(&self) -> PairTexts {
        self.settings.deep_view()
    }
}

impl Default for ResourceLimits {
    fn default() -> (r: ResourceLimits)
        ensures
            r.deep_view() == PairTexts::empty(),
    {
        let settings: Pairs = Vec::new();
        assert(settings.deep_view() =~= PairTexts::empty());
        ResourceLimits { settings }
    }
}

impl ResourceLimits {
    /// A copy of the limits.
    pub fn copy(&self) -> (r: ResourceLimits)
        ensures
            r.deep_view() == self.deep_view(),
    {
        ResourceLimits { settings: copy_pairs(&self.settings) }
    }
}

/// What is known of a container across recreations.
#[derive(Clone, Debug, PartialEq, Eq)]
pub struct ContainerTracker {
    pub custom_uuid: String,
    pub container_id: String,
    pub name: String,
    pub image: String,
    pub description: Option<String>,
    pub startup_command: Option<Vec<String>>,
    pub created_at: Timestamp,
    pub limits: ResourceLimits,
    pub allocated_ports: Vec<PortAllocation>,
    pub attached_volumes: Vec<String>,
    pub ports: Pairs,
    pub env: Option<Pairs>,
    pub status: String,
    pub install_content: Option<String>,
    pub update_content: Option<String>,
}

/// The values of a container's record.
pub struct ContainerTrackerValue {
    pub custom_uuid: Seq<char>,
    pub container_id: Seq<char>,
    pub name: Seq<char>,
    pub image: Seq<char>,
    pub description: Option<Seq<char>>,
    pub startup_command: Option<Seq<Seq<char>>>,
    pub created_at: Timestamp,
    pub limits: PairTexts,
    pub allocated_ports: Seq<PortAllocationTexts>,
    pub attached_volumes: Seq<Seq<char>>,
    pub ports: PairTexts,
    pub env: Option<PairTexts>,
    pub status: Seq<char>,
    pub install_content: Option<Seq<char>>,
    pub update_content: Option<Seq<char>>,
}

impl DeepView for ContainerTracker {
    type V = ContainerTrackerValue;

    open spec fn deep_view(&self) -> ContainerTrackerValue {
        ContainerTrackerValue {
            custom_uuid: self.custom_uuid@,
            container_id: self.container_id@,
            name: self.name@,
            image: self.image@,
            description: self.description.deep_view(),
            startup_command: self.startup_command.deep_view(),
            created_at: self.created_at,
            limits: self.limits.deep_view(),
            allocated_ports: self.allocated_ports.deep_view(),
            attached_volumes: self.attached_volumes.deep_view(),
            ports: self.ports.deep_view(),
            env: self.env.deep_view(),
            status: self.status@,
            install_content: self.install_content.deep_view(),
            update_content: self.update_content.deep_view(),
        }
    }
}

/// A container to be created.
#[derive(Clone, Debug, PartialEq, Eq)]
pub struct CreateContainerRequest {
    pub image: String,
    pub name: Option<String>,
    pub description: Option<String>,
    pub startup_command: Option<Vec<String>>,
    pub env: Option<Pairs>,
    pub ports: Option<Pairs>,
    pub volumes: Option<Vec<String>>,
    pub command: Option<Vec<String>>,
    pub working_dir: Option<String>,
    pub restart_policy: Option<String>,
    pub custom_uuid: Option<String>,
    pub limits: Option<ResourceLimits>,
    pub install_content: Option<String>,
    pub update_content: Option<String>,
}

/// The values of a request to create a container.
pub struct CreateContainerValue {
    pub image: Seq<char>,
    pub name: Option<Seq<char>>,
    pub description: Option<Seq<char>>,
    pub startup_command: Option<Seq<Seq<char>>>,
    pub env: Option<PairTexts>,
    pub ports: Option<PairTexts>,
    pub volumes: Option<Seq<Seq<char>>>,
    pub command: Option<Seq<Seq<char>>>,
    pub working_dir: Option<Seq<char>>,
    pub restart_policy: Option<Seq<char>>,
    pub custom_uuid: Option<Seq<char>>,
    pub limits: Option<PairTexts>,
    pub install_content: Option<Seq<char>>,
    pub update_content: Option<Seq<char>>,
}

impl DeepView for CreateContainerRequest {
    type V = CreateContainerValue;

    open spec fn deep_view(&self) -> CreateContainerValue {
        CreateContainerValue {
            image: self.image@,
            name: self.name.deep_view(),
            description: self.description.deep_view(),
            startup_command: self.startup_command.deep_view(),
            env: self.env.deep_view(),
            ports: self.ports.deep_view(),
            volumes: self.volumes.deep_view(),
            command: self.command.deep_view(),
            working_dir: self.working_dir.deep_view(),
            restart_policy: self.restart_policy.deep_view(),
            custom_uuid: self.custom_uuid.deep_view(),
            limits: self.limits.deep_view(),
            install_content: self.install_content.deep_view(),
            update_content: self.update_content.deep_view(),
        }
    }
}

/// A copy of a list of texts.
pub fn copy_texts(list: &Vec<String>) -> (r: Vec<String>)
    ensures
        r@ == list@,
        r.deep_view() == list.deep_view(),
{
    let mut r: Vec<String> = Vec::new();
    let mut i: usize = 0;
    while i < list.len()
        invariant
            i <= list@.len(),
            r@ == list@.take(i as int),
        decreases list@.len() - i,
    {
        r.push(list[i].clone());
        assert(list@.take(i as int).push(list@[i as int]) =~= list@.take(i + 1));
        i = i + 1;
    }
    assert(list@.take(i as int) =~= list@);
    r
}

/// A copy of names with their values.
pub fn copy_pairs(list: &Pairs) -> (r: Pairs)
    ensures
        r@ == list@,
        r.deep_view() == list.deep_view(),
{
    let mut r: Pairs = Vec::new();
    let mut i: usize = 0;
    while i < list.len()
        invariant
            i <= list@.len(),
            r@ == list@.take(i as int),
        decreases list@.len() - i,
    {
        r.push((list[i].0.clone(), list[i].1.clone()));
        assert(list@.take(i as int).push(list@[i as int]) =~= list@.take(i + 1));
        i = i + 1;
    }
    assert(list@.take(i as int) =~= list@);
    r
}

/// A copy of a list of port allocations.
pub fn copy_ports(list: &Vec<PortAllocation>) -> (r: Vec<PortAllocation>)
    ensures
        r@ == list@,
        r.deep_view() == list.deep_view(),
{
    let mut r: Vec<PortAllocation> = Vec::new();
    let mut i: usize = 0;
    while i < list.len()
        invariant
            i <= list@.len(),
            r@ == list@.take(i as int),
        decreases list@.len() - i,
    {
        r.push(list[i].copy());
        assert(list@.take(i as int).push(list@[i as int]) =~= list@.take(i + 1));
        i = i + 1;
    }
    assert(list@.take(i as int) =~= list@);
    r
}

/// A copy of a text that may be missing.
pub fn copy_text(text: &Option<String>) -> (r: Option<String>)
    ensures
        r == *text,
{
    match text {
        Some(t) => Some(t.clone()),
        None => None,
    }
}

/// A copy of a command that may be missing.
pub fn copy_command(command: &Option<Vec<String>>) -> (r: Option<Vec<String>>)
    ensures
        r.deep_view() == command.deep_view(),
{
    match command {
        Some(c) => Some(copy_texts(c)),
        None => None,
    }
}

/// A copy of an environment that may be missing.
pub fn copy_env(env: &Option<Pairs>) -> (r: Option<Pairs>)
    ensures
        r.deep_view() == env.deep_view(),
{
    match env {
        Some(e) => Some(copy_pairs(e)),
        None => None,
    }
}

} // verus!
