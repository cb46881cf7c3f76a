//! A Terraform state: resources with their instances and attributes, and outputs.
use vstd::prelude::*;

use crate::json::number_display;
use crate::json::number_text;
use crate::map::SortedMap;
use crate::text::same_text;
use crate::value::Json;
use crate::value::JsonView;

verus! {

/// A state snapshot.
#[derive(Debug)]
pub struct TfState {
    pub terraform_version: String,
    pub serial: u64,
    pub lineage: String,
    pub outputs: SortedMap<OutputValue>,
    pub resources: Vec<ResourceState>,
}

/// An output: its value, and whether the state marks it as sensitive.
#[derive(Debug)]
pub struct OutputValue {
    pub value: Json,
    pub sensitive: bool,
}

/// A resource with its instances.
#[derive(Debug)]
pub struct ResourceState {
    pub module: String,
    pub mode: String,
    pub resource_type: String,
    pub name: String,
    pub instances: Vec<InstanceState>,
}

/// One instance of a resource. A resource made with `count` or `for_each` has an
/// instance for each index key.
#[derive(Debug)]
pub struct InstanceState {
    pub index_key: Option<Json>,
    pub attributes: Json,
    pub sensitive_attributes: Vec<Json>,
}

/// What an output holds.
pub struct OutputView {
    pub value: JsonView,
    pub sensitive: bool,
}

/// What a comparison reads of a resource.
pub struct ResourceView {
    pub module: Seq<char>,
    pub mode: Seq<char>,
    pub resource_type: Seq<char>,
    pub name: Seq<char>,
    pub instances: Seq<InstanceView>,
}

/// What a comparison reads of an instance.
pub struct InstanceView {
    pub index_key: Option<JsonView>,
    pub attributes: JsonView,
}

impl View for OutputValue {
    type V = OutputView;

    open spec fn view(&self) -> OutputView {
        OutputView { value: self.value@, sensitive: self.sensitive }
    }
}

impl View for InstanceState {
    type V = InstanceView;

    open spec fn view(&self) -> InstanceView {
        InstanceView {
            index_key: match self.index_key {
                Some(key) => Some(key@),
                None => None,
            },
            attributes: self.attributes@,
        }
    }
}

impl View for ResourceState {
    type V = ResourceView;

    open spec fn view(&self) -> ResourceView {
        ResourceView {
            module: self.module@,
            mode: self.mode@,
            resource_type: self.resource_type@,
            name: self.name@,
            instances: self.instances@.map_values(|i: InstanceState| i@),
        }
    }
}

/// What a list of resources holds.
pub open spec fn resource_views(resources: Seq<ResourceState>) -> Seq<ResourceView> {
    resources.map_values(|r: ResourceState| r@)
}

/// What a map of outputs holds.
pub open spec fn output_views(outputs: SortedMap<OutputValue>) -> Map<Seq<char>, OutputView> {
    outputs@.map_values(|o: OutputValue| o@)
}

/// What a comparison reads of a state.
pub struct StateView {
    pub serial: u64,
    pub lineage: Seq<char>,
    pub outputs: Map<Seq<char>, OutputView>,
    pub resources: Seq<ResourceView>,
}

impl View for TfState {
    type V = StateView;

    open spec fn view(&self) -> StateView {
        StateView {
            serial: self.serial,
            lineage: self.lineage@,
            outputs: output_views(self.outputs),
            resources: resource_views(self.resources@),
        }
    }
}

/// The mode of a resource that does not say its mode.
pub fn default_mode() -> (mode: String)
    ensures
        mode@ == "managed"@,
{
    "managed".to_owned()
}

/// What an index key adds to an address: a text in brackets and quotes, a number
/// in brackets, and nothing for any other key or for none.
pub open spec fn index_suffix(index_key: Option<JsonView>) -> Seq<char> {
    match index_key {
        Some(JsonView::String(s)) => seq!['[', '"'] + s + seq!['"', ']'],
        Some(JsonView::Num(n)) => seq!['['] + number_text(n) + seq![']'],
        _ => seq![],
    }
}

/// The address of a resource instance: the module with a dot where there is a
/// module, `data.` for a data source, the type, a dot, the name, and what the
/// index key adds.
pub open spec fn address(resource: ResourceView, index_key: Option<JsonView>) -> Seq<char> {
    let module = if resource.module.len() == 0 {
        seq![]
    } else {
        resource.module.push('.')
    };
    let data = if resource.mode == "data"@ {
        "data."@
    } else {
        seq![]
    };
    module + data + resource.resource_type + seq!['.'] + resource.name + index_suffix(index_key)
}

/// The address of a resource instance as Terraform writes it, such as
/// `module.vpc.aws_subnet.private["us-east-1a"]` or `data.aws_ami.ubuntu`.
pub fn resource_address(resource: &ResourceState, index_key: Option<&Json>) -> (addr: String)
    ensures
        addr@ == address(
            resource@,
            match index_key {
                Some(key) => Some(key@),
                None => None,
            },
        ),
{
    let mut addr = String::new();
    if !resource.module.as_str().is_empty() {
        addr.push_str(resource.module.as_str());
        addr.push('.');
    }
    if same_text(resource.mode.as_str(), "data") {
        addr.push_str("data.");
    }
    addr.push_str(resource.resource_type.as_str());
    addr.push('.');
    addr.push_str(resource.name.as_str());
    match index_key {
        Some(Json::String(s)) => {
            addr.push('[');
            addr.push('"');
            addr.push_str(s.as_str());
            addr.push('"');
            addr.push(']');
        },
        Some(Json::Num(n)) => {
            addr.push('[');
            addr.push_str(number_display(n).as_str());
            addr.push(']');
        },
        _ => {},
    }
    assert(addr@ =~= address(
        resource@,
        match index_key {
            Some(key) => Some(key@),
            None => None,
        },
    ));
    addr
}

} // verus!
