//! Decoration carried by a planned partition.

use vstd::prelude::*;
use crate::types::{Filesystem, GptPartitionType, PartitionRole};

verus! {

/// What a GPT entry records of a partition.
#[derive(Clone, Debug)]
pub struct GptAttributes {
    /// The partition's type.
    pub type_guid: GptPartitionType,
    /// Optional name for the entry.
    pub name: Option<String>,
    /// Optional partition UUID.
    pub uuid: Option<[u8; 16]>,
}

/// Attributes for each partition-table flavour.
#[derive(Clone, Debug)]
pub enum TableAttributes {
    /// GPT attributes.
    Gpt(GptAttributes),
}

/// Everything attached to a planned partition.
#[derive(Clone, Debug)]
pub struct PartitionAttributes {
    pub table: TableAttributes,
    pub role: Option<PartitionRole>,
    pub filesystem: Option<Filesystem>,
}

impl Default for GptAttributes {
    /// Basic data, without name or UUID.
    fn default() -> (r: GptAttributes)
        ensures
            r.type_guid == GptPartitionType::Basic,
            r.name is None,
            r.uuid is None,
    {
        GptAttributes { type_guid: GptPartitionType::Basic, name: None, uuid: None }
    }
}

impl TableAttributes {
    /// The GPT attributes, for a GPT partition.
    pub fn as_gpt(&self) -> (r: Option<&GptAttributes>)
        ensures
            match self {
                TableAttributes::Gpt(g) => r == Some(g),
            },
    {
        match self {
            TableAttributes::Gpt(attr) => Some(attr),
        }
    }
}

} // verus!
