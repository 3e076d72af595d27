//! The `create-partition-table` command.

use vstd::prelude::*;
use crate::config::{get_kdl_property, get_property_str, kdl_value_to_string, property_string, Error, Node};
use crate::text::text_eq;

verus! {

/// The partition table flavours.
#[derive(Clone, Copy, Debug, PartialEq, Eq, Structural)]
pub enum PartitionTableType {
    Gpt,
}

/// A request to create a partition table on a disk.
#[derive(Debug)]
pub struct Command {
    pub table_type: PartitionTableType,
    pub disk: String,
}

/// What a `create-partition-table` node asks for: its `type` property
/// (only `gpt`) and its `disk` property.
pub fn parse(node: &Node) -> (r: Result<Command, Error>)
    ensures
        match property_string(*node, "type"@) {
            Err(e) => r matches Err(x) && x@ == e,
            Ok(t) => if t != "gpt"@ {
                r matches Err(x) && x is UnsupportedValue
            } else {
                match property_string(*node, "disk"@) {
                    Err(e) => r matches Err(x) && x@ == e,
                    Ok(d) => r matches Ok(c) && c.disk@ == d && c.table_type == PartitionTableType::Gpt,
                }
            },
        },
{
    let kind = get_kdl_property(node, "type")?;
    let value = kdl_value_to_string(kind)?;
    if !text_eq(value.as_str(), "gpt") {
        return Err(Error::UnsupportedValue { at: kind.span, advice: Some(String::from_str("only 'gpt' is supported")) });
    }
    let disk = get_property_str(node, "disk")?;
    Ok(Command { table_type: PartitionTableType::Gpt, disk })
}

} // verus!
