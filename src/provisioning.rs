//! Reading provisioning settings out of configuration nodes.

pub mod create_partition;
pub mod create_partition_table;

use vstd::prelude::*;
use crate::config::{
    arg_string, get_kdl_entry, kdl_value_to_string, nth_argument, result_view, Entry, Error, ErrorView, KdlType,
    Node, Value,
};
use crate::text::text_eq;
use crate::types::{
    text_of, type_from_keyword, PartitionTypeGuid,
};

verus! {

/// The filesystem a partition asks for; `Any` accepts whatever is there.
#[derive(Clone, Copy, Debug, PartialEq, Eq, Structural)]
pub enum FilesystemType {
    Fat32,
    F2fs,
    Ext4,
    Xfs,
    Swap,
    Any,
}

/// A filesystem requirement read from configuration.
#[derive(Debug)]
pub struct Filesystem {
    pub filesystem_type: FilesystemType,
    pub label: Option<String>,
    pub uuid: Option<String>,
}

/// The configuration name of a filesystem type.
pub open spec fn fs_type_name(t: FilesystemType) -> Seq<char> {
    match t {
        FilesystemType::Fat32 => "fat32"@,
        FilesystemType::Ext4 => "ext4"@,
        FilesystemType::F2fs => "f2fs"@,
        FilesystemType::Xfs => "xfs"@,
        FilesystemType::Swap => "swap"@,
        FilesystemType::Any => "any"@,
    }
}

/// The filesystem type with this configuration name, if any.
pub open spec fn fs_type_from_name(v: Seq<char>) -> Option<FilesystemType> {
    if v == "fat32"@ {
        Some(FilesystemType::Fat32)
    } else if v == "ext4"@ {
        Some(FilesystemType::Ext4)
    } else if v == "f2fs"@ {
        Some(FilesystemType::F2fs)
    } else if v == "xfs"@ {
        Some(FilesystemType::Xfs)
    } else if v == "swap"@ {
        Some(FilesystemType::Swap)
    } else if v == "any"@ {
        Some(FilesystemType::Any)
    } else {
        None
    }
}

/// The advice given for an unknown filesystem type.
pub open spec fn fs_type_advice() -> Seq<char> {
    "'fat32', 'ext4', 'f2fs', 'xfs' 'swap' and 'any' are supported"@
}

impl Default for FilesystemType {
    /// `Any`.
    fn default() -> (r: FilesystemType)
        ensures
            r == FilesystemType::Any,
    {
        FilesystemType::Any
    }
}

impl FilesystemType {
    /// The configuration name.
    pub fn name(&self) -> (r: &'static str)
        ensures
            r@ == fs_type_name(*self),
    {
        match self {
            FilesystemType::Fat32 => "fat32",
            FilesystemType::Ext4 => "ext4",
            FilesystemType::F2fs => "f2fs",
            FilesystemType::Xfs => "xfs",
            FilesystemType::Swap => "swap",
            FilesystemType::Any => "any",
        }
    }

    /// The type with this configuration name, if any.
    pub fn from_name(value: &str) -> (r: Option<FilesystemType>)
        ensures
            r == fs_type_from_name(value@),
    {
        if text_eq(value, "fat32") {
            Some(FilesystemType::Fat32)
        } else if text_eq(value, "ext4") {
            Some(FilesystemType::Ext4)
        } else if text_eq(value, "f2fs") {
            Some(FilesystemType::F2fs)
        } else if text_eq(value, "xfs") {
            Some(FilesystemType::Xfs)
        } else if text_eq(value, "swap") {
            Some(FilesystemType::Swap)
        } else if text_eq(value, "any") {
            Some(FilesystemType::Any)
        } else {
            None
        }
    }

    /// The type named by the string value of `entry`.
    pub fn from_kdl_property(entry: &Entry) -> (r: Result<FilesystemType, Error>)
        ensures
            match entry_type(*entry) {
                Ok(t) => r == Ok::<FilesystemType, Error>(t),
                Err(e) => r matches Err(x) && x@ == e,
            },
    {
        let value = kdl_value_to_string(entry)?;
        match FilesystemType::from_name(value.as_str()) {
            Some(t) => Ok(t),
            None => Err(
                Error::UnsupportedValue {
                    at: entry.span,
                    advice: Some(String::from_str("'fat32', 'ext4', 'f2fs', 'xfs' 'swap' and 'any' are supported")),
                },
            ),
        }
    }
}

/// The filesystem type an entry names.
pub open spec fn entry_type(e: Entry) -> Result<FilesystemType, ErrorView> {
    match e.value {
        Value::String(s) => match fs_type_from_name(s@) {
            Some(t) => Ok(t),
            None => Err(ErrorView::UnsupportedValue { at: e.span, advice: Some(fs_type_advice()) }),
        },
        _ => Err(ErrorView::InvalidType { at: e.span, expected_type: KdlType::String }),
    }
}

/// The filesystem type named by the first argument of `n`.
pub open spec fn arg_type(n: Node) -> Result<FilesystemType, ErrorView> {
    match nth_argument(n.entries@, 0) {
        None => Err(ErrorView::MissingEntry { at: n.span, id: "0"@, advice: None }),
        Some(k) => entry_type(n.entries@[k]),
    }
}

/// The settings read so far.
pub struct Requirement {
    pub fs_type: Option<FilesystemType>,
    pub label: Option<Seq<char>>,
    pub uuid: Option<Seq<char>>,
}

/// Read the settings of `children` in order on top of `acc`.
pub open spec fn read_requirement(children: Seq<Node>, acc: Requirement) -> Result<Requirement, ErrorView>
    decreases children.len(),
{
    if children.len() == 0 {
        Ok(acc)
    } else {
        let c = children[0];
        let rest = children.drop_first();
        if c.name@ == "type"@ {
            match arg_type(c) {
                Err(e) => Err(e),
                Ok(t) => read_requirement(rest, Requirement { fs_type: Some(t), ..acc }),
            }
        } else if c.name@ == "label"@ {
            match arg_string(c) {
                Err(e) => Err(e),
                Ok(v) => read_requirement(rest, Requirement { label: Some(v), ..acc }),
            }
        } else if c.name@ == "uuid"@ {
            match arg_string(c) {
                Err(e) => Err(e),
                Ok(v) => read_requirement(rest, Requirement { uuid: Some(v), ..acc }),
            }
        } else {
            Err(ErrorView::UnsupportedNode { at: c.span, name: c.name@ })
        }
    }
}

/// The requirement a `filesystem` node describes.
pub open spec fn requirement_of(node: Node) -> Result<Requirement, ErrorView> {
    match read_requirement(node.children@, Requirement { fs_type: None, label: None, uuid: None }) {
        Err(e) => Err(e),
        Ok(r) => if r.fs_type is Some {
            Ok(r)
        } else {
            Err(ErrorView::UnsupportedNode { at: node.span, name: "type"@ })
        },
    }
}

/// The first argument of `n`, as a string.
pub(crate) fn first_string(n: &Node) -> (r: Result<String, Error>)
    ensures
        match arg_string(*n) {
            Ok(v) => r matches Ok(s) && s@ == v,
            Err(e) => r matches Err(x) && x@ == e,
        },
{
    proof {
        reveal_strlit("0");
        assert(crate::text::decimal_text(0) =~= "0"@);
    }
    let entry = get_kdl_entry(n, 0)?;
    kdl_value_to_string(entry)
}

impl Filesystem {
    /// The requirement a `filesystem` node describes: its children set
    /// `type` (required), `label` and `uuid`.
    pub fn from_kdl_node(node: &Node) -> (r: Result<Filesystem, Error>)
        ensures
            match requirement_of(*node) {
                Ok(q) => r matches Ok(f) && Some(f.filesystem_type) == q.fs_type && text_of(f.label) == q.label
                    && text_of(f.uuid) == q.uuid,
                Err(e) => r matches Err(x) && x@ == e,
            },
    {
        let mut fs_type: Option<FilesystemType> = None;
        let mut label: Option<String> = None;
        let mut uuid: Option<String> = None;
        let ghost all = node.children@;
        let mut i: usize = 0;
        proof {
            assert(all.subrange(0, all.len() as int) =~= all);
            reveal_strlit("0");
            assert(crate::text::decimal_text(0) =~= "0"@);
        }
        while i < node.children.len()
            invariant
                i <= all.len(),
                all == node.children@,
                crate::text::decimal_text(0) == "0"@,
                read_requirement(all, Requirement { fs_type: None, label: None, uuid: None })
                    == read_requirement(all.subrange(i as int, all.len() as int), Requirement {
                        fs_type,
                        label: text_of(label),
                        uuid: text_of(uuid),
                    }),
            decreases all.len() - i,
        {
            let ghost rest = all.subrange(i as int, all.len() as int);
            proof {
                assert(rest.drop_first() =~= all.subrange(i + 1, all.len() as int));
                assert(rest[0] == all[i as int]);
            }
            let child = &node.children[i];
            if text_eq(child.name.as_str(), "type") {
                let entry = get_kdl_entry(child, 0)?;
                fs_type = Some(FilesystemType::from_kdl_property(entry)?);
            } else if text_eq(child.name.as_str(), "label") {
                label = Some(first_string(child)?);
            } else if text_eq(child.name.as_str(), "uuid") {
                uuid = Some(first_string(child)?);
            } else {
                return Err(Error::UnsupportedNode { at: child.span, name: child.name.clone() });
            }
            i = i + 1;
        }
        proof {
            assert(all.subrange(all.len() as int, all.len() as int) =~= Seq::<Node>::empty());
        }
        match fs_type {
            Some(filesystem_type) => Ok(Filesystem { filesystem_type, label, uuid }),
            None => Err(Error::UnsupportedNode { at: node.span, name: String::from_str("type") }),
        }
    }
}

/// The lower-case form of a string, as `str::to_lowercase` gives it.
pub uninterp spec fn lower_of(s: Seq<char>) -> Seq<char>;

/// Relies on `str::to_lowercase`: the result depends on the characters alone.
#[verifier::external_body]
fn lowercase(s: &str) -> (r: String)
    ensures
        r@ == lower_of(s@),
{
    s.to_lowercase()
}

/// The type annotations that select how a partition type is written.
#[derive(Clone, Copy, Debug, PartialEq, Eq, Structural)]
pub enum PartitionTypeKDL {
    GUID,
}

/// The advice given for an unsupported type annotation.
pub open spec fn annotation_advice() -> Seq<char> {
    "only '(GUID)' type is supported"@
}

impl PartitionTypeKDL {
    /// The annotation named by an already lower-cased type name: `guid`.
    pub fn from_type_name(lowered: &str, at: crate::config::Span) -> (r: Result<PartitionTypeKDL, Error>)
        ensures
            lowered@ == "guid"@ ==> r == Ok::<PartitionTypeKDL, Error>(PartitionTypeKDL::GUID),
            lowered@ != "guid"@ ==> (r matches Err(e) && e@ == (ErrorView::UnsupportedValue {
                at,
                advice: Some(annotation_advice()),
            })),
    {
        if text_eq(lowered, "guid") {
            Ok(PartitionTypeKDL::GUID)
        } else {
            Err(Error::UnsupportedValue { at, advice: Some(String::from_str("only '(GUID)' type is supported")) })
        }
    }

    /// The annotation on `id`, compared without regard to case; an entry
    /// without one has the empty name.
    pub fn from_kdl_type(id: &Entry) -> (r: Result<PartitionTypeKDL, Error>)
        ensures
            ({
                let name = match id.ty {
                    Some(t) => lower_of(t@),
                    None => Seq::<char>::empty(),
                };
                &&& name == "guid"@ ==> r == Ok::<PartitionTypeKDL, Error>(PartitionTypeKDL::GUID)
                &&& name != "guid"@ ==> (r matches Err(e) && e@ == (ErrorView::UnsupportedValue {
                    at: id.span,
                    advice: Some(annotation_advice()),
                }))
            }),
    {
        let name = match &id.ty {
            Some(t) => lowercase(t.as_str()),
            None => String::new(),
        };
        PartitionTypeKDL::from_type_name(name.as_str(), id.span)
    }
}

/// The advice given for an unknown partition type.
pub open spec fn partition_type_advice() -> Seq<char> {
    "'efi-system-partition', 'linux-swap' 'linux-extended-boot' and 'linux-fs' are supported"@
}

/// The partition type a `type` node names.
pub open spec fn partition_type_of(node: Node) -> Result<PartitionTypeGuid, ErrorView> {
    match arg_string(node) {
        Err(e) => Err(e),
        Ok(v) => match type_from_keyword(v) {
            Some(t) => Ok(t),
            None => Err(ErrorView::UnsupportedValue { at: node.span, advice: Some(partition_type_advice()) }),
        },
    }
}

impl PartitionTypeGuid {
    /// The partition type a `type` node names by its first argument.
    pub fn from_kdl_node(node: &Node) -> (r: Result<PartitionTypeGuid, Error>)
        ensures
            result_view(r) == partition_type_of(*node),
    {
        let value = first_string(node)?;
        match PartitionTypeGuid::from_keyword(value.as_str()) {
            Some(t) => Ok(t),
            None => Err(
                Error::UnsupportedValue {
                    at: node.span,
                    advice: Some(
                        String::from_str(
                            "'efi-system-partition', 'linux-swap' 'linux-extended-boot' and 'linux-fs' are supported",
                        ),
                    ),
                },
            ),
        }
    }
}

/// The kinds of command a strategy can hold.
#[derive(Clone, Copy, Debug, PartialEq, Eq, Structural)]
pub enum CommandKind {
    FindDisk,
    CreatePartition,
    CreatePartitionTable,
}

/// The command a node name stands for.
pub open spec fn command_of(name: Seq<char>) -> Option<CommandKind> {
    if name == "find-disk"@ {
        Some(CommandKind::FindDisk)
    } else if name == "create-partition"@ {
        Some(CommandKind::CreatePartition)
    } else if name == "create-partition-table"@ {
        Some(CommandKind::CreatePartitionTable)
    } else {
        None
    }
}

/// The command named `name`, if there is one.
pub fn command(name: &str) -> (r: Option<CommandKind>)
    ensures
        r == command_of(name@),
{
    if text_eq(name, "find-disk") {
        Some(CommandKind::FindDisk)
    } else if text_eq(name, "create-partition") {
        Some(CommandKind::CreatePartition)
    } else if text_eq(name, "create-partition-table") {
        Some(CommandKind::CreatePartitionTable)
    } else {
        None
    }
}

/// The command that `node` holds; an unknown name is unsupported.
pub fn parse_command(node: &Node) -> (r: Result<CommandKind, Error>)
    ensures
        match command_of(node.name@) {
            Some(k) => r == Ok::<CommandKind, Error>(k),
            None => r matches Err(e) && e@ == (ErrorView::UnsupportedNode { at: node.span, name: node.name@ }),
        },
{
    match command(node.name.as_str()) {
        Some(k) => Ok(k),
        None => Err(Error::UnsupportedNode { at: node.span, name: node.name.clone() }),
    }
}

/// A command of a strategy.
pub enum Command {
    CreatePartition(Box<create_partition::Command>),
    CreatePartitionTable(Box<create_partition_table::Command>),
    FindDisk,
}

} // verus!
