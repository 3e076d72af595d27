//! The `create-partition` command.

use vstd::prelude::*;
use crate::attributes::{GptAttributes, PartitionAttributes, TableAttributes};
use crate::config::{
    filesystem_of, get_kdl_entry, get_kdl_property, get_property_str, last_named, nth_argument, property_string,
    result_view, Entry, Error, ErrorView, KdlType, Node, Value,
};
use crate::provisioning::{annotation_advice, lower_of, partition_type_of, PartitionTypeKDL};
use crate::strategy::SizeRequirement;
use crate::text::text_eq;
use crate::types::{
    gpt_type_for, partition_type_name, role_from_keyword, text_of, Filesystem, FilesystemView, GptPartitionType,
    PartitionRole, PartitionTypeGuid,
};

verus! {

/// A request to create a partition, as a configuration states it.
#[derive(Debug)]
pub struct Command {
    /// The disk to create the partition on.
    pub disk: String,
    /// The configuration's reference for the partition.
    pub id: String,
    /// What the partition is for.
    pub role: Option<PartitionRole>,
    /// The partition's type.
    pub partition_type: Option<PartitionTypeGuid>,
    /// The size bounds of the partition.
    pub constraints: Constraints,
    /// The filesystem to create on it.
    pub filesystem: Option<Filesystem>,
}

/// A copy of a filesystem.
fn copy_filesystem(fs: &Filesystem) -> (r: Filesystem)
    ensures
        r@ == fs@,
{
    match fs {
        Filesystem::Fat32 { label, volume_id } => Filesystem::Fat32 {
            label: match label {
                Some(l) => Some(l.clone()),
                None => None,
            },
            volume_id: *volume_id,
        },
        Filesystem::Standard { filesystem_type, label, uuid } => Filesystem::Standard {
            filesystem_type: *filesystem_type,
            label: match label {
                Some(l) => Some(l.clone()),
                None => None,
            },
            uuid: match uuid {
                Some(u) => Some(u.clone()),
                None => None,
            },
        },
    }
}

impl Command {
    /// The attributes the planned partition carries: the GPT type of the
    /// configured partition type (basic data when none) named after it,
    /// the role, and the filesystem.
    pub fn attributes(&self) -> (r: PartitionAttributes)
        ensures
            ({
                let TableAttributes::Gpt(g) = r.table;
                &&& g.type_guid == match self.partition_type {
                    Some(p) => gpt_type_for(p),
                    None => GptPartitionType::Basic,
                }
                &&& text_of(g.name) == match self.partition_type {
                    Some(p) => Some(partition_type_name(p)),
                    None => None,
                }
                &&& g.uuid is None
            }),
            r.role == self.role,
            match self.filesystem {
                Some(f) => r.filesystem matches Some(x) && x@ == f@,
                None => r.filesystem is None,
            },
    {
        let (type_guid, name) = match &self.partition_type {
            Some(p) => (p.as_guid(), Some(String::from_str(p.name()))),
            None => (GptPartitionType::Basic, None),
        };
        PartitionAttributes {
            table: TableAttributes::Gpt(GptAttributes { type_guid, name, uuid: None }),
            role: self.role,
            filesystem: match &self.filesystem {
                Some(f) => Some(copy_filesystem(f)),
                None => None,
            },
        }
    }
}

/// The size bounds a configuration puts on a partition.
#[derive(Clone, Copy, Debug, PartialEq, Eq, Structural)]
pub struct Constraints {
    pub min: Option<u64>,
    pub max: Option<u64>,
}

/// Bytes in one unit of a size annotation: `B`, `KiB`, `MiB`, `GiB`, `TiB`.
pub open spec fn unit_of(ty: Option<Seq<char>>) -> Option<u64> {
    match ty {
        None => None,
        Some(t) => if t == "B"@ {
            Some(1u64)
        } else if t == "KiB"@ {
            Some(1024u64)
        } else if t == "MiB"@ {
            Some(1048576u64)
        } else if t == "GiB"@ {
            Some(1073741824u64)
        } else if t == "TiB"@ {
            Some(1099511627776u64)
        } else {
            None
        },
    }
}

/// The advice given for a size without a known unit.
pub open spec fn unit_advice() -> Seq<char> {
    "sizes need a unit: (B), (KiB), (MiB), (GiB) or (TiB)"@
}

/// The advice given for a size that does not fit.
pub open spec fn range_advice() -> Seq<char> {
    "sizes must be between 0 and 16 EiB"@
}

/// The size in bytes that an entry states.
pub open spec fn entry_size(e: Entry) -> Result<u64, ErrorView> {
    match e.value {
        Value::Integer(n) => match unit_of(text_of(e.ty)) {
            None => Err(ErrorView::UnsupportedValue { at: e.span, advice: Some(unit_advice()) }),
            Some(u) => if n < 0 || n * u > u64::MAX {
                Err(ErrorView::UnsupportedValue { at: e.span, advice: Some(range_advice()) })
            } else {
                Ok((n * u) as u64)
            },
        },
        _ => Err(ErrorView::InvalidType { at: e.span, expected_type: KdlType::Integer }),
    }
}

/// The size stated by the first argument of `n`.
pub open spec fn arg_size(n: Node) -> Result<u64, ErrorView> {
    match nth_argument(n.entries@, 0) {
        None => Err(ErrorView::MissingEntry { at: n.span, id: "0"@, advice: None }),
        Some(k) => entry_size(n.entries@[k]),
    }
}

/// Read `min` and `max` children in order on top of `acc`.
pub open spec fn read_constraints(children: Seq<Node>, acc: Constraints) -> Result<Constraints, ErrorView>
    decreases children.len(),
{
    if children.len() == 0 {
        Ok(acc)
    } else {
        let c = children[0];
        if c.name@ == "min"@ {
            match arg_size(c) {
                Err(e) => Err(e),
                Ok(v) => read_constraints(children.drop_first(), Constraints { min: Some(v), ..acc }),
            }
        } else if c.name@ == "max"@ {
            match arg_size(c) {
                Err(e) => Err(e),
                Ok(v) => read_constraints(children.drop_first(), Constraints { max: Some(v), ..acc }),
            }
        } else {
            Err(ErrorView::UnsupportedNode { at: c.span, name: c.name@ })
        }
    }
}

/// The size in bytes that an entry states.
fn storage_size(e: &Entry) -> (r: Result<u64, Error>)
    ensures
        result_view(r) == entry_size(*e),
{
    let n = match &e.value {
        Value::Integer(n) => *n,
        _ => {
            return Err(Error::InvalidType { at: e.span, expected_type: KdlType::Integer });
        },
    };
    let unit: Option<u64> = match &e.ty {
        None => None,
        Some(t) => if text_eq(t.as_str(), "B") {
            Some(1)
        } else if text_eq(t.as_str(), "KiB") {
            Some(1024)
        } else if text_eq(t.as_str(), "MiB") {
            Some(1048576)
        } else if text_eq(t.as_str(), "GiB") {
            Some(1073741824)
        } else if text_eq(t.as_str(), "TiB") {
            Some(1099511627776)
        } else {
            None
        },
    };
    let u = match unit {
        Some(u) => u,
        None => {
            return Err(Error::UnsupportedValue {
                at: e.span,
                advice: Some(String::from_str("sizes need a unit: (B), (KiB), (MiB), (GiB) or (TiB)")),
            });
        },
    };
    if n < 0 || n > (u64::MAX / u) as i128 {
        proof {
            if n >= 0 {
                assert(n * u > u64::MAX) by (nonlinear_arith)
                    requires
                        n > (u64::MAX / u) as int,
                        u > 0,
                ;
            }
        }
        return Err(Error::UnsupportedValue { at: e.span, advice: Some(String::from_str("sizes must be between 0 and 16 EiB")) });
    }
    proof {
        assert(n * u <= u64::MAX) by (nonlinear_arith)
            requires
                0 <= n <= (u64::MAX / u) as int,
                u > 0,
        ;
    }
    Ok((n as u64) * u)
}

impl Constraints {
    /// The bounds a `constraints` node states with `min` and `max` children.
    pub fn from_kdl_node(node: &Node) -> (r: Result<Constraints, Error>)
        ensures
            result_view(r) == read_constraints(node.children@, Constraints { min: None, max: None }),
    {
        let mut acc = Constraints { min: None, max: None };
        let ghost all = node.children@;
        let mut i: usize = 0;
        proof {
            assert(all.subrange(0, all.len() as int) =~= all);
            reveal_strlit("0");
            assert(crate::text::decimal_text(0) =~= "0"@);
        }
        while i < node.children.len()
            invariant
                i <= all.len(),
                all == node.children@,
                crate::text::decimal_text(0) == "0"@,
                read_constraints(all, Constraints { min: None, max: None }) == read_constraints(
                    all.subrange(i as int, all.len() as int),
                    acc,
                ),
            decreases all.len() - i,
        {
            let ghost rest = all.subrange(i as int, all.len() as int);
            proof {
                assert(rest.drop_first() =~= all.subrange(i + 1, all.len() as int));
                assert(rest[0] == all[i as int]);
            }
            let child = &node.children[i];
            if text_eq(child.name.as_str(), "min") {
                let entry = get_kdl_entry(child, 0)?;
                acc.min = Some(storage_size(entry)?);
            } else if text_eq(child.name.as_str(), "max") {
                let entry = get_kdl_entry(child, 0)?;
                acc.max = Some(storage_size(entry)?);
            } else {
                return Err(Error::UnsupportedNode { at: child.span, name: child.name.clone() });
            }
            i = i + 1;
        }
        proof {
            assert(all.subrange(all.len() as int, all.len() as int) =~= Seq::<Node>::empty());
        }
        Ok(acc)
    }

    /// Whether at least one bound is given.
    pub fn is_valid(&self) -> (r: bool)
        ensures
            r == (self.min is Some || self.max is Some),
    {
        self.min.is_some() || self.max.is_some()
    }

    /// The size requirement the bounds make: equal bounds are an exact
    /// size, a minimum alone is at-least, a maximum alone ranges up from 0,
    /// and no bound takes what remains.
    pub fn size_requirement(&self) -> (r: SizeRequirement)
        ensures
            r == match (self.min, self.max) {
                (Some(a), Some(b)) => if a == b {
                    SizeRequirement::Exact(a)
                } else {
                    SizeRequirement::Range { min: a, max: b }
                },
                (Some(a), None) => SizeRequirement::AtLeast(a),
                (None, Some(b)) => SizeRequirement::Range { min: 0, max: b },
                (None, None) => SizeRequirement::Remaining,
            },
    {
        match (self.min, self.max) {
            (Some(a), Some(b)) => if a == b {
                SizeRequirement::Exact(a)
            } else {
                SizeRequirement::Range { min: a, max: b }
            },
            (Some(a), None) => SizeRequirement::AtLeast(a),
            (None, Some(b)) => SizeRequirement::Range { min: 0, max: b },
            (None, None) => SizeRequirement::Remaining,
        }
    }
}

/// The advice given for an unknown role.
pub open spec fn role_advice() -> Seq<char> {
    "'efi', 'boot', 'extended-boot', 'root', 'home' and 'swap' are supported"@
}

/// The role set by the `role` property of `node`, if it has one.
pub open spec fn role_of(node: Node) -> Result<Option<PartitionRole>, ErrorView> {
    match last_named(node.entries@, "role"@) {
        None => Ok(None),
        Some(k) => {
            let e = node.entries@[k];
            match e.value {
                Value::String(s) => match role_from_keyword(s@) {
                    Some(r) => Ok(Some(r)),
                    None => Err(ErrorView::UnsupportedValue { at: e.span, advice: Some(role_advice()) }),
                },
                _ => Err(ErrorView::InvalidType { at: e.span, expected_type: KdlType::String }),
            }
        },
    }
}

/// The partition type set by a `type` child: its first argument must carry
/// the `(GUID)` annotation.
pub open spec fn type_child(c: Node) -> Result<PartitionTypeGuid, ErrorView> {
    match nth_argument(c.entries@, 0) {
        None => Err(ErrorView::MissingEntry { at: c.span, id: "0"@, advice: None }),
        Some(k) => {
            let e = c.entries@[k];
            let name = match e.ty {
                Some(t) => lower_of(t@),
                None => Seq::<char>::empty(),
            };
            if name == "guid"@ {
                partition_type_of(c)
            } else {
                Err(ErrorView::UnsupportedValue { at: e.span, advice: Some(annotation_advice()) })
            }
        },
    }
}

/// The settings of a `create-partition` node's children read so far.
pub struct PartitionSettings {
    pub constraints: Option<Constraints>,
    pub partition_type: Option<PartitionTypeGuid>,
    pub filesystem: Option<FilesystemView>,
}

/// Read the children of a `create-partition` node in order on top of `acc`.
pub open spec fn read_settings(children: Seq<Node>, acc: PartitionSettings) -> Result<PartitionSettings, ErrorView>
    decreases children.len(),
{
    if children.len() == 0 {
        Ok(acc)
    } else {
        let c = children[0];
        let rest = children.drop_first();
        if c.name@ == "constraints"@ {
            match read_constraints(c.children@, Constraints { min: None, max: None }) {
                Err(e) => Err(e),
                Ok(v) => read_settings(rest, PartitionSettings { constraints: Some(v), ..acc }),
            }
        } else if c.name@ == "type"@ {
            match type_child(c) {
                Err(e) => Err(e),
                Ok(t) => read_settings(rest, PartitionSettings { partition_type: Some(t), ..acc }),
            }
        } else if c.name@ == "filesystem"@ {
            match filesystem_of(c) {
                Err(e) => Err(e),
                Ok(f) => read_settings(rest, PartitionSettings { filesystem: Some(f), ..acc }),
            }
        } else {
            Err(ErrorView::UnsupportedNode { at: c.span, name: c.name@ })
        }
    }
}

/// The advice given when a partition has no size bounds.
pub open spec fn constraints_advice() -> Seq<char> {
    "create-partition [disk=<disk>] [role=<role>] [constraints=<constraints>] [type=(GUID)] - you must provide constraints"@
}

/// A `create-partition` command as character sequences.
pub struct CommandView {
    pub disk: Seq<char>,
    pub id: Seq<char>,
    pub role: Option<PartitionRole>,
    pub partition_type: Option<PartitionTypeGuid>,
    pub constraints: Constraints,
    pub filesystem: Option<FilesystemView>,
}

/// The filesystem of a command, as characters.
pub open spec fn filesystem_view(f: Option<Filesystem>) -> Option<FilesystemView> {
    match f {
        Some(x) => Some(x@),
        None => None,
    }
}

/// What a `create-partition` node asks for.
pub open spec fn create_partition_of(node: Node) -> Result<CommandView, ErrorView> {
    match property_string(node, "disk"@) {
        Err(e) => Err(e),
        Ok(disk) => match property_string(node, "id"@) {
            Err(e) => Err(e),
            Ok(id) => match role_of(node) {
                Err(e) => Err(e),
                Ok(role) => match read_settings(
                    node.children@,
                    PartitionSettings { constraints: None, partition_type: None, filesystem: None },
                ) {
                    Err(e) => Err(e),
                    Ok(s) => {
                        let c = match s.constraints {
                            Some(c) => c,
                            None => Constraints { min: None, max: None },
                        };
                        if c.min is None && c.max is None {
                            Err(ErrorView::InvalidArguments { at: node.span, advice: Some(constraints_advice()) })
                        } else {
                            Ok(
                                CommandView {
                                    disk,
                                    id,
                                    role,
                                    partition_type: s.partition_type,
                                    constraints: c,
                                    filesystem: s.filesystem,
                                },
                            )
                        }
                    },
                },
            },
        },
    }
}

/// The role set by the `role` property of `node`, if any.
fn parse_role(node: &Node) -> (r: Result<Option<PartitionRole>, Error>)
    ensures
        result_view(r) == role_of(*node),
{
    match get_kdl_property(node, "role") {
        Err(_) => Ok(None),
        Ok(entry) => match &entry.value {
            Value::String(s) => match PartitionRole::from_keyword(s.as_str()) {
                Some(r) => Ok(Some(r)),
                None => Err(Error::UnsupportedValue {
                    at: entry.span,
                    advice: Some(String::from_str("'efi', 'boot', 'extended-boot', 'root', 'home' and 'swap' are supported")),
                }),
            },
            _ => Err(Error::InvalidType { at: entry.span, expected_type: KdlType::String }),
        },
    }
}

/// What a `create-partition` node asks for: `disk` and `id` properties, an
/// optional `role`, and `constraints` (required), `type` and `filesystem`
/// children.
pub fn parse(node: &Node) -> (r: Result<Command, Error>)
    ensures
        match create_partition_of(*node) {
            Ok(v) => r matches Ok(c) && c.disk@ == v.disk && c.id@ == v.id && c.role == v.role && c.partition_type
                == v.partition_type && c.constraints == v.constraints && filesystem_view(c.filesystem) == v.filesystem,
            Err(e) => r matches Err(x) && x@ == e,
        },
{
    let disk = get_property_str(node, "disk")?;
    let id = get_property_str(node, "id")?;
    let role = parse_role(node)?;
    let mut constraints: Option<Constraints> = None;
    let mut partition_type: Option<PartitionTypeGuid> = None;
    let mut filesystem: Option<Filesystem> = None;
    let ghost all = node.children@;
    let mut i: usize = 0;
    proof {
        assert(all.subrange(0, all.len() as int) =~= all);
        reveal_strlit("0");
        assert(crate::text::decimal_text(0) =~= "0"@);
    }
    while i < node.children.len()
        invariant
            i <= all.len(),
            all == node.children@,
            crate::text::decimal_text(0) == "0"@,
            property_string(*node, "disk"@) == Ok::<Seq<char>, ErrorView>(disk@),
            property_string(*node, "id"@) == Ok::<Seq<char>, ErrorView>(id@),
            role_of(*node) == Ok::<Option<PartitionRole>, ErrorView>(role),
            read_settings(all, PartitionSettings { constraints: None, partition_type: None, filesystem: None })
                == read_settings(
                all.subrange(i as int, all.len() as int),
                PartitionSettings { constraints, partition_type, filesystem: filesystem_view(filesystem) },
            ),
        decreases all.len() - i,
    {
        let ghost rest = all.subrange(i as int, all.len() as int);
        proof {
            assert(rest.drop_first() =~= all.subrange(i + 1, all.len() as int));
            assert(rest[0] == all[i as int]);
        }
        let child = &node.children[i];
        if text_eq(child.name.as_str(), "constraints") {
            constraints = Some(Constraints::from_kdl_node(child)?);
        } else if text_eq(child.name.as_str(), "type") {
            let entry = get_kdl_entry(child, 0)?;
            match PartitionTypeKDL::from_kdl_type(entry)? {
                PartitionTypeKDL::GUID => {
                    partition_type = Some(PartitionTypeGuid::from_kdl_node(child)?);
                },
            }
        } else if text_eq(child.name.as_str(), "filesystem") {
            filesystem = Some(Filesystem::from_kdl_node(child)?);
        } else {
            return Err(Error::UnsupportedNode { at: child.span, name: child.name.clone() });
        }
        i = i + 1;
    }
    proof {
        assert(all.subrange(all.len() as int, all.len() as int) =~= Seq::<Node>::empty());
    }
    let constraints = match constraints {
        Some(c) => c,
        None => Constraints { min: None, max: None },
    };
    if !constraints.is_valid() {
        return Err(
            Error::InvalidArguments {
                at: node.span,
                advice: Some(
                    String::from_str(
                        "create-partition [disk=<disk>] [role=<role>] [constraints=<constraints>] [type=(GUID)] - you must provide constraints",
                    ),
                ),
            },
        );
    }
    Ok(Command { disk, id, role, partition_type, constraints, filesystem })
}

} // verus!
