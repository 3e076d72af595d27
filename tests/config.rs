use disks::config::{get_kdl_entry, get_kdl_property, get_property_str, kdl_value_to_integer, Entry, Error, KdlType, Node, Span, Value};
use disks::provisioning::create_partition::{parse as parse_create_partition, Command as CreatePartition, Constraints};
use disks::strategy::SizeRequirement;
use disks::provisioning::create_partition_table::{parse as parse_create_partition_table, PartitionTableType};
use disks::provisioning::{command, parse_command, CommandKind};
use disks::provisioning::{Filesystem as Requirement, FilesystemType, PartitionTypeKDL};
use disks::types::{Filesystem, GptPartitionType, PartitionRole, PartitionTypeGuid, StandardFilesystemType};
use disks::attributes::TableAttributes;

fn span(offset: usize) -> Span {
    Span { offset, len: 1 }
}

fn arg(value: Value, at: usize) -> Entry {
    Entry { name: None, ty: None, value, span: span(at) }
}

fn prop(name: &str, value: Value, at: usize) -> Entry {
    Entry { name: Some(name.to_string()), ty: None, value, span: span(at) }
}

fn leaf(name: &str, value: Value, at: usize) -> Node {
    Node { name: name.to_string(), entries: vec![arg(value, at + 1)], children: vec![], span: span(at) }
}

fn text(s: &str) -> Value {
    Value::String(s.to_string())
}

fn fs_node(children: Vec<Node>) -> Node {
    Node { name: "filesystem".to_string(), entries: vec![], children, span: span(0) }
}

#[test]
fn reads_standard_filesystem() {
    let node = fs_node(vec![leaf("type", text("ext4"), 10), leaf("label", text("root"), 20), leaf("uuid", text("u-1"), 30)]);
    match Filesystem::from_kdl_node(&node) {
        Ok(Filesystem::Standard { filesystem_type, label, uuid }) => {
            assert_eq!(filesystem_type, StandardFilesystemType::Ext4);
            assert_eq!(label.as_deref(), Some("root"));
            assert_eq!(uuid.as_deref(), Some("u-1"));
        }
        other => panic!("unexpected {other:?}"),
    }
}

#[test]
fn reads_fat32_with_volume_id() {
    let node = fs_node(vec![leaf("type", text("fat32"), 10), leaf("volume_id", Value::Integer(0x1_0000_0005), 20)]);
    match Filesystem::from_kdl_node(&node) {
        Ok(Filesystem::Fat32 { label, volume_id }) => {
            assert_eq!(label, None);
            assert_eq!(volume_id, Some(5));
        }
        other => panic!("unexpected {other:?}"),
    }
}

#[test]
fn rejects_bad_filesystem_nodes() {
    let fat_uuid = fs_node(vec![leaf("type", text("fat32"), 10), leaf("uuid", text("x"), 20)]);
    assert!(matches!(Filesystem::from_kdl_node(&fat_uuid), Err(Error::InvalidArguments { .. })));
    let ext_volume = fs_node(vec![leaf("type", text("ext4"), 10), leaf("volume_id", Value::Integer(1), 20)]);
    match Filesystem::from_kdl_node(&ext_volume) {
        Err(Error::InvalidArguments { advice, .. }) => {
            assert_eq!(advice.as_deref(), Some("volume_id is only supported for FAT32, not ext4"))
        }
        other => panic!("unexpected {other:?}"),
    }
    let unknown = fs_node(vec![leaf("type", text("zfs"), 10)]);
    assert!(matches!(Filesystem::from_kdl_node(&unknown), Err(Error::UnknownVariant)));
    let missing = fs_node(vec![leaf("label", text("x"), 10)]);
    match Filesystem::from_kdl_node(&missing) {
        Err(Error::UnsupportedNode { name, at }) => {
            assert_eq!(name, "type");
            assert_eq!(at, span(0));
        }
        other => panic!("unexpected {other:?}"),
    }
    let stray = fs_node(vec![leaf("colour", text("x"), 40)]);
    assert!(matches!(Filesystem::from_kdl_node(&stray), Err(Error::UnsupportedNode { at, .. }) if at == span(40)));
    let wrong_kind = fs_node(vec![leaf("type", Value::Integer(3), 10)]);
    assert!(matches!(
        Filesystem::from_kdl_node(&wrong_kind),
        Err(Error::InvalidType { expected_type: KdlType::String, .. })
    ));
}

#[test]
fn properties_and_arguments() {
    let node = Node {
        name: "create-partition".to_string(),
        entries: vec![prop("disk", text("a"), 1), arg(Value::Integer(7), 2), prop("disk", text("b"), 3), arg(text("x"), 4)],
        children: vec![],
        span: span(0),
    };
    assert_eq!(get_property_str(&node, "disk").unwrap(), "b");
    assert_eq!(get_kdl_entry(&node, 0).unwrap().span, span(2));
    assert_eq!(get_kdl_entry(&node, 1).unwrap().span, span(4));
    assert_eq!(kdl_value_to_integer(get_kdl_entry(&node, 0).unwrap()).unwrap(), 7);
    match get_kdl_property(&node, "role") {
        Err(Error::MissingProperty { id, advice, .. }) => {
            assert_eq!(id, "role");
            assert_eq!(advice.as_deref(), Some("add `role=...` to bind the property"));
        }
        other => panic!("unexpected {other:?}"),
    }
    match get_kdl_entry(&node, 2) {
        Err(Error::MissingEntry { id, .. }) => assert_eq!(id, "2"),
        other => panic!("unexpected {other:?}"),
    }
}

#[test]
fn provisioning_filesystem_requirement() {
    let node = fs_node(vec![leaf("type", text("any"), 10), leaf("label", text("data"), 20)]);
    let req = Requirement::from_kdl_node(&node).unwrap();
    assert_eq!(req.filesystem_type, FilesystemType::Any);
    assert_eq!(req.label.as_deref(), Some("data"));
    let bad = fs_node(vec![leaf("type", text("ntfs"), 10)]);
    assert!(matches!(Requirement::from_kdl_node(&bad), Err(Error::UnsupportedValue { .. })));
    assert_eq!(FilesystemType::default(), FilesystemType::Any);
    assert_eq!(FilesystemType::from_name("swap"), Some(FilesystemType::Swap));
}

#[test]
fn partition_type_annotations_and_names() {
    let mut entry = arg(text("efi-system-partition"), 3);
    entry.ty = Some("GUID".to_string());
    assert_eq!(PartitionTypeKDL::from_kdl_type(&entry).unwrap(), PartitionTypeKDL::GUID);
    entry.ty = Some("uuid".to_string());
    assert!(PartitionTypeKDL::from_kdl_type(&entry).is_err());
    let node = leaf("type", text("linux-swap"), 0);
    assert_eq!(PartitionTypeGuid::from_kdl_node(&node).unwrap(), PartitionTypeGuid::LinuxSwap);
    let bad = leaf("type", text("ntfs"), 0);
    assert!(matches!(PartitionTypeGuid::from_kdl_node(&bad), Err(Error::UnsupportedValue { .. })));
}

#[test]
fn create_partition_attributes() {
    let cmd = CreatePartition {
        disk: "root_disk".to_string(),
        id: "esp".to_string(),
        role: Some(PartitionRole::Efi),
        partition_type: Some(PartitionTypeGuid::EfiSystemPartition),
        constraints: Constraints { min: Some(512), max: Some(512) },
        filesystem: Some(Filesystem::Fat32 { label: Some("EFI".to_string()), volume_id: None }),
    };
    let attrs = cmd.attributes();
    let TableAttributes::Gpt(g) = &attrs.table;
    assert_eq!(g.type_guid, GptPartitionType::Efi);
    assert_eq!(g.name.as_deref(), Some("EFI System Partition"));
    assert_eq!(attrs.role, Some(PartitionRole::Efi));
    assert!(matches!(attrs.filesystem, Some(Filesystem::Fat32 { .. })));
    let plain = CreatePartition {
        disk: String::new(),
        id: String::new(),
        role: None,
        partition_type: None,
        constraints: Constraints { min: None, max: None },
        filesystem: None,
    };
    let TableAttributes::Gpt(g) = plain.attributes().table;
    assert_eq!(g.type_guid, GptPartitionType::Basic);
    assert_eq!(g.name, None);
}

#[test]
fn commands_and_partition_tables() {
    assert_eq!(command("find-disk"), Some(CommandKind::FindDisk));
    assert_eq!(command("create-partition"), Some(CommandKind::CreatePartition));
    assert_eq!(command("mount"), None);
    let node = Node {
        name: "create-partition-table".to_string(),
        entries: vec![prop("type", text("gpt"), 1), prop("disk", text("root_disk"), 2)],
        children: vec![],
        span: span(0),
    };
    assert_eq!(parse_command(&node).unwrap(), CommandKind::CreatePartitionTable);
    let table = parse_create_partition_table(&node).unwrap();
    assert_eq!(table.table_type, PartitionTableType::Gpt);
    assert_eq!(table.disk, "root_disk");
    let mbr = Node { name: "x".to_string(), entries: vec![prop("type", text("mbr"), 1), prop("disk", text("d"), 2)], children: vec![], span: span(0) };
    assert!(matches!(parse_create_partition_table(&mbr), Err(Error::UnsupportedValue { .. })));
    assert!(matches!(parse_command(&mbr), Err(Error::UnsupportedNode { .. })));
}

fn sized(name: &str, amount: i128, unit: &str, at: usize) -> Node {
    let mut e = arg(Value::Integer(amount), at + 1);
    e.ty = Some(unit.to_string());
    Node { name: name.to_string(), entries: vec![e], children: vec![], span: span(at) }
}

#[test]
fn create_partition_from_node() {
    let mut ty = arg(text("efi-system-partition"), 31);
    ty.ty = Some("GUID".to_string());
    let node = Node {
        name: "create-partition".to_string(),
        entries: vec![prop("disk", text("root_disk"), 1), prop("id", text("esp"), 2), prop("role", text("efi"), 3)],
        children: vec![
            Node {
                name: "constraints".to_string(),
                entries: vec![],
                children: vec![sized("min", 512, "MiB", 10), sized("max", 1, "GiB", 20)],
                span: span(9),
            },
            Node { name: "type".to_string(), entries: vec![ty], children: vec![], span: span(30) },
            fs_node(vec![leaf("type", text("fat32"), 40)]),
        ],
        span: span(0),
    };
    let cmd = parse_create_partition(&node).unwrap();
    assert_eq!(cmd.disk, "root_disk");
    assert_eq!(cmd.id, "esp");
    assert_eq!(cmd.role, Some(PartitionRole::Efi));
    assert_eq!(cmd.partition_type, Some(PartitionTypeGuid::EfiSystemPartition));
    assert_eq!(cmd.constraints, Constraints { min: Some(512 * 1024 * 1024), max: Some(1024 * 1024 * 1024) });
    assert_eq!(cmd.constraints.size_requirement(), SizeRequirement::Range { min: 512 * 1024 * 1024, max: 1024 * 1024 * 1024 });
    assert!(matches!(cmd.filesystem, Some(Filesystem::Fat32 { .. })));
}

#[test]
fn create_partition_needs_constraints_and_units() {
    let bare = Node {
        name: "create-partition".to_string(),
        entries: vec![prop("disk", text("d"), 1), prop("id", text("p"), 2)],
        children: vec![],
        span: span(0),
    };
    match parse_create_partition(&bare) {
        Err(Error::InvalidArguments { advice, .. }) => assert!(advice.unwrap().ends_with("you must provide constraints")),
        other => panic!("unexpected {other:?}"),
    }
    let no_unit = Node {
        name: "constraints".to_string(),
        entries: vec![],
        children: vec![leaf("min", Value::Integer(5), 10)],
        span: span(9),
    };
    assert!(matches!(Constraints::from_kdl_node(&no_unit), Err(Error::UnsupportedValue { .. })));
    let huge = Node { name: "constraints".to_string(), entries: vec![], children: vec![sized("max", 1 << 40, "TiB", 10)], span: span(9) };
    assert!(matches!(Constraints::from_kdl_node(&huge), Err(Error::UnsupportedValue { .. })));
    let bad_role = Node {
        name: "create-partition".to_string(),
        entries: vec![prop("disk", text("d"), 1), prop("id", text("p"), 2), prop("role", text("data"), 3)],
        children: vec![],
        span: span(0),
    };
    assert!(matches!(parse_create_partition(&bad_role), Err(Error::UnsupportedValue { .. })));
    assert_eq!(Constraints { min: Some(4), max: None }.size_requirement(), SizeRequirement::AtLeast(4));
    assert_eq!(Constraints { min: Some(4), max: Some(4) }.size_requirement(), SizeRequirement::Exact(4));
}

#[test]
fn value_kinds() {
    assert_eq!(KdlType::for_value(&Value::Bool(true)).unwrap(), KdlType::Boolean);
    assert_eq!(KdlType::for_value(&Value::Null).unwrap(), KdlType::Null);
    assert!(matches!(KdlType::for_value(&Value::Float), Err(Error::UnknownType)));
    assert_eq!(KdlType::Integer.name(), "int");
}
