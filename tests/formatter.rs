use disks::formatter::{FilesystemExt, Formatter};
use disks::types::{Filesystem, PartitionTypeGuid, StandardFilesystemType};
use uuid::Uuid;

#[test]
fn test_fat32_args() {
    let fs = Filesystem::Fat32 { label: Some("BOOT".to_string()), volume_id: Some(1234) };

    assert_eq!(fs.mkfs_command(), "mkfs.fat");
    assert_eq!(fs.uuid_arg(), vec!["-i", "1234"]);
    assert_eq!(fs.label_arg(), vec!["-n", "BOOT"]);
}

#[test]
fn test_ext4_args() {
    let uuid = Uuid::new_v4();
    let fs = Filesystem::Standard {
        filesystem_type: StandardFilesystemType::Ext4,
        label: Some("root".to_string()),
        uuid: Some(uuid.to_string()),
    };

    assert_eq!(fs.mkfs_command(), "mkfs.ext4");
    assert_eq!(fs.uuid_arg(), vec!["-U".to_string(), uuid.to_string()]);
    assert_eq!(fs.label_arg(), vec!["-L", "root"]);
}

#[test]
fn test_xfs_args() {
    let uuid = Uuid::new_v4();
    let fs = Filesystem::Standard {
        filesystem_type: StandardFilesystemType::Xfs,
        label: Some("data".to_string()),
        uuid: Some(uuid.to_string()),
    };

    assert_eq!(fs.mkfs_command(), "mkfs.xfs");
    assert_eq!(fs.uuid_arg(), vec!["-m".to_string(), format!("uuid={uuid}")]);
    assert_eq!(fs.label_arg(), vec!["-L", "data"]);
}

#[test]
fn f2fs_and_swap_flags() {
    let f2fs = Filesystem::Standard { filesystem_type: StandardFilesystemType::F2fs, label: Some("x".to_string()), uuid: None };
    assert_eq!(f2fs.mkfs_command(), "mkfs.f2fs");
    assert_eq!(f2fs.label_arg(), vec!["-l", "x"]);
    assert_eq!(f2fs.force_arg(), vec!["-f"]);
    assert!(f2fs.uuid_arg().is_empty());
    let swap = Filesystem::Standard { filesystem_type: StandardFilesystemType::Swap, label: None, uuid: None };
    assert_eq!(swap.mkfs_command(), "mkswap");
    assert!(swap.label_arg().is_empty());
    let fat = Filesystem::Fat32 { label: None, volume_id: None };
    assert!(fat.force_arg().is_empty());
    assert!(fat.uuid_arg().is_empty());
}

#[test]
fn formatter_arguments_in_order() {
    let fs = Filesystem::Standard {
        filesystem_type: StandardFilesystemType::Ext4,
        label: Some("root".to_string()),
        uuid: Some("u".to_string()),
    };
    let plain = Formatter::new(fs.clone());
    assert_eq!(plain.program(), "mkfs.ext4");
    assert_eq!(plain.arguments("/dev/sda1"), vec!["-U", "u", "-L", "root", "/dev/sda1"]);
    let forced = Formatter::new(fs).force();
    assert!(forced.force);
    assert_eq!(forced.arguments("/dev/sda1"), vec!["-U", "u", "-L", "root", "-F", "/dev/sda1"]);
}

#[test]
fn type_names() {
    assert_eq!(StandardFilesystemType::Xfs.name(), "xfs");
    assert_eq!(StandardFilesystemType::from_name("f2fs"), Some(StandardFilesystemType::F2fs));
    assert_eq!(StandardFilesystemType::from_name("btrfs"), None);
    assert_eq!(PartitionTypeGuid::LinuxSwap.name(), "Linux Swap");
    assert_eq!(PartitionTypeGuid::from_keyword("linux-fs"), Some(PartitionTypeGuid::LinuxFilesystem));
    assert_eq!(PartitionTypeGuid::ExtendedBootLoader.as_guid(), disks::types::GptPartitionType::FreedesktopBoot);
}
