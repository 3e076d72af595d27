//! Shared vocabulary: filesystems, partition roles and partition types.

use vstd::prelude::*;
use crate::text::text_eq;

verus! {

/// The filesystems that a partition can be formatted with, other than FAT32.
#[derive(Clone, Copy, Debug, PartialEq, Eq, Structural)]
pub enum StandardFilesystemType {
    F2fs,
    Ext4,
    Xfs,
    Swap,
}

/// The filesystem to create on a partition.
#[derive(Clone, Debug)]
pub enum Filesystem {
    /// FAT32, with an optional label and 32-bit volume id.
    Fat32 { label: Option<String>, volume_id: Option<u32> },
    /// Any other supported filesystem, with an optional label and UUID.
    Standard { filesystem_type: StandardFilesystemType, label: Option<String>, uuid: Option<String> },
}

/// A filesystem with its texts as character sequences.
pub enum FilesystemView {
    Fat32 { label: Option<Seq<char>>, volume_id: Option<u32> },
    Standard { filesystem_type: StandardFilesystemType, label: Option<Seq<char>>, uuid: Option<Seq<char>> },
}

/// The text of an optional string.
pub open spec fn text_of(s: Option<String>) -> Option<Seq<char>> {
    match s {
        Some(t) => Some(t@),
        None => None,
    }
}

impl View for Filesystem {
    type V = FilesystemView;

    open spec fn view(&self) -> FilesystemView {
        match self {
            Filesystem::Fat32 { label, volume_id } => FilesystemView::Fat32 { label: text_of(*label), volume_id: *volume_id },
            Filesystem::Standard { filesystem_type, label, uuid } => FilesystemView::Standard {
                filesystem_type: *filesystem_type,
                label: text_of(*label),
                uuid: text_of(*uuid),
            },
        }
    }
}

/// What a partition is for; decides where it is mounted.
#[derive(Clone, Copy, Debug, PartialEq, Eq, Structural)]
pub enum PartitionRole {
    /// EFI system partition.
    Efi,
    /// Boot partition.
    Boot,
    /// Extended boot loader partition.
    ExtendedBoot,
    /// Root filesystem.
    Root,
    /// Home directories.
    Home,
    /// Swap space.
    Swap,
}

/// The GPT partition types that the library writes.
#[derive(Clone, Copy, Debug, PartialEq, Eq, Structural)]
pub enum GptPartitionType {
    /// Basic data: the type used when none is given.
    Basic,
    /// EFI system partition.
    Efi,
    /// Linux extended boot (freedesktop).
    FreedesktopBoot,
    /// Linux swap.
    LinuxSwap,
    /// Linux filesystem.
    LinuxFs,
}

/// The partition types that a configuration can name.
#[derive(Clone, Copy, Debug, PartialEq, Eq, Structural)]
pub enum PartitionTypeGuid {
    EfiSystemPartition,
    ExtendedBootLoader,
    LinuxSwap,
    LinuxFilesystem,
}

/// The name of a standard filesystem type.
pub open spec fn standard_name(t: StandardFilesystemType) -> Seq<char> {
    match t {
        StandardFilesystemType::Ext4 => "ext4"@,
        StandardFilesystemType::F2fs => "f2fs"@,
        StandardFilesystemType::Xfs => "xfs"@,
        StandardFilesystemType::Swap => "swap"@,
    }
}

/// The standard filesystem type with this name, if any.
pub open spec fn standard_from_name(t: Seq<char>) -> Option<StandardFilesystemType> {
    if t == "ext4"@ {
        Some(StandardFilesystemType::Ext4)
    } else if t == "f2fs"@ {
        Some(StandardFilesystemType::F2fs)
    } else if t == "xfs"@ {
        Some(StandardFilesystemType::Xfs)
    } else if t == "swap"@ {
        Some(StandardFilesystemType::Swap)
    } else {
        None
    }
}

impl StandardFilesystemType {
    /// The type's name: `ext4`, `f2fs`, `xfs` or `swap`.
    pub fn name(&self) -> (r: &'static str)
        ensures
            r@ == standard_name(*self),
    {
        match self {
            StandardFilesystemType::Ext4 => "ext4",
            StandardFilesystemType::F2fs => "f2fs",
            StandardFilesystemType::Xfs => "xfs",
            StandardFilesystemType::Swap => "swap",
        }
    }

    /// The type with this name, if there is one.
    pub fn from_name(value: &str) -> (r: Option<StandardFilesystemType>)
        ensures
            r == standard_from_name(value@),
            r is Some ==> standard_name(r->0) == value@,
            r is None ==> forall|t: StandardFilesystemType| standard_name(t) != value@,
    {
        if text_eq(value, "ext4") {
            Some(StandardFilesystemType::Ext4)
        } else if text_eq(value, "f2fs") {
            Some(StandardFilesystemType::F2fs)
        } else if text_eq(value, "xfs") {
            Some(StandardFilesystemType::Xfs)
        } else if text_eq(value, "swap") {
            Some(StandardFilesystemType::Swap)
        } else {
            proof {
                assert forall|t: StandardFilesystemType| standard_name(t) != value@ by {
                    match t {
                        StandardFilesystemType::Ext4 => {},
                        StandardFilesystemType::F2fs => {},
                        StandardFilesystemType::Xfs => {},
                        StandardFilesystemType::Swap => {},
                    }
                }
            }
            None
        }
    }
}

/// The display name of a configurable partition type.
pub open spec fn partition_type_name(t: PartitionTypeGuid) -> Seq<char> {
    match t {
        PartitionTypeGuid::EfiSystemPartition => "EFI System Partition"@,
        PartitionTypeGuid::ExtendedBootLoader => "Linux Extended Boot"@,
        PartitionTypeGuid::LinuxFilesystem => "Linux Filesystem"@,
        PartitionTypeGuid::LinuxSwap => "Linux Swap"@,
    }
}

/// The configuration keyword of a partition type.
pub open spec fn partition_type_keyword(t: PartitionTypeGuid) -> Seq<char> {
    match t {
        PartitionTypeGuid::EfiSystemPartition => "efi-system-partition"@,
        PartitionTypeGuid::ExtendedBootLoader => "linux-extended-boot"@,
        PartitionTypeGuid::LinuxSwap => "linux-swap"@,
        PartitionTypeGuid::LinuxFilesystem => "linux-fs"@,
    }
}

/// The GPT type a configurable partition type stands for.
pub open spec fn gpt_type_for(t: PartitionTypeGuid) -> GptPartitionType {
    match t {
        PartitionTypeGuid::EfiSystemPartition => GptPartitionType::Efi,
        PartitionTypeGuid::ExtendedBootLoader => GptPartitionType::FreedesktopBoot,
        PartitionTypeGuid::LinuxSwap => GptPartitionType::LinuxSwap,
        PartitionTypeGuid::LinuxFilesystem => GptPartitionType::LinuxFs,
    }
}

/// The partition type with this configuration keyword, if any.
pub open spec fn type_from_keyword(v: Seq<char>) -> Option<PartitionTypeGuid> {
    if v == "efi-system-partition"@ {
        Some(PartitionTypeGuid::EfiSystemPartition)
    } else if v == "linux-extended-boot"@ {
        Some(PartitionTypeGuid::ExtendedBootLoader)
    } else if v == "linux-swap"@ {
        Some(PartitionTypeGuid::LinuxSwap)
    } else if v == "linux-fs"@ {
        Some(PartitionTypeGuid::LinuxFilesystem)
    } else {
        None
    }
}

/// The role with this configuration keyword, if any.
pub open spec fn role_from_keyword(v: Seq<char>) -> Option<PartitionRole> {
    if v == "efi"@ {
        Some(PartitionRole::Efi)
    } else if v == "boot"@ {
        Some(PartitionRole::Boot)
    } else if v == "extended-boot"@ {
        Some(PartitionRole::ExtendedBoot)
    } else if v == "root"@ {
        Some(PartitionRole::Root)
    } else if v == "home"@ {
        Some(PartitionRole::Home)
    } else if v == "swap"@ {
        Some(PartitionRole::Swap)
    } else {
        None
    }
}

impl PartitionRole {
    /// The role with this configuration keyword: `efi`, `boot`,
    /// `extended-boot`, `root`, `home` or `swap`.
    pub fn from_keyword(value: &str) -> (r: Option<PartitionRole>)
        ensures
            r == role_from_keyword(value@),
    {
        if text_eq(value, "efi") {
            Some(PartitionRole::Efi)
        } else if text_eq(value, "boot") {
            Some(PartitionRole::Boot)
        } else if text_eq(value, "extended-boot") {
            Some(PartitionRole::ExtendedBoot)
        } else if text_eq(value, "root") {
            Some(PartitionRole::Root)
        } else if text_eq(value, "home") {
            Some(PartitionRole::Home)
        } else if text_eq(value, "swap") {
            Some(PartitionRole::Swap)
        } else {
            None
        }
    }
}

impl PartitionTypeGuid {
    /// The GPT type this stands for.
    pub fn as_guid(&self) -> (r: GptPartitionType)
        ensures
            r == gpt_type_for(*self),
    {
        match self {
            PartitionTypeGuid::EfiSystemPartition => GptPartitionType::Efi,
            PartitionTypeGuid::ExtendedBootLoader => GptPartitionType::FreedesktopBoot,
            PartitionTypeGuid::LinuxSwap => GptPartitionType::LinuxSwap,
            PartitionTypeGuid::LinuxFilesystem => GptPartitionType::LinuxFs,
        }
    }

    /// The display name, as in `EFI System Partition`.
    pub fn name(&self) -> (r: &'static str)
        ensures
            r@ == partition_type_name(*self),
    {
        match self {
            PartitionTypeGuid::EfiSystemPartition => "EFI System Partition",
            PartitionTypeGuid::ExtendedBootLoader => "Linux Extended Boot",
            PartitionTypeGuid::LinuxFilesystem => "Linux Filesystem",
            PartitionTypeGuid::LinuxSwap => "Linux Swap",
        }
    }

    /// The partition type with this configuration keyword, if any.
    pub fn from_keyword(value: &str) -> (r: Option<PartitionTypeGuid>)
        ensures
            r == type_from_keyword(value@),
            r is Some ==> partition_type_keyword(r->0) == value@,
            r is None ==> forall|t: PartitionTypeGuid| partition_type_keyword(t) != value@,
    {
        if text_eq(value, "efi-system-partition") {
            Some(PartitionTypeGuid::EfiSystemPartition)
        } else if text_eq(value, "linux-extended-boot") {
            Some(PartitionTypeGuid::ExtendedBootLoader)
        } else if text_eq(value, "linux-swap") {
            Some(PartitionTypeGuid::LinuxSwap)
        } else if text_eq(value, "linux-fs") {
            Some(PartitionTypeGuid::LinuxFilesystem)
        } else {
            proof {
                assert forall|t: PartitionTypeGuid| partition_type_keyword(t) != value@ by {
                    match t {
                        PartitionTypeGuid::EfiSystemPartition => {},
                        PartitionTypeGuid::ExtendedBootLoader => {},
                        PartitionTypeGuid::LinuxSwap => {},
                        PartitionTypeGuid::LinuxFilesystem => {},
                    }
                }
            }
            None
        }
    }
}

} // verus!
