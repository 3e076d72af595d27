//! Block devices as the planner sees them: a size in sectors and the
//! partitions already on the device.

use vstd::prelude::*;
use crate::text::push_decimal;

verus! {

/// Bytes in one logical sector.
pub const SECTOR_SIZE: u64 = 512;

/// A partition found on a block device. Positions are in sectors.
pub struct Partition {
    /// The partition number in the table.
    pub number: u32,
    /// First sector.
    pub start: u64,
    /// Sector just past the end.
    pub end: u64,
    /// Length in sectors.
    pub size: u64,
    /// Kernel name, such as `sda1`.
    pub name: String,
    /// Node under sysfs.
    pub node: String,
    /// Device path, such as `/dev/sda1`.
    pub device: String,
}

/// A block device with its partitions.
pub struct BasicDisk {
    /// Kernel name, such as `sda`.
    pub name: String,
    /// Size in sectors.
    pub sectors: u64,
    /// Device path, such as `/dev/sda`.
    pub device: String,
    /// Model, where the device reports one.
    pub model: Option<String>,
    /// Vendor, where the device reports one.
    pub vendor: Option<String>,
    /// Partitions found on the device.
    pub partitions: Vec<Partition>,
}

impl Partition {
    /// Sectors are in order and their byte offsets fit in 64 bits.
    pub open spec fn wf(&self) -> bool {
        &&& self.start <= self.end
        &&& self.end * SECTOR_SIZE <= u64::MAX
    }
}

impl BasicDisk {
    /// The size in bytes fits in 64 bits and every partition is well formed.
    pub open spec fn wf(&self) -> bool {
        &&& self.sectors * SECTOR_SIZE <= u64::MAX
        &&& forall|i: int| 0 <= i < self.partitions@.len() ==> (#[trigger] self.partitions@[i]).wf()
    }

    /// The size of the device in bytes.
    pub fn size(&self) -> (r: u64)
        requires
            self.wf(),
        ensures
            r == self.sectors * SECTOR_SIZE,
    {
        self.sectors * SECTOR_SIZE
    }

    /// The partitions found on the device.
    pub fn partitions(&self) -> (r: &Vec<Partition>)
        ensures
            r == &self.partitions,
    {
        &self.partitions
    }
}

/// A block device that a plan can target.
pub struct BlockDevice {
    /// The device's description.
    pub disk: BasicDisk,
}

impl BlockDevice {
    /// The device is well formed.
    pub open spec fn wf(&self) -> bool {
        self.disk.wf()
    }

    /// A device backed by an in-memory mock disk.
    pub fn mock_device(disk: MockDisk) -> (r: BlockDevice)
        requires
            disk.wf(),
        ensures
            r.disk == disk.spec_disk(),
            r.wf(),
    {
        BlockDevice { disk: disk.basic_disk }
    }

    /// The size of the device in bytes.
    pub fn size(&self) -> (r: u64)
        requires
            self.wf(),
        ensures
            r == self.disk.sectors * SECTOR_SIZE,
    {
        self.disk.size()
    }

    /// The device path.
    pub fn device(&self) -> (r: &String)
        ensures
            r == &self.disk.device,
    {
        &self.disk.device
    }

    /// The partitions found on the device.
    pub fn partitions(&self) -> (r: &Vec<Partition>)
        ensures
            r == &self.disk.partitions,
    {
        &self.disk.partitions
    }
}

/// An in-memory disk for exercising the planner without hardware.
pub struct MockDisk {
    basic_disk: BasicDisk,
    /// Whether partition names put a `p` between the disk name and the number.
    pub parts_prefix: bool,
}

impl MockDisk {
    /// The disk's description.
    pub closed spec fn spec_disk(&self) -> BasicDisk {
        self.basic_disk
    }

    /// Whether partition names take a `p` separator.
    pub closed spec fn spec_parts_prefix(&self) -> bool {
        self.parts_prefix
    }

    /// The disk's description.
    pub fn disk(&self) -> (r: &BasicDisk)
        ensures
            *r == self.spec_disk(),
    {
        &self.basic_disk
    }

    /// The mock's description is well formed.
    pub closed spec fn wf(&self) -> bool {
        self.basic_disk.wf()
    }

    /// A mock disk named `mock0` of `size_bytes` bytes, without partitions.
    pub fn new(size_bytes: u64) -> (r: MockDisk)
        ensures
            r.wf(),
            r.spec_disk().sectors == size_bytes / SECTOR_SIZE,
            r.spec_disk().partitions@.len() == 0,
            !r.spec_parts_prefix(),
    {
        Self::new_with_name("mock0", size_bytes, false)
    }

    /// A mock disk named `name` of `size_bytes` bytes (whole sectors only),
    /// without partitions.
    pub fn new_with_name(name: &str, size_bytes: u64, parts_prefix: bool) -> (r: MockDisk)
        ensures
            r.wf(),
            r.spec_disk().name@ == name@,
            r.spec_disk().device@ == "/dev/"@ + name@,
            r.spec_disk().sectors == size_bytes / SECTOR_SIZE,
            r.spec_disk().partitions@.len() == 0,
            r.spec_parts_prefix() == parts_prefix,
    {
        let sectors = size_bytes / SECTOR_SIZE;
        let mut device = String::from_str("/dev/");
        device.append(name);
        let disk = BasicDisk {
            name: String::from_str(name),
            sectors,
            device,
            model: Some(String::from_str("Mock Device")),
            vendor: Some(String::from_str("Mock Vendor")),
            partitions: Vec::new(),
        };
        MockDisk { basic_disk: disk, parts_prefix }
    }

    /// Add a partition spanning the byte offsets `[start_bytes, end_bytes)`,
    /// rounded down to whole sectors, numbered after the existing ones.
    pub fn add_partition(&mut self, start_bytes: u64, end_bytes: u64)
        requires
            old(self).wf(),
            start_bytes <= end_bytes,
            old(self).spec_disk().partitions@.len() < u32::MAX,
        ensures
            final(self).wf(),
            final(self).spec_parts_prefix() == old(self).spec_parts_prefix(),
            final(self).spec_disk().sectors == old(self).spec_disk().sectors,
            final(self).spec_disk().partitions@.len() == old(self).spec_disk().partitions@.len() + 1,
            forall|i: int|
                0 <= i < old(self).spec_disk().partitions@.len() ==> final(self).spec_disk().partitions@[i]
                    == old(self).spec_disk().partitions@[i],
            ({
                let p = final(self).spec_disk().partitions@.last();
                &&& p.number == old(self).spec_disk().partitions@.len() + 1
                &&& p.start == start_bytes / SECTOR_SIZE
                &&& p.end == end_bytes / SECTOR_SIZE
                &&& p.size == p.end - p.start
            }),
    {
        let partition_number = self.basic_disk.partitions.len() + 1;
        let start = start_bytes / SECTOR_SIZE;
        let end = end_bytes / SECTOR_SIZE;
        proof {
            vstd::arithmetic::div_mod::lemma_div_is_ordered(
                start_bytes as int,
                end_bytes as int,
                SECTOR_SIZE as int,
            );
            vstd::arithmetic::div_mod::lemma_fundamental_div_mod(end_bytes as int, SECTOR_SIZE as int);
        }
        let mut name = String::from_str("mock0p");
        push_decimal(&mut name, partition_number as u64);
        let mut device = String::from_str("/dev/mock0p");
        push_decimal(&mut device, partition_number as u64);
        let partition = Partition {
            number: partition_number as u32,
            start,
            end,
            size: end - start,
            name,
            node: String::from_str("/sys/class/block/mock0/mock0p1"),
            device,
        };
        self.basic_disk.partitions.push(partition);
    }
}

} // verus!
