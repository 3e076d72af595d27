//! The decisions made when a plan is written to a device: validating the
//! journal, the GPT operations it turns into, and the regions to clear.
//! The device I/O itself is done by the caller.

use vstd::prelude::*;
use crate::attributes::{PartitionAttributes, TableAttributes};
use crate::disk::{BlockDevice, SECTOR_SIZE};
use crate::planner::{change_views, Change, ChangeView, Planner};
use crate::types::GptPartitionType;

verus! {

/// Why a plan cannot be written.
#[derive(Clone, Copy, Debug, PartialEq, Eq, Structural)]
pub enum WriteError {
    /// A partition id is added while a partition with that id is live.
    DuplicatePartitionId(u32),
    /// The device's size is not the size the plan was made for.
    DeviceSizeChanged { planned: u64, observed: u64 },
}

/// One operation on the GPT, in journal order.
pub enum GptOperation {
    /// Remove the entry with this id.
    Remove { id: u32 },
    /// Add an entry.
    Add { name: String, id: u32, first_lba: u64, length_lba: u64, type_guid: GptPartitionType },
}

/// Bytes cleared at the head of a wiped disk.
pub const DISK_HEADER_BYTES: u64 = 2 * 1024 * 1024;

/// Most bytes cleared at the head of a new partition.
pub const PARTITION_PREFIX_BYTES: u64 = 2 * 1024 * 1024;

/// Block size used when clearing.
pub const ZERO_BLOCK_BYTES: u64 = 65536;

/// A writer of one planner's changes to one device.
pub struct DiskWriter<'a> {
    /// The device to write to.
    pub device: &'a BlockDevice,
    /// The planner whose changes are written.
    pub planner: &'a Planner,
}

/// The first duplicate addition in a journal, given the ids live before it.
pub open spec fn duplicate_from(j: Seq<ChangeView>, live: Seq<u32>) -> Option<u32>
    decreases j.len(),
{
    if j.len() == 0 {
        None
    } else {
        match j[0] {
            ChangeView::Add { partition_id, .. } => if live.contains(partition_id) {
                Some(partition_id)
            } else {
                duplicate_from(j.drop_first(), live.push(partition_id))
            },
            ChangeView::Delete { partition_id, .. } => duplicate_from(j.drop_first(), live.remove_value(partition_id)),
        }
    }
}

/// The partition type an entry gets: the GPT type of its attributes, or
/// basic data.
pub open spec fn type_of(a: Option<PartitionAttributes>) -> GptPartitionType {
    match a {
        Some(attrs) => match attrs.table {
            TableAttributes::Gpt(g) => g.type_guid,
        },
        None => GptPartitionType::Basic,
    }
}

/// The name an entry gets: the GPT name of its attributes, or empty.
pub open spec fn name_of(a: Option<PartitionAttributes>) -> Seq<char> {
    match a {
        Some(attrs) => match attrs.table {
            TableAttributes::Gpt(g) => match g.name {
                Some(n) => n@,
                None => Seq::empty(),
            },
        },
        None => Seq::empty(),
    }
}

/// The GPT operation for a journal entry.
pub open spec fn operation_for(c: Change, op: GptOperation) -> bool {
    match c {
        Change::AddPartition { start, end, partition_id, attributes } => op matches GptOperation::Add {
            name,
            id,
            first_lba,
            length_lba,
            type_guid,
        } && name@ == name_of(attributes) && id == partition_id && first_lba == start / SECTOR_SIZE
            && length_lba == (end - start) / SECTOR_SIZE as int && type_guid == type_of(attributes),
        Change::DeletePartition { partition_id, .. } => op == GptOperation::Remove { id: partition_id },
    }
}

/// The sector count written into the protective MBR of a disk of `size`
/// bytes: one less than the disk's sectors, capped at 32 bits.
pub open spec fn protective_sectors(size: nat) -> u32 {
    let lba = size / SECTOR_SIZE as nat;
    let n: int = if lba >= 1 { lba - 1 } else { 0 };
    if n > 0xFFFF_FFFF { 0xFFFF_FFFFu32 } else { n as u32 }
}

/// The sector count for a protective MBR covering a disk of `size` bytes.
pub fn protective_mbr_sectors(size: u64) -> (r: u32)
    ensures
        r == protective_sectors(size as nat),
{
    let lba = size / SECTOR_SIZE;
    let n = if lba >= 1 { lba - 1 } else { 0 };
    if n > 0xFFFF_FFFF { 0xFFFF_FFFF } else { n as u32 }
}

/// How many bytes to clear at the head of a partition of `size` bytes.
pub fn partition_prefix_to_zero(size: u64) -> (r: u64)
    ensures
        r == if size < PARTITION_PREFIX_BYTES { size } else { PARTITION_PREFIX_BYTES },
{
    if size < PARTITION_PREFIX_BYTES { size } else { PARTITION_PREFIX_BYTES }
}

/// The whole blocks and the bytes left over when clearing `size` bytes.
pub fn zero_blocks(size: u64) -> (r: (u64, u64))
    ensures
        r.0 == size / ZERO_BLOCK_BYTES,
        r.1 == size % ZERO_BLOCK_BYTES,
        r.0 * ZERO_BLOCK_BYTES + r.1 == size,
{
    proof {
        vstd::arithmetic::div_mod::lemma_fundamental_div_mod(size as int, ZERO_BLOCK_BYTES as int);
    }
    (size / ZERO_BLOCK_BYTES, size % ZERO_BLOCK_BYTES)
}

/// The index of `id` in `live`, if it is there.
fn find_live(live: &Vec<u32>, id: u32) -> (r: Option<usize>)
    ensures
        r is None <==> !live@.contains(id),
        r is Some ==> r->0 < live@.len() && live@[r->0 as int] == id && live@.index_of_first(id) == Some(r->0 as int),
{
    let mut i: usize = 0;
    while i < live.len()
        invariant
            i <= live@.len(),
            forall|k: int| 0 <= k < i ==> live@[k] != id,
        decreases live@.len() - i,
    {
        if live[i] == id {
            proof {
                live@.index_of_first_ensures(id);
                let f = live@.index_of_first(id);
                assert(live@.contains(id));
                if f->0 < i {
                    assert(live@[f->0] != id);
                }
                if f->0 > i {
                    assert(live@[i as int] == id);
                }
            }
            return Some(i);
        }
        i = i + 1;
    }
    proof {
        if live@.contains(id) {
            let k = choose|k: int| 0 <= k < live@.len() && live@[k] == id;
            assert(live@[k] != id);
        }
    }
    None
}

impl<'a> DiskWriter<'a> {
    /// A writer of `planner`'s changes to `device`.
    pub fn new(device: &'a BlockDevice, planner: &'a Planner) -> (r: DiskWriter<'a>)
        ensures
            r.device == device,
            r.planner == planner,
    {
        DiskWriter { device, planner }
    }

    /// Check the journal before anything is written: walking it in order,
    /// no partition id may be added while a partition with that id is live.
    pub fn validate_changes(&self) -> (r: Result<(), WriteError>)
        ensures
            match duplicate_from(self.planner.journal(), Seq::empty()) {
                Some(id) => r == Err::<(), WriteError>(WriteError::DuplicatePartitionId(id)),
                None => r is Ok,
            },
    {
        let changes = self.planner.changes();
        let ghost j = change_views(changes@);
        let mut live: Vec<u32> = Vec::new();
        let mut i: usize = 0;
        proof {
            assert(j.subrange(0, j.len() as int) =~= j);
        }
        while i < changes.len()
            invariant
                i <= changes@.len(),
                j == change_views(changes@),
                j == self.planner.journal(),
                duplicate_from(j, Seq::empty()) == duplicate_from(j.subrange(i as int, j.len() as int), live@),
            decreases changes@.len() - i,
        {
            let ghost rest = j.subrange(i as int, j.len() as int);
            proof {
                assert(rest[0] == changes@[i as int]@);
                assert(rest.drop_first() =~= j.subrange(i + 1, j.len() as int));
            }
            match &changes[i] {
                Change::AddPartition { partition_id, .. } => {
                    if find_live(&live, *partition_id).is_some() {
                        return Err(WriteError::DuplicatePartitionId(*partition_id));
                    }
                    live.push(*partition_id);
                },
                Change::DeletePartition { partition_id, .. } => {
                    match find_live(&live, *partition_id) {
                        Some(k) => {
                            let ghost before = live@;
                            live.remove(k);
                            proof {
                                assert(live@ == before.remove_value(*partition_id));
                            }
                        },
                        None => {
                            proof {
                                assert(live@.index_of_first(*partition_id) is None) by {
                                    live@.index_of_first_ensures(*partition_id);
                                }
                                assert(live@.remove_value(*partition_id) == live@);
                            }
                        },
                    }
                },
            }
            i = i + 1;
        }
        proof {
            assert(j.subrange(j.len() as int, j.len() as int) =~= Seq::<ChangeView>::empty());
        }
        Ok(())
    }

    /// Check that the device still has the size the plan was made for.
    pub fn validate_size(&self, observed: u64) -> (r: Result<(), WriteError>)
        ensures
            observed == self.planner.disk_size() ==> r is Ok,
            observed != self.planner.disk_size() ==> r == Err::<(), WriteError>(
                WriteError::DeviceSizeChanged { planned: self.planner.disk_size(), observed },
            ),
    {
        let planned = self.planner.device_size();
        if planned == observed {
            Ok(())
        } else {
            Err(WriteError::DeviceSizeChanged { planned, observed })
        }
    }

    /// The GPT operations that carry out the journal, in order: an entry for
    /// each addition, in 512-byte sectors, with the type and name from its
    /// attributes (basic data and no name by default); a removal for each
    /// deletion.
    pub fn gpt_operations(&self) -> (r: Vec<GptOperation>)
        requires
            self.planner.inv(),
        ensures
            r@.len() == self.planner.entries().len(),
            forall|i: int| 0 <= i < r@.len() ==> operation_for(self.planner.entries()[i], #[trigger] r@[i]),
    {
        let changes = self.planner.changes();
        proof {
            crate::planner::lemma_journal_adds(self.planner);
            assert forall|k: int|
                0 <= k < changes@.len() implies ((#[trigger] changes@[k]) matches Change::AddPartition { start, end, .. } ==> start < end) by {
                assert(self.planner.journal()[k] == changes@[k]@);
            }
        }
        let mut ops: Vec<GptOperation> = Vec::new();
        let mut i: usize = 0;
        while i < changes.len()
            invariant
                i <= changes@.len(),
                changes@ == self.planner.entries(),
                ops@.len() == i,
                forall|k: int| 0 <= k < i ==> operation_for(changes@[k], #[trigger] ops@[k]),
                forall|k: int|
                    0 <= k < changes@.len() ==> ((#[trigger] changes@[k]) matches Change::AddPartition { start, end, .. } ==> start < end),
            decreases changes@.len() - i,
        {
            let op = match &changes[i] {
                Change::AddPartition { start, end, partition_id, attributes } => {
                    let (type_guid, name) = match attributes {
                        Some(a) => match &a.table {
                            TableAttributes::Gpt(g) => {
                                let n = match &g.name {
                                    Some(n) => n.clone(),
                                    None => String::new(),
                                };
                                (g.type_guid, n)
                            },
                        },
                        None => (GptPartitionType::Basic, String::new()),
                    };
                    GptOperation::Add {
                        name,
                        id: *partition_id,
                        first_lba: *start / SECTOR_SIZE,
                        length_lba: (*end - *start) / SECTOR_SIZE,
                        type_guid,
                    }
                },
                Change::DeletePartition { partition_id, .. } => GptOperation::Remove { id: *partition_id },
            };
            ops.push(op);
            i = i + 1;
        }
        ops
    }

    /// The byte intervals of the partitions the journal adds, in order;
    /// their heads are cleared after the table is written.
    pub fn added_regions(&self) -> (r: Vec<(u64, u64)>)
        ensures
            r@ == added_intervals(self.planner.journal()),
    {
        let changes = self.planner.changes();
        let ghost j = change_views(changes@);
        let mut out: Vec<(u64, u64)> = Vec::new();
        let mut i: usize = 0;
        proof {
            assert(j.subrange(0, 0) =~= Seq::<ChangeView>::empty());
        }
        while i < changes.len()
            invariant
                i <= changes@.len(),
                j == change_views(changes@),
                j == self.planner.journal(),
                out@ == added_intervals(j.subrange(0, i as int)),
            decreases changes@.len() - i,
        {
            let ghost t = j.subrange(0, i + 1);
            proof {
                assert(t.drop_last() =~= j.subrange(0, i as int));
                assert(t.last() == changes@[i as int]@);
            }
            match &changes[i] {
                Change::AddPartition { start, end, .. } => {
                    out.push((*start, *end));
                },
                Change::DeletePartition { .. } => {},
            }
            i = i + 1;
        }
        proof {
            assert(j.subrange(0, j.len() as int) =~= j);
        }
        out
    }
}

/// The intervals added by a journal, in order.
pub open spec fn added_intervals(j: Seq<ChangeView>) -> Seq<(u64, u64)>
    decreases j.len(),
{
    if j.len() == 0 {
        Seq::empty()
    } else {
        let rest = added_intervals(j.drop_last());
        match j.last() {
            ChangeView::Add { start, end, .. } => rest.push((start, end)),
            ChangeView::Delete { .. } => rest,
        }
    }
}

} // verus!
