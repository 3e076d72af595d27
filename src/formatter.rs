//! Which formatting tool a filesystem needs, and with which arguments.

use vstd::prelude::*;
use crate::text::{decimal, decimal_text};
use crate::types::{Filesystem, StandardFilesystemType};

verus! {

/// The texts of a list of strings.
pub open spec fn texts(v: Seq<String>) -> Seq<Seq<char>> {
    v.map_values(|s: String| s@)
}

/// The formatting tool for a filesystem.
pub open spec fn mkfs_name(fs: Filesystem) -> Seq<char> {
    match fs {
        Filesystem::Fat32 { .. } => "mkfs.fat"@,
        Filesystem::Standard { filesystem_type, .. } => match filesystem_type {
            StandardFilesystemType::F2fs => "mkfs.f2fs"@,
            StandardFilesystemType::Ext4 => "mkfs.ext4"@,
            StandardFilesystemType::Xfs => "mkfs.xfs"@,
            StandardFilesystemType::Swap => "mkswap"@,
        },
    }
}

/// The arguments that set the UUID (the volume id for FAT32).
pub open spec fn uuid_args(fs: Filesystem) -> Seq<Seq<char>> {
    match fs {
        Filesystem::Fat32 { volume_id, .. } => match volume_id {
            Some(id) => seq!["-i"@, decimal_text(id as nat)],
            None => Seq::empty(),
        },
        Filesystem::Standard { filesystem_type, uuid, .. } => match uuid {
            Some(u) => match filesystem_type {
                StandardFilesystemType::Xfs => seq!["-m"@, "uuid="@ + u@],
                _ => seq!["-U"@, u@],
            },
            None => Seq::empty(),
        },
    }
}

/// The arguments that set the label.
pub open spec fn label_args(fs: Filesystem) -> Seq<Seq<char>> {
    match fs {
        Filesystem::Fat32 { label, .. } => match label {
            Some(l) => seq!["-n"@, l@],
            None => Seq::empty(),
        },
        Filesystem::Standard { filesystem_type, label, .. } => match label {
            Some(l) => match filesystem_type {
                StandardFilesystemType::F2fs => seq!["-l"@, l@],
                _ => seq!["-L"@, l@],
            },
            None => Seq::empty(),
        },
    }
}

/// The arguments that make the tool overwrite an existing filesystem.
pub open spec fn force_args(fs: Filesystem) -> Seq<Seq<char>> {
    match fs {
        Filesystem::Fat32 { .. } => Seq::empty(),
        Filesystem::Standard { filesystem_type, .. } => match filesystem_type {
            StandardFilesystemType::Ext4 => seq!["-F"@],
            _ => seq!["-f"@],
        },
    }
}

/// Formatting commands and arguments for a filesystem.
pub trait FilesystemExt {
    /// The name of the formatting tool, as characters.
    spec fn spec_mkfs(&self) -> Seq<char>;

    /// The UUID arguments, as characters.
    spec fn spec_uuid_args(&self) -> Seq<Seq<char>>;

    /// The label arguments, as characters.
    spec fn spec_label_args(&self) -> Seq<Seq<char>>;

    /// The force arguments, as characters.
    spec fn spec_force_args(&self) -> Seq<Seq<char>>;

    /// The formatting tool to run.
    fn mkfs_command(&self) -> (r: &'static str)
        ensures
            r@ == self.spec_mkfs(),
    ;

    /// The arguments that set the UUID, if one is given.
    fn uuid_arg(&self) -> (r: Vec<String>)
        ensures
            texts(r@) == self.spec_uuid_args(),
    ;

    /// The arguments that set the label, if one is given.
    fn label_arg(&self) -> (r: Vec<String>)
        ensures
            texts(r@) == self.spec_label_args(),
    ;

    /// The arguments that force formatting over existing data.
    fn force_arg(&self) -> (r: Vec<String>)
        ensures
            texts(r@) == self.spec_force_args(),
    ;
}

/// A list of one or two strings.
fn strings(a: &str, b: Option<String>) -> (r: Vec<String>)
    ensures
        b is Some ==> texts(r@) == seq![a@, b->0@],
        b is None ==> texts(r@) == seq![a@],
{
    let mut v: Vec<String> = Vec::new();
    v.push(String::from_str(a));
    match b {
        Some(s) => {
            v.push(s);
            proof {
                assert(texts(v@) =~= seq![a@, s@]);
            }
        },
        None => {
            proof {
                assert(texts(v@) =~= seq![a@]);
            }
        },
    }
    v
}

impl FilesystemExt for Filesystem {
    open spec fn spec_mkfs(&self) -> Seq<char> {
        mkfs_name(*self)
    }

    open spec fn spec_uuid_args(&self) -> Seq<Seq<char>> {
        uuid_args(*self)
    }

    open spec fn spec_label_args(&self) -> Seq<Seq<char>> {
        label_args(*self)
    }

    open spec fn spec_force_args(&self) -> Seq<Seq<char>> {
        force_args(*self)
    }

    fn mkfs_command(&self) -> (r: &'static str) {
        match self {
            Filesystem::Fat32 { .. } => "mkfs.fat",
            Filesystem::Standard { filesystem_type, .. } => match filesystem_type {
                StandardFilesystemType::F2fs => "mkfs.f2fs",
                StandardFilesystemType::Ext4 => "mkfs.ext4",
                StandardFilesystemType::Xfs => "mkfs.xfs",
                StandardFilesystemType::Swap => "mkswap",
            },
        }
    }

    fn uuid_arg(&self) -> (r: Vec<String>) {
        match self {
            Filesystem::Fat32 { volume_id, .. } => match volume_id {
                Some(id) => strings("-i", Some(decimal(*id as u64))),
                None => {
                    let v: Vec<String> = Vec::new();
                    proof {
                        assert(texts(v@) =~= Seq::<Seq<char>>::empty());
                    }
                    v
                },
            },
            Filesystem::Standard { filesystem_type, uuid, .. } => match uuid {
                Some(u) => match filesystem_type {
                    StandardFilesystemType::Xfs => {
                        let mut arg = String::from_str("uuid=");
                        arg.append(u.as_str());
                        strings("-m", Some(arg))
                    },
                    _ => strings("-U", Some(u.clone())),
                },
                None => {
                    let v: Vec<String> = Vec::new();
                    proof {
                        assert(texts(v@) =~= Seq::<Seq<char>>::empty());
                    }
                    v
                },
            },
        }
    }

    fn label_arg(&self) -> (r: Vec<String>) {
        match self {
            Filesystem::Fat32 { label, .. } => match label {
                Some(l) => strings("-n", Some(l.clone())),
                None => {
                    let v: Vec<String> = Vec::new();
                    proof {
                        assert(texts(v@) =~= Seq::<Seq<char>>::empty());
                    }
                    v
                },
            },
            Filesystem::Standard { filesystem_type, label, .. } => match label {
                Some(l) => match filesystem_type {
                    StandardFilesystemType::F2fs => strings("-l", Some(l.clone())),
                    _ => strings("-L", Some(l.clone())),
                },
                None => {
                    let v: Vec<String> = Vec::new();
                    proof {
                        assert(texts(v@) =~= Seq::<Seq<char>>::empty());
                    }
                    v
                },
            },
        }
    }

    fn force_arg(&self) -> (r: Vec<String>) {
        match self {
            Filesystem::Fat32 { .. } => {
                let v: Vec<String> = Vec::new();
                proof {
                    assert(texts(v@) =~= Seq::<Seq<char>>::empty());
                }
                v
            },
            Filesystem::Standard { filesystem_type, .. } => match filesystem_type {
                StandardFilesystemType::Ext4 => strings("-F", None),
                _ => strings("-f", None),
            },
        }
    }
}

/// A filesystem to create, and whether to overwrite what is there.
pub struct Formatter {
    pub filesystem: Filesystem,
    pub force: bool,
}

/// The arguments of the formatting tool for `f` on `device`: UUID, label,
/// force (when asked for), then the device.
pub open spec fn format_args(f: Formatter, device: Seq<char>) -> Seq<Seq<char>> {
    uuid_args(f.filesystem) + label_args(f.filesystem) + (if f.force {
        force_args(f.filesystem)
    } else {
        Seq::empty()
    }) + seq![device]
}

/// Append `b` to `a`.
fn append_all(a: &mut Vec<String>, b: Vec<String>)
    ensures
        texts(final(a)@) == texts(old(a)@) + texts(b@),
{
    let ghost orig = a@;
    let ghost extra = b@;
    let mut b = b;
    a.append(&mut b);
    proof {
        assert(a@ == orig + extra);
        assert(texts(a@) =~= texts(orig) + texts(extra));
    }
}

impl Formatter {
    /// A formatter for `filesystem` that does not force.
    pub fn new(filesystem: Filesystem) -> (r: Formatter)
        ensures
            r.filesystem == filesystem,
            !r.force,
    {
        Formatter { filesystem, force: false }
    }

    /// The same formatter, forcing.
    pub fn force(self) -> (r: Formatter)
        ensures
            r.filesystem == self.filesystem,
            r.force,
    {
        Formatter { force: true, ..self }
    }

    /// The tool to run.
    pub fn program(&self) -> (r: &'static str)
        ensures
            r@ == mkfs_name(self.filesystem),
    {
        self.filesystem.mkfs_command()
    }

    /// The arguments to run the tool with on `device`.
    pub fn arguments(&self, device: &str) -> (r: Vec<String>)
        ensures
            texts(r@) == format_args(*self, device@),
    {
        let mut args = self.filesystem.uuid_arg();
        append_all(&mut args, self.filesystem.label_arg());
        if self.force {
            append_all(&mut args, self.filesystem.force_arg());
        }
        let ghost before = args@;
        args.push(String::from_str(device));
        proof {
            assert(texts(args@) =~= texts(before) + seq![device@]);
            if self.force {
                assert(texts(args@) =~= format_args(*self, device@));
            } else {
                assert(texts(args@) =~= format_args(*self, device@));
            }
        }
        args
    }
}

} // verus!
