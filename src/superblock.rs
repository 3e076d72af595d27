//! Filesystem identification from raw bytes: the kind of filesystem, its
//! UUID and its label, read from the superblock at a fixed offset.
//!
//! Each kind has a magic value at a fixed byte offset and a superblock of a
//! fixed size at a fixed offset. Kinds are tried in a fixed order; the first
//! whose magic matches wins.

use vstd::prelude::*;
use vstd::utf8::{decode_utf8, valid_utf8};
use crate::text::{lower_hex_digits, push_char, push_upper_hex, upper_hex_text};

verus! {

/// The filesystems and containers that can be identified.
#[derive(Clone, Copy, Debug, PartialEq, Eq, Structural)]
pub enum Kind {
    Btrfs,
    Ext4,
    Luks2,
    F2FS,
    Xfs,
    Fat,
}

/// The name of a kind, as `ext4` or `luks2`.
pub open spec fn kind_name(k: Kind) -> Seq<char> {
    match k {
        Kind::Btrfs => "btrfs"@,
        Kind::Ext4 => "ext4"@,
        Kind::Luks2 => "luks2"@,
        Kind::F2FS => "f2fs"@,
        Kind::Xfs => "xfs"@,
        Kind::Fat => "fat"@,
    }
}

impl Kind {
    /// The kind's name, as `ext4` or `luks2`.
    pub fn name(&self) -> (r: &'static str)
        ensures
            r@ == kind_name(*self),
    {
        match self {
            Kind::Btrfs => "btrfs",
            Kind::Ext4 => "ext4",
            Kind::Luks2 => "luks2",
            Kind::F2FS => "f2fs",
            Kind::Xfs => "xfs",
            Kind::Fat => "fat",
        }
    }
}

/// Why text stored in filesystem metadata could not be decoded.
#[derive(Clone, Copy, Debug, PartialEq, Eq, Structural)]
pub enum UnicodeError {
    /// The bytes are not UTF-8.
    InvalidUtf8,
    /// The code units are not UTF-16.
    InvalidUtf16,
}

/// Why a superblock could not be read or a field of it decoded.
#[derive(Clone, Copy, Debug, PartialEq, Eq, Structural)]
pub enum Error {
    /// The buffer ends before a field that had to be read.
    Io,
    /// No known superblock was found.
    UnknownSuperblock,
    /// The filesystem does not offer this field here.
    UnsupportedFeature,
    /// A text field could not be decoded.
    Unicode(UnicodeError),
}

/// Why the LUKS2 JSON area could not be extracted.
#[derive(Clone, Copy, Debug, PartialEq, Eq, Structural)]
pub enum ConfigError {
    /// The buffer ends before the JSON area does, or the header size is
    /// smaller than the binary header.
    Io,
    /// The JSON area is not UTF-8.
    InvalidUtf8,
}

/// The order in which kinds are tried.
pub open spec fn detection_order() -> Seq<Kind> {
    seq![Kind::Ext4, Kind::Btrfs, Kind::F2FS, Kind::Xfs, Kind::Luks2, Kind::Fat]
}

/// Where a kind's magic value starts.
pub open spec fn magic_offset(k: Kind) -> int {
    match k {
        Kind::Ext4 => 1080,
        Kind::Btrfs => 65600,
        Kind::F2FS => 1024,
        Kind::Xfs => 0,
        Kind::Luks2 => 0,
        Kind::Fat => 0x1FE,
    }
}

/// How many bytes a kind's magic value has.
pub open spec fn magic_len(k: Kind) -> int {
    match k {
        Kind::Ext4 => 2,
        Kind::Btrfs => 8,
        Kind::F2FS => 4,
        Kind::Xfs => 4,
        Kind::Luks2 => 6,
        Kind::Fat => 2,
    }
}

/// Where a kind's superblock starts.
pub open spec fn sb_offset(k: Kind) -> int {
    match k {
        Kind::Ext4 => 1024,
        Kind::Btrfs => 65536,
        Kind::F2FS => 1024,
        Kind::Xfs => 0,
        Kind::Luks2 => 0,
        Kind::Fat => 0,
    }
}

/// How many bytes a kind's superblock has.
pub open spec fn sb_size(k: Kind) -> int {
    match k {
        Kind::Ext4 => 1024,
        Kind::Btrfs => 104,
        Kind::F2FS => 3072,
        Kind::Xfs => 264,
        Kind::Luks2 => 4096,
        Kind::Fat => 90,
    }
}

/// The bytes of a magic value as it appears on disk.
pub open spec fn magic_bytes(k: Kind) -> Seq<u8> {
    match k {
        Kind::Ext4 => seq![0x53u8, 0xEF],
        Kind::Btrfs => seq![0x5Fu8, 0x42, 0x48, 0x52, 0x66, 0x53, 0x5F, 0x4D],
        Kind::F2FS => seq![0x10u8, 0x20, 0xF5, 0xF2],
        Kind::Xfs => seq![0x58u8, 0x46, 0x53, 0x42],
        Kind::Luks2 => seq![0x4Cu8, 0x55, 0x4B, 0x53, 0xBA, 0xBE],
        Kind::Fat => seq![0x55u8, 0xAA],
    }
}

/// The byte-swapped LUKS2 magic found on secondary headers.
pub open spec fn luks2_alt_magic() -> Seq<u8> {
    seq![0x53u8, 0x4B, 0x55, 0x4C, 0xBA, 0xBE]
}

/// The magic value of kind `k` is present in `b` (which holds it).
pub open spec fn magic_ok(k: Kind, b: Seq<u8>) -> bool {
    let m = b.subrange(magic_offset(k), magic_offset(k) + magic_len(k));
    m == magic_bytes(k) || (k == Kind::Luks2 && m == luks2_alt_magic())
}

/// Probing `b` for kind `k`: `None` where a read runs past the end of the
/// buffer, else whether the kind is present.
pub open spec fn probe(k: Kind, b: Seq<u8>) -> Option<bool> {
    if b.len() < magic_offset(k) + magic_len(k) {
        None
    } else if !magic_ok(k, b) {
        Some(false)
    } else if b.len() < sb_offset(k) + sb_size(k) {
        None
    } else {
        Some(true)
    }
}

/// The kind found by trying the kinds from position `i` of the order on.
pub open spec fn identify_from(b: Seq<u8>, i: int) -> Result<Kind, Error>
    decreases 6 - i,
{
    if i < 0 || i >= 6 {
        Err(Error::UnknownSuperblock)
    } else {
        match probe(detection_order()[i], b) {
            None => Err(Error::Io),
            Some(true) => Ok(detection_order()[i]),
            Some(false) => identify_from(b, i + 1),
        }
    }
}

/// The kind of filesystem whose superblock `b` holds.
pub open spec fn identify(b: Seq<u8>) -> Result<Kind, Error> {
    identify_from(b, 0)
}

/// The superblock region of kind `k` in `b`.
pub open spec fn region_of(k: Kind, b: Seq<u8>) -> Seq<u8> {
    b.subrange(sb_offset(k), sb_offset(k) + sb_size(k))
}

/// A little-endian 16-bit value.
pub open spec fn le16(b: Seq<u8>, off: int) -> int {
    b[off] + 256 * b[off + 1]
}

/// A little-endian 32-bit value.
pub open spec fn le32(b: Seq<u8>, off: int) -> int {
    le16(b, off) + 65536 * le16(b, off + 2)
}

/// A big-endian 64-bit value.
pub open spec fn be64(b: Seq<u8>, off: int) -> int {
    be_bytes(b.subrange(off, off + 8))
}

/// A big-endian unsigned value.
pub open spec fn be_bytes(b: Seq<u8>) -> int
    decreases b.len(),
{
    if b.len() == 0 {
        0
    } else {
        be_bytes(b.drop_last()) * 256 + b.last()
    }
}

/// Two lower-case hexadecimal digits for a byte.
pub open spec fn hex_pair(x: u8) -> Seq<char> {
    seq![lower_hex_digits()[(x / 16) as int], lower_hex_digits()[(x % 16) as int]]
}

/// Lower-case hexadecimal digits for each byte, in order.
pub open spec fn hex_bytes(b: Seq<u8>) -> Seq<char>
    decreases b.len(),
{
    if b.len() == 0 {
        Seq::empty()
    } else {
        hex_bytes(b.drop_last()) + hex_pair(b.last())
    }
}

/// A 16-byte UUID in the hyphenated 8-4-4-4-12 form, lower case.
pub open spec fn hyphenated(b: Seq<u8>) -> Seq<char> {
    hex_bytes(b.subrange(0, 4)) + seq!['-'] + hex_bytes(b.subrange(4, 6)) + seq!['-'] + hex_bytes(
        b.subrange(6, 8),
    ) + seq!['-'] + hex_bytes(b.subrange(8, 10)) + seq!['-'] + hex_bytes(b.subrange(10, 16))
}

/// `s` without the run of `c` at its end.
pub open spec fn trim_end(s: Seq<char>, c: char) -> Seq<char>
    decreases s.len(),
{
    if s.len() > 0 && s.last() == c {
        trim_end(s.drop_last(), c)
    } else {
        s
    }
}

/// The code units are well-formed UTF-16: every high surrogate is followed
/// by a low one and no low surrogate stands alone.
pub open spec fn utf16_valid(u: Seq<u16>) -> bool
    decreases u.len(),
{
    if u.len() == 0 {
        true
    } else if 0xD800 <= u[0] <= 0xDBFF {
        u.len() >= 2 && 0xDC00 <= u[1] <= 0xDFFF && utf16_valid(u.skip(2))
    } else if 0xDC00 <= u[0] <= 0xDFFF {
        false
    } else {
        utf16_valid(u.skip(1))
    }
}

/// The characters that well-formed UTF-16 code units encode.
pub open spec fn utf16_text(u: Seq<u16>) -> Seq<char>
    decreases u.len(),
{
    if u.len() == 0 {
        Seq::empty()
    } else if 0xD800 <= u[0] <= 0xDBFF && u.len() >= 2 {
        let c = ((u[0] - 0xD800) * 0x400 + (u[1] - 0xDC00) + 0x10000) as u32;
        seq![c as char] + utf16_text(u.skip(2))
    } else {
        seq![(u[0] as u32) as char] + utf16_text(u.skip(1))
    }
}

/// The little-endian 16-bit code units of `b`.
pub open spec fn units_le(b: Seq<u8>) -> Seq<u16> {
    Seq::new(b.len() / 2, |i: int| (b[2 * i] + 256 * b[2 * i + 1]) as u16)
}

/// What `String::from_utf8_lossy` makes of `b`: the bytes decoded as UTF-8,
/// with each ill-formed part replaced by U+FFFD.
pub uninterp spec fn lossy_text(b: Seq<u8>) -> Seq<char>;

/// Relies on `uuid::Uuid::from_bytes` and the `Display` of its hyphenated
/// form: eight, four, four, four and twelve lower-case hex digits, joined by
/// hyphens, for the bytes in order.
#[verifier::external_body]
fn uuid_string(b: &[u8]) -> (r: String)
    requires
        b@.len() == 16,
    ensures
        r@ == hyphenated(b@),
{
    let bytes: [u8; 16] = <[u8; 16]>::try_from(b).unwrap_or([0u8; 16]);
    uuid::Uuid::from_bytes(bytes).hyphenated().to_string()
}

/// Relies on `std::str::from_utf8`: the text when the bytes are UTF-8.
#[verifier::external_body]
fn utf8_string(b: &[u8]) -> (r: Option<String>)
    ensures
        r is Some <==> valid_utf8(b@),
        r is Some ==> r->0@ == decode_utf8(b@),
{
    match std::str::from_utf8(b) {
        Ok(s) => Some(s.to_string()),
        Err(_) => None,
    }
}

/// Relies on `String::from_utf8_lossy`: the bytes decoded as UTF-8, each
/// ill-formed part replaced; well-formed bytes decode exactly.
#[verifier::external_body]
fn utf8_lossy_string(b: &[u8]) -> (r: String)
    ensures
        r@ == lossy_text(b@),
        valid_utf8(b@) ==> r@ == decode_utf8(b@),
{
    String::from_utf8_lossy(b).into_owned()
}

/// Relies on `String::from_utf16`: the text when the code units are UTF-16.
#[verifier::external_body]
fn utf16_string(u: &[u16]) -> (r: Option<String>)
    ensures
        r is Some <==> utf16_valid(u@),
        r is Some ==> r->0@ == utf16_text(u@),
{
    String::from_utf16(u).ok()
}

/// Relies on `str::trim_end_matches` with a character pattern: the text
/// without the run of `c` at its end.
#[verifier::external_body]
fn trim_end_char(s: &str, c: char) -> (r: String)
    ensures
        r@ == trim_end(s@, c),
{
    s.trim_end_matches(c).to_string()
}

/// `len` bytes of `b` from `start`.
fn copy_range(b: &[u8], start: usize, len: usize) -> (r: Vec<u8>)
    requires
        start + len <= b@.len(),
    ensures
        r@ == b@.subrange(start as int, start + len),
{
    let mut out: Vec<u8> = Vec::new();
    let mut i: usize = 0;
    let n = b.len();
    while i < len
        invariant
            i <= len,
            n == b@.len(),
            start + len <= b@.len(),
            out@ == b@.subrange(start as int, start + i),
        decreases len - i,
    {
        out.push(b[start + i]);
        proof {
            assert(out@ =~= b@.subrange(start as int, start + i + 1));
        }
        i = i + 1;
    }
    out
}

/// The text of a NUL-padded UTF-8 field.
pub open spec fn nul_padded_text(b: Seq<u8>) -> Result<Seq<char>, Error> {
    if valid_utf8(b) {
        Ok(trim_end(decode_utf8(b), '\0'))
    } else {
        Err(Error::Unicode(UnicodeError::InvalidUtf8))
    }
}

/// The views of a text result.
pub open spec fn text_view(r: Result<String, Error>) -> Result<Seq<char>, Error> {
    match r {
        Ok(s) => Ok(s@),
        Err(e) => Err(e),
    }
}

/// Decode a NUL-padded UTF-8 field of `region`.
fn nul_padded(region: &Vec<u8>, start: usize, len: usize) -> (r: Result<String, Error>)
    requires
        start + len <= region@.len(),
    ensures
        text_view(r) == nul_padded_text(region@.subrange(start as int, start + len)),
{
    let field = copy_range(region.as_slice(), start, len);
    match utf8_string(field.as_slice()) {
        Some(s) => Ok(trim_end_char(s.as_str(), '\0')),
        None => Err(Error::Unicode(UnicodeError::InvalidUtf8)),
    }
}

/// The hyphenated UUID of the 16 bytes of `region` from `start`.
fn uuid_at(region: &Vec<u8>, start: usize) -> (r: String)
    requires
        start + 16 <= region@.len(),
    ensures
        r@ == hyphenated(region@.subrange(start as int, start + 16)),
{
    let field = copy_range(region.as_slice(), start, 16);
    uuid_string(field.as_slice())
}

/// The volume id in the form `HHHH-HHHH`: the high and the low 16 bits in
/// upper-case hexadecimal.
pub open spec fn vol_id_text(id: nat) -> Seq<char> {
    upper_hex_text(id / 65536, 4) + seq!['-'] + upper_hex_text(id % 65536, 4)
}

/// An ext4 superblock.
pub struct Ext4 {
    region: Vec<u8>,
}

/// A btrfs superblock (its leading part).
pub struct Btrfs {
    region: Vec<u8>,
}

/// An F2FS superblock.
pub struct F2FS {
    region: Vec<u8>,
}

/// An XFS superblock (its leading part).
pub struct Xfs {
    region: Vec<u8>,
}

/// A LUKS2 binary header.
pub struct Luks2 {
    region: Vec<u8>,
}

/// A FAT boot sector (its BIOS parameter block).
pub struct Fat {
    region: Vec<u8>,
}

/// The two FAT layouts, which place the extended fields differently.
#[derive(Clone, Copy, Debug, PartialEq, Eq, Structural)]
pub enum FatType {
    Fat16,
    Fat32,
}

/// A superblock that was identified, with the bytes of its region.
pub enum Superblock {
    Btrfs(Box<Btrfs>),
    Ext4(Box<Ext4>),
    F2FS(Box<F2FS>),
    Luks2(Box<Luks2>),
    Xfs(Box<Xfs>),
    Fat(Box<Fat>),
}

impl Ext4 {
    /// The superblock's bytes.
    pub closed spec fn bytes(&self) -> Seq<u8> {
        self.region@
    }

    /// The 16-byte filesystem id, hyphenated.
    pub fn uuid(&self) -> (r: Result<String, Error>)
        requires
            self.bytes().len() == sb_size(Kind::Ext4),
        ensures
            text_view(r) == Ok::<Seq<char>, Error>(hyphenated(self.bytes().subrange(0x68, 0x78))),
    {
        Ok(uuid_at(&self.region, 0x68))
    }

    /// The NUL-padded UTF-8 volume name.
    pub fn label(&self) -> (r: Result<String, Error>)
        requires
            self.bytes().len() == sb_size(Kind::Ext4),
        ensures
            text_view(r) == nul_padded_text(self.bytes().subrange(0x78, 0x88)),
    {
        nul_padded(&self.region, 0x78, 16)
    }
}

impl Btrfs {
    /// The superblock's bytes.
    pub closed spec fn bytes(&self) -> Seq<u8> {
        self.region@
    }

    /// The 16-byte filesystem id, hyphenated.
    pub fn uuid(&self) -> (r: Result<String, Error>)
        requires
            self.bytes().len() == sb_size(Kind::Btrfs),
        ensures
            text_view(r) == Ok::<Seq<char>, Error>(hyphenated(self.bytes().subrange(32, 48))),
    {
        Ok(uuid_at(&self.region, 32))
    }

    /// Labels are not read from btrfs.
    pub fn label(&self) -> (r: Result<String, Error>)
        ensures
            r == Err::<String, Error>(Error::UnsupportedFeature),
    {
        Err(Error::UnsupportedFeature)
    }
}

impl F2FS {
    /// The superblock's bytes.
    pub closed spec fn bytes(&self) -> Seq<u8> {
        self.region@
    }

    /// The 16-byte filesystem id, hyphenated.
    pub fn uuid(&self) -> (r: Result<String, Error>)
        requires
            self.bytes().len() == sb_size(Kind::F2FS),
        ensures
            text_view(r) == Ok::<Seq<char>, Error>(hyphenated(self.bytes().subrange(108, 124))),
    {
        Ok(uuid_at(&self.region, 108))
    }

    /// The volume name: 512 UTF-16 code units, little endian, NUL-padded.
    pub fn label(&self) -> (r: Result<String, Error>)
        requires
            self.bytes().len() == sb_size(Kind::F2FS),
        ensures
            text_view(r) == f2fs_label_text(self.bytes()),
    {
        let mut units: Vec<u16> = Vec::new();
        let mut i: usize = 0;
        let ghost field = self.region@.subrange(124, 1148);
        while i < 512
            invariant
                i <= 512,
                self.region@.len() == 3072,
                field == self.region@.subrange(124, 1148),
                units@ == units_le(field).subrange(0, i as int),
            decreases 512 - i,
        {
            let lo = self.region[124 + 2 * i] as u16;
            let hi = self.region[125 + 2 * i] as u16;
            units.push(lo + 256 * hi);
            proof {
                assert(units@ =~= units_le(field).subrange(0, i + 1));
            }
            i = i + 1;
        }
        proof {
            assert(units@ =~= units_le(field));
        }
        match utf16_string(units.as_slice()) {
            Some(s) => Ok(trim_end_char(s.as_str(), '\0')),
            None => Err(Error::Unicode(UnicodeError::InvalidUtf16)),
        }
    }
}

/// The F2FS volume name.
pub open spec fn f2fs_label_text(b: Seq<u8>) -> Result<Seq<char>, Error> {
    let u = units_le(b.subrange(124, 1148));
    if utf16_valid(u) {
        Ok(trim_end(utf16_text(u), '\0'))
    } else {
        Err(Error::Unicode(UnicodeError::InvalidUtf16))
    }
}

impl Xfs {
    /// The superblock's bytes.
    pub closed spec fn bytes(&self) -> Seq<u8> {
        self.region@
    }

    /// The 16-byte filesystem id, hyphenated.
    pub fn uuid(&self) -> (r: Result<String, Error>)
        requires
            self.bytes().len() == sb_size(Kind::Xfs),
        ensures
            text_view(r) == Ok::<Seq<char>, Error>(hyphenated(self.bytes().subrange(32, 48))),
    {
        Ok(uuid_at(&self.region, 32))
    }

    /// The NUL-padded UTF-8 filesystem name.
    pub fn label(&self) -> (r: Result<String, Error>)
        requires
            self.bytes().len() == sb_size(Kind::Xfs),
        ensures
            text_view(r) == nul_padded_text(self.bytes().subrange(108, 120)),
    {
        nul_padded(&self.region, 108, 12)
    }
}

impl Luks2 {
    /// The header's bytes.
    pub closed spec fn bytes(&self) -> Seq<u8> {
        self.region@
    }

    /// The UUID, which LUKS2 stores as NUL-padded text.
    pub fn uuid(&self) -> (r: Result<String, Error>)
        requires
            self.bytes().len() == sb_size(Kind::Luks2),
        ensures
            text_view(r) == nul_padded_text(self.bytes().subrange(168, 208)),
    {
        nul_padded(&self.region, 168, 40)
    }

    /// The NUL-padded label, often empty.
    pub fn label(&self) -> (r: Result<String, Error>)
        requires
            self.bytes().len() == sb_size(Kind::Luks2),
        ensures
            text_view(r) == nul_padded_text(self.bytes().subrange(24, 72)),
    {
        nul_padded(&self.region, 24, 48)
    }

    /// The header size recorded in the header, in bytes.
    pub fn hdr_size(&self) -> (r: u64)
        requires
            self.bytes().len() == sb_size(Kind::Luks2),
        ensures
            r == be64(self.bytes(), 8),
    {
        let mut v: u64 = 0;
        let mut i: usize = 0;
        while i < 8
            invariant
                i <= 8,
                self.region@.len() == 4096,
                v == be_bytes(self.region@.subrange(8, 8 + i)),
                v < pow256(i as nat),
            decreases 8 - i,
        {
            proof {
                let t = self.region@.subrange(8, 8 + i + 1);
                assert(t.drop_last() =~= self.region@.subrange(8, 8 + i));
                lemma_pow256_step(i as nat);
                assert(v * 256 + self.region@[8 + i] < pow256((i + 1) as nat)) by (nonlinear_arith)
                    requires
                        v < pow256(i as nat),
                        self.region@[8 + i] < 256,
                        pow256((i + 1) as nat) == pow256(i as nat) * 256,
                ;
                lemma_pow256_bound(i as nat + 1);
            }
            v = v * 256 + self.region[8 + i] as u64;
            i = i + 1;
        }
        v
    }

    /// The JSON metadata that follows the binary header: the bytes from
    /// 4096 up to the header size, as text, without trailing NULs.
    pub fn config_json(&self, data: &[u8]) -> (r: Result<String, ConfigError>)
        requires
            self.bytes().len() == sb_size(Kind::Luks2),
        ensures
            match luks2_json_text(be64(self.bytes(), 8), data@) {
                Ok(t) => r is Ok && r->Ok_0@ == t,
                Err(e) => r == Err::<String, ConfigError>(e),
            },
    {
        let size = self.hdr_size();
        if size < 4096 || size - 4096 > data.len() as u64 || 4096 > data.len() - (size - 4096) as usize {
            return Err(ConfigError::Io);
        }
        let json = copy_range(data, 4096, (size - 4096) as usize);
        match utf8_string(json.as_slice()) {
            Some(s) => Ok(trim_end_char(s.as_str(), '\0')),
            None => Err(ConfigError::InvalidUtf8),
        }
    }
}

/// `256` to the power `n`.
pub open spec fn pow256(n: nat) -> int
    decreases n,
{
    if n == 0 { 1 } else { 256 * pow256((n - 1) as nat) }
}

proof fn lemma_pow256_step(n: nat)
    ensures
        pow256(n + 1) == pow256(n) * 256,
{
}

proof fn lemma_pow256_bound(n: nat)
    requires
        n <= 8,
    ensures
        pow256(n) <= 0x1_0000_0000_0000_0000,
    decreases n,
{
    if n > 0 {
        lemma_pow256_bound((n - 1) as nat);
        assert(pow256((n - 1) as nat) <= 0x1_0000_0000_0000_00) by {
            lemma_pow256_le((n - 1) as nat);
        }
    }
}

proof fn lemma_pow256_le(n: nat)
    requires
        n <= 7,
    ensures
        pow256(n) <= 0x1_0000_0000_0000_00,
    decreases n,
{
    if n > 0 {
        lemma_pow256_le((n - 1) as nat);
        assert(pow256((n - 1) as nat) <= 0x1_0000_0000_0000) by {
            lemma_pow256_le6((n - 1) as nat);
        }
    }
}

proof fn lemma_pow256_le6(n: nat)
    requires
        n <= 6,
    ensures
        pow256(n) <= 0x1_0000_0000_0000,
    decreases n,
{
    reveal_with_fuel(pow256, 7);
}

/// The LUKS2 JSON area of a device whose header records `hdr_size`.
pub open spec fn luks2_json_text(hdr_size: int, data: Seq<u8>) -> Result<Seq<char>, ConfigError> {
    if hdr_size < 4096 || hdr_size > data.len() {
        Err(ConfigError::Io)
    } else {
        let json = data.subrange(4096, hdr_size);
        if valid_utf8(json) {
            Ok(trim_end(decode_utf8(json), '\0'))
        } else {
            Err(ConfigError::InvalidUtf8)
        }
    }
}

impl Fat {
    /// The boot sector's bytes.
    pub closed spec fn bytes(&self) -> Seq<u8> {
        self.region@
    }

    /// FAT32 when the 16-bit sectors-per-FAT field is zero and the 32-bit
    /// one is not, FAT16 otherwise.
    pub fn fat_type(&self) -> (r: FatType)
        requires
            self.bytes().len() == sb_size(Kind::Fat),
        ensures
            r == fat_type_of(self.bytes()),
    {
        let fat_length = self.region[22] as u32 + 256 * self.region[23] as u32;
        let fat32_length = self.region[36] as u64 + 256 * self.region[37] as u64 + 65536 * self.region[38] as u64
            + 16777216 * self.region[39] as u64;
        if fat_length == 0 && fat32_length != 0 {
            FatType::Fat32
        } else {
            FatType::Fat16
        }
    }

    /// The volume id as `HHHH-HHHH`.
    pub fn uuid(&self) -> (r: Result<String, Error>)
        requires
            self.bytes().len() == sb_size(Kind::Fat),
        ensures
            text_view(r) == Ok::<Seq<char>, Error>(vol_id_text(le32(self.bytes(), fat_common(fat_type_of(self.bytes())) + 3) as nat)),
    {
        let base: usize = match self.fat_type() {
            FatType::Fat16 => 36,
            FatType::Fat32 => 64,
        };
        let id: u64 = self.region[base + 3] as u64 + 256 * self.region[base + 4] as u64 + 65536
            * self.region[base + 5] as u64 + 16777216 * self.region[base + 6] as u64;
        let mut s = String::new();
        push_upper_hex(&mut s, id / 65536, 4);
        push_char(&mut s, '-');
        push_upper_hex(&mut s, id % 65536, 4);
        proof {
            assert(s@ =~= vol_id_text(id as nat));
        }
        Ok(s)
    }

    /// The 11-byte volume label without trailing spaces.
    pub fn label(&self) -> (r: Result<String, Error>)
        requires
            self.bytes().len() == sb_size(Kind::Fat),
        ensures
            text_view(r) == Ok::<Seq<char>, Error>(trim_end(lossy_text(self.bytes().subrange(
                fat_common(fat_type_of(self.bytes())) + 7,
                fat_common(fat_type_of(self.bytes())) + 18,
            )), ' ')),
    {
        let base: usize = match self.fat_type() {
            FatType::Fat16 => 36,
            FatType::Fat32 => 64,
        };
        let field = copy_range(self.region.as_slice(), base + 7, 11);
        let text = utf8_lossy_string(field.as_slice());
        Ok(trim_end_char(text.as_str(), ' '))
    }
}

/// The FAT layout of a boot sector.
pub open spec fn fat_type_of(b: Seq<u8>) -> FatType {
    if le16(b, 22) == 0 && le32(b, 36) != 0 {
        FatType::Fat32
    } else {
        FatType::Fat16
    }
}

/// Where the fields shared by both FAT layouts start.
pub open spec fn fat_common(t: FatType) -> int {
    match t {
        FatType::Fat16 => 36,
        FatType::Fat32 => 64,
    }
}

/// The UUID text of a superblock region of kind `k`.
pub open spec fn uuid_text(k: Kind, b: Seq<u8>) -> Result<Seq<char>, Error> {
    match k {
        Kind::Ext4 => Ok(hyphenated(b.subrange(0x68, 0x78))),
        Kind::Btrfs => Ok(hyphenated(b.subrange(32, 48))),
        Kind::F2FS => Ok(hyphenated(b.subrange(108, 124))),
        Kind::Xfs => Ok(hyphenated(b.subrange(32, 48))),
        Kind::Luks2 => nul_padded_text(b.subrange(168, 208)),
        Kind::Fat => Ok(vol_id_text(le32(b, fat_common(fat_type_of(b)) + 3) as nat)),
    }
}

/// The label text of a superblock region of kind `k`.
pub open spec fn label_text(k: Kind, b: Seq<u8>) -> Result<Seq<char>, Error> {
    match k {
        Kind::Ext4 => nul_padded_text(b.subrange(0x78, 0x88)),
        Kind::Btrfs => Err(Error::UnsupportedFeature),
        Kind::F2FS => f2fs_label_text(b),
        Kind::Xfs => nul_padded_text(b.subrange(108, 120)),
        Kind::Luks2 => nul_padded_text(b.subrange(24, 72)),
        Kind::Fat => Ok(trim_end(lossy_text(b.subrange(fat_common(fat_type_of(b)) + 7, fat_common(fat_type_of(b)) + 18)), ' ')),
    }
}

impl Superblock {
    /// The kind of superblock.
    pub closed spec fn spec_kind(&self) -> Kind {
        match self {
            Superblock::Btrfs(_) => Kind::Btrfs,
            Superblock::Ext4(_) => Kind::Ext4,
            Superblock::F2FS(_) => Kind::F2FS,
            Superblock::Luks2(_) => Kind::Luks2,
            Superblock::Xfs(_) => Kind::Xfs,
            Superblock::Fat(_) => Kind::Fat,
        }
    }

    /// The bytes of the superblock region.
    pub closed spec fn bytes(&self) -> Seq<u8> {
        match self {
            Superblock::Btrfs(b) => b.region@,
            Superblock::Ext4(b) => b.region@,
            Superblock::F2FS(b) => b.region@,
            Superblock::Luks2(b) => b.region@,
            Superblock::Xfs(b) => b.region@,
            Superblock::Fat(b) => b.region@,
        }
    }

    /// The region has the size of its kind's superblock.
    pub open spec fn wf(&self) -> bool {
        self.bytes().len() == sb_size(self.spec_kind())
    }

    /// The filesystem type of this superblock.
    pub fn kind(&self) -> (r: Kind)
        ensures
            r == self.spec_kind(),
    {
        match self {
            Superblock::Btrfs(_) => Kind::Btrfs,
            Superblock::Ext4(_) => Kind::Ext4,
            Superblock::F2FS(_) => Kind::F2FS,
            Superblock::Luks2(_) => Kind::Luks2,
            Superblock::Xfs(_) => Kind::Xfs,
            Superblock::Fat(_) => Kind::Fat,
        }
    }

    /// The filesystem UUID.
    pub fn uuid(&self) -> (r: Result<String, Error>)
        requires
            self.wf(),
        ensures
            text_view(r) == uuid_text(self.spec_kind(), self.bytes()),
    {
        match self {
            Superblock::Btrfs(b) => b.uuid(),
            Superblock::Ext4(b) => b.uuid(),
            Superblock::F2FS(b) => b.uuid(),
            Superblock::Luks2(b) => b.uuid(),
            Superblock::Xfs(b) => b.uuid(),
            Superblock::Fat(b) => b.uuid(),
        }
    }

    /// The volume label.
    pub fn label(&self) -> (r: Result<String, Error>)
        requires
            self.wf(),
        ensures
            text_view(r) == label_text(self.spec_kind(), self.bytes()),
    {
        match self {
            Superblock::Btrfs(b) => b.label(),
            Superblock::Ext4(b) => b.label(),
            Superblock::F2FS(b) => b.label(),
            Superblock::Luks2(b) => b.label(),
            Superblock::Xfs(b) => b.label(),
            Superblock::Fat(b) => b.label(),
        }
    }

    /// Identify the superblock in `bytes`, trying ext4, btrfs, F2FS, XFS,
    /// LUKS2 and FAT in that order. A read past the end of the buffer is an
    /// `Io` error; no match is `UnknownSuperblock`.
    pub fn from_bytes(bytes: &[u8]) -> (r: Result<Superblock, Error>)
        ensures
            match identify(bytes@) {
                Ok(k) => r is Ok && r->Ok_0.spec_kind() == k && r->Ok_0.bytes() == region_of(k, bytes@)
                    && r->Ok_0.wf(),
                Err(e) => r == Err::<Superblock, Error>(e),
            },
    {
        let order = vec![Kind::Ext4, Kind::Btrfs, Kind::F2FS, Kind::Xfs, Kind::Luks2, Kind::Fat];
        proof {
            assert(order@ =~= detection_order());
        }
        let mut i: usize = 0;
        while i < 6
            invariant
                i <= 6,
                order@ == detection_order(),
                identify(bytes@) == identify_from(bytes@, i as int),
            decreases 6 - i,
        {
            let k = order[i];
            match probe_kind(k, bytes) {
                None => {
                    return Err(Error::Io);
                },
                Some(true) => {
                    let (_, _, off, size) = kind_layout(k);
                    let region = copy_range(bytes, off, size);
                    return Ok(make_superblock(k, region));
                },
                Some(false) => {},
            }
            i = i + 1;
        }
        Err(Error::UnknownSuperblock)
    }
}

/// The magic offset, magic length, superblock offset and superblock size of
/// a kind.
fn kind_layout(k: Kind) -> (r: (usize, usize, usize, usize))
    ensures
        r.0 == magic_offset(k),
        r.1 == magic_len(k),
        r.2 == sb_offset(k),
        r.3 == sb_size(k),
{
    match k {
        Kind::Ext4 => (1080, 2, 1024, 1024),
        Kind::Btrfs => (65600, 8, 65536, 104),
        Kind::F2FS => (1024, 4, 1024, 3072),
        Kind::Xfs => (0, 4, 0, 264),
        Kind::Luks2 => (0, 6, 0, 4096),
        Kind::Fat => (0x1FE, 2, 0, 90),
    }
}

/// The magic bytes of a kind.
fn kind_magic(k: Kind) -> (r: Vec<u8>)
    ensures
        r@ == magic_bytes(k),
{
    let r = match k {
        Kind::Ext4 => vec![0x53u8, 0xEF],
        Kind::Btrfs => vec![0x5Fu8, 0x42, 0x48, 0x52, 0x66, 0x53, 0x5F, 0x4D],
        Kind::F2FS => vec![0x10u8, 0x20, 0xF5, 0xF2],
        Kind::Xfs => vec![0x58u8, 0x46, 0x53, 0x42],
        Kind::Luks2 => vec![0x4Cu8, 0x55, 0x4B, 0x53, 0xBA, 0xBE],
        Kind::Fat => vec![0x55u8, 0xAA],
    };
    proof {
        assert(r@ =~= magic_bytes(k));
    }
    r
}

/// Whether `b` holds `m` from `off` on.
fn bytes_at(b: &[u8], off: usize, m: &Vec<u8>) -> (r: bool)
    requires
        off + m@.len() <= b@.len(),
    ensures
        r == (b@.subrange(off as int, off + m@.len()) == m@),
{
    let n = b.len();
    let mut i: usize = 0;
    while i < m.len()
        invariant
            i <= m@.len(),
            n == b@.len(),
            off + m@.len() <= b@.len(),
            forall|j: int| 0 <= j < i ==> b@[off + j] == m@[j],
        decreases m@.len() - i,
    {
        if b[off + i] != m[i] {
            proof {
                let t = b@.subrange(off as int, off + m@.len());
                assert(t[i as int] != m@[i as int]);
            }
            return false;
        }
        i = i + 1;
    }
    proof {
        assert(b@.subrange(off as int, off + m@.len()) =~= m@);
    }
    true
}

/// Probe `b` for kind `k`.
fn probe_kind(k: Kind, b: &[u8]) -> (r: Option<bool>)
    ensures
        r == probe(k, b@),
{
    let (moff, mlen, off, size) = kind_layout(k);
    let n = b.len();
    if n < mlen || moff > n - mlen {
        return None;
    }
    let m = kind_magic(k);
    let mut ok = bytes_at(b, moff, &m);
    if !ok && k == Kind::Luks2 {
        let alt = vec![0x53u8, 0x4B, 0x55, 0x4C, 0xBA, 0xBE];
        proof {
            assert(alt@ =~= luks2_alt_magic());
        }
        ok = bytes_at(b, moff, &alt);
    }
    if !ok {
        return Some(false);
    }
    if n < size || off > n - size {
        return None;
    }
    Some(true)
}

/// A superblock of kind `k` holding `region`.
fn make_superblock(k: Kind, region: Vec<u8>) -> (r: Superblock)
    ensures
        r.spec_kind() == k,
        r.bytes() == region@,
{
    match k {
        Kind::Ext4 => Superblock::Ext4(Box::new(Ext4 { region })),
        Kind::Btrfs => Superblock::Btrfs(Box::new(Btrfs { region })),
        Kind::F2FS => Superblock::F2FS(Box::new(F2FS { region })),
        Kind::Xfs => Superblock::Xfs(Box::new(Xfs { region })),
        Kind::Luks2 => Superblock::Luks2(Box::new(Luks2 { region })),
        Kind::Fat => Superblock::Fat(Box::new(Fat { region })),
    }
}

/// The position of a kind in the detection order.
pub open spec fn detection_index(k: Kind) -> int {
    match k {
        Kind::Ext4 => 0,
        Kind::Btrfs => 1,
        Kind::F2FS => 2,
        Kind::Xfs => 3,
        Kind::Luks2 => 4,
        Kind::Fat => 5,
    }
}

/// Identification reads only the magic values of the kinds it tries and the
/// superblock region of the kind it finds. If `b` is identified as `k`, a
/// buffer `c` of the same length that agrees with `b` on `k`'s magic and
/// superblock region, and in which no kind tried before `k` shows its magic,
/// is identified as `k` too, and its superblock region (from which UUID and
/// label are read) is the same.
pub proof fn lemma_identification_is_local(b: Seq<u8>, c: Seq<u8>, k: Kind)
    requires
        identify(b) == Ok::<Kind, Error>(k),
        c.len() == b.len(),
        c.subrange(magic_offset(k), magic_offset(k) + magic_len(k)) == b.subrange(
            magic_offset(k),
            magic_offset(k) + magic_len(k),
        ),
        region_of(k, c) == region_of(k, b),
        forall|j: int|
            0 <= j < detection_index(k) ==> !magic_ok(#[trigger] detection_order()[j], c),
    ensures
        identify(c) == Ok::<Kind, Error>(k),
        region_of(k, c) == region_of(k, b),
{
    reveal_with_fuel(identify_from, 7);
    let o = detection_order();
    assert(o[0] == Kind::Ext4 && o[1] == Kind::Btrfs && o[2] == Kind::F2FS && o[3] == Kind::Xfs && o[4] == Kind::Luks2 && o[5] == Kind::Fat);
    assert(probe(k, c) == probe(k, b));
    if detection_index(k) > 0 { assert(!magic_ok(o[0], c)); }
    if detection_index(k) > 1 { assert(!magic_ok(o[1], c)); }
    if detection_index(k) > 2 { assert(!magic_ok(o[2], c)); }
    if detection_index(k) > 3 { assert(!magic_ok(o[3], c)); }
    if detection_index(k) > 4 { assert(!magic_ok(o[4], c)); }
}

} // verus!
