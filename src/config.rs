//! The configuration document as plain values, and reading typed values out
//! of it. A document is a tree of nodes; each node has a name, entries
//! (positional arguments and named properties, each with an optional type
//! annotation) and child nodes. Every node and entry records where it stands
//! in the source, for diagnostics.

use vstd::prelude::*;
use crate::text::{decimal, decimal_text, text_eq};
use crate::types::{standard_from_name, text_of, Filesystem, FilesystemView, StandardFilesystemType};

verus! {

/// A byte range of the source document.
#[derive(Clone, Copy, Debug, PartialEq, Eq, Structural)]
pub struct Span {
    pub offset: usize,
    pub len: usize,
}

/// The value of an entry.
#[derive(Clone, Debug)]
pub enum Value {
    String(String),
    Integer(i128),
    /// A floating-point value, which no setting here accepts.
    Float,
    Bool(bool),
    Null,
}

/// An argument (without name) or a property (with one).
#[derive(Clone, Debug)]
pub struct Entry {
    pub name: Option<String>,
    pub ty: Option<String>,
    pub value: Value,
    pub span: Span,
}

/// A node of the document.
#[derive(Debug)]
pub struct Node {
    pub name: String,
    pub entries: Vec<Entry>,
    pub children: Vec<Node>,
    pub span: Span,
}

/// The kinds of value a setting can expect.
#[derive(Clone, Copy, Debug, PartialEq, Eq, Structural)]
pub enum KdlType {
    Boolean,
    String,
    Null,
    Integer,
}

/// Why a document could not be read.
#[derive(Clone, Debug)]
pub enum Error {
    /// A value of a kind that no setting accepts.
    UnknownType,
    /// A name that is not one of the accepted ones.
    UnknownVariant,
    /// Settings that do not go together.
    InvalidArguments { at: Span, advice: Option<String> },
    /// A value of the wrong kind.
    InvalidType { at: Span, expected_type: KdlType },
    /// A node that is not understood here.
    UnsupportedNode { at: Span, name: String },
    /// A missing argument.
    MissingEntry { at: Span, id: String, advice: Option<String> },
    /// A missing property.
    MissingProperty { at: Span, id: String, advice: Option<String> },
    /// A value that is not accepted.
    UnsupportedValue { at: Span, advice: Option<String> },
}

/// An error with its texts as character sequences.
pub enum ErrorView {
    UnknownType,
    UnknownVariant,
    InvalidArguments { at: Span, advice: Option<Seq<char>> },
    InvalidType { at: Span, expected_type: KdlType },
    UnsupportedNode { at: Span, name: Seq<char> },
    MissingEntry { at: Span, id: Seq<char>, advice: Option<Seq<char>> },
    MissingProperty { at: Span, id: Seq<char>, advice: Option<Seq<char>> },
    UnsupportedValue { at: Span, advice: Option<Seq<char>> },
}

/// The text of an optional string.
pub open spec fn opt_text(s: Option<String>) -> Option<Seq<char>> {
    match s {
        Some(t) => Some(t@),
        None => None,
    }
}

impl View for Error {
    type V = ErrorView;

    open spec fn view(&self) -> ErrorView {
        match self {
            Error::UnknownType => ErrorView::UnknownType,
            Error::UnknownVariant => ErrorView::UnknownVariant,
            Error::InvalidArguments { at, advice } => ErrorView::InvalidArguments { at: *at, advice: opt_text(*advice) },
            Error::InvalidType { at, expected_type } => ErrorView::InvalidType { at: *at, expected_type: *expected_type },
            Error::UnsupportedNode { at, name } => ErrorView::UnsupportedNode { at: *at, name: name@ },
            Error::MissingEntry { at, id, advice } => ErrorView::MissingEntry { at: *at, id: id@, advice: opt_text(*advice) },
            Error::MissingProperty { at, id, advice } => ErrorView::MissingProperty {
                at: *at,
                id: id@,
                advice: opt_text(*advice),
            },
            Error::UnsupportedValue { at, advice } => ErrorView::UnsupportedValue { at: *at, advice: opt_text(*advice) },
        }
    }
}

/// The view of a result whose error is an `Error`.
pub open spec fn result_view<T>(r: Result<T, Error>) -> Result<T, ErrorView> {
    match r {
        Ok(v) => Ok(v),
        Err(e) => Err(e@),
    }
}

/// The kind of a value, for the kinds that settings accept.
pub open spec fn type_of_value(v: Value) -> Option<KdlType> {
    match v {
        Value::Bool(_) => Some(KdlType::Boolean),
        Value::String(_) => Some(KdlType::String),
        Value::Null => Some(KdlType::Null),
        Value::Integer(_) => Some(KdlType::Integer),
        Value::Float => None,
    }
}

/// The name of a value kind, as diagnostics show it.
pub open spec fn kdl_type_name(t: KdlType) -> Seq<char> {
    match t {
        KdlType::Boolean => "boolean"@,
        KdlType::String => "string"@,
        KdlType::Null => "null"@,
        KdlType::Integer => "int"@,
    }
}

impl KdlType {
    /// The kind of `value`.
    pub fn for_value(value: &Value) -> (r: Result<KdlType, Error>)
        ensures
            match type_of_value(*value) {
                Some(t) => r matches Ok(k) && k == t,
                None => r matches Err(e) && e@ == ErrorView::UnknownType,
            },
    {
        match value {
            Value::Bool(_) => Ok(KdlType::Boolean),
            Value::String(_) => Ok(KdlType::String),
            Value::Null => Ok(KdlType::Null),
            Value::Integer(_) => Ok(KdlType::Integer),
            Value::Float => Err(Error::UnknownType),
        }
    }

    /// The kind's name, as diagnostics show it.
    pub fn name(&self) -> (r: &'static str)
        ensures
            r@ == kdl_type_name(*self),
    {
        match self {
            KdlType::Boolean => "boolean",
            KdlType::String => "string",
            KdlType::Null => "null",
            KdlType::Integer => "int",
        }
    }
}

/// The entry is a property named `name`.
pub open spec fn named(e: Entry, name: Seq<char>) -> bool {
    match e.name {
        Some(n) => n@ == name,
        None => false,
    }
}

/// The index of the last property of `es` named `name`.
pub open spec fn last_named(es: Seq<Entry>, name: Seq<char>) -> Option<int>
    decreases es.len(),
{
    if es.len() == 0 {
        None
    } else if named(es.last(), name) {
        Some(es.len() - 1)
    } else {
        last_named(es.drop_last(), name)
    }
}

/// The index in `es` of the argument numbered `idx` (arguments are the
/// entries without name), counting from `es`'s start.
pub open spec fn nth_argument(es: Seq<Entry>, idx: int) -> Option<int>
    decreases es.len(),
{
    if es.len() == 0 {
        None
    } else if es[0].name is None {
        if idx == 0 {
            Some(0)
        } else {
            match nth_argument(es.drop_first(), idx - 1) {
                Some(k) => Some(k + 1),
                None => None,
            }
        }
    } else {
        match nth_argument(es.drop_first(), idx) {
            Some(k) => Some(k + 1),
            None => None,
        }
    }
}

/// The advice given for a missing property.
pub open spec fn property_advice(name: Seq<char>) -> Seq<char> {
    "add `"@ + name + "=...` to bind the property"@
}

/// The property named `name` of `node`: the last one, if there are several.
pub fn get_kdl_property<'a>(node: &'a Node, name: &str) -> (r: Result<&'a Entry, Error>)
    ensures
        match last_named(node.entries@, name@) {
            Some(k) => r matches Ok(e) && *e == node.entries@[k],
            None => r matches Err(e) && e@ == (ErrorView::MissingProperty {
                at: node.span,
                id: name@,
                advice: Some(property_advice(name@)),
            }),
        },
{
    let mut i: usize = node.entries.len();
    proof {
        assert(node.entries@.subrange(0, i as int) =~= node.entries@);
    }
    while i > 0
        invariant
            i <= node.entries@.len(),
            last_named(node.entries@, name@) == last_named(node.entries@.subrange(0, i as int), name@),
        decreases i,
    {
        let ghost t = node.entries@.subrange(0, i as int);
        proof {
            assert(t.drop_last() =~= node.entries@.subrange(0, i - 1));
            assert(t.last() == node.entries@[i - 1]);
        }
        let hit = match &node.entries[i - 1].name {
            Some(n) => text_eq(n.as_str(), name),
            None => false,
        };
        if hit {
            return Ok(&node.entries[i - 1]);
        }
        i = i - 1;
    }
    let mut advice = String::from_str("add `");
    advice.append(name);
    advice.append("=...` to bind the property");
    proof {
        assert(advice@ =~= property_advice(name@));
    }
    Err(Error::MissingProperty { at: node.span, id: String::from_str(name), advice: Some(advice) })
}

/// The argument numbered `idx` of `node`.
pub fn get_kdl_entry<'a>(node: &'a Node, idx: usize) -> (r: Result<&'a Entry, Error>)
    ensures
        match nth_argument(node.entries@, idx as int) {
            Some(k) => r matches Ok(e) && *e == node.entries@[k],
            None => r matches Err(e) && e@ == (ErrorView::MissingEntry {
                at: node.span,
                id: decimal_text(idx as nat),
                advice: None,
            }),
        },
{
    let mut seen: usize = 0;
    let mut i: usize = 0;
    let ghost all = node.entries@;
    proof {
        assert(all.subrange(0, all.len() as int) =~= all);
        match nth_argument(all, idx as int) {
            Some(k) => assert(k + 0 == k),
            None => {},
        }
    }
    while i < node.entries.len()
        invariant
            i <= all.len(),
            all == node.entries@,
            seen <= idx,
            nth_argument(all, idx as int) == match nth_argument(all.subrange(i as int, all.len() as int), idx - seen) {
                Some(k) => Some(k + i),
                None => None::<int>,
            },
        decreases all.len() - i,
    {
        let ghost rest = all.subrange(i as int, all.len() as int);
        proof {
            assert(rest.drop_first() =~= all.subrange(i + 1, all.len() as int));
            assert(rest[0] == all[i as int]);
        }
        if node.entries[i].name.is_none() {
            if seen == idx {
                return Ok(&node.entries[i]);
            }
            seen = seen + 1;
        }
        i = i + 1;
    }
    proof {
        assert(all.subrange(all.len() as int, all.len() as int) =~= Seq::<Entry>::empty());
    }
    Err(Error::MissingEntry { at: node.span, id: decimal(idx as u64), advice: None })
}

/// The string value of `entry`.
pub fn kdl_value_to_string(entry: &Entry) -> (r: Result<String, Error>)
    ensures
        match entry.value {
            Value::String(s) => r matches Ok(t) && t@ == s@,
            _ => r matches Err(e) && e@ == (ErrorView::InvalidType { at: entry.span, expected_type: KdlType::String }),
        },
{
    match &entry.value {
        Value::String(s) => Ok(s.clone()),
        _ => Err(Error::InvalidType { at: entry.span, expected_type: KdlType::String }),
    }
}

/// The integer value of `entry`.
pub fn kdl_value_to_integer(entry: &Entry) -> (r: Result<i128, Error>)
    ensures
        match entry.value {
            Value::Integer(n) => r == Ok::<i128, Error>(n),
            _ => r matches Err(e) && e@ == (ErrorView::InvalidType { at: entry.span, expected_type: KdlType::Integer }),
        },
{
    match &entry.value {
        Value::Integer(n) => Ok(*n),
        _ => Err(Error::InvalidType { at: entry.span, expected_type: KdlType::Integer }),
    }
}

/// The string value of the property `name` of `node`.
pub open spec fn property_string(node: Node, name: Seq<char>) -> Result<Seq<char>, ErrorView> {
    match last_named(node.entries@, name) {
        Some(k) => match node.entries@[k].value {
            Value::String(s) => Ok(s@),
            _ => Err(ErrorView::InvalidType { at: node.entries@[k].span, expected_type: KdlType::String }),
        },
        None => Err(ErrorView::MissingProperty { at: node.span, id: name, advice: Some(property_advice(name)) }),
    }
}

/// The string value of the property `name` of `node`.
pub fn get_property_str(node: &Node, name: &str) -> (r: Result<String, Error>)
    ensures
        match property_string(*node, name@) {
            Ok(v) => r matches Ok(t) && t@ == v,
            Err(e) => r matches Err(x) && x@ == e,
        },
{
    let entry = get_kdl_property(node, name)?;
    kdl_value_to_string(entry)
}

/// The settings read from a filesystem node's children so far.
pub struct FsFields {
    pub fs_type: Option<Seq<char>>,
    pub label: Option<Seq<char>>,
    pub uuid: Option<Seq<char>>,
    pub volume_id: Option<u32>,
}

/// The first argument of `n`, as a string.
pub open spec fn arg_string(n: Node) -> Result<Seq<char>, ErrorView> {
    match nth_argument(n.entries@, 0) {
        None => Err(ErrorView::MissingEntry { at: n.span, id: "0"@, advice: None }),
        Some(k) => match n.entries@[k].value {
            Value::String(s) => Ok(s@),
            _ => Err(ErrorView::InvalidType { at: n.entries@[k].span, expected_type: KdlType::String }),
        },
    }
}

/// The first argument of `n`, as an integer.
pub open spec fn arg_integer(n: Node) -> Result<i128, ErrorView> {
    match nth_argument(n.entries@, 0) {
        None => Err(ErrorView::MissingEntry { at: n.span, id: "0"@, advice: None }),
        Some(k) => match n.entries@[k].value {
            Value::Integer(v) => Ok(v),
            _ => Err(ErrorView::InvalidType { at: n.entries@[k].span, expected_type: KdlType::Integer }),
        },
    }
}

/// Read the settings of `children` in order, on top of `acc`; a later
/// setting replaces an earlier one. A volume id keeps its low 32 bits.
pub open spec fn read_fields(children: Seq<Node>, acc: FsFields) -> Result<FsFields, ErrorView>
    decreases children.len(),
{
    if children.len() == 0 {
        Ok(acc)
    } else {
        let c = children[0];
        let rest = children.drop_first();
        if c.name@ == "type"@ {
            match arg_string(c) {
                Err(e) => Err(e),
                Ok(v) => read_fields(rest, FsFields { fs_type: Some(v), ..acc }),
            }
        } else if c.name@ == "label"@ {
            match arg_string(c) {
                Err(e) => Err(e),
                Ok(v) => read_fields(rest, FsFields { label: Some(v), ..acc }),
            }
        } else if c.name@ == "uuid"@ {
            match arg_string(c) {
                Err(e) => Err(e),
                Ok(v) => read_fields(rest, FsFields { uuid: Some(v), ..acc }),
            }
        } else if c.name@ == "volume_id"@ {
            match arg_integer(c) {
                Err(e) => Err(e),
                Ok(v) => read_fields(rest, FsFields { volume_id: Some((v % 0x1_0000_0000) as u32), ..acc }),
            }
        } else {
            Err(ErrorView::UnsupportedNode { at: c.span, name: c.name@ })
        }
    }
}

/// The filesystem a `filesystem` node describes.
pub open spec fn filesystem_of(node: Node) -> Result<FilesystemView, ErrorView> {
    match read_fields(node.children@, FsFields { fs_type: None, label: None, uuid: None, volume_id: None }) {
        Err(e) => Err(e),
        Ok(f) => match f.fs_type {
            None => Err(ErrorView::UnsupportedNode { at: node.span, name: "type"@ }),
            Some(t) => if t == "fat32"@ {
                if f.uuid is Some {
                    Err(ErrorView::InvalidArguments { at: node.span, advice: Some("FAT32 does not support UUID"@) })
                } else {
                    Ok(FilesystemView::Fat32 { label: f.label, volume_id: f.volume_id })
                }
            } else if f.volume_id is Some {
                Err(
                    ErrorView::InvalidArguments {
                        at: node.span,
                        advice: Some("volume_id is only supported for FAT32, not "@ + t),
                    },
                )
            } else {
                match standard_from_name(t) {
                    Some(k) => Ok(FilesystemView::Standard { filesystem_type: k, label: f.label, uuid: f.uuid }),
                    None => Err(ErrorView::UnknownVariant),
                }
            },
        },
    }
}

/// The first argument of `n`, as a string.
fn first_string(n: &Node) -> (r: Result<String, Error>)
    ensures
        match arg_string(*n) {
            Ok(v) => r matches Ok(s) && s@ == v,
            Err(e) => r matches Err(x) && x@ == e,
        },
{
    proof {
        reveal_strlit("0");
        assert(decimal_text(0) =~= "0"@);
    }
    let entry = get_kdl_entry(n, 0)?;
    kdl_value_to_string(entry)
}

/// The first argument of `n`, as an integer.
fn first_integer(n: &Node) -> (r: Result<i128, Error>)
    ensures
        match arg_integer(*n) {
            Ok(v) => r == Ok::<i128, Error>(v),
            Err(e) => r matches Err(x) && x@ == e,
        },
{
    proof {
        reveal_strlit("0");
        assert(decimal_text(0) =~= "0"@);
    }
    let entry = get_kdl_entry(n, 0)?;
    kdl_value_to_integer(entry)
}

impl Filesystem {
    /// The filesystem that a `filesystem` node describes: its children set
    /// `type`, `label`, `uuid` and (for FAT32 only) `volume_id`.
    pub fn from_kdl_node(node: &Node) -> (r: Result<Filesystem, Error>)
        ensures
            match filesystem_of(*node) {
                Ok(f) => r matches Ok(x) && x@ == f,
                Err(e) => r matches Err(x) && x@ == e,
            },
    {
        let mut fs_type: Option<String> = None;
        let mut label: Option<String> = None;
        let mut uuid: Option<String> = None;
        let mut volume_id: Option<u32> = None;
        let ghost all = node.children@;
        let mut i: usize = 0;
        proof {
            assert(all.subrange(0, all.len() as int) =~= all);
        }
        while i < node.children.len()
            invariant
                i <= all.len(),
                all == node.children@,
                read_fields(all, FsFields { fs_type: None, label: None, uuid: None, volume_id: None })
                    == read_fields(all.subrange(i as int, all.len() as int), FsFields {
                        fs_type: text_of(fs_type),
                        label: text_of(label),
                        uuid: text_of(uuid),
                        volume_id,
                    }),
            decreases all.len() - i,
        {
            let ghost rest = all.subrange(i as int, all.len() as int);
            proof {
                assert(rest.drop_first() =~= all.subrange(i + 1, all.len() as int));
                assert(rest[0] == all[i as int]);
            }
            let child = &node.children[i];
            if text_eq(child.name.as_str(), "type") {
                fs_type = Some(first_string(child)?);
            } else if text_eq(child.name.as_str(), "label") {
                label = Some(first_string(child)?);
            } else if text_eq(child.name.as_str(), "uuid") {
                uuid = Some(first_string(child)?);
            } else if text_eq(child.name.as_str(), "volume_id") {
                let v = first_integer(child)?;
                proof {
                    assert((v % 0x1_0000_0000) as u32 == #[verifier::truncate] (v as u32)) by (bit_vector);
                }
                volume_id = Some(#[verifier::truncate] (v as u32));
            } else {
                return Err(Error::UnsupportedNode { at: child.span, name: child.name.clone() });
            }
            i = i + 1;
        }
        proof {
            assert(all.subrange(all.len() as int, all.len() as int) =~= Seq::<Node>::empty());
        }
        let fs_type = match fs_type {
            Some(t) => t,
            None => {
                return Err(Error::UnsupportedNode { at: node.span, name: String::from_str("type") });
            },
        };
        if text_eq(fs_type.as_str(), "fat32") {
            if uuid.is_some() {
                return Err(
                    Error::InvalidArguments {
                        at: node.span,
                        advice: Some(String::from_str("FAT32 does not support UUID")),
                    },
                );
            }
            return Ok(Filesystem::Fat32 { label, volume_id });
        }
        if volume_id.is_some() {
            let mut advice = String::from_str("volume_id is only supported for FAT32, not ");
            advice.append(fs_type.as_str());
            return Err(Error::InvalidArguments { at: node.span, advice: Some(advice) });
        }
        match StandardFilesystemType::from_name(fs_type.as_str()) {
            Some(filesystem_type) => Ok(Filesystem::Standard { filesystem_type, label, uuid }),
            None => Err(Error::UnknownVariant),
        }
    }
}

} // verus!
