//! Directory entry types, by name.
use vstd::prelude::*;
use vstd::string::StringSliceAdditionalSpecFns;

verus! {

/// Type of directory entry.
#[derive(Clone, Copy, Debug, PartialEq, Eq, Structural)]
#[non_exhaustive]
pub enum EType {
    /// regular file
    File,
    /// directory
    Dir,
    /// symbolic link
    Link,
    /// FIFO (i.e., a pipe)
    Fifo,
    /// a socket
    Socket,
    /// block device
    Block,
    /// character device
    Char,
}

/// The canonical name of each entry type.
pub open spec fn etype_name(t: EType) -> Seq<char> {
    match t {
        EType::File => "file"@,
        EType::Dir => "dir"@,
        EType::Link => "link"@,
        EType::Fifo => "fifo"@,
        EType::Socket => "socket"@,
        EType::Block => "block"@,
        EType::Char => "char"@,
    }
}

/// ASCII upper-case letters made lower case; every other byte kept.
pub open spec fn ascii_lower(b: u8) -> u8 {
    if 65 <= b <= 90 {
        (b + 32) as u8
    } else {
        b
    }
}

/// Whether `s` equals `name` once its ASCII letters are made lower case.
pub open spec fn same_lower(s: Seq<u8>, name: Seq<u8>) -> bool {
    s.len() == name.len() && forall|i: int| 0 <= i < s.len() ==> ascii_lower(#[trigger] s[i]) == name[i]
}

/// The accepted spellings of each entry type, in any ASCII case.
pub open spec fn spells(s: Seq<u8>, t: EType) -> bool {
    match t {
        EType::File => same_lower(s, "f".spec_bytes()) || same_lower(s, "file".spec_bytes()),
        EType::Dir => same_lower(s, "d".spec_bytes()) || same_lower(s, "dir".spec_bytes()) || same_lower(s, "directory".spec_bytes()),
        EType::Link => same_lower(s, "l".spec_bytes()) || same_lower(s, "link".spec_bytes()) || same_lower(s, "symlink".spec_bytes()),
        EType::Fifo => same_lower(s, "p".spec_bytes()) || same_lower(s, "pipe".spec_bytes()) || same_lower(s, "fifo".spec_bytes()),
        EType::Socket => same_lower(s, "s".spec_bytes()) || same_lower(s, "sock".spec_bytes()) || same_lower(s, "socket".spec_bytes()),
        EType::Block => same_lower(s, "b".spec_bytes()) || same_lower(s, "block".spec_bytes()),
        EType::Char => same_lower(s, "c".spec_bytes()) || same_lower(s, "ch".spec_bytes()) || same_lower(s, "char".spec_bytes()) || same_lower(s, "character".spec_bytes()),
    }
}

/// Whether `s`, with ASCII letters made lower case, equals `name`.
fn eq_lower(s: &[u8], name: &[u8]) -> (r: bool)
    ensures
        r == same_lower(s@, name@),
{
    if s.len() != name.len() {
        return false;
    }
    let mut i: usize = 0;
    while i < s.len()
        invariant
            s@.len() == name@.len(),
            i <= s@.len(),
            forall|j: int| 0 <= j < i ==> ascii_lower(#[trigger] s@[j]) == name@[j],
        decreases s@.len() - i,
    {
        let b = s[i];
        let lower: u8 = if 65 <= b && b <= 90 { b + 32 } else { b };
        if lower != name[i] {
            return false;
        }
        i = i + 1;
    }
    true
}

impl EType {
    /// The canonical name of the entry type.
    pub fn as_str(&self) -> (r: &'static str)
        ensures
            r@ == etype_name(*self),
    {
        match self {
            EType::File => "file",
            EType::Dir => "dir",
            EType::Link => "link",
            EType::Fifo => "fifo",
            EType::Socket => "socket",
            EType::Block => "block",
            EType::Char => "char",
        }
    }

    /// Every entry type, in declaration order.
    pub fn all() -> (r: Vec<EType>)
        ensures
            r@ == seq![
                EType::File,
                EType::Dir,
                EType::Link,
                EType::Fifo,
                EType::Socket,
                EType::Block,
                EType::Char,
            ],
    {
        let r = vec![
            EType::File,
            EType::Dir,
            EType::Link,
            EType::Fifo,
            EType::Socket,
            EType::Block,
            EType::Char,
        ];
        assert(r@ =~= seq![
            EType::File,
            EType::Dir,
            EType::Link,
            EType::Fifo,
            EType::Socket,
            EType::Block,
            EType::Char,
        ]);
        r
    }

    /// The entry type that `s` names, in any ASCII case (`f`, `file`,
    /// `d`, `dir`, `directory`, ...), or `None` when it names none.
    pub fn from_name(s: &str) -> (r: Option<EType>)
        ensures
            r matches Some(t) ==> spells(s.spec_bytes(), t),
            r is None ==> forall|t: EType| !spells(s.spec_bytes(), t),
    {
        let b = s.as_bytes();
        if eq_lower(b, "f".as_bytes()) || eq_lower(b, "file".as_bytes()) {
            Some(EType::File)
        } else if eq_lower(b, "d".as_bytes()) || eq_lower(b, "dir".as_bytes()) || eq_lower(b, "directory".as_bytes()) {
            Some(EType::Dir)
        } else if eq_lower(b, "l".as_bytes()) || eq_lower(b, "link".as_bytes()) || eq_lower(b, "symlink".as_bytes()) {
            Some(EType::Link)
        } else if eq_lower(b, "p".as_bytes()) || eq_lower(b, "pipe".as_bytes()) || eq_lower(b, "fifo".as_bytes()) {
            Some(EType::Fifo)
        } else if eq_lower(b, "s".as_bytes()) || eq_lower(b, "sock".as_bytes()) || eq_lower(b, "socket".as_bytes()) {
            Some(EType::Socket)
        } else if eq_lower(b, "b".as_bytes()) || eq_lower(b, "block".as_bytes()) {
            Some(EType::Block)
        } else if eq_lower(b, "c".as_bytes()) || eq_lower(b, "ch".as_bytes()) || eq_lower(b, "char".as_bytes()) || eq_lower(
            b,
            "character".as_bytes(),
        ) {
            Some(EType::Char)
        } else {
            None
        }
    }
}

/// Whether `actual` is one of the types in `collection` (never, for an
/// empty collection).
pub fn is_one(collection: &Vec<EType>, actual: EType) -> (r: bool)
    ensures
        r == collection@.contains(actual),
{
    let mut i: usize = 0;
    while i < collection.len()
        invariant
            i <= collection@.len(),
            forall|j: int| 0 <= j < i ==> collection@[j] != actual,
        decreases collection@.len() - i,
    {
        if collection[i] == actual {
            assert(collection@[i as int] == actual);
            return true;
        }
        i = i + 1;
    }
    false
}

/// Whether an entry passes the type filter of a directory walk: an empty
/// filter lets every entry through; otherwise the entry's type must be
/// known (`Some`) and listed.
pub fn passes_type_filter(allowed: &Vec<EType>, actual: Option<EType>) -> (r: bool)
    ensures
        r == (allowed@.len() == 0 || (actual matches Some(t) && allowed@.contains(t))),
{
    if allowed.len() == 0 {
        return true;
    }
    match actual {
        Some(t) => is_one(allowed, t),
        None => false,
    }
}

} // verus!
