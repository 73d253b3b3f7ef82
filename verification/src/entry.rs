//! The data model: one directory entry with its metadata snapshot, the
//! display modes, and the classification of an entry into a display
//! category.

use vstd::prelude::*;

verus! {

/// The rendering behaviour selected for one invocation.
#[derive(Clone, Copy, PartialEq, Eq, Structural, Debug)]
pub enum DisplayMode {
    Normal,
    Long,
    All,
    Recursive,
    HumanReadable,
}

/// The mutually exclusive type tag of an entry, fixed once when the
/// snapshot is taken.
#[derive(Clone, Copy, PartialEq, Eq, Structural, Debug)]
pub enum EntryType {
    File,
    Directory,
    Symlink,
    Socket,
    Fifo,
    BlockDevice,
    CharDevice,
    Unknown,
}

/// The display category an entry is classified into; each category has
/// one fixed terminal colour.
#[derive(Clone, Copy, PartialEq, Eq, Structural, Debug)]
pub enum Category {
    File,
    Directory,
    Symlink,
    Socket,
    Fifo,
    BlockOrCharDevice,
    Other,
}

/// One directory entry together with the metadata the listing needs.
pub struct Entry {
    /// The name shown to the user; also the sort key.
    pub name: String,
    /// The entry's type tag.
    pub kind: EntryType,
    /// POSIX permission bits; only the nine bits under `0o777` are read.
    pub mode_bits: u32,
    /// Number of hard links.
    pub nlink: u64,
    /// Numeric owner identity.
    pub uid: u32,
    /// Numeric group identity.
    pub gid: u32,
    /// Size in bytes.
    pub size: u64,
    /// Modification instant, in whole seconds since the Unix epoch.
    pub mtime: u64,
}

impl Clone for Entry {
    fn clone(&self) -> (r: Self)
        ensures
            r == *self,
    {
        Entry {
            name: self.name.clone(),
            kind: self.kind,
            mode_bits: self.mode_bits,
            nlink: self.nlink,
            uid: self.uid,
            gid: self.gid,
            size: self.size,
            mtime: self.mtime,
        }
    }
}

/// The category an entry type falls into, in the fixed priority order:
/// file, directory, symlink, socket, fifo, block or character device,
/// anything else.
pub open spec fn spec_classify(t: EntryType) -> Category {
    match t {
        EntryType::File => Category::File,
        EntryType::Directory => Category::Directory,
        EntryType::Symlink => Category::Symlink,
        EntryType::Socket => Category::Socket,
        EntryType::Fifo => Category::Fifo,
        EntryType::BlockDevice => Category::BlockOrCharDevice,
        EntryType::CharDevice => Category::BlockOrCharDevice,
        EntryType::Unknown => Category::Other,
    }
}

/// Classify an entry type for colour and glyph selection.
pub fn classify(t: EntryType) -> (c: Category)
    ensures
        c == spec_classify(t),
{
    match t {
        EntryType::File => Category::File,
        EntryType::Directory => Category::Directory,
        EntryType::Symlink => Category::Symlink,
        EntryType::Socket => Category::Socket,
        EntryType::Fifo => Category::Fifo,
        EntryType::BlockDevice => Category::BlockOrCharDevice,
        EntryType::CharDevice => Category::BlockOrCharDevice,
        EntryType::Unknown => Category::Other,
    }
}

/// The single-character type glyph of the long format: `d` for a
/// directory, `l` for a symlink, `-` for a regular file, `?` otherwise.
pub open spec fn spec_glyph(t: EntryType) -> Seq<char> {
    match t {
        EntryType::Directory => seq!['d'],
        EntryType::Symlink => seq!['l'],
        EntryType::File => seq!['-'],
        _ => seq!['?'],
    }
}

/// Render the type glyph of the long format.
pub fn type_glyph(t: EntryType) -> (g: &'static str)
    ensures
        g@ == spec_glyph(t),
{
    proof {
        reveal_strlit("d");
        reveal_strlit("l");
        reveal_strlit("-");
        reveal_strlit("?");
    }
    let g = match t {
        EntryType::Directory => "d",
        EntryType::Symlink => "l",
        EntryType::File => "-",
        _ => "?",
    };
    proof {
        assert(g@ =~= spec_glyph(t));
    }
    g
}

/// An entry is hidden when its display name starts with a dot.
pub open spec fn is_hidden(e: Entry) -> bool {
    e.name@.len() > 0 && e.name@[0] == '.'
}

/// Whether an entry survives the hidden-entry filter: every mode but
/// `All` discards hidden entries.
pub open spec fn keeps(e: Entry, show_all: bool) -> bool {
    show_all || !is_hidden(e)
}

} // verus!
