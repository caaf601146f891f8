//! Entries of a directory listing.

use vstd::prelude::*;

verus! {

/// What kind of file-system object an entry is.
#[derive(Clone, Copy, Debug, PartialEq, Eq, Structural)]
pub enum Kind {
    /// A directory.
    Directory,
    /// A regular file.
    File,
    /// Anything else: a symbolic link, a device, a socket, or an entry whose
    /// kind could not be determined.
    Other,
}

/// The kind of an entry of which the system says whether it is a
/// directory and whether it is a regular file.  An entry that is neither,
/// or of which nothing could be learnt, is [`Kind::Other`].
pub open spec fn kind_of(is_directory: bool, is_file: bool) -> Kind {
    if is_directory {
        Kind::Directory
    } else if is_file {
        Kind::File
    } else {
        Kind::Other
    }
}

/// One item of a directory listing.
#[derive(Clone, Debug, PartialEq, Eq)]
pub struct Entry {
    /// The base file name.
    pub name: String,
    /// The kind of object the name refers to.
    pub kind: Kind,
}

/// The mathematical value of an [`Entry`].
pub struct EntryModel {
    pub name: Seq<char>,
    pub kind: Kind,
}

impl View for Entry {
    type V = EntryModel;

    open spec fn view(&self) -> EntryModel {
        EntryModel { name: self.name@, kind: self.kind }
    }
}

impl DeepView for Entry {
    type V = EntryModel;

    open spec fn deep_view(&self) -> EntryModel {
        self@
    }
}

impl Kind {
    /// The kind of an entry, from what the system says of its type: whether
    /// it is a directory, and whether it is a regular file.
    pub fn of(is_directory: bool, is_file: bool) -> (kind: Kind)
        ensures
            kind == kind_of(is_directory, is_file),
    {
        if is_directory {
            Kind::Directory
        } else if is_file {
            Kind::File
        } else {
            Kind::Other
        }
    }

    /// Whether this is [`Kind::Directory`].
    pub fn is_directory(&self) -> (r: bool)
        ensures
            r == (*self is Directory),
    {
        match self {
            Kind::Directory => true,
            _ => false,
        }
    }

    /// Whether this is [`Kind::File`].
    pub fn is_file(&self) -> (r: bool)
        ensures
            r == (*self is File),
    {
        match self {
            Kind::File => true,
            _ => false,
        }
    }
}

impl Entry {
    /// An entry with the given name and kind.
    pub fn new(name: String, kind: Kind) -> (entry: Entry)
        ensures
            entry@ == (EntryModel { name: name@, kind }),
    {
        Entry { name, kind }
    }
}

} // verus!
