//! What a directory lists: files and directories.

use vstd::prelude::*;
use crate::fat32::dir::Dir;
use crate::fat32::fat::Cluster;
use crate::fat32::file::File;
use crate::fat32::metadata::Metadata;

verus! {

/// An entry of a directory.
#[derive(Debug)]
pub enum Entry {
    File_(File),
    Dir_(Dir),
}

/// What an entry of a directory tells.
pub struct EntryView {
    pub name: Seq<char>,
    pub metadata: Metadata,
    pub start_cluster: Cluster,
    /// The size in bytes; 0 for a directory.
    pub file_size: u64,
    pub is_dir: bool,
}

impl View for Entry {
    type V = EntryView;

    open spec fn view(&self) -> EntryView {
        match self {
            Entry::File_(f) => EntryView {
                name: f@.name,
                metadata: f@.metadata,
                start_cluster: f@.start_cluster,
                file_size: f@.file_size,
                is_dir: false,
            },
            Entry::Dir_(d) => EntryView {
                name: d.name@,
                metadata: d.metadata,
                start_cluster: d.start_cluster,
                file_size: 0,
                is_dir: true,
            },
        }
    }
}

impl Entry {
    /// The name of the file or directory.
    pub fn name(&self) -> (r: &str)
        ensures
            r@ == self@.name,
    {
        match self {
            Entry::File_(f) => f.name(),
            Entry::Dir_(d) => d.name.as_str(),
        }
    }

    /// The metadata of the file or directory.
    pub fn metadata(&self) -> (r: &Metadata)
        ensures
            *r == self@.metadata,
    {
        match self {
            Entry::File_(f) => f.metadata(),
            Entry::Dir_(d) => &d.metadata,
        }
    }

    /// Whether the entry is a file.
    pub fn is_file(&self) -> (r: bool)
        ensures
            r == !self@.is_dir,
    {
        match self {
            Entry::File_(_) => true,
            Entry::Dir_(_) => false,
        }
    }

    /// Whether the entry is a directory.
    pub fn is_dir(&self) -> (r: bool)
        ensures
            r == self@.is_dir,
    {
        match self {
            Entry::File_(_) => false,
            Entry::Dir_(_) => true,
        }
    }

    /// The file, if the entry is one.
    pub fn as_file(&self) -> (r: Option<&File>)
        ensures
            r == (match self {
                Entry::File_(f) => Some(f),
                Entry::Dir_(_) => None,
            }),
    {
        match self {
            Entry::File_(f) => Some(f),
            _ => None,
        }
    }

    /// The directory, if the entry is one.
    pub fn as_dir(&self) -> (r: Option<&Dir>)
        ensures
            r == (match self {
                Entry::Dir_(d) => Some(d),
                Entry::File_(_) => None,
            }),
    {
        match self {
            Entry::Dir_(d) => Some(d),
            _ => None,
        }
    }

    /// The file, if the entry is one.
    pub fn into_file(self) -> (r: Option<File>)
        ensures
            r == (match self {
                Entry::File_(f) => Some(f),
                Entry::Dir_(_) => None,
            }),
    {
        match self {
            Entry::File_(f) => Some(f),
            _ => None,
        }
    }

    /// The directory, if the entry is one.
    pub fn into_dir(self) -> (r: Option<Dir>)
        ensures
            r == (match self {
                Entry::Dir_(d) => Some(d),
                Entry::File_(_) => None,
            }),
    {
        match self {
            Entry::Dir_(d) => Some(d),
            _ => None,
        }
    }
}

} // verus!
