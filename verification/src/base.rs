//! Identities and positions shared by every part of the front end.

use vstd::prelude::*;

verus! {

/// Identifies one source file of the workspace.
#[derive(Clone, Copy, Debug, PartialEq, Eq, Hash, Structural)]
pub struct FileId(pub u32);

/// A half-open span of byte offsets into the text of one file.
#[derive(Clone, Copy, Debug, PartialEq, Eq, Hash, Structural)]
pub struct TextRange {
    pub start: u32,
    pub end: u32,
}

impl TextRange {
    /// The span from `start` up to, and not including, `end`.
    pub fn new(start: u32, end: u32) -> (r: TextRange)
        ensures
            r == (TextRange { start, end }),
    {
        TextRange { start, end }
    }
}

/// A byte offset into the text of one file.
#[derive(Clone, Copy, Debug, PartialEq, Eq, Hash, Structural)]
pub struct FilePos {
    pub file_id: FileId,
    pub pos: u32,
}

impl FilePos {
    /// The offset `pos` in the file `file_id`.
    pub fn new(file_id: FileId, pos: u32) -> (r: FilePos)
        ensures
            r == (FilePos { file_id, pos }),
    {
        FilePos { file_id, pos }
    }
}

/// A value together with the file that it belongs to.
#[derive(Clone, Copy, Debug, PartialEq, Eq, Hash)]
pub struct InFile<T> {
    pub file_id: FileId,
    pub value: T,
}

impl<T> InFile<T> {
    /// Attaches `value` to the file `file_id`.
    pub fn new(file_id: FileId, value: T) -> (r: InFile<T>)
        ensures
            r.file_id == file_id,
            r.value == value,
    {
        InFile { file_id, value }
    }
}

} // verus!
