//! The records of the store and the requests that create and update them.
use vstd::prelude::*;

verus! {

/// A stored note. Timestamps are microseconds since the Unix epoch.
#[derive(Clone, Debug)]
pub struct Note {
    /// Surrogate key given by the store; never reused.
    pub id: i32,
    /// The human-chosen slug; unique among live notes.
    pub short_url: String,
    pub content: String,
    pub created_at: i64,
    /// When set and in the past, the sweeper removes the note.
    pub expires_at: Option<i64>,
    /// The note this one replies to, if any.
    pub parent_id: Option<i32>,
}

/// The fields of a note that a caller chooses.
#[derive(Clone, Debug)]
pub struct NewNote {
    pub short_url: String,
    pub content: String,
    pub expires_at: Option<i64>,
    pub parent_id: Option<i32>,
}

/// A snapshot of a note's content as it was just before an update.
#[derive(Clone, Debug)]
pub struct NoteVersion {
    pub id: i32,
    /// The note this snapshot belongs to.
    pub note_id: i32,
    /// Position in the note's version chain, counted from 1.
    pub version: i32,
    /// The content before the update that made this snapshot.
    pub content: String,
    pub created_at: i64,
}

/// The fields of a version snapshot that the update logic chooses.
#[derive(Clone, Debug)]
pub struct NewNoteVersion {
    pub note_id: i32,
    pub version: i32,
    pub content: String,
}

/// A request to create a note. The expiry is RFC 3339 text; text that does
/// not parse means "no expiry".
#[derive(Clone, Debug)]
pub struct RequestCreateNote {
    pub short_url: String,
    pub content: String,
    pub expires_at: Option<String>,
    pub parent_id: Option<i32>,
}

/// A request to replace a note's content.
#[derive(Clone, Debug)]
pub struct RequestUpdateNote {
    pub short_url: String,
    pub content: String,
}

/// The outcome categories that callers of the store see.
#[derive(Clone, Copy, Debug, PartialEq, Eq, Structural)]
pub enum StoreError {
    /// No live note has the slug.
    NotFound,
    /// The slug is taken by a live note.
    Conflict,
    /// No storage connection could be had.
    StorageUnavailable,
    /// Any other storage failure on a well-formed operation.
    StorageFailure,
}

impl Note {
    /// A field-by-field copy.
    pub fn copy_note(&self) -> (r: Note)
        ensures
            r == *self,
    {
        Note {
            id: self.id,
            short_url: self.short_url.clone(),
            content: self.content.clone(),
            created_at: self.created_at,
            expires_at: self.expires_at,
            parent_id: self.parent_id,
        }
    }
}

impl NoteVersion {
    /// A field-by-field copy.
    pub fn copy_version(&self) -> (r: NoteVersion)
        ensures
            r == *self,
    {
        NoteVersion {
            id: self.id,
            note_id: self.note_id,
            version: self.version,
            content: self.content.clone(),
            created_at: self.created_at,
        }
    }
}

} // verus!
