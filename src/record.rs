//! The file record kept by the metadata store and the document that the
//! full-text index holds for it.
use vstd::prelude::*;

verus! {

/// One entry per indexed path. Times are seconds since the Unix epoch.
#[derive(Clone, Debug)]
pub struct FileRecord {
    pub id: String,
    pub path: String,
    pub name: String,
    pub size: u64,
    pub modified: i64,
    pub created: i64,
    pub file_type: String,
    pub mime_type: String,
    pub is_directory: bool,
    pub permissions: String,
    pub checksum: Option<String>,
    pub indexed_at: i64,
    pub content_extracted: bool,
}

/// The value of a `FileRecord`, with its strings as character sequences.
pub struct RecordView {
    pub id: Seq<char>,
    pub path: Seq<char>,
    pub name: Seq<char>,
    pub size: u64,
    pub modified: i64,
    pub created: i64,
    pub file_type: Seq<char>,
    pub mime_type: Seq<char>,
    pub is_directory: bool,
    pub permissions: Seq<char>,
    pub checksum: Option<Seq<char>>,
    pub indexed_at: i64,
    pub content_extracted: bool,
}

pub open spec fn opt_view(o: Option<String>) -> Option<Seq<char>> {
    match o {
        Some(s) => Some(s@),
        None => None,
    }
}

impl View for FileRecord {
    type V = RecordView;

    open spec fn view(&self) -> RecordView {
        RecordView {
            id: self.id@,
            path: self.path@,
            name: self.name@,
            size: self.size,
            modified: self.modified,
            created: self.created,
            file_type: self.file_type@,
            mime_type: self.mime_type@,
            is_directory: self.is_directory,
            permissions: self.permissions@,
            checksum: opt_view(self.checksum),
            indexed_at: self.indexed_at,
            content_extracted: self.content_extracted,
        }
    }
}

pub fn copy_opt(o: &Option<String>) -> (r: Option<String>)
    ensures
        opt_view(r) == opt_view(*o),
{
    match o {
        Some(s) => Some(s.clone()),
        None => None,
    }
}

impl FileRecord {
    /// A field-by-field copy.
    pub fn duplicate(&self) -> (r: FileRecord)
        ensures
            r@ == self@,
    {
        FileRecord {
            id: self.id.clone(),
            path: self.path.clone(),
            name: self.name.clone(),
            size: self.size,
            modified: self.modified,
            created: self.created,
            file_type: self.file_type.clone(),
            mime_type: self.mime_type.clone(),
            is_directory: self.is_directory,
            permissions: self.permissions.clone(),
            checksum: copy_opt(&self.checksum),
            indexed_at: self.indexed_at,
            content_extracted: self.content_extracted,
        }
    }
}

/// The full-text index's projection of a record, with optional extracted text.
#[derive(Clone, Debug)]
pub struct IndexDocument {
    pub id: String,
    pub path: String,
    pub name: String,
    pub content: Option<String>,
    pub file_type: String,
    pub size: u64,
    pub modified: i64,
}

pub struct DocView {
    pub id: Seq<char>,
    pub path: Seq<char>,
    pub name: Seq<char>,
    pub content: Option<Seq<char>>,
    pub file_type: Seq<char>,
    pub size: u64,
    pub modified: i64,
}

impl View for IndexDocument {
    type V = DocView;

    open spec fn view(&self) -> DocView {
        DocView {
            id: self.id@,
            path: self.path@,
            name: self.name@,
            content: opt_view(self.content),
            file_type: self.file_type@,
            size: self.size,
            modified: self.modified,
        }
    }
}

/// The document that stands for record `r` with extracted text `content`.
pub open spec fn projection(r: RecordView, content: Option<Seq<char>>) -> DocView {
    DocView {
        id: r.id,
        path: r.path,
        name: r.name,
        content: content,
        file_type: r.file_type,
        size: r.size,
        modified: r.modified,
    }
}

impl IndexDocument {
    /// The document for `record`, carrying `content` as its text.
    pub fn from_record(record: &FileRecord, content: Option<String>) -> (r: IndexDocument)
        ensures
            r@ == projection(record@, opt_view(content)),
    {
        IndexDocument {
            id: record.id.clone(),
            path: record.path.clone(),
            name: record.name.clone(),
            content: content,
            file_type: record.file_type.clone(),
            size: record.size,
            modified: record.modified,
        }
    }

    /// A field-by-field copy.
    pub fn duplicate(&self) -> (r: IndexDocument)
        ensures
            r@ == self@,
    {
        IndexDocument {
            id: self.id.clone(),
            path: self.path.clone(),
            name: self.name.clone(),
            content: copy_opt(&self.content),
            file_type: self.file_type.clone(),
            size: self.size,
            modified: self.modified,
        }
    }
}

} // verus!
