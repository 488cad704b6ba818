//! The record model: the canonical in-memory shape of an indexed entry,
//! the progress and status payloads, and the search query types.

use vstd::prelude::*;

verus! {

/// Mathematical view of a persisted index entry.
pub ghost struct Rec {
    pub path: Seq<char>,
    pub name: Seq<char>,
    pub extension: Option<Seq<char>>,
    pub file_size: Option<int>,
    pub is_dir: bool,
    pub modified_time: Seq<char>,
    pub last_indexed: Seq<char>,
}

/// The unit of persistence: one indexed file or directory.
pub struct FileRecord {
    pub path: String,
    pub name: String,
    pub extension: Option<String>,
    pub file_size: Option<i64>,
    pub is_dir: bool,
    pub modified_time: String,
    pub last_indexed: String,
}

pub open spec fn opt_string_view(o: Option<String>) -> Option<Seq<char>> {
    match o {
        Some(s) => Some(s@),
        None => None,
    }
}

pub open spec fn opt_i64_view(o: Option<i64>) -> Option<int> {
    match o {
        Some(n) => Some(n as int),
        None => None,
    }
}

impl View for FileRecord {
    type V = Rec;

    open spec fn view(&self) -> Rec {
        Rec {
            path: self.path@,
            name: self.name@,
            extension: opt_string_view(self.extension),
            file_size: opt_i64_view(self.file_size),
            is_dir: self.is_dir,
            modified_time: self.modified_time@,
            last_indexed: self.last_indexed@,
        }
    }
}

/// A record the store accepts: the name is never empty, and a directory
/// carries neither an extension nor a size.
pub open spec fn rec_valid(r: Rec) -> bool {
    &&& r.name.len() > 0
    &&& r.is_dir ==> r.extension is None && r.file_size is None
}

impl FileRecord {
    pub fn clone_record(&self) -> (r: FileRecord)
        ensures
            r@ == self@,
    {
        FileRecord {
            path: self.path.clone(),
            name: self.name.clone(),
            extension: match &self.extension {
                Some(e) => Some(e.clone()),
                None => None,
            },
            file_size: self.file_size,
            is_dir: self.is_dir,
            modified_time: self.modified_time.clone(),
            last_indexed: self.last_indexed.clone(),
        }
    }
}

/// One progress event emitted while an indexing run is under way.
pub struct IndexingProgress {
    pub current_path: String,
    pub files_processed: usize,
    pub total_files: Option<usize>,
    pub status: String,
}

/// The answer to a status query: how much is indexed and how large the
/// index file has grown.
pub struct IndexingStatus {
    pub is_indexing: bool,
    pub last_indexed: Option<String>,
    pub total_files: usize,
    pub database_size: u64,
}

/// Optional constraints a search query may carry. The date bounds are
/// accepted for forward compatibility and not applied.
pub struct SearchFilters {
    pub extensions: Option<Vec<String>>,
    pub min_size: Option<u64>,
    pub max_size: Option<u64>,
    pub min_date: Option<String>,
    pub max_date: Option<String>,
}

impl Default for SearchFilters {
    fn default() -> (r: Self)
        ensures
            r.extensions is None,
            r.min_size is None,
            r.max_size is None,
            r.min_date is None,
            r.max_date is None,
    {
        SearchFilters {
            extensions: None,
            min_size: None,
            max_size: None,
            min_date: None,
            max_date: None,
        }
    }
}

/// One row of a search answer. Scoring is a placeholder constant supplied
/// by the caller-facing shell, so no score field is carried here.
pub struct SearchResult {
    pub path: String,
    pub name: String,
    pub extension: Option<String>,
    pub file_size: Option<u64>,
    pub is_dir: bool,
    pub modified_time: String,
}

/// The shaped payload of one search call.
pub struct SearchResults {
    pub query: String,
    pub results: Vec<SearchResult>,
    pub total: usize,
    pub page: usize,
    pub limit: usize,
}

} // verus!
