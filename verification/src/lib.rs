//! A database of song lyrics in one file: it is written in blocks, read entry by entry, searched,
//! and kept in step with a remote collection of TTML documents.

pub mod archive;
pub mod block;
pub mod characters;
pub mod laws;
pub mod limits;
pub mod matching;
pub mod model;
pub mod reader;
pub mod remote;
pub mod sync;
pub mod text;
pub mod ttml;
pub mod writer;

pub use archive::MAX_ROWS;
pub use block::TtmlEntryIterator;
pub use limits::fits_parser;
pub use matching::{contains_ignore_ascii_case, extract_matched_lines};
pub use model::{
    EntryView, IndexEntry, LyricSearchResult, ParsedLine, ParsedTtml, RemoteVersion, SearchFilter,
    SyncResult, SyncStatus, TtmlEntry,
};
pub use reader::{match_entry, TtmlDbReader};
pub use remote::{
    index_lines, is_lyric_file, is_success, make_requests, make_url, parse_archive,
    parse_downloads, receive, select_missing, ArchiveFile, Download, FetchError, FileRequest,
    Reply, MIRROR_BASE,
};
pub use sync::{
    LyricSyncer, Stage, SyncAction, SyncError, SyncEvent, CONCURRENT_WORKERS,
    INCREMENTAL_THRESHOLD, INDEX_FILE, VERSION_FILE,
};
pub use text::{join, lines};
pub use ttml::parse_entry;
pub use writer::{temp_file_name, TtmlDbWriter, WriteError};
