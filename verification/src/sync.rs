//! Keeping a database in step with the remote collection.
//!
//! The syncer decides, and its caller acts: it fetches, stores and reports what came of it.

use vstd::hash_set::StringHashSet;
use vstd::pervasive::unreached;
use vstd::prelude::*;

use crate::archive::{entry_views, MAX_ROWS};
use crate::block::{is_whole, stored_entries};
use crate::model::{EntryView, IndexEntry, RemoteVersion, SyncResult, SyncStatus, TtmlEntry};
use crate::reader::{lemma_paths_of_appended, path_set, TtmlDbReader};
use crate::remote::{
    archive_entries, archive_within_limits, are_requests, download_entries,
    downloads_within_limits, filled_lines, index_lines, index_names, lemma_missing_files,
    make_requests, make_url, missing_files, parse_archive, parse_downloads, receive, received,
    remote_url, select_missing, ArchiveFile, Download, FetchError, FileRequest, Reply,
};
use crate::text::{text_lines, views};
use crate::writer::{
    adds_entries, fits_block, is_storable, written_bytes, TtmlDbWriter, WriteError,
};

verus! {

/// The file in the data directory that holds the database.
pub const INDEX_FILE: &'static str = "index.bin";

/// The file in the data directory that holds the version of the database.
pub const VERSION_FILE: &'static str = "version.json";

/// With more new files than this the whole collection is fetched.
pub const INCREMENTAL_THRESHOLD: usize = 200;

/// How many files are downloaded at the same time.
pub const CONCURRENT_WORKERS: usize = 20;

/// Why a synchronisation failed.
#[derive(Debug, Clone, Copy, PartialEq, Eq, Structural)]
pub enum SyncError {
    /// The remote version was not received.
    Version(FetchError),
    /// The archive of the whole collection was not received.
    Archive(FetchError),
    /// The entries cannot be put into a database.
    Write(WriteError),
    /// The database could not be stored.
    Store,
}

/// What the caller reports.
pub enum SyncEvent {
    /// A synchronisation is wanted.
    Begin,
    /// The reply to the request for the remote version, and the commit that was stored last.
    Version { reply: Reply<RemoteVersion>, local_commit: Option<String> },
    /// The reply to the request for the remote index.
    Index(Reply<String>),
    /// What the lines of the remote index say, with nothing for a line that says nothing.
    IndexEntries(Vec<Option<IndexEntry>>),
    /// What came of the downloads.
    Downloads(Vec<Download>),
    /// The reply to the request for the archive.
    Archive(Reply<Vec<ArchiveFile>>),
    /// Whether the database was stored.
    Stored(bool),
    /// The version was stored, or could not be.
    Saved,
}

/// What the caller is to do next.
pub enum SyncAction {
    /// Request the remote version.
    FetchVersion { url: String },
    /// Request the remote index.
    FetchIndex { url: String },
    /// Read the lines of the remote index.
    ParseLines { lines: Vec<String> },
    /// Download files.
    Download { requests: Vec<FileRequest> },
    /// Request the archive of the whole collection.
    FetchArchive { url: String },
    /// Put the bytes behind the database file.
    Append { bytes: Vec<u8> },
    /// Replace the database file by one that holds the bytes.
    Overwrite { bytes: Vec<u8> },
    /// Store the version.
    SaveVersion { version: RemoteVersion },
    /// The synchronisation has ended.
    Finish { result: SyncResult },
    /// The synchronisation has failed.
    Fail { error: SyncError },
}

/// What the syncer waits for.
pub enum Stage {
    Idle,
    Version,
    Index { remote: RemoteVersion, local: StringHashSet },
    Parsing { remote: RemoteVersion, local: StringHashSet },
    Downloads { remote: RemoteVersion },
    Appending { remote: RemoteVersion, count: usize },
    Archive { remote: RemoteVersion },
    Overwriting { remote: RemoteVersion, count: usize },
    Saving { result: SyncResult },
}

/// Keeps a database in step with the remote collection.
pub struct LyricSyncer {
    pub writer: TtmlDbWriter,
    pub reader: Option<TtmlDbReader>,
    pub stage: Stage,
}

/// How the result describes that the whole collection was fetched.
pub open spec fn full_strategy() -> Option<Seq<char>> {
    Some("full"@)
}

/// How the result describes that only new files were fetched.
pub open spec fn incremental_strategy() -> Option<Seq<char>> {
    Some("incremental"@)
}

/// The result says this, and names no error.
pub open spec fn is_result(
    result: SyncResult,
    status: SyncStatus,
    count: Option<usize>,
    strategy: Option<Seq<char>>,
) -> bool {
    &&& result.status == status
    &&& result.count == count
    &&& result.error is None
    &&& match strategy {
        Some(strategy) => result.strategy matches Some(s) && s@ == strategy,
        None => result.strategy is None,
    }
}

fn make_result(status: SyncStatus, count: Option<usize>, strategy: &str) -> (result: SyncResult)
    ensures
        is_result(result, status, count, Some(strategy@)),
{
    SyncResult { status, count, error: None, strategy: Some(String::from_str(strategy)) }
}

/// The version that was stored last is the remote one, and the database holds entries.
pub open spec fn is_current(
    reader: Option<TtmlDbReader>,
    remote: RemoteVersion,
    local_commit: Option<String>,
) -> bool {
    &&& local_commit matches Some(commit) && commit@ == remote.commit@
    &&& reader matches Some(reader) && reader@.len() > 0
}

/// The files of which the database holds entries.
pub open spec fn local_files(reader: Option<TtmlDbReader>) -> Set<Seq<char>> {
    match reader {
        Some(reader) => path_set(reader@),
        None => Set::empty(),
    }
}

/// The whole collection is asked for.
pub open spec fn asks_for_all(
    after: LyricSyncer,
    remote: RemoteVersion,
    action: SyncAction,
) -> bool {
    &&& after.stage == Stage::Archive { remote }
    &&& action matches SyncAction::FetchArchive { url } && url@ == remote_url(
        "/raw-lyrics/raw-lyrics.zip"@,
    )
}

/// The synchronisation ends with this result.
pub open spec fn ends_with(
    after: LyricSyncer,
    action: SyncAction,
    status: SyncStatus,
    count: Option<usize>,
    strategy: Option<Seq<char>>,
) -> bool {
    &&& after.stage is Idle
    &&& action matches SyncAction::Finish { result } && is_result(result, status, count, strategy)
}

/// The synchronisation fails.
pub open spec fn fails_with(after: LyricSyncer, action: SyncAction, error: SyncError) -> bool {
    after.stage is Idle && action == SyncAction::Fail { error }
}

/// The new version is to be stored, and then the synchronisation ends with this result.
pub open spec fn saves_version(
    after: LyricSyncer,
    remote: RemoteVersion,
    action: SyncAction,
    count: usize,
    strategy: Option<Seq<char>>,
) -> bool {
    &&& action == SyncAction::SaveVersion { version: remote }
    &&& after.stage matches Stage::Saving { result } && is_result(
        result,
        SyncStatus::Updated,
        Some(count),
        strategy,
    )
}

/// What follows when both versions are known.
pub open spec fn after_comparison(
    before: LyricSyncer,
    remote: RemoteVersion,
    local_commit: Option<String>,
    after: LyricSyncer,
    action: SyncAction,
) -> bool {
    if is_current(before.reader, remote, local_commit) {
        after.reader == before.reader && ends_with(after, action, SyncStatus::Skipped, None, None)
    } else if local_files(before.reader) == Set::<Seq<char>>::empty() {
        after.reader is None && asks_for_all(after, remote, action)
    } else {
        &&& after.reader is None
        &&& after.stage matches Stage::Index { remote: kept, local } && kept == remote && local@
            == local_files(before.reader)
        &&& action matches SyncAction::FetchIndex { url } && url@ == remote_url(
            "/metadata/raw-lyrics-index.jsonl"@,
        )
    }
}

/// What follows when the remote version was asked for.
pub open spec fn after_version(
    before: LyricSyncer,
    reply: Reply<RemoteVersion>,
    local_commit: Option<String>,
    after: LyricSyncer,
    action: SyncAction,
) -> bool {
    match received(reply) {
        Err(error) => after.reader == before.reader && fails_with(
            after,
            action,
            SyncError::Version(error),
        ),
        Ok(remote) => after_comparison(before, remote, local_commit, after, action),
    }
}

/// What follows when the remote index was asked for.
pub open spec fn after_index(
    remote: RemoteVersion,
    local: StringHashSet,
    reply: Reply<String>,
    after: LyricSyncer,
    action: SyncAction,
) -> bool {
    match received(reply) {
        Err(_) => asks_for_all(after, remote, action),
        Ok(text) => {
            &&& after.stage == Stage::Parsing { remote, local }
            &&& action matches SyncAction::ParseLines { lines } && views(lines@) == filled_lines(
                text_lines(text@),
            )
        },
    }
}

/// What follows when the index has been read.
pub open spec fn after_index_entries(
    remote: RemoteVersion,
    local: Set<Seq<char>>,
    index: Seq<Option<IndexEntry>>,
    after: LyricSyncer,
    action: SyncAction,
) -> bool {
    let missing = missing_files(index, local);
    if missing.len() > INCREMENTAL_THRESHOLD {
        asks_for_all(after, remote, action)
    } else if missing.len() == 0 {
        ends_with(after, action, SyncStatus::Empty, Some(0), incremental_strategy())
    } else {
        &&& after.stage == Stage::Downloads { remote }
        &&& action matches SyncAction::Download { requests } && are_requests(requests@, missing)
    }
}

/// What follows when new entries were fetched. Entries that fit into a block are
/// added.
pub open spec fn after_new_entries(
    remote: RemoteVersion,
    entries: Seq<EntryView>,
    after: LyricSyncer,
    action: SyncAction,
) -> bool {
    &&& written_bytes(entries) is Some <==> fits_block(entries)
    &&& if entries.len() == 0 {
        ends_with(after, action, SyncStatus::Empty, Some(0), incremental_strategy())
    } else {
        match written_bytes(entries) {
            None => asks_for_all(after, remote, action),
            Some(written) => {
                &&& after.stage matches Stage::Appending { remote: kept, count } && kept == remote
                    && count == entries.len()
                &&& action matches SyncAction::Append { bytes } && bytes@ == written && (
                is_storable(entries) ==> adds_entries(bytes@, entries))
            },
        }
    }
}

/// What follows when all entries were fetched. Entries that fit into a block are
/// stored.
pub open spec fn after_all_entries(
    remote: RemoteVersion,
    entries: Seq<EntryView>,
    after: LyricSyncer,
    action: SyncAction,
) -> bool {
    &&& written_bytes(entries) is Some <==> fits_block(entries)
    &&& if entries.len() == 0 {
        ends_with(after, action, SyncStatus::Empty, Some(0), full_strategy())
    } else {
        match written_bytes(entries) {
            None => fails_with(after, action, SyncError::Write(WriteError::PayloadTooLarge)),
            Some(written) => {
                &&& after.stage matches Stage::Overwriting { remote: kept, count } && kept == remote
                    && count == entries.len()
                &&& action matches SyncAction::Overwrite { bytes } && bytes@ == written && (
                is_storable(entries) ==> stored_entries(bytes@) == entries && is_whole(bytes@))
            },
        }
    }
}

/// The syncer waits for the event, and what it brings can be dealt with.
pub open spec fn awaits(stage: Stage, event: SyncEvent) -> bool {
    match event {
        SyncEvent::Begin => stage is Idle,
        SyncEvent::Version { .. } => stage is Version,
        SyncEvent::Index(_) => stage is Index,
        SyncEvent::IndexEntries(_) => stage is Parsing,
        SyncEvent::Downloads(downloads) => stage is Downloads && downloads_within_limits(
            downloads@,
        ),
        SyncEvent::Archive(reply) => stage is Archive && (received(reply) matches Ok(files)
            ==> archive_within_limits(files@)),
        SyncEvent::Stored(_) => stage is Appending || stage is Overwriting,
        SyncEvent::Saved => stage is Saving,
    }
}

/// What the syncer decides on an event that it waits for.
pub open spec fn decides(
    before: LyricSyncer,
    event: SyncEvent,
    after: LyricSyncer,
    action: SyncAction,
) -> bool {
    match (event, before.stage) {
        (SyncEvent::Begin, _) => {
            &&& after.reader == before.reader
            &&& after.stage is Version
            &&& action matches SyncAction::FetchVersion { url } && url@ == remote_url(
                "/raw-lyrics/version.json"@,
            )
        },
        (SyncEvent::Version { reply, local_commit }, _) => after_version(
            before,
            reply,
            local_commit,
            after,
            action,
        ),
        (SyncEvent::Index(reply), Stage::Index { remote, local }) => after.reader == before.reader
            && after_index(remote, local, reply, after, action),
        (SyncEvent::IndexEntries(index), Stage::Parsing { remote, local }) => after.reader
            == before.reader && after_index_entries(remote, local@, index@, after, action),
        (SyncEvent::Downloads(downloads), Stage::Downloads { remote }) => after.reader
            == before.reader && after_new_entries(
            remote,
            download_entries(downloads@),
            after,
            action,
        ),
        (SyncEvent::Archive(reply), Stage::Archive { remote }) => after.reader == before.reader
            && match received(reply) {
            Err(error) => fails_with(after, action, SyncError::Archive(error)),
            Ok(files) => after_all_entries(remote, archive_entries(files@), after, action),
        },
        (SyncEvent::Stored(success), Stage::Appending { remote, count }) => after.reader
            == before.reader && if success {
            saves_version(after, remote, action, count, incremental_strategy())
        } else {
            asks_for_all(after, remote, action)
        },
        (SyncEvent::Stored(success), Stage::Overwriting { remote, count }) => after.reader
            == before.reader && if success {
            saves_version(after, remote, action, count, full_strategy())
        } else {
            fails_with(after, action, SyncError::Store)
        },
        (SyncEvent::Saved, Stage::Saving { result }) => after.reader == before.reader
            && after.stage is Idle && action == SyncAction::Finish { result },
        _ => false,
    }
}

/// The result is that of an update: it names how many entries were stored, and how.
pub open spec fn is_update(result: SyncResult) -> bool {
    &&& result.count matches Some(count) && count >= 1
    &&& is_result(result, SyncStatus::Updated, result.count, full_strategy()) || is_result(
        result,
        SyncStatus::Updated,
        result.count,
        incremental_strategy(),
    )
}

/// The result is one of those that a synchronisation ends with: skipped, empty on one of the two
/// ways, or an update.
pub open spec fn is_known_result(result: SyncResult) -> bool {
    ||| is_result(result, SyncStatus::Skipped, None, None)
    ||| is_result(result, SyncStatus::Empty, Some(0), incremental_strategy())
    ||| is_result(result, SyncStatus::Empty, Some(0), full_strategy())
    ||| is_update(result)
}

/// The state is one that a synchronisation can reach: entries are stored only where there are
/// some, an update is what is reported after that, and the reader is gone once something is
/// fetched.
pub open spec fn is_sound(syncer: LyricSyncer) -> bool {
    match syncer.stage {
        Stage::Idle => true,
        Stage::Version => true,
        Stage::Appending { count, .. } => syncer.reader is None && count >= 1,
        Stage::Overwriting { count, .. } => syncer.reader is None && count >= 1,
        Stage::Saving { result } => syncer.reader is None && is_update(result),
        _ => syncer.reader is None,
    }
}

impl LyricSyncer {
    /// A syncer for the database file at the path, and a reader of it if it could be opened.
    pub fn new(index_file: std::path::PathBuf, reader: Option<TtmlDbReader>) -> (res: Self)
        ensures
            res.writer.file_path == index_file,
            res.reader == reader,
            res.stage is Idle,
            is_sound(res),
    {
        LyricSyncer { writer: TtmlDbWriter::new(index_file), reader, stage: Stage::Idle }
    }

    /// Takes the next step: decides on what came of the last action, and says what to do next.
    pub fn sync(&mut self, event: SyncEvent) -> (action: SyncAction)
        requires
            awaits(old(self).stage, event),
        ensures
            decides(*old(self), event, *final(self), action),
            final(self).writer == old(self).writer,
            is_sound(*old(self)) ==> is_sound(*final(self)),
    {
        let mut stage = Stage::Idle;
        std::mem::swap(&mut stage, &mut self.stage);
        match (event, stage) {
            (SyncEvent::Begin, _) => {
                self.stage = Stage::Version;
                SyncAction::FetchVersion { url: make_url("/raw-lyrics/version.json") }
            },
            (SyncEvent::Version { reply, local_commit }, _) => match receive(reply) {
                Ok(remote) => self.compare_versions(remote, local_commit),
                Err(error) => SyncAction::Fail { error: SyncError::Version(error) },
            },
            (SyncEvent::Index(reply), Stage::Index { remote, local }) => match receive(reply) {
                Ok(text) => {
                    self.stage = Stage::Parsing { remote, local };
                    SyncAction::ParseLines { lines: index_lines(text.as_str()) }
                },
                Err(_) => self.fetch_all(remote),
            },
            (SyncEvent::IndexEntries(index), Stage::Parsing { remote, local }) => {
                self.select_downloads(remote, &local, &index)
            },
            (SyncEvent::Downloads(downloads), Stage::Downloads { remote }) => {
                let entries = parse_downloads(downloads);
                self.perform_incremental_sync(remote, &entries)
            },
            (SyncEvent::Archive(reply), Stage::Archive { remote }) => match receive(reply) {
                Ok(files) => {
                    let entries = parse_archive(files);
                    self.perform_full_sync(remote, &entries)
                },
                Err(error) => SyncAction::Fail { error: SyncError::Archive(error) },
            },
            (SyncEvent::Stored(success), Stage::Appending { remote, count }) => if success {
                let result = make_result(SyncStatus::Updated, Some(count), "incremental");
                self.stage = Stage::Saving { result };
                SyncAction::SaveVersion { version: remote }
            } else {
                self.fetch_all(remote)
            },
            (SyncEvent::Stored(success), Stage::Overwriting { remote, count }) => if success {
                let result = make_result(SyncStatus::Updated, Some(count), "full");
                self.stage = Stage::Saving { result };
                SyncAction::SaveVersion { version: remote }
            } else {
                SyncAction::Fail { error: SyncError::Store }
            },
            (SyncEvent::Saved, Stage::Saving { result }) => SyncAction::Finish { result },
            _ => unreached(),
        }
    }

    /// The number of entries of the database.
    pub fn get_local_count(&self) -> (count: usize)
        ensures
            count == (match self.reader {
                Some(reader) => reader@.len(),
                None => 0,
            }),
    {
        match &self.reader {
            Some(reader) => reader.get_entry_count(),
            None => 0,
        }
    }

    /// Decides, with both versions at hand, whether to fetch nothing, new files or all. Unless
    /// there is nothing to fetch, the reader is given up.
    pub fn compare_versions(&mut self, remote: RemoteVersion, local_commit: Option<String>) -> (
    action: SyncAction)
        requires
            old(self).stage is Idle,
        ensures
            after_comparison(*old(self), remote, local_commit, *final(self), action),
            final(self).writer == old(self).writer,
    {
        if let Some(commit) = &local_commit {
            if *commit == remote.commit && self.get_local_count() > 0 {
                return SyncAction::Finish {
                    result: SyncResult {
                        status: SyncStatus::Skipped,
                        count: None,
                        error: None,
                        strategy: None,
                    },
                };
            }
        }
        let local = match &self.reader {
            Some(reader) => reader.get_all_file_paths(),
            None => StringHashSet::new(),
        };
        self.reader = None;
        if local.is_empty() {
            assert(local@ =~= Set::empty());
            self.fetch_all(remote)
        } else {
            self.stage = Stage::Index { remote, local };
            SyncAction::FetchIndex { url: make_url("/metadata/raw-lyrics-index.jsonl") }
        }
    }

    /// Asks for the whole collection.
    fn fetch_all(&mut self, remote: RemoteVersion) -> (action: SyncAction)
        ensures
            asks_for_all(*final(self), remote, action),
            final(self).reader == old(self).reader,
            final(self).writer == old(self).writer,
    {
        self.stage = Stage::Archive { remote };
        SyncAction::FetchArchive { url: make_url("/raw-lyrics/raw-lyrics.zip") }
    }

    /// Decides what to download of the files that the index names.
    pub fn select_downloads(
        &mut self,
        remote: RemoteVersion,
        local: &StringHashSet,
        index: &Vec<Option<IndexEntry>>,
    ) -> (action: SyncAction)
        requires
            old(self).stage is Idle,
        ensures
            after_index_entries(remote, local@, index@, *final(self), action),
            final(self).reader == old(self).reader,
            final(self).writer == old(self).writer,
    {
        let missing = select_missing(index, local);
        assert(views(missing@).len() == missing@.len());
        if missing.len() > INCREMENTAL_THRESHOLD {
            self.fetch_all(remote)
        } else if missing.len() == 0 {
            SyncAction::Finish { result: make_result(SyncStatus::Empty, Some(0), "incremental") }
        } else {
            self.stage = Stage::Downloads { remote };
            SyncAction::Download { requests: make_requests(missing) }
        }
    }

    /// Adds the entries that were fetched to the database.
    pub fn perform_incremental_sync(&mut self, remote: RemoteVersion, entries: &Vec<TtmlEntry>) -> (
    action: SyncAction)
        requires
            old(self).stage is Idle,
            entries@.len() <= MAX_ROWS,
        ensures
            after_new_entries(remote, entry_views(entries@), *final(self), action),
            final(self).reader == old(self).reader,
            final(self).writer == old(self).writer,
    {
        if entries.len() == 0 {
            return SyncAction::Finish {
                result: make_result(SyncStatus::Empty, Some(0), "incremental"),
            };
        }
        match self.writer.append_entries(entries.as_slice()) {
            Ok(bytes) => {
                self.stage = Stage::Appending { remote, count: entries.len() };
                SyncAction::Append { bytes }
            },
            Err(_) => self.fetch_all(remote),
        }
    }

    /// Replaces the database by one with the entries that were fetched.
    pub fn perform_full_sync(&mut self, remote: RemoteVersion, entries: &Vec<TtmlEntry>) -> (action:
        SyncAction)
        requires
            old(self).stage is Idle,
            entries@.len() <= MAX_ROWS,
        ensures
            after_all_entries(remote, entry_views(entries@), *final(self), action),
            final(self).reader == old(self).reader,
            final(self).writer == old(self).writer,
    {
        if entries.len() == 0 {
            return SyncAction::Finish { result: make_result(SyncStatus::Empty, Some(0), "full") };
        }
        match self.writer.overwrite_entries(entries.as_slice()) {
            Ok(bytes) => {
                self.stage = Stage::Overwriting { remote, count: entries.len() };
                SyncAction::Overwrite { bytes }
            },
            Err(error) => SyncAction::Fail { error: SyncError::Write(error) },
        }
    }
}

/// How many events the syncer takes at most until it is idle.
pub open spec fn events_left(stage: Stage) -> nat {
    match stage {
        Stage::Version => 8,
        Stage::Index { .. } => 7,
        Stage::Parsing { .. } => 6,
        Stage::Downloads { .. } => 5,
        Stage::Appending { .. } => 4,
        Stage::Archive { .. } => 3,
        Stage::Overwriting { .. } => 2,
        Stage::Saving { .. } => 1,
        Stage::Idle => 0,
    }
}

/// The remote version that a synchronisation is about, once it is known and as long as something
/// is to be fetched or stored.
pub open spec fn remote_of(stage: Stage) -> Option<RemoteVersion> {
    match stage {
        Stage::Index { remote, .. } => Some(remote),
        Stage::Parsing { remote, .. } => Some(remote),
        Stage::Downloads { remote } => Some(remote),
        Stage::Appending { remote, .. } => Some(remote),
        Stage::Archive { remote } => Some(remote),
        Stage::Overwriting { remote, .. } => Some(remote),
        _ => None,
    }
}

/// A synchronisation ends: every event but the first brings the syncer closer to being idle, and
/// it is idle exactly when it has told how the synchronisation ended.
pub proof fn lemma_progress(
    before: LyricSyncer,
    event: SyncEvent,
    after: LyricSyncer,
    action: SyncAction,
)
    requires
        awaits(before.stage, event),
        decides(before, event, after, action),
    ensures
        event is Begin || events_left(after.stage) < events_left(before.stage),
        after.stage is Idle <==> action is Finish || action is Fail,
{
}

/// As long as only new files are fetched nothing makes a synchronisation fail: where something goes
/// wrong, the whole collection is asked for.
pub proof fn lemma_falls_back(
    before: LyricSyncer,
    event: SyncEvent,
    after: LyricSyncer,
    action: SyncAction,
)
    requires
        awaits(before.stage, event),
        before.stage is Index || before.stage is Parsing || before.stage is Downloads
            || before.stage is Appending,
        decides(before, event, after, action),
    ensures
        action !is Fail,
        before.stage is Appending && event == SyncEvent::Stored(false) ==> action is FetchArchive,
        event matches SyncEvent::Index(reply) && received(reply) is Err ==> action is FetchArchive,
{
}

/// The version that is stored is the remote one that was received at the start, and it is stored
/// only after the database was.
pub proof fn lemma_saved_version(
    before: LyricSyncer,
    event: SyncEvent,
    after: LyricSyncer,
    action: SyncAction,
)
    requires
        awaits(before.stage, event),
        decides(before, event, after, action),
    ensures
        remote_of(after.stage) is Some ==> (match event {
            SyncEvent::Version { reply, .. } => received(reply) == Ok::<_, FetchError>(
                remote_of(after.stage)->0,
            ),
            _ => remote_of(after.stage) == remote_of(before.stage),
        }),
        action matches SyncAction::SaveVersion { version } ==> event == SyncEvent::Stored(true)
            && remote_of(before.stage) == Some(version),
{
}

/// An update is reported only after the database was stored: the syncer then stores the version,
/// and reports the update.
pub proof fn lemma_reported_update(
    before: LyricSyncer,
    event: SyncEvent,
    after: LyricSyncer,
    action: SyncAction,
)
    requires
        awaits(before.stage, event),
        decides(before, event, after, action),
    ensures
        action matches SyncAction::Finish { result } && result.status == SyncStatus::Updated
            ==> before.stage is Saving,
        after.stage is Saving ==> event == SyncEvent::Stored(true),
        after.stage matches Stage::Saving { result } ==> result.status == SyncStatus::Updated,
{
}

/// Every step keeps the state sound, and ends a synchronisation only with one of the known results.
pub proof fn lemma_step(
    before: LyricSyncer,
    event: SyncEvent,
    after: LyricSyncer,
    action: SyncAction,
)
    requires
        is_sound(before),
        awaits(before.stage, event),
        decides(before, event, after, action),
    ensures
        is_sound(after),
        action matches SyncAction::Finish { result } ==> is_known_result(result),
{
}

/// A synchronisation is reported as skipped only where the version that was stored last is the
/// remote one, and the database holds entries. The reader is kept.
pub proof fn lemma_reported_skip(
    before: LyricSyncer,
    event: SyncEvent,
    after: LyricSyncer,
    action: SyncAction,
)
    requires
        is_sound(before),
        awaits(before.stage, event),
        decides(before, event, after, action),
    ensures
        action matches SyncAction::Finish { result } && result.status == SyncStatus::Skipped ==> (
        event matches SyncEvent::Version { reply, local_commit } && (received(reply) matches Ok(
            remote,
        ) && is_current(before.reader, remote, local_commit)) && after.reader == before.reader),
{
}

/// Where the version that was stored last is the remote one and the database holds entries, the
/// synchronisation is skipped, and the reader is kept.
pub proof fn lemma_current_is_skipped(
    before: LyricSyncer,
    reply: Reply<RemoteVersion>,
    local_commit: Option<String>,
    after: LyricSyncer,
    action: SyncAction,
)
    requires
        received(reply) matches Ok(remote) && is_current(before.reader, remote, local_commit),
        decides(before, SyncEvent::Version { reply, local_commit }, after, action),
    ensures
        ends_with(after, action, SyncStatus::Skipped, None, None),
        after.reader == before.reader,
{
}

/// The syncer goes through the states, by the events and with the actions, and is idle at the
/// start and at the end only.
pub open spec fn is_run(
    states: Seq<LyricSyncer>,
    events: Seq<SyncEvent>,
    actions: Seq<SyncAction>,
) -> bool {
    &&& events.len() == actions.len()
    &&& states.len() == events.len() + 1
    &&& forall|i: int|
        0 <= i < events.len() ==> awaits((#[trigger] states[i]).stage, events[i]) && decides(
            states[i],
            events[i],
            states[i + 1],
            actions[i],
        )
    &&& forall|i: int|
        0 <= i < states.len() ==> ((#[trigger] states[i]).stage is Idle <==> i == 0 || i
            == events.len())
}

proof fn lemma_run_so_far(
    states: Seq<LyricSyncer>,
    events: Seq<SyncEvent>,
    actions: Seq<SyncAction>,
    i: int,
)
    requires
        is_run(states, events, actions),
        is_sound(states[0]),
        0 <= i < states.len(),
    ensures
        is_sound(states[i]),
        i > 0 ==> i + events_left(states[i].stage) <= 9,
    decreases i,
{
    if i > 0 {
        lemma_run_so_far(states, events, actions, i - 1);
        assert(awaits(states[i - 1].stage, events[i - 1]));
        assert(decides(states[i - 1], events[i - 1], states[(i - 1) + 1], actions[i - 1]));
        lemma_step(states[i - 1], events[i - 1], states[i], actions[i - 1]);
        if i - 1 > 0 {
            lemma_progress(states[i - 1], events[i - 1], states[i], actions[i - 1]);
            assert(states[i - 1].stage !is Idle);
        } else {
            assert(events[0] is Begin);
        }
    }
}

/// A whole synchronisation takes at most nine events. It fails, or it ends with one of the known
/// results: skipped, where the versions are the same; or an update, after the database was stored
/// and the version then; or with nothing stored.
pub proof fn lemma_run(
    states: Seq<LyricSyncer>,
    events: Seq<SyncEvent>,
    actions: Seq<SyncAction>,
)
    requires
        is_run(states, events, actions),
        is_sound(states[0]),
        events.len() > 0,
    ensures
        2 <= events.len() <= 9,
        events[0] is Begin,
        forall|i: int| 0 <= i < states.len() ==> is_sound(#[trigger] states[i]),
        match actions.last() {
            SyncAction::Fail { .. } => true,
            SyncAction::Finish { result } => {
                &&& is_known_result(result)
                &&& result.status == SyncStatus::Skipped ==> events.len() == 2 && (
                events[1] matches SyncEvent::Version { reply, local_commit } && (received(
                    reply,
                ) matches Ok(remote) && is_current(states[0].reader, remote, local_commit)))
                &&& result.status == SyncStatus::Updated <==> events.len() > 2
                    && events[events.len() - 2] == SyncEvent::Stored(true)
                &&& result.status == SyncStatus::Updated ==> actions[events.len() - 2]
                    is SaveVersion
            },
            _ => false,
        },
{
    let n = events.len() as int;
    assert forall|i: int| 0 <= i < states.len() implies is_sound(#[trigger] states[i]) by {
        lemma_run_so_far(states, events, actions, i);
    }
    lemma_run_so_far(states, events, actions, n);
    assert(awaits(states[0].stage, events[0]));
    assert(decides(states[0], events[0], states[0int + 1], actions[0]));
    assert(states[1].stage is Version);
    assert(n >= 2);
    assert(awaits(states[n - 1].stage, events[n - 1]));
    assert(decides(states[n - 1], events[n - 1], states[(n - 1) + 1], actions[n - 1]));
    assert(states[n].stage is Idle);
    lemma_progress(states[n - 1], events[n - 1], states[n], actions[n - 1]);
    lemma_step(states[n - 1], events[n - 1], states[n], actions[n - 1]);
    lemma_reported_skip(states[n - 1], events[n - 1], states[n], actions[n - 1]);
    assert(states[n - 1].stage !is Idle);
    assert(awaits(states[n - 2].stage, events[n - 2]));
    assert(decides(states[n - 2], events[n - 2], states[(n - 2) + 1], actions[n - 2]));
    lemma_reported_update(states[n - 2], events[n - 2], states[n - 1], actions[n - 2]);
    lemma_reported_update(states[n - 1], events[n - 1], states[n], actions[n - 1]);
}

/// The requests for new files are at most as many as the threshold, ask for no file twice, and
/// only for files that the index names and that are not at hand.
pub proof fn lemma_requests(
    remote: RemoteVersion,
    local: Set<Seq<char>>,
    index: Seq<Option<IndexEntry>>,
    after: LyricSyncer,
    requests: Vec<FileRequest>,
)
    requires
        after_index_entries(remote, local, index, after, SyncAction::Download { requests }),
    ensures
        0 < requests@.len() <= INCREMENTAL_THRESHOLD,
        forall|i: int, j: int|
            0 <= i < j < requests@.len() ==> (#[trigger] requests@[i]).file_name@ != (
            #[trigger] requests@[j]).file_name@,
        forall|i: int|
            0 <= i < requests@.len() ==> index_names(
                index,
                (#[trigger] requests@[i]).file_name@,
            ) && !local.contains(requests@[i].file_name@),
{
    let missing = missing_files(index, local);
    lemma_missing_files(index, local);
    assert forall|i: int| 0 <= i < requests@.len() implies index_names(
        index,
        (#[trigger] requests@[i]).file_name@,
    ) && !local.contains(requests@[i].file_name@) by {
        assert(missing.contains(missing[i]));
    }
}

/// A database that was replaced is read as the entries that were fetched, and with the version
/// that was then stored it counts as current: the next synchronisation has nothing to do.
pub proof fn lemma_replaced_is_current(
    remote: RemoteVersion,
    entries: Seq<EntryView>,
    after: LyricSyncer,
    bytes: Vec<u8>,
    reader: TtmlDbReader,
    commit: String,
)
    requires
        is_storable(entries),
        after_all_entries(remote, entries, after, SyncAction::Overwrite { bytes }),
        reader.data@ == bytes@,
        commit@ == remote.commit@,
    ensures
        reader@ == entries,
        is_whole(reader.data@),
        is_current(Some(reader), remote, Some(commit)),
{
}

/// A database to which entries were added is read as before, with the new entries behind the
/// others, and with the version that was then stored it counts as current.
pub proof fn lemma_extended_is_current(
    remote: RemoteVersion,
    entries: Seq<EntryView>,
    after: LyricSyncer,
    bytes: Vec<u8>,
    data: Seq<u8>,
    reader: TtmlDbReader,
    commit: String,
)
    requires
        is_whole(data),
        is_storable(entries),
        after_new_entries(remote, entries, after, SyncAction::Append { bytes }),
        reader.data@ == data + bytes@,
        commit@ == remote.commit@,
    ensures
        reader@ == stored_entries(data) + entries,
        is_whole(reader.data@),
        is_current(Some(reader), remote, Some(commit)),
{
    assert(stored_entries(data + bytes@) == stored_entries(data) + entries);
}

/// Once entries were added, the files that are missing are those that were missing before and of
/// which no entry was added.
pub proof fn lemma_still_missing(
    index: Seq<Option<IndexEntry>>,
    entries: Seq<EntryView>,
    more: Seq<EntryView>,
    name: Seq<char>,
)
    ensures
        missing_files(index, path_set(entries + more)).contains(name) <==> missing_files(
            index,
            path_set(entries),
        ).contains(name) && !path_set(more).contains(name),
{
    lemma_missing_files(index, path_set(entries));
    lemma_missing_files(index, path_set(entries + more));
    lemma_paths_of_appended(entries, more);
}

} // verus!
