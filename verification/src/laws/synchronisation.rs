//! The decisions of a synchronisation.

use vstd::prelude::*;

use crate::archive::{archive_size, archived_rows};
use crate::block::stored_entries;
use crate::laws::remote::{brings, law_addresses, law_missing_files, law_received, law_requests};
use crate::laws::search::law_paths;
use crate::laws::storage::{are_rows_of, law_written, plain_block};
use crate::model::{EntryView, IndexEntry, RemoteVersion, SyncResult, SyncStatus};
use crate::reader::TtmlDbReader;
use crate::remote::{
    archive_entries, archive_within_limits, download_entries, downloads_within_limits,
    filled_lines, missing_files, received, ArchiveFile, Download, FetchError, Reply,
};
use crate::sync::{
    after_all_entries, after_comparison, after_index_entries, after_new_entries, awaits, decides,
    LyricSyncer, Stage, SyncAction, SyncError, SyncEvent, CONCURRENT_WORKERS,
    INCREMENTAL_THRESHOLD, INDEX_FILE, VERSION_FILE,
};
use crate::text::{text_lines, views};
use crate::writer::WriteError;

verus! {

/// The entries of the database that the reader has open; none without a reader.
pub open spec fn entries_at_hand(reader: Option<TtmlDbReader>) -> Seq<EntryView> {
    match reader {
        Some(reader) => stored_entries(reader.data@),
        None => Seq::empty(),
    }
}

/// The two texts have the same characters, one by one.
pub open spec fn same_characters(a: Seq<char>, b: Seq<char>) -> bool {
    a.len() == b.len() && forall|i: int| 0 <= i < a.len() ==> #[trigger] a[i] == b[i]
}

/// The action ends the synchronisation with this status, count and way, and without an error.
pub open spec fn finishes(
    action: SyncAction,
    status: SyncStatus,
    count: Option<usize>,
    strategy: Option<Seq<char>>,
) -> bool {
    action matches SyncAction::Finish { result } && reports(result, status, count, strategy)
}

/// The result tells this status, count and way, and no error.
pub open spec fn reports(
    result: SyncResult,
    status: SyncStatus,
    count: Option<usize>,
    strategy: Option<Seq<char>>,
) -> bool {
    &&& result.status == status
    &&& result.count == count
    &&& result.error is None
    &&& result.strategy is Some == strategy is Some
    &&& strategy is Some ==> result.strategy->0@ == strategy->0
}

/// The action asks for the archive of the whole collection.
pub open spec fn fetches_everything(action: SyncAction) -> bool {
    action matches SyncAction::FetchArchive { url } && url@
        == "https://amlldb.bikonoo.com/raw-lyrics/raw-lyrics.zip"@
}

/// The action asks for the index.
pub open spec fn fetches_index(action: SyncAction) -> bool {
    action matches SyncAction::FetchIndex { url } && url@
        == "https://amlldb.bikonoo.com/metadata/raw-lyrics-index.jsonl"@
}

proof fn lemma_addresses()
    ensures
        "https://amlldb.bikonoo.com"@ + "/raw-lyrics/raw-lyrics.zip"@
            == "https://amlldb.bikonoo.com/raw-lyrics/raw-lyrics.zip"@,
        "https://amlldb.bikonoo.com"@ + "/metadata/raw-lyrics-index.jsonl"@
            == "https://amlldb.bikonoo.com/metadata/raw-lyrics-index.jsonl"@,
        "https://amlldb.bikonoo.com"@ + "/raw-lyrics/version.json"@
            == "https://amlldb.bikonoo.com/raw-lyrics/version.json"@,
{
    reveal_strlit("https://amlldb.bikonoo.com");
    reveal_strlit("/raw-lyrics/raw-lyrics.zip");
    reveal_strlit("https://amlldb.bikonoo.com/raw-lyrics/raw-lyrics.zip");
    reveal_strlit("/metadata/raw-lyrics-index.jsonl");
    reveal_strlit("https://amlldb.bikonoo.com/metadata/raw-lyrics-index.jsonl");
    reveal_strlit("/raw-lyrics/version.json");
    reveal_strlit("https://amlldb.bikonoo.com/raw-lyrics/version.json");
    assert("https://amlldb.bikonoo.com"@ + "/raw-lyrics/raw-lyrics.zip"@
        =~= "https://amlldb.bikonoo.com/raw-lyrics/raw-lyrics.zip"@);
    assert("https://amlldb.bikonoo.com"@ + "/metadata/raw-lyrics-index.jsonl"@
        =~= "https://amlldb.bikonoo.com/metadata/raw-lyrics-index.jsonl"@);
    assert("https://amlldb.bikonoo.com"@ + "/raw-lyrics/version.json"@
        =~= "https://amlldb.bikonoo.com/raw-lyrics/version.json"@);
    law_addresses("/raw-lyrics/version.json"@, Seq::empty());
}

/// The files of the data directory are `index.bin` and `version.json`, and twenty files are
/// downloaded at the same time.
pub proof fn law_settings()
    ensures
        INDEX_FILE@ == "index.bin"@,
        VERSION_FILE@ == "version.json"@,
        CONCURRENT_WORKERS == 20,
        INCREMENTAL_THRESHOLD == 200,
{
}

/// A synchronisation starts with the request for the remote version.
pub proof fn law_begin(before: LyricSyncer, after: LyricSyncer, action: SyncAction)
    requires
        decides(before, SyncEvent::Begin, after, action),
    ensures
        action matches SyncAction::FetchVersion { url } && url@
            == "https://amlldb.bikonoo.com/raw-lyrics/version.json"@,
        after.stage is Version,
        after.reader == before.reader,
{
    lemma_addresses();
    law_addresses("/raw-lyrics/version.json"@, Seq::empty());
}

/// With entries at hand, the synchronisation is skipped exactly where the commit that was stored
/// last has the same characters as the remote one; with any other commit, or none, the index is
/// asked for, the reader is given up, and the paths of the entries are kept. Without entries the
/// whole collection is asked for.
pub proof fn law_comparison(
    before: LyricSyncer,
    remote: RemoteVersion,
    local_commit: Option<String>,
    after: LyricSyncer,
    action: SyncAction,
)
    requires
        after_comparison(before, remote, local_commit, after, action),
    ensures
        ({
            let held = entries_at_hand(before.reader);
            let same = local_commit is Some && same_characters(
                local_commit->0@,
                remote.commit@,
            );
            &&& held.len() > 0 && same ==> finishes(action, SyncStatus::Skipped, None, None)
                && after.stage is Idle && after.reader == before.reader
            &&& held.len() > 0 && !same ==> {
                &&& fetches_index(action)
                &&& after.reader is None
                &&& after.stage is Index
                &&& after.stage->Index_remote == remote
                &&& forall|path: Seq<char>| #[trigger]
                    after.stage->Index_local@.contains(path) <==> exists|i: int|
                        0 <= i < held.len() && (#[trigger] held[i]).file_path == path
            }
            &&& held.len() == 0 ==> fetches_everything(action) && after.reader is None
                && after.stage == (Stage::Archive { remote })
        }),
{
    lemma_addresses();
    law_addresses("/raw-lyrics/raw-lyrics.zip"@, Seq::empty());
    law_addresses("/metadata/raw-lyrics-index.jsonl"@, Seq::empty());
    let held = entries_at_hand(before.reader);
    if let Some(commit) = local_commit {
        if same_characters(commit@, remote.commit@) {
            assert(commit@ =~= remote.commit@);
        }
    }
    assert forall|path: Seq<char>| #[trigger] crate::sync::local_files(before.reader).contains(path)
        <==> exists|i: int| 0 <= i < held.len() && (#[trigger] held[i]).file_path == path by {
        law_paths(held, path);
    }
    if held.len() > 0 {
        assert(crate::sync::local_files(before.reader).contains(held[0].file_path));
    } else {
        assert(crate::sync::local_files(before.reader) =~= Set::empty());
    }
}

/// The reply to the request for the remote version decides: where it brings a version, that is
/// compared with the one that was stored last; otherwise the synchronisation fails, with what went
/// wrong, and the reader is kept.
pub proof fn law_version(
    before: LyricSyncer,
    reply: Reply<RemoteVersion>,
    local_commit: Option<String>,
    after: LyricSyncer,
    action: SyncAction,
)
    requires
        decides(before, SyncEvent::Version { reply, local_commit }, after, action),
    ensures
        forall|remote: RemoteVersion| #[trigger]
            brings(reply, remote) ==> after_comparison(
                before,
                remote,
                local_commit,
                after,
                action,
            ),
        (forall|remote: RemoteVersion| !#[trigger] brings(reply, remote)) ==> (
        action matches SyncAction::Fail { error: SyncError::Version(error) } && received(reply)
            == Err::<RemoteVersion, FetchError>(error)) && after.reader == before.reader
            && after.stage is Idle,
        action matches SyncAction::Finish { result } ==> (exists|remote: RemoteVersion| #[trigger]
            brings(reply, remote) && local_commit is Some && same_characters(
                local_commit->0@,
                remote.commit@,
            )) && entries_at_hand(before.reader).len() > 0,
{
    law_received(reply);
    if let Ok(remote) = received(reply) {
        assert(brings(reply, remote));
        law_comparison(before, remote, local_commit, after, action);
    }
}

/// Where the index came, exactly its lines that say something are to be read; otherwise the whole
/// collection is asked for. What is at hand is kept in mind.
pub proof fn law_index(
    before: LyricSyncer,
    reply: Reply<String>,
    after: LyricSyncer,
    action: SyncAction,
)
    requires
        before.stage is Index,
        decides(before, SyncEvent::Index(reply), after, action),
    ensures
        after.reader == before.reader,
        forall|text: String| #[trigger]
            brings(reply, text) ==> (action matches SyncAction::ParseLines { lines } && views(
                lines@,
            ) == filled_lines(text_lines(text@))) && after.stage == (Stage::Parsing {
                remote: before.stage->Index_remote,
                local: before.stage->Index_local,
            }),
        (forall|text: String| !#[trigger] brings(reply, text)) ==> fetches_everything(action)
            && after.stage == (Stage::Archive { remote: before.stage->Index_remote }),
{
    lemma_addresses();
    law_addresses("/raw-lyrics/raw-lyrics.zip"@, Seq::empty());
    law_received(reply);
    if let Ok(text) = received(reply) {
        assert(brings(reply, text));
    }
}

/// The files that are asked for are exactly those that the index names and that are not at hand,
/// each once and by its address. With more than 200 of them the whole collection is asked for
/// instead, and with none the synchronisation ends with nothing stored.
pub proof fn law_selection(
    remote: RemoteVersion,
    local: Set<Seq<char>>,
    index: Seq<Option<IndexEntry>>,
    after: LyricSyncer,
    action: SyncAction,
)
    requires
        after_index_entries(remote, local, index, after, action),
    ensures
        ({
            let missing = missing_files(index, local);
            &&& missing.len() > 200 ==> fetches_everything(action) && after.stage
                == (Stage::Archive { remote })
            &&& missing.len() == 0 ==> finishes(
                action,
                SyncStatus::Empty,
                Some(0),
                Some("incremental"@),
            ) && after.stage is Idle
            &&& 0 < missing.len() <= 200 ==> after.stage == (Stage::Downloads { remote }) && (
            action matches SyncAction::Download { requests } && requests@.len() == missing.len()
                && forall|i: int|
                0 <= i < missing.len() ==> (#[trigger] requests@[i]).file_name@ == missing[i]
                    && requests@[i].url@ == "https://amlldb.bikonoo.com/raw-lyrics/"@ + missing[i])
        }),
        action matches SyncAction::Download { requests } ==> forall|name: Seq<char>|
            (exists|k: int|
                0 <= k < requests@.len() && (#[trigger] requests@[k]).file_name@ == name)
                <==> #[trigger] missing_files(index, local).contains(name),
        action matches SyncAction::Finish { .. } ==> forall|i: int|
            0 <= i < index.len() && #[trigger] index[i] is Some ==> local.contains(
                index[i]->0.raw_lyric_file@,
            ),
{
    lemma_addresses();
    law_addresses("/raw-lyrics/raw-lyrics.zip"@, Seq::empty());
    law_missing_files(index, local);
    let missing = missing_files(index, local);
    if let SyncAction::Download { requests } = action {
        law_requests(requests@, missing);
        assert forall|name: Seq<char>|
            (exists|k: int|
                0 <= k < requests@.len() && (#[trigger] requests@[k]).file_name@ == name)
                <==> #[trigger] missing.contains(name) by {
            if exists|k: int|
                0 <= k < requests@.len() && (#[trigger] requests@[k]).file_name@ == name {
                let k = choose|k: int|
                    0 <= k < requests@.len() && (#[trigger] requests@[k]).file_name@ == name;
                assert(missing[k] == name);
            }
            if missing.contains(name) {
                let k = missing.index_of(name);
                assert(requests@[k].file_name@ == name);
            }
        }
    }
    if let SyncAction::Finish { .. } = action {
        assert forall|i: int| 0 <= i < index.len() && #[trigger] index[i] is Some implies
            local.contains(index[i]->0.raw_lyric_file@) by {
            let name = index[i]->0.raw_lyric_file@;
            if !local.contains(name) {
                assert(missing.contains(name));
                assert(missing.len() > 0);
            }
        }
    }
}

/// Where new entries were fetched, one block with all of them is put behind the file, as long as it
/// has room for them; otherwise the whole collection is asked for. Without entries the
/// synchronisation ends with nothing stored.
pub proof fn law_new_entries(
    remote: RemoteVersion,
    entries: Seq<EntryView>,
    rows: Seq<Seq<Seq<char>>>,
    after: LyricSyncer,
    action: SyncAction,
)
    requires
        after_new_entries(remote, entries, after, action),
        are_rows_of(rows, entries),
    ensures
        entries.len() == 0 ==> finishes(action, SyncStatus::Empty, Some(0), Some("incremental"@))
            && after.stage is Idle,
        entries.len() > 0 && archive_size(rows) <= 0xffff_ffff ==> (
        action matches SyncAction::Append { bytes } && bytes@ == plain_block(archived_rows(rows)))
            && (after.stage matches Stage::Appending { remote: kept, count } && kept == remote
            && count == entries.len()),
        entries.len() > 0 && archive_size(rows) > 0xffff_ffff ==> fetches_everything(action)
            && after.stage == (Stage::Archive { remote }),
{
    lemma_addresses();
    law_addresses("/raw-lyrics/raw-lyrics.zip"@, Seq::empty());
    law_written(entries, rows);
}

/// Where the whole collection was fetched, the file is replaced by one block with all entries, as
/// long as it has room for them; otherwise the synchronisation fails. Without entries it ends with
/// nothing stored.
pub proof fn law_all_entries(
    remote: RemoteVersion,
    entries: Seq<EntryView>,
    rows: Seq<Seq<Seq<char>>>,
    after: LyricSyncer,
    action: SyncAction,
)
    requires
        after_all_entries(remote, entries, after, action),
        are_rows_of(rows, entries),
    ensures
        entries.len() == 0 ==> finishes(action, SyncStatus::Empty, Some(0), Some("full"@))
            && after.stage is Idle,
        entries.len() > 0 && archive_size(rows) <= 0xffff_ffff ==> (
        action matches SyncAction::Overwrite { bytes } && bytes@ == plain_block(
            archived_rows(rows),
        )) && (after.stage matches Stage::Overwriting { remote: kept, count } && kept == remote
            && count == entries.len()),
        entries.len() > 0 && archive_size(rows) > 0xffff_ffff ==> action == (SyncAction::Fail {
            error: SyncError::Write(WriteError::PayloadTooLarge),
        }) && after.stage is Idle,
{
    law_written(entries, rows);
}

/// What was fetched decides: the entries of the index on what to download, those of the downloads
/// on what to add, and those of the archive on what to store. Nothing is left out of any of them,
/// the version and what is at hand stay what they were, and an archive that did not come makes the
/// synchronisation fail, with what went wrong.
pub proof fn law_fetched(
    before: LyricSyncer,
    event: SyncEvent,
    after: LyricSyncer,
    action: SyncAction,
)
    requires
        decides(before, event, after, action),
    ensures
        event is IndexEntries || event is Downloads || event is Archive ==> after.reader
            == before.reader,
        event matches SyncEvent::IndexEntries(index) ==> before.stage is Parsing
            && after_index_entries(
            before.stage->Parsing_remote,
            before.stage->Parsing_local@,
            index@,
            after,
            action,
        ),
        event matches SyncEvent::Downloads(downloads) ==> before.stage is Downloads
            && after_new_entries(
            before.stage->Downloads_remote,
            download_entries(downloads@),
            after,
            action,
        ),
        event matches SyncEvent::Archive(reply) ==> before.stage is Archive && (forall|
            files: Vec<ArchiveFile>,
        | #[trigger]
            brings(reply, files) ==> after_all_entries(
                before.stage->Archive_remote,
                archive_entries(files@),
                after,
                action,
            )) && ((forall|files: Vec<ArchiveFile>| !#[trigger] brings(reply, files)) ==> (
        action matches SyncAction::Fail { error: SyncError::Archive(error) } && received(reply)
            == Err::<Vec<ArchiveFile>, FetchError>(error)) && after.stage is Idle),
{
    if let SyncEvent::Archive(reply) = event {
        law_received(reply);
        if let Ok(files) = received(reply) {
            assert(brings(reply, files));
        }
    }
}

/// Where the database was stored, the remote version is to be stored, and an update with the number
/// of entries and the way is reported after that. Where new entries could not be added, the whole
/// collection is asked for; where the database could not be replaced, the synchronisation fails.
pub proof fn law_stored(
    before: LyricSyncer,
    success: bool,
    after: LyricSyncer,
    action: SyncAction,
)
    requires
        decides(before, SyncEvent::Stored(success), after, action),
    ensures
        after.reader == before.reader,
        before.stage matches Stage::Appending { remote, count } ==> if success {
            action == (SyncAction::SaveVersion { version: remote }) && (
            after.stage matches Stage::Saving { result } && reports(
                result,
                SyncStatus::Updated,
                Some(count),
                Some("incremental"@),
            ))
        } else {
            fetches_everything(action) && after.stage == (Stage::Archive { remote })
        },
        before.stage matches Stage::Overwriting { remote, count } ==> if success {
            action == (SyncAction::SaveVersion { version: remote }) && (
            after.stage matches Stage::Saving { result } && reports(
                result,
                SyncStatus::Updated,
                Some(count),
                Some("full"@),
            ))
        } else {
            action == (SyncAction::Fail { error: SyncError::Store }) && after.stage is Idle
        },
{
    lemma_addresses();
    law_addresses("/raw-lyrics/raw-lyrics.zip"@, Seq::empty());
}

/// Once the version was stored, or could not be, the result that was kept is told.
pub proof fn law_saved(before: LyricSyncer, after: LyricSyncer, action: SyncAction)
    requires
        before.stage is Saving,
        decides(before, SyncEvent::Saved, after, action),
    ensures
        action == (SyncAction::Finish { result: before.stage->Saving_result }),
        after.stage is Idle,
        after.reader == before.reader,
{
}

/// The syncer takes the event that reports on its last action, whatever it reports, as long as the
/// documents in it are within the limits of the parser.
pub proof fn law_awaited(stage: Stage, event: SyncEvent)
    ensures
        awaits(stage, event) <==> match stage {
            Stage::Idle => event is Begin,
            Stage::Version => event is Version,
            Stage::Index { .. } => event is Index,
            Stage::Parsing { .. } => event is IndexEntries,
            Stage::Downloads { .. } => event matches SyncEvent::Downloads(downloads)
                && downloads_within_limits(downloads@),
            Stage::Archive { .. } => event matches SyncEvent::Archive(reply) && (forall|
                files: Vec<ArchiveFile>,
            | #[trigger]
                brings(reply, files) ==> archive_within_limits(files@)),
            Stage::Appending { .. } => event is Stored,
            Stage::Overwriting { .. } => event is Stored,
            Stage::Saving { .. } => event is Saved,
        },
{
    if let SyncEvent::Archive(reply) = event {
        law_received(reply);
        if let Ok(files) = received(reply) {
            assert(brings(reply, files));
        }
    }
}

} // verus!
