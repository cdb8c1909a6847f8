use std::path::PathBuf;

use ttml_db::{
    index_lines, is_lyric_file, is_success, make_requests, make_url, parse_archive,
    parse_downloads, receive, select_missing, ArchiveFile, Download, FetchError, IndexEntry,
    LyricSyncer, RemoteVersion, Reply, Stage, SyncAction, SyncError, SyncEvent, SyncResult,
    SyncStatus, TtmlDbReader, TtmlDbWriter, TtmlEntry,
};

const DOCUMENT: &str = r#"<tt xmlns="http://www.w3.org/ns/ttml"><head><metadata/></head><body dur="00:10.000"><div><p begin="00:01.000" end="00:02.000">Hello</p></div></body></tt>"#;

fn version(commit: &str) -> RemoteVersion {
    RemoteVersion {
        build_date: "2024-01-01".to_string(),
        commit: commit.to_string(),
        file_count: 100,
        timestamp: 1704067200,
    }
}

fn answer<T>(body: T) -> Reply<T> {
    Reply::Answered { status: 200, body: Some(body) }
}

fn entry(path: &str) -> TtmlEntry {
    TtmlEntry {
        file_path: path.to_string(),
        title: "".to_string(),
        artist: "".to_string(),
        album: "".to_string(),
        author_ids: "".to_string(),
        author_names: "".to_string(),
        lyric_text: "Hello".to_string(),
        bg_vocal_text: "".to_string(),
        raw_ttml: DOCUMENT.to_string(),
    }
}

fn database(paths: &[&str]) -> Vec<u8> {
    let entries: Vec<TtmlEntry> = paths.iter().map(|p| entry(p)).collect();
    TtmlDbWriter::new(PathBuf::from("index.bin")).overwrite_entries(&entries).unwrap()
}

fn syncer(paths: &[&str]) -> LyricSyncer {
    LyricSyncer::new(PathBuf::from("index.bin"), Some(TtmlDbReader::new(database(paths))))
}

fn empty_syncer() -> LyricSyncer {
    LyricSyncer::new(PathBuf::from("index.bin"), None)
}

fn named(names: &[&str]) -> Vec<Option<IndexEntry>> {
    names.iter().map(|n| Some(IndexEntry { raw_lyric_file: n.to_string() })).collect()
}

fn file(name: &str, content: &str) -> ArchiveFile {
    ArchiveFile { name: name.to_string(), is_dir: false, content: Some(content.to_string()) }
}

fn begin(syncer: &mut LyricSyncer) {
    match syncer.sync(SyncEvent::Begin) {
        SyncAction::FetchVersion { url } => {
            assert_eq!(url, "https://amlldb.bikonoo.com/raw-lyrics/version.json")
        }
        _ => panic!("the remote version is not asked for"),
    }
}

fn report(syncer: &mut LyricSyncer, commit: &str, local: Option<&str>) -> SyncAction {
    begin(syncer);
    syncer.sync(SyncEvent::Version {
        reply: answer(version(commit)),
        local_commit: local.map(|c| c.to_string()),
    })
}

fn expect_archive_request(action: SyncAction) {
    match action {
        SyncAction::FetchArchive { url } => {
            assert_eq!(url, "https://amlldb.bikonoo.com/raw-lyrics/raw-lyrics.zip")
        }
        _ => panic!("the archive is not asked for"),
    }
}

fn expect_result(action: SyncAction) -> SyncResult {
    match action {
        SyncAction::Finish { result } => result,
        _ => panic!("the synchronisation has not ended"),
    }
}

fn expect_failure(action: SyncAction) -> SyncError {
    match action {
        SyncAction::Fail { error } => error,
        _ => panic!("the synchronisation has not failed"),
    }
}

fn expect_saved(action: SyncAction, commit: &str) {
    match action {
        SyncAction::SaveVersion { version } => assert_eq!(version.commit, commit),
        _ => panic!("the version is not stored"),
    }
}

/// Leads a syncer with the entries "a.ttml" and "b.ttml" to the downloads of the files.
fn ask_for_files(syncer: &mut LyricSyncer, names: &[&str]) -> SyncAction {
    match report(syncer, "new", Some("old")) {
        SyncAction::FetchIndex { url } => {
            assert_eq!(url, "https://amlldb.bikonoo.com/metadata/raw-lyrics-index.jsonl")
        }
        _ => panic!("the index is not asked for"),
    }
    match syncer.sync(SyncEvent::Index(answer("line\n".to_string()))) {
        SyncAction::ParseLines { lines } => assert_eq!(lines, vec!["line".to_string()]),
        _ => panic!("the index is not read"),
    }
    syncer.sync(SyncEvent::IndexEntries(named(names)))
}

#[test]
fn an_unreachable_version_fails() {
    let mut syncer = syncer(&["a.ttml"]);
    begin(&mut syncer);
    let event = SyncEvent::Version { reply: Reply::Unreachable, local_commit: None };
    let error = expect_failure(syncer.sync(event));
    assert_eq!(error, SyncError::Version(FetchError::Unreachable));
    assert!(syncer.reader.is_some());
    assert!(matches!(syncer.stage, Stage::Idle));
}

#[test]
fn a_version_with_an_error_status_fails() {
    let mut syncer = empty_syncer();
    begin(&mut syncer);
    let reply = Reply::Answered { status: 404, body: Some(version("new")) };
    let error = expect_failure(syncer.sync(SyncEvent::Version { reply, local_commit: None }));
    assert_eq!(error, SyncError::Version(FetchError::Status(404)));
}

#[test]
fn an_unreadable_version_fails() {
    let mut syncer = empty_syncer();
    begin(&mut syncer);
    let reply = Reply::Answered { status: 200, body: None };
    let error = expect_failure(syncer.sync(SyncEvent::Version { reply, local_commit: None }));
    assert_eq!(error, SyncError::Version(FetchError::Unreadable));
}

#[test]
fn a_current_database_is_left_alone() {
    let mut syncer = syncer(&["a.ttml"]);
    let result = expect_result(report(&mut syncer, "abc123", Some("abc123")));
    assert_eq!(result.status, SyncStatus::Skipped);
    assert_eq!(result.count, None);
    assert_eq!(result.error, None);
    assert_eq!(result.strategy, None);
    assert!(syncer.reader.is_some());
}

#[test]
fn an_empty_database_is_never_current() {
    let mut syncer = syncer(&[]);
    assert_eq!(syncer.get_local_count(), 0);
    expect_archive_request(report(&mut syncer, "abc123", Some("abc123")));
    assert!(syncer.reader.is_none());
}

#[test]
fn without_a_database_everything_is_fetched() {
    let mut syncer = empty_syncer();
    assert_eq!(syncer.get_local_count(), 0);
    expect_archive_request(report(&mut syncer, "abc123", None));
}

#[test]
fn the_reader_is_given_up_before_an_update() {
    let mut syncer = syncer(&["a.ttml", "b.ttml"]);
    assert_eq!(syncer.get_local_count(), 2);
    assert!(matches!(report(&mut syncer, "new", Some("old")), SyncAction::FetchIndex { .. }));
    assert!(syncer.reader.is_none());
}

#[test]
fn a_failing_index_leads_to_the_archive() {
    for reply in [
        Reply::Unreachable,
        Reply::Answered { status: 500, body: Some("text".to_string()) },
        Reply::Answered { status: 200, body: None },
    ] {
        let mut syncer = syncer(&["a.ttml"]);
        report(&mut syncer, "new", None);
        expect_archive_request(syncer.sync(SyncEvent::Index(reply)));
    }
}

#[test]
fn blank_lines_of_the_index_are_left_out() {
    let text = "{\"a\":1}\n\n  \t\r\n\u{3000}\u{a0}\n {\"b\":2} \nlast";
    assert_eq!(index_lines(text), vec!["{\"a\":1}", " {\"b\":2} ", "last"]);
    assert!(index_lines("").is_empty());
}

#[test]
fn blank_means_what_trimming_leaves_empty() {
    for code in 0..0x3100u32 {
        if let Some(c) = char::from_u32(code) {
            let text = format!("x{}y{}", c, c);
            let expected: Vec<String> = text
                .lines()
                .filter(|line| !line.trim().is_empty())
                .map(|line| line.to_string())
                .collect();
            assert_eq!(index_lines(&text), expected);
            let alone = format!("{} ", c);
            let expected = alone.lines().filter(|line| !line.trim().is_empty()).count();
            assert_eq!(index_lines(&alone).len(), expected);
        }
    }
}

#[test]
fn missing_files_are_named_once() {
    let local = TtmlDbReader::new(database(&["a.ttml", "b.ttml"])).get_all_file_paths();
    let mut index = named(&["c.ttml", "a.ttml", "d.ttml", "c.ttml"]);
    index.push(None);
    index.extend(named(&["e.ttml", "b.ttml"]));
    assert_eq!(select_missing(&index, &local), vec!["c.ttml", "d.ttml", "e.ttml"]);
}

#[test]
fn another_version_with_nothing_new_is_empty() {
    let mut syncer = syncer(&["a.ttml", "b.ttml"]);
    let result = expect_result(ask_for_files(&mut syncer, &["b.ttml", "a.ttml"]));
    assert_eq!(result.status, SyncStatus::Empty);
    assert_eq!(result.count, Some(0));
    assert_eq!(result.error, None);
    assert_eq!(result.strategy.as_deref(), Some("incremental"));
}

#[test]
fn up_to_the_threshold_files_are_downloaded() {
    let names: Vec<String> = (0..200).map(|i| format!("{}.ttml", i)).collect();
    let names: Vec<&str> = names.iter().map(|n| n.as_str()).collect();
    match ask_for_files(&mut syncer(&["a.ttml"]), &names) {
        SyncAction::Download { requests } => {
            assert_eq!(requests.len(), 200);
            assert_eq!(requests[7].file_name, "7.ttml");
            assert_eq!(requests[7].url, "https://amlldb.bikonoo.com/raw-lyrics/7.ttml");
        }
        _ => panic!("nothing is downloaded"),
    }
}

#[test]
fn beyond_the_threshold_everything_is_fetched() {
    let names: Vec<String> = (0..201).map(|i| format!("{}.ttml", i)).collect();
    let names: Vec<&str> = names.iter().map(|n| n.as_str()).collect();
    expect_archive_request(ask_for_files(&mut syncer(&["a.ttml"]), &names));
}

#[test]
fn downloads_are_added_and_the_version_is_stored() {
    let before = database(&["a.ttml", "b.ttml"]);
    let mut syncer = syncer(&["a.ttml", "b.ttml"]);
    ask_for_files(&mut syncer, &["c.ttml", "d.ttml", "e.ttml", "f.ttml"]);
    let downloads = vec![
        Download { file_name: "d.ttml".to_string(), reply: answer(DOCUMENT.to_string()) },
        Download { file_name: "e.ttml".to_string(), reply: Reply::Unreachable },
        Download { file_name: "c.ttml".to_string(), reply: answer(DOCUMENT.to_string()) },
        Download { file_name: "f.ttml".to_string(), reply: answer("<broken".to_string()) },
    ];
    let bytes = match syncer.sync(SyncEvent::Downloads(downloads)) {
        SyncAction::Append { bytes } => bytes,
        _ => panic!("nothing is added"),
    };
    expect_saved(syncer.sync(SyncEvent::Stored(true)), "new");
    let result = expect_result(syncer.sync(SyncEvent::Saved));
    assert_eq!(result.status, SyncStatus::Updated);
    assert_eq!(result.count, Some(2));
    assert_eq!(result.error, None);
    assert_eq!(result.strategy.as_deref(), Some("incremental"));

    let mut file = before;
    file.extend(bytes);
    let reader = TtmlDbReader::new(file);
    assert_eq!(reader.get_entry_count(), 4);
    assert_eq!(reader.get_lyric_detail("c.ttml").as_deref(), Some(DOCUMENT));
    let paths = reader.get_all_file_paths();
    assert_eq!(select_missing(&named(&["c.ttml", "d.ttml", "e.ttml"]), &paths), vec!["e.ttml"]);

    let mut next = LyricSyncer::new(PathBuf::from("index.bin"), Some(reader));
    let result = expect_result(report(&mut next, "new", Some("new")));
    assert_eq!(result.status, SyncStatus::Skipped);
}

#[test]
fn downloads_without_entries_are_empty() {
    let mut syncer = syncer(&["a.ttml"]);
    ask_for_files(&mut syncer, &["c.ttml"]);
    let reply = Reply::Answered { status: 404, body: Some(DOCUMENT.to_string()) };
    let downloads = vec![Download { file_name: "c.ttml".to_string(), reply }];
    let result = expect_result(syncer.sync(SyncEvent::Downloads(downloads)));
    assert_eq!(result.status, SyncStatus::Empty);
    assert_eq!(result.count, Some(0));
    assert_eq!(result.strategy.as_deref(), Some("incremental"));
}

#[test]
fn a_failing_addition_leads_to_the_archive() {
    let mut syncer = syncer(&["a.ttml"]);
    ask_for_files(&mut syncer, &["c.ttml"]);
    let reply = answer(DOCUMENT.to_string());
    let downloads = vec![Download { file_name: "c.ttml".to_string(), reply }];
    assert!(matches!(syncer.sync(SyncEvent::Downloads(downloads)), SyncAction::Append { .. }));
    expect_archive_request(syncer.sync(SyncEvent::Stored(false)));
}

#[test]
fn the_archive_replaces_the_database() {
    let mut syncer = empty_syncer();
    report(&mut syncer, "new", None);
    let files = vec![
        ArchiveFile { name: "dir.ttml".to_string(), is_dir: true, content: None },
        file("raw/1.ttml", DOCUMENT),
        file("readme.md", DOCUMENT),
        ArchiveFile { name: "2.ttml".to_string(), is_dir: false, content: None },
        file("3.ttml", "no document <"),
        file("4.ttml", DOCUMENT),
    ];
    let bytes = match syncer.sync(SyncEvent::Archive(answer(files))) {
        SyncAction::Overwrite { bytes } => bytes,
        _ => panic!("the database is not replaced"),
    };
    expect_saved(syncer.sync(SyncEvent::Stored(true)), "new");
    let result = expect_result(syncer.sync(SyncEvent::Saved));
    assert_eq!(result.status, SyncStatus::Updated);
    assert_eq!(result.count, Some(2));
    assert_eq!(result.error, None);
    assert_eq!(result.strategy.as_deref(), Some("full"));

    let reader = TtmlDbReader::new(bytes);
    assert_eq!(reader.get_entry_count(), 2);
    assert!(reader.get_all_file_paths().contains("raw/1.ttml"));
    assert!(reader.get_all_file_paths().contains("4.ttml"));

    let mut next = LyricSyncer::new(PathBuf::from("index.bin"), Some(reader));
    let result = expect_result(report(&mut next, "new", Some("new")));
    assert_eq!(result.status, SyncStatus::Skipped);

    // Without a new reader the same syncer fetches everything again.
    expect_archive_request(report(&mut syncer, "new", Some("new")));
}

#[test]
fn an_archive_without_entries_is_empty() {
    let mut syncer = empty_syncer();
    report(&mut syncer, "new", None);
    let files = vec![file("readme.md", DOCUMENT)];
    let result = expect_result(syncer.sync(SyncEvent::Archive(answer(files))));
    assert_eq!(result.status, SyncStatus::Empty);
    assert_eq!(result.count, Some(0));
    assert_eq!(result.strategy.as_deref(), Some("full"));
    assert!(matches!(syncer.stage, Stage::Idle));
}

#[test]
fn a_failing_archive_fails() {
    for (reply, error) in [
        (Reply::Unreachable, FetchError::Unreachable),
        (Reply::Answered { status: 503, body: None }, FetchError::Status(503)),
        (Reply::Answered { status: 200, body: None }, FetchError::Unreadable),
    ] {
        let mut syncer = empty_syncer();
        report(&mut syncer, "new", None);
        let failure = expect_failure(syncer.sync(SyncEvent::Archive(reply)));
        assert_eq!(failure, SyncError::Archive(error));
    }
}

#[test]
fn a_failing_replacement_fails() {
    let mut syncer = empty_syncer();
    report(&mut syncer, "new", None);
    syncer.sync(SyncEvent::Archive(answer(vec![file("1.ttml", DOCUMENT)])));
    assert_eq!(expect_failure(syncer.sync(SyncEvent::Stored(false))), SyncError::Store);
}

#[test]
fn entries_of_no_use_end_the_synchronisation() {
    let mut syncer = empty_syncer();
    let result = expect_result(syncer.perform_full_sync(version("new"), &Vec::new()));
    assert_eq!(result.status, SyncStatus::Empty);
    let result = expect_result(syncer.perform_incremental_sync(version("new"), &Vec::new()));
    assert_eq!(result.status, SyncStatus::Empty);
    let action = syncer.perform_full_sync(version("new"), &vec![entry("1.ttml")]);
    assert!(matches!(action, SyncAction::Overwrite { .. }));
}

#[test]
fn files_of_lyrics_are_told_by_their_names() {
    assert!(is_lyric_file("a.ttml", false));
    assert!(is_lyric_file(".ttml", false));
    assert!(is_lyric_file("é/名前.ttml", false));
    assert!(!is_lyric_file("a.ttml", true));
    assert!(!is_lyric_file("a.TTML", false));
    assert!(!is_lyric_file("ttml", false));
    assert!(!is_lyric_file("a.ttml.bak", false));
    assert!(!is_lyric_file("", false));
}

#[test]
fn success_lies_between_200_and_299() {
    assert!(is_success(200));
    assert!(is_success(299));
    assert!(!is_success(199));
    assert!(!is_success(300));
    assert_eq!(receive(answer(7)), Ok(7));
}

#[test]
fn addresses_lie_below_the_mirror() {
    assert_eq!(make_url("/x"), "https://amlldb.bikonoo.com/x");
    let requests = make_requests(vec!["a b.ttml".to_string()]);
    assert_eq!(requests.len(), 1);
    assert_eq!(requests[0].file_name, "a b.ttml");
    assert_eq!(requests[0].url, "https://amlldb.bikonoo.com/raw-lyrics/a b.ttml");
}

#[test]
fn parsed_files_keep_their_order() {
    let entries = parse_archive(vec![file("2.ttml", DOCUMENT), file("1.ttml", DOCUMENT)]);
    let paths: Vec<&str> = entries.iter().map(|e| e.file_path.as_str()).collect();
    assert_eq!(paths, vec!["2.ttml", "1.ttml"]);
    let reply = answer(DOCUMENT.to_string());
    let entries = parse_downloads(vec![Download { file_name: "x".to_string(), reply }]);
    assert_eq!(entries[0].file_path, "x");
    assert_eq!(entries[0].lyric_text, "Hello");
}
