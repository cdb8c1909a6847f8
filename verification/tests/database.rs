use std::path::PathBuf;

use ttml_db::{temp_file_name, TtmlDbReader, TtmlDbWriter, TtmlEntry};

fn entry(number: usize) -> TtmlEntry {
    TtmlEntry {
        file_path: format!("test{}.ttml", number),
        title: format!("Song {}", number),
        artist: format!("Artist {}", number),
        album: format!("Album {}", number),
        author_ids: "".to_string(),
        author_names: "".to_string(),
        lyric_text: format!("Lyrics {}", number),
        bg_vocal_text: "".to_string(),
        raw_ttml: format!("<tt>test{}</tt>", number),
    }
}

fn writer() -> TtmlDbWriter {
    TtmlDbWriter::new(PathBuf::from("index.bin"))
}

fn paths_in_order(data: &[u8]) -> Vec<String> {
    let reader = TtmlDbReader::new(data.to_vec());
    let mut entries = reader.iter_entries();
    let mut paths = Vec::new();
    while let Some(entry) = entries.next() {
        paths.push(entry.file_path);
    }
    paths
}

#[test]
fn test_read_entries() {
    let writer = writer();

    let entries = vec![TtmlEntry {
        file_path: "test1.ttml".to_string(),
        title: "Song 1".to_string(),
        artist: "Artist 1".to_string(),
        album: "Album 1".to_string(),
        author_ids: "".to_string(),
        author_names: "".to_string(),
        lyric_text: "Lyrics 1".to_string(),
        bg_vocal_text: "".to_string(),
        raw_ttml: "<tt>test1</tt>".to_string(),
    }];

    let file = writer.append_entries(&entries).unwrap();

    let reader = TtmlDbReader::new(file);
    let paths = reader.get_all_file_paths();
    assert_eq!(paths.len(), 1);
    assert!(paths.contains("test1.ttml"));
}

#[test]
fn test_multiple_entries_in_block() {
    let writer = writer();

    let entries = vec![
        TtmlEntry {
            file_path: "test1.ttml".to_string(),
            title: "Song 1".to_string(),
            artist: "Artist 1".to_string(),
            album: "Album 1".to_string(),
            author_ids: "".to_string(),
            author_names: "".to_string(),
            lyric_text: "Lyrics 1".to_string(),
            bg_vocal_text: "".to_string(),
            raw_ttml: "<tt>test1</tt>".to_string(),
        },
        TtmlEntry {
            file_path: "test2.ttml".to_string(),
            title: "Song 2".to_string(),
            artist: "Artist 2".to_string(),
            album: "Album 2".to_string(),
            author_ids: "".to_string(),
            author_names: "".to_string(),
            lyric_text: "Lyrics 2".to_string(),
            bg_vocal_text: "".to_string(),
            raw_ttml: "<tt>test2</tt>".to_string(),
        },
        TtmlEntry {
            file_path: "test3.ttml".to_string(),
            title: "Song 3".to_string(),
            artist: "Artist 3".to_string(),
            album: "Album 3".to_string(),
            author_ids: "".to_string(),
            author_names: "".to_string(),
            lyric_text: "Lyrics 3".to_string(),
            bg_vocal_text: "".to_string(),
            raw_ttml: "<tt>test3</tt>".to_string(),
        },
    ];

    let file = writer.append_entries(&entries).unwrap();

    let reader = TtmlDbReader::new(file);
    let paths = reader.get_all_file_paths();
    assert_eq!(paths.len(), 3);
    assert!(paths.contains("test1.ttml"));
    assert!(paths.contains("test2.ttml"));
    assert!(paths.contains("test3.ttml"));
}

#[test]
fn test_append_entries() {
    let writer = writer();

    let entries = vec![
        TtmlEntry {
            file_path: "test1.ttml".to_string(),
            title: "Song 1".to_string(),
            artist: "Artist 1".to_string(),
            album: "Album 1".to_string(),
            author_ids: "".to_string(),
            author_names: "".to_string(),
            lyric_text: "Lyrics 1".to_string(),
            bg_vocal_text: "".to_string(),
            raw_ttml: "<tt>test1</tt>".to_string(),
        },
        TtmlEntry {
            file_path: "test2.ttml".to_string(),
            title: "Song 2".to_string(),
            artist: "Artist 2".to_string(),
            album: "Album 2".to_string(),
            author_ids: "".to_string(),
            author_names: "".to_string(),
            lyric_text: "Lyrics 2".to_string(),
            bg_vocal_text: "".to_string(),
            raw_ttml: "<tt>test2</tt>".to_string(),
        },
    ];

    let appended = writer.append_entries(&entries);
    assert!(appended.is_ok());
    assert!(appended.unwrap().len() > 0);
}

#[test]
fn all_fields_come_back() {
    let written = TtmlEntry {
        file_path: "a.ttml".to_string(),
        title: "Title that is longer than seven bytes".to_string(),
        artist: "1234567".to_string(),
        album: "12345678".to_string(),
        author_ids: "id".to_string(),
        author_names: "作者".to_string(),
        lyric_text: "first\nsecond".to_string(),
        bg_vocal_text: "(ooh)".to_string(),
        raw_ttml: "<tt>\u{1f3b5}</tt>".to_string(),
    };
    let file = writer().overwrite_entries(&[written.clone()]).unwrap();
    let reader = TtmlDbReader::new(file);
    let read = reader.iter_entries().next().unwrap();
    assert_eq!(read.file_path, written.file_path);
    assert_eq!(read.title, written.title);
    assert_eq!(read.artist, written.artist);
    assert_eq!(read.album, written.album);
    assert_eq!(read.author_ids, written.author_ids);
    assert_eq!(read.author_names, written.author_names);
    assert_eq!(read.lyric_text, written.lyric_text);
    assert_eq!(read.bg_vocal_text, written.bg_vocal_text);
    assert_eq!(read.raw_ttml, written.raw_ttml);
}

#[test]
fn a_block_has_magic_length_and_payload() {
    let block = writer().append_entries(&[entry(1)]).unwrap();
    assert_eq!(&block[0..4], b"ttml");
    let announced = u32::from_le_bytes([block[4], block[5], block[6], block[7]]);
    assert_eq!(announced as usize, block.len() - 8);
    let (payload, payload_len) = TtmlDbWriter::serialize_payload(&[entry(1)]).unwrap();
    assert_eq!(payload_len as usize, payload.len());
    assert_eq!(&block[8..], &payload[..]);
}

#[test]
fn the_archive_is_laid_out_as_rows_behind_their_texts() {
    let (payload, _) = TtmlDbWriter::serialize_payload(&[entry(1)]).unwrap();
    // The texts longer than seven bytes come first: path, artist, lyrics and document.
    assert_eq!(&payload[0..40], b"test1.ttmlArtist 1Lyrics 1<tt>test1</tt>".as_slice());
    // One row of nine texts, and the root with its offset to the row and the number of rows.
    assert_eq!(payload.len(), 40 + 72 + 8);
    assert_eq!(&payload[112..120], &[0xb8, 0xff, 0xff, 0xff, 1, 0, 0, 0]);
}

#[test]
fn the_rows_start_at_a_multiple_of_four() {
    for (extra, padded) in [("", 40), ("x", 44), ("xx", 44), ("xxx", 44), ("xxxx", 44)] {
        let mut longer = entry(1);
        longer.raw_ttml.push_str(extra);
        // Texts of up to seven bytes stand in the row.
        longer.author_ids = "1234567".to_string();
        let (payload, _) = TtmlDbWriter::serialize_payload(&[longer]).unwrap();
        assert_eq!(payload.len(), padded + 72 + 8);
    }
    let mut longer = entry(1);
    longer.author_ids = "12345678".to_string();
    let (payload, _) = TtmlDbWriter::serialize_payload(&[longer, entry(1)]).unwrap();
    assert_eq!(payload.len(), 88 + 2 * 72 + 8);
}

#[test]
fn no_entries_give_no_bytes() {
    assert_eq!(writer().append_entries(&[]), Ok(Vec::new()));
    assert_eq!(writer().overwrite_entries(&[]), Ok(Vec::new()));
    assert_eq!(TtmlDbWriter::serialize_payload(&[]), Ok((Vec::new(), 0)));
}

#[test]
fn appended_blocks_are_read_in_order() {
    let mut file = writer().append_entries(&[entry(1), entry(2)]).unwrap();
    file.extend(writer().append_entries(&[entry(3)]).unwrap());
    file.extend(writer().append_entries(&[]).unwrap());
    file.extend(writer().append_entries(&[entry(1)]).unwrap());
    let expected = vec!["test1.ttml", "test2.ttml", "test3.ttml", "test1.ttml"];
    assert_eq!(paths_in_order(&file), expected);
    let reader = TtmlDbReader::new(file);
    assert_eq!(reader.get_entry_count(), 4);
    assert_eq!(reader.get_all_file_paths().len(), 3);
}

#[test]
fn an_overwritten_database_holds_the_new_entries_alone() {
    let file = writer().overwrite_entries(&[entry(7), entry(8)]).unwrap();
    assert_eq!(paths_in_order(&file), vec!["test7.ttml", "test8.ttml"]);
}

#[test]
fn a_torn_block_leaves_the_rest_readable() {
    let whole = writer().append_entries(&[entry(1)]).unwrap();
    let block = writer().append_entries(&[entry(2)]).unwrap();
    for written in 0..block.len() {
        let mut file = whole.clone();
        file.extend_from_slice(&block[..written]);
        assert_eq!(paths_in_order(&file), vec!["test1.ttml"]);
    }
    let mut file = whole.clone();
    file.extend_from_slice(&block);
    assert_eq!(paths_in_order(&file), vec!["test1.ttml", "test2.ttml"]);
}

#[test]
fn what_is_put_behind_a_torn_block_is_not_read() {
    let mut file = writer().append_entries(&[entry(1)]).unwrap();
    let block = writer().append_entries(&[entry(2)]).unwrap();
    file.extend_from_slice(&block[..block.len() - 1]);
    file.extend_from_slice(&block);
    assert_eq!(paths_in_order(&file), vec!["test1.ttml"]);
}

#[test]
fn reading_stops_at_a_wrong_magic() {
    let mut file = writer().append_entries(&[entry(1)]).unwrap();
    let start = file.len();
    file.extend(writer().append_entries(&[entry(2)]).unwrap());
    file[start] = b'T';
    assert_eq!(paths_in_order(&file), vec!["test1.ttml"]);
}

#[test]
fn reading_stops_at_a_payload_that_is_no_archive() {
    let mut file = writer().append_entries(&[entry(1)]).unwrap();
    file.extend_from_slice(b"ttml\x04\x00\x00\x00\xff\xff\xff\xff");
    file.extend(writer().append_entries(&[entry(2)]).unwrap());
    assert_eq!(paths_in_order(&file), vec!["test1.ttml"]);
}

#[test]
fn an_exhausted_iterator_stays_exhausted() {
    let reader = TtmlDbReader::new(writer().append_entries(&[entry(1)]).unwrap());
    let mut entries = reader.iter_entries();
    assert!(entries.next().is_some());
    assert!(entries.next().is_none());
    assert!(entries.next().is_none());
}

#[test]
fn behind_the_header_of_a_cut_off_block_reading_can_go_on() {
    let mut file = writer().append_entries(&[entry(1)]).unwrap();
    file.extend_from_slice(b"ttml\xff\xff\xff\x7f");
    file.extend(writer().append_entries(&[entry(2)]).unwrap());
    assert_eq!(paths_in_order(&file), vec!["test1.ttml"]);
    let reader = TtmlDbReader::new(file);
    assert_eq!(reader.get_entry_count(), 1);
    let mut entries = reader.iter_entries();
    assert_eq!(entries.next().unwrap().file_path, "test1.ttml");
    assert!(entries.next().is_none());
    assert_eq!(entries.next().unwrap().file_path, "test2.ttml");
    assert!(entries.next().is_none());
    assert!(entries.next().is_none());
}

#[test]
fn two_appends_read_as_one() {
    let mut in_turn = writer().append_entries(&[entry(1), entry(2)]).unwrap();
    in_turn.extend(writer().append_entries(&[entry(3)]).unwrap());
    let at_once = writer().append_entries(&[entry(1), entry(2), entry(3)]).unwrap();
    assert_eq!(paths_in_order(&in_turn), paths_in_order(&at_once));
}

#[test]
fn an_empty_file_is_an_empty_database() {
    let reader = TtmlDbReader::new(Vec::new());
    assert_eq!(reader.get_entry_count(), 0);
    assert!(reader.get_all_file_paths().is_empty());
    assert!(reader.get_lyric_detail("test1.ttml").is_none());
}

#[test]
fn the_first_entry_with_a_path_counts() {
    let mut file = writer().append_entries(&[entry(1), entry(2)]).unwrap();
    let mut other = entry(1);
    other.raw_ttml = "<tt>other</tt>".to_string();
    file.extend(writer().append_entries(&[other]).unwrap());
    let reader = TtmlDbReader::new(file);
    assert_eq!(reader.get_lyric_detail("test1.ttml").as_deref(), Some("<tt>test1</tt>"));
    assert_eq!(reader.get_lyric_detail("test2.ttml").as_deref(), Some("<tt>test2</tt>"));
    assert_eq!(reader.get_lyric_detail("test3.ttml"), None);
}

#[test]
fn a_writer_keeps_its_path() {
    let writer = TtmlDbWriter::new(PathBuf::from("data/index.bin"));
    assert_eq!(writer.file_path, PathBuf::from("data/index.bin"));
    assert_eq!(writer.clone().file_path, writer.file_path);
}

#[test]
fn the_temporary_file_is_hidden() {
    assert_eq!(temp_file_name("index.bin"), ".index.bin.tmp");
    assert_eq!(temp_file_name(""), "..tmp");
}
