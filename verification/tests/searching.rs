use std::path::PathBuf;

use ttml_db::{
    contains_ignore_ascii_case, extract_matched_lines, join, lines, match_entry, SearchFilter,
    TtmlDbReader, TtmlDbWriter, TtmlEntry,
};

fn entry(path: &str, title: &str, lyrics: &str) -> TtmlEntry {
    TtmlEntry {
        file_path: path.to_string(),
        title: title.to_string(),
        artist: "Some Artist".to_string(),
        album: "Some Album".to_string(),
        author_ids: "".to_string(),
        author_names: "".to_string(),
        lyric_text: lyrics.to_string(),
        bg_vocal_text: "(ooh)\n(aah)".to_string(),
        raw_ttml: "<tt/>".to_string(),
    }
}

fn filter(field: &str, keyword: &str) -> SearchFilter {
    SearchFilter { field: field.to_string(), keyword: keyword.to_string() }
}

fn database() -> TtmlDbReader {
    let writer = TtmlDbWriter::new(PathBuf::from("index.bin"));
    let entries = [
        entry("1.ttml", "Hello World", "one\ntwo\nthree\nfour\nfive"),
        entry("2.ttml", "Goodbye", "alpha\nTHREE times\nomega"),
        entry("3.ttml", "Été", "nothing here"),
    ];
    TtmlDbReader::new(writer.overwrite_entries(&entries).unwrap())
}

fn strings(values: &[&str]) -> Vec<String> {
    values.iter().map(|v| v.to_string()).collect()
}

#[test]
fn matching_ignores_the_case_of_ascii_letters() {
    assert!(contains_ignore_ascii_case("Hello World", "LO wO"));
    assert!(contains_ignore_ascii_case("Hello World", "hello world"));
    assert!(!contains_ignore_ascii_case("Hello World", "hello world!"));
    assert!(!contains_ignore_ascii_case("Hello World", "low"));
    assert!(!contains_ignore_ascii_case("[", "{"));
    assert!(!contains_ignore_ascii_case("@", "`"));
}

#[test]
fn matching_keeps_the_case_of_other_letters() {
    assert!(contains_ignore_ascii_case("Été", "ÉTé"));
    assert!(!contains_ignore_ascii_case("Été", "été"));
    assert!(contains_ignore_ascii_case("愛してる Baby", "してる BABY"));
}

#[test]
fn the_empty_needle_is_everywhere() {
    assert!(contains_ignore_ascii_case("", ""));
    assert!(contains_ignore_ascii_case("text", ""));
    assert!(!contains_ignore_ascii_case("", "text"));
}

#[test]
fn lines_end_at_line_feeds() {
    assert_eq!(lines("a\nb\r\nc"), strings(&["a", "b", "c"]));
    assert_eq!(lines("a\n\nb\n"), strings(&["a", "", "b"]));
    assert_eq!(lines("a\r\r\nb\r"), strings(&["a\r", "b\r"]));
    assert_eq!(lines("\n"), strings(&[""]));
    assert!(lines("").is_empty());
}

#[test]
fn lines_agree_with_those_of_strings() {
    for text in ["", "\n", "\r", "\r\n", "a", "a\n", "\na", "a\r\nb\n\r\nc\r", "é\n\u{2028}\n"] {
        let expected: Vec<String> = text.lines().map(|l| l.to_string()).collect();
        assert_eq!(lines(text), expected);
    }
}

#[test]
fn joined_lines_are_found_again() {
    let parts = strings(&["one", "", "two"]);
    assert_eq!(join(&parts, "\n"), "one\n\ntwo");
    assert_eq!(lines(&join(&parts, "\n")), parts);
    assert_eq!(join(&strings(&["a", "b", "c"]), ", "), "a, b, c");
    assert_eq!(join(&Vec::new(), ", "), "");
    assert_eq!(join(&strings(&["a"]), ", "), "a");
}

#[test]
fn matched_lines_come_with_their_context() {
    let text = "one\ntwo\nthree\nfour\nfive";
    assert_eq!(extract_matched_lines(text, "THREE", 1), strings(&["two", "three", "four"]));
    assert_eq!(extract_matched_lines(text, "three", 0), strings(&["three"]));
    assert_eq!(extract_matched_lines(text, "one", 1), strings(&["one", "two"]));
    assert_eq!(extract_matched_lines(text, "five", 1), strings(&["four", "five"]));
    assert_eq!(extract_matched_lines(text, "three", usize::MAX), lines(text));
}

#[test]
fn overlapping_contexts_show_a_line_once() {
    let text = "x\na\nx\nb\nc\nd\nx";
    assert_eq!(extract_matched_lines(text, "x", 1), strings(&["x", "a", "x", "b", "d", "x"]));
    assert_eq!(extract_matched_lines("x\nx\nx", "x", 1), strings(&["x", "x", "x"]));
}

#[test]
fn the_empty_keyword_shows_no_lines() {
    assert!(extract_matched_lines("one\ntwo", "", 1).is_empty());
    assert!(extract_matched_lines("one\ntwo", "zero", 1).is_empty());
}

#[test]
fn a_search_finds_titles() {
    let results = database().search(&[filter("title", "hello")]);
    assert_eq!(results.len(), 1);
    assert_eq!(results[0].file_path, "1.ttml");
    assert_eq!(results[0].title, "Hello World");
    assert_eq!(results[0].artist, "Some Artist");
    assert_eq!(results[0].album, "Some Album");
    assert!(results[0].matched_line_preview.is_empty());
}

#[test]
fn a_search_in_lyrics_shows_lines() {
    let results = database().search(&[filter("lyric_text", "Three")]);
    assert_eq!(results.len(), 2);
    assert_eq!(results[0].file_path, "1.ttml");
    assert_eq!(results[0].matched_line_preview, strings(&["two", "three", "four"]));
    assert_eq!(results[1].file_path, "2.ttml");
    assert_eq!(
        results[1].matched_line_preview,
        strings(&["alpha", "THREE times", "omega"])
    );
}

#[test]
fn a_search_covers_all_fields() {
    let reader = database();
    assert_eq!(reader.search(&[filter("artist", "some artist")]).len(), 3);
    assert_eq!(reader.search(&[filter("album", "ALBUM")]).len(), 3);
    let results = reader.search(&[filter("bg_vocal_text", "AAH")]);
    assert_eq!(results.len(), 3);
    assert_eq!(results[0].matched_line_preview, strings(&["(ooh)", "(aah)"]));
}

#[test]
fn the_first_matching_filter_decides() {
    let filters = [filter("title", "goodbye"), filter("lyric_text", "three")];
    let results = database().search(&filters);
    assert_eq!(results.len(), 2);
    assert_eq!(results[0].matched_line_preview, strings(&["two", "three", "four"]));
    assert!(results[1].matched_line_preview.is_empty());
}

#[test]
fn unknown_fields_and_no_filters_find_nothing() {
    let reader = database();
    assert!(reader.search(&[]).is_empty());
    assert!(reader.search(&[filter("raw_ttml", "tt")]).is_empty());
    assert!(reader.search(&[filter("Title", "hello")]).is_empty());
    let results = reader.search(&[filter("raw_ttml", "tt"), filter("title", "hello")]);
    assert_eq!(results.len(), 1);
}

#[test]
fn the_empty_keyword_finds_everything_and_shows_nothing() {
    let results = database().search(&[filter("lyric_text", "")]);
    assert_eq!(results.len(), 3);
    assert!(results.iter().all(|r| r.matched_line_preview.is_empty()));
}

#[test]
fn lines_are_looked_up_in_lower_case() {
    // The keyword is found as it stands, but its lower case form is in no line.
    let writer = TtmlDbWriter::new(PathBuf::from("index.bin"));
    let file = writer.overwrite_entries(&[entry("1.ttml", "t", "avant\nÉté\naprès")]).unwrap();
    let results = TtmlDbReader::new(file).search(&[filter("lyric_text", "Été")]);
    assert_eq!(results.len(), 1);
    assert!(results[0].matched_line_preview.is_empty());
}

#[test]
fn a_search_with_given_lower_case_keywords() {
    let reader = database();
    let filters = [filter("lyric_text", "three")];
    let results = reader.search_lowered(&filters, &strings(&["omega"]));
    assert_eq!(results.len(), 2);
    assert!(results[0].matched_line_preview.is_empty());
    assert_eq!(results[1].matched_line_preview, strings(&["THREE times", "omega"]));
}

#[test]
fn an_entry_that_no_filter_matches_is_no_hit() {
    let filters = [filter("title", "absent")];
    let lowered = strings(&["absent"]);
    assert!(match_entry(entry("1.ttml", "Title", ""), &filters, &lowered).is_none());
}
