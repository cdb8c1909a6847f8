use ttml_db::{fits_parser, parse_entry, ParsedLine, ParsedTtml, TtmlEntry};

const DOCUMENT: &str = r#"<tt xmlns="http://www.w3.org/ns/ttml" xmlns:ttm="http://www.w3.org/ns/ttml#metadata" xmlns:amll="http://www.example.com/ns/amll" xmlns:itunes="http://music.apple.com/lyric-ttml-internal" itunes:timing="Line"><head><metadata><ttm:agent type="person" xml:id="v1"/><amll:meta key="musicName" value="First Title"/><amll:meta key="musicName" value="Second Title"/><amll:meta key="artists" value="An Artist"/><amll:meta key="album" value="An Album"/><amll:meta key="ttmlAuthorGithub" value="12345"/><amll:meta key="ttmlAuthorGithubLogin" value="someone"/></metadata></head><body dur="00:10.000"><div begin="00:01.000" end="00:04.000"><p begin="00:01.000" end="00:02.000" ttm:agent="v1" itunes:key="L1">Hello there</p><p begin="00:03.000" end="00:04.000" ttm:agent="v1" itunes:key="L2">Goodbye</p></div></body></tt>"#;

fn some(values: &[&str]) -> Option<Vec<String>> {
    Some(values.iter().map(|v| v.to_string()).collect())
}

fn line(text: &str, background: Option<&str>) -> ParsedLine {
    ParsedLine { text: text.to_string(), background: background.map(|b| b.to_string()) }
}

#[test]
fn a_document_becomes_an_entry() {
    assert!(fits_parser(DOCUMENT));
    let entry = parse_entry("1.ttml".to_string(), DOCUMENT.to_string()).unwrap();
    assert_eq!(entry.file_path, "1.ttml");
    assert_eq!(entry.title, "First Title, Second Title");
    assert_eq!(entry.artist, "An Artist");
    assert_eq!(entry.album, "An Album");
    assert_eq!(entry.author_ids, "12345");
    assert_eq!(entry.author_names, "someone");
    assert_eq!(entry.lyric_text, "Hello there\nGoodbye");
    assert_eq!(entry.bg_vocal_text, "");
    assert_eq!(entry.raw_ttml, DOCUMENT);
}

#[test]
fn a_broken_document_gives_no_entry() {
    let content = DOCUMENT.replace("00:03.000", "soon");
    assert!(fits_parser(&content));
    assert!(parse_entry("1.ttml".to_string(), content).is_none());
    assert!(parse_entry("1.ttml".to_string(), "<tt><p></tt>".to_string()).is_none());
}

#[test]
fn metadata_is_joined_by_commas_and_lines_by_line_feeds() {
    let result = ParsedTtml {
        title: some(&["A", "B"]),
        artist: some(&["C"]),
        album: None,
        author_ids: some(&[]),
        author_names: some(&["D", "E", "F"]),
        lines: vec![line("one", Some("(ooh)")), line("two", None), line("three", Some("(aah)"))],
    };
    let entry = TtmlEntry::from_result("p.ttml".to_string(), "<tt/>".to_string(), result);
    assert_eq!(entry.file_path, "p.ttml");
    assert_eq!(entry.title, "A, B");
    assert_eq!(entry.artist, "C");
    assert_eq!(entry.album, "");
    assert_eq!(entry.author_ids, "");
    assert_eq!(entry.author_names, "D, E, F");
    assert_eq!(entry.lyric_text, "one\ntwo\nthree");
    assert_eq!(entry.bg_vocal_text, "(ooh)\n(aah)");
    assert_eq!(entry.raw_ttml, "<tt/>");
}

#[test]
fn times_have_to_fit() {
    assert!(fits_parser(r#"<p begin="00:01.5" end="1:00:00.250">"#));
    assert!(fits_parser(r#"<p begin="1193:02:47.295">"#));
    assert!(!fits_parser(r#"<p begin="1193:02:47.296">"#));
    assert!(!fits_parser(r#"<p begin="1193:02:47.3">"#));
    assert!(fits_parser(r#"<p begin="4294967">"#));
    assert!(!fits_parser(r#"<p begin="4294968">"#));
    assert!(!fits_parser(r#"<span end = '99999999999'>"#));
    assert!(!fits_parser(r#"<p begin="1194:00:00">"#));
    assert!(!fits_parser("<p a='b'begin=\n\t\"71583:00\">"));
    assert!(!fits_parser(r#"<p x"="y" begin="99999999999" z">"#));
    assert!(!fits_parser(r#"<tt><p begin="1"/><p end="4294968"/></tt>"#));
}

#[test]
fn references_are_resolved() {
    assert!(fits_parser(r#"<p begin="&#49;&#x3a;&#48;&#46;5">"#));
    assert!(fits_parser(r#"<p begin="429496&#55;">"#));
    assert!(!fits_parser(r#"<p begin="429496&#56;">"#));
    assert!(!fits_parser(r#"<p begin="429496&#x0038;">"#));
    assert!(!fits_parser(r#"<p begin="99999999999&amp;">"#));
    assert!(fits_parser(r#"<p begin="99999999999&other;">"#));
    assert!(fits_parser(r#"<p begin="99999999999&amp">"#));
    assert!(fits_parser(r#"<p begin="99999999999&#0;">"#));
    assert!(fits_parser(r#"<p begin="&amp;99999999999">"#));
    assert!(!fits_parser(r#"<span begin="99999999999&other;">"#));
    assert!(fits_parser(r#"<span begin="&#49;">"#));
}

#[test]
fn what_is_no_time_need_not_fit() {
    assert!(fits_parser(r#"<p begin="soon">the end="99999999999"</p>"#));
    assert!(fits_parser(r#"<p legend="99999999999" x:end="99999999999">"#));
    assert!(fits_parser(r#"<p title=' end="99999999999"'>"#));
    assert!(fits_parser(r#"<div begin="99999999999">"#));
    assert!(fits_parser(r#"<p begin="99999999999"#));
    assert!(fits_parser(r#"<p begin="1:2:3:99999999999">"#));
    assert!(fits_parser(r#"<p begin="1.99999999999">"#));
    assert!(fits_parser(r#"<p begin=99999999999>"#));
    assert!(fits_parser("<p begin>"));
    assert!(fits_parser("<p"));
    assert!(fits_parser("<"));
    assert!(fits_parser(""));
}

#[test]
fn the_largest_times_are_parsed() {
    let content = DOCUMENT
        .replace("begin=\"00:03.000\" end=\"00:04.000\"", "begin=\"&#51;\" end=\"4294967.295\"");
    assert!(fits_parser(&content));
    assert!(parse_entry("1.ttml".to_string(), content).is_some());
    let content = DOCUMENT.replace("00:04.000", "4294967.296");
    assert!(!fits_parser(&content));
}
