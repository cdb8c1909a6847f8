//! Parsing TTML documents into entries.

use vstd::prelude::*;

use crate::limits::within_limits;
use crate::model::{
    entry_of_document, EntryView, ParsedLine, ParsedTtml, ParsedTtmlView, TtmlEntry,
};

verus! {

/// What `ttml_processor::parse_ttml` makes of a document, or nothing where it reports an error.
pub uninterp spec fn parsed_ttml(content: Seq<char>) -> Option<ParsedTtmlView>;

/// Calls `ttml_processor::parse_ttml` and takes from its result what an entry needs. The result
/// depends on the document alone. The parser counts milliseconds and elements in integers of 32
/// bits and panics where one of them overflows, so such documents are left out.
#[verifier::external_body]
fn parse_document(content: &str) -> (res: Option<ParsedTtml>)
    requires
        within_limits(content@),
    ensures
        match res {
            Some(parsed) => parsed_ttml(content@) == Some(parsed@),
            None => parsed_ttml(content@) is None,
        },
{
    let result = ttml_processor::parse_ttml(content).ok()?;
    let meta = result.metadata;
    let convert = |line: ttml_processor::model::LyricLine| ParsedLine {
        text: line.text,
        background: line.background_vocal.map(|vocal| vocal.text),
    };
    Some(ParsedTtml {
        title: meta.title,
        artist: meta.artist,
        album: meta.album,
        author_ids: meta.author_ids,
        author_names: meta.author_names,
        lines: result.lines.into_iter().map(convert).collect(),
    })
}

/// The entry for the file at the path with the given content, if it can be parsed.
pub open spec fn file_entry(file_path: Seq<char>, content: Seq<char>) -> Option<EntryView> {
    match parsed_ttml(content) {
        Some(parsed) => Some(entry_of_document(file_path, content, parsed)),
        None => None,
    }
}

/// Parses the content of a file. Gives nothing where it is no valid TTML document.
pub fn parse_entry(file_path: String, content: String) -> (res: Option<TtmlEntry>)
    requires
        within_limits(content@),
    ensures
        match res {
            Some(entry) => file_entry(file_path@, content@) == Some(entry@),
            None => file_entry(file_path@, content@) is None,
        },
{
    match parse_document(content.as_str()) {
        Some(parsed) => Some(TtmlEntry::from_result(file_path, content, parsed)),
        None => None,
    }
}

} // verus!
