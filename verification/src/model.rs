//! The types of the library.

use vstd::prelude::*;

use crate::text::{join, joined, views};

verus! {

/// One song of the lyric database.
#[derive(Debug, Clone)]
pub struct TtmlEntry {
    pub file_path: String,
    pub title: String,
    pub artist: String,
    pub album: String,
    pub author_ids: String,
    pub author_names: String,
    pub lyric_text: String,
    pub bg_vocal_text: String,
    pub raw_ttml: String,
}

/// A song as the sequences of characters that its fields hold.
pub struct EntryView {
    pub file_path: Seq<char>,
    pub title: Seq<char>,
    pub artist: Seq<char>,
    pub album: Seq<char>,
    pub author_ids: Seq<char>,
    pub author_names: Seq<char>,
    pub lyric_text: Seq<char>,
    pub bg_vocal_text: Seq<char>,
    pub raw_ttml: Seq<char>,
}

impl View for TtmlEntry {
    type V = EntryView;

    open spec fn view(&self) -> EntryView {
        EntryView {
            file_path: self.file_path@,
            title: self.title@,
            artist: self.artist@,
            album: self.album@,
            author_ids: self.author_ids@,
            author_names: self.author_names@,
            lyric_text: self.lyric_text@,
            bg_vocal_text: self.bg_vocal_text@,
            raw_ttml: self.raw_ttml@,
        }
    }
}

/// What a TTML document says of its song, as far as an entry needs it.
#[derive(Debug, Clone)]
pub struct ParsedTtml {
    pub title: Option<Vec<String>>,
    pub artist: Option<Vec<String>>,
    pub album: Option<Vec<String>>,
    pub author_ids: Option<Vec<String>>,
    pub author_names: Option<Vec<String>>,
    pub lines: Vec<ParsedLine>,
}

/// A line of the lyrics, and what the background vocal sings to it.
#[derive(Debug, Clone)]
pub struct ParsedLine {
    pub text: String,
    pub background: Option<String>,
}

/// A parsed document as sequences of characters.
pub struct ParsedTtmlView {
    pub title: Option<Seq<Seq<char>>>,
    pub artist: Option<Seq<Seq<char>>>,
    pub album: Option<Seq<Seq<char>>>,
    pub author_ids: Option<Seq<Seq<char>>>,
    pub author_names: Option<Seq<Seq<char>>>,
    pub lines: Seq<LineView>,
}

/// A parsed line as sequences of characters.
pub struct LineView {
    pub text: Seq<char>,
    pub background: Option<Seq<char>>,
}

/// The views of the values, where there are any.
pub open spec fn optional_views(values: Option<Vec<String>>) -> Option<Seq<Seq<char>>> {
    match values {
        Some(values) => Some(views(values@)),
        None => None,
    }
}

/// The view of the text, where there is one.
pub open spec fn optional_view(text: Option<String>) -> Option<Seq<char>> {
    match text {
        Some(text) => Some(text@),
        None => None,
    }
}

impl View for ParsedLine {
    type V = LineView;

    open spec fn view(&self) -> LineView {
        LineView { text: self.text@, background: optional_view(self.background) }
    }
}

impl View for ParsedTtml {
    type V = ParsedTtmlView;

    open spec fn view(&self) -> ParsedTtmlView {
        ParsedTtmlView {
            title: optional_views(self.title),
            artist: optional_views(self.artist),
            album: optional_views(self.album),
            author_ids: optional_views(self.author_ids),
            author_names: optional_views(self.author_names),
            lines: self.lines@.map_values(|line: ParsedLine| line@),
        }
    }
}

/// The values of a piece of metadata in one text, separated by a comma and a space.
pub open spec fn flattened(values: Option<Seq<Seq<char>>>) -> Seq<char> {
    match values {
        Some(values) => joined(values, ", "@),
        None => Seq::empty(),
    }
}

/// The texts of the lines.
pub open spec fn line_texts(lines: Seq<LineView>) -> Seq<Seq<char>> {
    lines.map_values(|line: LineView| line.text)
}

/// The texts of the background vocals, of the lines that have one.
pub open spec fn background_texts(lines: Seq<LineView>) -> Seq<Seq<char>>
    decreases lines.len(),
{
    if lines.len() == 0 {
        Seq::empty()
    } else {
        let before = background_texts(lines.drop_last());
        match lines.last().background {
            Some(text) => before.push(text),
            None => before,
        }
    }
}

/// The entry for a document.
pub open spec fn entry_of_document(
    file_path: Seq<char>,
    raw_ttml: Seq<char>,
    result: ParsedTtmlView,
) -> EntryView {
    EntryView {
        file_path,
        title: flattened(result.title),
        artist: flattened(result.artist),
        album: flattened(result.album),
        author_ids: flattened(result.author_ids),
        author_names: flattened(result.author_names),
        lyric_text: joined(line_texts(result.lines), "\n"@),
        bg_vocal_text: joined(background_texts(result.lines), "\n"@),
        raw_ttml,
    }
}

fn flatten(values: &Option<Vec<String>>) -> (text: String)
    ensures
        text@ == flattened(optional_views(*values)),
{
    match values {
        Some(values) => join(values, ", "),
        None => String::new(),
    }
}

impl TtmlEntry {
    /// Makes an entry of a parsed document, its text and the path of its file.
    pub fn from_result(file_path: String, raw_ttml: String, result: ParsedTtml) -> (entry: Self)
        ensures
            entry@ == entry_of_document(file_path@, raw_ttml@, result@),
    {
        let mut texts: Vec<String> = Vec::new();
        let mut backgrounds: Vec<String> = Vec::new();
        let ghost all = result@.lines;
        let mut i: usize = 0;
        assert(views(texts@) =~= line_texts(all.take(0)));
        assert(views(backgrounds@) =~= background_texts(all.take(0)));
        while i < result.lines.len()
            invariant
                i <= result.lines@.len(),
                all == result@.lines,
                views(texts@) == line_texts(all.take(i as int)),
                views(backgrounds@) == background_texts(all.take(i as int)),
            decreases result.lines@.len() - i,
        {
            let line = &result.lines[i];
            let ghost texts_before = texts@;
            let ghost backgrounds_before = backgrounds@;
            texts.push(line.text.clone());
            if let Some(text) = &line.background {
                backgrounds.push(text.clone());
                assert(views(backgrounds@) =~= views(backgrounds_before).push(text@));
            }
            proof {
                assert(views(texts@) =~= views(texts_before).push(line.text@));
                assert(all[i as int] == line@);
                assert(all.take(i + 1).drop_last() =~= all.take(i as int));
                assert(line_texts(all.take(i + 1)) =~= line_texts(all.take(i as int)).push(
                    line.text@,
                ));
            }
            i = i + 1;
        }
        assert(all.take(i as int) =~= all);
        TtmlEntry {
            file_path,
            title: flatten(&result.title),
            artist: flatten(&result.artist),
            album: flatten(&result.album),
            author_ids: flatten(&result.author_ids),
            author_names: flatten(&result.author_names),
            lyric_text: join(&texts, "\n"),
            bg_vocal_text: join(&backgrounds, "\n"),
            raw_ttml,
        }
    }
}

/// A hit of a search.
#[derive(Debug, Clone)]
pub struct LyricSearchResult {
    pub file_path: String,
    pub title: String,
    pub artist: String,
    pub album: String,
    pub matched_line_preview: Vec<String>,
}

/// A hit as sequences of characters.
pub struct HitView {
    pub file_path: Seq<char>,
    pub title: Seq<char>,
    pub artist: Seq<char>,
    pub album: Seq<char>,
    pub matched_line_preview: Seq<Seq<char>>,
}

impl View for LyricSearchResult {
    type V = HitView;

    open spec fn view(&self) -> HitView {
        HitView {
            file_path: self.file_path@,
            title: self.title@,
            artist: self.artist@,
            album: self.album@,
            matched_line_preview: views(self.matched_line_preview@),
        }
    }
}

/// How a synchronisation ended.
#[derive(Debug, Clone, Copy, PartialEq, Eq, Structural)]
pub enum SyncStatus {
    /// Skipped, as the local and the remote version are the same.
    Skipped,
    /// New entries were stored.
    Updated,
    /// There was no data to store: the remote side held none, or named no new file.
    Empty,
    /// An error occurred.
    Failed,
}

/// The outcome of a synchronisation.
#[derive(Debug, Clone)]
pub struct SyncResult {
    pub status: SyncStatus,
    pub count: Option<usize>,
    pub error: Option<String>,
    pub strategy: Option<String>,
}

/// A field to search in, and what to search for.
#[derive(Debug, Clone)]
pub struct SearchFilter {
    /// One of `title`, `artist`, `album`, `lyric_text` and `bg_vocal_text`.
    pub field: String,
    pub keyword: String,
}

/// A filter as sequences of characters.
pub struct FilterView {
    pub field: Seq<char>,
    pub keyword: Seq<char>,
}

impl View for SearchFilter {
    type V = FilterView;

    open spec fn view(&self) -> FilterView {
        FilterView { field: self.field@, keyword: self.keyword@ }
    }
}

/// The state of the remote collection.
#[derive(Debug, Clone)]
pub struct RemoteVersion {
    pub build_date: String,
    pub commit: String,
    pub file_count: usize,
    pub timestamp: u64,
}

/// A line of the remote index.
#[derive(Debug, Clone)]
pub struct IndexEntry {
    pub raw_lyric_file: String,
}

} // verus!
