//! Entries and the documents they are made of.

use vstd::prelude::*;

use crate::laws::text::law_lines_of_joined;
use crate::laws::{in_order, lemma_one_more_place};
use crate::model::{
    background_texts, entry_of_document, line_texts, LineView, LyricSearchResult, ParsedTtml,
    ParsedTtmlView, SearchFilter, TtmlEntry,
};
use crate::text::{joined, text_lines};
use crate::ttml::{file_entry, parsed_ttml};

verus! {

/// The view of an entry holds each of its nine texts under the name of its field.
pub proof fn law_entry_view(entry: TtmlEntry)
    ensures
        entry@.file_path == entry.file_path@,
        entry@.title == entry.title@,
        entry@.artist == entry.artist@,
        entry@.album == entry.album@,
        entry@.author_ids == entry.author_ids@,
        entry@.author_names == entry.author_names@,
        entry@.lyric_text == entry.lyric_text@,
        entry@.bg_vocal_text == entry.bg_vocal_text@,
        entry@.raw_ttml == entry.raw_ttml@,
{
}

/// The view of a hit holds each of its texts, and every line that it shows in its place.
pub proof fn law_hit_view(hit: LyricSearchResult)
    ensures
        hit@.file_path == hit.file_path@,
        hit@.title == hit.title@,
        hit@.artist == hit.artist@,
        hit@.album == hit.album@,
        hit@.matched_line_preview.len() == hit.matched_line_preview@.len(),
        forall|k: int|
            0 <= k < hit.matched_line_preview@.len() ==> #[trigger] hit@.matched_line_preview[k]
                == hit.matched_line_preview@[k]@,
{
}

/// The view of a filter holds its field and its keyword.
pub proof fn law_filter_view(filter: SearchFilter)
    ensures
        filter@.field == filter.field@,
        filter@.keyword == filter.keyword@,
{
}

/// The values are those of the list, where there is one.
pub open spec fn same_values(list: Option<Vec<String>>, values: Option<Seq<Seq<char>>>) -> bool {
    match (list, values) {
        (Some(list), Some(values)) => list@.len() == values.len() && forall|i: int|
            0 <= i < values.len() ==> #[trigger] values[i] == list@[i]@,
        (None, None) => true,
        _ => false,
    }
}

/// The view of a parsed document holds the values of its metadata, each under its name, and every
/// line in its place, with its text and its background vocal.
pub proof fn law_parsed_view(parsed: ParsedTtml)
    ensures
        same_values(parsed.title, parsed@.title),
        same_values(parsed.artist, parsed@.artist),
        same_values(parsed.album, parsed@.album),
        same_values(parsed.author_ids, parsed@.author_ids),
        same_values(parsed.author_names, parsed@.author_names),
        parsed@.lines.len() == parsed.lines@.len(),
        forall|i: int|
            0 <= i < parsed.lines@.len() ==> (#[trigger] parsed@.lines[i]).text
                == parsed.lines@[i].text@ && match parsed.lines@[i].background {
                Some(background) => parsed@.lines[i].background == Some(background@),
                None => parsed@.lines[i].background is None,
            },
{
}

/// The texts of the background vocals are those of the lines that have one, in their order.
pub proof fn law_background_texts(lines: Seq<LineView>) -> (places: Seq<int>)
    ensures
        in_order(places, lines.len()),
        background_texts(lines).len() == places.len(),
        forall|k: int|
            0 <= k < places.len() ==> lines[places[k]].background == Some(
                #[trigger] background_texts(lines)[k],
            ),
        forall|i: int|
            0 <= i < lines.len() && (#[trigger] lines[i]).background is Some ==> places.contains(i),
    decreases lines.len(),
{
    if lines.len() == 0 {
        Seq::empty()
    } else {
        let shorter = lines.drop_last();
        let before = law_background_texts(shorter);
        lemma_one_more_place(before, shorter.len());
        let places = if lines.last().background is Some {
            before.push(shorter.len() as int)
        } else {
            before
        };
        assert forall|i: int|
            0 <= i < lines.len() && (#[trigger] lines[i]).background
                is Some implies places.contains(i) by {
            if i < shorter.len() {
                assert(shorter[i] == lines[i]);
                assert(before.contains(i));
            }
            assert(before.push(shorter.len() as int).contains(i));
        }
        assert forall|k: int| 0 <= k < places.len() implies lines[places[k]].background == Some(
            #[trigger] background_texts(lines)[k],
        ) by {
            if k < before.len() {
                assert(shorter[before[k]] == lines[before[k]]);
                assert(background_texts(shorter)[k] == background_texts(lines)[k]);
            }
        }
        places
    }
}

/// The entry of a document has the path and the text of the document as they are. Each piece of
/// metadata is its values, joined by a comma and a space, or nothing without values. The lyrics are
/// the texts of all lines, and the background vocals those of all lines that have one, joined by
/// line feeds.
pub proof fn law_entry_of_document(
    file_path: Seq<char>,
    raw_ttml: Seq<char>,
    result: ParsedTtmlView,
    texts: Seq<Seq<char>>,
)
    requires
        texts.len() == result.lines.len(),
        forall|i: int| 0 <= i < texts.len() ==> #[trigger] texts[i] == result.lines[i].text,
    ensures
        ({
            let entry = entry_of_document(file_path, raw_ttml, result);
            &&& entry.file_path == file_path
            &&& entry.raw_ttml == raw_ttml
            &&& entry.title == (match result.title {
                Some(values) => joined(values, ", "@),
                None => Seq::empty(),
            })
            &&& entry.artist == (match result.artist {
                Some(values) => joined(values, ", "@),
                None => Seq::empty(),
            })
            &&& entry.album == (match result.album {
                Some(values) => joined(values, ", "@),
                None => Seq::empty(),
            })
            &&& entry.author_ids == (match result.author_ids {
                Some(values) => joined(values, ", "@),
                None => Seq::empty(),
            })
            &&& entry.author_names == (match result.author_names {
                Some(values) => joined(values, ", "@),
                None => Seq::empty(),
            })
            &&& entry.lyric_text == joined(texts, "\n"@)
            &&& entry.bg_vocal_text == joined(background_texts(result.lines), "\n"@)
        }),
{
    assert(line_texts(result.lines) =~= texts);
}

/// Where the text of every line of a document is a line and not empty, the lines of the lyrics are
/// as many as those of the document, each with the text of the line in its place.
pub proof fn law_every_line_is_kept(
    file_path: Seq<char>,
    raw_ttml: Seq<char>,
    result: ParsedTtmlView,
)
    requires
        forall|i: int| 0 <= i < result.lines.len() ==> (#[trigger] result.lines[i]).text.len() > 0,
        forall|i: int, k: int|
            0 <= i < result.lines.len() && 0 <= k < result.lines[i].text.len()
                ==> #[trigger] result.lines[i].text[k] != '\n' && result.lines[i].text[k] != '\r',
    ensures
        ({
            let lines = text_lines(entry_of_document(file_path, raw_ttml, result).lyric_text);
            &&& lines.len() == result.lines.len()
            &&& forall|i: int| 0 <= i < lines.len() ==> #[trigger] lines[i] == result.lines[i].text
        }),
{
    let texts = Seq::new(result.lines.len(), |i: int| result.lines[i].text);
    law_entry_of_document(file_path, raw_ttml, result, texts);
    assert forall|i: int, k: int| 0 <= i < texts.len() && 0 <= k < texts[i].len() implies
        #[trigger] texts[i][k] != '\n' && texts[i][k] != '\r' by {
        assert(result.lines[i].text[k] != '\n');
    }
    if texts.len() > 0 {
        assert(result.lines[texts.len() - 1].text.len() > 0);
    }
    law_lines_of_joined(texts);
}

/// A file gives an entry exactly where its content can be parsed. The entry is that of the parsed
/// document, with the name of the file and its content.
pub proof fn law_file_entry(file_path: Seq<char>, content: Seq<char>)
    ensures
        match file_entry(file_path, content) {
            Some(entry) => parsed_ttml(content) is Some && entry == entry_of_document(
                file_path,
                content,
                parsed_ttml(content)->0,
            ) && entry.file_path == file_path && entry.raw_ttml == content,
            None => parsed_ttml(content) is None,
        },
{
}

} // verus!
