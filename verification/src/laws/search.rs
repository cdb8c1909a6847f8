//! Reading and searching a database.

use vstd::prelude::*;

use crate::block::stored_entries;
use crate::laws::{in_order, lemma_one_more_place};
use crate::matching::{matched_lines, matches_text};
use crate::model::{EntryView, FilterView, HitView, LyricSearchResult, SearchFilter};
use crate::reader::{
    detail_of, filter_matches, filter_views, first_match, hit_of, hit_views, hits,
    lemma_first_match, lowercase, lowered_keywords, path_set, TtmlDbReader,
};

verus! {

/// A reader reads the entries that its data stores.
pub proof fn law_reader(reader: TtmlDbReader)
    ensures
        reader@ == stored_entries(reader.data@),
{
}

/// The views of the filters and of the hits are those of each in its place, and the keywords in
/// lower case those of the filters, each in its place.
pub proof fn law_list_views(filters: Seq<SearchFilter>, found: Seq<LyricSearchResult>)
    ensures
        filter_views(filters).len() == filters.len(),
        forall|i: int|
            0 <= i < filters.len() ==> #[trigger] filter_views(filters)[i] == filters[i]@,
        hit_views(found).len() == found.len(),
        forall|i: int| 0 <= i < found.len() ==> #[trigger] hit_views(found)[i] == found[i]@,
        lowered_keywords(filter_views(filters)).len() == filters.len(),
        forall|i: int|
            0 <= i < filters.len() ==> #[trigger] lowered_keywords(filter_views(filters))[i]
                == lowercase(filters[i].keyword@),
{
    assert forall|i: int| 0 <= i < filters.len() implies #[trigger] lowered_keywords(
        filter_views(filters),
    )[i] == lowercase(filters[i].keyword@) by {
        assert(filter_views(filters)[i] == filters[i]@);
    }
}

/// Where a lookup of a path gives a text, there is an entry with this path and none before it, and
/// the text is the document of that entry. Where it gives nothing, no entry has the path.
pub proof fn law_detail(entries: Seq<EntryView>, file_path: Seq<char>)
    ensures
        match detail_of(entries, file_path) {
            Some(text) => exists|i: int|
                0 <= i < entries.len() && (#[trigger] entries[i]).file_path == file_path
                    && entries[i].raw_ttml == text && forall|j: int|
                    0 <= j < i ==> (#[trigger] entries[j]).file_path != file_path,
            None => forall|i: int|
                0 <= i < entries.len() ==> (#[trigger] entries[i]).file_path != file_path,
        },
    decreases entries.len(),
{
    if entries.len() > 0 && entries[0].file_path != file_path {
        let rest = entries.drop_first();
        law_detail(rest, file_path);
        if let Some(text) = detail_of(rest, file_path) {
            let i = choose|i: int|
                0 <= i < rest.len() && (#[trigger] rest[i]).file_path == file_path
                    && rest[i].raw_ttml == text && forall|j: int|
                    0 <= j < i ==> (#[trigger] rest[j]).file_path != file_path;
            assert(entries[i + 1] == rest[i]);
            assert forall|j: int| 0 <= j < i + 1 implies (#[trigger] entries[j]).file_path
                != file_path by {
                if j > 0 {
                    assert(rest[j - 1] == entries[j]);
                }
            }
        } else {
            assert forall|i: int| 0 <= i < entries.len() implies (#[trigger] entries[i]).file_path
                != file_path by {
                if i > 0 {
                    assert(rest[i - 1] == entries[i]);
                }
            }
        }
    }
}

/// A path is among the paths exactly where one of the entries has it.
pub proof fn law_paths(entries: Seq<EntryView>, file_path: Seq<char>)
    ensures
        path_set(entries).contains(file_path) <==> exists|i: int|
            0 <= i < entries.len() && (#[trigger] entries[i]).file_path == file_path,
{
    let paths = entries.map_values(|entry: EntryView| entry.file_path);
    if path_set(entries).contains(file_path) {
        let i = paths.index_of(file_path);
        assert(entries[i].file_path == file_path);
    }
    if exists|i: int| 0 <= i < entries.len() && (#[trigger] entries[i]).file_path == file_path {
        let i = choose|i: int|
            0 <= i < entries.len() && (#[trigger] entries[i]).file_path == file_path;
        assert(paths[i] == file_path);
    }
}

proof fn lemma_field_names()
    ensures
        "title"@ != "artist"@,
        "title"@ != "album"@,
        "title"@ != "lyric_text"@,
        "title"@ != "bg_vocal_text"@,
        "artist"@ != "album"@,
        "artist"@ != "lyric_text"@,
        "artist"@ != "bg_vocal_text"@,
        "album"@ != "lyric_text"@,
        "album"@ != "bg_vocal_text"@,
        "lyric_text"@ != "bg_vocal_text"@,
{
    reveal_strlit("title");
    reveal_strlit("artist");
    reveal_strlit("album");
    reveal_strlit("lyric_text");
    reveal_strlit("bg_vocal_text");
    assert("title"@.len() == 5 && "artist"@.len() == 6 && "album"@.len() == 5);
    assert("lyric_text"@.len() == 10 && "bg_vocal_text"@.len() == 13);
    assert("title"@[0] != "album"@[0]);
}

/// A filter on one of the five fields matches exactly where its keyword occurs in that field of the
/// entry, whatever the other fields hold. Other names match nothing.
pub proof fn law_filter(entry: EntryView, filter: FilterView)
    ensures
        filter.field == "title"@ ==> (filter_matches(entry, filter) <==> matches_text(
            entry.title,
            filter.keyword,
        )),
        filter.field == "artist"@ ==> (filter_matches(entry, filter) <==> matches_text(
            entry.artist,
            filter.keyword,
        )),
        filter.field == "album"@ ==> (filter_matches(entry, filter) <==> matches_text(
            entry.album,
            filter.keyword,
        )),
        filter.field == "lyric_text"@ ==> (filter_matches(entry, filter) <==> matches_text(
            entry.lyric_text,
            filter.keyword,
        )),
        filter.field == "bg_vocal_text"@ ==> (filter_matches(entry, filter) <==> matches_text(
            entry.bg_vocal_text,
            filter.keyword,
        )),
        filter.field != "title"@ && filter.field != "artist"@ && filter.field != "album"@
            && filter.field != "lyric_text"@ && filter.field != "bg_vocal_text"@
            ==> !filter_matches(entry, filter),
{
    lemma_field_names();
}

/// Entries that agree on the field of a filter are matched alike.
pub proof fn law_other_fields_do_not_matter(a: EntryView, b: EntryView, filter: FilterView)
    requires
        filter.field == "title"@ ==> a.title == b.title,
        filter.field == "artist"@ ==> a.artist == b.artist,
        filter.field == "album"@ ==> a.album == b.album,
        filter.field == "lyric_text"@ ==> a.lyric_text == b.lyric_text,
        filter.field == "bg_vocal_text"@ ==> a.bg_vocal_text == b.bg_vocal_text,
    ensures
        filter_matches(a, filter) == filter_matches(b, filter),
{
    law_filter(a, filter);
    law_filter(b, filter);
}

/// The lines that the hit shows, where a filter with this field and this keyword in lower case
/// found the entry: those of the lyrics or the background vocals around the keyword, with one line
/// before and one behind, and none for other fields.
pub open spec fn shows_lines_for(
    hit: HitView,
    entry: EntryView,
    field: Seq<char>,
    lowered: Seq<char>,
) -> bool {
    &&& field == "lyric_text"@ ==> hit.matched_line_preview == matched_lines(
        entry.lyric_text,
        lowered,
        1,
    )
    &&& field == "bg_vocal_text"@ ==> hit.matched_line_preview == matched_lines(
        entry.bg_vocal_text,
        lowered,
        1,
    )
    &&& field != "lyric_text"@ && field != "bg_vocal_text"@ ==> hit.matched_line_preview.len() == 0
}

/// An entry is a hit exactly where one of the filters matches it. The hit has the path, title,
/// artist and album of the entry, and shows lines for the first filter that matches.
pub proof fn law_hit(entry: EntryView, filters: Seq<FilterView>, lowered: Seq<Seq<char>>)
    ensures
        match hit_of(entry, filters, lowered) {
            Some(hit) => {
                &&& hit.file_path == entry.file_path
                &&& hit.title == entry.title
                &&& hit.artist == entry.artist
                &&& hit.album == entry.album
                &&& exists|i: int|
                    0 <= i < filters.len() && filter_matches(entry, #[trigger] filters[i]) && (
                    forall|j: int| 0 <= j < i ==> !filter_matches(entry, #[trigger] filters[j]))
                        && shows_lines_for(hit, entry, filters[i].field, lowered[i])
            },
            None => forall|i: int|
                0 <= i < filters.len() ==> !filter_matches(entry, #[trigger] filters[i]),
        },
{
    lemma_first_match(entry, filters, 0);
    lemma_field_names();
    if let Some(hit) = hit_of(entry, filters, lowered) {
        let i = first_match(entry, filters, 0)->0;
        assert(filter_matches(entry, filters[i]));
        assert(shows_lines_for(hit, entry, filters[i].field, lowered[i]));
    }
}

/// A search gives the hits of exactly those entries that are hits, in the order of the database,
/// each once.
pub proof fn law_hits(
    entries: Seq<EntryView>,
    filters: Seq<FilterView>,
    lowered: Seq<Seq<char>>,
) -> (places: Seq<int>)
    ensures
        in_order(places, entries.len()),
        hits(entries, filters, lowered).len() == places.len(),
        forall|k: int|
            0 <= k < places.len() ==> hit_of(entries[places[k]], filters, lowered) == Some(
                #[trigger] hits(entries, filters, lowered)[k],
            ),
        forall|i: int|
            0 <= i < entries.len() && hit_of(#[trigger] entries[i], filters, lowered) is Some
                ==> places.contains(i),
    decreases entries.len(),
{
    if entries.len() == 0 {
        Seq::empty()
    } else {
        let shorter = entries.drop_last();
        let before = law_hits(shorter, filters, lowered);
        lemma_one_more_place(before, shorter.len());
        let last = seq![entries.last()];
        assert(entries =~= shorter + last);
        crate::reader::lemma_search_of_appended(shorter, last, filters, lowered);
        assert(last.drop_first() =~= Seq::empty());
        assert(hits(last.drop_first(), filters, lowered) =~= Seq::empty());
        let found = hits(entries, filters, lowered);
        let places = match hit_of(entries.last(), filters, lowered) {
            Some(hit) => {
                assert(hits(last, filters, lowered) =~= seq![hit]);
                before.push(shorter.len() as int)
            },
            None => {
                assert(hits(last, filters, lowered) =~= Seq::empty());
                before
            },
        };
        assert forall|k: int| 0 <= k < places.len() implies hit_of(
            entries[places[k]],
            filters,
            lowered,
        ) == Some(#[trigger] found[k]) by {
            if k < before.len() {
                assert(shorter[before[k]] == entries[before[k]]);
                assert(hits(shorter, filters, lowered)[k] == found[k]);
            }
        }
        assert forall|i: int|
            0 <= i < entries.len() && hit_of(#[trigger] entries[i], filters, lowered)
                is Some implies places.contains(i) by {
            if i < shorter.len() {
                assert(shorter[i] == entries[i]);
                assert(before.contains(i));
            }
            assert(before.push(shorter.len() as int).contains(i));
        }
        places
    }
}

} // verus!
