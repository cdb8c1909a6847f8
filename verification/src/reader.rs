//! Reading a database: its entries, their paths, one of them in full, and a search over all.

use vstd::hash_set::StringHashSet;
use vstd::prelude::*;
use vstd::utf8::is_ascii_chars;

use crate::block::{stored_entries, TtmlEntryIterator};
use crate::characters::{
    folded_code, in_one_line, lemma_case_does_not_matter, lemma_match_is_shown,
    same_text_but_for_case,
};
use crate::matching::{
    contains_ignore_ascii_case, extract_matched_lines, matched_lines, matches_text,
};
use crate::model::{
    EntryView, FilterView, HitView, LyricSearchResult, SearchFilter, TtmlEntry,
};
use crate::text::views;

verus! {

/// The number of lines that a preview shows before and behind a match.
pub const PREVIEW_CONTEXT: usize = 1;

/// What `str::to_lowercase` makes of a text.
pub uninterp spec fn lowercase(text: Seq<char>) -> Seq<char>;

/// The second text is the first with its upper case ASCII letters made lower case.
pub open spec fn is_ascii_lowered(text: Seq<char>, lowered: Seq<char>) -> bool {
    lowered.len() == text.len() && forall|i: int|
        0 <= i < text.len() ==> (#[trigger] lowered[i]) as int == folded_code(text[i])
}

/// Calls `str::to_lowercase`, whose result depends on the text alone, by the case mapping of
/// Unicode. Of ASCII characters it makes the letters lower case and leaves the others as they are.
#[verifier::external_body]
fn to_lowercase(text: &str) -> (res: String)
    ensures
        res@ == lowercase(text@),
        is_ascii_chars(text@) ==> is_ascii_lowered(text@, res@),
{
    text.to_lowercase()
}

/// The text of an entry that the name of a search field stands for, if it is one.
pub open spec fn field_text(entry: EntryView, field: Seq<char>) -> Option<Seq<char>> {
    if field == "title"@ {
        Some(entry.title)
    } else if field == "artist"@ {
        Some(entry.artist)
    } else if field == "album"@ {
        Some(entry.album)
    } else if field == "lyric_text"@ {
        Some(entry.lyric_text)
    } else if field == "bg_vocal_text"@ {
        Some(entry.bg_vocal_text)
    } else {
        None
    }
}

/// The field holds lyrics, of which a hit shows the lines around the match.
pub open spec fn is_lyric_field(field: Seq<char>) -> bool {
    field == "lyric_text"@ || field == "bg_vocal_text"@
}

/// The filter finds its keyword in its field of the entry.
pub open spec fn filter_matches(entry: EntryView, filter: FilterView) -> bool {
    match field_text(entry, filter.field) {
        Some(text) => matches_text(text, filter.keyword),
        None => false,
    }
}

/// The first filter from `from` on that matches the entry.
pub open spec fn first_match(entry: EntryView, filters: Seq<FilterView>, from: int) -> Option<int>
    decreases filters.len() - from,
{
    if from < 0 || from >= filters.len() {
        None
    } else if filter_matches(entry, filters[from]) {
        Some(from)
    } else {
        first_match(entry, filters, from + 1)
    }
}

/// The lines that a hit shows, where the filter matched and its keyword is `lowered` in lower
/// case.
pub open spec fn preview(entry: EntryView, filter: FilterView, lowered: Seq<char>) -> Seq<
    Seq<char>,
> {
    if is_lyric_field(filter.field) {
        matched_lines(field_text(entry, filter.field)->0, lowered, PREVIEW_CONTEXT as int)
    } else {
        Seq::empty()
    }
}

/// The hit that an entry gives, if one of the filters matches it. The first one that does decides
/// what is shown.
pub open spec fn hit_of(
    entry: EntryView,
    filters: Seq<FilterView>,
    lowered: Seq<Seq<char>>,
) -> Option<HitView> {
    match first_match(entry, filters, 0) {
        Some(i) => Some(
            HitView {
                file_path: entry.file_path,
                title: entry.title,
                artist: entry.artist,
                album: entry.album,
                matched_line_preview: preview(entry, filters[i], lowered[i]),
            },
        ),
        None => None,
    }
}

/// The hits among the entries, in their order.
pub open spec fn hits(
    entries: Seq<EntryView>,
    filters: Seq<FilterView>,
    lowered: Seq<Seq<char>>,
) -> Seq<HitView>
    decreases entries.len(),
{
    if entries.len() == 0 {
        Seq::empty()
    } else {
        let rest = hits(entries.drop_first(), filters, lowered);
        match hit_of(entries[0], filters, lowered) {
            Some(hit) => seq![hit] + rest,
            None => rest,
        }
    }
}

/// The filter looks for ASCII characters within one line of lyrics.
pub open spec fn is_plain_lyric_filter(filter: FilterView) -> bool {
    &&& is_lyric_field(filter.field)
    &&& filter.keyword.len() > 0
    &&& is_ascii_chars(filter.keyword)
    &&& in_one_line(filter.keyword)
}

/// The hit shows a line that matches the keyword.
pub open spec fn shows_match(hit: HitView, keyword: Seq<char>) -> bool {
    exists|line: Seq<char>| #[trigger]
        hit.matched_line_preview.contains(line) && matches_text(line, keyword)
}

/// The hit is that of one of the entries, and where the filter that found it looks for ASCII
/// characters within one line of lyrics, it shows a line that matches the keyword.
pub open spec fn is_explained(
    hit: HitView,
    entries: Seq<EntryView>,
    filters: Seq<FilterView>,
) -> bool {
    exists|j: int|
        0 <= j < entries.len() && (first_match(#[trigger] entries[j], filters, 0) matches Some(i)
            && hit_of(entries[j], filters, lowered_keywords(filters)) == Some(hit) && (
        is_plain_lyric_filter(filters[i]) ==> shows_match(hit, filters[i].keyword)))
}

/// The content of the first entry with the path, if there is one.
pub open spec fn detail_of(entries: Seq<EntryView>, file_path: Seq<char>) -> Option<Seq<char>>
    decreases entries.len(),
{
    if entries.len() == 0 {
        None
    } else if entries[0].file_path == file_path {
        Some(entries[0].raw_ttml)
    } else {
        detail_of(entries.drop_first(), file_path)
    }
}

/// The paths of the entries.
pub open spec fn path_set(entries: Seq<EntryView>) -> Set<Seq<char>> {
    entries.map_values(|entry: EntryView| entry.file_path).to_set()
}

/// The views of the filters.
pub open spec fn filter_views(filters: Seq<SearchFilter>) -> Seq<FilterView> {
    filters.map_values(|filter: SearchFilter| filter@)
}

/// The views of the hits.
pub open spec fn hit_views(hits: Seq<LyricSearchResult>) -> Seq<HitView> {
    hits.map_values(|hit: LyricSearchResult| hit@)
}

/// The texts in lower case.
pub open spec fn lowered_keywords(filters: Seq<FilterView>) -> Seq<Seq<char>> {
    filters.map_values(|filter: FilterView| lowercase(filter.keyword))
}

proof fn lemma_paths(entries: Seq<EntryView>)
    requires
        entries.len() > 0,
    ensures
        path_set(entries) == path_set(entries.drop_first()).insert(entries[0].file_path),
{
    let all = entries.map_values(|entry: EntryView| entry.file_path);
    let rest = entries.drop_first().map_values(|entry: EntryView| entry.file_path);
    assert forall|path: Seq<char>| path_set(entries).contains(path) == path_set(
        entries.drop_first(),
    ).insert(entries[0].file_path).contains(path) by {
        if all.contains(path) && path != entries[0].file_path {
            let i = all.index_of(path);
            assert(rest[i - 1] == path);
        }
        if rest.contains(path) {
            let i = rest.index_of(path);
            assert(all[i + 1] == path);
        }
        assert(all[0] == entries[0].file_path);
    }
    assert(path_set(entries) =~= path_set(entries.drop_first()).insert(entries[0].file_path));
}

fn is_named(field: &String, name: &str) -> (res: bool)
    ensures
        res == (field@ == name@),
{
    *field == String::from_str(name)
}

fn select_field<'a>(entry: &'a TtmlEntry, field: &String) -> (res: Option<&'a String>)
    ensures
        match res {
            Some(text) => field_text(entry@, field@) == Some(text@),
            None => field_text(entry@, field@) is None,
        },
{
    if is_named(field, "title") {
        Some(&entry.title)
    } else if is_named(field, "artist") {
        Some(&entry.artist)
    } else if is_named(field, "album") {
        Some(&entry.album)
    } else if is_named(field, "lyric_text") {
        Some(&entry.lyric_text)
    } else if is_named(field, "bg_vocal_text") {
        Some(&entry.bg_vocal_text)
    } else {
        None
    }
}

/// The hit that an entry gives for the filters, whose keywords in lower case are given too.
pub fn match_entry(entry: TtmlEntry, filters: &[SearchFilter], lowered: &Vec<String>) -> (res:
    Option<LyricSearchResult>)
    requires
        lowered@.len() == filters@.len(),
    ensures
        match res {
            Some(hit) => hit_of(entry@, filter_views(filters@), views(lowered@)) == Some(hit@),
            None => hit_of(entry@, filter_views(filters@), views(lowered@)) is None,
        },
{
    let ghost model = filter_views(filters@);
    let mut i: usize = 0;
    while i < filters.len()
        invariant
            i <= filters@.len(),
            lowered@.len() == filters@.len(),
            model == filter_views(filters@),
            first_match(entry@, model, i as int) == first_match(entry@, model, 0),
        decreases filters@.len() - i,
    {
        let filter = &filters[i];
        assert(model[i as int] == filter@);
        if let Some(text) = select_field(&entry, &filter.field) {
            if contains_ignore_ascii_case(text.as_str(), filter.keyword.as_str()) {
                let matched_line_preview = if is_named(&filter.field, "lyric_text") || is_named(
                    &filter.field,
                    "bg_vocal_text",
                ) {
                    extract_matched_lines(text.as_str(), lowered[i].as_str(), PREVIEW_CONTEXT)
                } else {
                    Vec::new()
                };
                assert(views(lowered@)[i as int] == lowered@[i as int]@);
                assert(views(matched_line_preview@) =~= preview(
                    entry@,
                    filter@,
                    lowered@[i as int]@,
                ));
                return Some(
                    LyricSearchResult {
                        file_path: entry.file_path,
                        title: entry.title,
                        artist: entry.artist,
                        album: entry.album,
                        matched_line_preview,
                    },
                );
            }
        }
        i = i + 1;
    }
    None
}

/// Reads a database.
pub struct TtmlDbReader {
    pub data: Vec<u8>,
}

impl View for TtmlDbReader {
    type V = Seq<EntryView>;

    /// The entries of the database.
    open spec fn view(&self) -> Seq<EntryView> {
        stored_entries(self.data@)
    }
}

impl TtmlDbReader {
    /// A reader for the content of a database file.
    pub fn new(data: Vec<u8>) -> (res: Self)
        ensures
            res.data == data,
    {
        TtmlDbReader { data }
    }

    /// The paths of all entries.
    pub fn get_all_file_paths(&self) -> (paths: StringHashSet)
        ensures
            paths@ == path_set(self@),
    {
        let mut paths = StringHashSet::new();
        let mut entries = self.iter_entries();
        loop
            invariant_except_break
                paths@.union(path_set(entries@)) == path_set(self@),
            ensures
                paths@ == path_set(self@),
            decreases entries@.len(),
        {
            let ghost before = entries@;
            match entries.next() {
                Some(entry) => {
                    let ghost old_paths = paths@;
                    proof {
                        lemma_paths(before);
                    }
                    paths.insert(entry.file_path);
                    assert(paths@.union(path_set(entries@)) =~= old_paths.union(path_set(before)));
                },
                None => {
                    assert(path_set(before) =~= Set::empty());
                    assert(paths@ =~= path_set(self@));
                    break;
                },
            }
        }
        paths
    }

    /// The entries that one of the filters matches, in the order of the database.
    pub fn search(&self, filters: &[SearchFilter]) -> (results: Vec<LyricSearchResult>)
        ensures
            hit_views(results@) == hits(
                self@,
                filter_views(filters@),
                lowered_keywords(filter_views(filters@)),
            ),
            forall|k: int|
                0 <= k < results@.len() ==> is_explained(
                    (#[trigger] results@[k])@,
                    self@,
                    filter_views(filters@),
                ),
    {
        let mut lowered: Vec<String> = Vec::new();
        let ghost model = lowered_keywords(filter_views(filters@));
        let mut i: usize = 0;
        while i < filters.len()
            invariant
                i <= filters@.len(),
                model == lowered_keywords(filter_views(filters@)),
                views(lowered@) == model.take(i as int),
                forall|k: int|
                    0 <= k < i && is_ascii_chars((#[trigger] filter_views(filters@)[k]).keyword)
                        ==> is_ascii_lowered(filter_views(filters@)[k].keyword, model[k]),
            decreases filters@.len() - i,
        {
            let ghost before = lowered@;
            let keyword = to_lowercase(filters[i].keyword.as_str());
            lowered.push(keyword);
            proof {
                assert(filter_views(filters@)[i as int] == filters@[i as int]@);
                assert(views(lowered@) =~= views(before).push(keyword@));
                assert(model.take(i + 1) =~= model.take(i as int).push(model[i as int]));
            }
            i = i + 1;
        }
        assert(model.take(i as int) =~= model);
        assert(views(lowered@).len() == lowered@.len());
        let results = self.search_lowered(filters, &lowered);
        proof {
            lemma_hits_are_explained(self@, filter_views(filters@));
            assert forall|k: int| 0 <= k < results@.len() implies is_explained(
                (#[trigger] results@[k])@,
                self@,
                filter_views(filters@),
            ) by {
                assert(hit_views(results@)[k] == results@[k]@);
            }
        }
        results
    }

    /// The entries that one of the filters matches, where the keywords in lower case are given.
    pub fn search_lowered(&self, filters: &[SearchFilter], lowered: &Vec<String>) -> (results: Vec<
        LyricSearchResult,
    >)
        requires
            lowered@.len() == filters@.len(),
        ensures
            hit_views(results@) == hits(self@, filter_views(filters@), views(lowered@)),
    {
        let mut results: Vec<LyricSearchResult> = Vec::new();
        let mut entries = self.iter_entries();
        let ghost model = filter_views(filters@);
        let ghost keys = views(lowered@);
        assert(hit_views(results@) =~= Seq::empty());
        assert(hit_views(results@) + hits(entries@, model, keys) =~= hits(self@, model, keys));
        loop
            invariant_except_break
                hit_views(results@) + hits(entries@, model, keys) == hits(self@, model, keys),
            invariant
                lowered@.len() == filters@.len(),
                model == filter_views(filters@),
                keys == views(lowered@),
            ensures
                hit_views(results@) == hits(self@, model, keys),
            decreases entries@.len(),
        {
            let ghost before = entries@;
            match entries.next() {
                Some(entry) => {
                    let ghost old_hits = hit_views(results@);
                    if let Some(hit) = match_entry(entry, filters, lowered) {
                        results.push(hit);
                        assert(hit_views(results@) =~= old_hits + seq![hit@]);
                    }
                    assert(hit_views(results@) + hits(entries@, model, keys) =~= old_hits + hits(
                        before,
                        model,
                        keys,
                    ));
                },
                None => {
                    assert(hit_views(results@) + hits(before, model, keys) =~= hit_views(results@));
                    break;
                },
            }
        }
        results
    }

    /// The TTML document of the first entry with the path.
    pub fn get_lyric_detail(&self, file_path: &str) -> (res: Option<String>)
        ensures
            match res {
                Some(text) => detail_of(self@, file_path@) == Some(text@),
                None => detail_of(self@, file_path@) is None,
            },
    {
        let mut entries = self.iter_entries();
        loop
            invariant
                detail_of(entries@, file_path@) == detail_of(self@, file_path@),
            decreases entries@.len(),
        {
            match entries.next() {
                Some(entry) => {
                    if is_named(&entry.file_path, file_path) {
                        return Some(entry.raw_ttml);
                    }
                },
                None => {
                    return None;
                },
            }
        }
    }

    /// The number of entries.
    pub fn get_entry_count(&self) -> (count: usize)
        ensures
            count == self@.len(),
    {
        let mut count: usize = 0;
        let size: usize = self.data.len();
        let mut entries = self.iter_entries();
        loop
            invariant_except_break
                count + entries@.len() == self@.len(),
                count + entries.bound() <= size,
                0 <= entries.bound(),
            ensures
                count == self@.len(),
            decreases entries@.len(),
        {
            match entries.next() {
                Some(_) => {
                    count = count + 1;
                },
                None => {
                    break;
                },
            }
        }
        count
    }

    /// Goes through the entries.
    pub fn iter_entries(&self) -> (entries: TtmlEntryIterator<'_>)
        ensures
            entries@ == self@,
            entries.bound() == self.data@.len(),
    {
        TtmlEntryIterator::new(&self.data)
    }
}

/// A search over entries put behind others finds what it finds among the first, and then what it
/// finds among the others.
pub proof fn lemma_search_of_appended(
    entries: Seq<EntryView>,
    more: Seq<EntryView>,
    filters: Seq<FilterView>,
    lowered: Seq<Seq<char>>,
)
    ensures
        hits(entries + more, filters, lowered) == hits(entries, filters, lowered) + hits(
            more,
            filters,
            lowered,
        ),
    decreases entries.len(),
{
    if entries.len() == 0 {
        assert(entries + more =~= more);
        assert(hits(entries + more, filters, lowered) =~= hits(entries, filters, lowered) + hits(
            more,
            filters,
            lowered,
        ));
    } else {
        assert((entries + more).drop_first() =~= entries.drop_first() + more);
        lemma_search_of_appended(entries.drop_first(), more, filters, lowered);
        assert(hits(entries + more, filters, lowered) =~= hits(entries, filters, lowered) + hits(
            more,
            filters,
            lowered,
        ));
    }
}

/// The first entry with a path is the one that counts: another one behind it is not seen.
pub proof fn lemma_detail_of_appended(
    entries: Seq<EntryView>,
    more: Seq<EntryView>,
    file_path: Seq<char>,
)
    ensures
        detail_of(entries + more, file_path) == match detail_of(entries, file_path) {
            Some(text) => Some(text),
            None => detail_of(more, file_path),
        },
    decreases entries.len(),
{
    if entries.len() == 0 {
        assert(entries + more =~= more);
    } else {
        assert((entries + more).drop_first() =~= entries.drop_first() + more);
        lemma_detail_of_appended(entries.drop_first(), more, file_path);
    }
}

/// The paths of entries put behind others are added to those of the others.
pub proof fn lemma_paths_of_appended(entries: Seq<EntryView>, more: Seq<EntryView>)
    ensures
        path_set(entries + more) == path_set(entries).union(path_set(more)),
    decreases entries.len(),
{
    if entries.len() == 0 {
        assert(entries + more =~= more);
        assert(path_set(entries) =~= Set::empty());
        assert(path_set(entries).union(path_set(more)) =~= path_set(more));
    } else {
        assert((entries + more).drop_first() =~= entries.drop_first() + more);
        lemma_paths_of_appended(entries.drop_first(), more);
        lemma_paths(entries + more);
        lemma_paths(entries);
        assert(path_set(entries + more) =~= path_set(entries).union(path_set(more)));
    }
}

/// A path is among the paths exactly where a lookup of it finds something.
pub proof fn lemma_detail_of_path(entries: Seq<EntryView>, file_path: Seq<char>)
    ensures
        path_set(entries).contains(file_path) <==> detail_of(entries, file_path) is Some,
    decreases entries.len(),
{
    if entries.len() == 0 {
        assert(path_set(entries) =~= Set::empty());
    } else {
        lemma_detail_of_path(entries.drop_first(), file_path);
        lemma_paths(entries);
    }
}

pub(crate) proof fn lemma_first_match(entry: EntryView, filters: Seq<FilterView>, from: int)
    requires
        0 <= from <= filters.len(),
    ensures
        match first_match(entry, filters, from) {
            Some(i) => from <= i < filters.len() && filter_matches(entry, filters[i]) && forall|
                k: int,
            |
                from <= k < i ==> !filter_matches(entry, #[trigger] filters[k]),
            None => forall|k: int|
                from <= k < filters.len() ==> !filter_matches(entry, #[trigger] filters[k]),
        },
    decreases filters.len() - from,
{
    if from < filters.len() && !filter_matches(entry, filters[from]) {
        lemma_first_match(entry, filters, from + 1);
    }
}

/// An entry is a hit exactly where one of the filters matches it. A hit carries the path, title,
/// artist and album of its entry, and shows the lines of the first filter that matches.
pub proof fn lemma_hit(entry: EntryView, filters: Seq<FilterView>, lowered: Seq<Seq<char>>)
    ensures
        hit_of(entry, filters, lowered) is Some <==> exists|i: int|
            0 <= i < filters.len() && filter_matches(entry, #[trigger] filters[i]),
        hit_of(entry, filters, lowered) matches Some(hit) ==> hit.file_path == entry.file_path
            && hit.title == entry.title && hit.artist == entry.artist && hit.album == entry.album
            && exists|i: int|
            0 <= i < filters.len() && filter_matches(entry, #[trigger] filters[i]) && (forall|
                k: int,
            |
                0 <= k < i ==> !filter_matches(entry, #[trigger] filters[k]))
                && hit.matched_line_preview == preview(entry, filters[i], lowered[i]),
{
    lemma_first_match(entry, filters, 0);
}

/// Whether a filter matches does not depend on the case of ASCII letters in its keyword.
pub proof fn lemma_filter_case_does_not_matter(
    entry: EntryView,
    filter: FilterView,
    other: FilterView,
)
    requires
        filter.field == other.field,
        same_text_but_for_case(filter.keyword, other.keyword),
    ensures
        filter_matches(entry, filter) == filter_matches(entry, other),
{
    if let Some(text) = field_text(entry, filter.field) {
        lemma_case_does_not_matter(text, filter.keyword, text, other.keyword);
    }
}

/// A search never finds more entries than there are, and without filters none.
pub proof fn lemma_number_of_hits(
    entries: Seq<EntryView>,
    filters: Seq<FilterView>,
    lowered: Seq<Seq<char>>,
)
    ensures
        hits(entries, filters, lowered).len() <= entries.len(),
        filters.len() == 0 ==> hits(entries, filters, lowered).len() == 0,
    decreases entries.len(),
{
    if entries.len() > 0 {
        lemma_number_of_hits(entries.drop_first(), filters, lowered);
    }
}

/// The hits of a search are explained, as long as ASCII keywords are only made lower case.
proof fn lemma_hits_are_explained(entries: Seq<EntryView>, filters: Seq<FilterView>)
    requires
        forall|k: int|
            0 <= k < filters.len() && is_ascii_chars((#[trigger] filters[k]).keyword)
                ==> is_ascii_lowered(filters[k].keyword, lowered_keywords(filters)[k]),
    ensures
        forall|k: int|
            0 <= k < hits(entries, filters, lowered_keywords(filters)).len() ==> is_explained(
                #[trigger] hits(entries, filters, lowered_keywords(filters))[k],
                entries,
                filters,
            ),
    decreases entries.len(),
{
    let lowered = lowered_keywords(filters);
    let all = hits(entries, filters, lowered);
    if entries.len() > 0 {
        let rest = entries.drop_first();
        lemma_hits_are_explained(rest, filters);
        let found: int = if hit_of(entries[0], filters, lowered) is Some {
            1
        } else {
            0
        };
        assert forall|k: int| 0 <= k < all.len() implies is_explained(
            #[trigger] all[k],
            entries,
            filters,
        ) by {
            if k < found {
                lemma_first_match(entries[0], filters, 0);
                let i = first_match(entries[0], filters, 0)->0;
                if is_plain_lyric_filter(filters[i]) {
                    lemma_lowered_is_same_but_for_case(filters[i].keyword, lowered[i]);
                    lemma_lyric_hit_shows_line(entries[0], filters[i], lowered[i]);
                    let line = choose|line: Seq<char>| #[trigger]
                        preview(entries[0], filters[i], lowered[i]).contains(line)
                            && matches_text(line, lowered[i]);
                    lemma_case_does_not_matter(line, filters[i].keyword, line, lowered[i]);
                    assert(all[k].matched_line_preview.contains(line));
                }
                assert(hit_of(entries[0], filters, lowered) == Some(all[k]));
            } else {
                let before = hits(rest, filters, lowered);
                assert(all[k] == before[k - found]);
                assert(is_explained(before[k - found], rest, filters));
                let j = choose|j: int|
                    0 <= j < rest.len() && (first_match(
                        #[trigger] rest[j],
                        filters,
                        0,
                    ) matches Some(i) && hit_of(rest[j], filters, lowered) == Some(all[k]) && (
                    is_plain_lyric_filter(filters[i]) ==> shows_match(
                        all[k],
                        filters[i].keyword,
                    )));
                assert(entries[j + 1] == rest[j]);
            }
        }
    }
}

proof fn lemma_lowered_is_same_but_for_case(text: Seq<char>, lowered: Seq<char>)
    requires
        is_ascii_lowered(text, lowered),
    ensures
        same_text_but_for_case(text, lowered),
{
    assert forall|i: int| 0 <= i < text.len() implies folded_code(#[trigger] text[i])
        == folded_code(lowered[i]) by {
        assert(lowered[i] as int == folded_code(text[i]));
    }
}

/// A hit in lyrics for a keyword that lies within one line shows a line with the keyword, as long
/// as the keyword has no other letters than ASCII ones in upper case.
pub proof fn lemma_lyric_hit_shows_line(entry: EntryView, filter: FilterView, lowered: Seq<char>)
    requires
        filter_matches(entry, filter),
        is_lyric_field(filter.field),
        filter.keyword.len() > 0,
        in_one_line(filter.keyword),
        same_text_but_for_case(filter.keyword, lowered),
    ensures
        exists|line: Seq<char>| #[trigger]
            preview(entry, filter, lowered).contains(line) && matches_text(line, lowered),
{
    lemma_match_is_shown(
        field_text(entry, filter.field)->0,
        filter.keyword,
        lowered,
        PREVIEW_CONTEXT as int,
    );
    let shown = matched_lines(
        field_text(entry, filter.field)->0,
        lowered,
        PREVIEW_CONTEXT as int,
    );
    let line = choose|line: Seq<char>| #[trigger]
        shown.contains(line) && matches_text(line, lowered);
    assert(preview(entry, filter, lowered).contains(line));
}

} // verus!
