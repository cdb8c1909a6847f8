//! What the remote collection sends, and what is made of it.

use vstd::prelude::*;

use crate::laws::{in_order, lemma_one_more_place};
use crate::limits::within_limits;
use crate::model::{EntryView, IndexEntry};
use crate::remote::{
    archive_entries, archive_within_limits, are_requests, blank, download_entries,
    downloads_within_limits, file_url, filled_lines, index_names, lemma_missing_files, lyric_file,
    missing_files, received, remote_url, success_status, white_space, ArchiveFile, Download,
    FetchError, FileRequest, Reply,
};
use crate::text::text_lines;
use crate::ttml::file_entry;

verus! {

/// The reply brings this: an answer came with a status from 200 to 299, and its body was read.
pub open spec fn brings<T>(reply: Reply<T>, expected: T) -> bool {
    reply matches Reply::Answered { status, body: Some(body) } && 200 <= status <= 299 && body
        == expected
}

/// A reply gives its body exactly where an answer came with a status from 200 to 299 and its body
/// was read, and otherwise says which of these was missing, the first first.
pub proof fn law_received<T>(reply: Reply<T>)
    ensures
        match received(reply) {
            Ok(body) => brings(reply, body),
            Err(FetchError::Unreachable) => reply is Unreachable,
            Err(FetchError::Status(status)) => reply matches Reply::Answered { status: s, .. } && s
                == status && !(200 <= status <= 299),
            Err(FetchError::Unreadable) => reply matches Reply::Answered { status, body: None }
                && 200 <= status <= 299,
        },
        forall|body: T| brings(reply, body) ==> received(reply) == Ok::<T, FetchError>(body),
{
}

/// The statuses of success are those from 200 to 299.
pub proof fn law_success(status: u16)
    ensures
        success_status(status) <==> status as int / 100 == 2,
{
}

/// A file is one of lyrics exactly where it is no directory and its name is something followed by
/// `.ttml`.
pub proof fn law_lyric_file(name: Seq<char>, is_dir: bool)
    ensures
        lyric_file(name, is_dir) <==> !is_dir && exists|stem: Seq<char>|
            name == #[trigger] (stem + ".ttml"@),
{
    reveal_strlit(".ttml");
    if lyric_file(name, is_dir) {
        let stem = name.take(name.len() - 5);
        assert(name =~= stem + ".ttml"@);
    }
    if exists|stem: Seq<char>| name == #[trigger] (stem + ".ttml"@) {
        let stem = choose|stem: Seq<char>| name == #[trigger] (stem + ".ttml"@);
        assert(name.skip(name.len() - 5) =~= ".ttml"@);
    }
}

/// The file is one of lyrics that could be read and parsed, and this is its entry.
pub open spec fn holds_entry(file: ArchiveFile, entry: EntryView) -> bool {
    &&& lyric_file(file.name@, file.is_dir)
    &&& file.content is Some
    &&& file_entry(file.name@, file.content->0@) == Some(entry)
}

/// The entries of an archive are those of exactly the files of lyrics that could be read and
/// parsed, in the order of the archive, each once, with the name of its file.
pub proof fn law_archive_entries(files: Seq<ArchiveFile>) -> (places: Seq<int>)
    ensures
        in_order(places, files.len()),
        archive_entries(files).len() == places.len(),
        forall|k: int|
            0 <= k < places.len() ==> holds_entry(
                files[places[k]],
                #[trigger] archive_entries(files)[k],
            ),
        forall|i: int, entry: EntryView|
            0 <= i < files.len() && #[trigger] holds_entry(files[i], entry) ==> places.contains(i),
    decreases files.len(),
{
    if files.len() == 0 {
        Seq::empty()
    } else {
        let shorter = files.drop_last();
        let last = files.last();
        let before = law_archive_entries(shorter);
        lemma_one_more_place(before, shorter.len());
        let given = crate::remote::archive_entry(last);
        if let Some(entry) = given {
            assert(holds_entry(last, entry));
        }
        let places = if given is Some {
            before.push(shorter.len() as int)
        } else {
            before
        };
        assert forall|k: int| 0 <= k < places.len() implies holds_entry(
            files[places[k]],
            #[trigger] archive_entries(files)[k],
        ) by {
            if k < before.len() {
                assert(shorter[before[k]] == files[before[k]]);
                assert(archive_entries(shorter)[k] == archive_entries(files)[k]);
            }
        }
        assert forall|i: int, entry: EntryView|
            0 <= i < files.len() && #[trigger] holds_entry(
                files[i],
                entry,
            ) implies places.contains(i) by {
            if i < shorter.len() {
                assert(holds_entry(shorter[i], entry));
                assert(before.contains(i));
            }
            assert(before.push(shorter.len() as int).contains(i));
        }
        places
    }
}

/// The download brought a file that can be parsed, and this is its entry.
pub open spec fn gives_entry(download: Download, entry: EntryView) -> bool {
    exists|content: String| #[trigger]
        brings(download.reply, content) && file_entry(download.file_name@, content@) == Some(entry)
}

/// The entries of downloads are those of exactly the files that came and could be parsed, in the
/// order of the downloads, each once, with the name of its file.
pub proof fn law_download_entries(downloads: Seq<Download>) -> (places: Seq<int>)
    ensures
        in_order(places, downloads.len()),
        download_entries(downloads).len() == places.len(),
        forall|k: int|
            0 <= k < places.len() ==> gives_entry(
                downloads[places[k]],
                #[trigger] download_entries(downloads)[k],
            ),
        forall|i: int, entry: EntryView|
            0 <= i < downloads.len() && #[trigger] gives_entry(downloads[i], entry)
                ==> places.contains(i),
    decreases downloads.len(),
{
    if downloads.len() == 0 {
        Seq::empty()
    } else {
        let shorter = downloads.drop_last();
        let last = downloads.last();
        let before = law_download_entries(shorter);
        lemma_one_more_place(before, shorter.len());
        let given = crate::remote::download_entry(last);
        if let Some(entry) = given {
            let content = received(last.reply)->Ok_0;
            assert(brings(last.reply, content));
            assert(gives_entry(last, entry));
        }
        let places = if given is Some {
            before.push(shorter.len() as int)
        } else {
            before
        };
        assert forall|k: int| 0 <= k < places.len() implies gives_entry(
            downloads[places[k]],
            #[trigger] download_entries(downloads)[k],
        ) by {
            if k < before.len() {
                assert(shorter[before[k]] == downloads[before[k]]);
                assert(download_entries(shorter)[k] == download_entries(downloads)[k]);
            }
        }
        assert forall|i: int, entry: EntryView|
            0 <= i < downloads.len() && #[trigger] gives_entry(
                downloads[i],
                entry,
            ) implies places.contains(i) by {
            if i < shorter.len() {
                assert(gives_entry(shorter[i], entry));
                assert(before.contains(i));
            } else {
                let content = choose|content: String| #[trigger]
                    brings(last.reply, content) && file_entry(last.file_name@, content@) == Some(
                        entry,
                    );
                assert(received(last.reply) == Ok::<String, FetchError>(content));
            }
            assert(before.push(shorter.len() as int).contains(i));
        }
        places
    }
}

/// Files whose contents are within the limits of the parser can be dealt with, whatever they hold
/// otherwise, as long as there are at most as many as an archive has room for.
pub proof fn law_what_can_be_dealt_with(files: Seq<ArchiveFile>, downloads: Seq<Download>)
    ensures
        files.len() <= 29_826_161 && (forall|i: int|
            0 <= i < files.len() && (#[trigger] files[i]).content is Some ==> within_limits(
                files[i].content->0@,
            )) ==> archive_within_limits(files),
        downloads.len() <= 29_826_161 && (forall|i: int, content: String|
            0 <= i < downloads.len() && #[trigger] brings(downloads[i].reply, content)
                ==> within_limits(content@)) ==> downloads_within_limits(downloads),
{
    if downloads.len() <= 29_826_161 && (forall|i: int, content: String|
        0 <= i < downloads.len() && #[trigger] brings(downloads[i].reply, content)
            ==> within_limits(content@)) {
        assert forall|i: int| 0 <= i < downloads.len() implies (received(
            (#[trigger] downloads[i]).reply,
        ) matches Ok(content) ==> within_limits(content@)) by {
            if let Ok(content) = received(downloads[i].reply) {
                assert(brings(downloads[i].reply, content));
            }
        }
    }
}

/// The line holds a character that is no white space: none of tab to carriage return, space, next
/// line, no-break space, Ogham space mark, the spaces from en quad to hair space, line and
/// paragraph separator, narrow no-break space, medium mathematical space and ideographic space.
pub open spec fn says_something(line: Seq<char>) -> bool {
    exists|i: int|
        0 <= i < line.len() && {
            let code = (#[trigger] line[i]) as int;
            !(9 <= code <= 13) && code != 0x20 && code != 0x85 && code != 0xa0 && code != 0x1680
                && !(0x2000 <= code <= 0x200a) && code != 0x2028 && code != 0x2029 && code != 0x202f
                && code != 0x205f && code != 0x3000
        }
}

proof fn lemma_blank(line: Seq<char>)
    ensures
        blank(line) <==> !says_something(line),
{
    if !blank(line) {
        let i = choose|i: int| 0 <= i < line.len() && !white_space(#[trigger] line[i]);
        assert(!white_space(line[i]));
        assert(says_something(line));
    }
    if says_something(line) {
        let i = choose|i: int|
            0 <= i < line.len() && {
                let code = (#[trigger] line[i]) as int;
                !(9 <= code <= 13) && code != 0x20 && code != 0x85 && code != 0xa0 && code != 0x1680
                    && !(0x2000 <= code <= 0x200a) && code != 0x2028 && code != 0x2029 && code
                    != 0x202f && code != 0x205f && code != 0x3000
            };
        assert(!white_space(line[i]));
    }
}

/// The lines that are handed on are exactly those that say something, in their order, each as often
/// as it stands there.
pub proof fn law_filled_lines(lines: Seq<Seq<char>>) -> (places: Seq<int>)
    ensures
        in_order(places, lines.len()),
        filled_lines(lines).len() == places.len(),
        forall|k: int|
            0 <= k < places.len() ==> #[trigger] filled_lines(lines)[k] == lines[places[k]],
        forall|i: int|
            0 <= i < lines.len() ==> (#[trigger] places.contains(i) <==> says_something(lines[i])),
    decreases lines.len(),
{
    if lines.len() == 0 {
        Seq::empty()
    } else {
        let shorter = lines.drop_last();
        let before = law_filled_lines(shorter);
        lemma_one_more_place(before, shorter.len());
        lemma_blank(lines.last());
        let places = if says_something(lines.last()) {
            before.push(shorter.len() as int)
        } else {
            before
        };
        assert forall|i: int| 0 <= i < lines.len() implies (#[trigger] places.contains(i)
            <==> says_something(lines[i])) by {
            assert(before.push(shorter.len() as int).contains(i) <==> before.contains(i) || i
                == shorter.len());
            if i < shorter.len() {
                assert(shorter[i] == lines[i]);
            }
        }
        assert forall|k: int| 0 <= k < places.len() implies #[trigger] filled_lines(lines)[k]
            == lines[places[k]] by {
            if k < before.len() {
                assert(filled_lines(shorter)[k] == filled_lines(lines)[k]);
                assert(shorter[before[k]] == lines[before[k]]);
            }
        }
        places
    }
}

/// The number of lines of the index that are handed on is the number of its lines that say
/// something.
pub proof fn law_number_of_index_lines(text: Seq<char>)
    ensures
        filled_lines(text_lines(text)).len() == vstd::set_lib::set_int_range(
            0,
            text_lines(text).len() as int,
        ).filter(|i: int| says_something(text_lines(text)[i])).len(),
{
    let lines = text_lines(text);
    let places = law_filled_lines(lines);
    let said = vstd::set_lib::set_int_range(0, lines.len() as int).filter(
        |i: int| says_something(text_lines(text)[i]),
    );
    assert forall|i: int| places.to_set().contains(i) <==> said.contains(i) by {
        if places.contains(i) {
            let k = places.index_of(i);
            assert(0 <= places[k] < lines.len());
        }
    }
    assert(places.to_set() =~= said);
    assert(places.no_duplicates());
    places.unique_seq_to_set();
}

/// A file is missing exactly where an entry of the index names it and it is not at hand, and no
/// missing file is listed twice.
pub proof fn law_missing_files(index: Seq<Option<IndexEntry>>, local: Set<Seq<char>>)
    ensures
        forall|name: Seq<char>| #[trigger]
            missing_files(index, local).contains(name) <==> !local.contains(name) && exists|i: int|
                0 <= i < index.len() && #[trigger] index[i] is Some
                    && index[i]->0.raw_lyric_file@ == name,
        forall|j: int, k: int|
            0 <= j < k < missing_files(index, local).len() ==> #[trigger] missing_files(
                index,
                local,
            )[j] != #[trigger] missing_files(index, local)[k],
{
    lemma_missing_files(index, local);
    assert forall|name: Seq<char>| #[trigger] missing_files(index, local).contains(name)
        <==> !local.contains(name) && exists|i: int|
        0 <= i < index.len() && #[trigger] index[i] is Some && index[i]->0.raw_lyric_file@
            == name by {
        if index_names(index, name) {
            let i = choose|i: int|
                0 <= i < index.len() && (#[trigger] index[i] matches Some(entry)
                    && entry.raw_lyric_file@ == name);
            assert(index[i] is Some);
        }
        if exists|i: int|
            0 <= i < index.len() && #[trigger] index[i] is Some && index[i]->0.raw_lyric_file@
                == name {
            let i = choose|i: int|
                0 <= i < index.len() && #[trigger] index[i] is Some
                    && index[i]->0.raw_lyric_file@ == name;
            assert(index_names(index, name));
        }
    }
}

/// Every address is that of the mirror with a path behind it, and that of a file has its name, as
/// it is, below `raw-lyrics`.
pub proof fn law_addresses(path: Seq<char>, name: Seq<char>)
    ensures
        remote_url(path) == "https://amlldb.bikonoo.com"@ + path,
        file_url(name) == "https://amlldb.bikonoo.com/raw-lyrics/"@ + name,
{
    reveal_strlit("https://amlldb.bikonoo.com");
    reveal_strlit("/raw-lyrics/");
    reveal_strlit("https://amlldb.bikonoo.com/raw-lyrics/");
    assert("https://amlldb.bikonoo.com"@ + "/raw-lyrics/"@
        =~= "https://amlldb.bikonoo.com/raw-lyrics/"@);
}

/// There is one request for each name, in the order of the names, with the address of the file.
pub proof fn law_requests(requests: Seq<FileRequest>, names: Seq<Seq<char>>)
    ensures
        are_requests(requests, names) ==> requests.len() == names.len() && forall|i: int|
            0 <= i < requests.len() ==> (#[trigger] requests[i]).file_name@ == names[i]
                && requests[i].url@ == "https://amlldb.bikonoo.com/raw-lyrics/"@ + names[i],
{
    assert forall|i: int| are_requests(requests, names) && 0 <= i < requests.len() implies (
    #[trigger] requests[i]).file_name@ == names[i] && requests[i].url@
        == "https://amlldb.bikonoo.com/raw-lyrics/"@ + names[i] by {
        law_addresses(Seq::empty(), names[i]);
    }
}

} // verus!
