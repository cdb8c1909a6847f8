//! What the remote collection sends: the replies, the index, single files and the whole archive.

use vstd::hash_set::StringHashSet;
use vstd::prelude::*;

use crate::archive::{entry_views, MAX_ROWS};
use crate::limits::within_limits;
use crate::model::{EntryView, IndexEntry, TtmlEntry};
use crate::text::{lines, text_lines, to_chars, views};
use crate::ttml::{file_entry, parse_entry};

verus! {

/// Where the remote collection is found.
pub const MIRROR_BASE: &'static str = "https://amlldb.bikonoo.com";

/// What came of a request.
#[derive(Debug, Clone)]
pub enum Reply<T> {
    /// No answer came.
    Unreachable,
    /// An answer came. There is no body where it could not be read.
    Answered { status: u16, body: Option<T> },
}

/// Why a request gave no body.
#[derive(Debug, Clone, Copy, PartialEq, Eq, Structural)]
pub enum FetchError {
    /// No answer came.
    Unreachable,
    /// The answer reports an error.
    Status(u16),
    /// The body of the answer could not be read.
    Unreadable,
}

/// A file of the archive of the whole collection.
#[derive(Debug, Clone)]
pub struct ArchiveFile {
    pub name: String,
    pub is_dir: bool,
    /// What the file holds, where it could be read as text.
    pub content: Option<String>,
}

/// What came of the download of a file.
#[derive(Debug, Clone)]
pub struct Download {
    pub file_name: String,
    pub reply: Reply<String>,
}

/// A file to download.
#[derive(Debug, Clone)]
pub struct FileRequest {
    pub file_name: String,
    pub url: String,
}

/// The status reports success.
pub open spec fn success_status(status: u16) -> bool {
    200 <= status < 300
}

/// Tells whether the status of an answer reports success.
pub fn is_success(status: u16) -> (res: bool)
    ensures
        res == success_status(status),
{
    200 <= status && status < 300
}

/// The body that a reply brings, or why there is none.
pub open spec fn received<T>(reply: Reply<T>) -> Result<T, FetchError> {
    match reply {
        Reply::Unreachable => Err(FetchError::Unreachable),
        Reply::Answered { status, body } => if !success_status(status) {
            Err(FetchError::Status(status))
        } else {
            match body {
                Some(body) => Ok(body),
                None => Err(FetchError::Unreadable),
            }
        },
    }
}

/// Takes the body out of a reply.
pub fn receive<T>(reply: Reply<T>) -> (res: Result<T, FetchError>)
    ensures
        res == received(reply),
{
    match reply {
        Reply::Unreachable => Err(FetchError::Unreachable),
        Reply::Answered { status, body } => if !is_success(status) {
            Err(FetchError::Status(status))
        } else {
            match body {
                Some(body) => Ok(body),
                None => Err(FetchError::Unreadable),
            }
        },
    }
}

/// The file is one of lyrics.
pub open spec fn lyric_file(name: Seq<char>, is_dir: bool) -> bool {
    !is_dir && name.len() >= 5 && name.skip(name.len() - 5) == ".ttml"@
}

/// Tells whether a file of the archive is one of lyrics.
pub fn is_lyric_file(name: &str, is_dir: bool) -> (res: bool)
    ensures
        res == lyric_file(name@, is_dir),
{
    let chars = to_chars(name);
    if is_dir || chars.len() < 5 {
        return false;
    }
    let start: usize = chars.len() - 5;
    proof {
        reveal_strlit(".ttml");
    }
    let res = chars[start] == '.' && chars[start + 1] == 't' && chars[start + 2] == 't'
        && chars[start + 3] == 'm' && chars[start + 4] == 'l';
    proof {
        let tail = name@.skip(start as int);
        assert(tail[0] == chars@[start as int]);
        assert(tail[1] == chars@[start + 1]);
        assert(tail[2] == chars@[start + 2]);
        assert(tail[3] == chars@[start + 3]);
        assert(tail[4] == chars@[start + 4]);
        if res {
            assert(tail =~= ".ttml"@);
        }
    }
    res
}

/// The entry that a file of the archive gives, if it is one of lyrics that can be read and parsed.
pub open spec fn archive_entry(file: ArchiveFile) -> Option<EntryView> {
    match file.content {
        Some(content) => if lyric_file(file.name@, file.is_dir) {
            file_entry(file.name@, content@)
        } else {
            None
        },
        None => None,
    }
}

/// The entries that the files of the archive give, in their order.
pub open spec fn archive_entries(files: Seq<ArchiveFile>) -> Seq<EntryView>
    decreases files.len(),
{
    if files.len() == 0 {
        Seq::empty()
    } else {
        let before = archive_entries(files.drop_last());
        match archive_entry(files.last()) {
            Some(entry) => before.push(entry),
            None => before,
        }
    }
}

/// The parser can take on every file of lyrics, and the entries fit into an archive.
pub open spec fn archive_within_limits(files: Seq<ArchiveFile>) -> bool {
    &&& files.len() <= MAX_ROWS
    &&& forall|i: int|
        0 <= i < files.len() && lyric_file((#[trigger] files[i]).name@, files[i].is_dir) ==> (
        files[i].content matches Some(content) ==> within_limits(content@))
}

/// Parses the files of lyrics in the archive. Files that cannot be read or parsed are left out.
pub fn parse_archive(files: Vec<ArchiveFile>) -> (entries: Vec<TtmlEntry>)
    requires
        archive_within_limits(files@),
    ensures
        entry_views(entries@) == archive_entries(files@),
        entries@.len() <= files@.len(),
{
    let mut entries: Vec<TtmlEntry> = Vec::new();
    let ghost all = files@;
    assert(entry_views(entries@) =~= archive_entries(all.take(0)));
    for file in iter: files
        invariant
            iter.seq() == all,
            archive_within_limits(all),
            entry_views(entries@) == archive_entries(all.take(iter.index() as int)),
            entries@.len() <= iter.index(),
    {
        let ghost i = iter.index() as int;
        let ghost before = entries@;
        assert(file == all[i]);
        assert(all.take(i + 1).drop_last() =~= all.take(i));
        if is_lyric_file(file.name.as_str(), file.is_dir) {
            if let Some(content) = file.content {
                if let Some(entry) = parse_entry(file.name, content) {
                    entries.push(entry);
                    assert(entry_views(entries@) =~= entry_views(before).push(entry@));
                }
            }
        }
    }
    assert(all.take(all.len() as int) =~= all);
    entries
}

/// The entry that a download gives, if it brought a file that can be parsed.
pub open spec fn download_entry(download: Download) -> Option<EntryView> {
    match received(download.reply) {
        Ok(content) => file_entry(download.file_name@, content@),
        Err(_) => None,
    }
}

/// The entries that the downloads give, in their order.
pub open spec fn download_entries(downloads: Seq<Download>) -> Seq<EntryView>
    decreases downloads.len(),
{
    if downloads.len() == 0 {
        Seq::empty()
    } else {
        let before = download_entries(downloads.drop_last());
        match download_entry(downloads.last()) {
            Some(entry) => before.push(entry),
            None => before,
        }
    }
}

/// The parser can take on every file that came, and the entries fit into an archive.
pub open spec fn downloads_within_limits(downloads: Seq<Download>) -> bool {
    &&& downloads.len() <= MAX_ROWS
    &&& forall|i: int|
        0 <= i < downloads.len() ==> (received((#[trigger] downloads[i]).reply) matches Ok(content)
            ==> within_limits(content@))
}

/// Parses the files that were downloaded. Those that did not come or cannot be parsed are left out.
pub fn parse_downloads(downloads: Vec<Download>) -> (entries: Vec<TtmlEntry>)
    requires
        downloads_within_limits(downloads@),
    ensures
        entry_views(entries@) == download_entries(downloads@),
        entries@.len() <= downloads@.len(),
{
    let mut entries: Vec<TtmlEntry> = Vec::new();
    let ghost all = downloads@;
    assert(entry_views(entries@) =~= download_entries(all.take(0)));
    for download in iter: downloads
        invariant
            iter.seq() == all,
            downloads_within_limits(all),
            entry_views(entries@) == download_entries(all.take(iter.index() as int)),
            entries@.len() <= iter.index(),
    {
        let ghost i = iter.index() as int;
        let ghost before = entries@;
        assert(download == all[i]);
        assert(all.take(i + 1).drop_last() =~= all.take(i));
        if let Ok(content) = receive(download.reply) {
            if let Some(entry) = parse_entry(download.file_name, content) {
                entries.push(entry);
                assert(entry_views(entries@) =~= entry_views(before).push(entry@));
            }
        }
    }
    assert(all.take(all.len() as int) =~= all);
    entries
}

/// The entries of the downloads are exactly those that single downloads give, and each has the
/// name of its file as its path.
pub proof fn lemma_download_entries(downloads: Seq<Download>, entry: EntryView)
    ensures
        download_entries(downloads).contains(entry) <==> exists|i: int|
            0 <= i < downloads.len() && download_entry(#[trigger] downloads[i]) == Some(entry),
        download_entries(downloads).contains(entry) ==> exists|i: int|
            0 <= i < downloads.len() && (#[trigger] downloads[i]).file_name@ == entry.file_path,
    decreases downloads.len(),
{
    if downloads.len() > 0 {
        let shorter = downloads.drop_last();
        let before = download_entries(shorter);
        let all = download_entries(downloads);
        lemma_download_entries(shorter, entry);
        if before.contains(entry) {
            let i = choose|i: int|
                0 <= i < shorter.len() && download_entry(#[trigger] shorter[i]) == Some(entry);
            assert(downloads[i] == shorter[i]);
            let k = before.index_of(entry);
            assert(all[k] == entry);
        }
        if download_entry(downloads.last()) == Some(entry) {
            assert(downloads[downloads.len() - 1] == downloads.last());
            assert(all[before.len() as int] == entry);
        }
        if all.contains(entry) && !before.contains(entry) {
            let k = all.index_of(entry);
            assert(k == before.len());
            assert(download_entry(downloads[downloads.len() - 1]) == Some(entry));
        }
        assert forall|i: int|
            0 <= i < downloads.len() && download_entry(#[trigger] downloads[i]) == Some(
                entry,
            ) implies all.contains(entry) by {
            if i < shorter.len() {
                assert(shorter[i] == downloads[i]);
            }
        }
    }
}

/// The entries of the archive are exactly those that single files give, and each has the name of
/// its file as its path: the name of a file of lyrics.
pub proof fn lemma_archive_entries(files: Seq<ArchiveFile>, entry: EntryView)
    ensures
        archive_entries(files).contains(entry) <==> exists|i: int|
            0 <= i < files.len() && archive_entry(#[trigger] files[i]) == Some(entry),
        archive_entries(files).contains(entry) ==> lyric_file(entry.file_path, false),
        archive_entries(files).len() <= files.len(),
    decreases files.len(),
{
    if files.len() > 0 {
        let shorter = files.drop_last();
        let before = archive_entries(shorter);
        let all = archive_entries(files);
        lemma_archive_entries(shorter, entry);
        if before.contains(entry) {
            let i = choose|i: int|
                0 <= i < shorter.len() && archive_entry(#[trigger] shorter[i]) == Some(entry);
            assert(files[i] == shorter[i]);
            let k = before.index_of(entry);
            assert(all[k] == entry);
        }
        if archive_entry(files.last()) == Some(entry) {
            assert(files[files.len() - 1] == files.last());
            assert(all[before.len() as int] == entry);
        }
        if all.contains(entry) && !before.contains(entry) {
            let k = all.index_of(entry);
            assert(k == before.len());
            assert(archive_entry(files[files.len() - 1]) == Some(entry));
        }
        assert forall|i: int|
            0 <= i < files.len() && archive_entry(#[trigger] files[i]) == Some(
                entry,
            ) implies all.contains(entry) by {
            if i < shorter.len() {
                assert(shorter[i] == files[i]);
            }
        }
    }
}

/// White space, by the property `White_Space` of Unicode.
pub open spec fn white_space(c: char) -> bool {
    ||| '\u{9}' <= c <= '\u{d}'
    ||| c == ' '
    ||| c == '\u{85}'
    ||| c == '\u{a0}'
    ||| c == '\u{1680}'
    ||| '\u{2000}' <= c <= '\u{200a}'
    ||| c == '\u{2028}'
    ||| c == '\u{2029}'
    ||| c == '\u{202f}'
    ||| c == '\u{205f}'
    ||| c == '\u{3000}'
}

/// The line holds nothing but white space.
pub open spec fn blank(line: Seq<char>) -> bool {
    forall|i: int| 0 <= i < line.len() ==> white_space(#[trigger] line[i])
}

/// The lines that are not blank, in their order.
pub open spec fn filled_lines(lines: Seq<Seq<char>>) -> Seq<Seq<char>>
    decreases lines.len(),
{
    if lines.len() == 0 {
        Seq::empty()
    } else {
        let before = filled_lines(lines.drop_last());
        if blank(lines.last()) {
            before
        } else {
            before.push(lines.last())
        }
    }
}

fn is_white_space(c: char) -> (res: bool)
    ensures
        res == white_space(c),
{
    ('\u{9}' <= c && c <= '\u{d}') || c == ' ' || c == '\u{85}' || c == '\u{a0}' || c == '\u{1680}'
        || ('\u{2000}' <= c && c <= '\u{200a}') || c == '\u{2028}' || c == '\u{2029}' || c
        == '\u{202f}' || c == '\u{205f}' || c == '\u{3000}'
}

fn is_blank(line: &str) -> (res: bool)
    ensures
        res == blank(line@),
{
    let chars = to_chars(line);
    let mut i: usize = 0;
    while i < chars.len()
        invariant
            i <= chars@.len(),
            chars@ == line@,
            forall|k: int| 0 <= k < i ==> white_space(#[trigger] line@[k]),
        decreases chars@.len() - i,
    {
        if !is_white_space(chars[i]) {
            assert(!white_space(line@[i as int]));
            return false;
        }
        i = i + 1;
    }
    true
}

/// The lines of the index that say something.
pub fn index_lines(text: &str) -> (res: Vec<String>)
    ensures
        views(res@) == filled_lines(text_lines(text@)),
{
    let all = lines(text);
    let ghost model = views(all@);
    let mut res: Vec<String> = Vec::new();
    assert(views(res@) =~= filled_lines(model.take(0)));
    for line in iter: all
        invariant
            model == views(iter.seq()),
            views(res@) == filled_lines(model.take(iter.index() as int)),
    {
        let ghost i = iter.index() as int;
        let ghost before = res@;
        assert(model[i] == line@);
        assert(model.take(i + 1).drop_last() =~= model.take(i));
        if !is_blank(line.as_str()) {
            res.push(line);
            assert(views(res@) =~= views(before).push(line@));
        }
    }
    assert(model.take(model.len() as int) =~= model);
    res
}

/// The files of the index that are not at hand, each once, in the order of the index.
pub open spec fn missing_files(index: Seq<Option<IndexEntry>>, local: Set<Seq<char>>) -> Seq<
    Seq<char>,
>
    decreases index.len(),
{
    if index.len() == 0 {
        Seq::empty()
    } else {
        let before = missing_files(index.drop_last(), local);
        match index.last() {
            Some(entry) => {
                let name = entry.raw_lyric_file@;
                if local.contains(name) || before.contains(name) {
                    before
                } else {
                    before.push(name)
                }
            },
            None => before,
        }
    }
}

/// The index names the file.
pub open spec fn index_names(index: Seq<Option<IndexEntry>>, name: Seq<char>) -> bool {
    exists|i: int|
        0 <= i < index.len() && (#[trigger] index[i] matches Some(entry)
            && entry.raw_lyric_file@ == name)
}

/// Exactly those files are missing that the index names and that are not at hand, and no file is
/// listed twice.
pub proof fn lemma_missing_files(index: Seq<Option<IndexEntry>>, local: Set<Seq<char>>)
    ensures
        forall|name: Seq<char>| #[trigger]
            missing_files(index, local).contains(name) <==> index_names(index, name)
                && !local.contains(name),
        missing_files(index, local).no_duplicates(),
    decreases index.len(),
{
    let missing = missing_files(index, local);
    if index.len() > 0 {
        let shorter = index.drop_last();
        let before = missing_files(shorter, local);
        lemma_missing_files(shorter, local);
        assert forall|name: Seq<char>| #[trigger] missing.contains(name) <==> index_names(
            index,
            name,
        ) && !local.contains(name) by {
            if index_names(shorter, name) {
                let i = choose|i: int|
                    0 <= i < shorter.len() && (#[trigger] shorter[i] matches Some(entry)
                        && entry.raw_lyric_file@ == name);
                assert(index[i] == shorter[i]);
            }
            if index_names(index, name) && !index_names(shorter, name) {
                let i = choose|i: int|
                    0 <= i < index.len() && (#[trigger] index[i] matches Some(entry)
                        && entry.raw_lyric_file@ == name);
                if i < shorter.len() {
                    assert(shorter[i] == index[i]);
                }
                assert(i == index.len() - 1);
            }
            if let Some(entry) = index.last() {
                let last = entry.raw_lyric_file@;
                assert(index[index.len() - 1] == index.last());
                assert(index_names(index, last));
                if !local.contains(last) && !before.contains(last) {
                    assert(missing =~= before.push(last));
                    assert(missing[before.len() as int] == last);
                    if before.contains(name) {
                        let k = before.index_of(name);
                        assert(missing[k] == name);
                    }
                }
            }
        }
    }
}

/// The names of the files of the index that are not at hand.
pub fn select_missing(index: &Vec<Option<IndexEntry>>, local: &StringHashSet) -> (names: Vec<
    String,
>)
    ensures
        views(names@) == missing_files(index@, local@),
{
    let mut names: Vec<String> = Vec::new();
    let mut chosen = StringHashSet::new();
    let mut i: usize = 0;
    assert(views(names@) =~= missing_files(index@.take(0), local@));
    while i < index.len()
        invariant
            i <= index@.len(),
            views(names@) == missing_files(index@.take(i as int), local@),
            forall|name: Seq<char>| #[trigger]
                chosen@.contains(name) <==> views(names@).contains(name),
        decreases index@.len() - i,
    {
        assert(index@.take(i + 1).drop_last() =~= index@.take(i as int));
        if let Some(entry) = &index[i] {
            let name = entry.raw_lyric_file.as_str();
            if !local.contains(name) && !chosen.contains(name) {
                let ghost before = views(names@);
                names.push(entry.raw_lyric_file.clone());
                chosen.insert(entry.raw_lyric_file.clone());
                proof {
                    assert(views(names@) =~= before.push(name@));
                    assert forall|other: Seq<char>| #[trigger]
                        chosen@.contains(other) <==> views(names@).contains(other) by {
                        if before.contains(other) {
                            let k = before.index_of(other);
                            assert(views(names@)[k] == other);
                        }
                        assert(views(names@)[before.len() as int] == name@);
                    }
                }
            }
        }
        i = i + 1;
    }
    assert(index@.take(i as int) =~= index@);
    names
}

/// The address of something of the remote collection.
pub open spec fn remote_url(path: Seq<char>) -> Seq<char> {
    MIRROR_BASE@ + path
}

/// The address of a file of lyrics.
pub open spec fn file_url(name: Seq<char>) -> Seq<char> {
    MIRROR_BASE@ + "/raw-lyrics/"@ + name
}

/// Makes the address of something of the remote collection.
pub fn make_url(path: &str) -> (url: String)
    ensures
        url@ == remote_url(path@),
{
    let mut url = String::from_str(MIRROR_BASE);
    url.append(path);
    url
}

/// The requests ask for the files with these names.
pub open spec fn are_requests(requests: Seq<FileRequest>, names: Seq<Seq<char>>) -> bool {
    requests.len() == names.len() && forall|i: int|
        0 <= i < names.len() ==> (#[trigger] requests[i]).file_name@ == names[i]
            && requests[i].url@ == file_url(names[i])
}

/// The requests for the files with the names.
pub fn make_requests(names: Vec<String>) -> (requests: Vec<FileRequest>)
    ensures
        are_requests(requests@, views(names@)),
{
    let mut requests: Vec<FileRequest> = Vec::new();
    let ghost all = names@;
    for name in iter: names
        invariant
            iter.seq() == all,
            are_requests(requests@, views(all).take(iter.index() as int)),
    {
        let ghost i = iter.index() as int;
        assert(views(all)[i] == name@);
        let mut url = make_url("/raw-lyrics/");
        url.append(name.as_str());
        requests.push(FileRequest { file_name: name, url });
        assert forall|k: int| 0 <= k < i + 1 implies (#[trigger] requests@[k]).file_name@ == views(
            all,
        ).take(i + 1)[k] && requests@[k].url@ == file_url(views(all).take(i + 1)[k]) by {
            if k < i {
                assert(views(all).take(i)[k] == views(all).take(i + 1)[k]);
            }
        }
    }
    assert(views(all).take(all.len() as int) =~= views(all));
    requests
}

} // verus!
