//! The archived form of entries: a row of nine texts for each of them.

use vstd::prelude::*;
use vstd::utf8::encode_utf8;

use crate::model::{EntryView, TtmlEntry};
use crate::text::views;

verus! {

/// The largest size, in bytes, within which rows can be stored and read back: the archive refers
/// to its texts by signed offsets of 32 bits.
pub const MAX_ARCHIVE_SIZE: usize = 0x8000_0000;

/// The largest size of a text, in bytes, that the row itself holds.
pub const INLINE_SIZE: usize = 7;

/// The bytes that a row takes in an archive besides its texts.
pub const ROW_SIZE: usize = 72;

/// The largest number of rows that an archive can hold.
pub const MAX_ROWS: usize = 29_826_161;

/// What `rkyv::to_bytes` makes of the rows.
pub uninterp spec fn archived_rows(rows: Seq<Seq<Seq<char>>>) -> Seq<u8>;

/// What `rkyv::from_bytes` reads from the bytes, or nothing where it rejects them.
pub uninterp spec fn unarchived_rows(bytes: Seq<u8>) -> Option<Seq<Seq<Seq<char>>>>;

/// The views of the texts in each row.
pub open spec fn row_views(rows: Seq<[String; 9]>) -> Seq<Seq<Seq<char>>> {
    rows.map_values(|row: [String; 9]| views(row@))
}

/// The number of bytes that a text takes in an archive besides its row: those of its UTF-8 form,
/// or none where that is so short that the row itself holds it.
pub open spec fn outside_size(text: Seq<char>) -> nat {
    let size = encode_utf8(text).len();
    if size > INLINE_SIZE {
        size
    } else {
        0
    }
}

/// The number of bytes that the texts of a row take besides the row.
pub open spec fn row_text_size(row: Seq<Seq<char>>) -> nat
    decreases row.len(),
{
    if row.len() == 0 {
        0
    } else {
        row_text_size(row.drop_last()) + outside_size(row.last())
    }
}

/// The number of bytes that the texts of the rows take besides the rows.
pub open spec fn text_size(rows: Seq<Seq<Seq<char>>>) -> nat
    decreases rows.len(),
{
    if rows.len() == 0 {
        0
    } else {
        text_size(rows.drop_last()) + row_text_size(rows.last())
    }
}

/// The size of the archive: the texts, filled up to a multiple of four bytes, the rows, and the
/// root of eight bytes.
pub open spec fn archive_size(rows: Seq<Seq<Seq<char>>>) -> int {
    (text_size(rows) + 3) / 4 * 4 + ROW_SIZE * rows.len() + 8
}

/// The texts of rows put behind others take up their room besides that of the others.
pub proof fn lemma_text_size_of_appended(rows: Seq<Seq<Seq<char>>>, more: Seq<Seq<Seq<char>>>)
    ensures
        text_size(rows + more) == text_size(rows) + text_size(more),
    decreases more.len(),
{
    if more.len() == 0 {
        assert(rows + more =~= rows);
    } else {
        assert((rows + more).drop_last() =~= rows + more.drop_last());
        lemma_text_size_of_appended(rows, more.drop_last());
    }
}

/// Calls `rkyv::to_bytes` on the rows. The result depends on the texts alone: padding is written
/// as zeros and integers in little-endian order. It fails on no rows, as memory is the only thing
/// that it writes to. Texts longer than `INLINE_SIZE` bytes are written first, one behind the
/// other, then the rows, then the root, which gives the size of the archive. Where that is at most
/// `MAX_ARCHIVE_SIZE`, no offset in it is cut off and `rkyv::from_bytes` reads the same rows back.
/// With more rows than `MAX_ROWS` the offset of the first row would not fit, and the call would
/// panic.
#[verifier::external_body]
pub(crate) fn archive_rows(rows: &Vec<[String; 9]>) -> (bytes: Vec<u8>)
    requires
        0 < rows@.len() <= MAX_ROWS,
    ensures
        bytes@ == archived_rows(row_views(rows@)),
        bytes@.len() == archive_size(row_views(rows@)),
        archive_size(row_views(rows@)) <= MAX_ARCHIVE_SIZE ==> unarchived_rows(bytes@) == Some(
            row_views(rows@),
        ),
{
    rkyv::to_bytes::<_, 256>(rows).unwrap().into_vec()
}

/// Calls `rkyv::from_bytes` on an aligned copy of the bytes, and gives nothing where that reports
/// an error. The call checks every offset, length and text before it reads the rows, which lie
/// within the bytes.
#[verifier::external_body]
pub(crate) fn unarchive_rows(bytes: &[u8]) -> (rows: Option<Vec<[String; 9]>>)
    ensures
        match rows {
            Some(rows) => unarchived_rows(bytes@) == Some(row_views(rows@)) && ROW_SIZE
                * rows@.len() <= bytes@.len(),
            None => unarchived_rows(bytes@) is None,
        },
{
    let mut aligned = rkyv::AlignedVec::with_capacity(bytes.len());
    aligned.extend_from_slice(bytes);
    rkyv::from_bytes::<Vec<[String; 9]>>(&aligned).ok()
}

/// The texts of an entry, in the order of its fields.
pub open spec fn entry_row(entry: EntryView) -> Seq<Seq<char>> {
    seq![
        entry.file_path,
        entry.title,
        entry.artist,
        entry.album,
        entry.author_ids,
        entry.author_names,
        entry.lyric_text,
        entry.bg_vocal_text,
        entry.raw_ttml,
    ]
}

/// The entry whose texts stand in the row.
pub open spec fn row_entry(row: Seq<Seq<char>>) -> EntryView {
    EntryView {
        file_path: row[0],
        title: row[1],
        artist: row[2],
        album: row[3],
        author_ids: row[4],
        author_names: row[5],
        lyric_text: row[6],
        bg_vocal_text: row[7],
        raw_ttml: row[8],
    }
}

/// The rows of the entries.
pub open spec fn entry_rows(entries: Seq<EntryView>) -> Seq<Seq<Seq<char>>> {
    entries.map_values(|entry: EntryView| entry_row(entry))
}

/// The entries whose texts stand in the rows.
pub open spec fn row_entries(rows: Seq<Seq<Seq<char>>>) -> Seq<EntryView> {
    rows.map_values(|row: Seq<Seq<char>>| row_entry(row))
}

/// The views of a sequence of entries.
pub open spec fn entry_views(entries: Seq<TtmlEntry>) -> Seq<EntryView> {
    entries.map_values(|entry: TtmlEntry| entry@)
}

/// Entries come back from their rows.
pub proof fn lemma_rows_of_entries(entries: Seq<EntryView>)
    ensures
        row_entries(entry_rows(entries)) == entries,
{
    assert forall|i: int| 0 <= i < entries.len() implies row_entries(entry_rows(entries))[i]
        == entries[i] by {
        assert(entry_rows(entries)[i] == entry_row(entries[i]));
    }
    assert(row_entries(entry_rows(entries)) =~= entries);
}

fn to_row(entry: &TtmlEntry) -> (row: [String; 9])
    ensures
        views(row@) == entry_row(entry@),
{
    let row: [String; 9] = [
        entry.file_path.clone(),
        entry.title.clone(),
        entry.artist.clone(),
        entry.album.clone(),
        entry.author_ids.clone(),
        entry.author_names.clone(),
        entry.lyric_text.clone(),
        entry.bg_vocal_text.clone(),
        entry.raw_ttml.clone(),
    ];
    assert(views(row@) =~= entry_row(entry@));
    row
}

/// The rows of the entries.
pub(crate) fn to_rows(entries: &[TtmlEntry]) -> (rows: Vec<[String; 9]>)
    ensures
        row_views(rows@) == entry_rows(entry_views(entries@)),
{
    let mut rows: Vec<[String; 9]> = Vec::new();
    let mut i: usize = 0;
    while i < entries.len()
        invariant
            i <= entries@.len(),
            row_views(rows@) == entry_rows(entry_views(entries@)).take(i as int),
        decreases entries@.len() - i,
    {
        let ghost before = rows@;
        let row = to_row(&entries[i]);
        rows.push(row);
        proof {
            assert(row_views(rows@) =~= row_views(before).push(views(row@)));
            assert(entry_rows(entry_views(entries@)).take(i + 1) =~= entry_rows(
                entry_views(entries@),
            ).take(i as int).push(entry_row(entries@[i as int]@)));
        }
        i = i + 1;
    }
    assert(entry_rows(entry_views(entries@)).take(i as int) =~= entry_rows(
        entry_views(entries@),
    ));
    rows
}

/// The entry whose texts stand in the row.
pub(crate) fn from_row(row: &[String; 9]) -> (entry: TtmlEntry)
    ensures
        entry@ == row_entry(views(row@)),
{
    TtmlEntry {
        file_path: row[0].clone(),
        title: row[1].clone(),
        artist: row[2].clone(),
        album: row[3].clone(),
        author_ids: row[4].clone(),
        author_names: row[5].clone(),
        lyric_text: row[6].clone(),
        bg_vocal_text: row[7].clone(),
        raw_ttml: row[8].clone(),
    }
}

} // verus!
