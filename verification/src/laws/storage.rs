//! The rows, the blocks and the file.

use vstd::bytes::{spec_u32_from_le_bytes, spec_u32_to_le_bytes};
use vstd::prelude::*;
use vstd::utf8::encode_utf8;

use crate::archive::{
    archive_size, archived_rows, entry_row, entry_rows, entry_views, lemma_text_size_of_appended,
    row_entries, row_entry, row_text_size, row_views, text_size, unarchived_rows, MAX_ROWS,
};
use crate::block::{block_bytes, is_whole, left_over, lemma_block, stored_entries, BLOCK_MAGIC};
use crate::model::{EntryView, TtmlEntry};
use crate::writer::{adds_entries, fits_block, is_storable, payload_bytes, written_bytes};

verus! {

/// The row holds the nine texts of the entry, in the order of its fields.
pub open spec fn is_row_of(row: Seq<Seq<char>>, entry: EntryView) -> bool {
    &&& row.len() == 9
    &&& row[0] == entry.file_path
    &&& row[1] == entry.title
    &&& row[2] == entry.artist
    &&& row[3] == entry.album
    &&& row[4] == entry.author_ids
    &&& row[5] == entry.author_names
    &&& row[6] == entry.lyric_text
    &&& row[7] == entry.bg_vocal_text
    &&& row[8] == entry.raw_ttml
}

/// The rows are as many as the entries, each that of the entry in its place.
pub open spec fn are_rows_of(rows: Seq<Seq<Seq<char>>>, entries: Seq<EntryView>) -> bool {
    &&& rows.len() == entries.len()
    &&& forall|i: int| 0 <= i < rows.len() ==> is_row_of(#[trigger] rows[i], entries[i])
}

/// The views of a list are as many as its items, each that of the item in its place.
pub proof fn law_list_views(entries: Seq<TtmlEntry>, rows: Seq<[String; 9]>)
    ensures
        entry_views(entries).len() == entries.len(),
        forall|i: int| 0 <= i < entries.len() ==> #[trigger] entry_views(entries)[i] == entries[i]@,
        row_views(rows).len() == rows.len(),
        forall|i: int, k: int|
            0 <= i < rows.len() && 0 <= k < 9 ==> #[trigger] row_views(rows)[i][k]
                == rows[i]@[k]@,
{
}

/// Entries are made rows of, and rows entries, text by text and in their order.
pub proof fn law_rows(entries: Seq<EntryView>, rows: Seq<Seq<Seq<char>>>)
    ensures
        are_rows_of(entry_rows(entries), entries),
        row_entries(rows).len() == rows.len(),
        forall|i: int|
            0 <= i < rows.len() && (#[trigger] rows[i]).len() == 9 ==> is_row_of(
                rows[i],
                row_entries(rows)[i],
            ),
{
    assert forall|i: int| 0 <= i < rows.len() && (#[trigger] rows[i]).len() == 9 implies is_row_of(
        rows[i],
        row_entries(rows)[i],
    ) by {
        assert(row_entries(rows)[i] == row_entry(rows[i]));
    }
}

/// A block with the four bytes `ttml`, the length of its payload and the payload.
pub open spec fn plain_block(payload: Seq<u8>) -> Seq<u8> {
    seq![0x74u8, 0x74u8, 0x6du8, 0x6cu8] + spec_u32_to_le_bytes(payload.len() as u32) + payload
}

/// The entries of a readable block are read first, text by text, and then what follows the block.
/// Reading ends at a block that is not readable, and nothing of it is read.
pub proof fn law_read_block(payload: Seq<u8>, rest: Seq<u8>)
    requires
        payload.len() <= u32::MAX,
    ensures
        ({
            let data = plain_block(payload) + rest;
            let read = stored_entries(data);
            match unarchived_rows(payload) {
                Some(rows) => {
                    &&& read.len() == rows.len() + stored_entries(rest).len()
                    &&& forall|i: int|
                        0 <= i < rows.len() && (#[trigger] rows[i]).len() == 9 ==> is_row_of(
                            rows[i],
                            read[i],
                        )
                    &&& forall|i: int|
                        0 <= i < stored_entries(rest).len() ==> read[rows.len() + i]
                            == #[trigger] stored_entries(rest)[i]
                    &&& is_whole(data) == is_whole(rest)
                    &&& left_over(data) == left_over(rest)
                },
                None => {
                    &&& read.len() == 0
                    &&& !is_whole(data)
                    &&& left_over(data) == data
                },
            }
        }),
{
    assert(BLOCK_MAGIC@ =~= seq![0x74u8, 0x74u8, 0x6du8, 0x6cu8]);
    assert(plain_block(payload) == block_bytes(payload));
    lemma_block(payload, rest);
    if let Some(rows) = unarchived_rows(payload) {
        law_rows(Seq::empty(), rows);
        let read = stored_entries(plain_block(payload) + rest);
        assert(read =~= row_entries(rows) + stored_entries(rest));
        assert forall|i: int| 0 <= i < rows.len() && (#[trigger] rows[i]).len() == 9 implies
            is_row_of(rows[i], read[i]) by {
            assert(read[i] == row_entries(rows)[i]);
        }
    }
}

/// Nothing is read where there are fewer bytes than a header has, where they do not start with the
/// four bytes `ttml`, or where the payload is shorter than the header says. In the last case the
/// header counts as read.
pub proof fn law_read_no_block(data: Seq<u8>)
    requires
        data.len() < 8 || data[0] != 0x74 || data[1] != 0x74 || data[2] != 0x6d || data[3] != 0x6c
            || 8 + spec_u32_from_le_bytes(data.subrange(4, 8)) > data.len(),
    ensures
        stored_entries(data).len() == 0,
        is_whole(data) <==> data.len() == 0,
        left_over(data) == (if data.len() >= 8 && data[0] == 0x74 && data[1] == 0x74 && data[2]
            == 0x6d && data[3] == 0x6c {
            data.skip(8)
        } else {
            data
        }),
{
    if data.len() >= 8 {
        if data.take(4) == BLOCK_MAGIC@ {
            assert(data.take(4)[0] == data[0]);
            assert(data.take(4)[1] == data[1]);
            assert(data.take(4)[2] == data[2]);
            assert(data.take(4)[3] == data[3]);
        } else if data[0] == 0x74 && data[1] == 0x74 && data[2] == 0x6d && data[3] == 0x6c {
            assert(data.take(4) =~= BLOCK_MAGIC@);
        }
    }
}

/// No entries are written as no bytes, and other entries as one block, whose payload is what
/// `rkyv` makes of the rows of all of them. Entries whose payload is longer than four bytes can
/// tell are not written.
pub proof fn law_written(entries: Seq<EntryView>, rows: Seq<Seq<Seq<char>>>)
    requires
        are_rows_of(rows, entries),
    ensures
        payload_bytes(entries) == archived_rows(rows),
        written_bytes(entries) == (if entries.len() == 0 {
            Some(Seq::empty())
        } else if archived_rows(rows).len() <= 0xffff_ffff {
            Some(plain_block(archived_rows(rows)))
        } else {
            None
        }),
        fits_block(entries) <==> entries.len() == 0 || archive_size(rows) <= 0xffff_ffff,
        is_storable(entries) <==> archive_size(rows) <= 0x8000_0000,
{
    assert forall|i: int| 0 <= i < rows.len() implies rows[i] == entry_rows(entries)[i] by {
        assert(is_row_of(rows[i], entries[i]));
        assert(rows[i] =~= entry_row(entries[i]));
    }
    assert(rows =~= entry_rows(entries));
    assert(BLOCK_MAGIC@ =~= seq![0x74u8, 0x74u8, 0x6du8, 0x6cu8]);
}

/// Bytes that add entries leave what whole data stores as it is, in its place, and put every entry
/// behind it, in order; and the data stays whole.
pub proof fn law_added(data: Seq<u8>, bytes: Seq<u8>, entries: Seq<EntryView>)
    requires
        adds_entries(bytes, entries),
        is_whole(data),
    ensures
        stored_entries(data + bytes).len() == stored_entries(data).len() + entries.len(),
        forall|i: int|
            0 <= i < stored_entries(data).len() ==> #[trigger] stored_entries(data + bytes)[i]
                == stored_entries(data)[i],
        forall|i: int|
            0 <= i < entries.len() ==> stored_entries(data + bytes)[stored_entries(data).len() + i]
                == #[trigger] entries[i],
        is_whole(data + bytes),
{
    assert(stored_entries(data + bytes) == stored_entries(data) + entries);
}

/// The number of bytes of a text that stand outside of its row: none for up to seven bytes.
pub open spec fn long_bytes(text: Seq<char>) -> nat {
    if encode_utf8(text).len() <= 7 {
        0
    } else {
        encode_utf8(text).len()
    }
}

/// The size of an archive: the texts of more than seven bytes, filled up to a multiple of four, 72
/// bytes for each row, and eight more. Rows add up.
pub proof fn law_archive_size(
    rows: Seq<Seq<Seq<char>>>,
    more: Seq<Seq<Seq<char>>>,
    row: Seq<Seq<char>>,
)
    requires
        row.len() == 9,
    ensures
        ({
            let texts = text_size(rows);
            let fill = archive_size(rows) - texts - 72 * rows.len() - 8;
            &&& 0 <= fill < 4
            &&& (texts + fill) % 4 == 0
        }),
        text_size(rows + more) == text_size(rows) + text_size(more),
        text_size(Seq::empty()) == 0,
        text_size(seq![row]) == long_bytes(row[0]) + long_bytes(row[1]) + long_bytes(row[2])
            + long_bytes(row[3]) + long_bytes(row[4]) + long_bytes(row[5]) + long_bytes(row[6])
            + long_bytes(row[7]) + long_bytes(row[8]),
        MAX_ROWS * 72 <= 0x8000_0000 < (MAX_ROWS + 1) * 72,
{
    lemma_text_size_of_appended(rows, more);
    assert(seq![row].drop_last() =~= Seq::empty());
    assert(row_text_size(row.take(0)) == 0);
    lemma_one_more_text(row, 0);
    lemma_one_more_text(row, 1);
    lemma_one_more_text(row, 2);
    lemma_one_more_text(row, 3);
    lemma_one_more_text(row, 4);
    lemma_one_more_text(row, 5);
    lemma_one_more_text(row, 6);
    lemma_one_more_text(row, 7);
    lemma_one_more_text(row, 8);
    assert(row.take(9) =~= row);
    assert(text_size(seq![row]) == text_size(seq![row].drop_last()) + row_text_size(row));
}

proof fn lemma_one_more_text(row: Seq<Seq<char>>, i: int)
    requires
        0 <= i < row.len(),
    ensures
        row_text_size(row.take(i + 1)) == row_text_size(row.take(i)) + long_bytes(row[i]),
{
    assert(row.take(i + 1).drop_last() =~= row.take(i));
}

} // verus!
