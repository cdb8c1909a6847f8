//! Writing entries: what is put behind a database file, and what replaces it.

use vstd::prelude::*;

use crate::archive::{
    archive_rows, archive_size, archived_rows, entry_rows, entry_views, lemma_rows_of_entries,
    lemma_text_size_of_appended, to_rows, unarchived_rows, MAX_ARCHIVE_SIZE, MAX_ROWS,
};
use crate::block::{block_bytes, frame, is_whole, lemma_append_block, stored_entries};
use crate::model::{EntryView, TtmlEntry};

verus! {

/// `std::path::PathBuf`, the path of a file.
#[verifier::external_type_specification]
#[verifier::external_body]
pub struct ExPathBuf(std::path::PathBuf);

/// `PathBuf::clone` gives the same path.
pub assume_specification[ <std::path::PathBuf as Clone>::clone ](path: &std::path::PathBuf) -> (res:
    std::path::PathBuf)
    ensures
        res == *path,
;

/// Why entries cannot be written.
#[derive(Debug, Clone, Copy, PartialEq, Eq, Structural)]
pub enum WriteError {
    /// The payload is longer than the header of a block can tell (4 GiB).
    PayloadTooLarge,
}

/// Writes entries to a database file.
pub struct TtmlDbWriter {
    pub file_path: std::path::PathBuf,
}

impl Clone for TtmlDbWriter {
    fn clone(&self) -> (res: Self)
        ensures
            res == *self,
    {
        TtmlDbWriter { file_path: self.file_path.clone() }
    }
}

/// The payload for the entries.
pub open spec fn payload_bytes(entries: Seq<EntryView>) -> Seq<u8> {
    archived_rows(entry_rows(entries))
}

/// The bytes that store the entries: one block, or nothing for no entries. There are none where
/// the payload is too large for a block.
pub open spec fn written_bytes(entries: Seq<EntryView>) -> Option<Seq<u8>> {
    if entries.len() == 0 {
        Some(Seq::empty())
    } else if payload_bytes(entries).len() <= u32::MAX {
        Some(block_bytes(payload_bytes(entries)))
    } else {
        None
    }
}

/// The entries fit into a block.
pub open spec fn fits_block(entries: Seq<EntryView>) -> bool {
    entries.len() == 0 || archive_size(entry_rows(entries)) <= u32::MAX
}

/// The entries take so little space that they can be read back.
pub open spec fn is_storable(entries: Seq<EntryView>) -> bool {
    archive_size(entry_rows(entries)) <= MAX_ARCHIVE_SIZE
}

/// Entries that can be read back fit into a block, and so can be read back each part of them.
pub proof fn lemma_storable_parts(entries: Seq<EntryView>, more: Seq<EntryView>)
    requires
        is_storable(entries + more),
    ensures
        fits_block(entries + more),
        is_storable(entries),
        is_storable(more),
{
    assert(entry_rows(entries + more) =~= entry_rows(entries) + entry_rows(more));
    lemma_text_size_of_appended(entry_rows(entries), entry_rows(more));
}

/// Put behind any whole data, the bytes add the entries to those that the data stores, and the
/// data stays whole.
pub open spec fn adds_entries(bytes: Seq<u8>, entries: Seq<EntryView>) -> bool {
    forall|data: Seq<u8>|
        is_whole(data) ==> #[trigger] stored_entries(data + bytes) == stored_entries(data) + entries
            && is_whole(data + bytes)
}

/// Bytes that add entries to any data store these entries where they stand alone.
pub proof fn lemma_adds_to_empty(bytes: Seq<u8>, entries: Seq<EntryView>)
    requires
        adds_entries(bytes, entries),
    ensures
        stored_entries(bytes) == entries,
        is_whole(bytes),
{
    let data = Seq::<u8>::empty();
    assert(is_whole(data));
    assert(data + bytes =~= bytes);
    assert(stored_entries(data + bytes) == stored_entries(data) + entries);
    assert(stored_entries(data) + entries =~= entries);
}

/// Bytes that add entries, one behind the other, add the entries one behind the other.
pub proof fn lemma_adds_in_turn(
    first: Seq<u8>,
    first_entries: Seq<EntryView>,
    second: Seq<u8>,
    second_entries: Seq<EntryView>,
)
    requires
        adds_entries(first, first_entries),
        adds_entries(second, second_entries),
    ensures
        adds_entries(first + second, first_entries + second_entries),
{
    assert forall|data: Seq<u8>| is_whole(data) implies #[trigger] stored_entries(
        data + (first + second),
    ) == stored_entries(data) + (first_entries + second_entries) && is_whole(
        data + (first + second),
    ) by {
        let middle = data + first;
        assert(stored_entries(data + first) == stored_entries(data) + first_entries);
        assert(stored_entries(middle + second) == stored_entries(middle) + second_entries);
        assert(middle + second =~= data + (first + second));
        assert(stored_entries(data) + first_entries + second_entries =~= stored_entries(data) + (
        first_entries + second_entries));
    }
}

/// Entries that are added in two turns are read as if they had been added in one.
pub proof fn lemma_two_turns_as_one(
    data: Seq<u8>,
    first: Seq<u8>,
    first_entries: Seq<EntryView>,
    second: Seq<u8>,
    second_entries: Seq<EntryView>,
    both: Seq<u8>,
)
    requires
        is_whole(data),
        adds_entries(first, first_entries),
        adds_entries(second, second_entries),
        adds_entries(both, first_entries + second_entries),
    ensures
        stored_entries(data + first + second) == stored_entries(data + both),
        stored_entries(data + both) == stored_entries(data) + first_entries + second_entries,
{
    lemma_adds_in_turn(first, first_entries, second, second_entries);
    assert(data + first + second =~= data + (first + second));
    assert(stored_entries(data + (first + second)) == stored_entries(data) + (first_entries
        + second_entries));
    assert(stored_entries(data + both) == stored_entries(data) + (first_entries + second_entries));
    assert(stored_entries(data) + (first_entries + second_entries) =~= stored_entries(data)
        + first_entries + second_entries);
}

/// The name of the file that is filled before it takes the place of the file with the given name.
pub fn temp_file_name(file_name: &str) -> (res: String)
    ensures
        res@ == "."@ + file_name@ + ".tmp"@,
{
    let mut res = String::new();
    res.append(".");
    res.append(file_name);
    res.append(".tmp");
    assert(res@ =~= "."@ + file_name@ + ".tmp"@);
    res
}

impl TtmlDbWriter {
    /// A writer for the file at the path.
    pub fn new(file_path: std::path::PathBuf) -> (res: Self)
        ensures
            res.file_path == file_path,
    {
        TtmlDbWriter { file_path }
    }

    /// The payload for the entries and its length; nothing for no entries.
    pub fn serialize_payload(entries: &[TtmlEntry]) -> (res: Result<(Vec<u8>, u32), WriteError>)
        requires
            entries@.len() <= MAX_ROWS,
        ensures
            res matches Ok((payload, len)) ==> payload@.len() == len && payload@ == (
            if entries@.len() == 0 {
                Seq::empty()
            } else {
                payload_bytes(entry_views(entries@))
            }),
            res matches Ok((_, len)) ==> (len == 0 <==> entries@.len() == 0),
            res is Ok <==> entries@.len() == 0 || payload_bytes(entry_views(entries@)).len()
                <= u32::MAX,
            res is Ok <==> fits_block(entry_views(entries@)),
            res matches Ok((payload, _)) ==> is_storable(entry_views(entries@)) && entries@.len()
                > 0 ==> unarchived_rows(payload@) == Some(entry_rows(entry_views(entries@))),
    {
        if entries.len() == 0 {
            let none: Vec<u8> = Vec::new();
            return Ok((none, 0));
        }
        let rows = to_rows(entries);
        assert(rows@.len() == entries@.len()) by {
            assert(crate::archive::row_views(rows@).len() == entry_rows(
                entry_views(entries@),
            ).len());
        }
        let payload = archive_rows(&rows);
        if payload.len() as u64 > u32::MAX as u64 {
            return Err(WriteError::PayloadTooLarge);
        }
        let payload_len: u32 = payload.len() as u32;
        Ok((payload, payload_len))
    }

    /// The bytes to put behind the file so that it holds the entries too. No entries leave the
    /// file as it is.
    pub fn append_entries(&self, entries: &[TtmlEntry]) -> (res: Result<Vec<u8>, WriteError>)
        requires
            entries@.len() <= MAX_ROWS,
        ensures
            match res {
                Ok(bytes) => written_bytes(entry_views(entries@)) == Some(bytes@),
                Err(WriteError::PayloadTooLarge) => written_bytes(entry_views(entries@)) is None,
            },
            res is Ok <==> fits_block(entry_views(entries@)),
            is_storable(entry_views(entries@)) ==> res is Ok && adds_entries(
                res->Ok_0@,
                entry_views(entries@),
            ),
    {
        let ghost model = entry_views(entries@);
        if entries.len() == 0 {
            let none: Vec<u8> = Vec::new();
            proof {
                assert forall|data: Seq<u8>| is_whole(data) implies #[trigger] stored_entries(
                    data + none@,
                ) == stored_entries(data) + model && is_whole(data + none@) by {
                    assert(data + none@ =~= data);
                    assert(stored_entries(data) + model =~= stored_entries(data));
                }
            }
            return Ok(none);
        }
        match Self::serialize_payload(entries) {
            Ok((payload, payload_len)) => {
                let block = frame(&payload, payload_len);
                proof {
                    if is_storable(model) {
                        assert forall|data: Seq<u8>| is_whole(
                            data,
                        ) implies #[trigger] stored_entries(data + block@) == stored_entries(data)
                            + model && is_whole(data + block@) by {
                            lemma_append_block(data, payload@);
                            lemma_rows_of_entries(model);
                        }
                    }
                }
                Ok(block)
            },
            Err(e) => Err(e),
        }
    }

    /// The bytes that the file is to hold so that it stores the entries and nothing else.
    pub fn overwrite_entries(&self, entries: &[TtmlEntry]) -> (res: Result<Vec<u8>, WriteError>)
        requires
            entries@.len() <= MAX_ROWS,
        ensures
            match res {
                Ok(bytes) => written_bytes(entry_views(entries@)) == Some(bytes@),
                Err(WriteError::PayloadTooLarge) => written_bytes(entry_views(entries@)) is None,
            },
            res is Ok <==> fits_block(entry_views(entries@)),
            is_storable(entry_views(entries@)) ==> res is Ok && stored_entries(res->Ok_0@)
                == entry_views(entries@) && is_whole(res->Ok_0@),
    {
        let res = self.append_entries(entries);
        proof {
            if is_storable(entry_views(entries@)) {
                lemma_adds_to_empty(res->Ok_0@, entry_views(entries@));
            }
        }
        res
    }
}

} // verus!
