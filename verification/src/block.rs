//! The database file: blocks one behind the other, each with a magic number, the length of its
//! payload as four bytes in little-endian order, and the payload, an archive of entries.

use vstd::bytes::{
    lemma_auto_spec_u32_to_from_le_bytes, spec_u32_from_le_bytes, spec_u32_to_le_bytes,
    u32_from_le_bytes, u32_to_le_bytes,
};
use vstd::prelude::*;

use crate::archive::{from_row, row_entries, row_views, unarchive_rows, unarchived_rows};
use crate::model::{EntryView, TtmlEntry};
use crate::text::views;

verus! {

/// The four bytes that every block starts with: `ttml`.
pub const BLOCK_MAGIC: [u8; 4] = [0x74, 0x74, 0x6d, 0x6c];

/// The number of bytes before the payload of a block.
pub const HEADER_SIZE: usize = 8;

/// The length that the header of the first block gives for its payload.
pub open spec fn announced_len(data: Seq<u8>) -> int {
    spec_u32_from_le_bytes(data.subrange(4, 8)) as int
}

/// The data starts with a block of which no byte is missing.
pub open spec fn starts_with_block(data: Seq<u8>) -> bool {
    &&& HEADER_SIZE <= data.len()
    &&& data.take(4) == BLOCK_MAGIC@
    &&& HEADER_SIZE + announced_len(data) <= data.len()
}

/// The payload of the first block.
pub open spec fn first_payload(data: Seq<u8>) -> Seq<u8> {
    data.subrange(HEADER_SIZE as int, HEADER_SIZE + announced_len(data))
}

/// What follows the first block.
pub open spec fn after_first_block(data: Seq<u8>) -> Seq<u8> {
    data.skip(HEADER_SIZE + announced_len(data))
}

/// The entries that the data stores. Reading ends where no complete block follows, or where the
/// payload of a block is no archive of entries.
pub open spec fn stored_entries(data: Seq<u8>) -> Seq<EntryView>
    decreases data.len(),
{
    if starts_with_block(data) {
        match unarchived_rows(first_payload(data)) {
            Some(rows) => row_entries(rows) + stored_entries(after_first_block(data)),
            None => Seq::empty(),
        }
    } else {
        Seq::empty()
    }
}

/// The data starts with the header of a block whose payload is cut off.
pub open spec fn starts_with_cut_block(data: Seq<u8>) -> bool {
    &&& HEADER_SIZE <= data.len()
    &&& data.take(4) == BLOCK_MAGIC@
    &&& HEADER_SIZE + announced_len(data) > data.len()
}

/// What is left where reading has ended. The header of a block whose payload is cut off counts as
/// read.
pub open spec fn left_over(data: Seq<u8>) -> Seq<u8>
    decreases data.len(),
{
    if starts_with_cut_block(data) {
        data.skip(HEADER_SIZE as int)
    } else if starts_with_block(data) && unarchived_rows(first_payload(data)) is Some {
        left_over(after_first_block(data))
    } else {
        data
    }
}

/// The data is made of complete, readable blocks and nothing else.
pub open spec fn is_whole(data: Seq<u8>) -> bool
    decreases data.len(),
{
    data.len() == 0 || (starts_with_block(data) && unarchived_rows(first_payload(data)) is Some
        && is_whole(after_first_block(data)))
}

/// The block that holds the payload.
pub open spec fn block_bytes(payload: Seq<u8>) -> Seq<u8> {
    BLOCK_MAGIC@ + spec_u32_to_le_bytes(payload.len() as u32) + payload
}

/// A block gives its payload back, and what follows it.
pub proof fn lemma_block(payload: Seq<u8>, rest: Seq<u8>)
    requires
        payload.len() <= u32::MAX,
    ensures
        starts_with_block(block_bytes(payload) + rest),
        first_payload(block_bytes(payload) + rest) == payload,
        after_first_block(block_bytes(payload) + rest) == rest,
        block_bytes(payload).len() == HEADER_SIZE + payload.len(),
{
    lemma_auto_spec_u32_to_from_le_bytes();
    let size = spec_u32_to_le_bytes(payload.len() as u32);
    assert(size.len() == 4);
    let data = block_bytes(payload) + rest;
    assert(data.take(4) =~= BLOCK_MAGIC@);
    assert(data.subrange(4, 8) =~= size);
    assert(first_payload(data) =~= payload);
    assert(after_first_block(data) =~= rest);
}

/// Whole data is read as before, whatever is put behind it, and then what was put behind.
pub proof fn lemma_append(data: Seq<u8>, tail: Seq<u8>)
    requires
        is_whole(data),
    ensures
        stored_entries(data + tail) == stored_entries(data) + stored_entries(tail),
        is_whole(data + tail) == is_whole(tail),
    decreases data.len(),
{
    if data.len() == 0 {
        assert(data + tail =~= tail);
        assert(stored_entries(data) + stored_entries(tail) =~= stored_entries(tail));
    } else {
        let both = data + tail;
        assert(both.take(4) =~= data.take(4));
        assert(both.subrange(4, 8) =~= data.subrange(4, 8));
        assert(first_payload(both) =~= first_payload(data));
        assert(after_first_block(both) =~= after_first_block(data) + tail);
        lemma_append(after_first_block(data), tail);
        let rows = unarchived_rows(first_payload(data))->0;
        assert(stored_entries(both) =~= row_entries(rows) + (stored_entries(
            after_first_block(data),
        ) + stored_entries(tail)));
        assert(stored_entries(both) =~= stored_entries(data) + stored_entries(tail));
    }
}

/// Whatever is put behind data, whole or not, the entries that were read before are still read,
/// and come first.
pub proof fn lemma_append_keeps_entries(data: Seq<u8>, tail: Seq<u8>)
    ensures
        stored_entries(data).is_prefix_of(stored_entries(data + tail)),
    decreases data.len(),
{
    if starts_with_block(data) {
        let both = data + tail;
        assert(both.take(4) =~= data.take(4));
        assert(both.subrange(4, 8) =~= data.subrange(4, 8));
        assert(first_payload(both) =~= first_payload(data));
        assert(after_first_block(both) =~= after_first_block(data) + tail);
        lemma_append_keeps_entries(after_first_block(data), tail);
    }
}

/// A block put behind whole data adds the entries of its payload, and the data stays whole.
pub proof fn lemma_append_block(data: Seq<u8>, payload: Seq<u8>)
    requires
        is_whole(data),
        payload.len() <= u32::MAX,
        unarchived_rows(payload) is Some,
    ensures
        stored_entries(data + block_bytes(payload)) == stored_entries(data) + row_entries(
            unarchived_rows(payload)->0,
        ),
        is_whole(data + block_bytes(payload)),
{
    lemma_append(data, block_bytes(payload));
    lemma_block(payload, Seq::empty());
    assert(block_bytes(payload) + Seq::<u8>::empty() =~= block_bytes(payload));
    assert(stored_entries(Seq::<u8>::empty()) =~= Seq::empty());
    assert(is_whole(Seq::<u8>::empty()));
    assert(stored_entries(block_bytes(payload)) =~= row_entries(unarchived_rows(payload)->0));
}

/// A block of which only the first bytes were written adds nothing, and takes nothing away.
pub proof fn lemma_torn_block(data: Seq<u8>, payload: Seq<u8>, written: int)
    requires
        is_whole(data),
        payload.len() <= u32::MAX,
        0 <= written < block_bytes(payload).len(),
    ensures
        stored_entries(data + block_bytes(payload).take(written)) == stored_entries(data),
{
    let torn = block_bytes(payload).take(written);
    lemma_append(data, torn);
    lemma_block(payload, Seq::empty());
    assert(block_bytes(payload) + Seq::<u8>::empty() =~= block_bytes(payload));
    if starts_with_block(torn) {
        assert(torn.subrange(4, 8) =~= block_bytes(payload).subrange(4, 8));
        assert(announced_len(block_bytes(payload)) == payload.len());
    }
    assert(stored_entries(data + torn) =~= stored_entries(data));
}

/// Puts a payload into a block.
pub fn frame(payload: &Vec<u8>, payload_len: u32) -> (block: Vec<u8>)
    requires
        payload@.len() == payload_len,
    ensures
        block@ == block_bytes(payload@),
{
    let mut block: Vec<u8> = Vec::new();
    block.push(BLOCK_MAGIC[0]);
    block.push(BLOCK_MAGIC[1]);
    block.push(BLOCK_MAGIC[2]);
    block.push(BLOCK_MAGIC[3]);
    assert(block@ =~= BLOCK_MAGIC@);
    let len_bytes = u32_to_le_bytes(payload_len);
    block.extend_from_slice(len_bytes.as_slice());
    block.extend_from_slice(payload.as_slice());
    assert(block@ =~= block_bytes(payload@));
    block
}

/// Reads the entries of a database one by one.
pub struct TtmlEntryIterator<'a> {
    data: &'a Vec<u8>,
    cursor: usize,
    rows: Vec<[String; 9]>,
    taken: usize,
}

impl<'a> View for TtmlEntryIterator<'a> {
    type V = Seq<EntryView>;

    /// The entries that are still to come, up to where reading ends.
    closed spec fn view(&self) -> Seq<EntryView> {
        row_entries(row_views(self.rows@).skip(self.taken as int)) + stored_entries(
            self.data@.skip(self.cursor as int),
        )
    }
}

impl<'a> TtmlEntryIterator<'a> {
    #[verifier::type_invariant]
    spec fn in_bounds(self) -> bool {
        self.cursor <= self.data@.len() && self.taken <= self.rows@.len()
    }

    /// An upper bound of the number of entries that are still to come.
    pub closed spec fn bound(self) -> int {
        (self.rows@.len() - self.taken) + (self.data@.len() - self.cursor)
    }

    /// What is left once there is no entry to come.
    pub closed spec fn left(self) -> Seq<u8> {
        left_over(self.data@.skip(self.cursor as int))
    }

    /// Starts at the first entry.
    pub fn new(data: &'a Vec<u8>) -> (res: Self)
        ensures
            res@ == stored_entries(data@),
            res.left() == left_over(data@),
            res.bound() == data@.len(),
    {
        let res = TtmlEntryIterator { data, cursor: 0, rows: Vec::new(), taken: 0 };
        proof {
            assert(data@.skip(0) =~= data@);
            assert(res@ =~= stored_entries(data@));
        }
        res
    }

    /// Hands out the next entry, if there is one. After that reading goes on with what is left.
    pub fn next(&mut self) -> (res: Option<TtmlEntry>)
        ensures
            match res {
                Some(entry) => old(self)@.len() > 0 && entry@ == old(self)@[0] && final(self)@
                    == old(self)@.drop_first() && final(self).left() == old(self).left(),
                None => old(self)@.len() == 0 && final(self)@ == stored_entries(old(self).left())
                    && final(self).left() == left_over(old(self).left()),
            },
            0 <= final(self).bound() <= old(self).bound(),
            res is Some ==> final(self).bound() < old(self).bound(),
    {
        let size: usize = self.data.len();
        loop
            invariant
                self@ == old(self)@,
                self.left() == old(self).left(),
                self.bound() <= old(self).bound(),
                size == self.data@.len(),
            decreases size - self.cursor,
        {
            proof {
                use_type_invariant(&*self);
            }
            let ghost rest = self.data@.skip(self.cursor as int);
            if self.taken < self.rows.len() {
                let entry = from_row(&self.rows[self.taken]);
                proof {
                    let todo = row_views(self.rows@).skip(self.taken as int);
                    assert(todo[0] == views(self.rows@[self.taken as int]@));
                    assert(row_entries(todo)[0] == entry@);
                    assert(row_entries(row_views(self.rows@).skip(self.taken + 1))
                        + stored_entries(rest) =~= self@.drop_first());
                }
                self.taken = self.taken + 1;
                return Some(entry);
            }
            assert(self@ =~= stored_entries(rest));
            if size - self.cursor < HEADER_SIZE {
                return None;
            }
            let header = vstd::slice::slice_subrange(
                self.data.as_slice(),
                self.cursor,
                self.cursor + HEADER_SIZE,
            );
            if header[0] != BLOCK_MAGIC[0] || header[1] != BLOCK_MAGIC[1] || header[2]
                != BLOCK_MAGIC[2] || header[3] != BLOCK_MAGIC[3] {
                assert(rest.take(4) != BLOCK_MAGIC@) by {
                    assert(forall|k: int| 0 <= k < 4 ==> rest.take(4)[k] == header@[k]);
                }
                return None;
            }
            assert(rest.take(4) =~= BLOCK_MAGIC@);
            let len_bytes = vstd::slice::slice_subrange(header, 4, 8);
            assert(len_bytes@ =~= rest.subrange(4, 8));
            let payload_len: usize = u32_from_le_bytes(len_bytes) as usize;
            let start: usize = self.cursor + HEADER_SIZE;
            if size - start < payload_len {
                proof {
                    assert(starts_with_cut_block(rest));
                    assert(self.data@.skip(start as int) =~= rest.skip(HEADER_SIZE as int));
                    let none = row_views(self.rows@).skip(self.taken as int);
                    assert(row_entries(none) + stored_entries(rest.skip(HEADER_SIZE as int))
                        =~= stored_entries(rest.skip(HEADER_SIZE as int)));
                }
                self.cursor = start;
                return None;
            }
            let payload = vstd::slice::slice_subrange(
                self.data.as_slice(),
                start,
                start + payload_len,
            );
            assert(payload@ =~= first_payload(rest));
            match unarchive_rows(payload) {
                None => {
                    return None;
                },
                Some(rows) => {
                    proof {
                        assert(row_views(rows@).skip(0) =~= row_views(rows@));
                        assert(self.data@.skip(start + payload_len) =~= after_first_block(rest));
                    }
                    self.taken = 0;
                    self.rows = rows;
                    self.cursor = start + payload_len;
                },
            }
        }
    }
}

} // verus!
