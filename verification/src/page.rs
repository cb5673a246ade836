use vstd::prelude::*;

verus! {

/// How many bytes of a value starting at `value_start` do not fit in a page
/// of `page_len` bytes.  Truncation is a capacity signal, not an error.
pub open spec fn spec_unfit(page_len: int, value_start: int, value_len: int) -> int {
    if value_start + value_len > page_len {
        value_start + value_len - page_len
    } else {
        0
    }
}

/// The page contents after writing `value` at `value_start`: bytes past the
/// page end are silently dropped, everything else is replaced in place.
pub open spec fn spec_write(page: Seq<u8>, value_start: int, value: Seq<u8>) -> Seq<u8> {
    Seq::new(
        page.len(),
        |i: int|
            if value_start <= i < value_start + value.len() {
                value[i - value_start]
            } else {
                page[i]
            },
    )
}

/// The bytes a read of `length` at `value_start` returns: the in-page prefix.
pub open spec fn spec_read(page: Seq<u8>, value_start: int, length: int) -> Seq<u8> {
    page.subrange(value_start, value_start + length - spec_unfit(page.len() as int, value_start, length))
}

/// Law: a write that fits entirely in the page reports no unwritten tail and
/// is read back unchanged by a read of the same offset and length; a write
/// that does not fit reports exactly the overhang past the page end.
pub proof fn lemma_page_round_trip(page: Seq<u8>, value_start: int, value: Seq<u8>)
    requires
        0 <= value_start,
        value_start + value.len() <= page.len(),
    ensures
        spec_unfit(page.len() as int, value_start, value.len() as int) == 0,
        spec_read(spec_write(page, value_start, value), value_start, value.len() as int) =~= value,
{
}

/// Law: the unwritten-tail count is consistent: it is `value_end - page_len`
/// exactly when the value overhangs the page, and zero otherwise.
pub proof fn lemma_truncation_consistent(page_len: int, value_start: int, value_len: int)
    requires
        0 <= value_start,
        0 <= value_len,
    ensures
        value_start + value_len > page_len ==> spec_unfit(page_len, value_start, value_len)
            == value_start + value_len - page_len,
        value_start + value_len <= page_len ==> spec_unfit(page_len, value_start, value_len) == 0,
{
}

/// The count of bytes of a value at `(block_offset, block_size)` that a page
/// of `page_len` bytes cannot hold: the truncation rule that `write_value`
/// and `read_value` are specified over, for callers that keep the bytes in a
/// store of their own.
pub fn unfit_tail(
    page_len: usize,
    block_offset: u32,
    value_len: usize,
    block_size_bytes: usize,
) -> (r: usize)
    requires
        (block_offset as int) * (block_size_bytes as int) + value_len <= usize::MAX,
        (block_offset as int) * (block_size_bytes as int) <= page_len,
    ensures
        r == spec_unfit(
            page_len as int,
            (block_offset as int) * (block_size_bytes as int),
            value_len as int,
        ),
{
    let value_start: usize = (block_offset as usize) * block_size_bytes;
    let value_end: usize = value_start + value_len;
    if value_end > page_len {
        value_end - page_len
    } else {
        0
    }
}

/// One fixed-size page of block storage, addressed by `(block_offset,
/// block_size)`.  This is the in-memory model the write and read rules are
/// verified against; the file-backed lifecycle lives outside the library.
pub struct Page {
    data: Vec<u8>,
}

impl Page {
    /// The page's bytes.
    pub closed spec fn contents(self) -> Seq<u8> {
        self.data@
    }

    pub open spec fn page_len(self) -> nat {
        self.contents().len()
    }

    /// Create a new zeroed page of `size` bytes.
    pub fn new(size: usize) -> (r: Self)
        ensures
            r.contents() =~= Seq::new(size as nat, |i: int| 0u8),
    {
        let mut data: Vec<u8> = Vec::new();
        let mut i: usize = 0;
        while i < size
            invariant
                i <= size,
                data@.len() == i,
                forall|j: int| 0 <= j < i ==> data@[j] == 0u8,
            decreases size - i,
        {
            data.push(0u8);
            i += 1;
        }
        Page { data }
    }

    /// Open a page over bytes already at hand.
    pub fn open(data: Vec<u8>) -> (r: Self)
        ensures
            r.contents() == data@,
    {
        Page { data }
    }

    /// The page's bytes, handed out for persistence.
    pub fn to_bytes(&self) -> (r: Vec<u8>)
        ensures
            r@ == self.contents(),
    {
        let mut out: Vec<u8> = Vec::new();
        let mut i: usize = 0;
        while i < self.data.len()
            invariant
                i <= self.data@.len(),
                out@ =~= self.data@.subrange(0, i as int),
            decreases self.data@.len() - i,
        {
            out.push(self.data[i]);
            i += 1;
        }
        assert(out@ =~= self.data@);
        out
    }

    pub fn len(&self) -> (r: usize)
        ensures
            r == self.page_len(),
    {
        self.data.len()
    }

    /// Write a value into the page.  Returns the count of bytes that did not
    /// fit; only the in-page prefix is stored.  Overwrites whatever the
    /// addressed blocks held before.
    pub fn write_value(&mut self, block_offset: u32, value: &Vec<u8>, block_size_bytes: usize) -> (
        unwritten: usize)
        requires
            (block_offset as int) * (block_size_bytes as int) + value@.len() <= usize::MAX,
            (block_offset as int) * (block_size_bytes as int) <= old(self).page_len(),
        ensures
            unwritten == spec_unfit(
                old(self).page_len() as int,
                (block_offset as int) * (block_size_bytes as int),
                value@.len() as int,
            ),
            final(self).contents() == spec_write(
                old(self).contents(),
                (block_offset as int) * (block_size_bytes as int),
                value@,
            ),
    {
        let value_start: usize = (block_offset as usize) * block_size_bytes;
        let value_size: usize = value.len();
        let value_end: usize = value_start + value_size;
        let page_len: usize = self.data.len();
        let unwritten: usize = if value_end > page_len {
            value_end - page_len
        } else {
            0
        };
        let written: usize = value_size - unwritten;
        let mut i: usize = 0;
        while i < written
            invariant
                i <= written,
                written <= value_size,
                value_start + written <= page_len,
                value_size == value@.len(),
                self.data@.len() == page_len,
                page_len == old(self).page_len(),
                forall|j: int|
                    value_start <= j < value_start + i ==> #[trigger] self.data@[j] == value@[j
                        - value_start],
                forall|j: int|
                    0 <= j < self.data@.len() && !(value_start <= j < value_start + i)
                        ==> #[trigger] self.data@[j] == old(self).contents()[j],
            decreases written - i,
        {
            let byte: u8 = value[i];
            self.data.set(value_start + i, byte);
            i += 1;
        }
        assert(self.data@ =~= spec_write(old(self).contents(), value_start as int, value@));
        unwritten
    }

    /// Read a value from the page.  Returns the bytes found and the count of
    /// requested bytes past the page end that could not be read.
    pub fn read_value(&self, block_offset: u32, length: u32, block_size_bytes: usize) -> (r: (
        Vec<u8>,
        usize,
    ))
        requires
            (block_offset as int) * (block_size_bytes as int) < self.page_len(),
            (block_offset as int) * (block_size_bytes as int) + length as int <= usize::MAX,
        ensures
            r.1 == spec_unfit(
                self.page_len() as int,
                (block_offset as int) * (block_size_bytes as int),
                length as int,
            ),
            r.0@ == spec_read(
                self.contents(),
                (block_offset as int) * (block_size_bytes as int),
                length as int,
            ),
    {
        let value_start: usize = (block_offset as usize) * block_size_bytes;
        let value_end: usize = value_start + length as usize;
        let page_len: usize = self.data.len();
        let unread: usize = if value_end > page_len {
            value_end - page_len
        } else {
            0
        };
        let stop: usize = value_end - unread;
        let mut out: Vec<u8> = Vec::new();
        let mut i: usize = value_start;
        while i < stop
            invariant
                value_start <= i <= stop,
                stop <= self.data@.len(),
                out@ =~= self.data@.subrange(value_start as int, i as int),
            decreases stop - i,
        {
            out.push(self.data[i]);
            i += 1;
        }
        assert(out@ =~= spec_read(self.contents(), value_start as int, length as int));
        (out, unread)
    }
}

} // verus!
