//! The page store: a file image and a cache of resident pages, loaded on
//! demand and written back on request.
use crate::layout::{PAGE_SIZE, ROWS_PER_PAGE, ROW_SIZE, TABLE_MAX_PAGES};
use crate::row::{decode_spec, zeros, Row};
use vstd::prelude::*;

verus! {

/// Page `i` as the file holds it: its `PAGE_SIZE` bytes, zero past the end
/// of the file.
pub open spec fn disk_page(file: Seq<u8>, i: int) -> Seq<u8> {
    Seq::new(
        PAGE_SIZE as nat,
        |j: int|
            if 0 <= i * PAGE_SIZE + j < file.len() {
                file[i * PAGE_SIZE + j]
            } else {
                0u8
            },
    )
}

/// The file after page `i` was written with `page`: the file grows to cover
/// the page, zero-filled where it had no bytes.
pub open spec fn write_page(file: Seq<u8>, i: int, page: Seq<u8>) -> Seq<u8> {
    let end = (i + 1) * PAGE_SIZE;
    Seq::new(
        if file.len() < end {
            end as nat
        } else {
            file.len()
        },
        |k: int|
            if i * PAGE_SIZE <= k < end {
                page[k - i * PAGE_SIZE]
            } else if k < file.len() {
                file[k]
            } else {
                0u8
            },
    )
}

/// The page and the byte offset within it where row `row` lives.
pub open spec fn locate(row: int) -> (int, int) {
    (row / ROWS_PER_PAGE as int, (row % ROWS_PER_PAGE as int) * ROW_SIZE)
}

/// The page and the byte offset within it where row `row_num` lives.
pub fn locate_row(row_num: usize) -> (r: (usize, usize))
    ensures
        r.0 == locate(row_num as int).0,
        r.1 == locate(row_num as int).1,
        r.1 + ROW_SIZE <= PAGE_SIZE,
{
    let page_num = row_num / ROWS_PER_PAGE;
    let row_offset = row_num % ROWS_PER_PAGE;
    (page_num, row_offset * ROW_SIZE)
}

/// What went wrong in the page store.
#[derive(Debug, Clone, Copy, PartialEq, Eq, Structural)]
pub enum PagerError {
    /// The page index is past the last page a table may have.
    OutOfBounds(usize),
    /// A flush was asked for a page that is not resident.
    NoBytes,
}

/// A file image and up to `TABLE_MAX_PAGES` resident pages.
pub struct Pager {
    pub file: Vec<u8>,
    pub pages: Vec<Option<Vec<u8>>>,
}

impl Pager {
    /// One slot per page, and every resident page `PAGE_SIZE` bytes long.
    pub open spec fn wf(&self) -> bool {
        &&& self.pages@.len() == TABLE_MAX_PAGES
        &&& forall|i: int|
            0 <= i < TABLE_MAX_PAGES && (#[trigger] self.pages@[i]) is Some
                ==> self.pages@[i]->Some_0@.len() == PAGE_SIZE
    }

    /// Page `i` has an in-memory copy.
    pub open spec fn resident(&self, i: int) -> bool {
        0 <= i < self.pages@.len() && self.pages@[i] is Some
    }

    /// The authoritative content of page `i`: the resident copy, else the file.
    pub open spec fn page_view(&self, i: int) -> Seq<u8> {
        if self.resident(i) {
            self.pages@[i]->Some_0@
        } else {
            disk_page(self.file@, i)
        }
    }

    /// Both pagers show the same content for every page.
    pub open spec fn same_pages(&self, other: &Pager) -> bool {
        forall|i: int| #[trigger] self.page_view(i) == other.page_view(i)
    }

    /// A page store over the given file image, with no page resident.
    pub fn new(file: Vec<u8>) -> (r: Pager)
        ensures
            r.wf(),
            r.file@ == file@,
            forall|i: int| !(#[trigger] r.resident(i)),
    {
        let mut pages: Vec<Option<Vec<u8>>> = Vec::new();
        while pages.len() < TABLE_MAX_PAGES
            invariant
                pages@.len() <= TABLE_MAX_PAGES,
                forall|i: int| 0 <= i < pages@.len() ==> (#[trigger] pages@[i]) is None,
            decreases TABLE_MAX_PAGES - pages@.len(),
        {
            pages.push(None);
        }
        Pager { file, pages }
    }

    /// The length of the file image in bytes.
    pub fn file_len(&self) -> (r: usize)
        ensures
            r == self.file@.len(),
    {
        self.file.len()
    }

    /// The page and the byte offset within it where row `row_num` lives.
    pub fn row_location(&self, row_num: usize) -> (r: (usize, usize))
        ensures
            r.0 == locate(row_num as int).0,
            r.1 == locate(row_num as int).1,
    {
        locate_row(row_num)
    }

    /// Whether page `i` has an in-memory copy.
    pub fn is_resident(&self, i: usize) -> (r: bool)
        ensures
            r == self.resident(i as int),
    {
        i < self.pages.len() && self.pages[i].is_some()
    }

    /// Makes page `page_num` resident, reading it from the file image when the
    /// file reaches it and starting from zeros otherwise.
    pub fn page(&mut self, page_num: usize) -> (r: Result<(), PagerError>)
        requires
            old(self).wf(),
        ensures
            final(self).wf(),
            final(self).file@ == old(self).file@,
            final(self).same_pages(old(self)),
            forall|i: int| old(self).resident(i) ==> #[trigger] final(self).resident(i),
            forall|i: int| i != page_num ==> #[trigger] final(self).resident(i) == old(self).resident(i),
            page_num >= TABLE_MAX_PAGES ==> r == Err::<(), PagerError>(PagerError::OutOfBounds(page_num)),
            page_num < TABLE_MAX_PAGES ==> r is Ok && final(self).resident(page_num as int),
    {
        if page_num >= TABLE_MAX_PAGES {
            return Err(PagerError::OutOfBounds(page_num));
        }
        if self.pages[page_num].is_none() {
            let file_len = self.file.len();
            let mut num_pages = file_len / PAGE_SIZE;
            if file_len % PAGE_SIZE != 0 {
                num_pages = num_pages + 1;
            }
            let page = if page_num < num_pages {
                read_page(&self.file, page_num)
            } else {
                let z = zeros(PAGE_SIZE);
                assert(z@ =~= disk_page(self.file@, page_num as int));
                z
            };
            let ghost before = *self;
            self.pages.set(page_num, Some(page));
            assert(self.same_pages(&before));
        }
        Ok(())
    }

    /// The row stored at `offset` in resident page `page_num`.
    pub fn read_row(&self, page_num: usize, offset: usize) -> (r: Row)
        requires
            self.wf(),
            self.resident(page_num as int),
            offset + ROW_SIZE <= PAGE_SIZE,
        ensures
            r@ == decode_spec(self.page_view(page_num as int).subrange(offset as int, offset + ROW_SIZE)),
            r.inv(),
    {
        let page = self.pages[page_num].as_ref().unwrap();
        Row::decode(page.as_slice(), offset)
    }

    /// Copies `bytes` into resident page `page_num` at `offset`.
    pub fn write_bytes(&mut self, page_num: usize, offset: usize, bytes: &Vec<u8>)
        requires
            old(self).wf(),
            old(self).resident(page_num as int),
            offset + bytes@.len() <= PAGE_SIZE,
        ensures
            final(self).wf(),
            final(self).file@ == old(self).file@,
            forall|i: int| #[trigger] final(self).resident(i) == old(self).resident(i),
            forall|i: int| i != page_num ==> #[trigger] final(self).page_view(i) == old(self).page_view(i),
            final(self).page_view(page_num as int) == old(self).page_view(page_num as int).subrange(0, offset as int)
                + bytes@ + old(self).page_view(page_num as int).subrange(offset + bytes@.len(), PAGE_SIZE as int),
    {
        let ghost before = *self;
        let mut slot: Option<Vec<u8>> = None;
        self.pages.set_and_swap(page_num, &mut slot);
        let mut page = slot.unwrap();
        let ghost initial = page@;
        let mut j: usize = 0;
        while j < bytes.len()
            invariant
                offset + bytes@.len() <= PAGE_SIZE,
                initial.len() == PAGE_SIZE,
                j <= bytes@.len(),
                page@ == initial.subrange(0, offset as int) + bytes@.subrange(0, j as int) + initial.subrange(offset + j, PAGE_SIZE as int),
            decreases bytes@.len() - j,
        {
            page.set(offset + j, bytes[j]);
            assert(page@ =~= initial.subrange(0, offset as int) + bytes@.subrange(0, j + 1) + initial.subrange(offset + j + 1, PAGE_SIZE as int));
            j = j + 1;
        }
        assert(bytes@.subrange(0, j as int) =~= bytes@);
        self.pages.set(page_num, Some(page));
        assert(forall|i: int| i != page_num ==> #[trigger] self.page_view(i) == before.page_view(i));
    }

    /// Writes resident page `page_num` to its place in the file image; the
    /// page stays resident.
    pub fn flush_page(&mut self, page_num: usize) -> (r: Result<(), PagerError>)
        requires
            old(self).wf(),
            page_num < TABLE_MAX_PAGES,
        ensures
            final(self).wf(),
            final(self).pages@ == old(self).pages@,
            !old(self).resident(page_num as int) ==> r == Err::<(), PagerError>(PagerError::NoBytes)
                && final(self).file@ == old(self).file@,
            old(self).resident(page_num as int) ==> r is Ok && final(self).file@ == write_page(
                old(self).file@,
                page_num as int,
                old(self).pages@[page_num as int]->Some_0@,
            ),
            final(self).same_pages(old(self)),
    {
        match self.pages[page_num].as_ref() {
            None => Err(PagerError::NoBytes),
            Some(page) => {
                let ghost before = *self;
                write_page_into(&mut self.file, page_num, page);
                assert forall|i: int| #[trigger] self.page_view(i) == before.page_view(i) by {
                    if !self.resident(i) {
                        assert(self.page_view(i) =~= before.page_view(i));
                    }
                }
                Ok(())
            },
        }
    }
}

/// Page `page_num` of the file image.
fn read_page(file: &Vec<u8>, page_num: usize) -> (r: Vec<u8>)
    requires
        page_num < TABLE_MAX_PAGES,
    ensures
        r@ == disk_page(file@, page_num as int),
{
    let start = page_num * PAGE_SIZE;
    let mut r: Vec<u8> = Vec::new();
    while r.len() < PAGE_SIZE
        invariant
            start == page_num * PAGE_SIZE,
            page_num < TABLE_MAX_PAGES,
            r@.len() <= PAGE_SIZE,
            r@ == disk_page(file@, page_num as int).subrange(0, r@.len() as int),
        decreases PAGE_SIZE - r@.len(),
    {
        let k = start + r.len();
        if k < file.len() {
            r.push(file[k]);
        } else {
            r.push(0);
        }
        assert(r@ =~= disk_page(file@, page_num as int).subrange(0, r@.len() as int));
    }
    assert(r@ =~= disk_page(file@, page_num as int));
    r
}

/// Writes `page` at page `page_num` of the file image.
fn write_page_into(file: &mut Vec<u8>, page_num: usize, page: &Vec<u8>)
    requires
        page_num < TABLE_MAX_PAGES,
        page@.len() == PAGE_SIZE,
    ensures
        final(file)@ == write_page(old(file)@, page_num as int, page@),
{
    let start = page_num * PAGE_SIZE;
    let end = start + PAGE_SIZE;
    let ghost f0 = file@;
    while file.len() < end
        invariant
            end == start + PAGE_SIZE,
            f0.len() <= file@.len() <= end || file@.len() == f0.len(),
            forall|k: int| 0 <= k < file@.len() ==> #[trigger] file@[k] == if k < f0.len() {
                f0[k]
            } else {
                0u8
            },
            file@.len() >= f0.len(),
        decreases end - file@.len(),
    {
        file.push(0);
    }
    let mut j: usize = 0;
    while j < PAGE_SIZE
        invariant
            end == start + PAGE_SIZE,
            start == page_num * PAGE_SIZE,
            page@.len() == PAGE_SIZE,
            j <= PAGE_SIZE,
            file@.len() == (if f0.len() < end { end as nat } else { f0.len() }),
            forall|k: int| 0 <= k < file@.len() ==> #[trigger] file@[k] == if start <= k < start + j {
                page@[k - start]
            } else if k < f0.len() {
                f0[k]
            } else {
                0u8
            },
        decreases PAGE_SIZE - j,
    {
        file.set(start + j, page[j]);
        j = j + 1;
    }
    assert(file@ =~= write_page(f0, page_num as int, page@));
}

} // verus!
