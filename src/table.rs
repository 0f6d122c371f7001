//! The table: a page store and the number of rows it holds.
use crate::layout::{PAGE_SIZE, ROWS_PER_PAGE, ROW_SIZE};
use crate::pager::{disk_page, locate, write_page, Pager};
use crate::row::decode_spec;
use vstd::prelude::*;

verus! {

/// The row model stored at row `k` of a page store.
pub open spec fn row_at(pager: &Pager, k: int) -> (u16, Seq<u8>, Seq<u8>) {
    decode_spec(pager.page_view(locate(k).0).subrange(locate(k).1, locate(k).1 + ROW_SIZE))
}

/// The rows that a table opened on `file` shows.
pub open spec fn file_rows(file: Seq<u8>) -> Seq<(u16, Seq<u8>, Seq<u8>)> {
    Seq::new(
        file.len() / (ROW_SIZE as nat),
        |k: int| decode_spec(disk_page(file, locate(k).0).subrange(locate(k).1, locate(k).1 + ROW_SIZE)),
    )
}

/// A row's bytes end within a file of `(k / ROWS_PER_PAGE + 1)` pages.
proof fn lemma_row_within_its_page(k: int)
    requires
        0 <= k,
    ensures
        (k + 1) * ROW_SIZE <= (k / ROWS_PER_PAGE as int + 1) * PAGE_SIZE,
{
    let q = k / 14;
    let r = k % 14;
    assert(k == 14 * q + r);
    assert(0 <= r < 14);
    assert((k + 1) * 289 == 4046 * q + (r + 1) * 289) by (nonlinear_arith)
        requires
            k == 14 * q + r,
    ;
    assert(q >= 0);
}

/// Writing page `i` changes no other page of the file.
proof fn lemma_write_page_other(file: Seq<u8>, i: int, page: Seq<u8>, j: int)
    requires
        0 <= i,
        j != i,
    ensures
        disk_page(write_page(file, i, page), j) == disk_page(file, j),
{
    assert(disk_page(write_page(file, i, page), j) =~= disk_page(file, j));
}

/// Page `i` of the file reads back what was written there.
proof fn lemma_write_page_self(file: Seq<u8>, i: int, page: Seq<u8>)
    requires
        0 <= i,
        page.len() == PAGE_SIZE,
    ensures
        disk_page(write_page(file, i, page), i) == page,
        write_page(file, i, page).len() >= (i + 1) * PAGE_SIZE,
        write_page(file, i, page).len() >= file.len(),
{
    assert(disk_page(write_page(file, i, page), i) =~= page);
}

/// The file after page `i` is written if it is resident in `pages`.
pub open spec fn flush_step(file: Seq<u8>, pages: Seq<Option<Vec<u8>>>, i: int) -> Seq<u8> {
    if 0 <= i < pages.len() && pages[i] is Some {
        write_page(file, i, pages[i]->Some_0@)
    } else {
        file
    }
}

/// The file after each resident page below `n` is written, in order of index.
pub open spec fn flushed(file: Seq<u8>, pages: Seq<Option<Vec<u8>>>, n: nat) -> Seq<u8>
    decreases n,
{
    if n == 0 {
        file
    } else {
        flush_step(flushed(file, pages, (n - 1) as nat), pages, n - 1)
    }
}

/// The number of pages that hold rows of a table of `row_count` rows.
pub open spec fn pages_in_use(row_count: nat) -> nat {
    if row_count % (ROWS_PER_PAGE as nat) > 0 {
        row_count / (ROWS_PER_PAGE as nat) + 1
    } else {
        row_count / (ROWS_PER_PAGE as nat)
    }
}

/// A page store and the number of rows it holds.
pub struct Table {
    pub row_count: usize,
    pub pager: Pager,
}

impl Table {
    /// Row `k` is safe from loss: its bytes lie within the file image, or its
    /// page is resident.
    pub open spec fn row_durable(&self, k: int) -> bool {
        (k + 1) * ROW_SIZE <= self.pager.file@.len() || self.pager.resident(locate(k).0)
    }

    /// Row `k` is in the file image: its bytes lie within it and its page
    /// there matches the authoritative page.
    pub open spec fn row_persisted(&self, k: int) -> bool {
        &&& (k + 1) * ROW_SIZE <= self.pager.file@.len()
        &&& disk_page(self.pager.file@, locate(k).0) == self.pager.page_view(locate(k).0)
    }

    /// The page store is well formed and no row can be lost.
    pub open spec fn wf(&self) -> bool {
        &&& self.pager.wf()
        &&& forall|k: int| 0 <= k < self.row_count ==> #[trigger] self.row_durable(k)
    }

    /// Every row is in the file image.
    pub open spec fn persisted(&self) -> bool {
        forall|k: int| 0 <= k < self.row_count ==> #[trigger] self.row_persisted(k)
    }

    /// The rows of the table, in row-index order.
    pub open spec fn rows(&self) -> Seq<(u16, Seq<u8>, Seq<u8>)> {
        Seq::new(self.row_count as nat, |k: int| row_at(&self.pager, k))
    }

    /// A table over `pager`, with as many rows as whole records fit in its file.
    pub fn new(pager: Pager) -> (r: Table)
        requires
            pager.wf(),
        ensures
            r.wf(),
            r.pager == pager,
            r.row_count == pager.file@.len() / (ROW_SIZE as nat),
            (forall|i: int| !(#[trigger] pager.resident(i))) ==> r.rows() == file_rows(pager.file@),
    {
        let row_count = pager.file_len() / ROW_SIZE;
        let r = Table { row_count, pager };
        assert((forall|i: int| !(#[trigger] r.pager.resident(i))) ==> r.rows() =~= file_rows(r.pager.file@));
        assert forall|k: int| 0 <= k < r.row_count implies #[trigger] r.row_durable(k) by {
            assert((k + 1) * 289 <= row_count * 289) by (nonlinear_arith)
                requires
                    k + 1 <= row_count,
            ;
        }
        r
    }

    /// The page and the byte offset within it where row `index` lives.
    pub fn row_slot(&self, index: usize) -> (r: (usize, usize))
        ensures
            r.0 == locate(index as int).0,
            r.1 == locate(index as int).1,
    {
        self.pager.row_location(index)
    }

    /// Writes page `i` to the file image if it is resident.
    fn flush_if_resident(&mut self, i: usize)
        requires
            old(self).wf(),
        ensures
            final(self).wf(),
            final(self).row_count == old(self).row_count,
            final(self).pager.pages@ == old(self).pager.pages@,
            final(self).pager.same_pages(&old(self).pager),
            final(self).pager.file@ == flush_step(old(self).pager.file@, old(self).pager.pages@, i as int),
            forall|k: int|
                0 <= k < old(self).row_count && old(self).row_persisted(k)
                    ==> #[trigger] final(self).row_persisted(k),
            forall|k: int|
                0 <= k < old(self).row_count && locate(k).0 == i
                    ==> #[trigger] final(self).row_persisted(k),
    {
        if self.pager.is_resident(i) {
            let ghost before = *self;
            let ghost page = self.pager.pages@[i as int]->Some_0@;
            let r = self.pager.flush_page(i);
            proof {
                lemma_write_page_self(before.pager.file@, i as int, page);
                assert forall|k: int|
                    0 <= k < before.row_count && before.row_persisted(k) implies #[trigger] self.row_persisted(k) by {
                    if locate(k).0 != i {
                        lemma_write_page_other(before.pager.file@, i as int, page, locate(k).0);
                    }
                }
                assert forall|k: int|
                    0 <= k < before.row_count && locate(k).0 == i implies #[trigger] self.row_persisted(k) by {
                    lemma_row_within_its_page(k);
                }
                assert forall|k: int| 0 <= k < self.row_count implies #[trigger] self.row_durable(k) by {
                    assert(before.row_durable(k));
                }
            }
        } else {
            assert forall|k: int|
                0 <= k < self.row_count && locate(k).0 == i implies #[trigger] self.row_persisted(k) by {
                assert(self.row_durable(k));
            }
        }
    }

    /// Writes every resident page that holds a row to the file image.
    pub fn close(&mut self)
        requires
            old(self).wf(),
        ensures
            final(self).wf(),
            final(self).row_count == old(self).row_count,
            final(self).pager.pages@ == old(self).pager.pages@,
            final(self).pager.same_pages(&old(self).pager),
            final(self).rows() == old(self).rows(),
            final(self).persisted(),
            final(self).pager.file@ == flushed(
                old(self).pager.file@,
                old(self).pager.pages@,
                pages_in_use(old(self).row_count as nat),
            ),
            covers(
                final(self).pager.file@,
                old(self).pager.pages@,
                pages_in_use(old(self).row_count as nat),
            ),
    {
        let ghost before = *self;
        proof {
            assert(full_pages(before.pager.pages@));
            lemma_flushed_covers(before.pager.file@, before.pager.pages@, pages_in_use(before.row_count as nat));
        }
        let total_pages = self.row_count / ROWS_PER_PAGE;
        let mut i: usize = 0;
        while i < total_pages
            invariant
                self.wf(),
                total_pages == self.row_count / ROWS_PER_PAGE,
                i <= total_pages,
                self.row_count == before.row_count,
                self.pager.pages@ == before.pager.pages@,
                self.pager.same_pages(&before.pager),
                self.pager.file@ == flushed(before.pager.file@, before.pager.pages@, i as nat),
                forall|k: int| 0 <= k < self.row_count && locate(k).0 < i ==> #[trigger] self.row_persisted(k),
            decreases total_pages - i,
        {
            let ghost prev = *self;
            self.flush_if_resident(i);
            assert forall|k: int| 0 <= k < self.row_count && locate(k).0 < i + 1 implies #[trigger] self.row_persisted(k) by {
                if locate(k).0 < i {
                    assert(prev.row_persisted(k));
                }
            }
            i = i + 1;
        }
        let added_rows = self.row_count % ROWS_PER_PAGE;
        if added_rows > 0 {
            let ghost prev = *self;
            self.flush_if_resident(total_pages);
            assert forall|k: int| 0 <= k < self.row_count && locate(k).0 < total_pages implies #[trigger] self.row_persisted(k) by {
                assert(prev.row_persisted(k));
            }
        }
        assert forall|k: int| 0 <= k < self.row_count implies #[trigger] self.row_persisted(k) by {
            assert(locate(k).0 <= total_pages);
            if locate(k).0 < total_pages {
            } else {
                assert(added_rows > 0);
            }
        }
        assert(self.rows() =~= before.rows());
    }
}

/// Every resident page of `pages` below `n` stands in `file` at its place.
pub open spec fn covers(file: Seq<u8>, pages: Seq<Option<Vec<u8>>>, n: nat) -> bool {
    forall|i: int|
        0 <= i < n && i < pages.len() && (#[trigger] pages[i]) is Some ==> file.len() >= (i + 1)
            * PAGE_SIZE && file.subrange(i * PAGE_SIZE, (i + 1) * PAGE_SIZE) == pages[i]->Some_0@
}

/// Every resident page is `PAGE_SIZE` bytes long.
pub open spec fn full_pages(pages: Seq<Option<Vec<u8>>>) -> bool {
    forall|i: int| 0 <= i < pages.len() && (#[trigger] pages[i]) is Some ==> pages[i]->Some_0@.len() == PAGE_SIZE
}

/// After the resident pages below `n` are written, each stands in the file.
proof fn lemma_flushed_covers(file: Seq<u8>, pages: Seq<Option<Vec<u8>>>, n: nat)
    requires
        full_pages(pages),
    ensures
        covers(flushed(file, pages, n), pages, n),
    decreases n,
{
    if n > 0 {
        let m = (n - 1) as nat;
        lemma_flushed_covers(file, pages, m);
        let f = flushed(file, pages, m);
        let g = flushed(file, pages, n);
        assert forall|i: int|
            0 <= i < n && i < pages.len() && (#[trigger] pages[i]) is Some implies g.len() >= (i + 1)
                * PAGE_SIZE && g.subrange(i * PAGE_SIZE, (i + 1) * PAGE_SIZE) == pages[i]->Some_0@ by {
            if i == m {
                assert(g.subrange(i * PAGE_SIZE, (i + 1) * PAGE_SIZE) =~= pages[i]->Some_0@);
            } else {
                assert(f.subrange(i * PAGE_SIZE, (i + 1) * PAGE_SIZE) == pages[i]->Some_0@);
                assert(g.subrange(i * PAGE_SIZE, (i + 1) * PAGE_SIZE) =~= f.subrange(
                    i * PAGE_SIZE,
                    (i + 1) * PAGE_SIZE,
                ));
            }
        }
    }
}

/// Writing pages that the file already holds at their places changes nothing.
proof fn lemma_flushed_fixed(file: Seq<u8>, pages: Seq<Option<Vec<u8>>>, n: nat)
    requires
        covers(file, pages, n),
    ensures
        flushed(file, pages, n) == file,
    decreases n,
{
    if n > 0 {
        let m = (n - 1) as nat;
        assert(covers(file, pages, m));
        lemma_flushed_fixed(file, pages, m);
        if 0 <= m < pages.len() && pages[m as int] is Some {
            let page = pages[m as int]->Some_0@;
            assert(file.subrange(m * PAGE_SIZE, (m + 1) * PAGE_SIZE) == page);
            assert forall|k: int| m * PAGE_SIZE <= k < (m + 1) * PAGE_SIZE implies file[k] == page[k
                - m * PAGE_SIZE] by {
                assert(file.subrange(m * PAGE_SIZE, (m + 1) * PAGE_SIZE)[k - m * PAGE_SIZE] == file[k]);
            }
            assert(write_page(file, m as int, page) =~= file);
        }
    }
}

/// Closing a table a second time, with nothing done in between, leaves the
/// file image as the first close left it: writing the same resident pages
/// again changes nothing.
pub proof fn lemma_close_twice(file: Seq<u8>, pages: Seq<Option<Vec<u8>>>, n: nat)
    requires
        full_pages(pages),
    ensures
        flushed(flushed(file, pages, n), pages, n) == flushed(file, pages, n),
{
    lemma_flushed_covers(file, pages, n);
    lemma_flushed_fixed(flushed(file, pages, n), pages, n);
}

/// A table whose rows are all in the file image, opened again on that image,
/// shows at least as many rows, and its first rows are the table's rows.
pub proof fn lemma_reopen(t: Table)
    requires
        t.wf(),
        t.persisted(),
    ensures
        file_rows(t.pager.file@).len() >= t.row_count,
        file_rows(t.pager.file@).subrange(0, t.row_count as int) == t.rows(),
{
    let f = t.pager.file@;
    if t.row_count > 0 {
        let last = t.row_count - 1;
        assert(t.row_persisted(last));
        assert(t.row_count * 289 <= f.len());
        assert(t.row_count <= f.len() / 289) by (nonlinear_arith)
            requires
                t.row_count * 289 <= f.len(),
        ;
    }
    assert forall|k: int| 0 <= k < t.row_count implies file_rows(f)[k] == t.rows()[k] by {
        assert(t.row_persisted(k));
    }
    assert(file_rows(f).subrange(0, t.row_count as int) =~= t.rows());
}

} // verus!
