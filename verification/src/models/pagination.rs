//! Pages of a listing.

use vstd::prelude::*;

verus! {

/// One page of a listing, with the numbers that place it in the whole.
#[derive(Debug)]
pub struct Page<T> {
    pub content: Vec<T>,
    pub page: usize,
    pub size: usize,
    pub total_elements: usize,
    pub total_pages: usize,
}

/// The number of pages of `size` elements that `total` elements fill: the
/// quotient, rounded up.
pub open spec fn page_count(total: nat, size: nat) -> nat
    recommends
        size > 0,
{
    total / size + (if total % size > 0 {
        1nat
    } else {
        0nat
    })
}

/// The elements of page number `page`, counted from 0, where every page
/// but the last holds `size` elements.
pub open spec fn page_slice<T>(items: Seq<T>, page: nat, size: nat) -> Seq<T> {
    let start = page * size;
    if start >= items.len() {
        Seq::empty()
    } else if start + size >= items.len() {
        items.subrange(start as int, items.len() as int)
    } else {
        items.subrange(start as int, (start + size) as int)
    }
}

/// The page count is the least number of pages that hold all elements.
pub proof fn lemma_page_count_is_ceiling(total: nat, size: nat)
    requires
        size > 0,
    ensures
        page_count(total, size) * size >= total,
        total > 0 ==> (page_count(total, size) - 1) * size < total,
        total == 0 ==> page_count(total, size) == 0,
{
    let q = total / size;
    let r = total % size;
    assert(total == q * size + r && 0 <= r < size) by (nonlinear_arith)
        requires
            q == total / size,
            r == total % size,
            size > 0,
    ;
    assert((q + 1) * size == q * size + size) by (nonlinear_arith);
    assert((q - 1) * size == q * size - size) by (nonlinear_arith);
    if total == 0 {
        assert(q == 0 && r == 0) by (nonlinear_arith)
            requires
                0 == q * size + r,
                0 <= r < size,
                q >= 0,
        ;
    }
}

/// The pages lie side by side: page `page` holds the elements from
/// position `page * size` on, `size` of them or as many as are left.
pub proof fn lemma_page_slice_len<T>(items: Seq<T>, page: nat, size: nat)
    ensures
        page_slice(items, page, size).len() == (if page * size >= items.len() {
            0
        } else if page * size + size >= items.len() {
            items.len() - page * size
        } else {
            size as int
        }),
        forall|i: int|
            0 <= i < page_slice(items, page, size).len() ==> #[trigger] page_slice(
                items,
                page,
                size,
            )[i] == items[page * size + i],
{
}

impl<T> Page<T> {
    /// Cuts page number `page` out of a listing.
    pub fn of(items: Vec<T>, page: usize, size: usize) -> (result: Page<T>)
        requires
            size > 0,
        ensures
            result.content@ == page_slice(items@, page as nat, size as nat),
            result.page == page,
            result.size == size,
            result.total_elements == items@.len(),
            result.total_pages == page_count(items@.len(), size as nat),
    {
        let total_elements: usize = items.len();
        assert(total_elements % size > 0 ==> total_elements / size < total_elements)
            by (nonlinear_arith)
            requires
                size > 0,
        ;
        let total_pages: usize = total_elements / size + (if total_elements % size > 0 {
            1
        } else {
            0
        });
        let mut content = items;
        match page.checked_mul(size) {
            Some(start) => {
                if start >= total_elements {
                    content.truncate(0);
                    assert(content@ =~= Seq::<T>::empty());
                } else {
                    if size < total_elements - start {
                        content.truncate(start + size);
                    }
                    content = content.split_off(start);
                    assert(content@ =~= page_slice(items@, page as nat, size as nat));
                }
            },
            None => {
                content.truncate(0);
                assert(content@ =~= Seq::<T>::empty());
                assert(page * size >= items@.len());
            },
        }
        Page { content, page, size, total_elements, total_pages }
    }
}

} // verus!
