//! Cursor-walk over a paginated endpoint.
//!
//! A `Paginator` accumulates the items of one logical listing across
//! repeated page fetches.  The caller performs each fetch with the cursor
//! the paginator holds and feeds the returned page back; the walk is done
//! when a page arrives without a continuation cursor.  Pagination of one
//! listing is all-or-nothing: a failed fetch is the caller's terminal
//! error for the whole chain, so no partial state ever leaves this type.

use vstd::prelude::*;
use crate::model::Page;

verus! {

/// Accumulator for one cursor-paginated listing.
pub struct Paginator<T> {
    items: Vec<T>,
    cursor: Option<String>,
    finished: bool,
}

impl<T> Paginator<T> {
    /// The items accumulated so far, in fetch order.
    pub closed spec fn spec_items(self) -> Seq<T> {
        self.items@
    }

    /// The continuation cursor to use for the next fetch; absent on the
    /// very first fetch.
    pub closed spec fn spec_cursor(self) -> Option<String> {
        self.cursor
    }

    /// The walk has seen a page without a continuation cursor.
    pub closed spec fn spec_finished(self) -> bool {
        self.finished
    }

    /// A fresh walk: nothing accumulated, the first fetch uses no cursor.
    pub fn new() -> (p: Self)
        ensures
            p.spec_items() == Seq::<T>::empty(),
            p.spec_cursor() is None,
            !p.spec_finished(),
    {
        Paginator { items: Vec::new(), cursor: None, finished: false }
    }

    /// The cursor for the next fetch.
    pub fn cursor(&self) -> (c: &Option<String>)
        ensures
            *c == self.spec_cursor(),
    {
        &self.cursor
    }

    /// Whether the walk is complete.
    pub fn is_finished(&self) -> (b: bool)
        ensures
            b == self.spec_finished(),
    {
        self.finished
    }

    /// Consumes the page fetched for the current cursor: appends its items
    /// to the accumulation and takes over its continuation cursor.  Returns
    /// whether another fetch is owed.
    pub fn feed(&mut self, page: Page<T>) -> (more: bool)
        requires
            !old(self).spec_finished(),
        ensures
            final(self).spec_items() == old(self).spec_items() + page.items@,
            final(self).spec_cursor() == page.next_cursor,
            final(self).spec_finished() == (page.next_cursor is None),
            more == (page.next_cursor is Some),
    {
        let mut page = page;
        self.items.append(&mut page.items);
        let more = page.next_cursor.is_some();
        self.finished = !more;
        self.cursor = page.next_cursor;
        more
    }

    /// Hands out everything accumulated, in fetch order.
    pub fn into_items(self) -> (r: Vec<T>)
        ensures
            r@ == self.spec_items(),
    {
        self.items
    }
}

/// The items of a sequence of pages, concatenated in fetch order.
pub open spec fn pages_items<T>(pages: Seq<Page<T>>) -> Seq<T>
    decreases pages.len(),
{
    if pages.len() == 0 {
        Seq::empty()
    } else {
        pages_items(pages.drop_last()) + pages.last().items@
    }
}

/// A complete pagination trace: at least the initial fetch happened, every
/// page but the last carries a continuation cursor, and the last does not.
pub open spec fn complete_trace<T>(pages: Seq<Page<T>>) -> bool {
    &&& pages.len() > 0
    &&& pages.last().next_cursor is None
    &&& forall|i: int| 0 <= i < pages.len() - 1 ==> (#[trigger] pages[i]).next_cursor is Some
}

/// Walking a complete pagination trace returns exactly the concatenation
/// of all page items, in fetch order.
pub fn collect_pages<T>(pages: Vec<Page<T>>) -> (r: Vec<T>)
    requires
        complete_trace(pages@),
    ensures
        r@ == pages_items(pages@),
{
    let ghost all = pages@;
    let mut pages = pages;
    let mut pag = Paginator::<T>::new();
    while pages.len() > 0
        invariant
            pages@.len() <= all.len(),
            pages@ == all.skip(all.len() - pages@.len()),
            pag.spec_items() == pages_items(all.take(all.len() - pages@.len())),
            pag.spec_finished() <==> pages@.len() == 0,
            complete_trace(all),
        decreases pages@.len(),
    {
        let ghost k = all.len() - pages@.len();
        let page = pages.remove(0);
        proof {
            assert(page == all[k]);
            assert(pages@ =~= all.skip(k + 1));
            assert(all.take(k + 1).drop_last() =~= all.take(k));
            assert(all.take(k + 1).last() == all[k]);
        }
        pag.feed(page);
        proof {
            if pages@.len() > 0 {
                assert(all[k].next_cursor is Some);
            } else {
                assert(all[k] == all.last());
            }
        }
    }
    proof {
        assert(all.take(all.len() as int) =~= all);
    }
    pag.into_items()
}

} // verus!
