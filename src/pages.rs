//! The decisions of a paginated listing: hand out the items of the current
//! page one at a time, ask for the next page when they run out, and stop
//! after the last page. Fetching a page is left to the caller.
use vstd::prelude::*;

verus! {

/// What the caller of `Pager::next_action` should do.
#[derive(Debug)]
pub enum PageAction<T> {
    /// Hand out this item.
    Yield(T),
    /// Fetch this page and pass it to `page_arrived`.
    Fetch(u32),
    /// The listing is complete.
    Done,
}

/// Items of the current page not yet handed out, and the page to fetch next
/// (`None` once the last page has arrived).
pub struct Pager<T> {
    page: Option<u32>,
    batch: Vec<T>,
}

impl<T> Pager<T> {
    /// Items still to hand out before another page is needed.
    pub closed spec fn queue(&self) -> Seq<T> {
        self.batch@
    }

    /// The page to fetch when the queue runs dry.
    pub closed spec fn next_page(&self) -> Option<u32> {
        self.page
    }

    /// A listing that starts at page 0.
    pub fn new() -> (r: Pager<T>)
        ensures
            r.queue() == Seq::<T>::empty(),
            r.next_page() == Some(0u32),
    {
        Pager { page: Some(0), batch: Vec::new() }
    }

    /// The page to fetch when the queue runs dry.
    pub fn page_to_fetch(&self) -> (r: Option<u32>)
        ensures
            r == self.next_page(),
    {
        self.page
    }

    /// The next item if one is queued, else the page to fetch, else the end.
    pub fn next_action(&mut self) -> (r: PageAction<T>)
        ensures
            final(self).next_page() == old(self).next_page(),
            old(self).queue().len() > 0 ==> r == PageAction::Yield(old(self).queue()[0])
                && final(self).queue() == old(self).queue().drop_first(),
            old(self).queue().len() == 0 ==> final(self).queue() == old(self).queue() && match old(
                self,
            ).next_page() {
                Some(p) => r == PageAction::<T>::Fetch(p),
                None => r == PageAction::<T>::Done,
            },
    {
        if self.batch.len() > 0 {
            let item = self.batch.remove(0);
            assert(self.batch@ =~= old(self).batch@.drop_first());
            PageAction::Yield(item)
        } else {
            match self.page {
                Some(p) => PageAction::Fetch(p),
                None => PageAction::Done,
            }
        }
    }

    /// Takes the items of the page just fetched; `has_next` says whether the
    /// listing goes on after it. Page numbers stop at `u32::MAX`.
    pub fn page_arrived(&mut self, items: Vec<T>, has_next: bool)
        requires
            old(self).next_page() is Some,
        ensures
            final(self).queue() == old(self).queue().add(items@),
            final(self).next_page() == if has_next && old(self).next_page()->Some_0 < u32::MAX {
                Some((old(self).next_page()->Some_0 + 1) as u32)
            } else {
                None
            },
    {
        let mut items = items;
        self.batch.append(&mut items);
        let p = match self.page {
            Some(p) => p,
            None => 0,
        };
        if has_next && p < u32::MAX {
            self.page = Some(p + 1);
        } else {
            self.page = None;
        }
    }
}

} // verus!
