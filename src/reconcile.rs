//! Correlation of pages with their books, and the order of pages in a book.

use vstd::prelude::*;
use std::collections::HashMap;
use crate::records::{Book, BookRecord, BookView, Page, unnamed_book_title, unnamed_title};

verus! {

broadcast use vstd::std_specs::hash::group_hash_axioms;

/// The books keyed by id, each with no pages yet; a later record with an
/// id already seen replaces the earlier one.
pub open spec fn books_map(books: Seq<BookRecord>) -> Map<u64, BookView>
    decreases books.len(),
{
    if books.len() == 0 {
        Map::empty()
    } else {
        let r = books.last();
        books_map(books.drop_last()).insert(r.id, BookView { id: r.id, title: r.title@, pages: seq![] })
    }
}

/// One page folded into (count of orphan pages so far, books by id).
/// An orphan gets a book of its own, keyed by the orphan count; a page whose
/// book is known joins its end; a page whose book is unknown is dropped.
pub open spec fn attach_page(state: (nat, Map<u64, BookView>), p: Page) -> (nat, Map<u64, BookView>) {
    let c = state.0;
    let m = state.1;
    if p.book_ref == 0 {
        (c + 1, m.insert(c as u64, BookView { id: c as u64, title: unnamed_title(c), pages: seq![p] }))
    } else if m.contains_key(p.book_ref) {
        let b = m[p.book_ref];
        (c, m.insert(p.book_ref, BookView { id: b.id, title: b.title, pages: b.pages.push(p) }))
    } else {
        (c, m)
    }
}

/// The pages folded, in discovery order, into the books of `m`.
pub open spec fn attach_pages(m: Map<u64, BookView>, pages: Seq<Page>) -> (nat, Map<u64, BookView>)
    decreases pages.len(),
{
    if pages.len() == 0 {
        (0, m)
    } else {
        attach_page(attach_pages(m, pages.drop_last()), pages.last())
    }
}

/// The books, by id, that the book and page records make.
pub open spec fn reconciled(books: Seq<BookRecord>, pages: Seq<Page>) -> Map<u64, BookView> {
    attach_pages(books_map(books), pages).1
}

pub open spec fn books_view(m: Map<u64, Book>) -> Map<u64, BookView> {
    m.map_values(|b: Book| b@)
}

proof fn lemma_orphans_bounded(m: Map<u64, BookView>, pages: Seq<Page>)
    ensures
        attach_pages(m, pages).0 <= pages.len(),
    decreases pages.len(),
{
    if pages.len() > 0 {
        lemma_orphans_bounded(m, pages.drop_last());
    }
}

/// Builds the books from the book records and the page records, both in
/// discovery order.
pub fn reconcile(books: Vec<BookRecord>, pages: &Vec<Page>) -> (r: HashMap<u64, Book>)
    ensures
        books_view(r@) == reconciled(books@, pages@),
{
    let mut out: HashMap<u64, Book> = HashMap::new();
    let mut rest = books;
    let ghost all = rest@;
    let n = rest.len();
    let mut i: usize = 0;
    while i < n
        invariant
            n == all.len(),
            0 <= i <= n,
            rest@ == all.subrange(i as int, n as int),
            books_view(out@) == books_map(all.subrange(0, i as int)),
        decreases n - i,
    {
        let r = rest.remove(0);
        proof {
            assert(all.subrange(0, i + 1).drop_last() =~= all.subrange(0, i as int));
            assert(rest@ =~= all.subrange(i + 1, n as int));
        }
        let id = r.id;
        let b = Book { id: r.id, title: r.title, pages: Vec::new() };
        out.insert(id, b);
        assert(books_view(out@) =~= books_map(all.subrange(0, i + 1)));
        i += 1;
    }
    assert(all.subrange(0, n as int) =~= all);
    let mut orphans: u64 = 0;
    let mut j: usize = 0;
    while j < pages.len()
        invariant
            0 <= j <= pages@.len(),
            (orphans as nat, books_view(out@)) == attach_pages(books_map(all), pages@.subrange(
                0,
                j as int,
            )),
        decreases pages@.len() - j,
    {
        let p = pages[j];
        proof {
            assert(pages@.subrange(0, j + 1).drop_last() =~= pages@.subrange(0, j as int));
            lemma_orphans_bounded(books_map(all), pages@.subrange(0, j as int));
        }
        if p.book_ref == 0 {
            let title = unnamed_book_title(orphans);
            let mut own: Vec<Page> = Vec::new();
            own.push(p);
            out.insert(orphans, Book { id: orphans, title, pages: own });
            proof {
                let ghost expect = attach_pages(books_map(all), pages@.subrange(0, j + 1));
                assert(own@ =~= seq![p]);
                assert(books_view(out@) =~= expect.1);
            }
            orphans = orphans + 1;
        } else if let Some(mut b) = out.remove(&p.book_ref) {
            b.pages.push(p);
            out.insert(p.book_ref, b);
            assert(books_view(out@) =~= attach_pages(books_map(all), pages@.subrange(0, j + 1)).1);
        }
        j += 1;
    }
    assert(pages@.subrange(0, pages@.len() as int) =~= pages@);
    out
}

/// `p` placed into `s` after every page whose display order is not above its own.
pub open spec fn insert_ordered(s: Seq<Page>, p: Page) -> Seq<Page>
    decreases s.len(),
{
    if s.len() == 0 {
        seq![p]
    } else if s.last().display_order <= p.display_order {
        s.push(p)
    } else {
        insert_ordered(s.drop_last(), p).push(s.last())
    }
}

/// The pages stably sorted by display order: ties keep their discovery order.
pub open spec fn ordered(s: Seq<Page>) -> Seq<Page>
    decreases s.len(),
{
    if s.len() == 0 {
        s
    } else {
        insert_ordered(ordered(s.drop_last()), s.last())
    }
}

proof fn lemma_insert_at(s: Seq<Page>, p: Page, k: int)
    requires
        0 <= k <= s.len(),
        forall|j: int| k <= j < s.len() ==> s[j].display_order > p.display_order,
        k > 0 ==> s[k - 1].display_order <= p.display_order,
    ensures
        insert_ordered(s, p) == s.subrange(0, k).push(p) + s.subrange(k, s.len() as int),
    decreases s.len(),
{
    if s.len() == 0 {
        assert(s.subrange(0, k).push(p) + s.subrange(k, s.len() as int) =~= seq![p]);
    } else if k == s.len() {
        assert(s.subrange(0, k).push(p) + s.subrange(k, s.len() as int) =~= s.push(p));
    } else {
        let t = s.drop_last();
        lemma_insert_at(t, p, k);
        assert(t.subrange(0, k) =~= s.subrange(0, k));
        assert((t.subrange(0, k).push(p) + t.subrange(k, t.len() as int)).push(s.last())
            =~= s.subrange(0, k).push(p) + s.subrange(k, s.len() as int));
    }
}

/// The pages stably sorted by display order.
pub fn order_pages(pages: &Vec<Page>) -> (r: Vec<Page>)
    ensures
        r@ == ordered(pages@),
{
    let mut out: Vec<Page> = Vec::new();
    let mut i: usize = 0;
    while i < pages.len()
        invariant
            0 <= i <= pages@.len(),
            out@ == ordered(pages@.subrange(0, i as int)),
        decreases pages@.len() - i,
    {
        let p = pages[i];
        let mut k: usize = out.len();
        while k > 0 && out[k - 1].display_order > p.display_order
            invariant
                0 <= k <= out@.len(),
                forall|j: int| k <= j < out@.len() ==> out@[j].display_order > p.display_order,
            decreases k,
        {
            k -= 1;
        }
        proof {
            lemma_insert_at(out@, p, k as int);
            assert(pages@.subrange(0, i + 1).drop_last() =~= pages@.subrange(0, i as int));
        }
        out.insert(k, p);
        assert(out@ =~= ordered(pages@.subrange(0, i + 1)));
        i += 1;
    }
    assert(pages@.subrange(0, pages@.len() as int) =~= pages@);
    out
}

impl Book {
    /// Puts the book's pages in display order.
    pub fn order_pages(&mut self)
        ensures
            final(self).id == old(self).id,
            final(self).title@ == old(self).title@,
            final(self).pages@ == ordered(old(self).pages@),
    {
        self.pages = order_pages(&self.pages);
    }
}

/// Pages that all name one known book all join it, in discovery order:
/// none is dropped or repeated.
pub proof fn lemma_pages_join_their_book(books: Seq<BookRecord>, pages: Seq<Page>, id: u64)
    requires
        id != 0,
        exists|k: int| 0 <= k < books.len() && #[trigger] books[k].id == id,
        forall|k: int| 0 <= k < pages.len() ==> #[trigger] pages[k].book_ref == id,
    ensures
        reconciled(books, pages).contains_key(id),
        reconciled(books, pages)[id].pages == pages,
        reconciled(books, pages)[id].pages.len() == pages.len(),
{
    let k = choose|k: int| 0 <= k < books.len() && #[trigger] books[k].id == id;
    lemma_books_map_has(books, k);
    lemma_join(books_map(books), pages, id);
}

proof fn lemma_books_map_has(books: Seq<BookRecord>, k: int)
    requires
        0 <= k < books.len(),
    ensures
        books_map(books).contains_key(books[k].id),
        books_map(books)[books[k].id].pages == Seq::<Page>::empty(),
    decreases books.len(),
{
    if k < books.len() - 1 {
        lemma_books_map_has(books.drop_last(), k);
    }
}

proof fn lemma_join(m: Map<u64, BookView>, pages: Seq<Page>, id: u64)
    requires
        id != 0,
        m.contains_key(id),
        forall|k: int| 0 <= k < pages.len() ==> #[trigger] pages[k].book_ref == id,
    ensures
        attach_pages(m, pages).1.contains_key(id),
        attach_pages(m, pages).1[id].pages == m[id].pages + pages,
    decreases pages.len(),
{
    if pages.len() == 0 {
        assert(m[id].pages + pages =~= m[id].pages);
    } else {
        let t = pages.drop_last();
        assert forall|k: int| 0 <= k < t.len() implies #[trigger] t[k].book_ref == id by {
            assert(t[k] == pages[k]);
        }
        lemma_join(m, t, id);
        assert(pages.last().book_ref == id);
        assert((m[id].pages + t).push(pages.last()) =~= m[id].pages + pages);
    }
}

/// Each page with no book gets a book of its own, numbered by discovery from
/// 0 and titled `Unnamed_<n>`.
pub proof fn lemma_orphans_get_own_books(books: Seq<BookRecord>, pages: Seq<Page>)
    requires
        pages.len() <= u64::MAX,
        forall|k: int| 0 <= k < pages.len() ==> #[trigger] pages[k].book_ref == 0,
    ensures
        forall|k: int|
            0 <= k < pages.len() ==> #[trigger] reconciled(books, pages).contains_key(k as u64),
        forall|k: int|
            0 <= k < pages.len() ==> #[trigger] reconciled(books, pages)[k as u64] == (BookView {
                id: k as u64,
                title: unnamed_title(k as nat),
                pages: seq![pages[k]],
            }),
{
    lemma_orphans(books_map(books), pages);
}

proof fn lemma_orphans(m: Map<u64, BookView>, pages: Seq<Page>)
    requires
        pages.len() <= u64::MAX,
        forall|k: int| 0 <= k < pages.len() ==> #[trigger] pages[k].book_ref == 0,
    ensures
        attach_pages(m, pages).0 == pages.len(),
        forall|k: int|
            0 <= k < pages.len() ==> #[trigger] attach_pages(m, pages).1.contains_key(k as u64),
        forall|k: int|
            0 <= k < pages.len() ==> #[trigger] attach_pages(m, pages).1[k as u64] == (BookView {
                id: k as u64,
                title: unnamed_title(k as nat),
                pages: seq![pages[k]],
            }),
    decreases pages.len(),
{
    if pages.len() > 0 {
        let t = pages.drop_last();
        assert forall|k: int| 0 <= k < t.len() implies #[trigger] t[k].book_ref == 0 by {
            assert(t[k] == pages[k]);
        }
        lemma_orphans(m, t);
        assert(pages.last().book_ref == 0);
        assert forall|k: int| 0 <= k < pages.len() implies #[trigger] attach_pages(
            m,
            pages,
        ).1.contains_key(k as u64) && attach_pages(m, pages).1[k as u64] == (BookView {
            id: k as u64,
            title: unnamed_title(k as nat),
            pages: seq![pages[k]],
        }) by {
            let prev = attach_pages(m, t);
            assert(attach_pages(m, pages) == attach_page(prev, pages.last()));
            if k < t.len() {
                assert(t[k] == pages[k]);
                assert((k as u64) != (t.len() as u64));
                assert(prev.1.contains_key(k as u64));
                assert(prev.1[k as u64] == (BookView {
                    id: k as u64,
                    title: unnamed_title(k as nat),
                    pages: seq![t[k]],
                }));
            } else {
                assert(pages[k] == pages.last());
            }
        }
    }
}

pub open spec fn is_ordered(s: Seq<Page>) -> bool {
    forall|i: int, j: int| 0 <= i < j < s.len() ==> s[i].display_order <= s[j].display_order
}

proof fn lemma_insert_ordered(s: Seq<Page>, p: Page)
    requires
        is_ordered(s),
    ensures
        is_ordered(insert_ordered(s, p)),
        insert_ordered(s, p).to_multiset() == s.to_multiset().insert(p),
        forall|i: int|
            0 <= i < insert_ordered(s, p).len() ==> #[trigger] insert_ordered(s, p)[i] == p
                || s.contains(insert_ordered(s, p)[i]),
    decreases s.len(),
{
    broadcast use vstd::seq_lib::group_to_multiset_ensures;

    if s.len() == 0 {
        assert(seq![p] =~= Seq::<Page>::empty().push(p));
    } else if s.last().display_order <= p.display_order {
    } else {
        let t = s.drop_last();
        lemma_insert_ordered(t, p);
        let u = insert_ordered(t, p);
        assert forall|i: int| 0 <= i < u.len() implies u[i].display_order
            <= s.last().display_order by {
            if u[i] != p {
                let k = choose|k: int| 0 <= k < t.len() && t[k] == u[i];
                assert(s[k] == t[k]);
            }
        }
        assert(s =~= t.push(s.last()));
        assert forall|i: int| 0 <= i < u.len() + 1 implies #[trigger] u.push(s.last())[i] == p
            || s.contains(u.push(s.last())[i]) by {
            if i < u.len() && u[i] != p {
                let k = choose|k: int| 0 <= k < t.len() && t[k] == u[i];
                assert(s[k] == t[k]);
            } else if i == u.len() {
                assert(s[s.len() - 1] == s.last());
            }
        }
    }
}

/// Ordering pages sorts them by display order and keeps every page exactly once.
pub proof fn lemma_ordered_is_sorted_permutation(s: Seq<Page>)
    ensures
        is_ordered(ordered(s)),
        ordered(s).to_multiset() == s.to_multiset(),
    decreases s.len(),
{
    broadcast use vstd::seq_lib::group_to_multiset_ensures;

    if s.len() > 0 {
        lemma_ordered_is_sorted_permutation(s.drop_last());
        lemma_insert_ordered(ordered(s.drop_last()), s.last());
        assert(s =~= s.drop_last().push(s.last()));
    }
}

pub open spec fn has_order(k: u64) -> spec_fn(Page) -> bool {
    |p: Page| p.display_order == k
}

proof fn lemma_insert_ordered_stable(s: Seq<Page>, p: Page, k: u64)
    ensures
        insert_ordered(s, p).filter(has_order(k)) == s.push(p).filter(has_order(k)),
    decreases s.len(),
{
    broadcast use vstd::seq::Seq::lemma_filter_push;

    if s.len() > 0 && s.last().display_order > p.display_order {
        let t = s.drop_last();
        lemma_insert_ordered_stable(t, p, k);
        assert(s =~= t.push(s.last()));
        assert(s.push(p) =~= t.push(s.last()).push(p));
        if p.display_order == k {
            assert(!has_order(k)(s.last()));
        }
    }
}

/// Pages with equal display orders keep their discovery order: for every
/// display order, the pages that have it come out in the order they went in.
pub proof fn lemma_ordered_is_stable(s: Seq<Page>, k: u64)
    ensures
        ordered(s).filter(has_order(k)) == s.filter(has_order(k)),
    decreases s.len(),
{
    broadcast use vstd::seq::Seq::lemma_filter_push;

    if s.len() > 0 {
        let t = s.drop_last();
        lemma_ordered_is_stable(t, k);
        lemma_insert_ordered_stable(ordered(t), s.last(), k);
        assert(s =~= t.push(s.last()));
    }
}

} // verus!
