//! Book and page records as read from an export, and the rule that picks
//! record files by name.

use vstd::prelude::*;
use crate::hex::Rgba;

verus! {

/// The background pattern a page asks for.
#[derive(Clone, Copy, Debug, PartialEq, Eq, Structural)]
pub enum CanvasStyle {
    Plain,
    Grid,
}

/// The style tag that marks a grid page: `GRID`.
pub open spec fn grid_tag() -> Seq<u8> {
    seq![71u8, 82u8, 73u8, 68u8]
}

impl CanvasStyle {
    /// Reads a page's style tag: `GRID` is a grid, anything else plain.
    pub fn from_tag(tag: &[u8]) -> (r: CanvasStyle)
        ensures
            r == CanvasStyle::Grid <==> tag@ == grid_tag(),
    {
        if tag.len() == 4 && tag[0] == 71 && tag[1] == 82 && tag[2] == 73 && tag[3] == 68 {
            assert(tag@ =~= grid_tag());
            CanvasStyle::Grid
        } else {
            CanvasStyle::Plain
        }
    }
}

/// One page of an export. Lengths are in the canvas unit that the caller
/// chose; the page's own number field is unreliable and is not kept.
#[derive(Clone, Copy, Debug, PartialEq, Eq, Structural)]
pub struct Page {
    pub id: u64,
    /// The owning book's id; 0 when the page belongs to no book.
    pub book_ref: u64,
    pub color: Rgba,
    pub display_order: u64,
    pub width: u64,
    pub height: u64,
    pub style: CanvasStyle,
    pub grid_size: u64,
    pub lines_color: Rgba,
}

/// A book record: its id and its title as UTF-8 bytes.
#[derive(Debug)]
pub struct BookRecord {
    pub id: u64,
    pub title: Vec<u8>,
}

/// A book with the pages attached to it.
#[derive(Debug)]
pub struct Book {
    pub id: u64,
    pub title: Vec<u8>,
    pub pages: Vec<Page>,
}

pub struct BookView {
    pub id: u64,
    pub title: Seq<u8>,
    pub pages: Seq<Page>,
}

impl View for Book {
    type V = BookView;

    open spec fn view(&self) -> BookView {
        BookView { id: self.id, title: self.title@, pages: self.pages@ }
    }
}

/// The decimal digits of `n`, most significant first.
pub open spec fn decimal(n: nat) -> Seq<u8>
    decreases n,
{
    if n < 10 {
        seq![(48 + n) as u8]
    } else {
        decimal(n / 10).push((48 + n % 10) as u8)
    }
}

/// `Unnamed_` followed by the decimal digits of `n`.
pub open spec fn unnamed_title(n: nat) -> Seq<u8> {
    seq![85u8, 110u8, 110u8, 97u8, 109u8, 101u8, 100u8, 95u8] + decimal(n)
}

fn decimal_bytes(n: u64) -> (r: Vec<u8>)
    ensures
        r@ == decimal(n as nat),
    decreases n,
{
    if n < 10 {
        vec![48 + n as u8]
    } else {
        let mut v = decimal_bytes(n / 10);
        v.push(48 + (n % 10) as u8);
        v
    }
}

/// The title given to the book made for the `n`-th page that has no book.
pub fn unnamed_book_title(n: u64) -> (r: Vec<u8>)
    ensures
        r@ == unnamed_title(n as nat),
{
    let mut t: Vec<u8> = vec![85, 110, 110, 97, 109, 101, 100, 95];
    let mut d = decimal_bytes(n);
    t.append(&mut d);
    assert(t@ =~= unnamed_title(n as nat));
    t
}

/// Index of the last `.` in `s`, or -1 when there is none.
pub open spec fn last_dot(s: Seq<u8>) -> int
    decreases s.len(),
{
    if s.len() == 0 {
        -1
    } else if s.last() == 46 {
        s.len() - 1
    } else {
        last_dot(s.drop_last())
    }
}

/// The extension of a file name: what follows its last `.`, where that dot
/// is not the name's first byte.
pub open spec fn extension(name: Seq<u8>) -> Option<Seq<u8>> {
    if last_dot(name) <= 0 {
        None
    } else {
        Some(name.subrange(last_dot(name) + 1, name.len() as int))
    }
}

/// A record file: its extension is exactly `ext` and its name starts with `prefix`.
pub open spec fn is_record_name(name: Seq<u8>, ext: Seq<u8>, prefix: Seq<u8>) -> bool {
    &&& extension(name) == Some(ext)
    &&& prefix.is_prefix_of(name)
}

proof fn lemma_last_dot_bounds(s: Seq<u8>)
    ensures
        -1 <= last_dot(s) < s.len(),
        last_dot(s) >= 0 ==> s[last_dot(s)] == 46,
        forall|j: int| last_dot(s) < j < s.len() ==> s[j] != 46,
    decreases s.len(),
{
    if s.len() > 0 && s.last() != 46 {
        lemma_last_dot_bounds(s.drop_last());
        assert forall|j: int| last_dot(s) < j < s.len() implies s[j] != 46 by {
            if j < s.len() - 1 {
                assert(s[j] == s.drop_last()[j]);
            }
        }
    }
}

proof fn lemma_last_dot_scan(s: Seq<u8>, k: int)
    requires
        0 <= k <= s.len(),
        forall|j: int| k <= j < s.len() ==> s[j] != 46,
    ensures
        last_dot(s) == last_dot(s.subrange(0, k)),
    decreases s.len() - k,
{
    if k < s.len() {
        assert(s.drop_last() =~= s.subrange(0, s.len() - 1));
        lemma_last_dot_scan(s.drop_last(), k);
        assert(s.drop_last().subrange(0, k) =~= s.subrange(0, k));
    } else {
        assert(s.subrange(0, k) =~= s);
    }
}

fn suffix_equals(a: &[u8], start: usize, b: &[u8]) -> (r: bool)
    requires
        start <= a@.len(),
    ensures
        r == (a@.subrange(start as int, a@.len() as int) == b@),
{
    if a.len() - start != b.len() {
        assert(a@.subrange(start as int, a@.len() as int).len() != b@.len());
        return false;
    }
    let mut i: usize = 0;
    while i < b.len()
        invariant
            start <= a@.len(),
            a@.len() - start == b@.len(),
            0 <= i <= b@.len(),
            a@.len() <= usize::MAX,
            forall|j: int| 0 <= j < i ==> a@[start + j] == b@[j],
        decreases b@.len() - i,
    {
        if a[start + i] != b[i] {
            assert(a@.subrange(start as int, a@.len() as int)[i as int] != b@[i as int]);
            return false;
        }
        i += 1;
    }
    assert(a@.subrange(start as int, a@.len() as int) =~= b@);
    true
}

/// Whether a file name picks a record: its extension is `ext` and it starts with `prefix`.
pub fn record_name_matches(name: &[u8], ext: &[u8], prefix: &[u8]) -> (r: bool)
    ensures
        r == is_record_name(name@, ext@, prefix@),
{
    proof {
        lemma_last_dot_bounds(name@);
    }
    if prefix.len() > name.len() {
        return false;
    }
    let mut i: usize = 0;
    while i < prefix.len()
        invariant
            prefix@.len() <= name@.len(),
            0 <= i <= prefix@.len(),
            forall|j: int| 0 <= j < i ==> prefix@[j] == name@[j],
        decreases prefix@.len() - i,
    {
        if prefix[i] != name[i] {
            return false;
        }
        i += 1;
    }
    let mut k: usize = name.len();
    while k > 0 && name[k - 1] != 46
        invariant
            0 <= k <= name@.len(),
            forall|j: int| k <= j < name@.len() ==> name@[j] != 46,
        decreases k,
    {
        k -= 1;
    }
    proof {
        lemma_last_dot_scan(name@, k as int);
        if k > 0 {
            let t = name@.subrange(0, k as int);
            assert(t.last() == 46);
        } else {
            assert(name@.subrange(0, 0).len() == 0);
        }
    }
    if k <= 1 {
        return false;
    }
    suffix_equals(name, k, ext)
}

/// The extension of a saved document: `.rnote`.
pub open spec fn document_extension() -> Seq<u8> {
    seq![46u8, 114u8, 110u8, 111u8, 116u8, 101u8]
}

/// The file a book is saved to: its title followed by `.rnote`.
pub fn output_file_name(title: &[u8]) -> (r: Vec<u8>)
    ensures
        r@ == title@ + document_extension(),
{
    let mut out: Vec<u8> = Vec::new();
    let mut i: usize = 0;
    while i < title.len()
        invariant
            0 <= i <= title@.len(),
            out@ == title@.subrange(0, i as int),
        decreases title@.len() - i,
    {
        out.push(title[i]);
        assert(out@ =~= title@.subrange(0, i + 1));
        i += 1;
    }
    let mut ext: Vec<u8> = vec![46, 114, 110, 111, 116, 101];
    out.append(&mut ext);
    assert(out@ =~= title@ + document_extension());
    out
}

} // verus!
