//! The per-page asset manifest: one record per line, fields separated by `;`.

use vstd::prelude::*;

verus! {

/// The parts of `s` between the `sep` bytes: one more than there are `sep` bytes.
pub open spec fn split(s: Seq<u8>, sep: u8) -> Seq<Seq<u8>>
    decreases s.len(),
{
    if s.len() == 0 {
        seq![Seq::empty()]
    } else {
        let parts = split(s.drop_last(), sep);
        if s.last() == sep {
            parts.push(Seq::empty())
        } else {
            parts.update(parts.len() - 1, parts.last().push(s.last()))
        }
    }
}

proof fn lemma_split_nonempty(s: Seq<u8>, sep: u8)
    ensures
        split(s, sep).len() >= 1,
    decreases s.len(),
{
    if s.len() > 0 {
        lemma_split_nonempty(s.drop_last(), sep);
    }
}

pub open spec fn views(v: Seq<Vec<u8>>) -> Seq<Seq<u8>> {
    v.map_values(|b: Vec<u8>| b@)
}

/// Splits `s` at every `sep` byte.
pub fn split_bytes(s: &[u8], sep: u8) -> (r: Vec<Vec<u8>>)
    ensures
        views(r@) == split(s@, sep),
{
    let mut parts: Vec<Vec<u8>> = Vec::new();
    let mut cur: Vec<u8> = Vec::new();
    let mut i: usize = 0;
    while i < s.len()
        invariant
            0 <= i <= s@.len(),
            views(parts@).push(cur@) == split(s@.subrange(0, i as int), sep),
        decreases s@.len() - i,
    {
        let ghost before = s@.subrange(0, i as int);
        let ghost after = s@.subrange(0, i + 1);
        assert(after.drop_last() =~= before);
        proof {
            lemma_split_nonempty(before, sep);
        }
        if s[i] == sep {
            parts.push(cur);
            cur = Vec::new();
            assert(views(parts@).push(cur@) =~= split(after, sep));
        } else {
            cur.push(s[i]);
            assert(views(parts@).push(cur@) =~= split(after, sep));
        }
        i += 1;
    }
    assert(s@.subrange(0, s@.len() as int) =~= s@);
    parts.push(cur);
    assert(views(parts@) =~= split(s@, sep));
    parts
}

/// A line without its trailing carriage return.
pub open spec fn strip_cr(l: Seq<u8>) -> Seq<u8> {
    if l.len() > 0 && l.last() == 13 {
        l.drop_last()
    } else {
        l
    }
}

/// The lines that hold something once their carriage return is gone.
pub open spec fn content_lines(ls: Seq<Seq<u8>>) -> Seq<Seq<u8>>
    decreases ls.len(),
{
    if ls.len() == 0 {
        ls
    } else {
        let rest = content_lines(ls.drop_last());
        let l = strip_cr(ls.last());
        if l.len() > 0 {
            rest.push(l)
        } else {
            rest
        }
    }
}

/// The non-empty lines of a manifest text.
pub open spec fn manifest_lines(text: Seq<u8>) -> Seq<Seq<u8>> {
    content_lines(split(text, 10))
}

/// The fields of a manifest record that are read: file name (field 0),
/// width (2), height (3), x (11) and y (12), each as its text.
pub struct AssetLine {
    pub filename: Vec<u8>,
    pub width: Vec<u8>,
    pub height: Vec<u8>,
    pub x: Vec<u8>,
    pub y: Vec<u8>,
}

pub struct AssetLineView {
    pub filename: Seq<u8>,
    pub width: Seq<u8>,
    pub height: Seq<u8>,
    pub x: Seq<u8>,
    pub y: Seq<u8>,
}

impl View for AssetLine {
    type V = AssetLineView;

    open spec fn view(&self) -> AssetLineView {
        AssetLineView {
            filename: self.filename@,
            width: self.width@,
            height: self.height@,
            x: self.x@,
            y: self.y@,
        }
    }
}

/// A record line has at least the thirteen fields that are read.
pub open spec fn is_record_line(line: Seq<u8>) -> bool {
    split(line, 59).len() >= 13
}

pub open spec fn asset_of(line: Seq<u8>) -> AssetLineView {
    let f = split(line, 59);
    AssetLineView { filename: f[0], width: f[2], height: f[3], x: f[11], y: f[12] }
}

pub open spec fn asset_views(v: Seq<AssetLine>) -> Seq<AssetLineView> {
    v.map_values(|a: AssetLine| a@)
}

/// A manifest line that holds something has fewer than thirteen fields.
#[derive(Clone, Copy, Debug, PartialEq, Eq, Structural)]
pub enum ManifestError {
    MissingField,
}

fn asset_line(line: &[u8]) -> (r: Option<AssetLine>)
    ensures
        r is Some <==> is_record_line(line@),
        r matches Some(a) ==> a@ == asset_of(line@),
{
    let mut f = split_bytes(line, 59);
    if f.len() < 13 {
        return None;
    }
    let ghost g = views(f@);
    let y = f.remove(12);
    let x = f.remove(11);
    let height = f.remove(3);
    let width = f.remove(2);
    let filename = f.remove(0);
    assert(y@ == g[12] && x@ == g[11] && height@ == g[3] && width@ == g[2] && filename@ == g[0]);
    Some(AssetLine { filename, width, height, x, y })
}

proof fn lemma_content_lines_grow(all: Seq<Seq<u8>>, j: int)
    requires
        0 <= j <= all.len(),
    ensures
        content_lines(all.subrange(0, j)).len() <= content_lines(all).len(),
        forall|k: int|
            0 <= k < content_lines(all.subrange(0, j)).len() ==> #[trigger] content_lines(all)[k]
                == content_lines(all.subrange(0, j))[k],
    decreases all.len(),
{
    if j == all.len() {
        assert(all.subrange(0, j) =~= all);
    } else {
        let t = all.drop_last();
        lemma_content_lines_grow(t, j);
        assert(t.subrange(0, j) =~= all.subrange(0, j));
    }
}

/// Reads the records of a manifest text: its lines split at `\n`, each
/// without a trailing `\r`, the empty ones skipped. Fails when a line that
/// holds something has fewer than thirteen fields.
pub fn parse_asset_manifest(text: &[u8]) -> (r: Result<Vec<AssetLine>, ManifestError>)
    ensures
        r is Ok <==> forall|i: int|
            0 <= i < manifest_lines(text@).len() ==> is_record_line(
                #[trigger] manifest_lines(text@)[i],
            ),
        r matches Ok(v) ==> asset_views(v@) == manifest_lines(text@).map_values(
            |l: Seq<u8>| asset_of(l),
        ),
{
    let mut lines = split_bytes(text, 10);
    let ghost all = views(lines@);
    let n = lines.len();
    assert(all.subrange(0, 0) =~= Seq::<Seq<u8>>::empty());
    assert(all.subrange(0, n as int) =~= all);
    let mut out: Vec<AssetLine> = Vec::new();
    let mut i: usize = 0;
    while i < n
        invariant
            n == all.len(),
            all == split(text@, 10),
            0 <= i <= n,
            views(lines@) == all.subrange(i as int, n as int),
            forall|k: int|
                0 <= k < content_lines(all.subrange(0, i as int)).len() ==> is_record_line(
                    #[trigger] content_lines(all.subrange(0, i as int))[k],
                ),
            asset_views(out@) == content_lines(all.subrange(0, i as int)).map_values(
                |l: Seq<u8>| asset_of(l),
            ),
        decreases n - i,
    {
        assert(views(lines@).len() == lines@.len());
        assert(views(lines@)[0] == lines@[0]@);
        let ghost old_lines = lines@;
        let mut line = lines.remove(0);
        let ghost before = all.subrange(0, i as int);
        let ghost after = all.subrange(0, i + 1);
        proof {
            assert(after.drop_last() =~= before);
            assert(line@ == all[i as int]);
            assert forall|k: int| 0 <= k < lines@.len() implies #[trigger] views(lines@)[k] == all[i
                + 1 + k] by {
                assert(lines@[k] == old_lines[k + 1]);
                assert(views(old_lines)[k + 1] == old_lines[k + 1]@);
            }
            assert(views(lines@) =~= all.subrange(i + 1, n as int));
        }
        let len = line.len();
        if len > 0 && line[len - 1] == 13 {
            line.pop();
        }
        assert(line@ == strip_cr(all[i as int]));
        if line.len() > 0 {
            match asset_line(line.as_slice()) {
                Some(a) => {
                    let ghost old_out = out@;
                    out.push(a);
                    let ghost prev = content_lines(before);
                    assert(content_lines(after) == prev.push(line@));
                    assert forall|k: int| 0 <= k < content_lines(after).len() implies is_record_line(
                        #[trigger] content_lines(after)[k],
                    ) by {
                        if k < prev.len() {
                            assert(content_lines(after)[k] == prev[k]);
                        }
                    }
                    assert(asset_views(old_out).len() == old_out.len());
                    assert(prev.map_values(|l: Seq<u8>| asset_of(l)).len() == prev.len());
                    assert(old_out.len() == prev.len());
                    assert forall|k: int| 0 <= k < out@.len() implies #[trigger] asset_views(out@)[k]
                        == asset_of(content_lines(after)[k]) by {
                        if k < old_out.len() {
                            assert(out@[k] == old_out[k]);
                            assert(asset_views(old_out)[k] == old_out[k]@);
                            assert(prev.map_values(|l: Seq<u8>| asset_of(l))[k] == asset_of(prev[k]));
                            assert(content_lines(after)[k] == prev[k]);
                        }
                    }
                    assert(asset_views(out@) =~= content_lines(after).map_values(
                        |l: Seq<u8>| asset_of(l),
                    ));
                },
                None => {
                    let ghost prev = content_lines(before);
                    assert(content_lines(after)[prev.len() as int] == line@);
                    proof {
                        lemma_content_lines_grow(all, i as int + 1);
                        assert(all.subrange(0, n as int) =~= all);
                        assert(manifest_lines(text@) == content_lines(all));
                        assert(!is_record_line(manifest_lines(text@)[prev.len() as int]));
                    }
                    return Err(ManifestError::MissingField);
                },
            }
        }
        i += 1;
    }
    assert(all.subrange(0, n as int) =~= all);
    Ok(out)
}

} // verus!
