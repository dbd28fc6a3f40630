use vstd::prelude::*;

use crate::text::{all_digits, chars_of, digits_in, digits_value, find_last, last_index};
use crate::transcript::{Span, Transcript};

verus! {

/// The last component of a path.
pub open spec fn file_name(p: Seq<char>) -> Seq<char> {
    p.skip(last_index(p, '/') + 1)
}

/// A file name without its last extension; a name that only starts with a dot keeps it.
pub open spec fn file_stem(n: Seq<char>) -> Seq<char> {
    let d = last_index(n, '.');
    if d > 0 {
        n.take(d)
    } else {
        n
    }
}

/// The text after the last underscore of the path's stem (the whole stem when it has none).
pub open spec fn ordinal_text(p: Seq<char>) -> Seq<char> {
    let st = file_stem(file_name(p));
    st.skip(last_index(st, '_') + 1)
}

/// The ordinal that a path names, when its suffix is a number that fits in `u32`.
#[verifier::opaque]
pub open spec fn ordinal_of(p: Seq<char>) -> Option<u32> {
    let t = ordinal_text(p);
    if t.len() > 0 && all_digits(t) && digits_value(t) <= u32::MAX {
        Some(digits_value(t) as u32)
    } else {
        None
    }
}

/// The ordinal that a path names: the number after the last underscore of its file stem.
pub fn parse_ordinal(path: &str) -> (r: Option<u32>)
    ensures
        r == ordinal_of(path@),
{
    reveal(ordinal_of);
    let v = chars_of(path);
    let n = v.len();
    let slash = find_last(&v, 0, n, '/');
    let name_lo: usize = match slash {
        Some(i) => i + 1,
        None => 0,
    };
    assert(v@.subrange(0, n as int) =~= v@);
    let ghost name = file_name(path@);
    assert(name =~= v@.subrange(name_lo as int, n as int));
    let dot = find_last(&v, name_lo, n, '.');
    let stem_hi: usize = match dot {
        Some(d) => if d > 0 { name_lo + d } else { n },
        None => n,
    };
    let ghost stem = file_stem(name);
    assert(stem =~= v@.subrange(name_lo as int, stem_hi as int));
    let under = find_last(&v, name_lo, stem_hi, '_');
    let lo: usize = match under {
        Some(u) => name_lo + u + 1,
        None => name_lo,
    };
    let ghost t = ordinal_text(path@);
    assert(t =~= v@.subrange(lo as int, stem_hi as int));
    if lo >= stem_hi {
        return None;
    }
    let r = digits_in(&v, lo, stem_hi, 4294967295);
    reveal(ordinal_of);
    match r {
        Some(x) => Some(x as u32),
        None => None,
    }
}

/// An image file and the ordinal that its name gives it.
pub struct ImageAsset {
    pub ordinal: u32,
    pub path: String,
}

/// What an image asset is: its ordinal and its path.
pub struct AssetView {
    pub ordinal: u32,
    pub path: Seq<char>,
}

impl View for ImageAsset {
    type V = AssetView;

    open spec fn view(&self) -> AssetView {
        AssetView { ordinal: self.ordinal, path: self.path@ }
    }
}

/// Why a set of images could not be put in order.
#[derive(Debug, Clone, Copy, PartialEq, Eq, Structural)]
pub enum AssetError {
    /// A file name lacks a numeric suffix.
    UnparsableOrdinal,
    /// Two files name the same ordinal.
    DuplicateOrdinal,
    /// There are not as many images as sentences.
    CountMismatch,
}

/// The texts of a sequence of strings.
pub open spec fn texts(v: Seq<String>) -> Seq<Seq<char>> {
    v.map_values(|s: String| s@)
}

/// The views of a sequence of image assets.
pub open spec fn assets_view(v: Seq<ImageAsset>) -> Seq<AssetView> {
    v.map_values(|a: ImageAsset| a@)
}

/// Every path names an ordinal.
pub open spec fn all_ordinals(paths: Seq<Seq<char>>) -> bool {
    forall|i: int| 0 <= i < paths.len() ==> #[trigger] ordinal_of(paths[i]) is Some
}

/// No two paths name the same ordinal.
pub open spec fn distinct_ordinals(paths: Seq<Seq<char>>) -> bool {
    forall|i: int, j: int|
        0 <= i < paths.len() && 0 <= j < paths.len() && i != j ==> ordinal_of(#[trigger] paths[i])
            != ordinal_of(#[trigger] paths[j])
}

/// The asset that path `paths[i]` describes.
pub open spec fn asset_at(paths: Seq<Seq<char>>, i: int) -> AssetView {
    AssetView { ordinal: ordinal_of(paths[i])->0, path: paths[i] }
}

/// Where an asset of ordinal `o` goes in `r`: after the leading assets of smaller ordinal.
pub open spec fn insert_position(r: Seq<AssetView>, o: u32) -> int
    decreases r.len(),
{
    if r.len() == 0 {
        0
    } else if r[0].ordinal < o {
        1 + insert_position(r.drop_first(), o)
    } else {
        0
    }
}

/// The assets of the first `n` paths, each inserted in turn at its place by ordinal.
pub open spec fn sorted_assets(paths: Seq<Seq<char>>, n: int) -> Seq<AssetView>
    decreases n,
{
    if n <= 0 {
        Seq::empty()
    } else {
        let r = sorted_assets(paths, n - 1);
        let e = asset_at(paths, n - 1);
        r.insert(insert_position(r, e.ordinal), e)
    }
}

proof fn lemma_insert_position(r: Seq<AssetView>, o: u32, p: int)
    requires
        0 <= p <= r.len(),
        forall|k: int| 0 <= k < p ==> #[trigger] r[k].ordinal < o,
        p < r.len() ==> r[p].ordinal >= o,
    ensures
        insert_position(r, o) == p,
    decreases p,
{
    if p > 0 {
        assert forall|k: int| 0 <= k < p - 1 implies #[trigger] r.drop_first()[k].ordinal < o by {
            assert(r.drop_first()[k] == r[k + 1]);
        }
        if p - 1 < r.drop_first().len() {
            assert(r.drop_first()[p - 1] == r[p]);
        }
        lemma_insert_position(r.drop_first(), o, p - 1);
    }
}

/// Ordinals strictly ascend along `r`.
#[verifier::opaque]
pub open spec fn ascending(r: Seq<AssetView>) -> bool {
    forall|k: int| 0 < k < r.len() ==> r[k - 1].ordinal < #[trigger] r[k].ordinal
}

/// `r` holds exactly the assets of the first `n` paths.
#[verifier::opaque]
pub open spec fn covers(r: Seq<AssetView>, paths: Seq<Seq<char>>, n: int) -> bool {
    &&& forall|k: int| 0 <= k < r.len() ==> exists|i: int| 0 <= i < n && #[trigger] r[k] == asset_at(paths, i)
    &&& forall|i: int| 0 <= i < n ==> exists|k: int| 0 <= k < r.len() && r[k] == #[trigger] asset_at(paths, i)
}

/// `r` holds the assets of `paths`, each once, in strictly ascending ordinal.
pub open spec fn ordered_images(r: Seq<AssetView>, paths: Seq<Seq<char>>) -> bool {
    &&& r.len() == paths.len()
    &&& ascending(r)
    &&& covers(r, paths, paths.len() as int)
}

/// No two of the first `n` paths name the same ordinal.
#[verifier::opaque]
spec fn distinct_prefix(paths: Seq<Seq<char>>, n: int) -> bool {
    forall|a: int, b: int|
        0 <= a < n && 0 <= b < n && a != b ==> ordinal_of(#[trigger] paths[a]) != ordinal_of(#[trigger] paths[b])
}

proof fn lemma_ascending(r: Seq<AssetView>, a: int, b: int)
    requires
        0 <= a < b < r.len(),
        ascending(r),
    ensures
        r[a].ordinal < r[b].ordinal,
    decreases b - a,
{
    reveal(ascending);
    if b > a + 1 {
        lemma_ascending(r, a, b - 1);
    }
}

/// Inserting the next asset at its place keeps the order and covers one more path.
proof fn lemma_insert_asset(prev: Seq<AssetView>, p: int, paths: Seq<Seq<char>>, i: int)
    requires
        0 <= p <= prev.len(),
        0 <= i < paths.len(),
        all_ordinals(paths),
        ascending(prev),
        covers(prev, paths, i),
        distinct_prefix(paths, i),
        forall|k: int| 0 <= k < p ==> #[trigger] prev[k].ordinal < asset_at(paths, i).ordinal,
        p < prev.len() ==> prev[p].ordinal > asset_at(paths, i).ordinal,
    ensures
        ascending(prev.insert(p, asset_at(paths, i))),
        covers(prev.insert(p, asset_at(paths, i)), paths, i + 1),
        distinct_prefix(paths, i + 1),
{
    lemma_insert_ascending(prev, p, asset_at(paths, i));
    lemma_insert_covers(prev, p, paths, i);
    lemma_insert_distinct(prev, p, paths, i);
}

proof fn lemma_insert_ascending(prev: Seq<AssetView>, p: int, e: AssetView)
    requires
        0 <= p <= prev.len(),
        ascending(prev),
        forall|k: int| 0 <= k < p ==> #[trigger] prev[k].ordinal < e.ordinal,
        p < prev.len() ==> prev[p].ordinal > e.ordinal,
    ensures
        ascending(prev.insert(p, e)),
{
    reveal(ascending);
    let r = prev.insert(p, e);
    assert forall|k: int| 0 < k < r.len() implies r[k - 1].ordinal < #[trigger] r[k].ordinal by {
        if k > p + 1 {
            assert(r[k] == prev[k - 1] && r[k - 1] == prev[k - 2]);
        }
    }
}

proof fn lemma_insert_covers(prev: Seq<AssetView>, p: int, paths: Seq<Seq<char>>, i: int)
    requires
        0 <= p <= prev.len(),
        0 <= i < paths.len(),
        covers(prev, paths, i),
    ensures
        covers(prev.insert(p, asset_at(paths, i)), paths, i + 1),
{
    reveal(covers);
    let e = asset_at(paths, i);
    let r = prev.insert(p, e);
    assert forall|k: int| 0 <= k < r.len() implies exists|j: int| 0 <= j < i + 1 && #[trigger] r[k] == asset_at(paths, j) by {
        if k < p {
            let j = choose|j: int| 0 <= j < i && #[trigger] prev[k] == asset_at(paths, j);
            assert(r[k] == asset_at(paths, j));
        } else if k == p {
            assert(r[k] == asset_at(paths, i));
        } else {
            let j = choose|j: int| 0 <= j < i && #[trigger] prev[k - 1] == asset_at(paths, j);
            assert(r[k] == asset_at(paths, j));
        }
    }
    assert forall|j: int| 0 <= j < i + 1 implies exists|k: int| 0 <= k < r.len() && r[k] == #[trigger] asset_at(paths, j) by {
        if j < i {
            let k = choose|k: int| 0 <= k < prev.len() && prev[k] == #[trigger] asset_at(paths, j);
            if k < p {
                assert(r[k] == prev[k]);
            } else {
                assert(r[k + 1] == prev[k]);
            }
        } else {
            assert(r[p] == e);
        }
    }
}

proof fn lemma_insert_distinct(prev: Seq<AssetView>, p: int, paths: Seq<Seq<char>>, i: int)
    requires
        0 <= p <= prev.len(),
        0 <= i < paths.len(),
        all_ordinals(paths),
        ascending(prev),
        covers(prev, paths, i),
        distinct_prefix(paths, i),
        forall|k: int| 0 <= k < p ==> #[trigger] prev[k].ordinal < asset_at(paths, i).ordinal,
        p < prev.len() ==> prev[p].ordinal > asset_at(paths, i).ordinal,
    ensures
        distinct_prefix(paths, i + 1),
{
    reveal(covers);
    reveal(distinct_prefix);
    let e = asset_at(paths, i);
    assert forall|j: int| 0 <= j < i implies ordinal_of(#[trigger] paths[j]) != ordinal_of(paths[i]) by {
        let k = choose|k: int| 0 <= k < prev.len() && prev[k] == #[trigger] asset_at(paths, j);
        assert(ordinal_of(paths[j]) is Some && ordinal_of(paths[i]) is Some);
        if k > p {
            lemma_ascending(prev, p, k);
        }
        assert(prev[k].ordinal != e.ordinal);
    }
}

proof fn lemma_repeated_ordinal(r: Seq<AssetView>, p: int, paths: Seq<Seq<char>>, i: int)
    requires
        0 <= p < r.len(),
        0 <= i < paths.len(),
        all_ordinals(paths),
        covers(r, paths, i),
        r[p].ordinal == asset_at(paths, i).ordinal,
    ensures
        !distinct_ordinals(paths),
{
    reveal(covers);
    let j = choose|j: int| 0 <= j < i && #[trigger] r[p] == asset_at(paths, j);
    assert(ordinal_of(paths[j]) is Some && ordinal_of(paths[i]) is Some);
    assert(ordinal_of(paths[j]) == ordinal_of(paths[i]));
}

/// Orders image files by the ordinal in their names, one image per sentence.
pub fn sequence(paths: &Vec<String>, sentence_count: usize) -> (r: Result<Vec<ImageAsset>, AssetError>)
    ensures
        paths@.len() != sentence_count ==> r == Err::<Vec<ImageAsset>, AssetError>(AssetError::CountMismatch),
        paths@.len() == sentence_count && !all_ordinals(texts(paths@))
            ==> r == Err::<Vec<ImageAsset>, AssetError>(AssetError::UnparsableOrdinal),
        paths@.len() == sentence_count && all_ordinals(texts(paths@)) && !distinct_ordinals(texts(paths@))
            ==> r == Err::<Vec<ImageAsset>, AssetError>(AssetError::DuplicateOrdinal),
        paths@.len() == sentence_count && all_ordinals(texts(paths@)) && distinct_ordinals(texts(paths@))
            ==> (r matches Ok(v) && ordered_images(assets_view(v@), texts(paths@)) && assets_view(v@)
            == sorted_assets(texts(paths@), paths@.len() as int)),
{
    if paths.len() != sentence_count {
        return Err(AssetError::CountMismatch);
    }
    let ghost ps = texts(paths@);
    let n = paths.len();
    let mut ords: Vec<u32> = Vec::new();
    let mut i: usize = 0;
    while i < n
        invariant
            0 <= i <= n == paths@.len() == sentence_count,
            ps == texts(paths@),
            ords@.len() == i,
            forall|j: int| 0 <= j < i ==> ordinal_of(#[trigger] ps[j]) == Some(ords@[j]),
        decreases n - i,
    {
        assert(ps[i as int] == paths@[i as int]@);
        match parse_ordinal(paths[i].as_str()) {
            Some(o) => ords.push(o),
            None => {
                assert(ordinal_of(ps[i as int]) is None);
                return Err(AssetError::UnparsableOrdinal);
            },
        }
        i = i + 1;
    }
    assert(all_ordinals(ps));
    let mut out: Vec<ImageAsset> = Vec::new();
    let mut i: usize = 0;
    proof {
        assert(assets_view(out@) =~= Seq::<AssetView>::empty());
        reveal(ascending);
        reveal(covers);
        reveal(distinct_prefix);
    }
    while i < n
        invariant
            0 <= i <= n == paths@.len() == sentence_count == ords@.len(),
            ps == texts(paths@),
            all_ordinals(ps),
            forall|j: int| 0 <= j < n ==> ordinal_of(#[trigger] ps[j]) == Some(ords@[j]),
            out@.len() == i,
            ascending(assets_view(out@)),
            covers(assets_view(out@), ps, i as int),
            distinct_prefix(ps, i as int),
            assets_view(out@) == sorted_assets(ps, i as int),
        decreases n - i,
    {
        let ghost av = assets_view(out@);
        let o = ords[i];
        assert(asset_at(ps, i as int).ordinal == o);
        let mut p: usize = 0;
        while p < out.len() && out[p].ordinal < o
            invariant
                0 <= p <= out@.len(),
                av == assets_view(out@),
                forall|k: int| 0 <= k < p ==> #[trigger] av[k].ordinal < o,
            decreases out@.len() - p,
        {
            assert(av[p as int] == out@[p as int]@);
            p = p + 1;
        }
        if p < out.len() && out[p].ordinal == o {
            proof {
                assert(av[p as int] == out@[p as int]@);
                lemma_repeated_ordinal(av, p as int, ps, i as int);
            }
            return Err(AssetError::DuplicateOrdinal);
        }
        assert(p < out@.len() ==> av[p as int] == out@[p as int]@);
        assert(ps[i as int] == paths@[i as int]@);
        let item = ImageAsset { ordinal: o, path: paths[i].clone() };
        assert(item@ == asset_at(ps, i as int));
        let ghost prev = out@;
        out.insert(p, item);
        proof {
            lemma_insert_asset(av, p as int, ps, i as int);
            lemma_insert_position(av, o, p as int);
            assert(assets_view(out@) =~= av.insert(p as int, item@));
        }
        i = i + 1;
    }
    proof {
        reveal(distinct_prefix);
    }
    Ok(out)
}

/// How long the image of sentence `i` stays on screen: from the end of the sentence before it
/// (or from zero) to the end of sentence `i`.
pub open spec fn segment_duration(ss: Seq<Span>, i: int) -> int {
    ss[i].end - (if i == 0 { 0 } else { ss[i - 1].end })
}

/// The durations of all segments, in sentence order.
pub open spec fn segment_durations_of(ss: Seq<Span>) -> Seq<int> {
    Seq::new(ss.len(), |i: int| segment_duration(ss, i))
}

/// The sum of a sequence of integers.
pub open spec fn total(s: Seq<int>) -> int
    decreases s.len(),
{
    if s.len() == 0 {
        0
    } else {
        total(s.drop_last()) + s.last()
    }
}

/// The display duration of each image, one per sentence, in milliseconds.
pub fn segment_durations(t: &Transcript) -> (r: Vec<u64>)
    requires
        t.wf(),
    ensures
        r@.len() == t.sentences@.len(),
        forall|i: int| 0 <= i < r@.len() ==> r@[i] as int == #[trigger] segment_durations_of(t.sentence_spans())[i],
{
    let ghost ss = t.sentence_spans();
    let mut r: Vec<u64> = Vec::new();
    let mut i: usize = 0;
    while i < t.sentences.len()
        invariant
            0 <= i <= t.sentences@.len(),
            ss == t.sentence_spans(),
            t.wf(),
            r@.len() == i,
            forall|k: int| 0 <= k < i ==> r@[k] as int == #[trigger] segment_durations_of(ss)[k],
        decreases t.sentences@.len() - i,
    {
        let end = t.sentences[i].end;
        assert(ss[i as int] == t.sentences@[i as int]@);
        let prev_end = if i == 0 { 0 } else { t.sentences[i - 1].end };
        if i > 0 {
            assert(ss[i - 1] == t.sentences@[i - 1]@);
            assert(ss[i - 1].end <= ss[i as int].end);
        }
        r.push(end - prev_end);
        i = i + 1;
    }
    r
}

/// The segments tile the programme: their durations add up to the transcript's duration.
pub proof fn lemma_segments_sum_to_duration(t: &Transcript)
    requires
        t.wf(),
    ensures
        total(segment_durations_of(t.sentence_spans())) == t.duration(),
{
    let ss = t.sentence_spans();
    lemma_segments_prefix(ss, ss.len() as int);
    assert(segment_durations_of(ss).take(ss.len() as int) =~= segment_durations_of(ss));
}

proof fn lemma_segments_prefix(ss: Seq<Span>, k: int)
    requires
        0 < k <= ss.len(),
    ensures
        total(segment_durations_of(ss).take(k)) == ss[k - 1].end,
    decreases k,
{
    let d = segment_durations_of(ss);
    assert(d.take(k).drop_last() =~= d.take(k - 1));
    assert(d.take(k).last() == segment_duration(ss, k - 1));
    assert(total(d.take(k)) == total(d.take(k - 1)) + segment_duration(ss, k - 1));
    if k > 1 {
        lemma_segments_prefix(ss, k - 1);
    } else {
        assert(d.take(0) =~= Seq::<int>::empty());
    }
}

} // verus!
