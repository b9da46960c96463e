use vstd::prelude::*;
use crate::complement::{comp_entries, comp_ids, entry_line, entry_lines, join, names};
use crate::graph::{edges_upto, keys_upto};
use crate::pixels::is_palette;
use crate::window::{counted, lemma_window_nbs_members, window_nbs};

verus! {

/// Colour `a` is the centre of some counted window: it is a key of the
/// adjacency graph.
pub open spec fn is_key(img: Seq<Seq<char>>, w: int, h: int, dual: bool, a: Seq<char>) -> bool {
    exists|k: int| 0 <= k < w * h && #[trigger] counted(img, w, h, dual, k) && img[k] == a
}

/// Colour `b` is a neighbour of colour `a`: some counted window centred on
/// `a` holds `b`, which is neither `a` nor black.
pub open spec fn adjacent(
    img: Seq<Seq<char>>,
    w: int,
    h: int,
    dual: bool,
    a: Seq<char>,
    b: Seq<char>,
) -> bool {
    exists|k: int, q: usize|
        0 <= k < w * h && counted(img, w, h, dual, k) && #[trigger] window_nbs(
            img,
            w,
            k,
            9,
        ).contains(q) && img[k] == a && img[q as int] == b
}

/// Colour `b` belongs to the complement set of colour `a`.
pub open spec fn non_neighbour(
    img: Seq<Seq<char>>,
    w: int,
    h: int,
    dual: bool,
    a: Seq<char>,
    b: Seq<char>,
) -> bool {
    is_key(img, w, h, dual, b) && b != a && !adjacent(img, w, h, dual, a, b)
}

/// The non-neighbours of `a` among the first `m` palette colours, in palette order.
pub open spec fn color_values(
    pal: Seq<Seq<char>>,
    img: Seq<Seq<char>>,
    w: int,
    h: int,
    dual: bool,
    a: Seq<char>,
    m: int,
) -> Seq<Seq<char>>
    decreases m,
{
    if m <= 0 {
        Seq::empty()
    } else {
        let rest = color_values(pal, img, w, h, dual, a, m - 1);
        if non_neighbour(img, w, h, dual, a, pal[m - 1]) {
            rest.push(pal[m - 1])
        } else {
            rest
        }
    }
}

/// The lines of the text form for the keys among the first `m` palette colours.
pub open spec fn color_lines(
    pal: Seq<Seq<char>>,
    img: Seq<Seq<char>>,
    w: int,
    h: int,
    dual: bool,
    m: int,
) -> Seq<Seq<char>>
    decreases m,
{
    if m <= 0 {
        Seq::empty()
    } else {
        let rest = color_lines(pal, img, w, h, dual, m - 1);
        let a = pal[m - 1];
        if is_key(img, w, h, dual, a) {
            rest.push(a + ": "@ + join(color_values(pal, img, w, h, dual, a, pal.len() as int), " "@))
        } else {
            rest
        }
    }
}

/// The text form of the complement graph of an image, listing colours in the
/// order of the palette `pal`.
pub open spec fn render(pal: Seq<Seq<char>>, img: Seq<Seq<char>>, w: int, h: int, dual: bool) -> Seq<
    char,
> {
    join(color_lines(pal, img, w, h, dual, pal.len() as int), "\n"@)
}

/// `ids` gives, for each pixel, the index of its colour in `pal`.
pub open spec fn indexes(pal: Seq<Seq<char>>, img: Seq<Seq<char>>, ids: Seq<usize>) -> bool {
    &&& ids.len() == img.len()
    &&& forall|k: int| 0 <= k < img.len() ==> (#[trigger] ids[k]) < pal.len() && pal[ids[k] as int] == img[k]
}

proof fn lemma_keys_match(
    pal: Seq<Seq<char>>,
    img: Seq<Seq<char>>,
    ids: Seq<usize>,
    w: int,
    h: int,
    dual: bool,
    i: int,
)
    requires
        is_palette(pal, img),
        indexes(pal, img, ids),
        0 <= w,
        w * h <= img.len(),
        pal.len() <= usize::MAX,
        0 <= i < pal.len(),
    ensures
        keys_upto(img, ids, w, h, dual, w * h).contains(i as usize) == is_key(img, w, h, dual, pal[i]),
{
    if keys_upto(img, ids, w, h, dual, w * h).contains(i as usize) {
        let k = choose|k: int| 0 <= k < w * h && counted(img, w, h, dual, k) && ids[k] == i as usize;
        assert(img[k] == pal[i]);
    }
    if is_key(img, w, h, dual, pal[i]) {
        let k = choose|k: int| 0 <= k < w * h && #[trigger] counted(img, w, h, dual, k) && img[k] == pal[i];
        assert(pal[ids[k] as int] == pal[i]);
        assert(ids[k] == i as usize);
        assert(keys_upto(img, ids, w, h, dual, w * h).contains(i as usize));
    }
}

proof fn lemma_edges_match(
    pal: Seq<Seq<char>>,
    img: Seq<Seq<char>>,
    ids: Seq<usize>,
    w: int,
    h: int,
    dual: bool,
    i: int,
    j: int,
)
    requires
        is_palette(pal, img),
        indexes(pal, img, ids),
        0 <= w,
        w * h <= img.len(),
        img.len() <= usize::MAX,
        pal.len() <= usize::MAX,
        0 <= i < pal.len(),
        0 <= j < pal.len(),
    ensures
        edges_upto(img, ids, w, h, dual, w * h).contains((i as usize, j as usize)) == adjacent(
            img,
            w,
            h,
            dual,
            pal[i],
            pal[j],
        ),
{
    if edges_upto(img, ids, w, h, dual, w * h).contains((i as usize, j as usize)) {
        let (k, q) = choose|k: int, q: usize|
            0 <= k < w * h && counted(img, w, h, dual, k) && #[trigger] window_nbs(
                img,
                w,
                k,
                9,
            ).contains(q) && ids[k] == i as usize && ids[q as int] == j as usize;
        lemma_window_nbs_members(img, w, k, 9);
        assert(img[k] == pal[i]);
        assert(img[q as int] == pal[j]);
    }
    if adjacent(img, w, h, dual, pal[i], pal[j]) {
        let (k, q) = choose|k: int, q: usize|
            0 <= k < w * h && counted(img, w, h, dual, k) && #[trigger] window_nbs(
                img,
                w,
                k,
                9,
            ).contains(q) && img[k] == pal[i] && img[q as int] == pal[j];
        lemma_window_nbs_members(img, w, k, 9);
        assert(pal[ids[k] as int] == pal[i]);
        assert(pal[ids[q as int] as int] == pal[j]);
        assert(edges_upto(img, ids, w, h, dual, w * h).contains((i as usize, j as usize)));
    }
}

proof fn lemma_values_match(
    pal: Seq<Seq<char>>,
    img: Seq<Seq<char>>,
    ids: Seq<usize>,
    w: int,
    h: int,
    dual: bool,
    i: int,
    m: int,
)
    requires
        is_palette(pal, img),
        indexes(pal, img, ids),
        0 <= w,
        w * h <= img.len(),
        img.len() <= usize::MAX,
        pal.len() <= usize::MAX,
        0 <= i < pal.len(),
        0 <= m <= pal.len(),
    ensures
        names(
            pal,
            comp_ids(
                keys_upto(img, ids, w, h, dual, w * h),
                edges_upto(img, ids, w, h, dual, w * h),
                i as usize,
                m,
            ),
        ) == color_values(pal, img, w, h, dual, pal[i], m),
    decreases m,
{
    if m > 0 {
        lemma_values_match(pal, img, ids, w, h, dual, i, m - 1);
        lemma_keys_match(pal, img, ids, w, h, dual, m - 1);
        lemma_edges_match(pal, img, ids, w, h, dual, i, m - 1);
        let keys = keys_upto(img, ids, w, h, dual, w * h);
        let edges = edges_upto(img, ids, w, h, dual, w * h);
        let rest = comp_ids(keys, edges, i as usize, m - 1);
        assert(names(pal, rest.push((m - 1) as usize)) =~= names(pal, rest).push(pal[m - 1]));
        assert((m - 1) as usize != i as usize <==> pal[m - 1] != pal[i]);
    }
}

/// The complement graph that the adjacency graph of an image gives, rendered
/// through palette indices, has the lines of the colour-level model.
pub proof fn lemma_lines_match(
    pal: Seq<Seq<char>>,
    img: Seq<Seq<char>>,
    ids: Seq<usize>,
    w: int,
    h: int,
    dual: bool,
    m: int,
)
    requires
        is_palette(pal, img),
        indexes(pal, img, ids),
        0 <= w,
        w * h <= img.len(),
        img.len() <= usize::MAX,
        pal.len() <= usize::MAX,
        0 <= m <= pal.len(),
    ensures
        entry_lines(
            pal,
            comp_entries(
                keys_upto(img, ids, w, h, dual, w * h),
                edges_upto(img, ids, w, h, dual, w * h),
                pal.len() as int,
                m,
            ),
        ) == color_lines(pal, img, w, h, dual, m),
    decreases m,
{
    if m > 0 {
        lemma_lines_match(pal, img, ids, w, h, dual, m - 1);
        lemma_keys_match(pal, img, ids, w, h, dual, m - 1);
        lemma_values_match(pal, img, ids, w, h, dual, m - 1, pal.len() as int);
        let keys = keys_upto(img, ids, w, h, dual, w * h);
        let edges = edges_upto(img, ids, w, h, dual, w * h);
        let rest = comp_entries(keys, edges, pal.len() as int, m - 1);
        let e = ((m - 1) as usize, comp_ids(keys, edges, (m - 1) as usize, pal.len() as int));
        assert(entry_lines(pal, rest.push(e)) =~= entry_lines(pal, rest).push(
            entry_line(pal, e.0, e.1),
        ));
    }
}

} // verus!
