use vstd::prelude::*;
use crate::complement::join;
use crate::model::{adjacent, color_lines, color_values, is_key, non_neighbour, render};
use crate::pixels::is_palette;
use crate::window::{counted, interior, kept, lemma_window_nbs_members, window_nbs, window_pos};

verus! {

/// The complement graph of an image as a map from each key colour to the
/// set of colours it never shares a window with.
pub open spec fn complement_graph(img: Seq<Seq<char>>, w: int, h: int, dual: bool) -> Map<
    Seq<char>,
    Set<Seq<char>>,
> {
    Map::new(
        |a: Seq<char>| is_key(img, w, h, dual, a),
        |a: Seq<char>| Set::new(|b: Seq<char>| non_neighbour(img, w, h, dual, a, b)),
    )
}

/// The line that the text form holds for colour `a`.
pub open spec fn key_line(
    pal: Seq<Seq<char>>,
    img: Seq<Seq<char>>,
    w: int,
    h: int,
    dual: bool,
    a: Seq<char>,
) -> Seq<char> {
    a + ": "@ + join(color_values(pal, img, w, h, dual, a, pal.len() as int), " "@)
}

/// What the text form lists, read back: each colour with a line, mapped to
/// the set of colours on its line.
pub open spec fn listed_graph(pal: Seq<Seq<char>>, img: Seq<Seq<char>>, w: int, h: int, dual: bool) -> Map<
    Seq<char>,
    Set<Seq<char>>,
> {
    Map::new(
        |a: Seq<char>| pal.contains(a) && is_key(img, w, h, dual, a),
        |a: Seq<char>| color_values(pal, img, w, h, dual, a, pal.len() as int).to_set(),
    )
}

proof fn lemma_no_lines(pal: Seq<Seq<char>>, img: Seq<Seq<char>>, w: int, h: int, dual: bool, m: int)
    requires
        forall|k: int| !#[trigger] counted(img, w, h, dual, k),
    ensures
        color_lines(pal, img, w, h, dual, m) == Seq::<Seq<char>>::empty(),
    decreases m,
{
    if m > 0 {
        lemma_no_lines(pal, img, w, h, dual, m - 1);
    }
}

/// An image at most two pixels wide or high has no interior pixel, so its
/// text form is empty.
pub proof fn lemma_small_image_renders_empty(
    pal: Seq<Seq<char>>,
    img: Seq<Seq<char>>,
    w: int,
    h: int,
    dual: bool,
)
    requires
        0 <= w,
        0 <= h,
        w <= 2 || h <= 2,
    ensures
        render(pal, img, w, h, dual) == Seq::<char>::empty(),
{
    assert forall|k: int| !#[trigger] counted(img, w, h, dual, k) by {
        if interior(w, h, k) {
            if h <= 2 {
                assert(w * h <= 2 * w) by (nonlinear_arith)
                    requires
                        0 <= w,
                        h <= 2,
                ;
            } else if w == 1 {
                assert(k % 1 == 0);
            } else if w == 2 {
                assert(k % 2 == 0 || k % 2 == 1);
            }
        }
    }
    lemma_no_lines(pal, img, w, h, dual, pal.len() as int);
}

/// Two colours that share a counted window, the second being neither the
/// centre colour nor black, are neighbours, so neither lists the other as a
/// non-neighbour from the centre's side.
pub proof fn lemma_window_pair_not_complement(
    img: Seq<Seq<char>>,
    w: int,
    h: int,
    dual: bool,
    k: int,
    d: int,
)
    requires
        0 <= w,
        0 <= k,
        w * h <= usize::MAX,
        counted(img, w, h, dual, k),
        0 <= d < 9,
        kept(img, w, k, d),
    ensures
        adjacent(img, w, h, dual, img[k], img[window_pos(w, k, d)]),
        !non_neighbour(img, w, h, dual, img[k], img[window_pos(w, k, d)]),
{
    lemma_window_nbs_members(img, w, k, 9);
    let q = window_pos(w, k, d) as usize;
    assert(window_nbs(img, w, k, 9).contains(q));
}

/// Over the key colours other than `a` itself, neighbours and non-neighbours
/// of `a` are disjoint and together cover every key.
pub proof fn lemma_neighbours_and_complement_split(
    img: Seq<Seq<char>>,
    w: int,
    h: int,
    dual: bool,
    a: Seq<char>,
    b: Seq<char>,
)
    requires
        is_key(img, w, h, dual, b),
        a != b,
    ensures
        adjacent(img, w, h, dual, a, b) != non_neighbour(img, w, h, dual, a, b),
{
}

proof fn lemma_values_members(
    pal: Seq<Seq<char>>,
    img: Seq<Seq<char>>,
    w: int,
    h: int,
    dual: bool,
    a: Seq<char>,
    m: int,
)
    requires
        0 <= m <= pal.len(),
    ensures
        forall|b: Seq<char>|
            #[trigger] color_values(pal, img, w, h, dual, a, m).contains(b) <==> (pal.take(m).contains(b)
                && non_neighbour(img, w, h, dual, a, b)),
    decreases m,
{
    if m > 0 {
        lemma_values_members(pal, img, w, h, dual, a, m - 1);
        let rest = color_values(pal, img, w, h, dual, a, m - 1);
        let x = pal[m - 1];
        assert(pal.take(m) =~= pal.take(m - 1).push(x));
        assert forall|b: Seq<char>|
            #[trigger] color_values(pal, img, w, h, dual, a, m).contains(b) <==> (pal.take(m).contains(b)
                && non_neighbour(img, w, h, dual, a, b)) by {
            let s2 = rest.push(x);
            if s2.contains(b) && b != x {
                let i = choose|i: int| 0 <= i < s2.len() && #[trigger] s2[i] == b;
                assert(rest[i] == b);
            }
            if rest.contains(b) {
                let i = choose|i: int| 0 <= i < rest.len() && #[trigger] rest[i] == b;
                assert(s2[i] == b);
            }
            assert(s2[s2.len() - 1] == x);
            let t2 = pal.take(m - 1).push(x);
            if t2.contains(b) && b != x {
                let i = choose|i: int| 0 <= i < t2.len() && #[trigger] t2[i] == b;
                assert(pal.take(m - 1)[i] == b);
            }
            if pal.take(m - 1).contains(b) {
                let i = choose|i: int| 0 <= i < m - 1 && #[trigger] pal.take(m - 1)[i] == b;
                assert(t2[i] == b);
            }
            assert(t2[t2.len() - 1] == x);
        }
    }
}

/// Whatever order a palette lists the colours in, the text form read back
/// holds exactly the complement graph: every key colour, with the set of
/// colours it never shares a window with (possibly empty).
pub proof fn lemma_listed_is_complement(
    pal: Seq<Seq<char>>,
    img: Seq<Seq<char>>,
    w: int,
    h: int,
    dual: bool,
)
    requires
        is_palette(pal, img),
        w * h <= img.len(),
    ensures
        listed_graph(pal, img, w, h, dual) == complement_graph(img, w, h, dual),
{
    let l = listed_graph(pal, img, w, h, dual);
    let c = complement_graph(img, w, h, dual);
    lemma_keys_in_palette(pal, img, w, h, dual);
    assert(pal.take(pal.len() as int) =~= pal);
    assert forall|a: Seq<char>| #[trigger] l.dom().contains(a) implies l[a] == c[a] by {
        lemma_values_members(pal, img, w, h, dual, a, pal.len() as int);
        assert forall|b: Seq<char>| non_neighbour(img, w, h, dual, a, b) implies pal.contains(b) by {
            assert(is_key(img, w, h, dual, b));
        }
        assert(l[a] =~= c[a]);
    }
    assert(l.dom() =~= c.dom());
    assert(l =~= c);
}

proof fn lemma_keys_in_palette(pal: Seq<Seq<char>>, img: Seq<Seq<char>>, w: int, h: int, dual: bool)
    requires
        is_palette(pal, img),
        w * h <= img.len(),
    ensures
        forall|a: Seq<char>| #[trigger] is_key(img, w, h, dual, a) ==> pal.contains(a),
{
    assert forall|a: Seq<char>| #[trigger] is_key(img, w, h, dual, a) implies pal.contains(a) by {
        let k = choose|k: int| 0 <= k < w * h && #[trigger] counted(img, w, h, dual, k) && img[k] == a;
        assert(pal.contains(img[k]));
    }
}

/// Running the analysis again on the same image and mode, even with the
/// colours met in another order, yields the same key-to-set content.
pub proof fn lemma_rerun_same_content(
    pal1: Seq<Seq<char>>,
    pal2: Seq<Seq<char>>,
    img: Seq<Seq<char>>,
    w: int,
    h: int,
    dual: bool,
)
    requires
        is_palette(pal1, img),
        is_palette(pal2, img),
        w * h <= img.len(),
    ensures
        listed_graph(pal1, img, w, h, dual) == listed_graph(pal2, img, w, h, dual),
{
    lemma_listed_is_complement(pal1, img, w, h, dual);
    lemma_listed_is_complement(pal2, img, w, h, dual);
}

proof fn lemma_line_present(
    pal: Seq<Seq<char>>,
    img: Seq<Seq<char>>,
    w: int,
    h: int,
    dual: bool,
    a: Seq<char>,
    m: int,
)
    requires
        0 <= m <= pal.len(),
        pal.take(m).contains(a),
        is_key(img, w, h, dual, a),
    ensures
        color_lines(pal, img, w, h, dual, m).contains(key_line(pal, img, w, h, dual, a)),
    decreases m,
{
    let rest = color_lines(pal, img, w, h, dual, m - 1);
    let line = key_line(pal, img, w, h, dual, a);
    if pal[m - 1] == a {
        assert(color_lines(pal, img, w, h, dual, m) == rest.push(line));
        assert(rest.push(line)[rest.len() as int] == line);
    } else {
        let i = choose|i: int| 0 <= i < m && #[trigger] pal.take(m)[i] == a;
        assert(pal.take(m - 1)[i] == a);
        lemma_line_present(pal, img, w, h, dual, a, m - 1);
        let j = choose|j: int| 0 <= j < rest.len() && #[trigger] rest[j] == line;
        if is_key(img, w, h, dual, pal[m - 1]) {
            let s2 = rest.push(
                pal[m - 1] + ": "@ + join(
                    color_values(pal, img, w, h, dual, pal[m - 1], pal.len() as int),
                    " "@,
                ),
            );
            assert(s2[j] == line);
        }
    }
}

/// Every key of the adjacency graph has its line in the text form, also
/// when no colour is a non-neighbour of it (the line then ends after ": ").
pub proof fn lemma_every_key_has_line(
    pal: Seq<Seq<char>>,
    img: Seq<Seq<char>>,
    w: int,
    h: int,
    dual: bool,
    a: Seq<char>,
)
    requires
        is_palette(pal, img),
        w * h <= img.len(),
        is_key(img, w, h, dual, a),
    ensures
        color_lines(pal, img, w, h, dual, pal.len() as int).contains(key_line(pal, img, w, h, dual, a)),
        listed_graph(pal, img, w, h, dual).dom().contains(a),
{
    lemma_keys_in_palette(pal, img, w, h, dual);
    assert(pal.take(pal.len() as int) =~= pal);
    lemma_line_present(pal, img, w, h, dual, a, pal.len() as int);
}

} // verus!
