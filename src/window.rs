use vstd::prelude::*;

verus! {

/// Pure black: windows centred on it are skipped, and it is never a neighbour.
pub const BLACK: &'static str = "0.000000 0.000000 0.000000";

/// Pure white: a background colour in the low bit-depth modes.
pub const WHITE: &'static str = "1.000000 1.000000 1.000000";

pub open spec fn black_color() -> Seq<char> {
    BLACK@
}

pub open spec fn white_color() -> Seq<char> {
    WHITE@
}

/// Pixel `k` of a row-major grid `w` wide lies off the one-pixel border.
pub open spec fn interior(w: int, h: int, k: int) -> bool {
    &&& w + 1 <= k
    &&& k + w + 1 < w * h
    &&& k % w != 0
    &&& k % w != w - 1
}

/// Flat index of slot `d` (0..9, row by row) of the 3x3 window centred on `k`.
pub open spec fn window_pos(w: int, k: int, d: int) -> int {
    if d == 0 {
        k - w - 1
    } else if d == 1 {
        k - w
    } else if d == 2 {
        k - w + 1
    } else if d == 3 {
        k - 1
    } else if d == 4 {
        k
    } else if d == 5 {
        k + 1
    } else if d == 6 {
        k + w - 1
    } else if d == 7 {
        k + w
    } else {
        k + w + 1
    }
}

pub open spec fn all_white(img: Seq<Seq<char>>, w: int, k: int) -> bool {
    forall|d: int| 0 <= d < 9 ==> img[#[trigger] window_pos(w, k, d)] == white_color()
}

/// The window centred on `k` contributes to the adjacency graph.
pub open spec fn counted(img: Seq<Seq<char>>, w: int, h: int, dual: bool, k: int) -> bool {
    &&& interior(w, h, k)
    &&& img[k] != black_color()
    &&& !(dual && all_white(img, w, k))
}

/// Slot `d` of the window centred on `k` holds a neighbour colour of the centre.
pub open spec fn kept(img: Seq<Seq<char>>, w: int, k: int, d: int) -> bool {
    img[window_pos(w, k, d)] != img[k] && img[window_pos(w, k, d)] != black_color()
}

/// Positions among the first `d` window slots that hold a neighbour colour.
pub open spec fn window_nbs(img: Seq<Seq<char>>, w: int, k: int, d: nat) -> Seq<usize>
    decreases d,
{
    if d == 0 {
        Seq::empty()
    } else {
        let rest = window_nbs(img, w, k, (d - 1) as nat);
        if kept(img, w, k, d - 1) {
            rest.push(window_pos(w, k, d - 1) as usize)
        } else {
            rest
        }
    }
}

pub proof fn lemma_window_nbs_members(img: Seq<Seq<char>>, w: int, k: int, d: nat)
    requires
        d <= 9,
        0 <= w,
        w + 1 <= k,
        k + w + 1 <= usize::MAX,
    ensures
        forall|q: usize| #[trigger]
            window_nbs(img, w, k, d).contains(q) <==> exists|e: int|
                0 <= e < d && kept(img, w, k, e) && q as int == window_pos(w, k, e),
    decreases d,
{
    if d > 0 {
        lemma_window_nbs_members(img, w, k, (d - 1) as nat);
        let rest = window_nbs(img, w, k, (d - 1) as nat);
        let x = window_pos(w, k, d - 1) as usize;
        assert forall|q: usize| #[trigger]
            window_nbs(img, w, k, d).contains(q) <==> exists|e: int|
                0 <= e < d && kept(img, w, k, e) && q as int == window_pos(w, k, e) by {
            let s2 = rest.push(x);
            if kept(img, w, k, d - 1) {
                if s2.contains(q) && q != x {
                    let i = choose|i: int| 0 <= i < s2.len() && #[trigger] s2[i] == q;
                    assert(rest[i] == q);
                }
                if rest.contains(q) {
                    let i = choose|i: int| 0 <= i < rest.len() && #[trigger] rest[i] == q;
                    assert(s2[i] == q);
                }
                assert(s2[s2.len() - 1] == x);
            }
            if window_nbs(img, w, k, d).contains(q) {
                if kept(img, w, k, d - 1) && q == x {
                    assert(0 <= d - 1 < d && kept(img, w, k, d - 1) && q as int == window_pos(
                        w,
                        k,
                        d - 1,
                    ));
                } else {
                    assert(rest.contains(q));
                }
            }
            if exists|e: int| 0 <= e < d && kept(img, w, k, e) && q as int == window_pos(w, k, e) {
                let e = choose|e: int|
                    0 <= e < d && kept(img, w, k, e) && q as int == window_pos(w, k, e);
                if e < d - 1 {
                    assert(rest.contains(q));
                } else {
                    assert(q == x);
                }
            }
        }
    }
}

fn window_index(w: usize, h: usize, k: usize, d: usize) -> (r: usize)
    requires
        interior(w as int, h as int, k as int),
        w * h <= usize::MAX,
        d < 9,
    ensures
        r as int == window_pos(w as int, k as int, d as int),
{
    if d == 0 {
        k - w - 1
    } else if d == 1 {
        k - w
    } else if d == 2 {
        k - w + 1
    } else if d == 3 {
        k - 1
    } else if d == 4 {
        k
    } else if d == 5 {
        k + 1
    } else if d == 6 {
        k + w - 1
    } else if d == 7 {
        k + w
    } else {
        k + w + 1
    }
}

/// Classifies the window centred on pixel `k`: `None` when it is skipped,
/// otherwise the positions of the window's pixels whose colour is a neighbour
/// of the centre colour (neither that colour nor black), in slot order.
pub fn scan_window(
    img: &Vec<String>,
    w: usize,
    h: usize,
    k: usize,
    dual: bool,
    black: &String,
    white: &String,
) -> (r: Option<Vec<usize>>)
    requires
        w * h <= img.len(),
        black@ == black_color(),
        white@ == white_color(),
    ensures
        r is Some <==> counted(img.deep_view(), w as int, h as int, dual, k as int),
        r matches Some(v) ==> v@ == window_nbs(img.deep_view(), w as int, k as int, 9),
{
    let ghost pix = img.deep_view();
    let n = w * h;
    if k >= n || k <= w || n - k <= w || n - k - w <= 1 {
        return None;
    }
    let c = k % w;
    if c == 0 || c == w - 1 {
        return None;
    }
    assert(interior(w as int, h as int, k as int));
    if img[k] == *black {
        return None;
    }
    if dual {
        let mut whole = true;
        let mut d: usize = 0;
        while d < 9
            invariant
                d <= 9,
                interior(w as int, h as int, k as int),
                w * h <= img.len(),
                pix == img.deep_view(),
                white@ == white_color(),
                whole <==> forall|e: int|
                    0 <= e < d ==> pix[#[trigger] window_pos(w as int, k as int, e)]
                        == white_color(),
            decreases 9 - d,
        {
            let p = window_index(w, h, k, d);
            if img[p] != *white {
                whole = false;
            }
            d = d + 1;
        }
        if whole {
            return None;
        }
    }
    let mut nbs: Vec<usize> = Vec::with_capacity(8);
    let mut d: usize = 0;
    while d < 9
        invariant
            d <= 9,
            interior(w as int, h as int, k as int),
            w * h <= img.len(),
            pix == img.deep_view(),
            black@ == black_color(),
            nbs@ == window_nbs(pix, w as int, k as int, d as nat),
        decreases 9 - d,
    {
        let p = window_index(w, h, k, d);
        if img[p] != img[k] && img[p] != *black {
            nbs.push(p);
        }
        d = d + 1;
    }
    Some(nbs)
}

} // verus!
