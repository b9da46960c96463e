use vstd::prelude::*;
use crate::window::{black_color, counted, lemma_window_nbs_members, scan_window, white_color, window_nbs};
use dashmap::DashSet;
use rayon::iter::{IntoParallelIterator, ParallelIterator};

verus! {

#[verifier::external_type_specification]
#[verifier::external_body]
#[verifier::reject_recursive_types(K)]
#[verifier::reject_recursive_types(S)]
pub struct ExDashSet<K, S>(DashSet<K, S>);

/// The palette indices held by a set of colour keys.
pub uninterp spec fn key_set(s: DashSet<usize>) -> Set<usize>;

/// The (centre, neighbour) palette index pairs held by a set of edges.
pub uninterp spec fn edge_set(s: DashSet<(usize, usize)>) -> Set<(usize, usize)>;

/// Relies on `DashSet::with_capacity`: a new set is empty.
#[verifier::external_body]
fn new_key_set(capacity: usize) -> (r: DashSet<usize>)
    ensures
        key_set(r) == Set::<usize>::empty(),
{
    DashSet::with_capacity(capacity)
}

/// Relies on `DashSet::with_capacity`: a new set is empty.
#[verifier::external_body]
fn new_edge_set(capacity: usize) -> (r: DashSet<(usize, usize)>)
    ensures
        edge_set(r) == Set::<(usize, usize)>::empty(),
{
    DashSet::with_capacity(capacity)
}

/// Relies on `DashSet::insert`: the key is a member afterwards, nothing else changes.
#[verifier::external_body]
fn insert_key(s: &mut DashSet<usize>, key: usize)
    ensures
        key_set(*final(s)) == key_set(*old(s)).insert(key),
{
    s.insert(key);
}

/// Relies on `DashSet::insert`: the pair is a member afterwards, nothing else changes.
#[verifier::external_body]
fn insert_edge(s: &mut DashSet<(usize, usize)>, edge: (usize, usize))
    ensures
        edge_set(*final(s)) == edge_set(*old(s)).insert(edge),
{
    s.insert(edge);
}

/// Relies on `DashSet::contains`: membership of the key.
#[verifier::external_body]
pub(crate) fn has_key(s: &DashSet<usize>, key: usize) -> (r: bool)
    ensures
        r == key_set(*s).contains(key),
{
    s.contains(&key)
}

/// Relies on `DashSet::contains`: membership of the pair.
#[verifier::external_body]
pub(crate) fn has_edge(s: &DashSet<(usize, usize)>, edge: (usize, usize)) -> (r: bool)
    ensures
        r == edge_set(*s).contains(edge),
{
    s.contains(&edge)
}

/// What the window centred on `k` yields, as `scan_window` classifies it.
pub open spec fn scanned(
    img: Seq<Seq<char>>,
    w: int,
    h: int,
    dual: bool,
    k: int,
    r: Option<Vec<usize>>,
) -> bool {
    &&& (r is Some <==> counted(img, w, h, dual, k))
    &&& (r matches Some(v) ==> v@ == window_nbs(img, w, k, 9))
}

/// Relies on rayon's indexed parallel iterator over `0..n`: `map` applies
/// `scan_window` to every position and `collect` keeps the positions' order.
#[verifier::external_body]
fn scan_all(img: &Vec<String>, w: usize, h: usize, dual: bool, black: &String, white: &String) -> (r:
    Vec<Option<Vec<usize>>>)
    requires
        w * h <= img.len(),
        black@ == black_color(),
        white@ == white_color(),
    ensures
        r.len() == w * h,
        forall|k: int|
            0 <= k < r.len() ==> scanned(img.deep_view(), w as int, h as int, dual, k, #[trigger] r[k]),
{
    (0..w * h).into_par_iter().map(|k| scan_window(img, w, h, k, dual, black, white)).collect()
}

/// Palette indices of the centres of the counted windows among the first `m` pixels.
pub open spec fn keys_upto(
    img: Seq<Seq<char>>,
    ids: Seq<usize>,
    w: int,
    h: int,
    dual: bool,
    m: int,
) -> Set<usize> {
    Set::new(|i: usize| exists|k: int| 0 <= k < m && counted(img, w, h, dual, k) && ids[k] == i)
}

/// Pairs (centre, neighbour) of palette indices seen in the counted windows
/// among the first `m` pixels.
pub open spec fn edges_upto(
    img: Seq<Seq<char>>,
    ids: Seq<usize>,
    w: int,
    h: int,
    dual: bool,
    m: int,
) -> Set<(usize, usize)> {
    Set::new(
        |e: (usize, usize)|
            exists|k: int, q: usize|
                0 <= k < m && counted(img, w, h, dual, k) && #[trigger] window_nbs(
                    img,
                    w,
                    k,
                    9,
                ).contains(q) && ids[k] == e.0 && ids[q as int] == e.1,
    )
}

/// Pairs from the centre of window `k` to the first `t` of its neighbours.
pub open spec fn nb_edges(img: Seq<Seq<char>>, ids: Seq<usize>, w: int, k: int, t: int) -> Set<
    (usize, usize),
> {
    Set::new(
        |e: (usize, usize)|
            exists|s: int|
                0 <= s < t && e == (ids[k], #[trigger] ids[window_nbs(img, w, k, 9)[s] as int]),
    )
}

proof fn lemma_nb_edges_step(img: Seq<Seq<char>>, ids: Seq<usize>, w: int, k: int, t: int)
    requires
        0 <= t,
    ensures
        nb_edges(img, ids, w, k, t + 1) == nb_edges(img, ids, w, k, t).insert(
            (ids[k], ids[window_nbs(img, w, k, 9)[t] as int]),
        ),
{
    let ws = window_nbs(img, w, k, 9);
    let a = nb_edges(img, ids, w, k, t + 1);
    let b = nb_edges(img, ids, w, k, t).insert((ids[k], ids[ws[t] as int]));
    assert forall|e: (usize, usize)| a.contains(e) implies b.contains(e) by {
        let s = choose|s: int| 0 <= s < t + 1 && e == (ids[k], #[trigger] ids[ws[s] as int]);
        if s < t {
            assert(nb_edges(img, ids, w, k, t).contains(e));
        }
    }
    assert forall|e: (usize, usize)| b.contains(e) implies a.contains(e) by {
        if e != (ids[k], ids[ws[t] as int]) {
            let s = choose|s: int| 0 <= s < t && e == (ids[k], #[trigger] ids[ws[s] as int]);
            assert(0 <= s < t + 1 && e == (ids[k], ids[ws[s] as int]));
        } else {
            assert(0 <= t < t + 1 && e == (ids[k], ids[ws[t] as int]));
        }
    }
    assert(a =~= b);
}

proof fn lemma_skip_step(img: Seq<Seq<char>>, ids: Seq<usize>, w: int, h: int, dual: bool, k: int)
    requires
        !counted(img, w, h, dual, k),
    ensures
        keys_upto(img, ids, w, h, dual, k + 1) == keys_upto(img, ids, w, h, dual, k),
        edges_upto(img, ids, w, h, dual, k + 1) == edges_upto(img, ids, w, h, dual, k),
{
    let a = keys_upto(img, ids, w, h, dual, k + 1);
    let b = keys_upto(img, ids, w, h, dual, k);
    assert forall|i: usize| a.contains(i) implies b.contains(i) by {
        let j = choose|j: int| 0 <= j < k + 1 && counted(img, w, h, dual, j) && ids[j] == i;
        assert(j < k);
    }
    assert(a =~= b);
    let c = edges_upto(img, ids, w, h, dual, k + 1);
    let d = edges_upto(img, ids, w, h, dual, k);
    assert forall|e: (usize, usize)| c.contains(e) implies d.contains(e) by {
        let (j, q) = choose|j: int, q: usize|
            0 <= j < k + 1 && counted(img, w, h, dual, j) && #[trigger] window_nbs(
                img,
                w,
                j,
                9,
            ).contains(q) && ids[j] == e.0 && ids[q as int] == e.1;
        assert(j < k);
    }
    assert(c =~= d);
}

proof fn lemma_merge_step(img: Seq<Seq<char>>, ids: Seq<usize>, w: int, h: int, dual: bool, k: int)
    requires
        0 <= k,
        counted(img, w, h, dual, k),
    ensures
        keys_upto(img, ids, w, h, dual, k + 1) == keys_upto(img, ids, w, h, dual, k).insert(ids[k]),
        edges_upto(img, ids, w, h, dual, k + 1) == edges_upto(img, ids, w, h, dual, k).union(
            nb_edges(img, ids, w, k, window_nbs(img, w, k, 9).len() as int),
        ),
{
    let ws = window_nbs(img, w, k, 9);
    let a = keys_upto(img, ids, w, h, dual, k + 1);
    let b = keys_upto(img, ids, w, h, dual, k).insert(ids[k]);
    assert forall|i: usize| a.contains(i) implies b.contains(i) by {
        let j = choose|j: int| 0 <= j < k + 1 && counted(img, w, h, dual, j) && ids[j] == i;
        if j < k {
            assert(keys_upto(img, ids, w, h, dual, k).contains(i));
        }
    }
    assert forall|i: usize| b.contains(i) implies a.contains(i) by {
        if i != ids[k] {
            let j = choose|j: int| 0 <= j < k && counted(img, w, h, dual, j) && ids[j] == i;
            assert(0 <= j < k + 1);
        } else {
            assert(0 <= k < k + 1 && counted(img, w, h, dual, k) && ids[k] == i);
        }
    }
    assert(a =~= b);
    let c = edges_upto(img, ids, w, h, dual, k + 1);
    let d = edges_upto(img, ids, w, h, dual, k).union(nb_edges(img, ids, w, k, ws.len() as int));
    assert forall|e: (usize, usize)| c.contains(e) implies d.contains(e) by {
        let (j, q) = choose|j: int, q: usize|
            0 <= j < k + 1 && counted(img, w, h, dual, j) && #[trigger] window_nbs(
                img,
                w,
                j,
                9,
            ).contains(q) && ids[j] == e.0 && ids[q as int] == e.1;
        if j < k {
            assert(edges_upto(img, ids, w, h, dual, k).contains(e));
        } else {
            let s = choose|s: int| 0 <= s < ws.len() && ws[s] == q;
            assert(e == (ids[k], ids[ws[s] as int]));
            assert(nb_edges(img, ids, w, k, ws.len() as int).contains(e));
        }
    }
    assert forall|e: (usize, usize)| d.contains(e) implies c.contains(e) by {
        if edges_upto(img, ids, w, h, dual, k).contains(e) {
            let (j, q) = choose|j: int, q: usize|
                0 <= j < k && counted(img, w, h, dual, j) && #[trigger] window_nbs(
                    img,
                    w,
                    j,
                    9,
                ).contains(q) && ids[j] == e.0 && ids[q as int] == e.1;
            assert(0 <= j < k + 1);
        } else {
            let s = choose|s: int| 0 <= s < ws.len() && e == (ids[k], #[trigger] ids[ws[s] as int]);
            assert(ws.contains(ws[s]));
        }
    }
    assert(c =~= d);
}

/// The adjacency graph: which palette colours are keys, and which pairs touch.
pub struct AdjacencyGraph {
    pub keys: DashSet<usize>,
    pub edges: DashSet<(usize, usize)>,
}

/// Scans every window of the grid (in parallel) and merges what each counted
/// window contributes: its centre colour as a key, and an edge from it to each
/// neighbour colour. `ids[k]` is the palette index of pixel `k`.
pub fn detect_colors(
    img: &Vec<String>,
    ids: &Vec<usize>,
    w: usize,
    h: usize,
    dual: bool,
    max_num_colors: usize,
    black: &String,
    white: &String,
) -> (g: AdjacencyGraph)
    requires
        w * h <= img.len(),
        ids.len() == img.len(),
        black@ == black_color(),
        white@ == white_color(),
    ensures
        key_set(g.keys) == keys_upto(img.deep_view(), ids@, w as int, h as int, dual, w * h),
        edge_set(g.edges) == edges_upto(img.deep_view(), ids@, w as int, h as int, dual, w * h),
{
    let ghost pix = img.deep_view();
    let scans = scan_all(img, w, h, dual, black, white);
    let mut keys = new_key_set(max_num_colors);
    let mut edges = new_edge_set(max_num_colors);
    let n = w * h;
    let mut k: usize = 0;
    while k < n
        invariant
            n == w * h,
            n <= img.len(),
            ids.len() == img.len(),
            pix == img.deep_view(),
            scans.len() == n,
            forall|j: int|
                0 <= j < scans.len() ==> scanned(pix, w as int, h as int, dual, j, #[trigger] scans[j]),
            k <= n,
            key_set(keys) == keys_upto(pix, ids@, w as int, h as int, dual, k as int),
            edge_set(edges) == edges_upto(pix, ids@, w as int, h as int, dual, k as int),
        decreases n - k,
    {
        assert(scanned(pix, w as int, h as int, dual, k as int, scans[k as int]));
        if let Some(nbs) = &scans[k] {
            proof {
                lemma_window_nbs_members(pix, w as int, k as int, 9);
            }
            let c = ids[k];
            insert_key(&mut keys, c);
            let mut t: usize = 0;
            while t < nbs.len()
                invariant
                    n == w * h,
                    n <= img.len(),
                    ids.len() == img.len(),
                    k < n,
                    c == ids[k as int],
                    counted(pix, w as int, h as int, dual, k as int),
                    nbs@ == window_nbs(pix, w as int, k as int, 9),
                    forall|q: usize| #[trigger] nbs@.contains(q) ==> q < n,
                    t <= nbs.len(),
                    edge_set(edges) == edges_upto(pix, ids@, w as int, h as int, dual, k as int).union(
                        nb_edges(pix, ids@, w as int, k as int, t as int),
                    ),
                decreases nbs.len() - t,
            {
                let q = nbs[t];
                assert(nbs@.contains(q));
                insert_edge(&mut edges, (c, ids[q]));
                proof {
                    lemma_nb_edges_step(pix, ids@, w as int, k as int, t as int);
                }
                t = t + 1;
            }
            proof { lemma_merge_step(pix, ids@, w as int, h as int, dual, k as int); }
        } else {
            proof { lemma_skip_step(pix, ids@, w as int, h as int, dual, k as int); }
        }
        k = k + 1;
    }
    AdjacencyGraph { keys, edges }
}

} // verus!
