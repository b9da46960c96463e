use vstd::prelude::*;
use vstd::string::*;
use crate::graph::{edge_set, has_edge, has_key, key_set, AdjacencyGraph};

verus! {

/// Palette indices below `m` that are keys, differ from `i`, and are not
/// neighbours of `i`: the non-neighbours of key `i`, in palette order.
pub open spec fn comp_ids(keys: Set<usize>, edges: Set<(usize, usize)>, i: usize, m: int) -> Seq<
    usize,
>
    decreases m,
{
    if m <= 0 {
        Seq::empty()
    } else {
        let rest = comp_ids(keys, edges, i, m - 1);
        let j = (m - 1) as usize;
        if keys.contains(j) && j != i && !edges.contains((i, j)) {
            rest.push(j)
        } else {
            rest
        }
    }
}

/// The complement graph over the keys below `m`: one entry per key, with the
/// key's non-neighbours among the first `p` palette indices.
pub open spec fn comp_entries(keys: Set<usize>, edges: Set<(usize, usize)>, p: int, m: int) -> Seq<
    (usize, Seq<usize>),
>
    decreases m,
{
    if m <= 0 {
        Seq::empty()
    } else {
        let rest = comp_entries(keys, edges, p, m - 1);
        let i = (m - 1) as usize;
        if keys.contains(i) {
            rest.push((i, comp_ids(keys, edges, i, p)))
        } else {
            rest
        }
    }
}

/// Turns the adjacency graph over a palette of `p` colours into its
/// complement: for every key, in palette order, the keys that are neither
/// the key itself nor among its neighbours.
pub fn detect_non_neighbours(g: &AdjacencyGraph, p: usize) -> (r: Vec<(usize, Vec<usize>)>)
    ensures
        r.len() == comp_entries(key_set(g.keys), edge_set(g.edges), p as int, p as int).len(),
        forall|t: int|
            0 <= t < r.len() ==> (#[trigger] r[t]).0 == comp_entries(
                key_set(g.keys),
                edge_set(g.edges),
                p as int,
                p as int,
            )[t].0 && r[t].1@ == comp_entries(
                key_set(g.keys),
                edge_set(g.edges),
                p as int,
                p as int,
            )[t].1,
{
    let ghost keys = key_set(g.keys);
    let ghost edges = edge_set(g.edges);
    let mut r: Vec<(usize, Vec<usize>)> = Vec::new();
    let mut i: usize = 0;
    while i < p
        invariant
            keys == key_set(g.keys),
            edges == edge_set(g.edges),
            i <= p,
            r.len() == comp_entries(keys, edges, p as int, i as int).len(),
            forall|t: int|
                0 <= t < r.len() ==> (#[trigger] r[t]).0 == comp_entries(
                    keys,
                    edges,
                    p as int,
                    i as int,
                )[t].0 && r[t].1@ == comp_entries(keys, edges, p as int, i as int)[t].1,
        decreases p - i,
    {
        if has_key(&g.keys, i) {
            let mut vals: Vec<usize> = Vec::new();
            let mut j: usize = 0;
            while j < p
                invariant
                    keys == key_set(g.keys),
                    edges == edge_set(g.edges),
                    j <= p,
                    vals@ == comp_ids(keys, edges, i, j as int),
                decreases p - j,
            {
                if j != i && has_key(&g.keys, j) && !has_edge(&g.edges, (i, j)) {
                    vals.push(j);
                }
                j = j + 1;
            }
            r.push((i, vals));
        }
        i = i + 1;
    }
    r
}

/// Parts joined by a separator, with none before the first or after the last.
pub open spec fn join(parts: Seq<Seq<char>>, sep: Seq<char>) -> Seq<char>
    decreases parts.len(),
{
    if parts.len() == 0 {
        Seq::empty()
    } else if parts.len() == 1 {
        parts[0]
    } else {
        join(parts.drop_last(), sep) + sep + parts.last()
    }
}

proof fn lemma_join_take(parts: Seq<Seq<char>>, sep: Seq<char>, t: int)
    requires
        0 <= t < parts.len(),
    ensures
        join(parts.take(t + 1), sep) == if t == 0 {
            parts[0]
        } else {
            join(parts.take(t), sep) + sep + parts[t]
        },
{
    assert(parts.take(t + 1).drop_last() =~= parts.take(t));
}

/// The colours that a sequence of palette indices stands for.
pub open spec fn names(pal: Seq<Seq<char>>, ids: Seq<usize>) -> Seq<Seq<char>> {
    ids.map_values(|j: usize| pal[j as int])
}

/// One line of the text form: `<colour>: <colour> <colour> ...`.
pub open spec fn entry_line(pal: Seq<Seq<char>>, key: usize, vals: Seq<usize>) -> Seq<char> {
    pal[key as int] + ": "@ + join(names(pal, vals), " "@)
}

/// The lines of a complement graph given by palette indices.
pub open spec fn entry_lines(pal: Seq<Seq<char>>, entries: Seq<(usize, Seq<usize>)>) -> Seq<
    Seq<char>,
> {
    entries.map_values(|e: (usize, Seq<usize>)| entry_line(pal, e.0, e.1))
}

fn render_line(pal: &Vec<String>, key: usize, vals: &Vec<usize>) -> (r: String)
    requires
        key < pal.len(),
        forall|t: int| 0 <= t < vals.len() ==> #[trigger] vals[t] < pal.len(),
    ensures
        r@ == entry_line(pal.deep_view(), key, vals@),
{
    let ghost pv = pal.deep_view();
    let ghost parts = names(pv, vals@);
    let mut line = pal[key].clone();
    line.append(": ");
    let ghost head = line@;
    let mut t: usize = 0;
    while t < vals.len()
        invariant
            pv == pal.deep_view(),
            parts == names(pv, vals@),
            forall|s: int| 0 <= s < vals.len() ==> #[trigger] vals[s] < pal.len(),
            t <= vals.len(),
            line@ == head + join(parts.take(t as int), " "@),
        decreases vals.len() - t,
    {
        proof {
            lemma_join_take(parts, " "@, t as int);
        }
        if t > 0 {
            line.append(" ");
        }
        line.append(pal[vals[t]].as_str());
        t = t + 1;
    }
    assert(parts.take(vals.len() as int) =~= parts);
    line
}

/// Renders a complement graph over palette indices as text: one line per
/// entry, `<colour>: <non-neighbour colours, space separated>`, lines joined
/// by newlines with none after the last.
pub fn convert_result(pal: &Vec<String>, entries: &Vec<(usize, Vec<usize>)>) -> (r: String)
    requires
        forall|t: int|
            0 <= t < entries.len() ==> (#[trigger] entries[t]).0 < pal.len() && forall|s: int|
                0 <= s < entries[t].1.len() ==> #[trigger] entries[t].1[s] < pal.len(),
    ensures
        r@ == join(
            entry_lines(pal.deep_view(), entries@.map_values(|e: (usize, Vec<usize>)| (e.0, e.1@))),
            "\n"@,
        ),
{
    let ghost pv = pal.deep_view();
    let ghost lines = entry_lines(pv, entries@.map_values(|e: (usize, Vec<usize>)| (e.0, e.1@)));
    let mut out = String::new();
    let mut t: usize = 0;
    while t < entries.len()
        invariant
            pv == pal.deep_view(),
            lines == entry_lines(pv, entries@.map_values(|e: (usize, Vec<usize>)| (e.0, e.1@))),
            forall|u: int|
                0 <= u < entries.len() ==> (#[trigger] entries[u]).0 < pal.len() && forall|s: int|
                    0 <= s < entries[u].1.len() ==> #[trigger] entries[u].1[s] < pal.len(),
            t <= entries.len(),
            out@ == join(lines.take(t as int), "\n"@),
        decreases entries.len() - t,
    {
        proof {
            lemma_join_take(lines, "\n"@, t as int);
        }
        if t > 0 {
            out.append("\n");
        }
        let line = render_line(pal, entries[t].0, &entries[t].1);
        out.append(line.as_str());
        t = t + 1;
    }
    assert(lines.take(entries.len() as int) =~= lines);
    out
}

pub proof fn lemma_comp_ids_bounds(keys: Set<usize>, edges: Set<(usize, usize)>, i: usize, m: int)
    requires
        m <= usize::MAX,
    ensures
        forall|s: int|
            0 <= s < comp_ids(keys, edges, i, m).len() ==> (#[trigger] comp_ids(keys, edges, i, m)[s])
                < m,
    decreases m,
{
    if m > 0 {
        lemma_comp_ids_bounds(keys, edges, i, m - 1);
        let rest = comp_ids(keys, edges, i, m - 1);
        let all = comp_ids(keys, edges, i, m);
        assert forall|s: int| 0 <= s < all.len() implies #[trigger] all[s] < m by {
            if s < rest.len() {
                assert(all[s] == rest[s]);
            }
        }
    }
}

pub proof fn lemma_comp_entries_bounds(keys: Set<usize>, edges: Set<(usize, usize)>, p: int, m: int)
    requires
        m <= p <= usize::MAX,
    ensures
        forall|t: int|
            0 <= t < comp_entries(keys, edges, p, m).len() ==> (#[trigger] comp_entries(
                keys,
                edges,
                p,
                m,
            )[t]).0 < m && forall|s: int|
                0 <= s < comp_entries(keys, edges, p, m)[t].1.len() ==> #[trigger] comp_entries(
                    keys,
                    edges,
                    p,
                    m,
                )[t].1[s] < p,
    decreases m,
{
    if m > 0 {
        lemma_comp_entries_bounds(keys, edges, p, m - 1);
        lemma_comp_ids_bounds(keys, edges, (m - 1) as usize, p);
        let rest = comp_entries(keys, edges, p, m - 1);
        let all = comp_entries(keys, edges, p, m);
        assert forall|t: int| 0 <= t < all.len() implies (#[trigger] all[t]).0 < m && forall|s: int|
            0 <= s < all[t].1.len() ==> #[trigger] all[t].1[s] < p by {
            if t < rest.len() {
                assert(all[t] == rest[t]);
            }
        }
    }
}

} // verus!
