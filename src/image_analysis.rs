use vstd::prelude::*;
use vstd::string::*;
use crate::complement::{
    comp_entries,
    convert_result,
    detect_non_neighbours,
    entry_lines,
    lemma_comp_entries_bounds,
};
use crate::graph::{detect_colors, edge_set, edges_upto, key_set, keys_upto};
use crate::model::{indexes, lemma_lines_match, render};
use crate::pixels::{build_palette, convert_image, is_palette, pixels_of, whitespace_tokens};
use crate::window::{BLACK, WHITE};

verus! {

/// The modes of low bit-depth images ("8" and "16" bits per channel), in
/// which pure white is background as well as pure black.
pub open spec fn ignores_white(mode: Seq<char>) -> bool {
    mode =~= seq!['8'] || mode =~= seq!['1', '6']
}

/// Tells whether `mode` makes all-white windows background too.
pub fn mode_ignores_white(mode: &str) -> (r: bool)
    ensures
        r == ignores_white(mode@),
{
    let n = mode.unicode_len();
    if n == 1 {
        mode.get_char(0) == '8'
    } else if n == 2 {
        mode.get_char(0) == '1' && mode.get_char(1) == '6'
    } else {
        false
    }
}

/// Analyses an image given as whitespace-separated colour components, `w`
/// pixels wide and `h` high, and returns the text form of its complement
/// graph: for each colour that is the centre of a counted window, the colours
/// it never shares a window with. Images without interior pixels give the
/// empty text; an image with fewer pixels than `w * h` gives `None`.
/// `max_num_colors` only sizes the graph's first allocation.
pub fn analyze_image(image: String, w: usize, h: usize, mode: &str, max_num_colors: usize) -> (r:
    Option<String>)
    ensures
        w <= 2 || h <= 2 ==> (r matches Some(s) && s@ == Seq::<char>::empty()),
        w > 2 && h > 2 ==> (r is None <==> w * h > pixels_of(whitespace_tokens(image@)).len()),
        w > 2 && h > 2 ==> (r matches Some(s) ==> exists|pal: Seq<Seq<char>>|
            is_palette(pal, pixels_of(whitespace_tokens(image@))) && s@ == render(
                pal,
                pixels_of(whitespace_tokens(image@)),
                w as int,
                h as int,
                ignores_white(mode@),
            )),
{
    if w <= 2 || h <= 2 {
        return Some(String::new());
    }
    let img = convert_image(image.as_str());
    let n = match w.checked_mul(h) {
        Some(n) => n,
        None => {
            return None;
        },
    };
    if n > img.len() {
        return None;
    }
    let dual = mode_ignores_white(mode);
    let black = String::from_str(BLACK);
    let white = String::from_str(WHITE);
    let (pal, ids) = build_palette(&img);
    let g = detect_colors(&img, &ids, w, h, dual, max_num_colors, &black, &white);
    let entries = detect_non_neighbours(&g, pal.len());
    let ghost pv = pal.deep_view();
    let ghost pix = img.deep_view();
    let ghost keys = key_set(g.keys);
    let ghost edges = edge_set(g.edges);
    let ghost model = comp_entries(keys, edges, pal.len() as int, pal.len() as int);
    proof {
        lemma_comp_entries_bounds(keys, edges, pal.len() as int, pal.len() as int);
        assert(entries@.map_values(|e: (usize, Vec<usize>)| (e.0, e.1@)) =~= model);
        assert(indexes(pv, pix, ids@));
        lemma_lines_match(pv, pix, ids@, w as int, h as int, dual, pv.len() as int);
    }
    let out = convert_result(&pal, &entries);
    assert(is_palette(pv, pixels_of(whitespace_tokens(image@))));
    Some(out)
}

} // verus!
