use std::collections::{HashMap, HashSet};
use svg_creator_rs::analyze_image;
use svg_creator_rs::complement::convert_result;
use svg_creator_rs::image_analysis::mode_ignores_white;
use svg_creator_rs::pixels::{build_palette, convert_image, group_pixels};
use svg_creator_rs::window::scan_window;

const K: &str = "0.000000 0.000000 0.000000";
const W: &str = "1.000000 1.000000 1.000000";
const C1: &str = "0.100000 0.100000 0.100000";
const A: &str = "0.200000 0.200000 0.200000";
const B: &str = "0.300000 0.300000 0.300000";

fn payload(px: &[&str]) -> String {
    px.join(" ")
}

fn grid(w: usize, h: usize, fill: &str, marks: &[(usize, usize, &str)]) -> Vec<String> {
    let mut g = vec![fill.to_string(); w * h];
    for &(r, c, col) in marks {
        g[r * w + c] = col.to_string();
    }
    g
}

fn parse(out: &str) -> HashMap<String, HashSet<String>> {
    let mut m = HashMap::new();
    if out.is_empty() {
        return m;
    }
    for line in out.split('\n') {
        let (key, rest) = line.split_once(": ").expect("line without separator");
        let toks: Vec<&str> = rest.split_whitespace().collect();
        assert_eq!(toks.len() % 3, 0);
        let vals: HashSet<String> = toks.chunks(3).map(|c| c.join(" ")).collect();
        assert!(m.insert(key.to_string(), vals).is_none(), "key listed twice");
    }
    m
}

fn run(w: usize, h: usize, px: &[String], mode: &str) -> HashMap<String, HashSet<String>> {
    let refs: Vec<&str> = px.iter().map(|s| s.as_str()).collect();
    let out = analyze_image(payload(&refs), w, h, mode, 4).expect("enough pixels");
    parse(&out)
}

fn set(items: &[&str]) -> HashSet<String> {
    items.iter().map(|s| s.to_string()).collect()
}

#[test]
fn narrow_or_low_images_give_empty_text() {
    let px = grid(2, 5, C1, &[]);
    let refs: Vec<&str> = px.iter().map(|s| s.as_str()).collect();
    assert_eq!(analyze_image(payload(&refs), 2, 5, "32", 8), Some(String::new()));
    let px = grid(6, 1, A, &[]);
    let refs: Vec<&str> = px.iter().map(|s| s.as_str()).collect();
    assert_eq!(analyze_image(payload(&refs), 6, 1, "8", 8), Some(String::new()));
    assert_eq!(analyze_image(String::new(), 0, 0, "32", 0), Some(String::new()));
    assert_eq!(analyze_image(String::new(), 1, 100, "32", 0), Some(String::new()));
}

#[test]
fn single_block_has_empty_complement() {
    let px = grid(4, 4, K, &[(1, 1, C1), (1, 2, C1), (2, 1, C1), (2, 2, C1)]);
    let refs: Vec<&str> = px.iter().map(|s| s.as_str()).collect();
    let out = analyze_image(payload(&refs), 4, 4, "32", 1).unwrap();
    assert_eq!(out, format!("{}: ", C1));
    let m = parse(&out);
    assert_eq!(m.len(), 1);
    assert!(m[C1].is_empty());
}

#[test]
fn disjoint_regions_are_non_neighbours() {
    let px = grid(5, 5, K, &[(1, 1, A), (3, 3, B)]);
    let m = run(5, 5, &px, "32");
    assert_eq!(m.len(), 2);
    assert_eq!(m[A], set(&[B]));
    assert_eq!(m[B], set(&[A]));
}

#[test]
fn touching_regions_are_not_non_neighbours() {
    let px = grid(5, 5, K, &[(1, 1, A), (1, 2, B)]);
    let m = run(5, 5, &px, "32");
    assert_eq!(m.len(), 2);
    assert!(m[A].is_empty());
    assert!(m[B].is_empty());
}

#[test]
fn adjacency_can_be_one_sided() {
    // B sits on the border next to A, and again in the interior far from A.
    let px = grid(5, 5, K, &[(1, 1, A), (0, 0, B), (3, 3, B)]);
    let m = run(5, 5, &px, "32");
    assert!(m[A].is_empty());
    assert_eq!(m[B], set(&[A]));
}

#[test]
fn complement_is_disjoint_from_window_pairs() {
    let px = grid(
        6,
        5,
        K,
        &[(1, 1, A), (1, 2, B), (3, 4, C1), (2, 3, W)],
    );
    let m = run(6, 5, &px, "32");
    assert!(!m[A].contains(B));
    assert!(!m[B].contains(A));
    assert!(!m[W].contains(B));
    assert!(!m[W].contains(C1));
    assert!(m[A].contains(C1));
    assert!(m[A].contains(W));
    assert!(m[C1].contains(A));
    for (k, v) in &m {
        assert!(!v.contains(k));
    }
}

#[test]
fn rerun_gives_same_content() {
    let px = grid(7, 6, A, &[(1, 1, B), (4, 5, C1), (2, 3, K), (5, 0, W), (3, 3, W)]);
    let first = run(7, 6, &px, "8");
    let second = run(7, 6, &px, "8");
    assert_eq!(first, second);
}

#[test]
fn every_key_is_listed_even_with_empty_set() {
    let px = grid(5, 5, A, &[(2, 2, B)]);
    let m = run(5, 5, &px, "32");
    assert_eq!(m.len(), 2);
    assert!(m[A].is_empty());
    assert!(m[B].is_empty());
}

#[test]
fn all_white_windows_are_background_in_low_depth_modes() {
    let px = grid(5, 5, W, &[]);
    let refs: Vec<&str> = px.iter().map(|s| s.as_str()).collect();
    assert_eq!(analyze_image(payload(&refs), 5, 5, "8", 2), Some(String::new()));
    assert_eq!(analyze_image(payload(&refs), 5, 5, "16", 2), Some(String::new()));
    assert_eq!(
        analyze_image(payload(&refs), 5, 5, "32", 2),
        Some(format!("{}: ", W))
    );
}

#[test]
fn white_centre_beside_colour_counts_in_low_depth_mode() {
    let px = grid(5, 5, W, &[(0, 0, A), (3, 3, B)]);
    let m = run(5, 5, &px, "8");
    assert_eq!(m.len(), 2);
    assert_eq!(m[W], set(&[]));
    assert_eq!(m[B], set(&[]));
    assert!(!m.contains_key(A));
}

#[test]
fn black_is_never_a_key_or_neighbour() {
    let px = grid(4, 4, K, &[(1, 1, A)]);
    let m = run(4, 4, &px, "32");
    assert_eq!(m.len(), 1);
    assert!(m[A].is_empty());
}

#[test]
fn too_few_pixels_is_refused() {
    let px = grid(4, 3, A, &[]);
    let refs: Vec<&str> = px.iter().map(|s| s.as_str()).collect();
    assert_eq!(analyze_image(payload(&refs), 4, 4, "32", 2), None);
    assert_eq!(analyze_image(payload(&refs), 5, 3, "32", 2), None);
    assert_eq!(analyze_image(String::new(), 3, 3, "32", 2), None);
    assert!(analyze_image(payload(&refs), 4, 3, "32", 2).is_some());
}

#[test]
fn capacity_hint_is_not_a_limit() {
    let px = grid(5, 5, A, &[(1, 1, B), (3, 3, C1), (2, 2, W)]);
    let refs: Vec<&str> = px.iter().map(|s| s.as_str()).collect();
    let out = analyze_image(payload(&refs), 5, 5, "32", 0).unwrap();
    assert_eq!(parse(&out).len(), 4);
}

#[test]
fn trailing_partial_pixel_is_dropped() {
    let mut text = payload(&grid(3, 3, K, &[(1, 1, A)]).iter().map(|s| s.as_str()).collect::<Vec<_>>());
    text.push_str(" 0.5 0.5");
    assert_eq!(analyze_image(text, 3, 3, "32", 1), Some(format!("{}: ", A)));
}

#[test]
fn decoding_groups_tokens_in_threes() {
    let px = convert_image("1 2 3\n4\t5   6 7");
    assert_eq!(px, vec!["1 2 3".to_string(), "4 5 6".to_string()]);
    assert!(convert_image("  \n ").is_empty());
    let toks: Vec<String> = ["a", "b", "c", "d", "e", "f"].iter().map(|s| s.to_string()).collect();
    assert_eq!(group_pixels(&toks), vec!["a b c".to_string(), "d e f".to_string()]);
}

#[test]
fn palette_lists_colours_in_first_seen_order() {
    let img: Vec<String> = ["x", "y", "x", "z", "y"].iter().map(|s| s.to_string()).collect();
    let (pal, ids) = build_palette(&img);
    assert_eq!(pal, vec!["x".to_string(), "y".to_string(), "z".to_string()]);
    assert_eq!(ids, vec![0, 1, 0, 2, 1]);
}

#[test]
fn modes_that_ignore_white() {
    assert!(mode_ignores_white("8"));
    assert!(mode_ignores_white("16"));
    assert!(!mode_ignores_white("32"));
    assert!(!mode_ignores_white(""));
    assert!(!mode_ignores_white("18"));
}

#[test]
fn window_scan_lists_neighbour_positions() {
    let img = grid(4, 4, K, &[(1, 1, A), (0, 0, B), (1, 2, A), (2, 2, C1)]);
    let black = K.to_string();
    let white = W.to_string();
    assert_eq!(scan_window(&img, 4, 4, 5, false, &black, &white), Some(vec![0, 10]));
    assert_eq!(scan_window(&img, 4, 4, 9, false, &black, &white), None);
    assert_eq!(scan_window(&img, 4, 4, 4, false, &black, &white), None);
    assert_eq!(scan_window(&img, 4, 4, 1, false, &black, &white), None);
    assert_eq!(scan_window(&img, 4, 4, 10, false, &black, &white), Some(vec![5, 6]));
}

#[test]
fn result_text_layout() {
    let pal: Vec<String> = ["a", "b", "c"].iter().map(|s| s.to_string()).collect();
    let entries = vec![(0usize, vec![1usize, 2]), (2, vec![])];
    assert_eq!(convert_result(&pal, &entries), "a: b c\nc: ".to_string());
    assert_eq!(convert_result(&pal, &vec![]), String::new());
}
