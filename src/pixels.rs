use vstd::prelude::*;
use vstd::string::*;

verus! {

/// The whitespace-separated tokens of a text, in order.
pub uninterp spec fn whitespace_tokens(s: Seq<char>) -> Seq<Seq<char>>;

/// Relies on `str::split_whitespace`: the tokens of `s`, in order.
#[verifier::external_body]
fn split_tokens(s: &str) -> (r: Vec<String>)
    ensures
        r.deep_view() == whitespace_tokens(s@),
{
    s.split_whitespace().map(|t| t.to_string()).collect()
}

/// Pixel `i` of a token stream: tokens `3i`, `3i+1`, `3i+2` joined by single spaces.
pub open spec fn pixel_of(t: Seq<Seq<char>>, i: int) -> Seq<char> {
    t[3 * i] + " "@ + t[3 * i + 1] + " "@ + t[3 * i + 2]
}

/// The pixels of a token stream; a trailing partial triple is dropped.
pub open spec fn pixels_of(t: Seq<Seq<char>>) -> Seq<Seq<char>> {
    Seq::new(t.len() / 3, |i: int| pixel_of(t, i))
}

/// Groups tokens into pixel colours, three at a time, in order.
pub fn group_pixels(tokens: &Vec<String>) -> (r: Vec<String>)
    ensures
        r.deep_view() == pixels_of(tokens.deep_view()),
{
    let ghost t = tokens.deep_view();
    let count = tokens.len() / 3;
    let mut r: Vec<String> = Vec::with_capacity(count);
    let mut i: usize = 0;
    while i < count
        invariant
            count == tokens.len() / 3,
            t == tokens.deep_view(),
            i <= count,
            r.len() == i,
            forall|j: int| 0 <= j < i ==> #[trigger] r@[j]@ == pixel_of(t, j),
        decreases count - i,
    {
        let mut px = tokens[3 * i].clone();
        px.append(" ");
        px.append(tokens[3 * i + 1].as_str());
        px.append(" ");
        px.append(tokens[3 * i + 2].as_str());
        r.push(px);
        i = i + 1;
    }
    assert(r.deep_view() =~= pixels_of(t));
    r
}

/// Decodes a text of whitespace-separated numbers into pixel colours.
pub fn convert_image(image: &str) -> (r: Vec<String>)
    ensures
        r.deep_view() == pixels_of(whitespace_tokens(image@)),
{
    let tokens = split_tokens(image);
    group_pixels(&tokens)
}

/// `pal` lists each colour of `img` exactly once.
pub open spec fn is_palette(pal: Seq<Seq<char>>, img: Seq<Seq<char>>) -> bool {
    &&& pal.no_duplicates()
    &&& forall|k: int| 0 <= k < img.len() ==> pal.contains(#[trigger] img[k])
    &&& forall|i: int| 0 <= i < pal.len() ==> img.contains(#[trigger] pal[i])
}

/// Interns the pixel colours: returns each distinct colour once, and for
/// each pixel the index of its colour among them.
pub fn build_palette(img: &Vec<String>) -> (r: (Vec<String>, Vec<usize>))
    ensures
        is_palette(r.0.deep_view(), img.deep_view()),
        r.1.len() == img.len(),
        forall|k: int|
            0 <= k < img.len() ==> (#[trigger] r.1[k]) < r.0.len() && r.0@[r.1[k] as int]@
                == img@[k]@,
{
    let ghost pix = img.deep_view();
    let mut pal: Vec<String> = Vec::new();
    let mut ids: Vec<usize> = Vec::with_capacity(img.len());
    let mut k: usize = 0;
    while k < img.len()
        invariant
            pix == img.deep_view(),
            k <= img.len(),
            ids.len() == k,
            pal.len() <= k,
            pal.deep_view().no_duplicates(),
            forall|j: int| 0 <= j < k ==> (#[trigger] ids[j]) < pal.len() && pal@[ids[j] as int]@ == pix[j],
            forall|i: int| 0 <= i < pal.len() ==> pix.take(k as int).contains(#[trigger] pal@[i]@),
        decreases img.len() - k,
    {
        let mut found = pal.len();
        let mut i: usize = 0;
        while i < pal.len()
            invariant_except_break
                found == pal.len(),
                forall|j: int| 0 <= j < i ==> (#[trigger] pal@[j])@ != pix[k as int],
            invariant
                pix == img.deep_view(),
                k < img.len(),
                i <= pal.len(),
                found == pal.len() || (found < pal.len() && pal@[found as int]@ == pix[k as int]),
            ensures
                found == pal.len() ==> forall|j: int|
                    0 <= j < pal.len() ==> (#[trigger] pal@[j])@ != pix[k as int],
            decreases pal.len() - i,
        {
            if pal[i] == img[k] {
                found = i;
                break;
            }
            i = i + 1;
        }
        assert(pix.take(k as int + 1) =~= pix.take(k as int).push(pix[k as int]));
        if found == pal.len() {
            let ghost old_pal = pal.deep_view();
            pal.push(img[k].clone());
            assert(pal.deep_view() =~= old_pal.push(pix[k as int]));
            assert(!old_pal.contains(pix[k as int]));
            assert(pix.take(k as int + 1)[k as int] == pix[k as int]);
        }
        ids.push(found);
        k = k + 1;
    }
    proof {
        assert(pix.take(img.len() as int) =~= pix);
        let pv = pal.deep_view();
        assert forall|j: int| 0 <= j < pix.len() implies pv.contains(#[trigger] pix[j]) by {
            assert(pv[ids[j] as int] == pix[j]);
        }
    }
    (pal, ids)
}

} // verus!
