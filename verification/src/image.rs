//! Output formats and the geometry of the vertical chunks an image is
//! sliced into.

use vstd::prelude::*;
use crate::error::Error;

verus! {

/// Output image format, named in requests by its lowercase name.
#[derive(Debug, Clone, Copy, PartialEq, Eq, Structural)]
pub enum ImageFormat {
    Jpeg,
    Png,
    Webp,
}

impl ImageFormat {
    /// The filename suffix of the format, as characters.
    pub open spec fn suffix_chars(self) -> Seq<char> {
        match self {
            ImageFormat::Jpeg => seq!['.', 'j', 'p', 'g'],
            ImageFormat::Png => seq!['.', 'p', 'n', 'g'],
            ImageFormat::Webp => seq!['.', 'w', 'e', 'b', 'p'],
        }
    }

    /// Filename suffix, also used by the image library to pick the
    /// encoder when writing an image to a buffer.
    pub fn suffix(&self) -> (s: &'static str)
        ensures
            s@ == self.suffix_chars(),
    {
        match self {
            ImageFormat::Jpeg => {
                proof {
                    reveal_strlit(".jpg");
                }
                ".jpg"
            },
            ImageFormat::Png => {
                proof {
                    reveal_strlit(".png");
                }
                ".png"
            },
            ImageFormat::Webp => {
                proof {
                    reveal_strlit(".webp");
                }
                ".webp"
            },
        }
    }
}

} // verus!

verus! {

/// Width and height (px) of a decoded image.
#[derive(Debug, Clone, Copy, PartialEq, Eq, Structural)]
pub struct Dimensions {
    pub width: u32,
    pub height: u32,
}

/// A rectangle of an image (px): `width` columns from `left` and
/// `height` rows from `top`.
#[derive(Debug, Clone, Copy, PartialEq, Eq, Structural)]
pub struct Region {
    pub left: u32,
    pub top: u32,
    pub width: u32,
    pub height: u32,
}

/// Number of chunks of at most `chunk_height` rows that cover `height`
/// rows: the height divided by the chunk height, rounded up.
pub open spec fn chunk_count(height: int, chunk_height: int) -> int {
    (height + chunk_height - 1) / chunk_height
}

/// Rows of chunk `k`: `chunk_height`, except for the final chunk, which
/// holds what is left.
pub open spec fn chunk_rows(height: int, chunk_height: int, k: int) -> int {
    if height - k * chunk_height < chunk_height {
        height - k * chunk_height
    } else {
        chunk_height
    }
}

/// `r` is chunk `k` of an image of dimensions `dims`: the full width,
/// starting at row `k * chunk_height`.
pub open spec fn is_chunk(r: Region, dims: Dimensions, chunk_height: int, k: int) -> bool {
    &&& r.left == 0
    &&& r.top == k * chunk_height
    &&& r.width == dims.width
    &&& r.height == chunk_rows(dims.height as int, chunk_height, k)
}

/// `plan` slices an image of dimensions `dims` top to bottom into chunks
/// of `chunk_height` rows, the final one possibly shorter.
pub open spec fn is_chunk_plan(plan: Seq<Region>, dims: Dimensions, chunk_height: int) -> bool {
    &&& plan.len() == chunk_count(dims.height as int, chunk_height)
    &&& forall|k: int| 0 <= k < plan.len() ==> is_chunk(#[trigger] plan[k], dims, chunk_height, k)
}

/// A chunk starts inside the image exactly when its index is below the
/// chunk count.
pub proof fn lemma_chunk_count(height: int, chunk_height: int, k: int)
    requires
        height >= 0,
        chunk_height > 0,
        k >= 0,
    ensures
        k < chunk_count(height, chunk_height) <==> k * chunk_height < height,
{
    let x = height + chunk_height - 1;
    let q = x / chunk_height;
    let r = x % chunk_height;
    vstd::arithmetic::div_mod::lemma_fundamental_div_mod(x, chunk_height);
    vstd::arithmetic::div_mod::lemma_mod_pos_bound(x, chunk_height);
    assert(x == chunk_height * q + r);
    if k < q {
        assert(k * chunk_height <= (q - 1) * chunk_height) by (nonlinear_arith)
            requires
                k <= q - 1,
                chunk_height > 0,
        ;
        assert((q - 1) * chunk_height == chunk_height * q - chunk_height) by (nonlinear_arith);
    } else {
        assert(k * chunk_height >= q * chunk_height) by (nonlinear_arith)
            requires
                k >= q,
                chunk_height > 0,
        ;
        assert(q * chunk_height == chunk_height * q) by (nonlinear_arith);
    }
}

/// Chunk `k` of `height` rows cut every `chunk_height` rows holds between
/// one and `chunk_height` rows: exactly `chunk_height` unless it is the
/// last, which ends at the bottom row; the next chunk starts
/// `chunk_height` rows further down.
pub proof fn lemma_chunk_rows(height: int, chunk_height: int, k: int)
    requires
        height >= 0,
        chunk_height > 0,
        0 <= k < chunk_count(height, chunk_height),
    ensures
        0 < chunk_rows(height, chunk_height, k) <= chunk_height,
        k < chunk_count(height, chunk_height) - 1 ==> chunk_rows(height, chunk_height, k)
            == chunk_height,
        k == chunk_count(height, chunk_height) - 1 ==> k * chunk_height + chunk_rows(
            height,
            chunk_height,
            k,
        ) == height,
        (k + 1) * chunk_height == k * chunk_height + chunk_height,
{
    lemma_chunk_count(height, chunk_height, k);
    lemma_chunk_count(height, chunk_height, k + 1);
    assert((k + 1) * chunk_height == k * chunk_height + chunk_height) by (nonlinear_arith);
}

/// Sum of the heights of the regions of `plan`.
pub open spec fn total_rows(plan: Seq<Region>) -> int
    decreases plan.len(),
{
    if plan.len() == 0 {
        0
    } else {
        total_rows(plan.drop_last()) + plan.last().height
    }
}

/// The chunks of a plan tile the image: the first starts at the top row,
/// each starts where the previous one ends, the last ends at the bottom
/// row, every chunk but the last has exactly `chunk_height` rows, the
/// last has between one and `chunk_height` rows, and the heights add up
/// to the image height.
pub proof fn lemma_chunks_tile(plan: Seq<Region>, dims: Dimensions, chunk_height: int)
    requires
        chunk_height > 0,
        dims.height > 0,
        is_chunk_plan(plan, dims, chunk_height),
    ensures
        plan.len() > 0,
        plan[0].top == 0,
        forall|k: int|
            0 <= k < plan.len() - 1 ==> #[trigger] plan[k + 1].top == plan[k].top + plan[k].height,
        forall|k: int| 0 <= k < plan.len() - 1 ==> #[trigger] plan[k].height == chunk_height,
        forall|k: int| 0 <= k < plan.len() ==> 0 < #[trigger] plan[k].height <= chunk_height,
        plan.last().top + plan.last().height == dims.height,
        total_rows(plan) == dims.height,
{
    let h = dims.height as int;
    let c = chunk_height;
    let n = plan.len() as int;
    lemma_chunk_count(h, c, 0);
    assert(plan[0].top == 0 * c);
    assert forall|k: int| 0 <= k < n implies 0 < #[trigger] plan[k].height <= c && (k < n - 1
        ==> plan[k].height == c) && (k == n - 1 ==> plan[k].top + plan[k].height == h) by {
        assert(is_chunk(plan[k], dims, c, k));
        lemma_chunk_rows(h, c, k);
    }
    assert forall|k: int| 0 <= k < n - 1 implies #[trigger] plan[k + 1].top == plan[k].top
        + plan[k].height by {
        assert(is_chunk(plan[k], dims, c, k));
        assert(is_chunk(plan[k + 1], dims, c, k + 1));
        lemma_chunk_rows(h, c, k);
    }
    lemma_total_rows_prefix(plan, n);
    assert(plan.take(n) =~= plan);
}

/// The first `i` regions of a contiguous plan starting at the top row
/// add up to the row where region `i - 1` ends.
proof fn lemma_total_rows_prefix(plan: Seq<Region>, i: int)
    requires
        0 < i <= plan.len(),
        plan[0].top == 0,
        forall|k: int|
            0 <= k < plan.len() - 1 ==> #[trigger] plan[k + 1].top == plan[k].top + plan[k].height,
    ensures
        total_rows(plan.take(i)) == plan[i - 1].top + plan[i - 1].height,
    decreases i,
{
    if i > 1 {
        lemma_total_rows_prefix(plan, i - 1);
        assert(plan.take(i).drop_last() =~= plan.take(i - 1));
        let k = i - 2;
        assert(plan[k + 1].top == plan[k].top + plan[k].height);
        assert(plan.take(i).last() == plan[i - 1]);
    } else {
        assert(plan.take(1).drop_last() =~= Seq::<Region>::empty());
        assert(total_rows(Seq::<Region>::empty()) == 0);
        assert(plan.take(1).last() == plan[0]);
    }
}

/// Split an image of dimensions `image` (the outcome of decoding it)
/// into vertical chunks of at most `chunk_height` rows, top to bottom.
///
/// The final chunk may be shorter if `chunk_height` does not divide the
/// image height evenly. The chunk height is checked before the outcome
/// of the decoding.
pub fn split_by_height(image: Result<Dimensions, Error>, chunk_height: u32) -> (res: Result<
    Vec<Region>,
    Error,
>)
    ensures
        chunk_height == 0 ==> (res matches Err(Error::Image(m)) && m@ == "chunk height must be > 0"@),
        chunk_height > 0 ==> match image {
            Err(e) => res == Err::<Vec<Region>, Error>(e),
            Ok(d) => if d.width == 0 || d.height == 0 {
                res matches Err(Error::Image(m)) && m@ == "image width and height must be > 0"@
            } else {
                res matches Ok(plan) && is_chunk_plan(plan@, d, chunk_height as int)
            },
        },
{
    if chunk_height == 0 {
        return Err(Error::Image(String::from_str("chunk height must be > 0")));
    }
    let dims = match image {
        Ok(d) => d,
        Err(e) => {
            return Err(e);
        },
    };
    if dims.width == 0 || dims.height == 0 {
        return Err(Error::Image(String::from_str("image width and height must be > 0")));
    }
    let height = dims.height;
    let ghost c = chunk_height as int;
    let ghost count = chunk_count(height as int, c);
    let mut plan: Vec<Region> = Vec::new();
    let mut y: u32 = 0;
    proof {
        lemma_chunk_count(height as int, c, 0);
    }
    while y < height
        invariant
            c == chunk_height as int,
            c > 0,
            height == dims.height,
            count == chunk_count(height as int, c),
            plan.len() <= count,
            y <= height,
            plan.len() < count ==> y == plan.len() * c,
            plan.len() == count ==> y == height,
            forall|k: int| 0 <= k < plan.len() ==> is_chunk(#[trigger] plan@[k], dims, c, k),
        decreases height - y,
    {
        let ghost k = plan.len() as int;
        proof {
            lemma_chunk_count(height as int, c, k);
        }
        // Final chunk may be shorter than `chunk_height`
        let h = if height - y < chunk_height {
            height - y
        } else {
            chunk_height
        };
        plan.push(Region { left: 0, top: y, width: dims.width, height: h });
        y = y + h;
        proof {
            assert((k + 1) * c == k * c + c) by (nonlinear_arith);
            lemma_chunk_count(height as int, c, k + 1);
        }
    }
    proof {
        lemma_chunk_count(height as int, c, plan.len() as int);
    }
    Ok(plan)
}

} // verus!

verus! {

/// How to resize a screenshot to a requested width.
#[derive(Debug, Clone, Copy, PartialEq, Eq, Structural)]
pub enum ResizePlan {
    /// The image already has the requested width: keep its bytes as they
    /// are.
    Keep,
    /// Make a thumbnail whose longest side is `long_side` pixels.
    Thumbnail { long_side: u32 },
}

/// The resizing of an image of dimensions `d` to `width`: keep it when it
/// already has that width; otherwise a thumbnail whose longest side is
/// `portrait_long_side` for a portrait image and `width` for the others.
pub open spec fn planned_resize(d: Dimensions, width: u32, portrait_long_side: u32) -> ResizePlan {
    if d.width == width {
        ResizePlan::Keep
    } else if d.height > d.width {
        ResizePlan::Thumbnail { long_side: portrait_long_side }
    } else {
        ResizePlan::Thumbnail { long_side: width }
    }
}

/// Plan the resizing of an image of dimensions `image` (the outcome of
/// decoding it) to `width`, preserving the aspect ratio.
///
/// The image library fits the thumbnail's longest side to the target, so
/// a landscape or square image targets `width` itself, and a portrait
/// image targets `portrait_long_side`, the height that its width
/// becoming `width` scales it to. A decoding error is passed on.
pub fn resize_plan(image: Result<Dimensions, Error>, width: u32, portrait_long_side: u32) -> (res:
    Result<ResizePlan, Error>)
    ensures
        match image {
            Err(e) => res == Err::<ResizePlan, Error>(e),
            Ok(d) => res == Ok::<ResizePlan, Error>(planned_resize(d, width, portrait_long_side)),
        },
{
    let d = match image {
        Ok(d) => d,
        Err(e) => {
            return Err(e);
        },
    };
    if d.width == width {
        return Ok(ResizePlan::Keep);
    }
    // The image library targets the longest side, so a portrait image
    // targets the height that makes its *shortest* side match `width`
    if d.height > d.width {
        Ok(ResizePlan::Thumbnail { long_side: portrait_long_side })
    } else {
        Ok(ResizePlan::Thumbnail { long_side: width })
    }
}

} // verus!

verus! {

/// Width of a thumbnail of an image of dimensions `d` whose longest side is
/// made `long_side` pixels, the other side scaled in proportion and
/// rounded down.
pub open spec fn thumbnail_width(d: Dimensions, long_side: int) -> int {
    if d.width >= d.height {
        long_side
    } else {
        long_side * (d.width as int) / (d.height as int)
    }
}

/// Width of an image of dimensions `d` once resized as `plan` says.
pub open spec fn resized_width(d: Dimensions, plan: ResizePlan) -> int {
    match plan {
        ResizePlan::Keep => d.width as int,
        ResizePlan::Thumbnail { long_side } => thumbnail_width(d, long_side as int),
    }
}

/// Resizing makes the screenshot as wide as asked, keeping its aspect
/// ratio: it is kept exactly when it already has the width asked for;
/// otherwise the thumbnail of a landscape or square image is exactly that
/// wide, and that of a portrait image, whose long side is its height
/// scaled to the width asked for and rounded down, is that wide or at
/// most one pixel narrower.
pub proof fn lemma_resize_reaches_width(d: Dimensions, width: u32, portrait_long_side: u32)
    requires
        d.width > 0,
        d.height > 0,
        d.height > d.width ==> portrait_long_side * d.width <= d.height * width
            < (portrait_long_side + 1) * d.width,
    ensures
        (planned_resize(d, width, portrait_long_side) == ResizePlan::Keep) <==> d.width == width,
        width - 1 <= resized_width(d, planned_resize(d, width, portrait_long_side)) <= width,
        d.height <= d.width ==> resized_width(d, planned_resize(d, width, portrait_long_side))
            == width,
        d.height > d.width && d.width != width ==> planned_resize(d, width, portrait_long_side)
            == (ResizePlan::Thumbnail { long_side: portrait_long_side }),
{
    let plan = planned_resize(d, width, portrait_long_side);
    if d.width != width && d.height > d.width {
        let l = portrait_long_side as int;
        let w = d.width as int;
        let h = d.height as int;
        let t = width as int;
        assert(plan == ResizePlan::Thumbnail { long_side: portrait_long_side });
        assert(resized_width(d, plan) == l * w / h);
        vstd::arithmetic::div_mod::lemma_div_is_ordered(l * w, h * t, h);
        vstd::arithmetic::div_mod::lemma_div_multiples_vanish(t, h);
        assert((l + 1) * w == l * w + w) by (nonlinear_arith);
        assert(l * w + w > h * t);
        assert(h * (t - 1) == h * t - h) by (nonlinear_arith);
        assert(h * (t - 1) <= l * w);
        vstd::arithmetic::div_mod::lemma_div_is_ordered(h * (t - 1), l * w, h);
        vstd::arithmetic::div_mod::lemma_div_multiples_vanish(t - 1, h);
    }
}

} // verus!
