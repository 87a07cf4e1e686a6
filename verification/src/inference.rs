//! The integer bookkeeping around local model inference: how a detector's
//! output tensor splits into candidate rows, the names of cached inference
//! images, and the ids of detected faces. The floating-point work itself
//! (scores, boxes, thresholds) is not done here.
use vstd::prelude::*;

use crate::text::{decimal, padded_hex, push_decimal, push_padded_hex};

verus! {

/// How the values of a detector output tensor form candidate rows.
pub enum OutputLayout {
    /// No rows.
    Empty,
    /// Consecutive rows of `width` values; the last one may be shorter.
    Chunks { width: usize },
    /// `attributes` rows of `candidates` values each, read column-wise: the
    /// row of candidate `c` is the values at `a * candidates + c`.
    Columns { attributes: usize, candidates: usize },
}

/// The layout of an output tensor with the given shape and number of values:
/// rows as wide as the last dimension when that is at least 15; else rows of
/// 15 when the values split evenly into them; else, for three or more
/// dimensions, one row per candidate (last dimension) across the attributes
/// (the one before) when there are at least 15 attributes and enough values.
/// Dimensions are read as `usize` the way `as` reads an `i64`; a last
/// dimension that reads as width 0 (only where `usize` is narrower than the
/// dimension) gives no rows.
pub open spec fn output_layout(shape: Seq<i64>, values_len: nat) -> OutputLayout {
    if values_len == 0 || shape.len() == 0 {
        OutputLayout::Empty
    } else if shape.last() >= 15 {
        if (shape.last() as usize) > 0 {
            OutputLayout::Chunks { width: shape.last() as usize }
        } else {
            OutputLayout::Empty
        }
    } else if values_len >= 15 && values_len % 15 == 0 {
        OutputLayout::Chunks { width: 15 }
    } else if shape.len() >= 3 && (shape[shape.len() - 2] as usize) >= 15 && values_len >= (
    shape[shape.len() - 2] as usize) * (shape.last() as usize) {
        OutputLayout::Columns {
            attributes: shape[shape.len() - 2] as usize,
            candidates: shape.last() as usize,
        }
    } else {
        OutputLayout::Empty
    }
}

/// `rows` lists, for each candidate row of the layout, the positions of its
/// values among `values_len` values.
pub open spec fn is_row_plan(rows: Seq<Seq<usize>>, layout: OutputLayout, values_len: nat) -> bool {
    match layout {
        OutputLayout::Empty => rows.len() == 0,
        OutputLayout::Chunks { width } => {
            &&& width > 0
            &&& rows.len() * width >= values_len
            &&& (rows.len() - 1) * width < values_len
            &&& forall|r: int|
                0 <= r < rows.len() ==> {
                    &&& (#[trigger] rows[r]).len() == if (r + 1) * width <= values_len {
                        width as int
                    } else {
                        values_len - r * width
                    }
                    &&& forall|j: int| 0 <= j < rows[r].len() ==> rows[r][j] == r * width + j
                }
        },
        OutputLayout::Columns { attributes, candidates } => {
            &&& rows.len() == candidates
            &&& forall|r: int|
                0 <= r < rows.len() ==> {
                    &&& (#[trigger] rows[r]).len() == attributes
                    &&& forall|j: int| 0 <= j < attributes ==> rows[r][j] == j * candidates + r
                }
        },
    }
}

/// The positions of each row.
pub open spec fn row_views(rows: Seq<Vec<usize>>) -> Seq<Seq<usize>> {
    rows.map_values(|row: Vec<usize>| row@)
}

/// The layout of a detector output tensor (see `output_layout`).
pub fn face_output_layout(shape: &Vec<i64>, values_len: usize) -> (r: OutputLayout)
    ensures
        r == output_layout(shape@, values_len as nat),
{
    if values_len == 0 || shape.len() == 0 {
        return OutputLayout::Empty;
    }
    let last = shape[shape.len() - 1];
    if last >= 15 {
        let width = last as usize;
        if width > 0 {
            return OutputLayout::Chunks { width };
        } else {
            return OutputLayout::Empty;
        }
    }
    if values_len >= 15 && values_len % 15 == 0 {
        return OutputLayout::Chunks { width: 15 };
    }
    if shape.len() >= 3 {
        let attributes = shape[shape.len() - 2] as usize;
        let candidates = last as usize;
        if attributes >= 15 {
            let enough = match attributes.checked_mul(candidates) {
                Some(needed) => values_len >= needed,
                None => false,
            };
            if enough {
                return OutputLayout::Columns { attributes, candidates };
            }
        }
    }
    OutputLayout::Empty
}

/// What a layout promises: rows of some width, or enough values for every column.
pub proof fn lemma_layout_facts(shape: Seq<i64>, values_len: nat)
    ensures
        match output_layout(shape, values_len) {
            OutputLayout::Chunks { width } => width > 0,
            OutputLayout::Columns { attributes, candidates } => attributes >= 15 && attributes * candidates <= values_len,
            OutputLayout::Empty => true,
        },
{
}

/// The positions `start`, `start + step`, ... (`count` of them).
fn positions(start: usize, step: usize, count: usize) -> (r: Vec<usize>)
    requires
        start + step * count <= usize::MAX + step,
        count == 0 || start + step * (count - 1) <= usize::MAX,
    ensures
        r@.len() == count,
        forall|j: int| 0 <= j < count ==> r@[j] == start + j * step,
{
    let mut r: Vec<usize> = Vec::new();
    let mut j: usize = 0;
    while j < count
        invariant
            j <= count,
            count == 0 || start + step * (count - 1) <= usize::MAX,
            r@.len() == j,
            forall|k: int| 0 <= k < j ==> r@[k] == start + k * step,
        decreases count - j,
    {
        assert(start + j * step <= start + step * (count - 1)) by (nonlinear_arith)
            requires
                j < count,
        ;
        r.push(start + j * step);
        j = j + 1;
    }
    r
}

/// For each candidate row of a detector output, the positions of its values.
pub fn face_output_rows(shape: &Vec<i64>, values_len: usize) -> (rows: Vec<Vec<usize>>)
    ensures
        is_row_plan(
            row_views(rows@),
            output_layout(shape@, values_len as nat),
            values_len as nat,
        ),
{
    let layout = face_output_layout(shape, values_len);
    proof {
        lemma_layout_facts(shape@, values_len as nat);
    }
    let mut rows: Vec<Vec<usize>> = Vec::new();
    match layout {
        OutputLayout::Empty => {},
        OutputLayout::Chunks { width } => {
            let q = values_len / width;
            let m = values_len % width;
            proof {
                assert(m != 0 ==> q < values_len) by (nonlinear_arith)
                    requires
                        width > 0,
                        q == values_len / width,
                        m == values_len % width,
                ;
            }
            let count = if m == 0 {
                q
            } else {
                q + 1
            };
            proof {
                assert(values_len == q * width + m && 0 <= m < width) by (nonlinear_arith)
                    requires
                        width > 0,
                        q == values_len / width,
                        m == values_len % width,
                ;
                assert(count * width >= values_len && (count - 1) * width < values_len) by (nonlinear_arith)
                    requires
                        values_len > 0,
                        values_len == q * width + m,
                        0 <= m < width,
                        m == 0 ==> count == q,
                        m != 0 ==> count == q + 1,
                ;
            }
            let mut r: usize = 0;
            while r < count
                invariant
                    width > 0,
                    r <= count,
                    count * width >= values_len,
                    (count - 1) * width < values_len,
                    rows@.len() == r,
                    forall|k: int|
                        0 <= k < r ==> {
                            &&& (#[trigger] rows@[k])@.len() == if (k + 1) * width <= values_len {
                                width as int
                            } else {
                                values_len - k * width
                            }
                            &&& forall|j: int| 0 <= j < rows@[k]@.len() ==> rows@[k]@[j] == k * width + j
                        },
                decreases count - r,
            {
                proof {
                    assert(r * width < values_len && (r + 1) * width == r * width + width) by (nonlinear_arith)
                        requires
                            r < count,
                            (count - 1) * width < values_len,
                    ;
                }
                let start = r * width;
                let len = if width <= values_len - start {
                    width
                } else {
                    values_len - start
                };
                let row = positions(start, 1, len);
                rows.push(row);
                r = r + 1;
            }
        },
        OutputLayout::Columns { attributes, candidates } => {
            proof {
                lemma_layout_facts(shape@, values_len as nat);
            }
            let mut c: usize = 0;
            while c < candidates
                invariant
                    c <= candidates,
                    attributes >= 15,
                    values_len <= usize::MAX,
                    attributes * candidates <= values_len,
                    rows@.len() == c,
                    forall|k: int|
                        0 <= k < c ==> {
                            &&& (#[trigger] rows@[k])@.len() == attributes
                            &&& forall|j: int| 0 <= j < attributes ==> rows@[k]@[j] == j * candidates + k
                        },
                decreases candidates - c,
            {
                proof {
                    assert(c + candidates * (attributes - 1) <= usize::MAX) by (nonlinear_arith)
                        requires
                            c < candidates,
                            attributes >= 1,
                            attributes * candidates <= values_len,
                            values_len <= usize::MAX,
                    ;
                }
                let row = positions(c, candidates, attributes);
                rows.push(row);
                c = c + 1;
            }
        },
    }
    proof {
        assert(row_views(rows@).len() == rows@.len());
        assert forall|k: int| 0 <= k < rows@.len() implies #[trigger] row_views(rows@)[k] == rows@[k]@ by {}
    }
    rows
}

/// The file name of a cached inference image: the 64-bit cache key as 16
/// lowercase hex digits, then `.png`.
pub fn inference_file_name(key: u64) -> (r: String)
    ensures
        r@ == padded_hex(key as nat, 16) + ".png"@,
{
    let mut r = String::new();
    push_padded_hex(&mut r, key, 16);
    r.append(".png");
    r
}

/// The folder of cached inference images of one size: `<size>px`.
pub fn inference_size_dir(size: u32) -> (r: String)
    ensures
        r@ == decimal(size as nat) + "px"@,
{
    let mut r = String::new();
    push_decimal(&mut r, size as u64);
    r.append("px");
    r
}

/// The id of the detection at `index` (from 0) among an item's selected
/// detections: `<media_id>-face-<index + 1>`.
pub fn face_candidate_id(media_id: &str, index: usize) -> (r: String)
    requires
        index < usize::MAX,
    ensures
        r@ == media_id@ + "-face-"@ + decimal((index + 1) as nat),
{
    let mut r = media_id.to_owned();
    r.append("-face-");
    push_decimal(&mut r, (index + 1) as u64);
    r
}

/// Where a thumbnail of the given width (or height) starts on a square canvas
/// of the given size so that it is centred: half the space left, rounded down,
/// or 0 when the thumbnail fills the canvas.
pub fn thumbnail_offset(canvas: u32, extent: u32) -> (r: u32)
    ensures
        r == (if extent < canvas {
            canvas - extent
        } else {
            0
        }) / 2,
{
    canvas.saturating_sub(extent) / 2
}

/// The tags that describe a photo before classification: `photo`, then
/// `landscape` when it is at least as wide as it is tall and `portrait`
/// otherwise, then `bright` or `low-light` by its measured brightness.
pub fn descriptor_tags(width: u32, height: u32, bright: bool) -> (r: Vec<String>)
    ensures
        r@.len() == 3,
        r@[0]@ == "photo"@,
        r@[1]@ == if width >= height {
            "landscape"@
        } else {
            "portrait"@
        },
        r@[2]@ == if bright {
            "bright"@
        } else {
            "low-light"@
        },
{
    let mut r: Vec<String> = Vec::new();
    r.push(String::from_str("photo"));
    if width >= height {
        r.push(String::from_str("landscape"));
    } else {
        r.push(String::from_str("portrait"));
    }
    if bright {
        r.push(String::from_str("bright"));
    } else {
        r.push(String::from_str("low-light"));
    }
    r
}

} // verus!
