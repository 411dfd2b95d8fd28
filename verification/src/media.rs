//! Platform-neutral frame descriptions, and the integer parts of the monitor
//! reference: frame geometry checks and the focus-peaking edge mask.
use vstd::prelude::*;

verus! {

#[derive(Debug, Clone, Copy, PartialEq, Eq, Structural)]
pub enum PixelFormat {
    Rgba16Float,
    Rgba32Float,
    Nv12,
    P010,
    Bgra8,
}

#[derive(Debug, Clone, Copy, PartialEq, Eq, Structural)]
pub enum WorkingColorSpace {
    Aces2065,
    AcesCg,
    LinearRec2020,
    LinearP3,
    Custom,
}

#[derive(Debug, Clone, Copy, PartialEq, Eq, Structural)]
pub enum TransferFunction {
    Linear,
    Srgb,
    Rec709,
    Pq,
    Hlg,
    Log,
}

#[derive(Debug, Clone, Copy, PartialEq, Eq, Structural)]
pub struct FrameDescriptor {
    pub width: u32,
    pub height: u32,
    pub pixel_format: PixelFormat,
    pub color_space: WorkingColorSpace,
    pub transfer_function: TransferFunction,
}

#[derive(Debug)]
pub enum FrameStorage {
    Cpu(Vec<u8>),
    /// Opaque, process-local native texture/surface handle; never serialize over IPC.
    NativeHandle { handle: u64 },
}

#[derive(Debug)]
pub struct VideoFrame {
    pub timestamp_ns: u64,
    pub duration_ns: u64,
    pub descriptor: FrameDescriptor,
    pub storage: FrameStorage,
}

#[derive(Debug, Clone, PartialEq, Eq)]
pub struct MonitorScopes {
    pub rgb_histogram: [[u32; 256]; 3],
    /// Luma distribution for each of 256 normalized horizontal positions.
    pub waveform: Vec<[u32; 256]>,
    /// Rec.709 Cb/Cr density map, row-major 256×256.
    pub vectorscope: Vec<u32>,
}

/// Why a BGRA8 frame cannot be read, or the number of bytes it spans.
pub open spec fn bgra8_frame_outcome(len: int, width: u32, height: u32, bytes_per_row: usize) -> Result<
    int,
    &'static str,
> {
    if width == 0 || height == 0 || bytes_per_row < width * 4 {
        Err("invalid BGRA8 frame geometry")
    } else if bytes_per_row * height > usize::MAX {
        Err("BGRA8 frame size overflow")
    } else if len < bytes_per_row * height {
        Err("BGRA8 frame storage is truncated")
    } else {
        Ok(bytes_per_row * height)
    }
}

/// Checks that `pixels` holds a `width`×`height` BGRA8 frame whose rows are
/// `bytes_per_row` apart; gives the bytes the frame spans.
pub fn check_bgra8_frame(pixels: &[u8], width: u32, height: u32, bytes_per_row: usize) -> (r: Result<
    usize,
    &'static str,
>)
    ensures
        match bgra8_frame_outcome(pixels@.len() as int, width, height, bytes_per_row) {
            Ok(n) => r matches Ok(m) && m == n,
            Err(e) => r matches Err(x) && x == e,
        },
{
    if width == 0 || height == 0 || (bytes_per_row as u128) < (width as u128) * 4 {
        return Err("invalid BGRA8 frame geometry");
    }
    let required = match bytes_per_row.checked_mul(height as usize) {
        Some(n) => n,
        None => return Err("BGRA8 frame size overflow"),
    };
    if pixels.len() < required {
        return Err("BGRA8 frame storage is truncated");
    }
    Ok(required)
}

/// The horizontal position (of 256) that column `x` of `width` falls in.
pub fn waveform_column(x: u32, width: u32) -> (r: usize)
    requires
        x < width,
    ensures
        r == x * 256 / width as int,
        r < 256,
{
    let c = (x as u64) * 256 / (width as u64);
    assert(c < 256) by (nonlinear_arith)
        requires
            c == (x * 256) / (width as int),
            x < width,
    ;
    c as usize
}

/// The absolute difference of two bytes.
pub open spec fn byte_diff(a: u8, b: u8) -> int {
    if a >= b {
        a - b
    } else {
        b - a
    }
}

/// The edge mask a luma plane gives: an interior pixel is marked when the
/// sum of its horizontal and vertical central differences, saturated at 255,
/// exceeds the threshold; borders, frames under three pixels a side and a
/// threshold of 255 mark nothing.
pub open spec fn edge_at(luma: Seq<u8>, width: int, height: int, threshold: u8, k: int) -> u8 {
    let x = k % width;
    let y = k / width;
    if width < 3 || height < 3 || threshold == 255 || x == 0 || x == width - 1 || y == 0 || y == height - 1 {
        0
    } else {
        let gx = byte_diff(luma[y * width + x + 1], luma[y * width + x - 1]);
        let gy = byte_diff(luma[(y + 1) * width + x], luma[(y - 1) * width + x]);
        let sum = if gx + gy > 255 {
            255
        } else {
            gx + gy
        };
        if sum > threshold {
            255
        } else {
            0
        }
    }
}

proof fn lemma_row_col(y: int, x: int, w: int)
    requires
        0 <= x < w,
        0 <= y,
    ensures
        (y * w + x) % w == x,
        (y * w + x) / w == y,
{
    vstd::arithmetic::div_mod::lemma_fundamental_div_mod_converse(y * w + x, w, y, x);
}

/// The mask at pixel (`x`, `y`) of a `width`×`height` plane: border pixels
/// and a threshold of 255 are never marked; an interior pixel is marked when
/// its left/right neighbours or its upper/lower neighbours differ by more
/// than the threshold, and left unmarked when the two differences together
/// stay within it.
pub proof fn law_edge_mask_marks_by_neighbour_differences(
    luma: Seq<u8>,
    width: int,
    height: int,
    threshold: u8,
    x: int,
    y: int,
)
    requires
        luma.len() == width * height,
        0 <= x < width,
        0 <= y < height,
    ensures
        ({
            let k = y * width + x;
            &&& x == 0 || x == width - 1 || y == 0 || y == height - 1 || threshold == 255 ==> edge_at(
                luma,
                width,
                height,
                threshold,
                k,
            ) == 0
            &&& 0 < x < width - 1 && 0 < y < height - 1 && threshold < 255 ==> {
                let across = byte_diff(luma[k + 1], luma[k - 1]);
                let down = byte_diff(luma[k + width], luma[k - width]);
                &&& across > threshold || down > threshold ==> edge_at(luma, width, height, threshold, k) == 255
                &&& across + down <= threshold ==> edge_at(luma, width, height, threshold, k) == 0
            }
        }),
{
    lemma_row_col(y, x, width);
    assert((y + 1) * width + x == y * width + x + width) by (nonlinear_arith);
    assert((y - 1) * width + x == y * width + x - width) by (nonlinear_arith);
}

/// The plane turned about its diagonal: `height` wide and `width` high, its
/// pixel (`y`, `x`) being the original's pixel (`x`, `y`).
pub open spec fn transposed(luma: Seq<u8>, width: int, height: int) -> Seq<u8> {
    Seq::new((width * height) as nat, |k: int| luma[(k % height) * width + k / height])
}

proof fn lemma_pixel_in_plane(x: int, y: int, w: int, h: int)
    requires
        0 <= x < w,
        0 <= y < h,
    ensures
        0 <= y * w + x < w * h,
        0 <= x * h + y < w * h,
{
    assert(0 <= y * w + x < w * h) by (nonlinear_arith)
        requires
            0 <= x < w,
            0 <= y < h,
    ;
    assert(0 <= x * h + y < w * h) by (nonlinear_arith)
        requires
            0 <= x < w,
            0 <= y < h,
    ;
}

proof fn lemma_transposed_at(luma: Seq<u8>, w: int, h: int, x: int, y: int)
    requires
        0 <= x < w,
        0 <= y < h,
    ensures
        transposed(luma, w, h)[x * h + y] == luma[y * w + x],
{
    lemma_pixel_in_plane(x, y, w, h);
    lemma_row_col(x, y, h);
}

/// Edges do not depend on which way the plane lies: the mask of the
/// transposed plane is the transposed mask, so vertical and horizontal
/// luma changes are marked alike.
pub proof fn law_edge_mask_commutes_with_transposition(
    luma: Seq<u8>,
    width: int,
    height: int,
    threshold: u8,
    x: int,
    y: int,
)
    requires
        luma.len() == width * height,
        0 <= x < width,
        0 <= y < height,
    ensures
        edge_at(transposed(luma, width, height), height, width, threshold, x * height + y) == edge_at(
            luma,
            width,
            height,
            threshold,
            y * width + x,
        ),
{
    let t = transposed(luma, width, height);
    lemma_row_col(y, x, width);
    lemma_row_col(x, y, height);
    if 0 < x < width - 1 && 0 < y < height - 1 {
        lemma_transposed_at(luma, width, height, x + 1, y);
        lemma_transposed_at(luma, width, height, x - 1, y);
        lemma_transposed_at(luma, width, height, x, y + 1);
        lemma_transposed_at(luma, width, height, x, y - 1);
        assert((x + 1) * height + y == x * height + y + height) by (nonlinear_arith);
        assert((x - 1) * height + y == x * height + y - height) by (nonlinear_arith);
        assert((y + 1) * width + x == y * width + x + width) by (nonlinear_arith);
        assert((y - 1) * width + x == y * width + x - width) by (nonlinear_arith);
    }
}

/// One-byte edge mask of a `width`×`height` luma plane: a threshold of 0
/// marks every non-flat edge; 255 disables peaking.
pub fn edge_mask(luma: &[u8], width: u32, height: u32, threshold: u8) -> (r: Vec<u8>)
    requires
        luma@.len() == width * height,
    ensures
        r@.len() == luma@.len(),
        forall|k: int| 0 <= k < r@.len() ==> r@[k] == edge_at(luma@, width as int, height as int, threshold, k),
{
    let n = luma.len();
    let mut mask: Vec<u8> = Vec::new();
    let mut k: usize = 0;
    while k < n
        invariant
            k <= n,
            n == luma@.len(),
            mask@.len() == k,
            forall|j: int| 0 <= j < k ==> mask@[j] == 0u8,
        decreases n - k,
    {
        mask.push(0);
        k = k + 1;
    }
    if width < 3 || height < 3 || threshold == 255 {
        assert forall|j: int| 0 <= j < mask@.len() implies mask@[j] == edge_at(
            luma@,
            width as int,
            height as int,
            threshold,
            j,
        ) by {}
        return mask;
    }
    let w = width as usize;
    let h = height as usize;
    assert(luma@.len() == w * h);
    assert forall|j: int| 0 <= j < mask@.len() implies #[trigger] mask@[j] == (if j < 1 * w {
        edge_at(luma@, width as int, height as int, threshold, j)
    } else {
        0u8
    }) by {
        if j < w {
            vstd::arithmetic::div_mod::lemma_div_of0(w as int);
            vstd::arithmetic::div_mod::lemma_basic_div(j, w as int);
        }
    }
    let mut y: usize = 1;
    while y < h - 1
        invariant
            3 <= w,
            3 <= h,
            1 <= y <= h - 1,
            threshold != 255,
            luma@.len() == w * h,
            mask@.len() == w * h,
            n == w * h,
            w == width,
            h == height,
            forall|j: int|
                0 <= j < mask@.len() ==> #[trigger] mask@[j] == (if j < y * w {
                    edge_at(luma@, width as int, height as int, threshold, j)
                } else {
                    0u8
                }),
        decreases h - 1 - y,
    {
        assert((y + 1) * w <= h * w) by (nonlinear_arith)
            requires
                y + 1 <= h,
        ;
        assert(y * w + w == (y + 1) * w) by (nonlinear_arith);
        let mut x: usize = 0;
        while x < w
            invariant
                3 <= w,
                3 <= h,
                1 <= y < h - 1,
                x <= w,
                threshold != 255,
                luma@.len() == w * h,
                mask@.len() == w * h,
                n == w * h,
                w == width,
                h == height,
                (y + 1) * w <= h * w,
                y * w + w == (y + 1) * w,
                forall|j: int|
                    0 <= j < mask@.len() ==> #[trigger] mask@[j] == (if j < y * w + x {
                        edge_at(luma@, width as int, height as int, threshold, j)
                    } else {
                        0u8
                    }),
            decreases w - x,
        {
            assert(y * w + x < h * w) by (nonlinear_arith)
                requires
                    y + 1 < h,
                    x < w,
            ;
            let k = y * w + x;
            proof {
                lemma_row_col(y as int, x as int, w as int);
            }
            if x == 0 || x == w - 1 {
                assert(edge_at(luma@, width as int, height as int, threshold, k as int) == 0);
            } else {
                assert((y + 1) * w + x < h * w) by (nonlinear_arith)
                    requires
                        y + 1 < h,
                        x < w,
                ;
                assert((y - 1) * w + x == y * w + x - w) by (nonlinear_arith);
                assert((y + 1) * w + x == y * w + x + w) by (nonlinear_arith);
                let right = luma[k + 1];
                let left = luma[k - 1];
                let below = luma[k + w];
                let above = luma[k - w];
                let gx: u8 = if right >= left {
                    right - left
                } else {
                    left - right
                };
                let gy: u8 = if below >= above {
                    below - above
                } else {
                    above - below
                };
                let sum = gx.saturating_add(gy);
                let v: u8 = if sum > threshold {
                    255
                } else {
                    0
                };
                mask.set(k, v);
            }
            x = x + 1;
        }
        y = y + 1;
    }
    assert forall|j: int| 0 <= j < mask@.len() implies mask@[j] == edge_at(
        luma@,
        width as int,
        height as int,
        threshold,
        j,
    ) by {
        if j >= y * w {
            let row = j / (w as int);
            let col = j % (w as int);
            vstd::arithmetic::div_mod::lemma_fundamental_div_mod(j, w as int);
            assert(row >= h - 1) by (nonlinear_arith)
                requires
                    j >= (h - 1) * w,
                    j == w * row + col,
                    0 <= col < w,
                    w > 0,
            ;
            assert(row < h) by (nonlinear_arith)
                requires
                    j < h * w,
                    j == w * row + col,
                    0 <= col < w,
                    w > 0,
            ;
        }
    }
    mask
}

} // verus!
