//! Sampling a cover image into a colour histogram: which pixels are read, which bin each
//! colour falls in, what every bin adds up, and which bin dominates.
//!
//! Pixels are unpremultiplied RGBA8 rows of `stride` bytes. Each channel is quantized to
//! 16 levels, so the histogram has 4096 bins.

use vstd::prelude::*;

verus! {

/// Quantization levels per channel.
pub const QUANTIZATION_LEVELS: usize = 16;

/// Bins in the histogram: one per quantized colour.
pub const BIN_COUNT: usize = 4096;

/// The pixel count up to which every pixel is sampled.
pub const TARGET_SAMPLES: usize = 4096;

/// Pixels less opaque than this are not sampled.
pub const MIN_SAMPLED_ALPHA: u8 = 96;

/// The samples that fell in one bin: how many, and the sum of each channel.
#[derive(Clone, Copy, Debug, Default, PartialEq, Eq, Structural)]
pub struct ColorBin {
    pub count: u32,
    pub red: u64,
    pub green: u64,
    pub blue: u64,
}

/// A sampled colour: red, green and blue.
pub type Rgb = (u8, u8, u8);

/// Whether a buffer of `len` bytes holds `height` rows of `stride` bytes, each with room for
/// `width` RGBA pixels (products saturating as they do in `usize`).
pub open spec fn buffer_fits(len: int, width: usize, height: usize, stride: usize) -> bool {
    let row_bytes: int = if width * 4 > usize::MAX { usize::MAX as int } else { width * 4 };
    let all_bytes: int = if stride * height > usize::MAX { usize::MAX as int } else { stride * height };
    &&& width > 0
    &&& height > 0
    &&& stride >= row_bytes
    &&& len >= all_bytes
}

/// Whether `pixels` holds an image of `width` by `height` pixels in rows of `stride` bytes.
pub fn valid_buffer(pixels: &[u8], width: usize, height: usize, stride: usize) -> (valid: bool)
    ensures
        valid == buffer_fits(pixels@.len() as int, width, height, stride),
{
    width > 0 && height > 0 && stride >= saturating_mul_usize(width, 4) && pixels.len()
        >= saturating_mul_usize(stride, height)
}

/// `a * b`, or `usize::MAX` when the product does not fit.
fn saturating_mul_usize(a: usize, b: usize) -> (product: usize)
    ensures
        product == if a * b > usize::MAX { usize::MAX as int } else { a * b },
{
    match a.checked_mul(b) {
        Some(product) => product,
        None => usize::MAX,
    }
}

/// The bin of a colour: its channels' top four bits, red first.
pub open spec fn bin_of(color: Rgb) -> int {
    (color.0 / 16) * 256 + (color.1 / 16) * 16 + color.2 / 16
}

/// The bin of the colour `red`, `green`, `blue`.
pub fn bin_index(red: u8, green: u8, blue: u8) -> (index: usize)
    ensures
        index == bin_of((red, green, blue)),
        index < BIN_COUNT,
{
    (red / 16) as usize * 256 + (green / 16) as usize * 16 + (blue / 16) as usize
}

/// The colour of the pixel at `offset`, when it is opaque enough to be sampled.
pub open spec fn sample_at(pixels: Seq<u8>, offset: int) -> Option<Rgb> {
    if pixels[offset + 3] >= MIN_SAMPLED_ALPHA {
        Some((pixels[offset], pixels[offset + 1], pixels[offset + 2]))
    } else {
        None
    }
}

/// The samples of row `y` from column `x` on, every `step` columns.
pub open spec fn row_samples(pixels: Seq<u8>, width: usize, stride: usize, step: usize, y: int, x: int) -> Seq<Rgb>
    decreases width + step - x,
{
    if step == 0 {
        Seq::empty()
    } else if x >= width {
        Seq::empty()
    } else {
        let rest = row_samples(pixels, width, stride, step, y, x + step);
        match sample_at(pixels, y * stride + x * 4) {
            Some(color) => seq![color] + rest,
            None => rest,
        }
    }
}

/// The samples of the rows from `y` on, every `step` rows, in reading order.
pub open spec fn grid_samples(
    pixels: Seq<u8>,
    width: usize,
    height: usize,
    stride: usize,
    step: usize,
    y: int,
) -> Seq<Rgb>
    decreases height + step - y,
{
    if step == 0 {
        Seq::empty()
    } else if y >= height {
        Seq::empty()
    } else {
        row_samples(pixels, width, stride, step, y, 0) + grid_samples(
            pixels,
            width,
            height,
            stride,
            step,
            y + step,
        )
    }
}

/// What the samples that fall in `bin` add up to: their number and each channel's sum.
pub open spec fn bin_totals(samples: Seq<Rgb>, bin: int) -> (int, int, int, int)
    decreases samples.len(),
{
    if samples.len() == 0 {
        (0, 0, 0, 0)
    } else {
        let before = bin_totals(samples.drop_last(), bin);
        let color = samples.last();
        if bin_of(color) == bin {
            (before.0 + 1, before.1 + color.0, before.2 + color.1, before.3 + color.2)
        } else {
            before
        }
    }
}

/// Whether `bins` is the histogram of `samples`.
pub open spec fn is_histogram(bins: Seq<ColorBin>, samples: Seq<Rgb>) -> bool {
    &&& bins.len() == BIN_COUNT
    &&& forall|b: int|
        0 <= b < BIN_COUNT ==> {
            let totals = #[trigger] bin_totals(samples, b);
            &&& bins[b].count == totals.0
            &&& bins[b].red == totals.1
            &&& bins[b].green == totals.2
            &&& bins[b].blue == totals.3
        }
}

/// Totals add up over concatenated samples.
proof fn lemma_totals_append(first: Seq<Rgb>, second: Seq<Rgb>, bin: int)
    ensures
        bin_totals(first + second, bin).0 == bin_totals(first, bin).0 + bin_totals(second, bin).0,
        bin_totals(first + second, bin).1 == bin_totals(first, bin).1 + bin_totals(second, bin).1,
        bin_totals(first + second, bin).2 == bin_totals(first, bin).2 + bin_totals(second, bin).2,
        bin_totals(first + second, bin).3 == bin_totals(first, bin).3 + bin_totals(second, bin).3,
    decreases second.len(),
{
    if second.len() == 0 {
        assert(first + second =~= first);
    } else {
        lemma_totals_append(first, second.drop_last(), bin);
        assert((first + second).drop_last() =~= first + second.drop_last());
    }
}

/// Totals are never negative, and no channel sums to more than 255 per sample.
proof fn lemma_totals_bounded(samples: Seq<Rgb>, bin: int)
    ensures
        bin_totals(samples, bin).0 >= 0,
        0 <= bin_totals(samples, bin).1 <= 255 * bin_totals(samples, bin).0,
        0 <= bin_totals(samples, bin).2 <= 255 * bin_totals(samples, bin).0,
        0 <= bin_totals(samples, bin).3 <= 255 * bin_totals(samples, bin).0,
    decreases samples.len(),
{
    if samples.len() > 0 {
        lemma_totals_bounded(samples.drop_last(), bin);
    }
}

/// Every sample count of `samples` fits in a `u32`.
pub open spec fn counts_fit(samples: Seq<Rgb>) -> bool {
    forall|b: int| 0 <= b < BIN_COUNT ==> #[trigger] bin_totals(samples, b).0 <= u32::MAX
}

fn empty_bins() -> (bins: Vec<ColorBin>)
    ensures
        is_histogram(bins@, Seq::empty()),
{
    let mut bins: Vec<ColorBin> = Vec::new();
    while bins.len() < BIN_COUNT
        invariant
            bins.len() <= BIN_COUNT,
            forall|b: int| 0 <= b < bins.len() ==> #[trigger] bins@[b] == (ColorBin { count: 0, red: 0, green: 0, blue: 0 }),
        decreases BIN_COUNT - bins.len(),
    {
        bins.push(ColorBin { count: 0, red: 0, green: 0, blue: 0 });
    }
    bins
}

/// Adds one sample to its bin.
fn add_sample(bins: &mut Vec<ColorBin>, Ghost(done): Ghost<Seq<Rgb>>, Ghost(all): Ghost<Seq<Rgb>>, red: u8, green: u8, blue: u8)
    requires
        is_histogram(old(bins)@, done),
        exists|rest: Seq<Rgb>| all == done.push((red, green, blue)) + rest,
        counts_fit(all),
    ensures
        is_histogram(final(bins)@, done.push((red, green, blue))),
{
    let ghost color: Rgb = (red, green, blue);
    let ghost next = done.push(color);
    let index = bin_index(red, green, blue);
    proof {
        let rest = choose|rest: Seq<Rgb>| all == next + rest;
        lemma_totals_append(next, rest, index as int);
        lemma_totals_bounded(rest, index as int);
        lemma_totals_bounded(next, index as int);
        assert(next.drop_last() =~= done);
        lemma_totals_bounded(done, index as int);
        assert(bin_totals(next, index as int).0 == bin_totals(done, index as int).0 + 1);
        assert(bins@[index as int].count == bin_totals(done, index as int).0);
        assert(bin_totals(next, index as int).0 <= u32::MAX);
        assert(255 * bin_totals(next, index as int).0 <= 255 * u32::MAX) by (nonlinear_arith)
            requires
                bin_totals(next, index as int).0 <= u32::MAX,
        ;
    }
    let bin = bins[index];
    let updated = ColorBin {
        count: bin.count + 1,
        red: bin.red + red as u64,
        green: bin.green + green as u64,
        blue: bin.blue + blue as u64,
    };
    bins.set(index, updated);
    proof {
        assert forall|b: int| 0 <= b < BIN_COUNT implies {
            let totals = #[trigger] bin_totals(next, b);
            &&& bins@[b].count == totals.0
            &&& bins@[b].red == totals.1
            &&& bins@[b].green == totals.2
            &&& bins@[b].blue == totals.3
        } by {
            assert(next.drop_last() =~= done);
            assert(next.last() == color);
            let _ = bin_totals(done, b);
        }
    }
}

/// The histogram of the pixels of an image sampled every `step` rows and columns, reading
/// rows top to bottom and each row left to right, and skipping pixels whose alpha is under
/// 96. `step` comes from the image's area (see the sampling of the palette).
pub fn quantize(pixels: &[u8], width: usize, height: usize, stride: usize, step: usize) -> (bins: Vec<ColorBin>)
    requires
        buffer_fits(pixels@.len() as int, width, height, stride),
        pixels@.len() < usize::MAX,
        step >= 1,
        counts_fit(grid_samples(pixels@, width, height, stride, step, 0)),
    ensures
        is_histogram(bins@, grid_samples(pixels@, width, height, stride, step, 0)),
{
    let ghost all = grid_samples(pixels@, width, height, stride, step, 0);
    proof {
        assert(stride * height >= stride) by (nonlinear_arith)
            requires
                height >= 1,
        ;
        assert(stride * height <= pixels@.len());
        assert(width * 4 <= stride);
    }
    let mut bins = empty_bins();
    let ghost mut done: Seq<Rgb> = Seq::empty();
    let mut y: usize = 0;
    assert(done + grid_samples(pixels@, width, height, stride, step, 0) =~= all);
    while y < height
        invariant
            width * 4 <= stride,
            stride * height <= pixels@.len(),
            pixels@.len() < usize::MAX,
            step >= 1,
            counts_fit(all),
            all == grid_samples(pixels@, width, height, stride, step, 0),
            is_histogram(bins@, done),
            done + grid_samples(pixels@, width, height, stride, step, y as int) == all,
        decreases height + step - y,
    {
        let ghost row_start = done;
        assert(grid_samples(pixels@, width, height, stride, step, y as int) == row_samples(
            pixels@,
            width,
            stride,
            step,
            y as int,
            0,
        ) + grid_samples(pixels@, width, height, stride, step, y + step));
        assert(done + grid_samples(pixels@, width, height, stride, step, y as int) =~= done
            + row_samples(pixels@, width, stride, step, y as int, 0) + grid_samples(
            pixels@,
            width,
            height,
            stride,
            step,
            y + step,
        ));
        let mut x: usize = 0;
        while x < width
            invariant
                width * 4 <= stride,
                stride * height <= pixels@.len(),
                pixels@.len() < usize::MAX,
                step >= 1,
                y < height,
                counts_fit(all),
                is_histogram(bins@, done),
                done + row_samples(pixels@, width, stride, step, y as int, x as int) + grid_samples(
                    pixels@,
                    width,
                    height,
                    stride,
                    step,
                    y + step,
                ) == all,
            decreases width + step - x,
        {
            proof {
                assert(y * stride + x * 4 + 3 < pixels@.len()) by (nonlinear_arith)
                    requires
                        y < height,
                        x < width,
                        stride >= width * 4,
                        pixels@.len() >= stride * height,
                ;
                assert(y * stride <= (height - 1) * stride) by (nonlinear_arith)
                    requires
                        y < height,
                ;
            }
            let offset = y * stride + x * 4;
            let ghost rest = row_samples(pixels@, width, stride, step, y as int, x + step) + grid_samples(
                pixels@,
                width,
                height,
                stride,
                step,
                y + step,
            );
            if pixels[offset + 3] >= MIN_SAMPLED_ALPHA {
                proof {
                    let color: Rgb = (pixels@[offset as int], pixels@[offset + 1], pixels@[offset + 2]);
                    assert(sample_at(pixels@, y * stride + x * 4) == Some(color));
                    assert(all =~= done.push(color) + rest);
                }
                add_sample(
                    &mut bins,
                    Ghost(done),
                    Ghost(all),
                    pixels[offset],
                    pixels[offset + 1],
                    pixels[offset + 2],
                );
                proof {
                    done = done.push((pixels@[offset as int], pixels@[offset + 1], pixels@[offset + 2]));
                }
            } else {
                proof {
                    assert(all =~= done + rest);
                }
            }
            if width - x <= step {
                proof {
                    assert(row_samples(pixels@, width, stride, step, y as int, x + step) =~= Seq::empty());
                    assert(all =~= done + row_samples(pixels@, width, stride, step, y as int, width as int)
                        + grid_samples(pixels@, width, height, stride, step, y + step));
                }
                x = width;
            } else {
                x = x + step;
            }
        }
        proof {
            assert(row_samples(pixels@, width, stride, step, y as int, x as int) =~= Seq::empty());
            assert(done + grid_samples(pixels@, width, height, stride, step, y + step) =~= all);
        }
        if height - y <= step {
            proof {
                assert(grid_samples(pixels@, width, height, stride, step, y + step) =~= Seq::empty());
                assert(grid_samples(pixels@, width, height, stride, step, height as int) =~= Seq::empty());
            }
            y = height;
        } else {
            y = y + step;
        }
    }
    assert(done =~= all);
    bins
}

/// Whether bin `index` holds the most samples, and no later bin holds as many: the bin that
/// dominates the palette.
pub open spec fn is_dominant(bins: Seq<ColorBin>, index: int) -> bool {
    &&& 0 <= index < bins.len()
    &&& bins[index].count > 0
    &&& forall|b: int| 0 <= b < bins.len() ==> #[trigger] bins[b].count <= bins[index].count
    &&& forall|b: int| index < b < bins.len() ==> #[trigger] bins[b].count < bins[index].count
}

/// The dominant bin of a histogram: the last of the fullest bins; `None` when every bin is
/// empty.
pub fn dominant_bin(bins: &Vec<ColorBin>) -> (dominant: Option<usize>)
    ensures
        dominant matches Some(index) ==> is_dominant(bins@, index as int),
        dominant is None <==> forall|b: int| 0 <= b < bins.len() ==> #[trigger] bins@[b].count == 0,
{
    let mut best: Option<usize> = None;
    let mut index: usize = 0;
    while index < bins.len()
        invariant
            index <= bins.len(),
            best matches Some(i) ==> {
                &&& i < index
                &&& bins@[i as int].count > 0
                &&& forall|b: int| 0 <= b < index ==> #[trigger] bins@[b].count <= bins@[i as int].count
                &&& forall|b: int| i < b < index ==> #[trigger] bins@[b].count < bins@[i as int].count
            },
            best is None ==> forall|b: int| 0 <= b < index ==> #[trigger] bins@[b].count == 0,
        decreases bins.len() - index,
    {
        let count = bins[index].count;
        if count > 0 {
            match best {
                Some(current) => {
                    if count >= bins[current].count {
                        best = Some(index);
                    }
                },
                None => {
                    best = Some(index);
                },
            }
        }
        index = index + 1;
    }
    best
}

/// The histogram of a cover image and its dominant bin: `None` (so that the fallback palette
/// is used) when the buffer does not hold the image, or when no pixel was sampled.
pub fn sample_cover(pixels: &[u8], width: usize, height: usize, stride: usize, step: usize) -> (sampled: Option<(Vec<ColorBin>, usize)>)
    requires
        pixels@.len() < usize::MAX,
        step >= 1,
        buffer_fits(pixels@.len() as int, width, height, stride) ==> counts_fit(
            grid_samples(pixels@, width, height, stride, step, 0),
        ),
    ensures
        !buffer_fits(pixels@.len() as int, width, height, stride) ==> sampled is None,
        buffer_fits(pixels@.len() as int, width, height, stride) ==> {
            let samples = grid_samples(pixels@, width, height, stride, step, 0);
            &&& (sampled is None <==> samples.len() == 0)
            &&& sampled matches Some((bins, dominant)) ==> is_histogram(bins@, samples)
                && is_dominant(bins@, dominant as int)
        },
{
    if !valid_buffer(pixels, width, height, stride) {
        return None;
    }
    let bins = quantize(pixels, width, height, stride, step);
    let ghost samples = grid_samples(pixels@, width, height, stride, step, 0);
    match dominant_bin(&bins) {
        Some(dominant) => {
            proof {
                if samples.len() == 0 {
                    assert(bin_totals(samples, dominant as int).0 == 0);
                }
            }
            Some((bins, dominant))
        },
        None => {
            proof {
                if samples.len() > 0 {
                    let bin = bin_of(samples.last());
                    lemma_last_sample_counted(samples);
                    assert(bins@[bin].count == bin_totals(samples, bin).0);
                }
            }
            None
        },
    }
}

/// The bin of the last sample holds at least one sample.
proof fn lemma_last_sample_counted(samples: Seq<Rgb>)
    requires
        samples.len() > 0,
    ensures
        0 <= bin_of(samples.last()) < BIN_COUNT,
        bin_totals(samples, bin_of(samples.last())).0 > 0,
{
    let bin = bin_of(samples.last());
    lemma_totals_bounded(samples.drop_last(), bin);
}

} // verus!
