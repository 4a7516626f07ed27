//! The integer side of baking render nodes into textures: what identifies a static batch,
//! and the byte budget that the current line's textures are drawn from.

use std::ops::Range;

use vstd::prelude::*;

verus! {

/// Bytes in one texture pixel.
pub const TEXTURE_BYTES_PER_PIXEL: usize = 4;

/// The largest texture side, in pixels.
pub const MAX_TEXTURE_DIMENSION: usize = 4096;

/// The bytes that the current line's baked textures may take together: 8 MiB.
pub const CURRENT_LINE_TEXTURE_BUDGET: usize = 8388608;

/// What a static batch was composed for; a batch is reused only for an equal key.
#[derive(Clone, Copy, Debug, PartialEq, Eq, Structural)]
pub struct BatchKey {
    pub layout_generation: u64,
    pub scale_generation: u64,
    pub scale_bits: u64,
    pub visible_start: usize,
    pub visible_end: usize,
    pub current_line: Option<usize>,
    pub manual_scroll: bool,
}

impl BatchKey {
    /// The key of a batch; `scale_bits` is the bit pattern of the physical scale, so that
    /// any change of scale gives another key.
    pub fn new(
        layout_generation: u64,
        scale_generation: u64,
        scale_bits: u64,
        visible: Range<usize>,
        current_line: Option<usize>,
        manual_scroll: bool,
    ) -> (key: BatchKey)
        ensures
            key == (BatchKey {
                layout_generation,
                scale_generation,
                scale_bits,
                visible_start: visible.start,
                visible_end: visible.end,
                current_line,
                manual_scroll,
            }),
    {
        BatchKey {
            layout_generation,
            scale_generation,
            scale_bits,
            visible_start: visible.start,
            visible_end: visible.end,
            current_line,
            manual_scroll,
        }
    }
}

/// The pixel size of a planned texture.
#[derive(Clone, Copy, Debug, PartialEq, Eq, Structural)]
pub struct PixelExtent {
    pub pixel_width: usize,
    pub pixel_height: usize,
}

impl PixelExtent {
    /// The bytes of a texture of this size, when that count fits in `usize`.
    pub open spec fn bytes(self) -> int {
        self.pixel_width * self.pixel_height * TEXTURE_BYTES_PER_PIXEL
    }

    /// The bytes of a texture of this size; `None` when the count overflows.
    pub fn byte_size(self) -> (bytes: Option<usize>)
        ensures
            bytes is Some <==> self.bytes() <= usize::MAX,
            bytes matches Some(count) ==> count == self.bytes(),
    {
        let pixels = self.pixel_width.checked_mul(self.pixel_height);
        match pixels {
            Some(pixels) => {
                assert(pixels * TEXTURE_BYTES_PER_PIXEL == self.bytes()) by (nonlinear_arith)
                    requires
                        pixels == self.pixel_width * self.pixel_height,
                ;
                pixels.checked_mul(TEXTURE_BYTES_PER_PIXEL)
            },
            None => {
                assert(self.bytes() > usize::MAX) by (nonlinear_arith)
                    requires
                        self.pixel_width * self.pixel_height > usize::MAX,
                ;
                None
            },
        }
    }
}

/// A byte budget for baked textures: what may be used, what is in use, and the largest
/// texture side.
#[derive(Clone, Copy, Debug)]
pub struct TextureBudget {
    limit: usize,
    used: usize,
    max_dimension: usize,
}

impl TextureBudget {
    pub closed spec fn limit_spec(self) -> usize {
        self.limit
    }

    pub closed spec fn used_spec(self) -> usize {
        self.used
    }

    pub closed spec fn max_dimension_spec(self) -> usize {
        self.max_dimension
    }

    /// The budget of the current line: 8 MiB, nothing used, sides up to 4096 pixels.
    pub fn current_line() -> (budget: TextureBudget)
        ensures
            budget.limit_spec() == CURRENT_LINE_TEXTURE_BUDGET,
            budget.used_spec() == 0,
            budget.max_dimension_spec() == MAX_TEXTURE_DIMENSION,
    {
        TextureBudget { limit: CURRENT_LINE_TEXTURE_BUDGET, used: 0, max_dimension: MAX_TEXTURE_DIMENSION }
    }

    /// The largest texture side a plan may have under this budget.
    pub fn max_dimension(&self) -> (dimension: usize)
        ensures
            dimension == self.max_dimension_spec(),
    {
        self.max_dimension
    }

    /// The bytes in use.
    pub fn used(&self) -> (used: usize)
        ensures
            used == self.used_spec(),
    {
        self.used
    }

    /// Takes the bytes of a texture of size `extent` from the budget and returns them;
    /// `None`, with nothing taken, when they do not fit in what is left.
    pub fn reserve(&mut self, extent: PixelExtent) -> (reserved: Option<usize>)
        ensures
            final(self).limit_spec() == old(self).limit_spec(),
            final(self).max_dimension_spec() == old(self).max_dimension_spec(),
            reserved is Some <==> old(self).used_spec() + extent.bytes() <= old(self).limit_spec(),
            reserved matches Some(bytes) ==> bytes == extent.bytes() && final(self).used_spec()
                == old(self).used_spec() + bytes,
            reserved is None ==> final(self).used_spec() == old(self).used_spec(),
    {
        let bytes = match extent.byte_size() {
            Some(bytes) => bytes,
            None => return None,
        };
        let used = match self.used.checked_add(bytes) {
            Some(used) => used,
            None => return None,
        };
        if used > self.limit {
            return None;
        }
        self.used = used;
        Some(bytes)
    }

    /// Gives `bytes` back to the budget, never below nothing in use.
    pub fn release(&mut self, bytes: usize)
        ensures
            final(self).limit_spec() == old(self).limit_spec(),
            final(self).max_dimension_spec() == old(self).max_dimension_spec(),
            final(self).used_spec() == if bytes <= old(self).used_spec() {
                old(self).used_spec() - bytes
            } else {
                0
            },
    {
        self.used = self.used.saturating_sub(bytes);
    }
}

} // verus!
