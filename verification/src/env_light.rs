//! Environment importance sampling: the grid that an equirectangular sky is averaged into, and
//! when its table is made anew.

use crate::commands::{no_buffer, Buffer};
use vstd::prelude::*;

verus! {

/// Columns of the grid.
pub const ENV_W: u32 = 512;

/// Rows of the grid.
pub const ENV_H: u32 = 256;

/// Cells of the grid.
pub const ENV_CELLS: u32 = 131072;

/// How the pixels of a sky image are read.
#[derive(Clone, Copy, Debug, PartialEq, Eq, Structural)]
pub enum PixelLayout {
    /// Four single-precision numbers.
    Float,
    /// Four bytes.
    Byte,
}

/// How the pixels of an image with so much data are read; `None` where they cannot be.
pub open spec fn layout_of(len: Option<usize>, width: u32, height: u32) -> Option<PixelLayout> {
    if len is None || width == 0 || height == 0 {
        None
    } else {
        let size = len->0 as int / (width * height);
        if size == 16 {
            Some(PixelLayout::Float)
        } else if size == 4 {
            Some(PixelLayout::Byte)
        } else {
            None
        }
    }
}

/// How the pixels of an image with so much data are read; `None` where they cannot be.
pub fn pixel_layout(len: Option<usize>, width: u32, height: u32) -> (r: Option<PixelLayout>)
    ensures
        r == layout_of(len, width, height),
{
    let len: usize = match len {
        Some(len) => len,
        None => return None,
    };
    if width == 0 || height == 0 {
        return None;
    }
    proof {
        assert(0 < width * height <= 0xFFFF_FFFFu64 * 0xFFFF_FFFFu64) by (nonlinear_arith)
            requires
                0 < width <= 0xFFFF_FFFF,
                0 < height <= 0xFFFF_FFFF,
        ;
    }
    let size: u64 = len as u64 / (width as u64 * height as u64);
    if size == 16 {
        Some(PixelLayout::Float)
    } else if size == 4 {
        Some(PixelLayout::Byte)
    } else {
        None
    }
}

/// The cell, out of `cells`, that position `x` out of `n` falls into.
pub open spec fn cell(x: int, n: int, cells: int) -> int {
    x * cells / n
}

/// The cell of the grid that pixel `(x, y)` of a `width` x `height` image is averaged into.
pub open spec fn grid_cell(x: u32, y: u32, width: u32, height: u32) -> int {
    cell(y as int, height as int, ENV_H as int) * ENV_W + cell(x as int, width as int, ENV_W as int)
}

/// Positions fall into cells in order, each into one that there is.
pub proof fn lemma_cell(x: int, y: int, n: int, cells: int)
    requires
        0 <= x <= y < n,
        0 < cells,
    ensures
        0 <= cell(x, n, cells) <= cell(y, n, cells) < cells,
{
    assert(0 <= x * cells <= y * cells) by (nonlinear_arith)
        requires
            0 <= x <= y,
            0 < cells,
    ;
    assert(y * cells < n * cells) by (nonlinear_arith)
        requires
            y < n,
            0 < cells,
    ;
    vstd::arithmetic::div_mod::lemma_div_is_ordered(x * cells, y * cells, n);
    vstd::arithmetic::div_mod::lemma_div_pos_is_pos(x * cells, n);
    assert((y * cells) / n < cells) by {
        vstd::arithmetic::div_mod::lemma_multiply_divide_lt(y * cells, n, cells);
        assert(cells * n == n * cells) by (nonlinear_arith);
    }
}

/// The cell of the grid that a pixel is averaged into.
pub fn cell_of(x: u32, y: u32, width: u32, height: u32) -> (r: usize)
    requires
        x < width,
        y < height,
    ensures
        r == grid_cell(x, y, width, height),
        r < ENV_CELLS,
{
    proof {
        lemma_cell(x as int, x as int, width as int, ENV_W as int);
        lemma_cell(y as int, y as int, height as int, ENV_H as int);
    }
    let gy: u64 = y as u64 * ENV_H as u64 / height as u64;
    let gx: u64 = x as u64 * ENV_W as u64 / width as u64;
    (gy * ENV_W as u64 + gx) as usize
}

/// The table of the sky that is shown, and the image it was made from.
#[derive(Clone, Copy, Debug, PartialEq, Eq, Structural)]
pub struct EnvLight {
    pub image: Option<u64>,
    pub buffer: Buffer,
}

/// What a frame does with the table.
#[derive(Clone, Copy, Debug, PartialEq, Eq, Structural)]
pub enum EnvStep {
    /// Nothing.
    Keep,
    /// The table is given up.
    Release,
    /// The table is given up, and the image remembered as one that has none.
    Refuse { image: u64 },
    /// The table is made anew for the image.
    Build { image: u64 },
}

/// A sky image: whether it has loaded, and whether its pixels can be read.
#[derive(Clone, Copy, Debug, PartialEq, Eq, Structural)]
pub enum SkyImage {
    Missing,
    Unreadable,
    Readable,
}

impl EnvLight {
    pub fn new() -> (r: Self)
        ensures
            r == (EnvLight { image: None, buffer: no_buffer() }),
    {
        EnvLight { image: None, buffer: Buffer::default() }
    }

    /// Device address of the table (0 where there is none).
    pub fn address(&self) -> (r: u64)
        ensures
            r == self.buffer.address,
    {
        self.buffer.address
    }

    /// What a frame does: a sky without an image needs no table, and one whose image was dealt
    /// with keeps what it has. While an image is still missing there is no table for it, and that
    /// of another image is given up.
    pub open spec fn step(self, sky_image: Option<u64>, state: SkyImage) -> EnvStep {
        match sky_image {
            None => if self.image is Some {
                EnvStep::Release
            } else {
                EnvStep::Keep
            },
            Some(image) => if self.image == Some(image) {
                EnvStep::Keep
            } else if state == SkyImage::Missing {
                if self.image is Some {
                    EnvStep::Release
                } else {
                    EnvStep::Keep
                }
            } else if state == SkyImage::Unreadable {
                EnvStep::Refuse { image }
            } else {
                EnvStep::Build { image }
            },
        }
    }

    /// Decides what a frame does.
    pub fn plan(&self, sky_image: Option<u64>, state: SkyImage) -> (r: EnvStep)
        ensures
            r == self.step(sky_image, state),
    {
        match sky_image {
            None => if self.image.is_some() {
                EnvStep::Release
            } else {
                EnvStep::Keep
            },
            Some(image) => {
                if let Some(known) = self.image {
                    if known == image {
                        return EnvStep::Keep;
                    }
                }
                match state {
                    SkyImage::Missing => if self.image.is_some() {
                        EnvStep::Release
                    } else {
                        EnvStep::Keep
                    },
                    SkyImage::Unreadable => EnvStep::Refuse { image },
                    SkyImage::Readable => EnvStep::Build { image },
                }
            },
        }
    }

    /// Takes a step; `built` is the new table, where one was made. Gives the handle of the old
    /// table, where there was one to give up.
    pub fn apply(&mut self, step: EnvStep, built: Buffer) -> (r: Option<u64>)
        ensures
            *final(self) == (match step {
                EnvStep::Keep => *old(self),
                EnvStep::Release => EnvLight { image: None, buffer: no_buffer() },
                EnvStep::Refuse { image } => EnvLight { image: Some(image), buffer: no_buffer() },
                EnvStep::Build { image } => EnvLight { image: Some(image), buffer: built },
            }),
            r == (if step == EnvStep::Keep || old(self).buffer.handle == 0 {
                None
            } else {
                Some(old(self).buffer.handle)
            }),
    {
        let handle: u64 = self.buffer.handle;
        match step {
            EnvStep::Keep => {
                return None;
            },
            EnvStep::Release => {
                self.buffer = Buffer::default();
                self.image = None;
            },
            EnvStep::Refuse { image } => {
                self.buffer = Buffer::default();
                self.image = Some(image);
            },
            EnvStep::Build { image } => {
                self.buffer = built;
                self.image = Some(image);
            },
        }
        if handle == 0 {
            None
        } else {
            Some(handle)
        }
    }
}

/// Once a step was taken, the same sky asks for nothing more, and a table that is left is of
/// the sky's own image.
pub proof fn lemma_env_settles(env: EnvLight, sky_image: Option<u64>, state: SkyImage,
    built: Buffer)
    ensures
        ({
            let step = env.step(sky_image, state);
            let after = match step {
                EnvStep::Keep => env,
                EnvStep::Release => EnvLight { image: None, buffer: no_buffer() },
                EnvStep::Refuse { image } => EnvLight { image: Some(image), buffer: no_buffer() },
                EnvStep::Build { image } => EnvLight { image: Some(image), buffer: built },
            };
            &&& after.step(sky_image, state) == EnvStep::Keep
            &&& after.image is Some ==> after.image == sky_image
        }),
{
}

} // verus!
