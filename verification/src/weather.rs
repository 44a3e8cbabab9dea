//! The hazard raster: a square grid of colour cells of which some are blocked.

use image::Pixel;
use image::Rgba;
use vstd::prelude::*;

verus! {

/// The number of cells along each side of the raster.
pub const GRID_SIZE: usize = 100;

/// A cell is blocked when one of its colour channels reaches this value.
pub const BLOCKED_THRESHOLD: u8 = 1;

/// The colour of one cell: red, green, blue and alpha.
#[derive(Debug, Clone, Copy, PartialEq, Eq, Structural)]
pub struct PixelColor {
    pub r: u8,
    pub g: u8,
    pub b: u8,
    pub a: u8,
}

/// Whether a cell of this colour is closed to the vehicle.
pub open spec fn is_blocked(color: PixelColor) -> bool {
    color.r >= BLOCKED_THRESHOLD || color.g >= BLOCKED_THRESHOLD || color.b >= BLOCKED_THRESHOLD
}

/// Whether the cell in column `x` and row `y` lies in the raster and is open.
pub open spec fn cell_is_free(grid: Seq<PixelColor>, x: int, y: int) -> bool {
    &&& 0 <= x < GRID_SIZE
    &&& 0 <= y < GRID_SIZE
    &&& y * GRID_SIZE + x < grid.len()
    &&& !is_blocked(grid[y * GRID_SIZE + x])
}

impl PixelColor {
    /// Whether a cell of this colour is closed to the vehicle.
    pub fn blocked(&self) -> (r: bool)
        ensures
            r == is_blocked(*self),
    {
        self.r >= BLOCKED_THRESHOLD || self.g >= BLOCKED_THRESHOLD || self.b >= BLOCKED_THRESHOLD
    }
}

/// Tests whether the cell in column `x` and row `y` lies in the raster and is open.
pub fn cell_free(grid: &Vec<PixelColor>, x: i64, y: i64) -> (r: bool)
    ensures
        r == cell_is_free(grid@, x as int, y as int),
{
    if x < 0 || y < 0 || x >= GRID_SIZE as i64 || y >= GRID_SIZE as i64 {
        return false;
    }
    let index: usize = (y as usize) * GRID_SIZE + (x as usize);
    if index >= grid.len() {
        return false;
    }
    !grid[index].blocked()
}

/// The brightness of a colour: `(2126 r + 7152 g + 722 b) / 10000`, rounded down.
pub open spec fn luma_of(color: PixelColor) -> u8 {
    ((2126 * color.r + 7152 * color.g + 722 * color.b) / 10000) as u8
}

/// The brightness of a colour, as the image crate's `Pixel::to_luma` computes it for
/// `Rgba<u8>`: the weighted sum of red, green and blue with the weights 2126, 7152
/// and 722, divided by 10000 and rounded down; alpha plays no part.
#[verifier::external_body]
pub(crate) fn pixel_to_luma(pixel: PixelColor) -> (r: u8)
    ensures
        r == luma_of(pixel),
{
    Rgba([pixel.r, pixel.g, pixel.b, pixel.a]).to_luma()[0]
}

/// One pixel of a radar image: its column, its row and its colour.
#[derive(Debug, Clone, Copy, PartialEq, Eq, Structural)]
pub struct ImagePixel {
    pub x: u32,
    pub y: u32,
    pub color: PixelColor,
}

/// The colour of a cell that no pixel has painted.
pub open spec fn clear_color() -> PixelColor {
    PixelColor { r: 0, g: 0, b: 0, a: 0 }
}

/// The place in the raster of the cell that a pixel falls into, where each cell is
/// `divider` pixels wide and high.
pub open spec fn cell_index(divider: int, pixel: ImagePixel) -> int {
    (pixel.y as int / divider) * GRID_SIZE + pixel.x as int / divider
}

/// The raster after a pixel is held against its cell: the cell takes the colour of the
/// pixel where the pixel is brighter. A pixel that falls behind the raster is left out.
pub open spec fn painted(grid: Seq<PixelColor>, divider: int, pixel: ImagePixel) -> Seq<
    PixelColor,
> {
    let index = cell_index(divider, pixel);
    if index < grid.len() && luma_of(pixel.color) > luma_of(grid[index]) {
        grid.update(index, pixel.color)
    } else {
        grid
    }
}

/// The raster after the pixels are held against their cells, in order.
pub open spec fn painted_all(grid: Seq<PixelColor>, divider: int, pixels: Seq<ImagePixel>)
    -> Seq<PixelColor>
    decreases pixels.len(),
{
    if pixels.len() == 0 {
        grid
    } else {
        painted(painted_all(grid, divider, pixels.drop_last()), divider, pixels.last())
    }
}

/// Builds the raster from the pixels of an image that is `image_width` pixels wide: each
/// cell holds the brightest of the pixels that fall into it, the first of them where
/// several are as bright. An image narrower than the raster yields nothing.
pub fn produce_grid(image_width: u32, pixels: &Vec<ImagePixel>) -> (r: Option<Vec<PixelColor>>)
    ensures
        match r {
            None => image_width < GRID_SIZE,
            Some(grid) => image_width >= GRID_SIZE && grid@ == painted_all(
                Seq::new((GRID_SIZE * GRID_SIZE) as nat, |i: int| clear_color()),
                image_width as int / GRID_SIZE as int,
                pixels@,
            ),
        },
{
    let size: u64 = GRID_SIZE as u64;
    assert(size == 100);
    let divider: u64 = image_width as u64 / size;
    if divider == 0 {
        return None;
    }
    let mut grid: Vec<PixelColor> = vec![PixelColor { r: 0, g: 0, b: 0, a: 0 }; 10000];
    let ghost blank = Seq::new((GRID_SIZE * GRID_SIZE) as nat, |i: int| clear_color());
    assert(grid@ =~= blank);
    let mut i: usize = 0;
    assert(pixels@.take(0) =~= Seq::<ImagePixel>::empty());
    while i < pixels.len()
        invariant
            i <= pixels.len(),
            size == 100,
            GRID_SIZE == 100,
            divider == image_width as int / 100,
            divider > 0,
            grid.len() == 10000,
            grid@ == painted_all(blank, divider as int, pixels@.take(i as int)),
        decreases pixels.len() - i,
    {
        let pixel: ImagePixel = pixels[i];
        let grid_x: u64 = pixel.x as u64 / divider;
        let grid_y: u64 = pixel.y as u64 / divider;
        let grid_index: u64 = grid_y * size + grid_x;
        assert(grid_index == cell_index(divider as int, pixel));
        if grid_index < 10000 {
            let index: usize = grid_index as usize;
            if pixel_to_luma(pixel.color) > pixel_to_luma(grid[index]) {
                grid.set(index, pixel.color);
            }
        }
        proof {
            assert(pixels@.take(i as int + 1).drop_last() =~= pixels@.take(i as int));
            assert(pixels@.take(i as int + 1).last() == pixel);
        }
        i += 1;
    }
    assert(pixels@.take(pixels.len() as int) =~= pixels@);
    Some(grid)
}

} // verus!
