//! The static tile grid behind the entities: a bordered field of wall and
//! background tiles.

use vstd::prelude::*;
use crate::palette::{Palette, PaletteKey, Rgb};

verus! {

/// One grid tile.
#[derive(Debug, Clone, Copy, PartialEq, Eq, Structural)]
pub enum Tile {
    Background,
    Wall,
}

impl Default for Tile {
    fn default() -> (r: Self)
        ensures
            r == Tile::Background,
    {
        Tile::Background
    }
}

impl Tile {
    /// The palette role this tile draws with.
    pub fn palette_key(self) -> (r: PaletteKey)
        ensures
            r == match self {
                Tile::Background => PaletteKey::Blank,
                Tile::Wall => PaletteKey::Wall,
            },
    {
        match self {
            Tile::Background => PaletteKey::Blank,
            Tile::Wall => PaletteKey::Wall,
        }
    }

    /// The tile's color under a palette.
    pub fn color(self, palette: Palette) -> (r: Rgb)
        ensures
            r == match self {
                Tile::Background => Rgb { r: 0, g: 0, b: 0 },
                Tile::Wall => palette.wall,
            },
    {
        palette.get(self.palette_key())
    }
}

/// Whether cell (x, y) lies on the border of a width-by-height grid.
pub open spec fn on_border(width: int, height: int, x: int, y: int) -> bool {
    x == 0 || x == width - 1 || y == 0 || y == height - 1
}

/// A row-major grid of tiles with a wall border and a clear interior.
#[derive(Debug)]
pub struct Scene {
    width: usize,
    height: usize,
    tiles: Vec<Tile>,
}

impl Scene {
    pub closed spec fn spec_width(&self) -> usize {
        self.width
    }

    pub closed spec fn spec_height(&self) -> usize {
        self.height
    }

    /// The tile at cell (x, y).
    pub closed spec fn tile_at(&self, x: int, y: int) -> Tile {
        self.tiles@[x + y * self.width]
    }

    pub closed spec fn wf(&self) -> bool {
        &&& self.tiles@.len() == self.width * self.height
        &&& self.width * self.height <= usize::MAX
    }

    #[verifier::when_used_as_spec(spec_width)]
    pub fn width(&self) -> (r: usize)
        ensures
            r == self.spec_width(),
    {
        self.width
    }

    #[verifier::when_used_as_spec(spec_height)]
    pub fn height(&self) -> (r: usize)
        ensures
            r == self.spec_height(),
    {
        self.height
    }

    proof fn lemma_index(&self, x: int, y: int)
        requires
            self.wf(),
            0 <= x < self.width,
            0 <= y < self.height,
        ensures
            0 <= x + y * self.width < self.tiles@.len(),
            x + y * self.width <= usize::MAX,
    {
        assert(x + y * (self.width as int) < self.width * self.height) by (nonlinear_arith)
            requires
                0 <= x < self.width as int,
                0 <= y < self.height as int;
    }

    /// A fresh grid: every border cell a wall, every interior cell clear.
    pub fn new(width: usize, height: usize) -> (r: Self)
        requires
            width * height <= usize::MAX,
        ensures
            r.wf(),
            r.spec_width() == width,
            r.spec_height() == height,
            forall|x: int, y: int|
                0 <= x < width && 0 <= y < height ==> r.tile_at(x, y) == (if on_border(
                    width as int,
                    height as int,
                    x,
                    y,
                ) {
                    Tile::Wall
                } else {
                    Tile::Background
                }),
    {
        let mut tiles: Vec<Tile> = Vec::new();
        let mut y: usize = 0;
        while y < height
            invariant
                y <= height,
                width * height <= usize::MAX,
                tiles@.len() == y * width,
                forall|xx: int, yy: int|
                    0 <= xx < width && 0 <= yy < y ==> tiles@[xx + yy * width] == (if on_border(
                        width as int,
                        height as int,
                        xx,
                        yy,
                    ) {
                        Tile::Wall
                    } else {
                        Tile::Background
                    }),
            decreases height - y,
        {
            let mut x: usize = 0;
            proof {
                assert((y + 1) * width <= height * width) by (nonlinear_arith)
                    requires y + 1 <= height;
                assert(y * width + width == (y + 1) * width) by (nonlinear_arith);
            }
            while x < width
                invariant
                    x <= width,
                    y < height,
                    width * height <= usize::MAX,
                    y * width + width <= usize::MAX,
                    tiles@.len() == y * width + x,
                    forall|xx: int, yy: int|
                        0 <= xx < width && 0 <= yy < y ==> tiles@[xx + yy * width] == (
                        if on_border(width as int, height as int, xx, yy) {
                            Tile::Wall
                        } else {
                            Tile::Background
                        }),
                    forall|xx: int|
                        0 <= xx < x ==> tiles@[xx + y * width] == (if on_border(
                            width as int,
                            height as int,
                            xx,
                            y as int,
                        ) {
                            Tile::Wall
                        } else {
                            Tile::Background
                        }),
                decreases width - x,
            {
                let tile = if x == 0 || x == width - 1 || y == 0 || y == height - 1 {
                    Tile::Wall
                } else {
                    Tile::Background
                };
                let ghost tprev = tiles@;
                tiles.push(tile);
                proof {
                    assert forall|xx: int, yy: int|
                        0 <= xx < width && 0 <= yy < y
                        implies tiles@[xx + yy * width] == (if on_border(
                            width as int,
                            height as int,
                            xx,
                            yy,
                        ) {
                            Tile::Wall
                        } else {
                            Tile::Background
                        }) by {
                        assert(0 <= xx + yy * width < y * width) by (nonlinear_arith)
                            requires
                                0 <= xx < width as int,
                                0 <= yy < y as int;
                        assert(tiles@[xx + yy * width] == tprev[xx + yy * width]);
                    }
                    assert forall|xx: int|
                        0 <= xx < x + 1
                        implies tiles@[xx + y * width] == (if on_border(
                            width as int,
                            height as int,
                            xx,
                            y as int,
                        ) {
                            Tile::Wall
                        } else {
                            Tile::Background
                        }) by {
                        if xx < x {
                            assert(tiles@[xx + y * width] == tprev[xx + y * width]);
                        } else {
                            assert(xx + y * width == tprev.len());
                            assert(tiles@[xx + y * width] == tile);
                            assert(on_border(width as int, height as int, xx, y as int) == (xx == 0
                                || xx == width - 1 || y as int == 0 || y as int == height - 1));
                        }
                    }
                }
                x = x + 1;
            }
            y = y + 1;
        }
        let r = Scene { width, height, tiles };
        proof {
            assert(r.tiles@.len() == height * width);
            assert(height * width == width * height) by (nonlinear_arith);
        }
        r
    }

    /// The tile at cell (x, y).
    pub fn get_tile(&self, x: usize, y: usize) -> (r: Tile)
        requires
            self.wf(),
            x < self.spec_width(),
            y < self.spec_height(),
        ensures
            r == self.tile_at(x as int, y as int),
    {
        proof {
            self.lemma_index(x as int, y as int);
        }
        self.tiles[x + y * self.width]
    }

    /// Overwrites the tile at cell (x, y), leaving every other cell alone.
    pub fn set_tile(&mut self, x: usize, y: usize, tile: Tile)
        requires
            old(self).wf(),
            x < old(self).spec_width(),
            y < old(self).spec_height(),
        ensures
            final(self).wf(),
            final(self).spec_width() == old(self).spec_width(),
            final(self).spec_height() == old(self).spec_height(),
            final(self).tile_at(x as int, y as int) == tile,
            forall|xx: int, yy: int|
                0 <= xx < old(self).spec_width() && 0 <= yy < old(self).spec_height() && !(xx == x
                    && yy == y) ==> final(self).tile_at(xx, yy) == old(self).tile_at(xx, yy),
    {
        proof {
            self.lemma_index(x as int, y as int);
        }
        let idx = x + y * self.width;
        self.tiles[idx] = tile;
        proof {
            assert forall|xx: int, yy: int|
                0 <= xx < self.width && 0 <= yy < self.height && !(xx == x && yy == y)
                implies self.tile_at(xx, yy) == old(self).tile_at(xx, yy) by {
                self.lemma_index(xx, yy);
                assert(xx + yy * self.width != x + y * self.width) by (nonlinear_arith)
                    requires
                        0 <= xx < self.width as int,
                        0 <= yy < self.height as int,
                        0 <= x < self.width as int,
                        0 <= y < self.height as int,
                        !(xx == x as int && yy == y as int);
            }
        }
    }
}

} // verus!
