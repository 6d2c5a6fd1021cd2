use vstd::prelude::*;
use bevy::utils::HashMap;

verus! {

/// A coordinate pair of the tiling plane, wide enough for any shifted layout coordinate.
#[derive(Debug, PartialEq, Eq, Structural, Clone, Copy)]
pub struct GeoCoord {
    pub x: i64,
    pub y: i64,
}

impl GeoCoord {
    /// The coordinates as a mathematical pair.
    pub open spec fn pair(&self) -> (int, int) {
        (self.x as int, self.y as int)
    }
}

/// A closed axis-aligned rectangle of the tiling plane.
#[derive(Debug, PartialEq, Eq, Structural, Clone, Copy)]
pub struct GeoRect {
    pub min: GeoCoord,
    pub max: GeoCoord,
}

impl GeoRect {
    /// The corners are ordered in both axes.
    pub open spec fn wf(&self) -> bool {
        self.min.x <= self.max.x && self.min.y <= self.max.y
    }

    /// The rectangle spanned by two arbitrary opposite corners.
    pub fn new(c0: GeoCoord, c1: GeoCoord) -> (r: GeoRect)
        ensures
            r.wf(),
            r.min.x == (if c0.x <= c1.x { c0.x } else { c1.x }),
            r.max.x == (if c0.x <= c1.x { c1.x } else { c0.x }),
            r.min.y == (if c0.y <= c1.y { c0.y } else { c1.y }),
            r.max.y == (if c0.y <= c1.y { c1.y } else { c0.y }),
    {
        let (min_x, max_x) = if c0.x <= c1.x { (c0.x, c1.x) } else { (c1.x, c0.x) };
        let (min_y, max_y) = if c0.y <= c1.y { (c0.y, c1.y) } else { (c1.y, c0.y) };
        GeoRect { min: GeoCoord { x: min_x, y: min_y }, max: GeoCoord { x: max_x, y: max_y } }
    }

    /// Whether two closed rectangles have a point in common.
    pub open spec fn overlaps(&self, other: &GeoRect) -> bool {
        &&& self.min.x <= other.max.x
        &&& other.min.x <= self.max.x
        &&& self.min.y <= other.max.y
        &&& other.min.y <= self.max.y
    }
}

/// A polygon without holes, given by its ring of vertices.
#[derive(Debug, PartialEq, Eq, Clone)]
pub struct GeoPolygon {
    pub exterior: Vec<GeoCoord>,
}

impl GeoPolygon {
    /// The ring as mathematical coordinate pairs.
    pub open spec fn ring(&self) -> Seq<(int, int)> {
        Seq::new(self.exterior@.len(), |i: int| self.exterior@[i].pair())
    }
}

/// The geometry of a primitive in the form the overlap test takes.
#[derive(Debug, PartialEq, Eq, Clone)]
pub enum GeoShapeEnum {
    Rect(GeoRect),
    Polygon(GeoPolygon),
}

/// One cell of the grid: its extents and the primitives that overlap it, by index.
#[derive(Debug, PartialEq, Eq, Clone)]
pub struct Tile {
    pub extents: GeoRect,
    pub shapes: Vec<usize>,
}

/// The world position of the lower-left corner of tile `(0, 0)`.
#[derive(Debug, Default, PartialEq, Eq, Clone, Copy)]
pub struct TilemapLowerLeft {
    pub x: i64,
    pub y: i64,
}

/// The edge length of a tile, in layout units.
#[derive(Debug, Default, PartialEq, Eq, Clone, Copy)]
pub struct TileSizeInWorldSpace(pub u32);

/// The tiles of a grid, keyed by their column and row. The tiles are kept in a
/// `bevy::utils::HashMap`, which the verifier does not look into: what the map holds is
/// known by the name `tilemap_tiles` alone, and only through the methods below.
#[verifier::external_body]
#[derive(Debug, Default)]
pub struct Tilemap {
    tiles: HashMap<(u32, u32), Tile>,
}

/// The tiles that a `Tilemap` holds, by key.
pub uninterp spec fn tilemap_tiles(map: Tilemap) -> Map<(u32, u32), Tile>;

impl View for Tilemap {
    type V = Map<(u32, u32), Tile>;

    open spec fn view(&self) -> Map<(u32, u32), Tile> {
        tilemap_tiles(*self)
    }
}

impl Tilemap {
    /// `HashMap::default`: a map that holds nothing.
    #[verifier::external_body]
    pub(crate) fn without_tiles() -> (grid: Tilemap)
        ensures
            tilemap_tiles(grid).dom() == Set::<(u32, u32)>::empty(),
    {
        Tilemap { tiles: HashMap::default() }
    }

    /// `HashMap::insert`: afterwards the map holds `tile` under `key` and is otherwise
    /// unchanged; the tile that `key` held before, if any, is handed back.
    #[verifier::external_body]
    pub(crate) fn insert_tile(&mut self, key: (u32, u32), tile: Tile) -> (previous: Option<Tile>)
        ensures
            tilemap_tiles(*final(self)) == tilemap_tiles(*old(self)).insert(key, tile),
            previous == (if tilemap_tiles(*old(self)).contains_key(key) {
                Some(tilemap_tiles(*old(self))[key])
            } else {
                None
            }),
    {
        self.tiles.insert(key, tile)
    }

    /// `HashMap::get`: the tile under `key`, if the map holds one.
    #[verifier::external_body]
    pub(crate) fn tile_ref(&self, key: (u32, u32)) -> (tile: Option<&Tile>)
        ensures
            tile == (if tilemap_tiles(*self).contains_key(key) {
                Some(&tilemap_tiles(*self)[key])
            } else {
                None
            }),
    {
        self.tiles.get(&key)
    }

    /// `HashMap::get_mut`: a mutable borrow of the tile under `key`, if the map holds one.
    /// What the borrow is left with is what the map holds under `key` afterwards; no other
    /// entry changes.
    #[verifier::external_body]
    pub(crate) fn tile_mut(&mut self, key: (u32, u32)) -> (tile: Option<&mut Tile>)
        ensures
            tilemap_tiles(*old(self)).contains_key(key) ==> tile.is_some() && *tile.unwrap()
                == tilemap_tiles(*old(self))[key] && tilemap_tiles(*final(self)) == tilemap_tiles(
                *old(self),
            ).insert(key, *final(tile.unwrap())),
            !tilemap_tiles(*old(self)).contains_key(key) ==> tile.is_none() && tilemap_tiles(
                *final(self),
            ) == tilemap_tiles(*old(self)),
    {
        self.tiles.get_mut(&key)
    }

    /// `HashMap::keys`: every key of the map exactly once, in no particular order.
    #[verifier::external_body]
    pub(crate) fn key_list(&self) -> (keys: Vec<(u32, u32)>)
        ensures
            keys@.no_duplicates(),
            forall|k: (u32, u32)| keys@.contains(k) <==> tilemap_tiles(*self).contains_key(k),
    {
        self.tiles.keys().copied().collect()
    }

    /// The tile in column `ix` of row `iy`, if the map has one.
    pub fn get(&self, ix: u32, iy: u32) -> (tile: Option<&Tile>)
        ensures
            tile == (if self@.contains_key((ix, iy)) {
                Some(&self@[(ix, iy)])
            } else {
                None
            }),
    {
        self.tile_ref((ix, iy))
    }
}

/// Add `idx` to the primitives of `tile` if the overlap test said so.
pub fn record_overlap(tile: &mut Tile, idx: usize, overlaps: bool)
    ensures
        final(tile).extents == old(tile).extents,
        final(tile).shapes@ == (if overlaps {
            old(tile).shapes@.push(idx)
        } else {
            old(tile).shapes@
        }),
{
    if overlaps {
        tile.shapes.push(idx);
    }
}

/// The request to draw the tile in column `.0.0` of row `.0.1`.
#[derive(Debug, Default, PartialEq, Eq, Clone, Copy)]
pub struct DrawTileEvent(pub (u32, u32));

/// A walk over the tiles of a grid, row by row and from the first column to the last
/// within each row.
#[derive(Debug, Default, PartialEq, Eq, Clone, Copy)]
pub struct TileIndexIter {
    columns: u32,
    rows: u32,
    x: u32,
    y: u32,
}

impl TileIndexIter {
    /// Number of columns and of rows of the grid that is walked.
    pub closed spec fn grid_shape(&self) -> (u32, u32) {
        (self.columns, self.rows)
    }

    /// The tile that comes next, if the walk has not passed the last one.
    pub closed spec fn upcoming(&self) -> Option<(u32, u32)> {
        if self.y < self.rows && self.x < self.columns {
            Some((self.x, self.y))
        } else {
            None
        }
    }

    /// The tile that follows `tile` in a grid of the given shape.
    pub open spec fn successor(shape: (u32, u32), tile: (u32, u32)) -> Option<(u32, u32)> {
        if tile.0 + 1 < shape.0 {
            Some(((tile.0 + 1) as u32, tile.1))
        } else if tile.1 + 1 < shape.1 {
            Some((0u32, (tile.1 + 1) as u32))
        } else {
            None
        }
    }

    /// The walk over a grid of `shape.0` columns and `shape.1` rows, before its first tile.
    pub fn new(shape: (u32, u32)) -> (walk: TileIndexIter)
        ensures
            walk.grid_shape() == shape,
            walk.upcoming() == (if shape.0 > 0 && shape.1 > 0 {
                Some((0u32, 0u32))
            } else {
                None
            }),
    {
        TileIndexIter { columns: shape.0, rows: shape.1, x: 0, y: 0 }
    }

    /// Hand out the request for the next tile and move on to the one that follows it.
    pub fn next(&mut self) -> (event: Option<DrawTileEvent>)
        ensures
            final(self).grid_shape() == old(self).grid_shape(),
            old(self).upcoming() matches Some(tile) ==> event == Some(DrawTileEvent(tile))
                && final(self).upcoming() == Self::successor(old(self).grid_shape(), tile),
            old(self).upcoming() is None ==> event is None && final(self).upcoming() is None,
    {
        if self.y < self.rows && self.x < self.columns {
            let event = DrawTileEvent((self.x, self.y));
            if self.x + 1 < self.columns {
                self.x = self.x + 1;
            } else {
                self.x = 0;
                self.y = self.y + 1;
            }
            Some(event)
        } else {
            None
        }
    }
}

} // verus!
