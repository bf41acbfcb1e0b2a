//! The in-memory level model: sectors, walls, the derived wall primitives and
//! the error taxonomy shared by the parser and the geometry pass.
//!
//! All spatial quantities are fixed-point integers in thousandths of a map
//! unit (a coordinate of `1500` means one and a half units); yaw angles are in
//! thousandths of a degree.

use vstd::prelude::*;

verus! {

/// Largest magnitude, in thousandths of a unit, that a parsed coordinate,
/// height or angle field may have. Keeping every stored quantity within this
/// bound lets the geometry pass square and sum coordinates in 64-bit
/// arithmetic without overflow.
pub const COORD_LIMIT: i64 = 1_000_000_000;

/// Which section of the level file the reader is currently inside.
/// Records seen while still `SEARCHING` (before any section header) are
/// dropped without error.
#[derive(Clone, Copy, Debug, PartialEq, Eq, Structural)]
pub enum ReaderMode {
    SEARCHING,
    SECTORS,
    WALLS,
}

/// A directed 2D line segment bounding a sector. Coordinates live in the XZ
/// plane; the vertical extent is owned by the sector. A negative `portalid`
/// marks a solid (rendered) wall; a non-negative one names the neighbouring
/// sector the wall connects to.
#[derive(Clone, Debug, PartialEq)]
pub struct Wall {
    pub id: usize,
    pub xstart: i64,
    pub zstart: i64,
    pub xend: i64,
    pub zend: i64,
    pub portalid: i32,
    pub tex: Vec<u8>,
}

/// Specification-level mirror of [`Wall`], with unbounded integers and a
/// mathematical byte sequence for the texture reference.
pub ghost struct WallV {
    pub id: int,
    pub xstart: int,
    pub zstart: int,
    pub xend: int,
    pub zend: int,
    pub portalid: int,
    pub tex: Seq<u8>,
}

impl View for Wall {
    type V = WallV;

    open spec fn view(&self) -> WallV {
        WallV {
            id: self.id as int,
            xstart: self.xstart as int,
            zstart: self.zstart as int,
            xend: self.xend as int,
            zend: self.zend as int,
            portalid: self.portalid as int,
            tex: self.tex@,
        }
    }
}

/// A closed region of the XZ plane with constant floor and ceiling height.
/// Its walls are the contiguous range `[firstwall, firstwall + nwalls)` of
/// the map's global wall list; the sector never owns wall copies.
#[derive(Clone, Copy, Debug, PartialEq)]
pub struct Sector {
    pub id: usize,
    pub firstwall: usize,
    pub nwalls: usize,
    pub floor_height: i64,
    pub ceil_height: i64,
    pub rot_wall_id: i32,
    pub rot_wall_ang: i64,
}

/// Specification-level mirror of [`Sector`].
pub ghost struct SectorV {
    pub id: int,
    pub firstwall: int,
    pub nwalls: int,
    pub floor_height: int,
    pub ceil_height: int,
    pub rot_wall_id: int,
    pub rot_wall_ang: int,
}

impl View for Sector {
    type V = SectorV;

    open spec fn view(&self) -> SectorV {
        SectorV {
            id: self.id as int,
            firstwall: self.firstwall as int,
            nwalls: self.nwalls as int,
            floor_height: self.floor_height as int,
            ceil_height: self.ceil_height as int,
            rot_wall_id: self.rot_wall_id as int,
            rot_wall_ang: self.rot_wall_ang as int,
        }
    }
}

/// The renderable description derived from one solid wall: the box centre,
/// its vertical extent, its length along the segment and its yaw. Centre
/// coordinates and lengths are in thousandths of a unit, `yaw` in thousandths
/// of a degree.
#[derive(Clone, Debug, PartialEq)]
pub struct WallPrimitive {
    pub center_x: i64,
    pub center_y: i64,
    pub center_z: i64,
    pub height: i64,
    pub length: i64,
    pub yaw: i64,
    pub tex: Vec<u8>,
}

/// Specification-level mirror of [`WallPrimitive`].
pub ghost struct WallPrimitiveV {
    pub center_x: int,
    pub center_y: int,
    pub center_z: int,
    pub height: int,
    pub length: int,
    pub yaw: int,
    pub tex: Seq<u8>,
}

impl View for WallPrimitive {
    type V = WallPrimitiveV;

    open spec fn view(&self) -> WallPrimitiveV {
        WallPrimitiveV {
            center_x: self.center_x as int,
            center_y: self.center_y as int,
            center_z: self.center_z as int,
            height: self.height as int,
            length: self.length as int,
            yaw: self.yaw as int,
            tex: self.tex@,
        }
    }
}

/// Everything that can go wrong while loading a level or deriving its
/// geometry. Loading is all-or-nothing: the first failure aborts it and no
/// partial map is returned. Reading the source file is the caller's business,
/// so I/O failures never appear here.
#[derive(Clone, Debug, PartialEq)]
pub enum MapError {
    /// A record line had fewer whitespace-separated fields than its section
    /// requires. `line` is 1-based.
    MalformedRecord { line: usize, section: ReaderMode, expected: usize, actual: usize },
    /// A field failed to parse as its expected numeric type, or its value is
    /// outside the representable fixed-point range. `field` is the 0-based
    /// position within the record; `raw` holds the offending token's bytes.
    InvalidFieldValue { line: usize, section: ReaderMode, field: usize, raw: Vec<u8> },
    /// A sector record declared a ceiling below its floor.
    InvalidSectorHeights { line: usize, floor_height: i64, ceil_height: i64 },
    /// A sector's wall range points past the end of the global wall list.
    SectorWallRangeOutOfBounds { sector: usize, firstwall: usize, nwalls: usize, wall_total: usize },
    /// A solid wall with coinciding endpoints was met during geometry
    /// generation; `wall` is its index in the global wall list.
    DegenerateWall { wall: usize, id: usize },
}

/// Specification-level mirror of [`MapError`].
pub ghost enum MapErrorV {
    MalformedRecord { line: int, section: ReaderMode, expected: int, actual: int },
    InvalidFieldValue { line: int, section: ReaderMode, field: int, raw: Seq<u8> },
    InvalidSectorHeights { line: int, floor_height: int, ceil_height: int },
    SectorWallRangeOutOfBounds { sector: int, firstwall: int, nwalls: int, wall_total: int },
    DegenerateWall { wall: int, id: int },
}

impl View for MapError {
    type V = MapErrorV;

    open spec fn view(&self) -> MapErrorV {
        match *self {
            MapError::MalformedRecord { line, section, expected, actual } => {
                MapErrorV::MalformedRecord {
                    line: line as int,
                    section,
                    expected: expected as int,
                    actual: actual as int,
                }
            },
            MapError::InvalidFieldValue { line, section, field, ref raw } => {
                MapErrorV::InvalidFieldValue {
                    line: line as int,
                    section,
                    field: field as int,
                    raw: raw@,
                }
            },
            MapError::InvalidSectorHeights { line, floor_height, ceil_height } => {
                MapErrorV::InvalidSectorHeights {
                    line: line as int,
                    floor_height: floor_height as int,
                    ceil_height: ceil_height as int,
                }
            },
            MapError::SectorWallRangeOutOfBounds { sector, firstwall, nwalls, wall_total } => {
                MapErrorV::SectorWallRangeOutOfBounds {
                    sector: sector as int,
                    firstwall: firstwall as int,
                    nwalls: nwalls as int,
                    wall_total: wall_total as int,
                }
            },
            MapError::DegenerateWall { wall, id } => {
                MapErrorV::DegenerateWall { wall: wall as int, id: id as int }
            },
        }
    }
}

/// The sequence of wall views underlying a wall list.
pub open spec fn wall_views(ws: Seq<Wall>) -> Seq<WallV> {
    ws.map_values(|w: Wall| w@)
}

/// The sequence of sector views underlying a sector list.
pub open spec fn sector_views(ss: Seq<Sector>) -> Seq<SectorV> {
    ss.map_values(|s: Sector| s@)
}

/// The sequence of primitive views underlying a primitive list.
pub open spec fn prim_views(ps: Seq<WallPrimitive>) -> Seq<WallPrimitiveV> {
    ps.map_values(|p: WallPrimitive| p@)
}

/// A wall is well formed when every coordinate is within the fixed-point
/// range the parser enforces.
pub open spec fn wf_wall(w: WallV) -> bool {
    &&& -COORD_LIMIT <= w.xstart <= COORD_LIMIT
    &&& -COORD_LIMIT <= w.zstart <= COORD_LIMIT
    &&& -COORD_LIMIT <= w.xend <= COORD_LIMIT
    &&& -COORD_LIMIT <= w.zend <= COORD_LIMIT
}

/// A sector is well formed when its heights are within the fixed-point range
/// and its ceiling is not below its floor.
pub open spec fn wf_sector(s: SectorV) -> bool {
    &&& -COORD_LIMIT <= s.floor_height <= COORD_LIMIT
    &&& -COORD_LIMIT <= s.ceil_height <= COORD_LIMIT
    &&& s.floor_height <= s.ceil_height
}

/// The root aggregate: all walls in insertion order, all sectors slicing into
/// that order, and the primitives of the most recent geometry pass.
#[derive(Clone, Debug, PartialEq)]
pub struct LevelMap {
    pub name: String,
    pub sectors: Vec<Sector>,
    pub walls: Vec<Wall>,
    pub wallmodels: Vec<WallPrimitive>,
}

impl LevelMap {
    /// Every stored sector and wall satisfies its well-formedness bound. The
    /// parser establishes this; the geometry pass relies on it to rule out
    /// arithmetic overflow.
    pub open spec fn wf(&self) -> bool {
        &&& forall|i: int| 0 <= i < self.sectors@.len() ==> wf_sector(#[trigger] self.sectors@[i]@)
        &&& forall|i: int| 0 <= i < self.walls@.len() ==> wf_wall(#[trigger] self.walls@[i]@)
    }
}

} // verus!
