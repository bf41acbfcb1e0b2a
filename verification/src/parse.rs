//! The verified level-file reader: line classification, record tokenization,
//! positional field decoding, and the single forward pass that folds a byte
//! buffer into a [`LevelMap`].
//!
//! The whole pass is specified by [`spec_parse`], a recursion over the input
//! that consumes one line at a time and threads the current section and the
//! partial sector and wall lists through [`step_line`]. Parsing is
//! all-or-nothing: the first bad record aborts with a located error.

use vstd::prelude::*;

use crate::level::{
    sector_views, wall_views, wf_sector, wf_wall, LevelMap, MapError, MapErrorV, ReaderMode,
    Sector, SectorV, Wall, WallV,
};
use crate::num::{
    find_byte, find_from, fixed_field, parse_fixed, parse_i32_token, parse_usize_token,
    sint_field, uint_field,
};

verus! {

/// A line with its trailing carriage return removed, as the line splitter
/// does for `\r\n` endings.
pub open spec fn strip_cr(l: Seq<u8>) -> Seq<u8> {
    if l.len() > 0 && l.last() == 13 {
        l.drop_last()
    } else {
        l
    }
}

/// The end (exclusive) of the line starting at `i`: the next line feed, or
/// the end of the input.
pub open spec fn line_end(s: Seq<u8>, i: int) -> int {
    let j = find_from(s, i, 10);
    if j < i {
        i
    } else {
        j
    }
}

/// The bytes of the line starting at `i`. A carriage return is stripped only
/// before a line feed, never at the end of the input.
pub open spec fn line_at(s: Seq<u8>, i: int) -> Seq<u8> {
    let j = line_end(s, i);
    if j < s.len() {
        strip_cr(s.subrange(i, j))
    } else {
        s.subrange(i, s.len() as int)
    }
}

/// `i` is the first byte of a line: the start of the input, or the byte
/// right after a line feed.
pub open spec fn line_start(s: Seq<u8>, i: int) -> bool {
    i == 0 || (0 < i <= s.len() && s[i - 1] == 10)
}

/// `pat` occurs in `l` starting at position `i`.
pub open spec fn matches_at(l: Seq<u8>, pat: Seq<u8>, i: int) -> bool {
    forall|j: int| 0 <= j < pat.len() ==> l[i + j] == #[trigger] pat[j]
}

/// `pat` occurs somewhere in `l`.
pub open spec fn contains_pat(l: Seq<u8>, pat: Seq<u8>) -> bool {
    exists|i: int| 0 <= i && i + pat.len() <= l.len() && matches_at(l, pat, i)
}

/// The section marker `[SECTORS]`.
pub open spec fn sectors_marker() -> Seq<u8> {
    seq![91u8, 83u8, 69u8, 67u8, 84u8, 79u8, 82u8, 83u8, 93u8]
}

/// The section marker `[WALLS]`.
pub open spec fn walls_marker() -> Seq<u8> {
    seq![91u8, 87u8, 65u8, 76u8, 76u8, 83u8, 93u8]
}

/// ASCII whitespace, as the record splitter understands it.
pub open spec fn is_space(b: u8) -> bool {
    b == 32 || b == 9 || b == 10 || b == 12 || b == 13
}

/// The end (exclusive) of the whitespace-free token starting at `i`.
pub open spec fn token_end(l: Seq<u8>, i: int) -> int
    decreases l.len() - i,
{
    if i < 0 || i >= l.len() {
        l.len() as int
    } else if is_space(l[i]) {
        i
    } else {
        token_end(l, i + 1)
    }
}

/// The record's fields from position `i` on: maximal runs of non-whitespace
/// bytes, in order, with all whitespace discarded.
pub open spec fn tokens_from(l: Seq<u8>, i: int) -> Seq<Seq<u8>>
    decreases l.len() - i,
{
    if i < 0 || i >= l.len() {
        Seq::empty()
    } else if is_space(l[i]) {
        tokens_from(l, i + 1)
    } else {
        let j0 = token_end(l, i);
        let j = if j0 < i + 1 {
            i + 1
        } else if j0 > l.len() {
            l.len() as int
        } else {
            j0
        };
        seq![l.subrange(i, j)] + tokens_from(l, j)
    }
}

/// The views of a list of owned tokens.
pub open spec fn toks_views(ts: Seq<Vec<u8>>) -> Seq<Seq<u8>> {
    ts.map_values(|t: Vec<u8>| t@)
}

/// `find_from` stays within `[i, len]`, lands on `b` when it lands inside the
/// input, and skips no earlier occurrence.
pub proof fn lemma_find_from_bounds(t: Seq<u8>, i: int, b: u8)
    requires
        0 <= i <= t.len(),
    ensures
        i <= find_from(t, i, b) <= t.len(),
        find_from(t, i, b) < t.len() ==> t[find_from(t, i, b)] == b,
        forall|k: int| i <= k < find_from(t, i, b) ==> t[k] != b,
    decreases t.len() - i,
{
    if i < t.len() && t[i] != b {
        lemma_find_from_bounds(t, i + 1, b);
    }
}

/// `token_end` stays within `[i, len]`, stops on whitespace when it stops
/// inside the line, and crosses no whitespace.
pub proof fn lemma_token_end_bounds(l: Seq<u8>, i: int)
    requires
        0 <= i <= l.len(),
    ensures
        i <= token_end(l, i) <= l.len(),
        token_end(l, i) < l.len() ==> is_space(l[token_end(l, i)]),
        forall|k: int| i <= k < token_end(l, i) ==> !is_space(l[k]),
    decreases l.len() - i,
{
    if i < l.len() && !is_space(l[i]) {
        lemma_token_end_bounds(l, i + 1);
    }
}

/// Copies the byte range `[a, b)` of `t` into a fresh vector.
pub fn subvec(t: &Vec<u8>, a: usize, b: usize) -> (r: Vec<u8>)
    requires
        a <= b <= t@.len(),
    ensures
        r@ == t@.subrange(a as int, b as int),
{
    let mut r: Vec<u8> = Vec::new();
    let mut i = a;
    while i < b
        invariant
            a <= i <= b <= t@.len(),
            r@ == t@.subrange(a as int, i as int),
        decreases b - i,
    {
        r.push(t[i]);
        proof {
            assert(t@.subrange(a as int, i + 1) =~= t@.subrange(a as int, i as int).push(
                t@[i as int],
            ));
        }
        i = i + 1;
    }
    r
}

/// Copies a byte vector.
pub fn copy_bytes(t: &Vec<u8>) -> (r: Vec<u8>)
    ensures
        r@ == t@,
{
    let r = subvec(t, 0, t.len());
    proof {
        assert(t@.subrange(0, t@.len() as int) =~= t@);
    }
    r
}

/// Whether `pat` occurs at position `i` of `l`.
fn match_at(l: &Vec<u8>, pat: &Vec<u8>, i: usize) -> (r: bool)
    requires
        i + pat@.len() <= l@.len(),
    ensures
        r == matches_at(l@, pat@, i as int),
{
    let n = l.len();
    assert(n == l@.len());
    let mut j: usize = 0;
    while j < pat.len()
        invariant
            0 <= j <= pat@.len(),
            i + pat@.len() <= l@.len() <= usize::MAX,
            forall|k: int| 0 <= k < j ==> l@[i + k] == #[trigger] pat@[k],
        decreases pat@.len() - j,
    {
        if l[i + j] != pat[j] {
            return false;
        }
        j = j + 1;
    }
    true
}

/// Whether `pat` occurs anywhere in `l`.
fn contains_marker(l: &Vec<u8>, pat: &Vec<u8>) -> (r: bool)
    requires
        pat@.len() >= 1,
    ensures
        r == contains_pat(l@, pat@),
{
    if l.len() < pat.len() {
        return false;
    }
    let last_start = l.len() - pat.len();
    let mut i: usize = 0;
    while i <= last_start
        invariant
            0 <= i <= last_start + 1,
            last_start == l@.len() - pat@.len(),
            pat@.len() >= 1,
            l@.len() <= usize::MAX,
            forall|k: int| 0 <= k < i ==> !matches_at(l@, pat@, k),
        decreases last_start + 1 - i,
    {
        if match_at(l, pat, i) {
            return true;
        }
        i = i + 1;
    }
    false
}

/// Builds the `[SECTORS]` marker bytes.
fn sectors_marker_bytes() -> (r: Vec<u8>)
    ensures
        r@ == sectors_marker(),
{
    let mut v: Vec<u8> = Vec::new();
    v.push(91);
    v.push(83);
    v.push(69);
    v.push(67);
    v.push(84);
    v.push(79);
    v.push(82);
    v.push(83);
    v.push(93);
    proof {
        assert(v@ =~= sectors_marker());
    }
    v
}

/// Builds the `[WALLS]` marker bytes.
fn walls_marker_bytes() -> (r: Vec<u8>)
    ensures
        r@ == walls_marker(),
{
    let mut v: Vec<u8> = Vec::new();
    v.push(91);
    v.push(87);
    v.push(65);
    v.push(76);
    v.push(76);
    v.push(83);
    v.push(93);
    proof {
        assert(v@ =~= walls_marker());
    }
    v
}

/// Whether `b` is ASCII whitespace.
fn is_space_byte(b: u8) -> (r: bool)
    ensures
        r == is_space(b),
{
    b == 32 || b == 9 || b == 10 || b == 12 || b == 13
}

/// Splits a line into its whitespace-separated fields.
pub fn tokenize(l: &Vec<u8>) -> (r: Vec<Vec<u8>>)
    ensures
        toks_views(r@) == tokens_from(l@, 0),
{
    let mut r: Vec<Vec<u8>> = Vec::new();
    let mut i: usize = 0;
    proof {
        assert(toks_views(r@) =~= Seq::<Seq<u8>>::empty());
        assert(toks_views(r@) + tokens_from(l@, 0) =~= tokens_from(l@, 0));
    }
    while i < l.len()
        invariant
            0 <= i <= l@.len(),
            tokens_from(l@, 0) == toks_views(r@) + tokens_from(l@, i as int),
        decreases l@.len() - i,
    {
        let b = l[i];
        if is_space_byte(b) {
            i = i + 1;
        } else {
            let mut j = i + 1;
            proof {
                lemma_token_end_bounds(l@, i as int);
                assert(token_end(l@, i as int) == token_end(l@, i + 1));
            }
            while j < l.len() && !is_space_byte(l[j])
                invariant
                    i < j <= l@.len(),
                    token_end(l@, i as int) == token_end(l@, j as int),
                decreases l@.len() - j,
            {
                j = j + 1;
            }
            proof {
                // The scan stopped either at the end of the line or on a
                // whitespace byte, which is exactly where `token_end` stops.
                assert(token_end(l@, j as int) == j);
                assert(token_end(l@, i as int) == j);
            }
            let tok = subvec(l, i, j);
            let ghost old_r = r@;
            r.push(tok);
            proof {
                assert(toks_views(r@) =~= toks_views(old_r).push(tok@));
                assert(tokens_from(l@, i as int) == seq![l@.subrange(i as int, j as int)]
                    + tokens_from(l@, j as int));
                assert(toks_views(r@) + tokens_from(l@, j as int) =~= toks_views(old_r)
                    + tokens_from(l@, i as int));
            }
            i = j;
        }
    }
    proof {
        assert(tokens_from(l@, i as int) =~= Seq::<Seq<u8>>::empty());
        assert(toks_views(r@) + tokens_from(l@, i as int) =~= toks_views(r@));
    }
    r
}

/// The invalid-field error for position `k` of a record.
pub open spec fn field_err(line: int, section: ReaderMode, k: int, toks: Seq<Seq<u8>>) -> MapErrorV {
    MapErrorV::InvalidFieldValue { line, section, field: k, raw: toks[k] }
}

/// What decoding a sector record yields: the seven positional fields
/// `id firstwall nwalls floor ceil rot_wall_id rot_wall_ang`, or the first
/// error met going left to right. Extra fields are ignored.
pub open spec fn spec_decode_sector(toks: Seq<Seq<u8>>, line: int) -> Result<SectorV, MapErrorV> {
    if toks.len() < 7 {
        Err(MapErrorV::MalformedRecord {
            line,
            section: ReaderMode::SECTORS,
            expected: 7,
            actual: toks.len() as int,
        })
    } else {
        match uint_field(toks[0], usize::MAX as int) {
            None => Err(field_err(line, ReaderMode::SECTORS, 0, toks)),
            Some(id) => match uint_field(toks[1], usize::MAX as int) {
                None => Err(field_err(line, ReaderMode::SECTORS, 1, toks)),
                Some(firstwall) => match uint_field(toks[2], usize::MAX as int) {
                    None => Err(field_err(line, ReaderMode::SECTORS, 2, toks)),
                    Some(nwalls) => match fixed_field(toks[3]) {
                        None => Err(field_err(line, ReaderMode::SECTORS, 3, toks)),
                        Some(floor_height) => match fixed_field(toks[4]) {
                            None => Err(field_err(line, ReaderMode::SECTORS, 4, toks)),
                            Some(ceil_height) => match sint_field(
                                toks[5],
                                i32::MIN as int,
                                i32::MAX as int,
                            ) {
                                None => Err(field_err(line, ReaderMode::SECTORS, 5, toks)),
                                Some(rot_wall_id) => match fixed_field(toks[6]) {
                                    None => Err(field_err(line, ReaderMode::SECTORS, 6, toks)),
                                    Some(rot_wall_ang) => if ceil_height < floor_height {
                                        Err(MapErrorV::InvalidSectorHeights {
                                            line,
                                            floor_height,
                                            ceil_height,
                                        })
                                    } else {
                                        Ok(SectorV {
                                            id,
                                            firstwall,
                                            nwalls,
                                            floor_height,
                                            ceil_height,
                                            rot_wall_id,
                                            rot_wall_ang,
                                        })
                                    },
                                },
                            },
                        },
                    },
                },
            },
        }
    }
}

/// What decoding a wall record yields: the six positional fields
/// `id xstart zstart xend zend portalid`, an optional seventh
/// texture-reference field, or the first error met going left to right.
pub open spec fn spec_decode_wall(toks: Seq<Seq<u8>>, line: int) -> Result<WallV, MapErrorV> {
    if toks.len() < 6 {
        Err(MapErrorV::MalformedRecord {
            line,
            section: ReaderMode::WALLS,
            expected: 6,
            actual: toks.len() as int,
        })
    } else {
        match uint_field(toks[0], usize::MAX as int) {
            None => Err(field_err(line, ReaderMode::WALLS, 0, toks)),
            Some(id) => match fixed_field(toks[1]) {
                None => Err(field_err(line, ReaderMode::WALLS, 1, toks)),
                Some(xstart) => match fixed_field(toks[2]) {
                    None => Err(field_err(line, ReaderMode::WALLS, 2, toks)),
                    Some(zstart) => match fixed_field(toks[3]) {
                        None => Err(field_err(line, ReaderMode::WALLS, 3, toks)),
                        Some(xend) => match fixed_field(toks[4]) {
                            None => Err(field_err(line, ReaderMode::WALLS, 4, toks)),
                            Some(zend) => match sint_field(
                                toks[5],
                                i32::MIN as int,
                                i32::MAX as int,
                            ) {
                                None => Err(field_err(line, ReaderMode::WALLS, 5, toks)),
                                Some(portalid) => Ok(WallV {
                                    id,
                                    xstart,
                                    zstart,
                                    xend,
                                    zend,
                                    portalid,
                                    tex: if toks.len() >= 7 {
                                        toks[6]
                                    } else {
                                        Seq::empty()
                                    },
                                }),
                            },
                        },
                    },
                },
            },
        }
    }
}

/// Decodes a sector record, mirroring [`spec_decode_sector`].
pub fn decode_sector(toks: &Vec<Vec<u8>>, line_no: usize) -> (r: Result<Sector, MapError>)
    ensures
        match r {
            Ok(s) => spec_decode_sector(toks_views(toks@), line_no as int) == Ok::<
                SectorV,
                MapErrorV,
            >(s@) && wf_sector(s@),
            Err(e) => spec_decode_sector(toks_views(toks@), line_no as int) == Err::<
                SectorV,
                MapErrorV,
            >(e@),
        },
{
    if toks.len() < 7 {
        return Err(
            MapError::MalformedRecord {
                line: line_no,
                section: ReaderMode::SECTORS,
                expected: 7,
                actual: toks.len(),
            },
        );
    }
    let id = match parse_usize_token(&toks[0]) {
        Some(v) => v,
        None => return Err(
            MapError::InvalidFieldValue {
                line: line_no,
                section: ReaderMode::SECTORS,
                field: 0,
                raw: copy_bytes(&toks[0]),
            },
        ),
    };
    let firstwall = match parse_usize_token(&toks[1]) {
        Some(v) => v,
        None => return Err(
            MapError::InvalidFieldValue {
                line: line_no,
                section: ReaderMode::SECTORS,
                field: 1,
                raw: copy_bytes(&toks[1]),
            },
        ),
    };
    let nwalls = match parse_usize_token(&toks[2]) {
        Some(v) => v,
        None => return Err(
            MapError::InvalidFieldValue {
                line: line_no,
                section: ReaderMode::SECTORS,
                field: 2,
                raw: copy_bytes(&toks[2]),
            },
        ),
    };
    let floor_height = match parse_fixed(&toks[3]) {
        Some(v) => v,
        None => return Err(
            MapError::InvalidFieldValue {
                line: line_no,
                section: ReaderMode::SECTORS,
                field: 3,
                raw: copy_bytes(&toks[3]),
            },
        ),
    };
    let ceil_height = match parse_fixed(&toks[4]) {
        Some(v) => v,
        None => return Err(
            MapError::InvalidFieldValue {
                line: line_no,
                section: ReaderMode::SECTORS,
                field: 4,
                raw: copy_bytes(&toks[4]),
            },
        ),
    };
    let rot_wall_id = match parse_i32_token(&toks[5]) {
        Some(v) => v,
        None => return Err(
            MapError::InvalidFieldValue {
                line: line_no,
                section: ReaderMode::SECTORS,
                field: 5,
                raw: copy_bytes(&toks[5]),
            },
        ),
    };
    let rot_wall_ang = match parse_fixed(&toks[6]) {
        Some(v) => v,
        None => return Err(
            MapError::InvalidFieldValue {
                line: line_no,
                section: ReaderMode::SECTORS,
                field: 6,
                raw: copy_bytes(&toks[6]),
            },
        ),
    };
    if ceil_height < floor_height {
        return Err(MapError::InvalidSectorHeights { line: line_no, floor_height, ceil_height });
    }
    Ok(Sector { id, firstwall, nwalls, floor_height, ceil_height, rot_wall_id, rot_wall_ang })
}

/// Decodes a wall record, mirroring [`spec_decode_wall`].
pub fn decode_wall(toks: &Vec<Vec<u8>>, line_no: usize) -> (r: Result<Wall, MapError>)
    ensures
        match r {
            Ok(w) => spec_decode_wall(toks_views(toks@), line_no as int) == Ok::<
                WallV,
                MapErrorV,
            >(w@) && wf_wall(w@),
            Err(e) => spec_decode_wall(toks_views(toks@), line_no as int) == Err::<
                WallV,
                MapErrorV,
            >(e@),
        },
{
    if toks.len() < 6 {
        return Err(
            MapError::MalformedRecord {
                line: line_no,
                section: ReaderMode::WALLS,
                expected: 6,
                actual: toks.len(),
            },
        );
    }
    let id = match parse_usize_token(&toks[0]) {
        Some(v) => v,
        None => return Err(
            MapError::InvalidFieldValue {
                line: line_no,
                section: ReaderMode::WALLS,
                field: 0,
                raw: copy_bytes(&toks[0]),
            },
        ),
    };
    let xstart = match parse_fixed(&toks[1]) {
        Some(v) => v,
        None => return Err(
            MapError::InvalidFieldValue {
                line: line_no,
                section: ReaderMode::WALLS,
                field: 1,
                raw: copy_bytes(&toks[1]),
            },
        ),
    };
    let zstart = match parse_fixed(&toks[2]) {
        Some(v) => v,
        None => return Err(
            MapError::InvalidFieldValue {
                line: line_no,
                section: ReaderMode::WALLS,
                field: 2,
                raw: copy_bytes(&toks[2]),
            },
        ),
    };
    let xend = match parse_fixed(&toks[3]) {
        Some(v) => v,
        None => return Err(
            MapError::InvalidFieldValue {
                line: line_no,
                section: ReaderMode::WALLS,
                field: 3,
                raw: copy_bytes(&toks[3]),
            },
        ),
    };
    let zend = match parse_fixed(&toks[4]) {
        Some(v) => v,
        None => return Err(
            MapError::InvalidFieldValue {
                line: line_no,
                section: ReaderMode::WALLS,
                field: 4,
                raw: copy_bytes(&toks[4]),
            },
        ),
    };
    let portalid = match parse_i32_token(&toks[5]) {
        Some(v) => v,
        None => return Err(
            MapError::InvalidFieldValue {
                line: line_no,
                section: ReaderMode::WALLS,
                field: 5,
                raw: copy_bytes(&toks[5]),
            },
        ),
    };
    let tex = if toks.len() >= 7 {
        copy_bytes(&toks[6])
    } else {
        Vec::new()
    };
    Ok(Wall { id, xstart, zstart, xend, zend, portalid, tex })
}

/// How a line is treated before any record decoding happens.
pub ghost enum LineClass {
    /// Empty, or a `//` comment: dropped.
    Skip,
    /// Contains the `[SECTORS]` marker: switches the section.
    SectorHeader,
    /// Contains the `[WALLS]` marker: switches the section.
    WallHeader,
    /// Anything else: a record of the current section.
    Record,
}

/// Classifies one line. A comment must start at the very first byte; a header
/// marker may stand anywhere in the line; `[SECTORS]` wins over `[WALLS]`
/// when a line contains both.
pub open spec fn line_class(l: Seq<u8>) -> LineClass {
    if l.len() == 0 {
        LineClass::Skip
    } else if l.len() >= 2 && l[0] == 47 && l[1] == 47 {
        LineClass::Skip
    } else if contains_pat(l, sectors_marker()) {
        LineClass::SectorHeader
    } else if contains_pat(l, walls_marker()) {
        LineClass::WallHeader
    } else {
        LineClass::Record
    }
}

/// The reader's state between lines: the active section and the sector and
/// wall lists accumulated so far.
pub ghost struct PState {
    pub mode: ReaderMode,
    pub sectors: Seq<SectorV>,
    pub walls: Seq<WallV>,
}

/// The state before any line has been read.
pub open spec fn init_pstate() -> PState {
    PState { mode: ReaderMode::SEARCHING, sectors: Seq::empty(), walls: Seq::empty() }
}

/// The state a parser holding `sectors` and `walls` in `mode` corresponds to.
pub open spec fn pstate_of(mode: ReaderMode, sectors: Seq<Sector>, walls: Seq<Wall>) -> PState {
    PState { mode, sectors: sector_views(sectors), walls: wall_views(walls) }
}

/// Consumes one classified line: headers switch the section, skipped lines
/// change nothing, records decode into the active section's list, and records
/// met while still searching for a first header are dropped without error.
pub open spec fn step_line(st: PState, l: Seq<u8>, line_no: int) -> Result<PState, MapErrorV> {
    match line_class(l) {
        LineClass::Skip => Ok(st),
        LineClass::SectorHeader => Ok(
            PState { mode: ReaderMode::SECTORS, sectors: st.sectors, walls: st.walls },
        ),
        LineClass::WallHeader => Ok(
            PState { mode: ReaderMode::WALLS, sectors: st.sectors, walls: st.walls },
        ),
        LineClass::Record => match st.mode {
            ReaderMode::SEARCHING => Ok(st),
            ReaderMode::SECTORS => match spec_decode_sector(tokens_from(l, 0), line_no) {
                Ok(s) => Ok(
                    PState { mode: st.mode, sectors: st.sectors.push(s), walls: st.walls },
                ),
                Err(e) => Err(e),
            },
            ReaderMode::WALLS => match spec_decode_wall(tokens_from(l, 0), line_no) {
                Ok(w) => Ok(
                    PState { mode: st.mode, sectors: st.sectors, walls: st.walls.push(w) },
                ),
                Err(e) => Err(e),
            },
        },
    }
}

/// Folds [`step_line`] over the input from byte position `i` on, one line per
/// step, counting lines from `line_no`. The first error aborts the fold.
pub open spec fn parse_from(s: Seq<u8>, i: int, st: PState, line_no: int) -> Result<
    PState,
    MapErrorV,
>
    decreases s.len() - i,
{
    if i < 0 || i >= s.len() {
        Ok(st)
    } else {
        let j = line_end(s, i);
        match step_line(st, line_at(s, i), line_no) {
            Err(e) => Err(e),
            Ok(st2) => if j >= s.len() {
                Ok(st2)
            } else {
                parse_from(s, j + 1, st2, line_no + 1)
            },
        }
    }
}

/// What parsing a whole byte buffer yields: the final reader state, or the
/// first error, with 1-based line numbers.
pub open spec fn spec_parse(s: Seq<u8>) -> Result<PState, MapErrorV> {
    parse_from(s, 0, init_pstate(), 1)
}

impl LevelMap {
    /// Reads a level from the bytes of its source text. Returns the fully
    /// populated map, or the first error with its location; no partial map is
    /// ever returned. The derived primitive list starts empty.
    pub fn new(name: String, src: &Vec<u8>) -> (r: Result<LevelMap, MapError>)
        requires
            src@.len() < usize::MAX,
        ensures
            match r {
                Ok(m) => {
                    &&& spec_parse(src@) matches Ok(st) && st.sectors == sector_views(m.sectors@)
                        && st.walls == wall_views(m.walls@)
                    &&& m.wallmodels@ == Seq::<crate::level::WallPrimitive>::empty()
                    &&& m.name == name
                    &&& m.wf()
                },
                Err(e) => spec_parse(src@) == Err::<PState, MapErrorV>(e@),
            },
    {
        let sect_pat = sectors_marker_bytes();
        let wall_pat = walls_marker_bytes();
        let mut mode = ReaderMode::SEARCHING;
        let mut sectors: Vec<Sector> = Vec::new();
        let mut walls: Vec<Wall> = Vec::new();
        let mut i: usize = 0;
        let mut line_no: usize = 1;
        proof {
            assert(sector_views(sectors@) =~= Seq::<SectorV>::empty());
            assert(wall_views(walls@) =~= Seq::<WallV>::empty());
            assert(pstate_of(mode, sectors@, walls@) == init_pstate());
        }
        while i < src.len()
            invariant
                i <= src@.len() < usize::MAX,
                1 <= line_no <= i + 1,
                sect_pat@ == sectors_marker(),
                wall_pat@ == walls_marker(),
                spec_parse(src@) == parse_from(
                    src@,
                    i as int,
                    pstate_of(mode, sectors@, walls@),
                    line_no as int,
                ),
                forall|k: int| 0 <= k < sectors@.len() ==> wf_sector(#[trigger] sectors@[k]@),
                forall|k: int| 0 <= k < walls@.len() ==> wf_wall(#[trigger] walls@[k]@),
            decreases src@.len() - i,
        {
            let ghost st = pstate_of(mode, sectors@, walls@);
            let j = find_byte(src, i, 10);
            proof {
                lemma_find_from_bounds(src@, i as int, 10);
                assert(line_end(src@, i as int) == j);
            }
            let e = if j < src.len() && j > i && src[j - 1] == 13 {
                j - 1
            } else {
                j
            };
            let line = subvec(src, i, e);
            proof {
                if j < src.len() {
                    if j > i && src@[j - 1] == 13 {
                        assert(src@.subrange(i as int, j as int).last() == src@[j - 1]);
                        assert(src@.subrange(i as int, j as int).drop_last() =~= src@.subrange(
                            i as int,
                            j - 1,
                        ));
                        assert(line@ =~= line_at(src@, i as int));
                    } else {
                        assert(line@ =~= line_at(src@, i as int));
                    }
                } else {
                    assert(j == src@.len());
                    assert(line@ =~= line_at(src@, i as int));
                }
            }
            let ghost cls = line_class(line@);
            if line.len() == 0 {
                proof {
                    assert(cls is Skip);
                    assert(step_line(st, line@, line_no as int) == Ok::<PState, MapErrorV>(st));
                }
            } else if line.len() >= 2 && line[0] == 47 && line[1] == 47 {
                proof {
                    assert(cls is Skip);
                    assert(step_line(st, line@, line_no as int) == Ok::<PState, MapErrorV>(st));
                }
            } else if contains_marker(&line, &sect_pat) {
                mode = ReaderMode::SECTORS;
                proof {
                    assert(cls is SectorHeader);
                    assert(step_line(st, line@, line_no as int) == Ok::<PState, MapErrorV>(
                        pstate_of(mode, sectors@, walls@),
                    ));
                }
            } else if contains_marker(&line, &wall_pat) {
                mode = ReaderMode::WALLS;
                proof {
                    assert(cls is WallHeader);
                    assert(step_line(st, line@, line_no as int) == Ok::<PState, MapErrorV>(
                        pstate_of(mode, sectors@, walls@),
                    ));
                }
            } else {
                proof {
                    assert(cls is Record);
                }
                match mode {
                    ReaderMode::SEARCHING => {
                        proof {
                            assert(step_line(st, line@, line_no as int) == Ok::<
                                PState,
                                MapErrorV,
                            >(st));
                        }
                    },
                    ReaderMode::SECTORS => {
                        let toks = tokenize(&line);
                        match decode_sector(&toks, line_no) {
                            Ok(s) => {
                                let ghost old_sectors = sectors@;
                                sectors.push(s);
                                proof {
                                    assert(sector_views(sectors@) =~= sector_views(
                                        old_sectors,
                                    ).push(s@));
                                    assert(step_line(st, line@, line_no as int) == Ok::<
                                        PState,
                                        MapErrorV,
                                    >(pstate_of(mode, sectors@, walls@)));
                                }
                            },
                            Err(err) => {
                                proof {
                                    assert(step_line(st, line@, line_no as int) == Err::<
                                        PState,
                                        MapErrorV,
                                    >(err@));
                                    assert(parse_from(
                                        src@,
                                        i as int,
                                        st,
                                        line_no as int,
                                    ) == Err::<PState, MapErrorV>(err@));
                                }
                                return Err(err);
                            },
                        }
                    },
                    ReaderMode::WALLS => {
                        let toks = tokenize(&line);
                        match decode_wall(&toks, line_no) {
                            Ok(w) => {
                                let ghost old_walls = walls@;
                                walls.push(w);
                                proof {
                                    assert(wall_views(walls@) =~= wall_views(old_walls).push(
                                        w@,
                                    ));
                                    assert(step_line(st, line@, line_no as int) == Ok::<
                                        PState,
                                        MapErrorV,
                                    >(pstate_of(mode, sectors@, walls@)));
                                }
                            },
                            Err(err) => {
                                proof {
                                    assert(step_line(st, line@, line_no as int) == Err::<
                                        PState,
                                        MapErrorV,
                                    >(err@));
                                    assert(parse_from(
                                        src@,
                                        i as int,
                                        st,
                                        line_no as int,
                                    ) == Err::<PState, MapErrorV>(err@));
                                }
                                return Err(err);
                            },
                        }
                    },
                }
            }
            proof {
                assert(step_line(st, line_at(src@, i as int), line_no as int) == Ok::<
                    PState,
                    MapErrorV,
                >(pstate_of(mode, sectors@, walls@)));
                if j < src@.len() {
                    assert(parse_from(src@, i as int, st, line_no as int) == parse_from(
                        src@,
                        j + 1,
                        pstate_of(mode, sectors@, walls@),
                        line_no as int + 1,
                    ));
                } else {
                    assert(parse_from(src@, i as int, st, line_no as int) == Ok::<
                        PState,
                        MapErrorV,
                    >(pstate_of(mode, sectors@, walls@)));
                }
            }
            if j == src.len() {
                i = j;
                proof {
                    assert(parse_from(
                        src@,
                        i as int,
                        pstate_of(mode, sectors@, walls@),
                        line_no as int + 1,
                    ) == Ok::<PState, MapErrorV>(pstate_of(mode, sectors@, walls@)));
                }
            } else {
                i = j + 1;
            }
            line_no = line_no + 1;
        }
        proof {
            assert(parse_from(
                src@,
                i as int,
                pstate_of(mode, sectors@, walls@),
                line_no as int,
            ) == Ok::<PState, MapErrorV>(pstate_of(mode, sectors@, walls@)));
        }
        Ok(LevelMap { name, sectors, walls, wallmodels: Vec::new() })
    }
}

/// While the reader is still searching for a first section header, lines that
/// are not headers leave its state untouched, whatever records they hold.
proof fn lemma_searching_keeps_state(s: Seq<u8>, i: int, st: PState, ln: int)
    requires
        st.mode is SEARCHING,
        0 <= i,
        i >= s.len() || line_start(s, i),
        forall|k: int| #[trigger] line_start(s, k) ==> !(line_class(line_at(s, k)) is SectorHeader)
            && !(line_class(line_at(s, k)) is WallHeader),
    ensures
        parse_from(s, i, st, ln) == Ok::<PState, MapErrorV>(st),
    decreases s.len() - i,
{
    if i < s.len() {
        lemma_find_from_bounds(s, i, 10);
        let j = line_end(s, i);
        assert(line_start(s, i));
        assert(step_line(st, line_at(s, i), ln) == Ok::<PState, MapErrorV>(st));
        if j < s.len() {
            assert(s[j] == 10);
            assert(line_start(s, j + 1));
            lemma_searching_keeps_state(s, j + 1, st, ln + 1);
        }
    }
}

/// Records that appear before any `[SECTORS]` or `[WALLS]` header are
/// silently dropped: an input without a single header line parses to the
/// empty map, with no error, whatever else it holds.
pub proof fn lemma_records_before_any_header_are_dropped(s: Seq<u8>)
    requires
        forall|k: int| #[trigger] line_start(s, k) ==> !(line_class(line_at(s, k))
            is SectorHeader) && !(line_class(line_at(s, k)) is WallHeader),
    ensures
        spec_parse(s) == Ok::<PState, MapErrorV>(init_pstate()),
{
    lemma_searching_keeps_state(s, 0, init_pstate(), 1);
}

/// An input consisting only of blank lines and `//` comments parses, without
/// error, to a map with no sectors and no walls.
pub proof fn lemma_comments_and_blanks_parse_empty(s: Seq<u8>)
    requires
        forall|k: int| #[trigger] line_start(s, k) ==> line_class(line_at(s, k)) is Skip,
    ensures
        spec_parse(s) == Ok::<PState, MapErrorV>(init_pstate()),
{
    assert forall|k: int| #[trigger] line_start(s, k) implies !(line_class(line_at(s, k))
        is SectorHeader) && !(line_class(line_at(s, k)) is WallHeader) by {
        assert(line_class(line_at(s, k)) is Skip);
    }
    lemma_records_before_any_header_are_dropped(s);
}

} // verus!
