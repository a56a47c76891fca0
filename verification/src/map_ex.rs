//! The CP/AOI extended-map codec: thirteen keyed header lines whose labels
//! are padded to eighteen characters before the colon, declared grid
//! dimensions that drive the centered coordinates, and a blank-tolerant
//! ASCII grid kept verbatim.

use vstd::prelude::*;
use crate::errors::ErrorV;
use crate::errors::FormatError;
use crate::header::kv_spec;
use crate::header::pad_label;
use crate::header::parse_kv;
use crate::header::strip_pct;
use crate::header::strip_pct_spec;
use crate::header::to_dim;
use crate::header::to_dim_spec;
use crate::header::to_scaled;
use crate::header::to_scaled_spec;
use crate::header::to_u32;
use crate::header::to_u32_spec;
use crate::model::AsciiMap;
use crate::model::AsciiMapV;
use crate::model::collect_grid_dies;
use crate::model::grid_dies;
use crate::num::dec_str;
use crate::num::fmt_u64;
use crate::num::fmt_scaled;
use crate::num::pad_right;
use crate::num::scaled_str;
use crate::text::append_chars;
use crate::text::append_str;
use crate::text::chars_of;
use crate::text::is_blank;
use crate::text::join_lines;
use crate::text::str_of;
use crate::wafer::non_blank;

verus! {

/// A map record from the CP-prober and AOI stages: identifying fields, die
/// pitch, declared grid dimensions, counts, yield, and the ASCII map.
#[derive(Debug, Clone, PartialEq, Eq)]
pub struct MapData {
    pub device_name: String,
    pub lot_no: String,
    pub wafer_id: String,
    pub wafer_size: String,
    /// Die pitch along X in thousandths (4986.000 is 4986000).
    pub dice_size_x: i64,
    /// Die pitch along Y in thousandths.
    pub dice_size_y: i64,
    pub flat_notch: String,
    pub map_columns: u32,
    pub map_rows: u32,
    pub total_tested: u32,
    pub total_pass: u32,
    pub total_fail: u32,
    /// Yield in hundredths of a percent (83.33% is 8333).
    pub yield_percent: i64,
    pub map: AsciiMap,
}

/// The mathematical shadow of `MapData`.
pub struct MapDataV {
    pub device_name: Seq<char>,
    pub lot_no: Seq<char>,
    pub wafer_id: Seq<char>,
    pub wafer_size: Seq<char>,
    pub dice_size_x: i64,
    pub dice_size_y: i64,
    pub flat_notch: Seq<char>,
    pub map_columns: u32,
    pub map_rows: u32,
    pub total_tested: u32,
    pub total_pass: u32,
    pub total_fail: u32,
    pub yield_percent: i64,
    pub map: AsciiMapV,
}

impl View for MapData {
    type V = MapDataV;

    open spec fn view(&self) -> MapDataV {
        MapDataV {
            device_name: self.device_name@,
            lot_no: self.lot_no@,
            wafer_id: self.wafer_id@,
            wafer_size: self.wafer_size@,
            dice_size_x: self.dice_size_x,
            dice_size_y: self.dice_size_y,
            flat_notch: self.flat_notch@,
            map_columns: self.map_columns,
            map_rows: self.map_rows,
            total_tested: self.total_tested,
            total_pass: self.total_pass,
            total_fail: self.total_fail,
            yield_percent: self.yield_percent,
            map: self.map@,
        }
    }
}

/// An extended-map header label, padded to eighteen characters.
pub open spec fn key18(label: Seq<char>) -> Seq<char> {
    pad_right(label, 18)
}

/// The header fields of an extended map, before the grid.
pub struct MapHead {
    pub device_name: Seq<char>,
    pub lot_no: Seq<char>,
    pub wafer_id: Seq<char>,
    pub wafer_size: Seq<char>,
    pub dice_size_x: i64,
    pub dice_size_y: i64,
    pub flat_notch: Seq<char>,
    pub map_columns: u32,
    pub map_rows: u32,
    pub total_tested: u32,
    pub total_pass: u32,
    pub total_fail: u32,
    pub yield_percent: i64,
}

/// What parsing an extended map yields: thirteen ordered headers under
/// eighteen-character padded labels, then the non-blank grid lines kept
/// verbatim, with dies centered by the declared column and row counts.
pub open spec fn map_from_lines_spec(lines: Seq<Seq<char>>) -> Result<MapDataV, ErrorV> {
    match kv_spec(lines, 0, key18("Device Name"@)) {
        Err(e) => Err(e),
        Ok(device_name) => match kv_spec(lines, 1, key18("Lot No."@)) {
            Err(e) => Err(e),
            Ok(lot_no) => match kv_spec(lines, 2, key18("Wafer ID"@)) {
                Err(e) => Err(e),
                Ok(wafer_id) => match kv_spec(lines, 3, key18("Wafer Size"@)) {
                    Err(e) => Err(e),
                    Ok(wafer_size) => match kv_spec(lines, 4, key18("Dice SizeX"@)) {
                        Err(e) => Err(e),
                        Ok(dxv) => match to_scaled_spec(dxv, "Dice SizeX"@, 3) {
                            Err(e) => Err(e),
                            Ok(dice_size_x) => match kv_spec(lines, 5, key18("Dice SizeY"@)) {
                                Err(e) => Err(e),
                                Ok(dyv) => match to_scaled_spec(dyv, "Dice SizeY"@, 3) {
                                    Err(e) => Err(e),
                                    Ok(dice_size_y) => match kv_spec(
                                        lines,
                                        6,
                                        key18("Flat/Notch"@),
                                    ) {
                                        Err(e) => Err(e),
                                        Ok(flat_notch) => map_mid_spec(
                                            lines,
                                            device_name,
                                            lot_no,
                                            wafer_id,
                                            wafer_size,
                                            dice_size_x,
                                            dice_size_y,
                                            flat_notch,
                                        ),
                                    },
                                },
                            },
                        },
                    },
                },
            },
        },
    }
}

/// The count and yield headers of an extended map, then its grid.
pub open spec fn map_mid_spec(
    lines: Seq<Seq<char>>,
    device_name: Seq<char>,
    lot_no: Seq<char>,
    wafer_id: Seq<char>,
    wafer_size: Seq<char>,
    dice_size_x: i64,
    dice_size_y: i64,
    flat_notch: Seq<char>,
) -> Result<MapDataV, ErrorV> {
    match kv_spec(lines, 7, key18("Map Column"@)) {
        Err(e) => Err(e),
        Ok(cv) => match to_dim_spec(cv, "Map Column"@) {
            Err(e) => Err(e),
            Ok(map_columns) => match kv_spec(lines, 8, key18("Map Row"@)) {
                Err(e) => Err(e),
                Ok(rv) => match to_dim_spec(rv, "Map Row"@) {
                    Err(e) => Err(e),
                    Ok(map_rows) => match kv_spec(lines, 9, key18("Total Tested"@)) {
                        Err(e) => Err(e),
                        Ok(ttv) => match to_u32_spec(ttv, "Total Tested"@) {
                            Err(e) => Err(e),
                            Ok(total_tested) => match kv_spec(lines, 10, key18("Total Pass"@)) {
                                Err(e) => Err(e),
                                Ok(tpv) => match to_u32_spec(tpv, "Total Pass"@) {
                                    Err(e) => Err(e),
                                    Ok(total_pass) => match kv_spec(
                                        lines,
                                        11,
                                        key18("Total Fail"@),
                                    ) {
                                        Err(e) => Err(e),
                                        Ok(tfv) => match to_u32_spec(tfv, "Total Fail"@) {
                                            Err(e) => Err(e),
                                            Ok(total_fail) => match kv_spec(
                                                lines,
                                                12,
                                                key18("Yield"@),
                                            ) {
                                                Err(e) => Err(e),
                                                Ok(yv) => match to_scaled_spec(
                                                    strip_pct_spec(yv),
                                                    "Yield"@,
                                                    2,
                                                ) {
                                                    Err(e) => Err(e),
                                                    Ok(yield_percent) => map_tail_spec(
                                                        lines,
                                                        MapHead {
                                                            device_name,
                                                            lot_no,
                                                            wafer_id,
                                                            wafer_size,
                                                            dice_size_x,
                                                            dice_size_y,
                                                            flat_notch,
                                                            map_columns,
                                                            map_rows,
                                                            total_tested,
                                                            total_pass,
                                                            total_fail,
                                                            yield_percent,
                                                        },
                                                    ),
                                                },
                                            },
                                        },
                                    },
                                },
                            },
                        },
                    },
                },
            },
        },
    }
}

/// The grid of an extended map: the non-blank remainder after the thirteen
/// headers, which must be nonempty; dies are centered by the declared
/// dimensions, not by the grid's own extent.
pub open spec fn map_tail_spec(lines: Seq<Seq<char>>, h: MapHead) -> Result<MapDataV, ErrorV> {
    let raw = non_blank(lines.subrange(13, lines.len() as int));
    if raw.len() == 0 {
        Err(ErrorV::EmptyGrid)
    } else {
        let dies = grid_dies(
            raw,
            -(h.map_columns as int / 2),
            -(h.map_rows as int / 2),
        );
        Ok(
            MapDataV {
                device_name: h.device_name,
                lot_no: h.lot_no,
                wafer_id: h.wafer_id,
                wafer_size: h.wafer_size,
                dice_size_x: h.dice_size_x,
                dice_size_y: h.dice_size_y,
                flat_notch: h.flat_notch,
                map_columns: h.map_columns,
                map_rows: h.map_rows,
                total_tested: h.total_tested,
                total_pass: h.total_pass,
                total_fail: h.total_fail,
                yield_percent: h.yield_percent,
                map: AsciiMapV { raw, dies },
            },
        )
    }
}

impl MapData {
    /// Parses an extended-map file, given as its sequence of lines.
    pub fn from_lines(lines: &[String]) -> (r: Result<MapData, FormatError>)
        requires
            lines@.len() <= i32::MAX as int,
            forall|i: int| 0 <= i < lines@.len() ==> (#[trigger] lines@[i])@.len() <= i32::MAX as int,
        ensures
            match r {
                Ok(m) => map_from_lines_spec(lines.deep_view()) == Ok::<MapDataV, ErrorV>(m@),
                Err(e) => map_from_lines_spec(lines.deep_view()) == Err::<MapDataV, ErrorV>(e@),
            },
    {
        let ghost lv = lines.deep_view();
        let mut pos: usize = 0;
        let device_name = match parse_kv(lines, &mut pos, str_of(&pad_label("Device Name", 18)).as_str()) {
            Ok(v) => v,
            Err(e) => return Err(e),
        };
        let lot_no = match parse_kv(lines, &mut pos, str_of(&pad_label("Lot No.", 18)).as_str()) {
            Ok(v) => v,
            Err(e) => return Err(e),
        };
        let wafer_id = match parse_kv(lines, &mut pos, str_of(&pad_label("Wafer ID", 18)).as_str()) {
            Ok(v) => v,
            Err(e) => return Err(e),
        };
        let wafer_size = match parse_kv(lines, &mut pos, str_of(&pad_label("Wafer Size", 18)).as_str()) {
            Ok(v) => v,
            Err(e) => return Err(e),
        };
        let dice_size_x = match parse_kv(lines, &mut pos, str_of(&pad_label("Dice SizeX", 18)).as_str()) {
            Ok(v) => match to_scaled(&chars_of(v.as_str()), "Dice SizeX", 3) {
                Ok(n) => n,
                Err(e) => return Err(e),
            },
            Err(e) => return Err(e),
        };
        let dice_size_y = match parse_kv(lines, &mut pos, str_of(&pad_label("Dice SizeY", 18)).as_str()) {
            Ok(v) => match to_scaled(&chars_of(v.as_str()), "Dice SizeY", 3) {
                Ok(n) => n,
                Err(e) => return Err(e),
            },
            Err(e) => return Err(e),
        };
        let flat_notch = match parse_kv(lines, &mut pos, str_of(&pad_label("Flat/Notch", 18)).as_str()) {
            Ok(v) => v,
            Err(e) => return Err(e),
        };
        let map_columns = match parse_kv(lines, &mut pos, str_of(&pad_label("Map Column", 18)).as_str()) {
            Ok(v) => match to_dim(&chars_of(v.as_str()), "Map Column") {
                Ok(n) => n,
                Err(e) => return Err(e),
            },
            Err(e) => return Err(e),
        };
        let map_rows = match parse_kv(lines, &mut pos, str_of(&pad_label("Map Row", 18)).as_str()) {
            Ok(v) => match to_dim(&chars_of(v.as_str()), "Map Row") {
                Ok(n) => n,
                Err(e) => return Err(e),
            },
            Err(e) => return Err(e),
        };
        let total_tested = match parse_kv(lines, &mut pos, str_of(&pad_label("Total Tested", 18)).as_str()) {
            Ok(v) => match to_u32(&chars_of(v.as_str()), "Total Tested") {
                Ok(n) => n,
                Err(e) => return Err(e),
            },
            Err(e) => return Err(e),
        };
        let total_pass = match parse_kv(lines, &mut pos, str_of(&pad_label("Total Pass", 18)).as_str()) {
            Ok(v) => match to_u32(&chars_of(v.as_str()), "Total Pass") {
                Ok(n) => n,
                Err(e) => return Err(e),
            },
            Err(e) => return Err(e),
        };
        let total_fail = match parse_kv(lines, &mut pos, str_of(&pad_label("Total Fail", 18)).as_str()) {
            Ok(v) => match to_u32(&chars_of(v.as_str()), "Total Fail") {
                Ok(n) => n,
                Err(e) => return Err(e),
            },
            Err(e) => return Err(e),
        };
        let yield_percent = match parse_kv(lines, &mut pos, str_of(&pad_label("Yield", 18)).as_str()) {
            Ok(v) => {
                let s = strip_pct(&chars_of(v.as_str()));
                match to_scaled(&s, "Yield", 2) {
                    Ok(n) => n,
                    Err(e) => return Err(e),
                }
            },
            Err(e) => return Err(e),
        };
        // The grid: every remaining non-blank line, kept verbatim.
        let mut raw: Vec<String> = Vec::new();
        let mut i: usize = pos;
        while i < lines.len()
            invariant
                13 <= pos <= i <= lines@.len(),
                lv == lines.deep_view(),
                lines@.len() <= i32::MAX as int,
                forall|k: int|
                    0 <= k < lines@.len() ==> (#[trigger] lines@[k])@.len() <= i32::MAX as int,
                raw.deep_view() == non_blank(lv.subrange(13, i as int)),
                raw@.len() <= i - 13,
                forall|k: int| 0 <= k < raw@.len() ==> (#[trigger] raw@[k])@.len() <= i32::MAX as int,
            decreases lines@.len() - i,
        {
            proof {
                assert(lv.subrange(13, i + 1 as int).drop_last() =~= lv.subrange(13, i as int));
                assert(lv.subrange(13, i + 1 as int).last() == lv[i as int]);
                assert(lv[i as int] == lines@[i as int]@);
            }
            let lc = chars_of(lines[i].as_str());
            if !is_blank(&lc) {
                raw.push(lines[i].clone());
                proof {
                    assert(raw.deep_view() =~= non_blank(lv.subrange(13, i + 1 as int)));
                }
            }
            i = i + 1;
        }
        proof {
            assert(lv.subrange(13, lv.len() as int) =~= lv.subrange(13, i as int));
        }
        if raw.len() == 0 {
            return Err(FormatError::EmptyGrid);
        }
        let x0: i32 = -((map_columns as i32) / 2);
        let y0: i32 = -((map_rows as i32) / 2);
        let dies = collect_grid_dies(&raw, x0, y0);
        Ok(
            MapData {
                device_name,
                lot_no,
                wafer_id,
                wafer_size,
                dice_size_x,
                dice_size_y,
                flat_notch,
                map_columns,
                map_rows,
                total_tested,
                total_pass,
                total_fail,
                yield_percent,
                map: AsciiMap { raw, dies },
            },
        )
    }
}

/// What a successful extended-map parse pins down about the grid.
proof fn lemma_map_grid_facts(lines: Seq<Seq<char>>, m: MapDataV)
    requires
        map_from_lines_spec(lines) == Ok::<MapDataV, ErrorV>(m),
    ensures
        m.map.raw == non_blank(lines.subrange(13, lines.len() as int)),
        m.map.dies == grid_dies(
            m.map.raw,
            -(m.map_columns as int / 2),
            -(m.map_rows as int / 2),
        ),
        m.map_columns <= i32::MAX as u32,
        m.map_rows <= i32::MAX as u32,
{
}

/// Centering invariant: when the grid text fits the declared dimensions
/// (no line longer than `Map Column`, no more lines than `Map Row`), every
/// die of a parsed extended map has `x` in `[-(C/2), C - C/2 - 1]` and `y`
/// in `[-(R/2), R - R/2 - 1]` for the declared `C` and `R`. A grid larger
/// than its declaration places dies outside these ranges, since this
/// format centers by declaration alone.
pub proof fn lemma_map_centering(lines: Seq<Seq<char>>, m: MapDataV)
    requires
        map_from_lines_spec(lines) == Ok::<MapDataV, ErrorV>(m),
        forall|k: int|
            0 <= k < m.map.raw.len() ==> (#[trigger] m.map.raw[k]).len() <= m.map_columns as int,
        m.map.raw.len() <= m.map_rows as int,
    ensures
        forall|i: int|
            0 <= i < m.map.dies.len() ==> {
                let d = #[trigger] m.map.dies[i];
                let cols = m.map_columns as int;
                let rows = m.map_rows as int;
                &&& -(cols / 2) <= (d.x as int) <= cols - cols / 2 - 1
                &&& -(rows / 2) <= (d.y as int) <= rows - rows / 2 - 1
            },
{
    lemma_map_grid_facts(lines, m);
    let cols = m.map_columns as int;
    let rows = m.map_rows as int;
    crate::model::lemma_grid_dies_props(m.map.raw, -(cols / 2), -(rows / 2));
}

/// Placeholder exclusion: a parsed extended map has no die at the centered
/// coordinates of any `.` grid cell.
pub proof fn lemma_map_placeholder_excluded(lines: Seq<Seq<char>>, m: MapDataV, r: int, c: int)
    requires
        map_from_lines_spec(lines) == Ok::<MapDataV, ErrorV>(m),
        forall|k: int|
            0 <= k < m.map.raw.len() ==> (#[trigger] m.map.raw[k]).len() <= m.map_columns as int,
        m.map.raw.len() <= m.map_rows as int,
        0 <= r < m.map.raw.len(),
        0 <= c < m.map.raw[r].len(),
        m.map.raw[r][c] == '.',
    ensures
        forall|i: int|
            0 <= i < m.map.dies.len() ==> !((#[trigger] m.map.dies[i].x as int) == c
                - m.map_columns as int / 2 && (m.map.dies[i].y as int) == r - m.map_rows as int
                / 2),
{
    lemma_map_grid_facts(lines, m);
    let cols = m.map_columns as int;
    let rows = m.map_rows as int;
    let x0 = -(cols / 2);
    let y0 = -(rows / 2);
    crate::model::lemma_grid_dies_props(m.map.raw, x0, y0);
    assert forall|i: int| 0 <= i < m.map.dies.len() implies !((#[trigger] m.map.dies[i].x
        as int) == c - cols / 2 && (m.map.dies[i].y as int) == r - rows / 2) by {
        let d = m.map.dies[i];
        if (d.x as int) == x0 + c && (d.y as int) == y0 + r {
            assert(m.map.raw[(d.y as int) - y0][(d.x as int) - x0] != '.');
        }
    }
}

/// A flat view of an extended map file: the header fields beside the raw
/// grid lines, convenient for callers that only read.
#[derive(Debug, Clone, PartialEq, Eq)]
pub struct WaferMapEx {
    pub device_name: String,
    pub lot_no: String,
    pub wafer_id: String,
    pub wafer_size: String,
    /// Die pitch along X in thousandths.
    pub dice_size_x: i64,
    /// Die pitch along Y in thousandths.
    pub dice_size_y: i64,
    pub flat_notch: String,
    pub map_columns: u32,
    pub map_rows: u32,
    pub total_tested: u32,
    pub total_pass: u32,
    pub total_fail: u32,
    /// Yield in hundredths of a percent.
    pub yield_percent: i64,
    /// The grid lines exactly as they stood in the file.
    pub ascii_map: Vec<String>,
}

/// Parses a whole extended-map file given as one string: the text is split
/// into lines the way the file reader would split it, parsed as an
/// extended map, and flattened into a `WaferMapEx`.
pub fn parse_file1_str(s: &str) -> (r: Result<WaferMapEx, FormatError>)
    requires
        s@.len() + 1 <= i32::MAX as int,
    ensures
        match r {
            Ok(w) => {
                let p = map_from_lines_spec(crate::text::split_lines_spec(s@));
                &&& p is Ok
                &&& w.device_name@ == p->Ok_0.device_name
                &&& w.lot_no@ == p->Ok_0.lot_no
                &&& w.wafer_id@ == p->Ok_0.wafer_id
                &&& w.wafer_size@ == p->Ok_0.wafer_size
                &&& w.dice_size_x == p->Ok_0.dice_size_x
                &&& w.dice_size_y == p->Ok_0.dice_size_y
                &&& w.flat_notch@ == p->Ok_0.flat_notch
                &&& w.map_columns == p->Ok_0.map_columns
                &&& w.map_rows == p->Ok_0.map_rows
                &&& w.total_tested == p->Ok_0.total_tested
                &&& w.total_pass == p->Ok_0.total_pass
                &&& w.total_fail == p->Ok_0.total_fail
                &&& w.yield_percent == p->Ok_0.yield_percent
                &&& w.ascii_map.deep_view() == p->Ok_0.map.raw
            },
            Err(e) => map_from_lines_spec(crate::text::split_lines_spec(s@)) == Err::<
                MapDataV,
                ErrorV,
            >(e@),
        },
{
    proof {
        crate::text::lemma_split_char_bounds(s@, '\n');
    }
    let lines = crate::text::split_lines(s);
    proof {
        let ps = crate::text::split_char_spec(s@, '\n');
        let lv = lines.deep_view();
        assert(lv == crate::text::split_lines_spec(s@));
        assert forall|k: int| 0 <= k < lines@.len() implies (#[trigger] lines@[k])@.len()
            <= i32::MAX as int by {
            assert(lv[k] == lines@[k]@);
            let ps2 = if ps.len() > 0 && ps.last().len() == 0 {
                ps.drop_last()
            } else {
                ps
            };
            assert(lv[k] == crate::text::strip_cr_spec(ps2[k]));
            assert(ps2[k] == ps[k]);
            crate::text::lemma_strip_cr_len(ps2[k]);
        }
    }
    match MapData::from_lines(lines.as_slice()) {
        Ok(m) => Ok(
            WaferMapEx {
                device_name: m.device_name,
                lot_no: m.lot_no,
                wafer_id: m.wafer_id,
                wafer_size: m.wafer_size,
                dice_size_x: m.dice_size_x,
                dice_size_y: m.dice_size_y,
                flat_notch: m.flat_notch,
                map_columns: m.map_columns,
                map_rows: m.map_rows,
                total_tested: m.total_tested,
                total_pass: m.total_pass,
                total_fail: m.total_fail,
                yield_percent: m.yield_percent,
                ascii_map: m.map.raw,
            },
        ),
        Err(e) => Err(e),
    }
}

/// The serialized text of an extended map: the thirteen header lines with
/// eighteen-character padded labels, the die pitches with three decimals,
/// the yield with two decimals and a `%`, a blank separator line, then the
/// raw grid lines verbatim.
pub open spec fn map_text_spec(m: MapDataV) -> Seq<char> {
    map_text_head(m) + map_text_counts(m) + join_lines(m.map.raw)
}

/// One serialized extended-map header line: the label padded to eighteen
/// characters, a colon and a space, the value, and a newline.
pub open spec fn line18(label: Seq<char>, value: Seq<char>) -> Seq<char> {
    key18(label) + ": "@ + value + seq!['\n']
}

/// The first seven serialized header lines: the identifying fields and the
/// die pitches.
pub open spec fn map_text_head(m: MapDataV) -> Seq<char> {
    line18("Device Name"@, m.device_name) + line18("Lot No."@, m.lot_no) + line18(
        "Wafer ID"@,
        m.wafer_id,
    ) + line18("Wafer Size"@, m.wafer_size) + line18(
        "Dice SizeX"@,
        scaled_str(m.dice_size_x as int, 3),
    ) + line18("Dice SizeY"@, scaled_str(m.dice_size_y as int, 3)) + line18(
        "Flat/Notch"@,
        m.flat_notch,
    )
}

/// The remaining six serialized header lines and the blank separator: the
/// declared dimensions, the counts, and the yield.
pub open spec fn map_text_counts(m: MapDataV) -> Seq<char> {
    line18("Map Column"@, dec_str(m.map_columns as nat)) + line18(
        "Map Row"@,
        dec_str(m.map_rows as nat),
    ) + line18("Total Tested"@, dec_str(m.total_tested as nat)) + line18(
        "Total Pass"@,
        dec_str(m.total_pass as nat),
    ) + line18("Total Fail"@, dec_str(m.total_fail as nat)) + line18(
        "Yield"@,
        scaled_str(m.yield_percent as int, 2) + seq!['%'],
    ) + seq!['\n']
}

/// Appends one padded header line with a string value.
fn push_line18_str(out: &mut Vec<char>, label: &str, value: &str)
    ensures
        final(out)@ == old(out)@ + line18(label@, value@),
{
    let lbl = pad_label(label, 18);
    append_chars(out, &lbl);
    append_str(out, ": ");
    append_str(out, value);
    out.push('\n');
    proof {
        assert(out@ =~= old(out)@ + line18(label@, value@));
    }
}

/// Appends one padded header line with an already-rendered value.
fn push_line18_chars(out: &mut Vec<char>, label: &str, value: &Vec<char>)
    ensures
        final(out)@ == old(out)@ + line18(label@, value@),
{
    let lbl = pad_label(label, 18);
    append_chars(out, &lbl);
    append_str(out, ": ");
    append_chars(out, value);
    out.push('\n');
    proof {
        assert(out@ =~= old(out)@ + line18(label@, value@));
    }
}

impl MapData {
    /// Re-serializes this record into the extended-map text layout.
    #[verifier::rlimit(100)]
    pub fn to_string(&self) -> (s: String)
        requires
            self.dice_size_x > i64::MIN,
            self.dice_size_y > i64::MIN,
            self.yield_percent > i64::MIN,
        ensures
            s@ == map_text_spec(self@),
    {
        let mut out: Vec<char> = Vec::new();
        push_line18_str(&mut out, "Device Name", self.device_name.as_str());
        push_line18_str(&mut out, "Lot No.", self.lot_no.as_str());
        push_line18_str(&mut out, "Wafer ID", self.wafer_id.as_str());
        push_line18_str(&mut out, "Wafer Size", self.wafer_size.as_str());
        let dx = fmt_scaled(self.dice_size_x, 3);
        push_line18_chars(&mut out, "Dice SizeX", &dx);
        let dy = fmt_scaled(self.dice_size_y, 3);
        push_line18_chars(&mut out, "Dice SizeY", &dy);
        push_line18_str(&mut out, "Flat/Notch", self.flat_notch.as_str());
        proof {
            assert(out@ =~= map_text_head(self@));
        }
        let ghost head = out@;
        let mc = fmt_u64(self.map_columns as u64);
        push_line18_chars(&mut out, "Map Column", &mc);
        let mr = fmt_u64(self.map_rows as u64);
        push_line18_chars(&mut out, "Map Row", &mr);
        let tt = fmt_u64(self.total_tested as u64);
        push_line18_chars(&mut out, "Total Tested", &tt);
        let tp = fmt_u64(self.total_pass as u64);
        push_line18_chars(&mut out, "Total Pass", &tp);
        let tf = fmt_u64(self.total_fail as u64);
        push_line18_chars(&mut out, "Total Fail", &tf);
        let mut y = fmt_scaled(self.yield_percent, 2);
        y.push('%');
        proof {
            assert(y@ =~= scaled_str(self@.yield_percent as int, 2) + seq!['%']);
        }
        push_line18_chars(&mut out, "Yield", &y);
        out.push('\n');
        proof {
            assert(out@ =~= head + map_text_counts(self@));
        }
        let ghost pre = out@;
        let mut r: usize = 0;
        while r < self.map.raw.len()
            invariant
                r <= self.map.raw@.len(),
                out@ == pre + join_lines(self.map.raw.deep_view().subrange(0, r as int)),
            decreases self.map.raw@.len() - r,
        {
            let ghost rv = self.map.raw.deep_view();
            proof {
                assert(rv.subrange(0, r + 1 as int).drop_last() =~= rv.subrange(0, r as int));
                assert(rv.subrange(0, r + 1 as int).last() == rv[r as int]);
                assert(rv[r as int] == self.map.raw@[r as int]@);
            }
            append_str(&mut out, self.map.raw[r].as_str());
            out.push('\n');
            proof {
                assert(out@ =~= pre + join_lines(rv.subrange(0, r + 1 as int)));
            }
            r = r + 1;
        }
        proof {
            assert(self.map.raw.deep_view().subrange(0, r as int) =~= self.map.raw.deep_view());
            assert(out@ =~= map_text_head(self@) + map_text_counts(self@) + join_lines(
                self@.map.raw,
            ));
        }
        str_of(&out)
    }
}

} // verus!
