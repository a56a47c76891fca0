//! The HEX/SINF grid codec: keyed headers with two optional fields probed
//! by peeking, `RowData:` rows of two-digit hex tokens (or the `--`
//! placeholder) that may sit inline or on the following line, lenient
//! padding of short rows and missing trailing rows, and dies derived from
//! every populated cell with centered coordinates.

use vstd::prelude::*;
use vstd::string::StringExecFns;
use crate::bin_map::clean_lines;
use crate::bin_map::cleaned;
use crate::errors::ErrorV;
use crate::errors::FormatError;
use crate::header::kv_ci_spec;
use crate::header::parse_kv_ci;
use crate::header::to_dim;
use crate::header::to_dim_spec;
use crate::header::to_scaled;
use crate::header::to_scaled_spec;
use crate::header::to_u32;
use crate::header::to_u32_spec;
use crate::model::AsciiDie;
use crate::model::BinValue;
use crate::model::center_coord;
use crate::num::hex_pair_val;
use crate::num::is_hex_digit;
use crate::num::parse_hex_pair;
use crate::text::chars_of;
use crate::text::find_char;
use crate::text::find_char_spec;
use crate::text::lemma_find_char;
use crate::text::starts_with;
use crate::text::starts_with_spec;
use crate::text::str_of;
use crate::text::subrange_vec;
use crate::text::tokens_of;
use crate::text::tokens_spec;
use crate::text::trim_chars;
use crate::text::trim_spec;

verus! {

/// One cell of the hex grid: a bin byte, or no die (`--`).
#[derive(Debug, Clone, Copy, PartialEq, Eq)]
pub struct HexCell(pub Option<u8>);

impl DeepView for HexCell {
    type V = HexCell;

    open spec fn deep_view(&self) -> HexCell {
        *self
    }
}

/// The raw row texts, the parsed cell grid, and the flattened dies, owned
/// together.
#[derive(Debug, Clone, PartialEq, Eq)]
pub struct HexMap {
    /// The text of each row as read (after the `RowData:` prefix).
    pub raw: Vec<String>,
    /// The parsed cells, each row normalized to the declared column count.
    pub grid: Vec<Vec<HexCell>>,
    /// The dies of every populated cell, centered.
    pub dies: Vec<AsciiDie>,
}

/// The header block of a HEX/SINF file. `fnloc` and `bcequ` may be entirely
/// absent from the source text.
#[derive(Debug, Clone, PartialEq, Eq)]
pub struct HexHeader {
    pub device: String,
    pub lot: String,
    pub wafer: String,
    pub fnloc: Option<u32>,
    pub row_ct: u32,
    pub col_ct: u32,
    pub bcequ: Option<u32>,
    pub refpx: u32,
    pub refpy: u32,
    pub dut_ms: String,
    /// Die size along X in hundred-thousandths (4.98600 is 498600).
    pub x_dies: i64,
    /// Die size along Y in hundred-thousandths.
    pub y_dies: i64,
}

/// A full HEX/SINF record.
#[derive(Debug, Clone, PartialEq, Eq)]
pub struct HexMapData {
    pub header: HexHeader,
    pub map: HexMap,
}

/// The mathematical shadow of `HexMap`.
pub struct HexMapV {
    pub raw: Seq<Seq<char>>,
    pub grid: Seq<Seq<HexCell>>,
    pub dies: Seq<AsciiDie>,
}

impl View for HexMap {
    type V = HexMapV;

    open spec fn view(&self) -> HexMapV {
        HexMapV { raw: self.raw.deep_view(), grid: self.grid.deep_view(), dies: self.dies@ }
    }
}

/// The mathematical shadow of `HexHeader`.
pub struct HexHeaderV {
    pub device: Seq<char>,
    pub lot: Seq<char>,
    pub wafer: Seq<char>,
    pub fnloc: Option<u32>,
    pub row_ct: u32,
    pub col_ct: u32,
    pub bcequ: Option<u32>,
    pub refpx: u32,
    pub refpy: u32,
    pub dut_ms: Seq<char>,
    pub x_dies: i64,
    pub y_dies: i64,
}

impl View for HexHeader {
    type V = HexHeaderV;

    open spec fn view(&self) -> HexHeaderV {
        HexHeaderV {
            device: self.device@,
            lot: self.lot@,
            wafer: self.wafer@,
            fnloc: self.fnloc,
            row_ct: self.row_ct,
            col_ct: self.col_ct,
            bcequ: self.bcequ,
            refpx: self.refpx,
            refpy: self.refpy,
            dut_ms: self.dut_ms@,
            x_dies: self.x_dies,
            y_dies: self.y_dies,
        }
    }
}

/// The mathematical shadow of `HexMapData`.
pub struct HexMapDataV {
    pub header: HexHeaderV,
    pub map: HexMapV,
}

impl View for HexMapData {
    type V = HexMapDataV;

    open spec fn view(&self) -> HexMapDataV {
        HexMapDataV { header: self.header@, map: self.map@ }
    }
}

/// The cell a grid token encodes: `--` is the empty cell, two hex digits
/// are a bin byte, and any other token is an error.
pub open spec fn hex_cell_spec(tok: Seq<char>) -> Result<HexCell, ErrorV> {
    if tok == seq!['-', '-'] {
        Ok(HexCell(None))
    } else if tok.len() != 2 {
        Err(ErrorV::MalformedGridLine { line: tok })
    } else if is_hex_digit(tok[0]) && is_hex_digit(tok[1]) {
        Ok(HexCell(Some(hex_pair_val(tok[0], tok[1]) as u8)))
    } else {
        Err(ErrorV::MalformedGridLine { line: tok })
    }
}

/// One grid token: the `--` placeholder yields an empty cell, exactly two
/// hex digits (either case) yield a bin byte, anything else is a
/// `MalformedGridLine` error.
pub fn parse_hex_cell(tok: &str) -> (r: Result<HexCell, FormatError>)
    ensures
        match r {
            Ok(c) => hex_cell_spec(tok@) == Ok::<HexCell, ErrorV>(c),
            Err(e) => hex_cell_spec(tok@) == Err::<HexCell, ErrorV>(e@),
        },
{
    let tc = chars_of(tok);
    parse_hex_cell_chars(&tc)
}

/// As `parse_hex_cell`, over an already-extracted character vector.
pub fn parse_hex_cell_chars(tc: &Vec<char>) -> (r: Result<HexCell, FormatError>)
    ensures
        match r {
            Ok(c) => hex_cell_spec(tc@) == Ok::<HexCell, ErrorV>(c),
            Err(e) => hex_cell_spec(tc@) == Err::<HexCell, ErrorV>(e@),
        },
{
    if tc.len() == 2 && tc[0] == '-' && tc[1] == '-' {
        proof {
            assert(tc@ =~= seq!['-', '-']);
        }
        return Ok(HexCell(None));
    }
    proof {
        if tc@ == seq!['-', '-'] {
            assert(tc@.len() == 2 && tc@[0] == '-' && tc@[1] == '-');
        }
    }
    if tc.len() != 2 {
        return Err(FormatError::MalformedGridLine { line: str_of(tc) });
    }
    match parse_hex_pair(tc[0], tc[1]) {
        Some(v) => Ok(HexCell(Some(v))),
        None => Err(FormatError::MalformedGridLine { line: str_of(tc) }),
    }
}

/// The cells of one row's tokens, in order.
pub open spec fn row_cells_spec(ts: Seq<Seq<char>>) -> Result<Seq<HexCell>, ErrorV>
    decreases ts.len(),
{
    if ts.len() == 0 {
        Ok(Seq::<HexCell>::empty())
    } else {
        match hex_cell_spec(ts[0]) {
            Err(e) => Err(e),
            Ok(c) => match row_cells_spec(ts.drop_first()) {
                Err(e) => Err(e),
                Ok(rest) => Ok(seq![c] + rest),
            },
        }
    }
}

/// A row normalized to the declared column count: long rows are truncated,
/// short rows are padded with empty cells.
pub open spec fn normalize_row(cells: Seq<HexCell>, col_ct: int) -> Seq<HexCell> {
    if cells.len() >= col_ct {
        cells.subrange(0, col_ct)
    } else {
        cells + Seq::new((col_ct - cells.len()) as nat, |i: int| HexCell(None))
    }
}

/// The raw texts and normalized cell rows of the `RowData:` section,
/// scanning from `pos`: lines without the `RowData` prefix are skipped, a
/// `RowData:` line with nothing after its colon takes its tokens from the
/// following line, and a trailing bare `RowData:` is an error.
pub open spec fn hex_rows_spec(ls: Seq<Seq<char>>, pos: int, col_ct: int) -> Result<
    (Seq<Seq<char>>, Seq<Seq<HexCell>>),
    ErrorV,
>
    decreases ls.len() - pos,
{
    if pos < 0 || pos >= ls.len() {
        Ok((Seq::<Seq<char>>::empty(), Seq::<Seq<HexCell>>::empty()))
    } else if !starts_with_spec(ls[pos], "RowData"@) {
        hex_rows_spec(ls, pos + 1, col_ct)
    } else {
        let ci = find_char_spec(ls[pos], ':');
        let after = if ci == -1 {
            Seq::<char>::empty()
        } else {
            trim_spec(ls[pos].subrange(ci + 1, ls[pos].len() as int))
        };
        if after.len() == 0 {
            if pos + 1 >= ls.len() {
                Err(ErrorV::MissingMapSection { marker: "RowData"@ })
            } else {
                match row_cells_spec(tokens_spec(ls[pos + 1])) {
                    Err(e) => Err(e),
                    Ok(cells) => match hex_rows_spec(ls, pos + 2, col_ct) {
                        Err(e) => Err(e),
                        Ok((raws, rows)) => Ok(
                            (
                                seq![ls[pos + 1]] + raws,
                                seq![normalize_row(cells, col_ct)] + rows,
                            ),
                        ),
                    },
                }
            }
        } else {
            match row_cells_spec(tokens_spec(after)) {
                Err(e) => Err(e),
                Ok(cells) => match hex_rows_spec(ls, pos + 1, col_ct) {
                    Err(e) => Err(e),
                    Ok((raws, rows)) => Ok(
                        (seq![after] + raws, seq![normalize_row(cells, col_ct)] + rows),
                    ),
                },
            }
        }
    }
}

/// The dies of one normalized hex row at row index `r`.
pub open spec fn hex_row_dies(row: Seq<HexCell>, col_ct: int, row_ct: int, r: int) -> Seq<AsciiDie>
    decreases row.len(),
{
    if row.len() == 0 {
        Seq::<AsciiDie>::empty()
    } else {
        let pre = hex_row_dies(row.drop_last(), col_ct, row_ct, r);
        match row.last().0 {
            Some(v) => pre.push(
                AsciiDie {
                    x: center_coord(col_ct, row.len() - 1) as i32,
                    y: center_coord(row_ct, r) as i32,
                    bin: BinValue::Number(v as i32),
                },
            ),
            None => pre,
        }
    }
}

/// The dies of the whole hex grid, row-major.
pub open spec fn hex_grid_dies(grid: Seq<Seq<HexCell>>, col_ct: int, row_ct: int) -> Seq<AsciiDie>
    decreases grid.len(),
{
    if grid.len() == 0 {
        Seq::<AsciiDie>::empty()
    } else {
        hex_grid_dies(grid.drop_last(), col_ct, row_ct) + hex_row_dies(
            grid.last(),
            col_ct,
            row_ct,
            grid.len() - 1,
        )
    }
}

/// The raw texts and grid padded with empty rows up to the declared row
/// count (rows beyond it are kept).
pub open spec fn pad_rows(
    raws: Seq<Seq<char>>,
    rows: Seq<Seq<HexCell>>,
    row_ct: int,
    col_ct: int,
) -> (Seq<Seq<char>>, Seq<Seq<HexCell>>) {
    if rows.len() >= row_ct {
        (raws, rows)
    } else {
        (
            raws + Seq::new((row_ct - rows.len()) as nat, |i: int| Seq::<char>::empty()),
            rows + Seq::new(
                (row_ct - rows.len()) as nat,
                |i: int| Seq::new(col_ct as nat, |j: int| HexCell(None)),
            ),
        )
    }
}

/// What parsing a HEX/SINF file yields: `DEVICE`, `LOT` and `WAFER` first,
/// then the optional and required numeric headers, then the `RowData:`
/// grid, padded to the declared dimensions, with dies from every populated
/// cell.
pub open spec fn hex_from_lines_spec(lines: Seq<Seq<char>>) -> Result<HexMapDataV, ErrorV> {
    let cl = cleaned(lines);
    match kv_ci_spec(cl, 0, "DEVICE"@) {
        Err(e) => Err(e),
        Ok(device) => match kv_ci_spec(cl, 1, "LOT"@) {
            Err(e) => Err(e),
            Ok(lot) => match kv_ci_spec(cl, 2, "WAFER"@) {
                Err(e) => Err(e),
                Ok(wafer) => hex_fnloc_spec(cl, device, lot, wafer),
            },
        },
    }
}

/// The optional `FNLOC` field, probed by peeking the next line.
pub open spec fn hex_fnloc_spec(
    cl: Seq<Seq<char>>,
    device: Seq<char>,
    lot: Seq<char>,
    wafer: Seq<char>,
) -> Result<HexMapDataV, ErrorV> {
    if 3 < cl.len() && starts_with_spec(cl[3], "FNLOC"@) {
        match kv_ci_spec(cl, 3, "FNLOC"@) {
            Err(e) => Err(e),
            Ok(v) => match to_u32_spec(v, "FNLOC"@) {
                Err(e) => Err(e),
                Ok(n) => hex_dims_spec(cl, 4, device, lot, wafer, Some(n)),
            },
        }
    } else {
        hex_dims_spec(cl, 3, device, lot, wafer, None)
    }
}

/// The declared dimensions and the optional `BCEQU` field.
pub open spec fn hex_dims_spec(
    cl: Seq<Seq<char>>,
    p: int,
    device: Seq<char>,
    lot: Seq<char>,
    wafer: Seq<char>,
    fnloc: Option<u32>,
) -> Result<HexMapDataV, ErrorV> {
    match kv_ci_spec(cl, p, "ROWCT"@) {
        Err(e) => Err(e),
        Ok(rv) => match to_dim_spec(rv, "ROWCT"@) {
            Err(e) => Err(e),
            Ok(row_ct) => match kv_ci_spec(cl, p + 1, "COLCT"@) {
                Err(e) => Err(e),
                Ok(cv) => match to_dim_spec(cv, "COLCT"@) {
                    Err(e) => Err(e),
                    Ok(col_ct) => if p + 2 < cl.len() && starts_with_spec(cl[p + 2], "BCEQU"@) {
                        match kv_ci_spec(cl, p + 2, "BCEQU"@) {
                            Err(e) => Err(e),
                            Ok(bv) => match to_u32_spec(bv, "BCEQU"@) {
                                Err(e) => Err(e),
                                Ok(b) => hex_rest_spec(
                                    cl,
                                    p + 3,
                                    device,
                                    lot,
                                    wafer,
                                    fnloc,
                                    row_ct,
                                    col_ct,
                                    Some(b),
                                ),
                            },
                        }
                    } else {
                        hex_rest_spec(cl, p + 2, device, lot, wafer, fnloc, row_ct, col_ct, None)
                    },
                },
            },
        },
    }
}

/// The remaining required headers and the grid.
pub open spec fn hex_rest_spec(
    cl: Seq<Seq<char>>,
    q: int,
    device: Seq<char>,
    lot: Seq<char>,
    wafer: Seq<char>,
    fnloc: Option<u32>,
    row_ct: u32,
    col_ct: u32,
    bcequ: Option<u32>,
) -> Result<HexMapDataV, ErrorV> {
    match kv_ci_spec(cl, q, "REFPX"@) {
        Err(e) => Err(e),
        Ok(pxv) => match to_u32_spec(pxv, "REFPX"@) {
            Err(e) => Err(e),
            Ok(refpx) => match kv_ci_spec(cl, q + 1, "REFPY"@) {
                Err(e) => Err(e),
                Ok(pyv) => match to_u32_spec(pyv, "REFPY"@) {
                    Err(e) => Err(e),
                    Ok(refpy) => match kv_ci_spec(cl, q + 2, "DUTMS"@) {
                        Err(e) => Err(e),
                        Ok(dut_ms) => match kv_ci_spec(cl, q + 3, "XDIES"@) {
                            Err(e) => Err(e),
                            Ok(xv) => match to_scaled_spec(xv, "XDIES"@, 5) {
                                Err(e) => Err(e),
                                Ok(x_dies) => match kv_ci_spec(cl, q + 4, "YDIES"@) {
                                    Err(e) => Err(e),
                                    Ok(yv) => match to_scaled_spec(yv, "YDIES"@, 5) {
                                        Err(e) => Err(e),
                                        Ok(y_dies) => match hex_rows_spec(
                                            cl,
                                            q + 5,
                                            col_ct as int,
                                        ) {
                                            Err(e) => Err(e),
                                            Ok((raws, rows)) => {
                                                let pr = pad_rows(
                                                    raws,
                                                    rows,
                                                    row_ct as int,
                                                    col_ct as int,
                                                );
                                                Ok(
                                                    HexMapDataV {
                                                        header: HexHeaderV {
                                                            device,
                                                            lot,
                                                            wafer,
                                                            fnloc,
                                                            row_ct,
                                                            col_ct,
                                                            bcequ,
                                                            refpx,
                                                            refpy,
                                                            dut_ms,
                                                            x_dies,
                                                            y_dies,
                                                        },
                                                        map: HexMapV {
                                                            raw: pr.0,
                                                            grid: pr.1,
                                                            dies: hex_grid_dies(
                                                                pr.1,
                                                                col_ct as int,
                                                                row_ct as int,
                                                            ),
                                                        },
                                                    },
                                                )
                                            },
                                        },
                                    },
                                },
                            },
                        },
                    },
                },
            },
        },
    }
}

/// The cells of one row text, normalized to the declared column count.
fn parse_row_cells(row_text: &Vec<char>, col_ct: u32) -> (r: Result<Vec<HexCell>, FormatError>)
    ensures
        match r {
            Ok(cells) => match row_cells_spec(tokens_spec(row_text@)) {
                Ok(cs) => cells@ == normalize_row(cs, col_ct as int),
                Err(_) => false,
            },
            Err(e) => row_cells_spec(tokens_spec(row_text@)) == Err::<Seq<HexCell>, ErrorV>(e@),
        },
{
    let ghost ts = tokens_spec(row_text@);
    let toks = tokens_of(row_text);
    let mut cells: Vec<HexCell> = Vec::new();
    proof {
        assert(ts.subrange(0, ts.len() as int) =~= ts);
        if let Ok(cs) = row_cells_spec(ts) {
            assert(Seq::<HexCell>::empty() + cs =~= cs);
        }
    }
    let mut k: usize = 0;
    while k < toks.len()
        invariant
            k <= toks@.len(),
            toks@.len() == ts.len(),
            forall|t: int| 0 <= t < toks@.len() ==> (#[trigger] toks@[t])@ == ts[t],
            ts == tokens_spec(row_text@),
            row_cells_spec(ts) == match row_cells_spec(ts.subrange(k as int, ts.len() as int)) {
                Ok(rest) => Ok::<Seq<HexCell>, ErrorV>(cells@ + rest),
                Err(e) => Err::<Seq<HexCell>, ErrorV>(e),
            },
        decreases toks@.len() - k,
    {
        proof {
            let tail = ts.subrange(k as int, ts.len() as int);
            assert(tail[0] == ts[k as int]);
            assert(tail.drop_first() =~= ts.subrange(k + 1 as int, ts.len() as int));
        }
        let ghost cells0 = cells@;
        match parse_hex_cell_chars(&toks[k]) {
            Err(e) => {
                return Err(e);
            },
            Ok(c) => {
                cells.push(c);
                proof {
                    if let Ok(rest) = row_cells_spec(ts.subrange(k + 1 as int, ts.len() as int)) {
                        assert(cells0 + (seq![c] + rest) =~= cells@ + rest);
                    }
                }
            },
        }
        k = k + 1;
    }
    proof {
        let tail = ts.subrange(k as int, ts.len() as int);
        assert(tail.len() == 0);
        if let Ok(cs) = row_cells_spec(ts) {
            assert(cells@ + row_cells_spec(tail)->Ok_0 =~= cells@);
        }
    }
    let ghost cs0 = cells@;
    // Normalize to the declared width.
    let w = col_ct as usize;
    if cells.len() > w {
        proof {
            assert(cs0.subrange(0, cs0.len() as int) =~= cs0);
        }
        while cells.len() > w
            invariant
                w <= cells@.len() <= cs0.len(),
                cells@ == cs0.subrange(0, cells@.len() as int),
            decreases cells@.len(),
        {
            proof {
                assert(cs0.subrange(0, cells@.len() as int).drop_last() =~= cs0.subrange(
                    0,
                    cells@.len() - 1,
                ));
            }
            cells.pop();
        }
        proof {
            assert(cells@ =~= normalize_row(cs0, col_ct as int));
        }
    } else {
        while cells.len() < w
            invariant
                cs0.len() <= cells@.len() <= w,
                cells@ == cs0 + Seq::new((cells@.len() - cs0.len()) as nat, |i: int| HexCell(None)),
            decreases w - cells@.len(),
        {
            cells.push(HexCell(None));
            proof {
                assert(cells@ =~= cs0 + Seq::new(
                    (cells@.len() - cs0.len()) as nat,
                    |i: int| HexCell(None),
                ));
            }
        }
        proof {
            if cs0.len() == w as int {
                assert(cells@ =~= normalize_row(cs0, col_ct as int));
            } else {
                assert(cells@ =~= normalize_row(cs0, col_ct as int));
            }
        }
    }
    Ok(cells)
}

/// A row of empty cells of the declared width.
fn none_row(col_ct: u32) -> (r: Vec<HexCell>)
    ensures
        r@ == Seq::new(col_ct as nat, |i: int| HexCell(None)),
{
    let mut r: Vec<HexCell> = Vec::new();
    let mut i: usize = 0;
    while i < col_ct as usize
        invariant
            i <= col_ct as usize,
            r@ == Seq::new(i as nat, |k: int| HexCell(None)),
        decreases col_ct as usize - i,
    {
        r.push(HexCell(None));
        proof {
            assert(r@ =~= Seq::new((i + 1) as nat, |k: int| HexCell(None)));
        }
        i = i + 1;
    }
    r
}

impl HexMapData {
    /// Parses a HEX/SINF file, given as its sequence of lines.
    #[verifier::rlimit(100)]
    pub fn from_lines(lines: &[String]) -> (r: Result<HexMapData, FormatError>)
        requires
            lines@.len() <= i32::MAX as int,
        ensures
            match r {
                Ok(m) => hex_from_lines_spec(lines.deep_view()) == Ok::<HexMapDataV, ErrorV>(m@),
                Err(e) => hex_from_lines_spec(lines.deep_view()) == Err::<HexMapDataV, ErrorV>(
                    e@,
                ),
            },
    {
        let cl = clean_lines(lines);
        let ghost clv = cl.deep_view();
        proof {
            crate::wafer::lemma_non_blank_len(lines.deep_view());
            lemma_cleaned_len(lines.deep_view());
        }
        let mut pos: usize = 0;
        let device = match parse_kv_ci(&cl, &mut pos, "DEVICE") {
            Ok(v) => str_of(&v),
            Err(e) => return Err(e),
        };
        let lot = match parse_kv_ci(&cl, &mut pos, "LOT") {
            Ok(v) => str_of(&v),
            Err(e) => return Err(e),
        };
        let wafer = match parse_kv_ci(&cl, &mut pos, "WAFER") {
            Ok(v) => str_of(&v),
            Err(e) => return Err(e),
        };
        // Optional FNLOC, probed by peeking the next line.
        let fn_lit = chars_of("FNLOC");
        let fnloc: Option<u32> = if pos < cl.len() && starts_with(&cl[pos], &fn_lit) {
            proof {
                assert(clv[pos as int] == cl@[pos as int]@);
            }
            match parse_kv_ci(&cl, &mut pos, "FNLOC") {
                Ok(v) => match to_u32(&v, "FNLOC") {
                    Ok(n) => Some(n),
                    Err(e) => return Err(e),
                },
                Err(e) => return Err(e),
            }
        } else {
            proof {
                if pos < cl@.len() {
                    assert(clv[pos as int] == cl@[pos as int]@);
                }
            }
            None
        };
        let row_ct = match parse_kv_ci(&cl, &mut pos, "ROWCT") {
            Ok(v) => match to_dim(&v, "ROWCT") {
                Ok(n) => n,
                Err(e) => return Err(e),
            },
            Err(e) => return Err(e),
        };
        let col_ct = match parse_kv_ci(&cl, &mut pos, "COLCT") {
            Ok(v) => match to_dim(&v, "COLCT") {
                Ok(n) => n,
                Err(e) => return Err(e),
            },
            Err(e) => return Err(e),
        };
        // Optional BCEQU, probed the same way.
        let bc_lit = chars_of("BCEQU");
        let bcequ: Option<u32> = if pos < cl.len() && starts_with(&cl[pos], &bc_lit) {
            proof {
                assert(clv[pos as int] == cl@[pos as int]@);
            }
            match parse_kv_ci(&cl, &mut pos, "BCEQU") {
                Ok(v) => match to_u32(&v, "BCEQU") {
                    Ok(n) => Some(n),
                    Err(e) => return Err(e),
                },
                Err(e) => return Err(e),
            }
        } else {
            proof {
                if pos < cl@.len() {
                    assert(clv[pos as int] == cl@[pos as int]@);
                }
            }
            None
        };
        let refpx = match parse_kv_ci(&cl, &mut pos, "REFPX") {
            Ok(v) => match to_u32(&v, "REFPX") {
                Ok(n) => n,
                Err(e) => return Err(e),
            },
            Err(e) => return Err(e),
        };
        let refpy = match parse_kv_ci(&cl, &mut pos, "REFPY") {
            Ok(v) => match to_u32(&v, "REFPY") {
                Ok(n) => n,
                Err(e) => return Err(e),
            },
            Err(e) => return Err(e),
        };
        let dut_ms = match parse_kv_ci(&cl, &mut pos, "DUTMS") {
            Ok(v) => str_of(&v),
            Err(e) => return Err(e),
        };
        let x_dies = match parse_kv_ci(&cl, &mut pos, "XDIES") {
            Ok(v) => match to_scaled(&v, "XDIES", 5) {
                Ok(n) => n,
                Err(e) => return Err(e),
            },
            Err(e) => return Err(e),
        };
        let y_dies = match parse_kv_ci(&cl, &mut pos, "YDIES") {
            Ok(v) => match to_scaled(&v, "YDIES", 5) {
                Ok(n) => n,
                Err(e) => return Err(e),
            },
            Err(e) => return Err(e),
        };
        // The RowData section.
        let (raw, grid) = match scan_rows(&cl, pos, col_ct) {
            Ok(rg) => rg,
            Err(e) => return Err(e),
        };
        let (raw, grid) = pad_grid(raw, grid, row_ct, col_ct);
        proof {
            assert(grid@.len() <= i32::MAX as int);
        }
        // Flatten the populated cells into centered dies.
        let dies = collect_hex_dies(&grid, col_ct, row_ct);
        Ok(
            HexMapData {
                header: HexHeader {
                    device,
                    lot,
                    wafer,
                    fnloc,
                    row_ct,
                    col_ct,
                    bcequ,
                    refpx,
                    refpy,
                    dut_ms,
                    x_dies,
                    y_dies,
                },
                map: HexMap { raw, grid, dies },
            },
        )
    }
}

/// Scans the `RowData:` section from `start`, returning the raw row texts
/// and the normalized cell rows.
#[verifier::rlimit(100)]
fn scan_rows(cl: &Vec<Vec<char>>, start: usize, col_ct: u32) -> (r: Result<
    (Vec<String>, Vec<Vec<HexCell>>),
    FormatError,
>)
    requires
        start <= cl@.len(),
    ensures
        match r {
            Ok(rg) => {
                &&& hex_rows_spec(cl.deep_view(), start as int, col_ct as int) == Ok::<
                    (Seq<Seq<char>>, Seq<Seq<HexCell>>),
                    ErrorV,
                >((rg.0.deep_view(), rg.1.deep_view()))
                &&& rg.0@.len() == rg.1@.len()
                &&& rg.1@.len() as int + start as int <= cl@.len() + 1
                &&& forall|k: int|
                    0 <= k < rg.1@.len() ==> (#[trigger] rg.1@[k])@.len() == col_ct as int
            },
            Err(e) => hex_rows_spec(cl.deep_view(), start as int, col_ct as int) == Err::<
                (Seq<Seq<char>>, Seq<Seq<HexCell>>),
                ErrorV,
            >(e@),
        },
{
    let ghost clv = cl.deep_view();
    let mut raw: Vec<String> = Vec::new();
    let mut grid: Vec<Vec<HexCell>> = Vec::new();
    let mut p: usize = start;
    proof {
        if let Ok((raws, rows)) = hex_rows_spec(clv, start as int, col_ct as int) {
            assert(Seq::<Seq<char>>::empty() + raws =~~= raws);
            assert(Seq::<Seq<HexCell>>::empty() + rows =~~= rows);
        }
    }
    let rd_lit = chars_of("RowData");
    #[verifier::loop_isolation(false)]
    while p < cl.len()
        invariant
            start as int <= p as int,
            p as int <= cl@.len() || p as int == cl@.len() + 1,
            rd_lit@ == "RowData"@,
            clv == cl.deep_view(),
            raw@.len() == grid@.len(),
            grid@.len() as int + start as int <= p as int,
            forall|k: int|
                0 <= k < grid@.len() ==> (#[trigger] grid@[k])@.len() == col_ct as int,
            match hex_rows_spec(clv, p as int, col_ct as int) {
                Ok((raws, rows)) => hex_rows_spec(clv, start as int, col_ct as int) == Ok::<
                    (Seq<Seq<char>>, Seq<Seq<HexCell>>),
                    ErrorV,
                >((raw.deep_view() + raws, grid.deep_view() + rows)),
                Err(e) => hex_rows_spec(clv, start as int, col_ct as int) == Err::<
                    (Seq<Seq<char>>, Seq<Seq<HexCell>>),
                    ErrorV,
                >(e),
            },
        decreases cl@.len() - p,
    {
        proof {
            assert(clv[p as int] == cl@[p as int]@);
        }
        if !starts_with(&cl[p], &rd_lit) {
            p = p + 1;
            continue ;
        }
        let line: &Vec<char> = &cl[p];
        proof {
            lemma_find_char(line@, ':');
        }
        let after: Vec<char> = match find_char(line, ':') {
            None => Vec::new(),
            Some(ci) => {
                let n = line.len();
                proof {
                    assert(ci < line@.len());
                }
                trim_chars(&subrange_vec(line, ci + 1, n))
            },
        };
        let ghost raw0 = raw.deep_view();
        let ghost grid0 = grid.deep_view();
        if after.len() == 0 {
            if p + 1 >= cl.len() {
                return Err(
                    FormatError::MissingMapSection { marker: String::from_str("RowData") },
                );
            }
            proof {
                assert(clv[p + 1 as int] == cl@[p + 1 as int]@);
            }
            let row_text: &Vec<char> = &cl[p + 1];
            match parse_row_cells(row_text, col_ct) {
                Err(e) => {
                    return Err(e);
                },
                Ok(cells) => {
                    raw.push(str_of(row_text));
                    grid.push(cells);
                    proof {
                        if let Ok((raws, rows)) = hex_rows_spec(clv, p + 2 as int, col_ct as int) {
                            assert(raw.deep_view() =~~= raw0 + seq![clv[p + 1 as int]]);
                            assert(raw0 + (seq![clv[p + 1 as int]] + raws) =~~= raw.deep_view()
                                + raws);
                            if let Ok(cs) = row_cells_spec(tokens_spec(clv[p + 1 as int])) {
                                assert(grid.deep_view() =~~= grid0 + seq![
                                    normalize_row(cs, col_ct as int),
                                ]);
                                assert(grid0 + (seq![normalize_row(cs, col_ct as int)] + rows)
                                    =~~= grid.deep_view() + rows);
                            }
                        }
                    }
                    p = p + 2;
                },
            }
        } else {
            match parse_row_cells(&after, col_ct) {
                Err(e) => {
                    return Err(e);
                },
                Ok(cells) => {
                    raw.push(str_of(&after));
                    grid.push(cells);
                    proof {
                        if let Ok((raws, rows)) = hex_rows_spec(clv, p + 1 as int, col_ct as int) {
                            assert(raw.deep_view() =~~= raw0 + seq![after@]);
                            assert(raw0 + (seq![after@] + raws) =~~= raw.deep_view() + raws);
                            if let Ok(cs) = row_cells_spec(tokens_spec(after@)) {
                                assert(grid.deep_view() =~~= grid0 + seq![
                                    normalize_row(cs, col_ct as int),
                                ]);
                                assert(grid0 + (seq![normalize_row(cs, col_ct as int)] + rows)
                                    =~~= grid.deep_view() + rows);
                            }
                        }
                    }
                    p = p + 1;
                },
            }
        }
    }
    proof {
        assert(hex_rows_spec(clv, p as int, col_ct as int) == Ok::<
            (Seq<Seq<char>>, Seq<Seq<HexCell>>),
            ErrorV,
        >((Seq::<Seq<char>>::empty(), Seq::<Seq<HexCell>>::empty())));
        if let Ok((raws, rows)) = hex_rows_spec(clv, start as int, col_ct as int) {
            assert(raw.deep_view() + Seq::<Seq<char>>::empty() =~~= raw.deep_view());
            assert(grid.deep_view() + Seq::<Seq<HexCell>>::empty() =~~= grid.deep_view());
        }
    }
    Ok((raw, grid))
}

/// Pads the scanned rows with empty trailing rows up to the declared row
/// count.
fn pad_grid(raw: Vec<String>, grid: Vec<Vec<HexCell>>, row_ct: u32, col_ct: u32) -> (r: (
    Vec<String>,
    Vec<Vec<HexCell>>,
))
    requires
        raw@.len() == grid@.len(),
        forall|k: int| 0 <= k < grid@.len() ==> (#[trigger] grid@[k])@.len() == col_ct as int,
    ensures
        ({
            let pr = pad_rows(raw.deep_view(), grid.deep_view(), row_ct as int, col_ct as int);
            &&& r.0.deep_view() == pr.0
            &&& r.1.deep_view() == pr.1
            &&& r.0@.len() == r.1@.len()
            &&& r.1@.len() as int == (if grid@.len() >= row_ct as int {
                grid@.len() as int
            } else {
                row_ct as int
            })
            &&& forall|k: int|
                0 <= k < r.1@.len() ==> (#[trigger] r.1@[k])@.len() == col_ct as int
        }),
{
    let ghost raws1 = raw.deep_view();
    let ghost rows1 = grid.deep_view();
    let ghost found = grid@.len() as int;
    let mut raw = raw;
    let mut grid = grid;
    proof {
        assert(raw.deep_view() =~~= raws1 + Seq::new(0, |i: int| Seq::<char>::empty()));
        assert(grid.deep_view() =~~= rows1 + Seq::new(
            0,
            |i: int| Seq::new(col_ct as nat, |j: int| HexCell(None)),
        ));
    }
    while grid.len() < row_ct as usize
        invariant
            raw@.len() == grid@.len(),
            found <= grid@.len() as int,
            found == rows1.len(),
            found == raws1.len(),
            grid@.len() as int <= found || grid@.len() as int <= row_ct as int,
            forall|k: int|
                0 <= k < grid@.len() ==> (#[trigger] grid@[k])@.len() == col_ct as int,
            raw.deep_view() == raws1 + Seq::new(
                (grid@.len() - found) as nat,
                |i: int| Seq::<char>::empty(),
            ),
            grid.deep_view() == rows1 + Seq::new(
                (grid@.len() - found) as nat,
                |i: int| Seq::new(col_ct as nat, |j: int| HexCell(None)),
            ),
        decreases row_ct as int - grid@.len() as int,
    {
        let s = String::new();
        let ghost sv = s@;
        let ghost old_rdeep = raw.deep_view();
        raw.push(s);
        proof {
            assert(raw.deep_view() =~~= old_rdeep.push(sv));
            assert(old_rdeep.push(sv) =~~= raws1 + Seq::new(
                (raw@.len() - found) as nat,
                |i: int| Seq::<char>::empty(),
            ));
        }
        let nr = none_row(col_ct);
        let ghost nrv = nr@;
        let ghost old_gdeep = grid.deep_view();
        grid.push(nr);
        proof {
            assert(grid.deep_view() =~~= old_gdeep.push(nrv));
            assert(old_gdeep.push(nrv) =~~= rows1 + Seq::new(
                (grid@.len() - found) as nat,
                |i: int| Seq::new(col_ct as nat, |j: int| HexCell(None)),
            ));
        }
    }
    proof {
        let pr = pad_rows(raws1, rows1, row_ct as int, col_ct as int);
        if found >= row_ct as int {
            assert(raw.deep_view() =~~= raws1 + Seq::new(0, |i: int| Seq::<char>::empty()));
            assert(raw.deep_view() =~~= pr.0);
            assert(grid.deep_view() =~~= pr.1);
        } else {
            assert(raw.deep_view() =~~= pr.0);
            assert(grid.deep_view() =~~= pr.1);
        }
    }
    (raw, grid)
}

/// Every die of a hex row sits on that row, addresses a populated cell
/// inside it, and carries that cell's byte as its bin.
pub proof fn lemma_hex_row_dies_props(row: Seq<HexCell>, col_ct: int, row_ct: int, r: int)
    requires
        0 <= col_ct <= i32::MAX as int,
        0 <= row_ct <= i32::MAX as int,
        0 <= r <= i32::MAX as int,
        row.len() <= col_ct,
    ensures
        forall|i: int|
            0 <= i < hex_row_dies(row, col_ct, row_ct, r).len() ==> {
                let d = #[trigger] hex_row_dies(row, col_ct, row_ct, r)[i];
                &&& (d.y as int) == r - row_ct / 2
                &&& 0 <= (d.x as int) + col_ct / 2 < row.len()
                &&& row[(d.x as int) + col_ct / 2].0 is Some
                &&& d.bin == BinValue::Number(row[(d.x as int) + col_ct / 2].0->0 as i32)
            },
    decreases row.len(),
{
    if row.len() > 0 {
        lemma_hex_row_dies_props(row.drop_last(), col_ct, row_ct, r);
        let pre = hex_row_dies(row.drop_last(), col_ct, row_ct, r);
        assert(forall|j: int|
            0 <= j < row.len() - 1 ==> row[j] == #[trigger] row.drop_last()[j]);
        assert forall|i: int| 0 <= i < hex_row_dies(row, col_ct, row_ct, r).len() implies {
            let d = #[trigger] hex_row_dies(row, col_ct, row_ct, r)[i];
            &&& (d.y as int) == r - row_ct / 2
            &&& 0 <= (d.x as int) + col_ct / 2 < row.len()
            &&& row[(d.x as int) + col_ct / 2].0 is Some
            &&& d.bin == BinValue::Number(row[(d.x as int) + col_ct / 2].0->0 as i32)
        } by {
            match row.last().0 {
                Some(v) => {
                    if i < pre.len() {
                        assert(hex_row_dies(row, col_ct, row_ct, r)[i] == pre[i]);
                    } else {
                        let d = hex_row_dies(row, col_ct, row_ct, r)[i];
                        assert((d.x as int) == row.len() - 1 - col_ct / 2);
                        assert((d.y as int) == r - row_ct / 2);
                    }
                },
                None => {
                    assert(hex_row_dies(row, col_ct, row_ct, r) == pre);
                },
            }
        }
    }
}

/// Every die of a hex grid sits on one of its rows, addresses a populated
/// cell, and carries that cell's byte.
pub proof fn lemma_hex_grid_dies_props(grid: Seq<Seq<HexCell>>, col_ct: int, row_ct: int)
    requires
        0 <= col_ct <= i32::MAX as int,
        0 <= row_ct <= i32::MAX as int,
        grid.len() <= i32::MAX as int,
        forall|k: int| 0 <= k < grid.len() ==> (#[trigger] grid[k]).len() <= col_ct,
    ensures
        forall|i: int|
            0 <= i < hex_grid_dies(grid, col_ct, row_ct).len() ==> {
                let d = #[trigger] hex_grid_dies(grid, col_ct, row_ct)[i];
                &&& 0 <= (d.y as int) + row_ct / 2 < grid.len()
                &&& 0 <= (d.x as int) + col_ct / 2 < grid[(d.y as int) + row_ct / 2].len()
                &&& grid[(d.y as int) + row_ct / 2][(d.x as int) + col_ct / 2].0 is Some
                &&& d.bin == BinValue::Number(
                    grid[(d.y as int) + row_ct / 2][(d.x as int) + col_ct / 2].0->0 as i32,
                )
            },
    decreases grid.len(),
{
    if grid.len() > 0 {
        lemma_hex_grid_dies_props(grid.drop_last(), col_ct, row_ct);
        lemma_hex_row_dies_props(grid.last(), col_ct, row_ct, grid.len() - 1);
        let pre = hex_grid_dies(grid.drop_last(), col_ct, row_ct);
        let tail = hex_row_dies(grid.last(), col_ct, row_ct, grid.len() - 1);
        assert(hex_grid_dies(grid, col_ct, row_ct) == pre + tail);
        assert(forall|k: int|
            0 <= k < grid.len() - 1 ==> grid[k] == #[trigger] grid.drop_last()[k]);
        assert forall|i: int| 0 <= i < hex_grid_dies(grid, col_ct, row_ct).len() implies {
            let d = #[trigger] hex_grid_dies(grid, col_ct, row_ct)[i];
            &&& 0 <= (d.y as int) + row_ct / 2 < grid.len()
            &&& 0 <= (d.x as int) + col_ct / 2 < grid[(d.y as int) + row_ct / 2].len()
            &&& grid[(d.y as int) + row_ct / 2][(d.x as int) + col_ct / 2].0 is Some
            &&& d.bin == BinValue::Number(
                grid[(d.y as int) + row_ct / 2][(d.x as int) + col_ct / 2].0->0 as i32,
            )
        } by {
            if i < pre.len() {
                assert(hex_grid_dies(grid, col_ct, row_ct)[i] == pre[i]);
            } else {
                assert(hex_grid_dies(grid, col_ct, row_ct)[i] == tail[i - pre.len()]);
            }
        }
    }
}

/// Every normalized row of the scanned section has exactly the declared
/// width.
pub proof fn lemma_hex_rows_widths(ls: Seq<Seq<char>>, pos: int, col_ct: int)
    requires
        col_ct >= 0,
    ensures
        match hex_rows_spec(ls, pos, col_ct) {
            Ok((raws, rows)) => forall|k: int|
                0 <= k < rows.len() ==> (#[trigger] rows[k]).len() == col_ct,
            Err(_) => true,
        },
    decreases ls.len() - pos,
{
    if pos < 0 || pos >= ls.len() {
    } else if !starts_with_spec(ls[pos], "RowData"@) {
        lemma_hex_rows_widths(ls, pos + 1, col_ct);
    } else {
        let ci = find_char_spec(ls[pos], ':');
        let after = if ci == -1 {
            Seq::<char>::empty()
        } else {
            trim_spec(ls[pos].subrange(ci + 1, ls[pos].len() as int))
        };
        if after.len() == 0 {
            if pos + 1 < ls.len() {
                lemma_hex_rows_widths(ls, pos + 2, col_ct);
            }
        } else {
            lemma_hex_rows_widths(ls, pos + 1, col_ct);
        }
    }
}

/// What a successful hex parse pins down about the grid.
proof fn lemma_hex_grid_facts(lines: Seq<Seq<char>>, m: HexMapDataV)
    requires
        hex_from_lines_spec(lines) == Ok::<HexMapDataV, ErrorV>(m),
    ensures
        m.map.dies == hex_grid_dies(m.map.grid, m.header.col_ct as int, m.header.row_ct as int),
        m.map.grid.len() >= m.header.row_ct as int,
        forall|k: int|
            0 <= k < m.map.grid.len() ==> (#[trigger] m.map.grid[k]).len() == m.header.col_ct
                as int,
        m.header.col_ct <= i32::MAX as u32,
        m.header.row_ct <= i32::MAX as u32,
{
    let cl = cleaned(lines);
    let p3: int = if 3 < cl.len() && starts_with_spec(cl[3], "FNLOC"@) {
        4
    } else {
        3
    };
    let q: int = if p3 + 2 < cl.len() && starts_with_spec(cl[p3 + 2], "BCEQU"@) {
        p3 + 3
    } else {
        p3 + 2
    };
    lemma_hex_rows_widths(cl, q + 5, m.header.col_ct as int);
}

/// Centering invariant: when the file declares at least as many rows as it
/// carries, every die of a parsed hex map has `x` in
/// `[-(C/2), C - C/2 - 1]` and `y` in `[-(R/2), R - R/2 - 1]` for the
/// declared `COLCT` and `ROWCT`.
pub proof fn lemma_hex_centering(lines: Seq<Seq<char>>, m: HexMapDataV)
    requires
        hex_from_lines_spec(lines) == Ok::<HexMapDataV, ErrorV>(m),
        m.map.grid.len() <= m.header.row_ct as int,
    ensures
        forall|i: int|
            0 <= i < m.map.dies.len() ==> {
                let d = #[trigger] m.map.dies[i];
                let cols = m.header.col_ct as int;
                let rows = m.header.row_ct as int;
                &&& -(cols / 2) <= (d.x as int) <= cols - cols / 2 - 1
                &&& -(rows / 2) <= (d.y as int) <= rows - rows / 2 - 1
            },
{
    lemma_hex_grid_facts(lines, m);
    lemma_hex_grid_dies_props(
        m.map.grid,
        m.header.col_ct as int,
        m.header.row_ct as int,
    );
}

/// Placeholder exclusion: a parsed hex map has no die at the centered
/// coordinates of any `--` cell.
pub proof fn lemma_hex_placeholder_excluded(lines: Seq<Seq<char>>, m: HexMapDataV, r: int, c: int)
    requires
        hex_from_lines_spec(lines) == Ok::<HexMapDataV, ErrorV>(m),
        m.map.grid.len() <= i32::MAX as int,
        0 <= r < m.map.grid.len(),
        0 <= c < m.map.grid[r].len(),
        m.map.grid[r][c].0 is None,
    ensures
        forall|i: int|
            0 <= i < m.map.dies.len() ==> !((#[trigger] m.map.dies[i].x as int) == c
                - m.header.col_ct as int / 2 && (m.map.dies[i].y as int) == r - m.header.row_ct
                as int / 2),
{
    lemma_hex_grid_facts(lines, m);
    let cols = m.header.col_ct as int;
    let rows = m.header.row_ct as int;
    lemma_hex_grid_dies_props(m.map.grid, cols, rows);
    assert forall|i: int| 0 <= i < m.map.dies.len() implies !((#[trigger] m.map.dies[i].x
        as int) == c - cols / 2 && (m.map.dies[i].y as int) == r - rows / 2) by {
        let d = m.map.dies[i];
        if (d.x as int) == c - cols / 2 && (d.y as int) == r - rows / 2 {
            assert(m.map.grid[(d.y as int) + rows / 2][(d.x as int) + cols / 2].0 is Some);
        }
    }
}

/// The serialized text of one grid cell: two upper-case hex digits, or the
/// `--` placeholder.
pub open spec fn cell_text(c: HexCell) -> Seq<char> {
    match c.0 {
        Some(v) => crate::num::hex2_str(v as int),
        None => seq!['-', '-'],
    }
}

/// The serialized text of one grid row: its cells, space-separated.
pub open spec fn row_text(row: Seq<HexCell>) -> Seq<char>
    decreases row.len(),
{
    if row.len() == 0 {
        Seq::<char>::empty()
    } else if row.len() == 1 {
        cell_text(row[0])
    } else {
        row_text(row.drop_last()) + seq![' '] + cell_text(row.last())
    }
}

/// The serialized header of a HEX/SINF file; the optional fields appear
/// only when present, and `BCEQU` is zero-padded to two digits.
pub open spec fn hex_header_text(h: HexHeaderV) -> Seq<char> {
    "DEVICE: "@ + h.device + seq!['\n'] + "LOT: "@ + h.lot + seq!['\n'] + "WAFER: "@ + h.wafer
        + seq!['\n'] + (match h.fnloc {
        Some(v) => "FNLOC: "@ + crate::num::dec_str(v as nat) + seq!['\n'],
        None => Seq::<char>::empty(),
    }) + "ROWCT: "@ + crate::num::dec_str(h.row_ct as nat) + seq!['\n'] + "COLCT: "@
        + crate::num::dec_str(h.col_ct as nat) + seq!['\n'] + (match h.bcequ {
        Some(v) => "BCEQU: "@ + crate::num::pad_left(crate::num::dec_str(v as nat), '0', 2)
            + seq!['\n'],
        None => Seq::<char>::empty(),
    }) + "REFPX: "@ + crate::num::dec_str(h.refpx as nat) + seq!['\n'] + "REFPY: "@
        + crate::num::dec_str(h.refpy as nat) + seq!['\n'] + "DUTMS: "@ + h.dut_ms + seq!['\n']
        + "XDIES: "@ + crate::num::scaled_str(h.x_dies as int, 5) + seq!['\n'] + "YDIES: "@
        + crate::num::scaled_str(h.y_dies as int, 5) + seq!['\n']
}

/// The serialized text of a HEX/SINF record: the header, then one
/// `RowData: ` line per grid row.
pub open spec fn hex_text_spec(m: HexMapDataV) -> Seq<char> {
    hex_header_text(m.header) + crate::text::join_lines(
        m.map.grid.map_values(|r: Seq<HexCell>| "RowData: "@ + row_text(r)),
    )
}

impl HexMapData {
    /// Re-serializes this record into the HEX/SINF text layout.
    #[verifier::rlimit(100)]
    pub fn to_string(&self) -> (s: String)
        requires
            self.header.x_dies > i64::MIN,
            self.header.y_dies > i64::MIN,
        ensures
            s@ == hex_text_spec(self@),
    {
        let mut out: Vec<char> = Vec::new();
        crate::text::append_str(&mut out, "DEVICE: ");
        crate::text::append_str(&mut out, self.header.device.as_str());
        out.push('\n');
        crate::text::append_str(&mut out, "LOT: ");
        crate::text::append_str(&mut out, self.header.lot.as_str());
        out.push('\n');
        crate::text::append_str(&mut out, "WAFER: ");
        crate::text::append_str(&mut out, self.header.wafer.as_str());
        out.push('\n');
        match self.header.fnloc {
            Some(v) => {
                crate::text::append_str(&mut out, "FNLOC: ");
                let d = crate::num::fmt_u64(v as u64);
                crate::text::append_chars(&mut out, &d);
                out.push('\n');
            },
            None => {},
        }
        crate::text::append_str(&mut out, "ROWCT: ");
        let d = crate::num::fmt_u64(self.header.row_ct as u64);
        crate::text::append_chars(&mut out, &d);
        out.push('\n');
        crate::text::append_str(&mut out, "COLCT: ");
        let d = crate::num::fmt_u64(self.header.col_ct as u64);
        crate::text::append_chars(&mut out, &d);
        out.push('\n');
        match self.header.bcequ {
            Some(v) => {
                crate::text::append_str(&mut out, "BCEQU: ");
                let d = crate::num::fmt_u64(v as u64);
                if d.len() < 2 {
                    let n = 2 - d.len();
                    crate::num::push_repeat(&mut out, '0', n);
                }
                crate::text::append_chars(&mut out, &d);
                out.push('\n');
            },
            None => {},
        }
        crate::text::append_str(&mut out, "REFPX: ");
        let d = crate::num::fmt_u64(self.header.refpx as u64);
        crate::text::append_chars(&mut out, &d);
        out.push('\n');
        crate::text::append_str(&mut out, "REFPY: ");
        let d = crate::num::fmt_u64(self.header.refpy as u64);
        crate::text::append_chars(&mut out, &d);
        out.push('\n');
        crate::text::append_str(&mut out, "DUTMS: ");
        crate::text::append_str(&mut out, self.header.dut_ms.as_str());
        out.push('\n');
        crate::text::append_str(&mut out, "XDIES: ");
        let d = crate::num::fmt_scaled(self.header.x_dies, 5);
        crate::text::append_chars(&mut out, &d);
        out.push('\n');
        crate::text::append_str(&mut out, "YDIES: ");
        let d = crate::num::fmt_scaled(self.header.y_dies, 5);
        crate::text::append_chars(&mut out, &d);
        out.push('\n');
        proof {
            assert(out@ =~= hex_header_text(self@.header));
        }
        let ghost pre = out@;
        let ghost rls = self.map.grid.deep_view().map_values(
            |r: Seq<HexCell>| "RowData: "@ + row_text(r),
        );
        let mut k: usize = 0;
        while k < self.map.grid.len()
            invariant
                k <= self.map.grid@.len(),
                rls == self.map.grid.deep_view().map_values(
                    |r: Seq<HexCell>| "RowData: "@ + row_text(r),
                ),
                out@ == pre + crate::text::join_lines(rls.subrange(0, k as int)),
            decreases self.map.grid@.len() - k,
        {
            proof {
                assert(rls.subrange(0, k + 1 as int).drop_last() =~= rls.subrange(0, k as int));
                assert(rls.subrange(0, k + 1 as int).last() == rls[k as int]);
                assert(self.map.grid.deep_view()[k as int] =~= self.map.grid@[k as int]@);
                assert(rls[k as int] == "RowData: "@ + row_text(self.map.grid@[k as int]@));
            }
            crate::text::append_str(&mut out, "RowData: ");
            let row: &Vec<HexCell> = &self.map.grid[k];
            let mut c: usize = 0;
            let ghost row_pre = out@;
            #[verifier::loop_isolation(false)]
            while c < row.len()
                invariant
                    c <= row@.len(),
                    out@ == row_pre + row_text(row@.subrange(0, c as int)),
                decreases row@.len() - c,
            {
                proof {
                    assert(row@.subrange(0, c + 1 as int).drop_last() =~= row@.subrange(
                        0,
                        c as int,
                    ));
                    assert(row@.subrange(0, c + 1 as int).last() == row@[c as int]);
                }
                if c > 0 {
                    out.push(' ');
                }
                match row[c].0 {
                    Some(v) => {
                        crate::num::push_hex2(&mut out, v);
                    },
                    None => {
                        out.push('-');
                        out.push('-');
                    },
                }
                proof {
                    if c == 0 {
                        assert(row@.subrange(0, 1) =~= seq![row@[0]]);
                        assert(out@ =~= row_pre + row_text(row@.subrange(0, 1)));
                    } else {
                        assert(out@ =~= row_pre + row_text(row@.subrange(0, c + 1 as int)));
                    }
                }
                c = c + 1;
            }
            out.push('\n');
            proof {
                assert(row@.subrange(0, c as int) =~= row@);
                assert(out@ =~= pre + crate::text::join_lines(rls.subrange(0, k + 1 as int)));
            }
            k = k + 1;
        }
        proof {
            assert(rls.subrange(0, k as int) =~= rls);
            assert(out@ =~= hex_text_spec(self@));
        }
        crate::text::str_of(&out)
    }
}

pub proof fn lemma_cleaned_len(ls: Seq<Seq<char>>)
    ensures
        cleaned(ls).len() <= ls.len(),
    decreases ls.len(),
{
    if ls.len() > 0 {
        lemma_cleaned_len(ls.drop_last());
    }
}

/// The centered dies of every populated cell of the grid.
fn collect_hex_dies(grid: &Vec<Vec<HexCell>>, col_ct: u32, row_ct: u32) -> (dies: Vec<AsciiDie>)
    requires
        col_ct <= i32::MAX as u32,
        row_ct <= i32::MAX as u32,
        grid@.len() <= i32::MAX as int,
        forall|k: int| 0 <= k < grid@.len() ==> (#[trigger] grid@[k])@.len() <= col_ct as int,
    ensures
        dies@ == hex_grid_dies(grid.deep_view(), col_ct as int, row_ct as int),
{
    let ghost gv = grid.deep_view();
    let mut dies: Vec<AsciiDie> = Vec::new();
    let mut r: usize = 0;
    while r < grid.len()
        invariant
            r <= grid@.len(),
            gv == grid.deep_view(),
            col_ct <= i32::MAX as u32,
            row_ct <= i32::MAX as u32,
            grid@.len() <= i32::MAX as int,
            forall|k: int| 0 <= k < grid@.len() ==> (#[trigger] grid@[k])@.len() <= col_ct as int,
            dies@ == hex_grid_dies(gv.subrange(0, r as int), col_ct as int, row_ct as int),
        decreases grid@.len() - r,
    {
        proof {
            assert(gv.subrange(0, r + 1 as int).drop_last() =~= gv.subrange(0, r as int));
            assert(gv.subrange(0, r + 1 as int).last() == gv[r as int]);
            assert(gv[r as int] =~= grid@[r as int]@);
        }
        let row: &Vec<HexCell> = &grid[r];
        let y = (r as i32) - (row_ct as i32) / 2;
        let mut c: usize = 0;
        #[verifier::loop_isolation(false)]
        while c < row.len()
            invariant
                c <= row@.len(),
                dies@ == hex_grid_dies(gv.subrange(0, r as int), col_ct as int, row_ct as int)
                    + hex_row_dies(
                    row@.subrange(0, c as int),
                    col_ct as int,
                    row_ct as int,
                    r as int,
                ),
            decreases row@.len() - c,
        {
            proof {
                assert(row@.subrange(0, c + 1 as int).drop_last() =~= row@.subrange(0, c as int));
                assert(row@.subrange(0, c + 1 as int).last() == row@[c as int]);
            }
            match row[c].0 {
                Some(v) => {
                    let x = (c as i32) - (col_ct as i32) / 2;
                    dies.push(AsciiDie { x, y, bin: BinValue::Number(v as i32) });
                },
                None => {},
            }
            c = c + 1;
        }
        proof {
            assert(row@.subrange(0, c as int) =~= row@);
            assert(hex_grid_dies(gv.subrange(0, r + 1 as int), col_ct as int, row_ct as int)
                == hex_grid_dies(gv.subrange(0, r as int), col_ct as int, row_ct as int)
                + hex_row_dies(gv[r as int], col_ct as int, row_ct as int, r as int));
        }
        r = r + 1;
    }
    proof {
        assert(gv.subrange(0, r as int) =~= gv);
    }
    dies
}

} // verus!
