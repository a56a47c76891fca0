//! The plain ASCII prober-map codec: nine ordered `"Key: Value"` header
//! lines, a bare notch-orientation line, then a blank-tolerant ASCII grid
//! whose dimensions are inferred from the grid text itself (row count =
//! number of non-blank lines, column count = longest line).

use vstd::prelude::*;
use crate::errors::ErrorV;
use crate::errors::FormatError;
use crate::header::kv_spec;
use crate::header::parse_kv;
use crate::header::strip_pct;
use crate::header::strip_pct_spec;
use crate::header::to_scaled;
use crate::header::to_scaled_spec;
use crate::header::to_u32;
use crate::header::to_u32_spec;
use crate::model::AsciiMap;
use crate::model::AsciiMapV;
use crate::model::collect_row_dies;
use crate::model::grid_dies;
use crate::num::dec_str;
use crate::num::fmt_u64;
use crate::num::fmt_scaled;
use crate::num::scaled_str;
use crate::text::append_chars;
use crate::text::append_str;
use crate::text::chars_of;
use crate::text::is_blank;
use crate::text::is_blank_spec;
use crate::text::str_of;
use crate::text::trim_chars;
use crate::text::trim_spec;

verus! {

/// The non-blank lines of `ls`, in order, kept verbatim.
pub open spec fn non_blank(ls: Seq<Seq<char>>) -> Seq<Seq<char>>
    decreases ls.len(),
{
    if ls.len() == 0 {
        Seq::<Seq<char>>::empty()
    } else {
        let r = non_blank(ls.drop_last());
        if is_blank_spec(ls.last()) {
            r
        } else {
            r.push(ls.last())
        }
    }
}

pub proof fn lemma_non_blank_len(ls: Seq<Seq<char>>)
    ensures
        non_blank(ls).len() <= ls.len(),
    decreases ls.len(),
{
    if ls.len() > 0 {
        lemma_non_blank_len(ls.drop_last());
    }
}

/// The length of the longest line of `ls`.
pub open spec fn max_line_len(ls: Seq<Seq<char>>) -> int
    decreases ls.len(),
{
    if ls.len() == 0 {
        0
    } else {
        let m = max_line_len(ls.drop_last());
        if ls.last().len() > m {
            ls.last().len() as int
        } else {
            m
        }
    }
}

pub proof fn lemma_max_line_len(ls: Seq<Seq<char>>)
    ensures
        forall|k: int| 0 <= k < ls.len() ==> #[trigger] ls[k].len() <= max_line_len(ls),
        max_line_len(ls) >= 0,
    decreases ls.len(),
{
    if ls.len() > 0 {
        lemma_max_line_len(ls.drop_last());
        assert forall|k: int| 0 <= k < ls.len() implies #[trigger] ls[k].len() <= max_line_len(
            ls,
        ) by {
            if k < ls.len() - 1 {
                assert(ls[k] == ls.drop_last()[k]);
                assert(ls.drop_last()[k].len() <= max_line_len(ls.drop_last()));
            }
        }
    }
}

/// Every non-blank line is one of the original lines.
pub proof fn lemma_non_blank_elems(ls: Seq<Seq<char>>)
    ensures
        forall|k: int|
            0 <= k < non_blank(ls).len() ==> exists|j: int|
                0 <= j < ls.len() && #[trigger] non_blank(ls)[k] == ls[j],
    decreases ls.len(),
{
    if ls.len() > 0 {
        lemma_non_blank_elems(ls.drop_last());
        let r = non_blank(ls.drop_last());
        assert forall|k: int| 0 <= k < non_blank(ls).len() implies exists|j: int|
            0 <= j < ls.len() && #[trigger] non_blank(ls)[k] == ls[j] by {
            if k < r.len() {
                assert(non_blank(ls)[k] == r[k]);
                let j = choose|j: int| 0 <= j < ls.drop_last().len() && r[k] == ls.drop_last()[j];
                assert(ls.drop_last()[j] == ls[j]);
                assert(non_blank(ls)[k] == ls[j]);
            } else {
                assert(non_blank(ls)[k] == ls[ls.len() - 1]);
            }
        }
    }
}

/// No line kept by `non_blank` is blank.
pub proof fn lemma_non_blank_kept(ls: Seq<Seq<char>>)
    ensures
        forall|k: int|
            0 <= k < non_blank(ls).len() ==> !is_blank_spec(#[trigger] non_blank(ls)[k]),
    decreases ls.len(),
{
    if ls.len() > 0 {
        lemma_non_blank_kept(ls.drop_last());
        let r = non_blank(ls.drop_last());
        assert forall|k: int| 0 <= k < non_blank(ls).len() implies !is_blank_spec(
            #[trigger] non_blank(ls)[k],
        ) by {
            if k < r.len() {
                assert(non_blank(ls)[k] == r[k]);
            }
        }
    }
}

/// The longest line is no longer than any bound that holds of every line.
pub proof fn lemma_max_line_len_bound(ls: Seq<Seq<char>>, b: int)
    requires
        b >= 0,
        forall|k: int| 0 <= k < ls.len() ==> #[trigger] ls[k].len() <= b,
    ensures
        max_line_len(ls) <= b,
    decreases ls.len(),
{
    if ls.len() > 0 {
        assert(forall|k: int|
            0 <= k < ls.len() - 1 ==> #[trigger] ls.drop_last()[k].len() == ls[k].len());
        lemma_max_line_len_bound(ls.drop_last(), b);
    }
}

/// A wafer record from the CP test stage: the prober's identifying header
/// fields, counts, yield, notch orientation, and the ASCII map.
#[derive(Debug, Clone, PartialEq, Eq)]
pub struct Wafer {
    pub operator: String,
    pub device: String,
    pub lot_id: String,
    pub wafer_id: String,
    pub meas_time: String,
    pub gross_die: u32,
    pub pass_die: u32,
    pub fail_die: u32,
    /// Total yield in hundredths of a percent (83.33% is 8333).
    pub total_yield: i64,
    pub notch: String,
    pub map: AsciiMap,
}

/// The mathematical shadow of `Wafer`.
pub struct WaferV {
    pub operator: Seq<char>,
    pub device: Seq<char>,
    pub lot_id: Seq<char>,
    pub wafer_id: Seq<char>,
    pub meas_time: Seq<char>,
    pub gross_die: u32,
    pub pass_die: u32,
    pub fail_die: u32,
    pub total_yield: i64,
    pub notch: Seq<char>,
    pub map: AsciiMapV,
}

impl View for Wafer {
    type V = WaferV;

    open spec fn view(&self) -> WaferV {
        WaferV {
            operator: self.operator@,
            device: self.device@,
            lot_id: self.lot_id@,
            wafer_id: self.wafer_id@,
            meas_time: self.meas_time@,
            gross_die: self.gross_die,
            pass_die: self.pass_die,
            fail_die: self.fail_die,
            total_yield: self.total_yield,
            notch: self.notch@,
            map: self.map@,
        }
    }
}

/// What parsing an ASCII prober map yields: each header field read in its
/// fixed order, the notch line taken verbatim (trimmed), the non-blank grid
/// lines kept verbatim, and the dies derived from the grid with centered
/// coordinates inferred from the grid's own dimensions.
pub open spec fn wafer_from_lines_spec(lines: Seq<Seq<char>>) -> Result<WaferV, ErrorV> {
    match kv_spec(lines, 0, "Operator"@) {
        Err(e) => Err(e),
        Ok(operator) => match kv_spec(lines, 1, "Device"@) {
            Err(e) => Err(e),
            Ok(device) => match kv_spec(lines, 2, "Lot ID"@) {
                Err(e) => Err(e),
                Ok(lot_id) => match kv_spec(lines, 3, "Wafer ID"@) {
                    Err(e) => Err(e),
                    Ok(wafer_id) => match kv_spec(lines, 4, "Meas Time"@) {
                        Err(e) => Err(e),
                        Ok(meas_time) => match kv_spec(lines, 5, "Gross Die"@) {
                            Err(e) => Err(e),
                            Ok(gv) => match to_u32_spec(gv, "Gross Die"@) {
                                Err(e) => Err(e),
                                Ok(gross_die) => match kv_spec(lines, 6, "Pass Die"@) {
                                    Err(e) => Err(e),
                                    Ok(pv) => match to_u32_spec(pv, "Pass Die"@) {
                                        Err(e) => Err(e),
                                        Ok(pass_die) => match kv_spec(lines, 7, "Fail Die"@) {
                                            Err(e) => Err(e),
                                            Ok(fv) => match to_u32_spec(fv, "Fail Die"@) {
                                                Err(e) => Err(e),
                                                Ok(fail_die) => match kv_spec(
                                                    lines,
                                                    8,
                                                    "Total Yield"@,
                                                ) {
                                                    Err(e) => Err(e),
                                                    Ok(yv) => match to_scaled_spec(
                                                        strip_pct_spec(yv),
                                                        "Total Yield"@,
                                                        2,
                                                    ) {
                                                        Err(e) => Err(e),
                                                        Ok(total_yield) => wafer_tail_spec(
                                                            lines,
                                                            WaferHead {
                                                                operator,
                                                                device,
                                                                lot_id,
                                                                wafer_id,
                                                                meas_time,
                                                                gross_die,
                                                                pass_die,
                                                                fail_die,
                                                                total_yield,
                                                            },
                                                        ),
                                                    },
                                                },
                                            },
                                        },
                                    },
                                },
                            },
                        },
                    },
                },
            },
        },
    }
}

/// The header fields of an ASCII prober map, before the notch and grid.
pub struct WaferHead {
    pub operator: Seq<char>,
    pub device: Seq<char>,
    pub lot_id: Seq<char>,
    pub wafer_id: Seq<char>,
    pub meas_time: Seq<char>,
    pub gross_die: u32,
    pub pass_die: u32,
    pub fail_die: u32,
    pub total_yield: i64,
}

/// The notch line and grid of an ASCII prober map: line 9 is the notch
/// (trimmed), the non-blank remainder is the grid, and the grid must be
/// nonempty.
pub open spec fn wafer_tail_spec(lines: Seq<Seq<char>>, h: WaferHead) -> Result<WaferV, ErrorV> {
    if lines.len() <= 9 {
        Err(ErrorV::MissingHeaderLine { key: "notch"@ })
    } else {
        let notch = trim_spec(lines[9]);
        let raw = non_blank(lines.subrange(10, lines.len() as int));
        if raw.len() == 0 {
            Err(ErrorV::EmptyGrid)
        } else {
            let cols = max_line_len(raw);
            let rows = raw.len() as int;
            let dies = grid_dies(raw, -(cols / 2), -(rows / 2));
            Ok(
                WaferV {
                    operator: h.operator,
                    device: h.device,
                    lot_id: h.lot_id,
                    wafer_id: h.wafer_id,
                    meas_time: h.meas_time,
                    gross_die: h.gross_die,
                    pass_die: h.pass_die,
                    fail_die: h.fail_die,
                    total_yield: h.total_yield,
                    notch,
                    map: AsciiMapV { raw, dies },
                },
            )
        }
    }
}

impl Wafer {
    /// Parses an ASCII prober-map file, given as its sequence of lines.
    pub fn from_lines(lines: &[String]) -> (r: Result<Wafer, FormatError>)
        requires
            lines@.len() <= i32::MAX as int,
            forall|i: int| 0 <= i < lines@.len() ==> (#[trigger] lines@[i])@.len() <= i32::MAX as int,
        ensures
            match r {
                Ok(w) => wafer_from_lines_spec(lines.deep_view()) == Ok::<WaferV, ErrorV>(w@),
                Err(e) => wafer_from_lines_spec(lines.deep_view()) == Err::<WaferV, ErrorV>(e@),
            },
    {
        let ghost lv = lines.deep_view();
        let mut pos: usize = 0;
        let operator = match parse_kv(lines, &mut pos, "Operator") {
            Ok(v) => v,
            Err(e) => return Err(e),
        };
        let device = match parse_kv(lines, &mut pos, "Device") {
            Ok(v) => v,
            Err(e) => return Err(e),
        };
        let lot_id = match parse_kv(lines, &mut pos, "Lot ID") {
            Ok(v) => v,
            Err(e) => return Err(e),
        };
        let wafer_id = match parse_kv(lines, &mut pos, "Wafer ID") {
            Ok(v) => v,
            Err(e) => return Err(e),
        };
        let meas_time = match parse_kv(lines, &mut pos, "Meas Time") {
            Ok(v) => v,
            Err(e) => return Err(e),
        };
        let gross_die = match parse_kv(lines, &mut pos, "Gross Die") {
            Ok(v) => match to_u32(&chars_of(v.as_str()), "Gross Die") {
                Ok(n) => n,
                Err(e) => return Err(e),
            },
            Err(e) => return Err(e),
        };
        let pass_die = match parse_kv(lines, &mut pos, "Pass Die") {
            Ok(v) => match to_u32(&chars_of(v.as_str()), "Pass Die") {
                Ok(n) => n,
                Err(e) => return Err(e),
            },
            Err(e) => return Err(e),
        };
        let fail_die = match parse_kv(lines, &mut pos, "Fail Die") {
            Ok(v) => match to_u32(&chars_of(v.as_str()), "Fail Die") {
                Ok(n) => n,
                Err(e) => return Err(e),
            },
            Err(e) => return Err(e),
        };
        let total_yield = match parse_kv(lines, &mut pos, "Total Yield") {
            Ok(v) => {
                let s = strip_pct(&chars_of(v.as_str()));
                match to_scaled(&s, "Total Yield", 2) {
                    Ok(n) => n,
                    Err(e) => return Err(e),
                }
            },
            Err(e) => return Err(e),
        };
        if pos >= lines.len() {
            return Err(FormatError::MissingHeaderLine { key: notch_key() });
        }
        let notch = str_of(&trim_chars(&chars_of(lines[pos].as_str())));
        pos = pos + 1;
        // The grid: every remaining non-blank line, kept verbatim.
        let mut raw: Vec<String> = Vec::new();
        let mut i: usize = pos;
        while i < lines.len()
            invariant
                10 <= pos <= i <= lines@.len(),
                lv == lines.deep_view(),
                lines@.len() <= i32::MAX as int,
                forall|k: int|
                    0 <= k < lines@.len() ==> (#[trigger] lines@[k])@.len() <= i32::MAX as int,
                raw.deep_view() == non_blank(lv.subrange(10, i as int)),
                raw@.len() <= i - 10,
                forall|k: int| 0 <= k < raw@.len() ==> (#[trigger] raw@[k])@.len() <= i32::MAX as int,
            decreases lines@.len() - i,
        {
            proof {
                assert(lv.subrange(10, i + 1 as int).drop_last() =~= lv.subrange(10, i as int));
                assert(lv.subrange(10, i + 1 as int).last() == lv[i as int]);
                assert(lv[i as int] == lines@[i as int]@);
            }
            let lc = chars_of(lines[i].as_str());
            if !is_blank(&lc) {
                raw.push(lines[i].clone());
                proof {
                    assert(raw.deep_view() =~= non_blank(lv.subrange(10, i + 1 as int)));
                }
            }
            i = i + 1;
        }
        proof {
            assert(lv.subrange(10, lv.len() as int) =~= lv.subrange(10, i as int));
        }
        if raw.len() == 0 {
            return Err(FormatError::EmptyGrid);
        }
        let dies = derive_grid_dies(&raw);
        Ok(
            Wafer {
                operator,
                device,
                lot_id,
                wafer_id,
                meas_time,
                gross_die,
                pass_die,
                fail_die,
                total_yield,
                notch,
                map: AsciiMap { raw, dies },
            },
        )
    }
}

/// The serialized text of a wafer record: the nine header lines in their
/// fixed order, the yield with two decimals and a `%`, the notch line with
/// its `notch-` prefix, one blank separator line, then the raw grid lines
/// verbatim.
pub open spec fn wafer_text_spec(w: WaferV) -> Seq<char> {
    "Operator: "@ + w.operator + seq!['\n'] + "Device: "@ + w.device + seq!['\n'] + "Lot ID: "@
        + w.lot_id + seq!['\n'] + "Wafer ID: "@ + w.wafer_id + seq!['\n'] + "Meas Time: "@
        + w.meas_time + seq!['\n'] + "Gross Die: "@ + dec_str(w.gross_die as nat) + seq!['\n']
        + "Pass Die: "@ + dec_str(w.pass_die as nat) + seq!['\n'] + "Fail Die: "@ + dec_str(
        w.fail_die as nat,
    ) + seq!['\n'] + "Total Yield: "@ + scaled_str(w.total_yield as int, 2) + seq!['%', '\n']
        + "notch-"@ + w.notch + seq!['\n'] + seq!['\n'] + crate::text::join_lines(w.map.raw)
}

impl Wafer {
    /// Re-serializes this record into the prober's text layout.
    #[verifier::rlimit(100)]
    pub fn to_string(&self) -> (s: String)
        requires
            self.total_yield > i64::MIN,
        ensures
            s@ == wafer_text_spec(self@),
    {
        let mut out: Vec<char> = Vec::new();
        append_str(&mut out, "Operator: ");
        append_str(&mut out, self.operator.as_str());
        out.push('\n');
        append_str(&mut out, "Device: ");
        append_str(&mut out, self.device.as_str());
        out.push('\n');
        append_str(&mut out, "Lot ID: ");
        append_str(&mut out, self.lot_id.as_str());
        out.push('\n');
        append_str(&mut out, "Wafer ID: ");
        append_str(&mut out, self.wafer_id.as_str());
        out.push('\n');
        append_str(&mut out, "Meas Time: ");
        append_str(&mut out, self.meas_time.as_str());
        out.push('\n');
        append_str(&mut out, "Gross Die: ");
        let g = fmt_u64(self.gross_die as u64);
        append_chars(&mut out, &g);
        out.push('\n');
        append_str(&mut out, "Pass Die: ");
        let p = fmt_u64(self.pass_die as u64);
        append_chars(&mut out, &p);
        out.push('\n');
        append_str(&mut out, "Fail Die: ");
        let f = fmt_u64(self.fail_die as u64);
        append_chars(&mut out, &f);
        out.push('\n');
        append_str(&mut out, "Total Yield: ");
        let y = fmt_scaled(self.total_yield, 2);
        append_chars(&mut out, &y);
        out.push('%');
        out.push('\n');
        append_str(&mut out, "notch-");
        append_str(&mut out, self.notch.as_str());
        out.push('\n');
        out.push('\n');
        let ghost pre = out@;
        let mut r: usize = 0;
        while r < self.map.raw.len()
            invariant
                r <= self.map.raw@.len(),
                out@ == pre + crate::text::join_lines(self.map.raw.deep_view().subrange(
                    0,
                    r as int,
                )),
            decreases self.map.raw@.len() - r,
        {
            let ghost rv = self.map.raw.deep_view();
            proof {
                assert(rv.subrange(0, r + 1 as int).drop_last() =~= rv.subrange(0, r as int));
                assert(rv.subrange(0, r + 1 as int).last() == rv[r as int]);
                assert(rv[r as int] == self.map.raw@[r as int]@);
            }
            append_str(&mut out, self.map.raw[r].as_str());
            out.push('\n');
            proof {
                assert(out@ =~= pre + crate::text::join_lines(rv.subrange(0, r + 1 as int)));
            }
            r = r + 1;
        }
        proof {
            assert(self.map.raw.deep_view().subrange(0, r as int) =~= self.map.raw.deep_view());
            assert(out@ =~= wafer_text_spec(self@));
        }
        str_of(&out)
    }
}

/// Bounds needed to place a parsed prober map's dies: every raw grid line
/// is an input line, so the input bounds carry over.
proof fn lemma_wafer_grid_bounds(lines: Seq<Seq<char>>, w: WaferV)
    requires
        lines.len() <= i32::MAX as int,
        forall|i: int| 0 <= i < lines.len() ==> (#[trigger] lines[i]).len() <= i32::MAX as int,
        wafer_from_lines_spec(lines) == Ok::<WaferV, ErrorV>(w),
    ensures
        w.map.raw == non_blank(lines.subrange(10, lines.len() as int)),
        w.map.dies == grid_dies(
            w.map.raw,
            -(max_line_len(w.map.raw) / 2),
            -(w.map.raw.len() as int / 2),
        ),
        w.map.raw.len() <= i32::MAX as int,
        0 <= max_line_len(w.map.raw) <= i32::MAX as int,
        forall|k: int| 0 <= k < w.map.raw.len() ==> (#[trigger] w.map.raw[k]).len() <= max_line_len(
            w.map.raw,
        ),
{
    let rest = lines.subrange(10, lines.len() as int);
    lemma_non_blank_len(rest);
    lemma_non_blank_elems(rest);
    let raw = w.map.raw;
    assert forall|k: int| 0 <= k < raw.len() implies (#[trigger] raw[k]).len()
        <= i32::MAX as int by {
        let j = choose|j: int| 0 <= j < rest.len() && raw[k] == rest[j];
        assert(rest[j] == lines[10 + j]);
    }
    lemma_max_line_len(raw);
    lemma_max_line_len_bound(raw, i32::MAX as int);
}

/// Centering invariant: with inferred column count `C` and row count `R`,
/// every die of a parsed prober map has `x` in `[-(C/2), C - C/2 - 1]` and
/// `y` in `[-(R/2), R - R/2 - 1]`.
pub proof fn lemma_wafer_centering(lines: Seq<Seq<char>>, w: WaferV)
    requires
        lines.len() <= i32::MAX as int,
        forall|i: int| 0 <= i < lines.len() ==> (#[trigger] lines[i]).len() <= i32::MAX as int,
        wafer_from_lines_spec(lines) == Ok::<WaferV, ErrorV>(w),
    ensures
        forall|i: int|
            0 <= i < w.map.dies.len() ==> {
                let d = #[trigger] w.map.dies[i];
                let cols = max_line_len(w.map.raw);
                let rows = w.map.raw.len() as int;
                &&& -(cols / 2) <= (d.x as int) <= cols - cols / 2 - 1
                &&& -(rows / 2) <= (d.y as int) <= rows - rows / 2 - 1
            },
{
    lemma_wafer_grid_bounds(lines, w);
    let raw = w.map.raw;
    let cols = max_line_len(raw);
    let rows = raw.len() as int;
    crate::model::lemma_grid_dies_props(raw, -(cols / 2), -(rows / 2));
}

/// Placeholder exclusion: a parsed prober map has no die at the centered
/// coordinates of any `.` grid cell.
pub proof fn lemma_wafer_placeholder_excluded(
    lines: Seq<Seq<char>>,
    w: WaferV,
    r: int,
    c: int,
)
    requires
        lines.len() <= i32::MAX as int,
        forall|i: int| 0 <= i < lines.len() ==> (#[trigger] lines[i]).len() <= i32::MAX as int,
        wafer_from_lines_spec(lines) == Ok::<WaferV, ErrorV>(w),
        0 <= r < w.map.raw.len(),
        0 <= c < w.map.raw[r].len(),
        w.map.raw[r][c] == '.',
    ensures
        forall|i: int|
            0 <= i < w.map.dies.len() ==> !((#[trigger] w.map.dies[i].x as int) == c
                - max_line_len(w.map.raw) / 2 && (w.map.dies[i].y as int) == r - w.map.raw.len()
                / 2),
{
    lemma_wafer_grid_bounds(lines, w);
    let raw = w.map.raw;
    let cols = max_line_len(raw);
    let rows = raw.len() as int;
    let x0 = -(cols / 2);
    let y0 = -(rows / 2);
    crate::model::lemma_grid_dies_props(raw, x0, y0);
    assert forall|i: int| 0 <= i < w.map.dies.len() implies !((#[trigger] w.map.dies[i].x
        as int) == c - cols / 2 && (w.map.dies[i].y as int) == r - rows / 2) by {
        let d = w.map.dies[i];
        if (d.x as int) == x0 + c && (d.y as int) == y0 + r {
            assert(raw[(d.y as int) - y0][(d.x as int) - x0] != '.');
        }
    }
}

fn notch_key() -> (s: String)
    ensures
        s@ == "notch"@,
{
    let mut v: Vec<char> = Vec::new();
    append_str(&mut v, "notch");
    proof {
        assert(v@ =~= "notch"@);
    }
    str_of(&v)
}

/// Derives the centered dies of a nonempty grid whose dimensions are the
/// grid's own row count and longest line.
pub fn derive_grid_dies(raw: &Vec<String>) -> (dies: Vec<crate::model::AsciiDie>)
    requires
        1 <= raw@.len() <= i32::MAX as int,
        forall|k: int| 0 <= k < raw@.len() ==> (#[trigger] raw@[k])@.len() <= i32::MAX as int,
    ensures
        dies@ == grid_dies(
            raw.deep_view(),
            -(max_line_len(raw.deep_view()) / 2),
            -(raw.deep_view().len() as int / 2),
        ),
{
    let ghost rv = raw.deep_view();
    proof {
        lemma_max_line_len(rv);
    }
    // Column count: the longest line.
    let mut cols: i32 = 0;
    let mut k: usize = 0;
    while k < raw.len()
        invariant
            k <= raw@.len(),
            rv == raw.deep_view(),
            raw@.len() <= i32::MAX as int,
            forall|t: int| 0 <= t < raw@.len() ==> (#[trigger] raw@[t])@.len() <= i32::MAX as int,
            cols as int == max_line_len(rv.subrange(0, k as int)),
        decreases raw@.len() - k,
    {
        proof {
            assert(rv.subrange(0, k + 1 as int).drop_last() =~= rv.subrange(0, k as int));
            assert(rv.subrange(0, k + 1 as int).last() == rv[k as int]);
            assert(rv[k as int] == raw@[k as int]@);
        }
        let n = raw[k].as_str().unicode_len();
        if n > cols as usize {
            cols = n as i32;
        }
        k = k + 1;
    }
    proof {
        assert(rv.subrange(0, rv.len() as int) =~= rv);
    }
    let rows: i32 = raw.len() as i32;
    let x0: i32 = -(cols / 2);
    let y0: i32 = -(rows / 2);
    crate::model::collect_grid_dies(raw, x0, y0)
}

} // verus!
