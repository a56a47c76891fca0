//! The shared die model: a cell's value, the two die shapes, the raw+parsed
//! ASCII grid pair, the bin-count entry, and the centered coordinate
//! deriver used by three of the four codecs.

use vstd::prelude::*;
use crate::num::digit_val;
use crate::num::int_str;
use crate::num::is_digit;
use crate::text::str_of;

verus! {

/// One die's outcome: a numeric bin code, or a single special marker
/// character (edge die, alignment mark, and the like).
#[derive(Debug, Clone, Copy, PartialEq, Eq, Structural)]
pub enum BinValue {
    Number(i32),
    Special(char),
}

impl BinValue {
    /// The text the serializers print for this value.
    pub open spec fn text_spec(self) -> Seq<char> {
        match self {
            BinValue::Number(n) => int_str(n as int),
            BinValue::Special(c) => seq![c],
        }
    }

    /// This value rendered as text: the decimal number, or the bare marker.
    pub fn to_string(&self) -> (s: String)
        ensures
            s@ == self.text_spec(),
    {
        match self {
            BinValue::Number(n) => {
                let v = crate::num::fmt_i64(*n as i64);
                str_of(&v)
            },
            BinValue::Special(c) => {
                let mut v: Vec<char> = Vec::new();
                v.push(*c);
                proof {
                    assert(v@ =~= seq![*c]);
                }
                str_of(&v)
            },
        }
    }
}

/// A die as the ASCII-style codecs produce it.
#[derive(Debug, Clone, Copy, PartialEq, Eq, Structural)]
pub struct AsciiDie {
    pub x: i32,
    pub y: i32,
    pub bin: BinValue,
}

/// A die as the WLBI bin-map codec produces it; `reserved` is opaque and
/// round-tripped verbatim.
#[derive(Debug, Clone, Copy, PartialEq, Eq, Structural)]
pub struct WaferMapDie {
    pub x: i32,
    pub y: i32,
    pub bin: BinValue,
    pub reserved: i32,
}

/// One aggregated bin count: when a bin id is declared more than once, the
/// counts are summed.
#[derive(Debug, Clone, Copy, PartialEq, Eq, Structural)]
pub struct BinCountEntry {
    pub bin: u32,
    pub count: u32,
}

/// The raw grid text and the dies parsed from it, owned together.
#[derive(Debug, Clone, PartialEq, Eq)]
pub struct AsciiMap {
    /// The original grid lines exactly as read.
    pub raw: Vec<String>,
    /// The dies extracted from `raw`.
    pub dies: Vec<AsciiDie>,
}

/// The mathematical shadow of `AsciiMap`.
pub struct AsciiMapV {
    pub raw: Seq<Seq<char>>,
    pub dies: Seq<AsciiDie>,
}

impl View for AsciiMap {
    type V = AsciiMapV;

    open spec fn view(&self) -> AsciiMapV {
        AsciiMapV { raw: self.raw.deep_view(), dies: self.dies@ }
    }
}

/// The centered coordinate for index `i` on an axis of extent `n`: index 0
/// maps to the negative half-extent.
pub open spec fn center_coord(n: int, i: int) -> int {
    i - n / 2
}

/// Centered grid coordinates: cell `(col_idx, row_idx)` of a grid with
/// `col_ct` columns and `row_ct` rows maps to
/// `(col_idx - col_ct/2, row_idx - row_ct/2)`.
pub fn center_xy(col_ct: i32, row_ct: i32, col_idx: i32, row_idx: i32) -> (r: (i32, i32))
    requires
        0 <= col_ct,
        0 <= row_ct,
        0 <= col_idx,
        0 <= row_idx,
    ensures
        r.0 == center_coord(col_ct as int, col_idx as int),
        r.1 == center_coord(row_ct as int, row_idx as int),
{
    let x = col_idx - col_ct / 2;
    let y = row_idx - row_ct / 2;
    (x, y)
}

/// The die a grid cell yields: none for the `.` placeholder, a numeric bin
/// for a digit, a special marker for anything else.
pub open spec fn cell_die(c: char, x: int, y: int) -> Option<AsciiDie> {
    if c == '.' {
        None
    } else if is_digit(c) {
        Some(AsciiDie { x: x as i32, y: y as i32, bin: BinValue::Number(digit_val(c) as i32) })
    } else {
        Some(AsciiDie { x: x as i32, y: y as i32, bin: BinValue::Special(c) })
    }
}

/// The dies of one grid row at vertical coordinate `y`, left to right,
/// with column 0 at horizontal coordinate `x0`.
pub open spec fn row_dies(row: Seq<char>, x0: int, y: int) -> Seq<AsciiDie>
    decreases row.len(),
{
    if row.len() == 0 {
        Seq::<AsciiDie>::empty()
    } else {
        let pre = row_dies(row.drop_last(), x0, y);
        match cell_die(row.last(), x0 + row.len() - 1, y) {
            Some(d) => pre.push(d),
            None => pre,
        }
    }
}

/// The dies of a whole grid, row-major, with row 0 at vertical coordinate
/// `y0`.
pub open spec fn grid_dies(raw: Seq<Seq<char>>, x0: int, y0: int) -> Seq<AsciiDie>
    decreases raw.len(),
{
    if raw.len() == 0 {
        Seq::<AsciiDie>::empty()
    } else {
        grid_dies(raw.drop_last(), x0, y0) + row_dies(raw.last(), x0, y0 + raw.len() - 1)
    }
}

/// Every die of a row sits on that row, addresses a cell inside it, and
/// carries exactly what that cell holds; placeholder cells yield no die.
pub proof fn lemma_row_dies_props(row: Seq<char>, x0: int, y: int)
    requires
        i32::MIN <= x0,
        x0 + row.len() <= i32::MAX as int + 1,
        i32::MIN <= y <= i32::MAX,
    ensures
        forall|i: int|
            0 <= i < row_dies(row, x0, y).len() ==> {
                let d = #[trigger] row_dies(row, x0, y)[i];
                &&& (d.y as int) == y
                &&& x0 <= (d.x as int) < x0 + row.len()
                &&& row[(d.x as int) - x0] != '.'
                &&& cell_die(row[(d.x as int) - x0], d.x as int, y) == Some(d)
            },
    decreases row.len(),
{
    if row.len() > 0 {
        lemma_row_dies_props(row.drop_last(), x0, y);
        let pre = row_dies(row.drop_last(), x0, y);
        assert(forall|j: int| 0 <= j < row.len() - 1 ==> row[j] == #[trigger] row.drop_last()[j]);
        assert forall|i: int| 0 <= i < row_dies(row, x0, y).len() implies {
            let d = #[trigger] row_dies(row, x0, y)[i];
            &&& (d.y as int) == y
            &&& x0 <= (d.x as int) < x0 + row.len()
            &&& row[(d.x as int) - x0] != '.'
            &&& cell_die(row[(d.x as int) - x0], d.x as int, y) == Some(d)
        } by {
            match cell_die(row.last(), x0 + row.len() - 1, y) {
                Some(nd) => {
                    assert(row_dies(row, x0, y) == pre.push(nd));
                    if i < pre.len() {
                        assert(row_dies(row, x0, y)[i] == pre[i]);
                    } else {
                        assert(row_dies(row, x0, y)[i] == nd);
                        assert(row.last() != '.');
                        assert(nd.x as int == x0 + row.len() - 1);
                        assert(nd.y as int == y);
                    }
                },
                None => {
                    assert(row_dies(row, x0, y) == pre);
                },
            }
        }
    }
}

/// Every die of a grid sits on one of its rows, addresses a cell inside
/// that row, and carries exactly what the cell holds.
pub proof fn lemma_grid_dies_props(raw: Seq<Seq<char>>, x0: int, y0: int)
    requires
        i32::MIN <= x0,
        i32::MIN <= y0 <= i32::MAX,
        y0 + raw.len() <= i32::MAX as int + 1,
        forall|k: int| 0 <= k < raw.len() ==> x0 + #[trigger] raw[k].len() <= i32::MAX as int + 1,
    ensures
        forall|i: int|
            0 <= i < grid_dies(raw, x0, y0).len() ==> {
                let d = #[trigger] grid_dies(raw, x0, y0)[i];
                &&& y0 <= (d.y as int) < y0 + raw.len()
                &&& x0 <= (d.x as int) < x0 + raw[(d.y as int) - y0].len()
                &&& raw[(d.y as int) - y0][(d.x as int) - x0] != '.'
                &&& cell_die(raw[(d.y as int) - y0][(d.x as int) - x0], d.x as int, d.y as int)
                    == Some(d)
            },
    decreases raw.len(),
{
    if raw.len() > 0 {
        lemma_grid_dies_props(raw.drop_last(), x0, y0);
        lemma_row_dies_props(raw.last(), x0, y0 + raw.len() - 1);
        let pre = grid_dies(raw.drop_last(), x0, y0);
        let tail = row_dies(raw.last(), x0, y0 + raw.len() - 1);
        assert(grid_dies(raw, x0, y0) == pre + tail);
        assert(forall|k: int|
            0 <= k < raw.len() - 1 ==> raw[k] == #[trigger] raw.drop_last()[k]);
        assert forall|i: int| 0 <= i < grid_dies(raw, x0, y0).len() implies {
            let d = #[trigger] grid_dies(raw, x0, y0)[i];
            &&& y0 <= (d.y as int) < y0 + raw.len()
            &&& x0 <= (d.x as int) < x0 + raw[(d.y as int) - y0].len()
            &&& raw[(d.y as int) - y0][(d.x as int) - x0] != '.'
            &&& cell_die(raw[(d.y as int) - y0][(d.x as int) - x0], d.x as int, d.y as int) == Some(
                d,
            )
        } by {
            if i < pre.len() {
                assert(grid_dies(raw, x0, y0)[i] == pre[i]);
            } else {
                assert(grid_dies(raw, x0, y0)[i] == tail[i - pre.len()]);
            }
        }
    }
}

/// The dies of a whole grid of text lines, with the given centered origin.
pub fn collect_grid_dies(raw: &Vec<String>, x0: i32, y0: i32) -> (dies: Vec<AsciiDie>)
    requires
        x0 <= 0,
        y0 <= 0,
        raw@.len() <= i32::MAX as int,
        forall|k: int| 0 <= k < raw@.len() ==> (#[trigger] raw@[k])@.len() <= i32::MAX as int,
    ensures
        dies@ == grid_dies(raw.deep_view(), x0 as int, y0 as int),
{
    let ghost rv = raw.deep_view();
    let mut dies: Vec<AsciiDie> = Vec::new();
    let mut r: usize = 0;
    while r < raw.len()
        invariant
            r <= raw@.len(),
            rv == raw.deep_view(),
            x0 <= 0,
            y0 <= 0,
            raw@.len() <= i32::MAX as int,
            forall|t: int| 0 <= t < raw@.len() ==> (#[trigger] raw@[t])@.len() <= i32::MAX as int,
            dies@ == grid_dies(rv.subrange(0, r as int), x0 as int, y0 as int),
        decreases raw@.len() - r,
    {
        proof {
            assert(rv.subrange(0, r + 1 as int).drop_last() =~= rv.subrange(0, r as int));
            assert(rv.subrange(0, r + 1 as int).last() == rv[r as int]);
            assert(rv[r as int] == raw@[r as int]@);
        }
        let lc = crate::text::chars_of(raw[r].as_str());
        let y = y0 + (r as i32);
        collect_row_dies(&mut dies, &lc, x0, y);
        r = r + 1;
    }
    proof {
        assert(rv.subrange(0, rv.len() as int) =~= rv);
    }
    dies
}

/// Appends the dies of `row` to `dies`.
pub fn collect_row_dies(dies: &mut Vec<AsciiDie>, row: &Vec<char>, x0: i32, y: i32)
    requires
        row@.len() <= i32::MAX as int,
        x0 + row@.len() <= i32::MAX as int + 1,
    ensures
        final(dies)@ == old(dies)@ + row_dies(row@, x0 as int, y as int),
{
    let mut i: usize = 0;
    while i < row.len()
        invariant
            i <= row@.len(),
            row@.len() <= i32::MAX as int,
            x0 + row@.len() <= i32::MAX as int + 1,
            dies@ == old(dies)@ + row_dies(row@.subrange(0, i as int), x0 as int, y as int),
        decreases row@.len() - i,
    {
        proof {
            assert(row@.subrange(0, i + 1 as int).drop_last() =~= row@.subrange(0, i as int));
            assert(row@.subrange(0, i + 1 as int).last() == row@[i as int]);
        }
        let c = row[i];
        let cp = c as u32;
        if c == '.' {
        } else if 48 <= cp && cp <= 57 {
            let x = x0 + (i as i32);
            dies.push(AsciiDie { x, y, bin: BinValue::Number((cp - 48) as i32) });
        } else {
            let x = x0 + (i as i32);
            dies.push(AsciiDie { x, y, bin: BinValue::Special(c) });
        }
        i = i + 1;
    }
    proof {
        assert(row@.subrange(0, i as int) =~= row@);
    }
}

} // verus!
