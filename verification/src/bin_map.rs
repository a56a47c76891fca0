//! The WLBI bin-map codec (`.WaferMap` files): keyed headers looked up
//! case-insensitively over blank-stripped lines, a `[MAP]` marker, fixed
//! four-integer die lines, and a trailing bin-count section whose repeated
//! bin ids are summed and emitted sorted ascending.

use vstd::prelude::*;
use vstd::string::StringExecFns;
use crate::errors::ErrorV;
use crate::errors::FormatError;
use crate::header::kv_ci_spec;
use crate::header::parse_kv_ci;
use crate::header::to_scaled;
use crate::header::to_scaled_spec;
use crate::header::to_u32;
use crate::header::to_u32_spec;
use crate::model::BinCountEntry;
use crate::model::BinValue;
use crate::model::WaferMapDie;
use crate::num::parse_i32_spec;
use crate::num::parse_i32;
use crate::num::parse_u32;
use crate::num::parse_u32_spec;
use crate::text::chars_of;
use crate::text::contains_seq;
use crate::text::contains_sub;
use crate::text::split_char;
use crate::text::split_char_spec;
use crate::text::starts_with;
use crate::text::starts_with_spec;
use crate::text::str_of;
use crate::text::tokens_of;
use crate::text::tokens_spec;
use crate::text::trim_chars;
use crate::text::trim_spec;
use crate::text::subrange_vec;

verus! {

/// Every line trimmed, with the blank ones dropped: the WLBI reader walks
/// this cleaned sequence.
pub open spec fn cleaned(ls: Seq<Seq<char>>) -> Seq<Seq<char>>
    decreases ls.len(),
{
    if ls.len() == 0 {
        Seq::<Seq<char>>::empty()
    } else {
        let r = cleaned(ls.drop_last());
        let t = trim_spec(ls.last());
        if t.len() == 0 {
            r
        } else {
            r.push(t)
        }
    }
}

/// A WLBI bin-map record: wafer identity and pitch headers, the die list,
/// and the aggregated bin counts.
#[derive(Debug, Clone, PartialEq, Eq)]
pub struct BinMapData {
    pub wafer_type: u32,
    pub dut: u32,
    pub mode: u32,
    pub product: String,
    pub wafer_lots: String,
    /// Textual, not numeric: wafer numbers may carry leading zeros.
    pub wafer_no: String,
    /// Wafer size in thousandths (6.00 is 6000).
    pub wafer_size: i64,
    /// Die index step along X in thousandths.
    pub index_x: i64,
    /// Die index step along Y in thousandths.
    pub index_y: i64,
    pub map: Vec<WaferMapDie>,
    pub bins: Vec<BinCountEntry>,
}

/// The mathematical shadow of `BinMapData`.
pub struct BinMapDataV {
    pub wafer_type: u32,
    pub dut: u32,
    pub mode: u32,
    pub product: Seq<char>,
    pub wafer_lots: Seq<char>,
    pub wafer_no: Seq<char>,
    pub wafer_size: i64,
    pub index_x: i64,
    pub index_y: i64,
    pub map: Seq<WaferMapDie>,
    pub bins: Seq<BinCountEntry>,
}

impl View for BinMapData {
    type V = BinMapDataV;

    open spec fn view(&self) -> BinMapDataV {
        BinMapDataV {
            wafer_type: self.wafer_type,
            dut: self.dut,
            mode: self.mode,
            product: self.product@,
            wafer_lots: self.wafer_lots@,
            wafer_no: self.wafer_no@,
            wafer_size: self.wafer_size,
            index_x: self.index_x,
            index_y: self.index_y,
            map: self.map@,
            bins: self.bins@,
        }
    }
}

/// The index of the first line at or after `from` that contains `p`, or -1.
pub open spec fn find_contains(ls: Seq<Seq<char>>, from: int, p: Seq<char>) -> int
    decreases ls.len() - from,
{
    if from < 0 || from >= ls.len() {
        -1
    } else if contains_seq(ls[from], p) {
        from
    } else {
        find_contains(ls, from + 1, p)
    }
}

/// A line that ends the die-line section: the totals line, the first
/// bin-count line, or the end sentinel.
pub open spec fn is_map_terminator(l: Seq<char>) -> bool {
    starts_with_spec(l, "Total Prober"@) || starts_with_spec(l, "Bin "@) || starts_with_spec(
        l,
        "## END ##"@,
    )
}

/// The die a map line encodes: exactly four whitespace-separated integers
/// `x y bin reserved`, or nothing when the line is not of that shape.
pub open spec fn line_die_spec(l: Seq<char>) -> Option<WaferMapDie> {
    let ts = tokens_spec(l);
    if ts.len() == 4 {
        match (parse_i32_spec(ts[0]), parse_i32_spec(ts[1]), parse_i32_spec(ts[2]), parse_i32_spec(
            ts[3],
        )) {
            (Some(x), Some(y), Some(b), Some(rsv)) => Some(
                WaferMapDie { x, y, bin: BinValue::Number(b), reserved: rsv },
            ),
            _ => None,
        }
    } else {
        None
    }
}

/// The die lines from `pos` up to the first terminator (or the end), each of
/// which must carry exactly four integers; the result also names where the
/// section stopped.
pub open spec fn map_section_spec(ls: Seq<Seq<char>>, pos: int) -> Result<
    (Seq<WaferMapDie>, int),
    ErrorV,
>
    decreases ls.len() - pos,
{
    if pos < 0 || pos >= ls.len() {
        Ok((Seq::<WaferMapDie>::empty(), pos))
    } else if is_map_terminator(ls[pos]) {
        Ok((Seq::<WaferMapDie>::empty(), pos))
    } else {
        match line_die_spec(ls[pos]) {
            None => Err(ErrorV::MalformedGridLine { line: ls[pos] }),
            Some(d) => match map_section_spec(ls, pos + 1) {
                Err(e) => Err(e),
                Ok((rest, end)) => Ok((seq![d] + rest, end)),
            },
        }
    }
}

/// What one comma-separated segment of a bin-count line contributes: a
/// `(bin id, count)` pair, nothing for a segment without the `Bin` prefix or
/// an id, or an error for an unreadable id or count.
pub open spec fn seg_pair_spec(seg: Seq<char>) -> Result<Option<(u32, u32)>, ErrorV> {
    let t = trim_spec(seg);
    if !starts_with_spec(t, "Bin"@) {
        Ok(None)
    } else {
        let ts = tokens_spec(t.subrange(3, t.len() as int));
        if ts.len() == 0 {
            Ok(None)
        } else {
            match parse_u32_spec(ts[0]) {
                None => Err(ErrorV::InvalidNumericField { field: "Bin id"@, text: ts[0] }),
                Some(id) => {
                    let cnt_tok: Option<Seq<char>> = if ts.len() >= 2 {
                        if ts[1] == ":"@ {
                            if ts.len() >= 3 {
                                Some(ts[2])
                            } else {
                                None
                            }
                        } else {
                            Some(ts[1])
                        }
                    } else {
                        None
                    };
                    match cnt_tok {
                        None => Err(ErrorV::MalformedGridLine { line: t }),
                        Some(ct) => match parse_u32_spec(ct) {
                            None => Err(
                                ErrorV::InvalidNumericField { field: "Bin count"@, text: ct },
                            ),
                            Some(c) => Ok(Some((id, c))),
                        },
                    }
                },
            }
        }
    }
}

/// The pairs contributed by the segments of one bin-count line, in order.
pub open spec fn seg_pairs_spec(segs: Seq<Seq<char>>) -> Result<Seq<(u32, u32)>, ErrorV>
    decreases segs.len(),
{
    if segs.len() == 0 {
        Ok(Seq::<(u32, u32)>::empty())
    } else {
        match seg_pair_spec(segs[0]) {
            Err(e) => Err(e),
            Ok(opt) => match seg_pairs_spec(segs.drop_first()) {
                Err(e) => Err(e),
                Ok(rest) => match opt {
                    Some(p) => Ok(seq![p] + rest),
                    None => Ok(rest),
                },
            },
        }
    }
}

/// The `(bin id, count)` pairs of the bin-count section, reading from `pos`
/// until the end sentinel (or the end of input), skipping lines that do not
/// begin with `Bin`.
pub open spec fn bin_pairs_spec(ls: Seq<Seq<char>>, pos: int) -> Result<Seq<(u32, u32)>, ErrorV>
    decreases ls.len() - pos,
{
    if pos < 0 || pos >= ls.len() {
        Ok(Seq::<(u32, u32)>::empty())
    } else if starts_with_spec(ls[pos], "## END ##"@) {
        Ok(Seq::<(u32, u32)>::empty())
    } else if !starts_with_spec(ls[pos], "Bin"@) {
        bin_pairs_spec(ls, pos + 1)
    } else {
        match seg_pairs_spec(split_char_spec(ls[pos], ',')) {
            Err(e) => Err(e),
            Ok(ps) => match bin_pairs_spec(ls, pos + 1) {
                Err(e) => Err(e),
                Ok(rest) => Ok(ps + rest),
            },
        }
    }
}

/// A pair summed into a sorted, duplicate-free bin list: counts for an id
/// already present are added, a fresh id is inserted in ascending order. An
/// overflowing total is an error.
pub open spec fn insert_pair_spec(bins: Seq<BinCountEntry>, id: u32, cnt: u32) -> Result<
    Seq<BinCountEntry>,
    ErrorV,
>
    decreases bins.len(),
{
    if bins.len() == 0 {
        Ok(seq![BinCountEntry { bin: id, count: cnt }])
    } else if bins[0].bin < id {
        match insert_pair_spec(bins.drop_first(), id, cnt) {
            Err(e) => Err(e),
            Ok(rest) => Ok(seq![bins[0]] + rest),
        }
    } else if bins[0].bin == id {
        if bins[0].count + cnt <= u32::MAX {
            Ok(
                seq![
                    BinCountEntry { bin: id, count: (bins[0].count + cnt) as u32 },
                ] + bins.drop_first(),
            )
        } else {
            Err(
                ErrorV::InvalidNumericField {
                    field: "Bin count"@,
                    text: crate::num::dec_str((bins[0].count + cnt) as nat),
                },
            )
        }
    } else {
        Ok(seq![BinCountEntry { bin: id, count: cnt }] + bins)
    }
}

/// All pairs aggregated in reading order.
pub open spec fn aggregate_spec(pairs: Seq<(u32, u32)>) -> Result<Seq<BinCountEntry>, ErrorV>
    decreases pairs.len(),
{
    if pairs.len() == 0 {
        Ok(Seq::<BinCountEntry>::empty())
    } else {
        match aggregate_spec(pairs.drop_last()) {
            Err(e) => Err(e),
            Ok(b) => insert_pair_spec(b, pairs.last().0, pairs.last().1),
        }
    }
}

/// The header fields of a WLBI bin map.
pub struct BinHead {
    pub wafer_type: u32,
    pub dut: u32,
    pub mode: u32,
    pub product: Seq<char>,
    pub wafer_lots: Seq<char>,
    pub wafer_no: Seq<char>,
    pub wafer_size: i64,
    pub index_x: i64,
    pub index_y: i64,
}

/// What parsing a WLBI bin map yields: the nine keyed headers read
/// case-insensitively from the cleaned lines, the `[MAP]` marker (an error
/// when absent), the four-integer die lines, and the aggregated bin counts
/// sorted ascending by id.
pub open spec fn bin_from_lines_spec(lines: Seq<Seq<char>>) -> Result<BinMapDataV, ErrorV> {
    let cl = cleaned(lines);
    match kv_ci_spec(cl, 0, "WaferType"@) {
        Err(e) => Err(e),
        Ok(wtv) => match to_u32_spec(wtv, "WaferType"@) {
            Err(e) => Err(e),
            Ok(wafer_type) => match kv_ci_spec(cl, 1, "DUT"@) {
                Err(e) => Err(e),
                Ok(dv) => match to_u32_spec(dv, "DUT"@) {
                    Err(e) => Err(e),
                    Ok(dut) => match kv_ci_spec(cl, 2, "Mode"@) {
                        Err(e) => Err(e),
                        Ok(mv) => match to_u32_spec(mv, "Mode"@) {
                            Err(e) => Err(e),
                            Ok(mode) => match kv_ci_spec(cl, 3, "Product"@) {
                                Err(e) => Err(e),
                                Ok(product) => match kv_ci_spec(cl, 4, "Wafer Lots"@) {
                                    Err(e) => Err(e),
                                    Ok(wafer_lots) => match kv_ci_spec(cl, 5, "Wafer No"@) {
                                        Err(e) => Err(e),
                                        Ok(wafer_no) => match kv_ci_spec(cl, 6, "Wafer Size"@) {
                                            Err(e) => Err(e),
                                            Ok(wsv) => match to_scaled_spec(
                                                wsv,
                                                "Wafer Size"@,
                                                3,
                                            ) {
                                                Err(e) => Err(e),
                                                Ok(wafer_size) => match kv_ci_spec(
                                                    cl,
                                                    7,
                                                    "Index X"@,
                                                ) {
                                                    Err(e) => Err(e),
                                                    Ok(ixv) => match to_scaled_spec(
                                                        ixv,
                                                        "Index X"@,
                                                        3,
                                                    ) {
                                                        Err(e) => Err(e),
                                                        Ok(index_x) => match kv_ci_spec(
                                                            cl,
                                                            8,
                                                            "Index Y"@,
                                                        ) {
                                                            Err(e) => Err(e),
                                                            Ok(iyv) => match to_scaled_spec(
                                                                iyv,
                                                                "Index Y"@,
                                                                3,
                                                            ) {
                                                                Err(e) => Err(e),
                                                                Ok(index_y) => bin_tail_spec(
                                                                    cl,
                                                                    BinHead {
                                                                        wafer_type,
                                                                        dut,
                                                                        mode,
                                                                        product,
                                                                        wafer_lots,
                                                                        wafer_no,
                                                                        wafer_size,
                                                                        index_x,
                                                                        index_y,
                                                                    },
                                                                ),
                                                            },
                                                        },
                                                    },
                                                },
                                            },
                                        },
                                    },
                                },
                            },
                        },
                    },
                },
            },
        },
    }
}

/// The map and bin sections of a WLBI bin map, after its nine headers.
pub open spec fn bin_tail_spec(cl: Seq<Seq<char>>, h: BinHead) -> Result<BinMapDataV, ErrorV> {
    let m0 = find_contains(cl, 9, "[MAP]"@);
    if m0 == -1 {
        Err(ErrorV::MissingMapSection { marker: "[MAP]"@ })
    } else {
        match map_section_spec(cl, m0 + 1) {
            Err(e) => Err(e),
            Ok((dies, end)) => match bin_pairs_spec(cl, end) {
                Err(e) => Err(e),
                Ok(pairs) => match aggregate_spec(pairs) {
                    Err(e) => Err(e),
                    Ok(bins) => Ok(
                        BinMapDataV {
                            wafer_type: h.wafer_type,
                            dut: h.dut,
                            mode: h.mode,
                            product: h.product,
                            wafer_lots: h.wafer_lots,
                            wafer_no: h.wafer_no,
                            wafer_size: h.wafer_size,
                            index_x: h.index_x,
                            index_y: h.index_y,
                            map: dies,
                            bins,
                        },
                    ),
                },
            },
        }
    }
}

/// Trims every line and drops the blank ones.
pub fn clean_lines(lines: &[String]) -> (cl: Vec<Vec<char>>)
    ensures
        cl.deep_view() == cleaned(lines.deep_view()),
{
    let ghost lv = lines.deep_view();
    let mut cl: Vec<Vec<char>> = Vec::new();
    let mut i: usize = 0;
    while i < lines.len()
        invariant
            i <= lines@.len(),
            lv == lines.deep_view(),
            cl.deep_view() == cleaned(lv.subrange(0, i as int)),
        decreases lines@.len() - i,
    {
        proof {
            assert(lv.subrange(0, i + 1 as int).drop_last() =~= lv.subrange(0, i as int));
            assert(lv.subrange(0, i + 1 as int).last() == lv[i as int]);
            assert(lv[i as int] == lines@[i as int]@);
        }
        let t = trim_chars(&chars_of(lines[i].as_str()));
        if t.len() > 0 {
            cl.push(t);
            proof {
                assert(cl.deep_view() =~~= cleaned(lv.subrange(0, i + 1 as int)));
            }
        }
        i = i + 1;
    }
    proof {
        assert(lv.subrange(0, lv.len() as int) =~= lv);
    }
    cl
}

fn is_terminator(l: &Vec<char>) -> (r: bool)
    ensures
        r == is_map_terminator(l@),
{
    let a = chars_of("Total Prober");
    if starts_with(l, &a) {
        return true;
    }
    let b = chars_of("Bin ");
    if starts_with(l, &b) {
        return true;
    }
    let c = chars_of("## END ##");
    starts_with(l, &c)
}

/// One die line: exactly four whitespace-separated integers.
fn parse_map_line(l: &Vec<char>) -> (r: Result<WaferMapDie, FormatError>)
    ensures
        match r {
            Ok(d) => line_die_spec(l@) == Some(d),
            Err(e) => line_die_spec(l@) == None::<WaferMapDie> && e@ == (ErrorV::MalformedGridLine {
                line: l@,
            }),
        },
{
    let ts = tokens_of(l);
    if ts.len() != 4 {
        return Err(FormatError::MalformedGridLine { line: str_of(l) });
    }
    let x = match parse_i32(&ts[0]) {
        Some(v) => v,
        None => return Err(FormatError::MalformedGridLine { line: str_of(l) }),
    };
    let y = match parse_i32(&ts[1]) {
        Some(v) => v,
        None => return Err(FormatError::MalformedGridLine { line: str_of(l) }),
    };
    let b = match parse_i32(&ts[2]) {
        Some(v) => v,
        None => return Err(FormatError::MalformedGridLine { line: str_of(l) }),
    };
    let rsv = match parse_i32(&ts[3]) {
        Some(v) => v,
        None => return Err(FormatError::MalformedGridLine { line: str_of(l) }),
    };
    Ok(WaferMapDie { x, y, bin: BinValue::Number(b), reserved: rsv })
}

/// One comma-separated segment of a bin-count line.
fn parse_seg(seg: &Vec<char>) -> (r: Result<Option<(u32, u32)>, FormatError>)
    ensures
        match r {
            Ok(opt) => seg_pair_spec(seg@) == Ok::<Option<(u32, u32)>, ErrorV>(opt),
            Err(e) => seg_pair_spec(seg@) == Err::<Option<(u32, u32)>, ErrorV>(e@),
        },
{
    let t = trim_chars(seg);
    let bp = chars_of("Bin");
    if !starts_with(&t, &bp) {
        return Ok(None);
    }
    proof {
        reveal_strlit("Bin");
    }
    let rest = subrange_vec(&t, 3, t.len());
    let ts = tokens_of(&rest);
    if ts.len() == 0 {
        return Ok(None);
    }
    let id = match parse_u32(&ts[0]) {
        Some(v) => v,
        None => {
            return Err(
                FormatError::InvalidNumericField {
                    field: String::from_str("Bin id"),
                    text: str_of(&ts[0]),
                },
            );
        },
    };
    let cnt_vec: Option<&Vec<char>> = if ts.len() >= 2 {
        let is_colon = ts[1].len() == 1 && ts[1][0] == ':';
        proof {
            reveal_strlit(":");
            if is_colon {
                assert(ts@[1]@ =~= ":"@);
            }
        }
        if is_colon {
            if ts.len() >= 3 {
                Some(&ts[2])
            } else {
                None
            }
        } else {
            Some(&ts[1])
        }
    } else {
        None
    };
    match cnt_vec {
        None => Err(FormatError::MalformedGridLine { line: str_of(&t) }),
        Some(cv) => match parse_u32(cv) {
            Some(c) => Ok(Some((id, c))),
            None => Err(
                FormatError::InvalidNumericField {
                    field: String::from_str("Bin count"),
                    text: str_of(cv),
                },
            ),
        },
    }
}

/// The pairs of one bin-count line, across its comma-separated segments.
fn parse_bin_line(l: &Vec<char>) -> (r: Result<Vec<(u32, u32)>, FormatError>)
    ensures
        match r {
            Ok(ps) => seg_pairs_spec(split_char_spec(l@, ',')) == Ok::<Seq<(u32, u32)>, ErrorV>(
                ps@,
            ),
            Err(e) => seg_pairs_spec(split_char_spec(l@, ',')) == Err::<Seq<(u32, u32)>, ErrorV>(
                e@,
            ),
        },
{
    let ghost ss = split_char_spec(l@, ',');
    let segs = split_char(l, ',');
    let mut acc: Vec<(u32, u32)> = Vec::new();
    proof {
        assert(ss.subrange(0, ss.len() as int) =~= ss);
        if let Ok(rest) = seg_pairs_spec(ss) {
            assert(Seq::<(u32, u32)>::empty() + rest =~= rest);
        }
    }
    let mut k: usize = 0;
    while k < segs.len()
        invariant
            k <= segs@.len(),
            segs@.len() == ss.len(),
            forall|t: int| 0 <= t < segs@.len() ==> (#[trigger] segs@[t])@ == ss[t],
            ss == split_char_spec(l@, ','),
            seg_pairs_spec(ss) == match seg_pairs_spec(ss.subrange(k as int, ss.len() as int)) {
                Ok(rest) => Ok::<Seq<(u32, u32)>, ErrorV>(acc@ + rest),
                Err(e) => Err::<Seq<(u32, u32)>, ErrorV>(e),
            },
        decreases segs@.len() - k,
    {
        proof {
            let tail = ss.subrange(k as int, ss.len() as int);
            assert(tail[0] == ss[k as int]);
            assert(tail.drop_first() =~= ss.subrange(k + 1 as int, ss.len() as int));
        }
        match parse_seg(&segs[k]) {
            Err(e) => {
                return Err(e);
            },
            Ok(opt) => {
                let ghost acc0 = acc@;
                if let Some(p) = opt {
                    acc.push(p);
                }
                proof {
                    let tail1 = ss.subrange(k + 1 as int, ss.len() as int);
                    if let Ok(rest) = seg_pairs_spec(tail1) {
                        if let Some(p) = opt {
                            assert(acc0 + (seq![p] + rest) =~= acc@ + rest);
                        } else {
                            assert(acc0 + rest =~= acc@ + rest);
                        }
                    }
                }
            },
        }
        k = k + 1;
    }
    proof {
        assert(ss.subrange(k as int, ss.len() as int) =~= Seq::<Seq<char>>::empty());
    }
    Ok(acc)
}

/// Sums one pair into the sorted tail `bins[from..]`.
fn insert_sorted(bins: &Vec<BinCountEntry>, from: usize, id: u32, cnt: u32) -> (r: Result<
    Vec<BinCountEntry>,
    FormatError,
>)
    requires
        from <= bins@.len(),
    ensures
        match r {
            Ok(b) => insert_pair_spec(bins@.subrange(from as int, bins@.len() as int), id, cnt)
                == Ok::<Seq<BinCountEntry>, ErrorV>(b@),
            Err(e) => insert_pair_spec(bins@.subrange(from as int, bins@.len() as int), id, cnt)
                == Err::<Seq<BinCountEntry>, ErrorV>(e@),
        },
    decreases bins@.len() - from,
{
    let ghost tail = bins@.subrange(from as int, bins@.len() as int);
    if from == bins.len() {
        let mut out: Vec<BinCountEntry> = Vec::new();
        out.push(BinCountEntry { bin: id, count: cnt });
        proof {
            assert(out@ =~= seq![BinCountEntry { bin: id, count: cnt }]);
        }
        return Ok(out);
    }
    proof {
        assert(tail[0] == bins@[from as int]);
        assert(tail.drop_first() =~= bins@.subrange(from + 1 as int, bins@.len() as int));
    }
    let head = bins[from];
    if head.bin < id {
        match insert_sorted(bins, from + 1, id, cnt) {
            Err(e) => Err(e),
            Ok(mut rest) => {
                let ghost rv = rest@;
                let mut out: Vec<BinCountEntry> = Vec::new();
                out.push(head);
                out.append(&mut rest);
                proof {
                    assert(out@ =~= seq![head] + rv);
                }
                Ok(out)
            },
        }
    } else if head.bin == id {
        if cnt <= u32::MAX - head.count {
            let merged = BinCountEntry { bin: id, count: head.count + cnt };
            let mut out: Vec<BinCountEntry> = Vec::new();
            out.push(merged);
            let mut j: usize = from + 1;
            while j < bins.len()
                invariant
                    from + 1 <= j <= bins@.len(),
                    out@ == seq![merged] + bins@.subrange(from + 1 as int, j as int),
                decreases bins@.len() - j,
            {
                out.push(bins[j]);
                proof {
                    assert(out@ =~= seq![merged] + bins@.subrange(from + 1 as int, j + 1 as int));
                }
                j = j + 1;
            }
            proof {
                assert(out@ =~= seq![merged] + tail.drop_first());
            }
            Ok(out)
        } else {
            let total: u64 = head.count as u64 + cnt as u64;
            let txt = crate::num::fmt_u64(total);
            Err(
                FormatError::InvalidNumericField {
                    field: String::from_str("Bin count"),
                    text: str_of(&txt),
                },
            )
        }
    } else {
        let fresh = BinCountEntry { bin: id, count: cnt };
        let mut out: Vec<BinCountEntry> = Vec::new();
        out.push(fresh);
        let mut j: usize = from;
        while j < bins.len()
            invariant
                from <= j <= bins@.len(),
                out@ == seq![fresh] + bins@.subrange(from as int, j as int),
            decreases bins@.len() - j,
        {
            out.push(bins[j]);
            proof {
                assert(out@ =~= seq![fresh] + bins@.subrange(from as int, j + 1 as int));
            }
            j = j + 1;
        }
        proof {
            assert(out@ =~= seq![fresh] + tail);
        }
        Ok(out)
    }
}

proof fn lemma_aggregate_err(pairs: Seq<(u32, u32)>, j: int)
    requires
        0 <= j <= pairs.len(),
        aggregate_spec(pairs.subrange(0, j)) is Err,
    ensures
        aggregate_spec(pairs) == aggregate_spec(pairs.subrange(0, j)),
    decreases pairs.len() - j,
{
    if j < pairs.len() {
        assert(pairs.subrange(0, j + 1).drop_last() =~= pairs.subrange(0, j));
        lemma_aggregate_err(pairs, j + 1);
    } else {
        assert(pairs.subrange(0, j) =~= pairs);
    }
}

/// Aggregates the pairs in reading order into a sorted bin list.
fn aggregate_pairs(pairs: &Vec<(u32, u32)>) -> (r: Result<Vec<BinCountEntry>, FormatError>)
    ensures
        match r {
            Ok(b) => aggregate_spec(pairs@) == Ok::<Seq<BinCountEntry>, ErrorV>(b@),
            Err(e) => aggregate_spec(pairs@) == Err::<Seq<BinCountEntry>, ErrorV>(e@),
        },
{
    let mut bins: Vec<BinCountEntry> = Vec::new();
    proof {
        assert(pairs@.subrange(0, 0) =~= Seq::<(u32, u32)>::empty());
    }
    let mut k: usize = 0;
    while k < pairs.len()
        invariant
            k <= pairs@.len(),
            aggregate_spec(pairs@.subrange(0, k as int)) == Ok::<Seq<BinCountEntry>, ErrorV>(
                bins@,
            ),
        decreases pairs@.len() - k,
    {
        proof {
            assert(pairs@.subrange(0, k + 1 as int).drop_last() =~= pairs@.subrange(0, k as int));
            assert(pairs@.subrange(0, k + 1 as int).last() == pairs@[k as int]);
        }
        let (id, cnt) = pairs[k];
        proof {
            assert(bins@.subrange(0, bins@.len() as int) =~= bins@);
        }
        match insert_sorted(&bins, 0, id, cnt) {
            Ok(nb) => {
                bins = nb;
            },
            Err(e) => {
                proof {
                    lemma_aggregate_err(pairs@, k + 1);
                }
                return Err(e);
            },
        }
        k = k + 1;
    }
    proof {
        assert(pairs@.subrange(0, k as int) =~= pairs@);
    }
    Ok(bins)
}

impl BinMapData {
    /// Parses a WLBI `.WaferMap` file, given as its sequence of lines.
    pub fn from_lines(lines: &[String]) -> (r: Result<BinMapData, FormatError>)
        ensures
            match r {
                Ok(m) => bin_from_lines_spec(lines.deep_view()) == Ok::<BinMapDataV, ErrorV>(m@),
                Err(e) => bin_from_lines_spec(lines.deep_view()) == Err::<BinMapDataV, ErrorV>(
                    e@,
                ),
            },
    {
        let cl = clean_lines(lines);
        let ghost clv = cl.deep_view();
        let mut pos: usize = 0;
        let wafer_type = match parse_kv_ci(&cl, &mut pos, "WaferType") {
            Ok(v) => match to_u32(&v, "WaferType") {
                Ok(n) => n,
                Err(e) => return Err(e),
            },
            Err(e) => return Err(e),
        };
        let dut = match parse_kv_ci(&cl, &mut pos, "DUT") {
            Ok(v) => match to_u32(&v, "DUT") {
                Ok(n) => n,
                Err(e) => return Err(e),
            },
            Err(e) => return Err(e),
        };
        let mode = match parse_kv_ci(&cl, &mut pos, "Mode") {
            Ok(v) => match to_u32(&v, "Mode") {
                Ok(n) => n,
                Err(e) => return Err(e),
            },
            Err(e) => return Err(e),
        };
        let product = match parse_kv_ci(&cl, &mut pos, "Product") {
            Ok(v) => str_of(&v),
            Err(e) => return Err(e),
        };
        let wafer_lots = match parse_kv_ci(&cl, &mut pos, "Wafer Lots") {
            Ok(v) => str_of(&v),
            Err(e) => return Err(e),
        };
        let wafer_no = match parse_kv_ci(&cl, &mut pos, "Wafer No") {
            Ok(v) => str_of(&v),
            Err(e) => return Err(e),
        };
        let wafer_size = match parse_kv_ci(&cl, &mut pos, "Wafer Size") {
            Ok(v) => match to_scaled(&v, "Wafer Size", 3) {
                Ok(n) => n,
                Err(e) => return Err(e),
            },
            Err(e) => return Err(e),
        };
        let index_x = match parse_kv_ci(&cl, &mut pos, "Index X") {
            Ok(v) => match to_scaled(&v, "Index X", 3) {
                Ok(n) => n,
                Err(e) => return Err(e),
            },
            Err(e) => return Err(e),
        };
        let index_y = match parse_kv_ci(&cl, &mut pos, "Index Y") {
            Ok(v) => match to_scaled(&v, "Index Y", 3) {
                Ok(n) => n,
                Err(e) => return Err(e),
            },
            Err(e) => return Err(e),
        };
        // Skip forward to the `[MAP]` marker.
        let marker = chars_of("[MAP]");
        let mut mpos: usize = 9;
        while mpos < cl.len() && !contains_sub(&cl[mpos], &marker)
            invariant
                9 <= mpos <= cl@.len(),
                clv == cl.deep_view(),
                marker@ == "[MAP]"@,
                find_contains(clv, 9, "[MAP]"@) == find_contains(clv, mpos as int, "[MAP]"@),
            decreases cl@.len() - mpos,
        {
            proof {
                assert(clv[mpos as int] == cl@[mpos as int]@);
            }
            mpos = mpos + 1;
        }
        proof {
            if mpos < cl@.len() {
                assert(clv[mpos as int] == cl@[mpos as int]@);
            }
        }
        if mpos == cl.len() {
            return Err(FormatError::MissingMapSection { marker: String::from_str("[MAP]") });
        }
        // The die lines, until a terminator line or the end.
        let mut dies: Vec<WaferMapDie> = Vec::new();
        let mut p: usize = mpos + 1;
        let ghost start = p as int;
        proof {
            if let Ok((rest, end)) = map_section_spec(clv, start) {
                assert(Seq::<WaferMapDie>::empty() + rest =~= rest);
            }
        }
        #[verifier::loop_isolation(false)]
        while p < cl.len() && !is_terminator(&cl[p])
            invariant
                start <= p as int <= cl@.len(),
                clv == cl.deep_view(),
                map_section_spec(clv, start) == match map_section_spec(clv, p as int) {
                    Ok((rest, end)) => Ok::<(Seq<WaferMapDie>, int), ErrorV>((dies@ + rest, end)),
                    Err(e) => Err::<(Seq<WaferMapDie>, int), ErrorV>(e),
                },
            decreases cl@.len() - p,
        {
            proof {
                assert(clv[p as int] == cl@[p as int]@);
            }
            let ghost dies0 = dies@;
            match parse_map_line(&cl[p]) {
                Err(e) => {
                    return Err(e);
                },
                Ok(d) => {
                    dies.push(d);
                },
            }
            proof {
                if let Ok((rest, end)) = map_section_spec(clv, p + 1 as int) {
                    assert(dies0 + (seq![dies@.last()] + rest) =~= dies@ + rest);
                }
            }
            p = p + 1;
        }
        proof {
            if p < cl@.len() {
                assert(clv[p as int] == cl@[p as int]@);
            }
            assert(map_section_spec(clv, p as int) == Ok::<(Seq<WaferMapDie>, int), ErrorV>((
                Seq::<WaferMapDie>::empty(),
                p as int,
            )));
            if let Ok((rest, end)) = map_section_spec(clv, p as int) {
                assert(dies@ + rest =~= dies@);
            }
        }
        // The bin-count section, until the end sentinel.
        let mut pairs: Vec<(u32, u32)> = Vec::new();
        let mut q: usize = p;
        let ghost bstart = q as int;
        proof {
            if let Ok(rest) = bin_pairs_spec(clv, bstart) {
                assert(Seq::<(u32, u32)>::empty() + rest =~= rest);
            }
        }
        let end_lit = chars_of("## END ##");
        let bin_lit = chars_of("Bin");
        #[verifier::loop_isolation(false)]
        while q < cl.len() && !starts_with(&cl[q], &end_lit)
            invariant
                bstart <= q as int <= cl@.len(),
                clv == cl.deep_view(),
                end_lit@ == "## END ##"@,
                bin_lit@ == "Bin"@,
                bin_pairs_spec(clv, bstart) == match bin_pairs_spec(clv, q as int) {
                    Ok(rest) => Ok::<Seq<(u32, u32)>, ErrorV>(pairs@ + rest),
                    Err(e) => Err::<Seq<(u32, u32)>, ErrorV>(e),
                },
            decreases cl@.len() - q,
        {
            proof {
                assert(clv[q as int] == cl@[q as int]@);
            }
            let ghost pairs0 = pairs@;
            if starts_with(&cl[q], &bin_lit) {
                match parse_bin_line(&cl[q]) {
                    Err(e) => {
                        return Err(e);
                    },
                    Ok(mut ps) => {
                        let ghost psv = ps@;
                        pairs.append(&mut ps);
                        proof {
                            assert(pairs@ =~= pairs0 + psv);
                            if let Ok(rest) = bin_pairs_spec(clv, q + 1 as int) {
                                assert(pairs0 + (psv + rest) =~= pairs@ + rest);
                            }
                        }
                    },
                }
            }
            q = q + 1;
        }
        proof {
            if q < cl@.len() {
                assert(clv[q as int] == cl@[q as int]@);
            }
            assert(bin_pairs_spec(clv, q as int) == Ok::<Seq<(u32, u32)>, ErrorV>(
                Seq::<(u32, u32)>::empty(),
            ));
            if let Ok(rest) = bin_pairs_spec(clv, q as int) {
                assert(pairs@ + rest =~= pairs@);
            }
        }
        let bins = match aggregate_pairs(&pairs) {
            Ok(b) => b,
            Err(e) => return Err(e),
        };
        Ok(
            BinMapData {
                wafer_type,
                dut,
                mode,
                product,
                wafer_lots,
                wafer_no,
                wafer_size,
                index_x,
                index_y,
                map: dies,
                bins,
            },
        )
    }
}

/// The total count declared for `id` across a pair sequence.
pub open spec fn bin_sum(pairs: Seq<(u32, u32)>, id: u32) -> int
    decreases pairs.len(),
{
    if pairs.len() == 0 {
        0
    } else {
        bin_sum(pairs.drop_last(), id) + if pairs.last().0 == id {
            pairs.last().1 as int
        } else {
            0
        }
    }
}

/// Whether any pair declares `id`.
pub open spec fn has_id(pairs: Seq<(u32, u32)>, id: u32) -> bool {
    exists|k: int| 0 <= k < pairs.len() && (#[trigger] pairs[k]).0 == id
}

/// A bin list sorted strictly ascending by id (so ids are unique).
pub open spec fn sorted_bins(b: Seq<BinCountEntry>) -> bool {
    forall|i: int, j: int| 0 <= i < j < b.len() ==> b[i].bin < b[j].bin
}

/// The total count a bin list assigns to `id`.
pub open spec fn bins_val(b: Seq<BinCountEntry>, id: u32) -> int
    decreases b.len(),
{
    if b.len() == 0 {
        0
    } else {
        (if b[0].bin == id {
            b[0].count as int
        } else {
            0
        }) + bins_val(b.drop_first(), id)
    }
}

/// Whether a bin list carries an entry for `id`.
pub open spec fn bins_has(b: Seq<BinCountEntry>, id: u32) -> bool {
    exists|k: int| 0 <= k < b.len() && (#[trigger] b[k]).bin == id
}

proof fn lemma_bins_val_absent(b: Seq<BinCountEntry>, id: u32)
    requires
        !bins_has(b, id),
    ensures
        bins_val(b, id) == 0,
    decreases b.len(),
{
    if b.len() > 0 {
        assert(b[0].bin != id);
        assert(forall|k: int|
            0 <= k < b.drop_first().len() ==> #[trigger] b.drop_first()[k] == b[k + 1]);
        lemma_bins_val_absent(b.drop_first(), id);
    }
}

/// What one insertion does to a sorted bin list: it adds `cnt` to the
/// total for `id`, keeps every other total, keeps sortedness, and fails
/// exactly when the new total for `id` would not fit.
proof fn lemma_insert_props(b: Seq<BinCountEntry>, id: u32, cnt: u32)
    requires
        sorted_bins(b),
    ensures
        match insert_pair_spec(b, id, cnt) {
            Ok(b2) => {
                &&& sorted_bins(b2)
                &&& forall|x: u32|
                    bins_val(b2, x) == bins_val(b, x) + if x == id {
                        cnt as int
                    } else {
                        0
                    }
                &&& forall|x: u32| bins_has(b2, x) <==> bins_has(b, x) || x == id
            },
            Err(_) => bins_val(b, id) + cnt > u32::MAX,
        },
    decreases b.len(),
{
    if b.len() > 0 {
        assert(forall|k: int|
            0 <= k < b.drop_first().len() ==> #[trigger] b.drop_first()[k] == b[k + 1]);
    }
    if b.len() == 0 {
        let b2 = seq![BinCountEntry { bin: id, count: cnt }];
        assert(insert_pair_spec(b, id, cnt) == Ok::<Seq<BinCountEntry>, ErrorV>(b2));
        assert forall|x: u32|
            bins_val(b2, x) == bins_val(b, x) + (if x == id {
                cnt as int
            } else {
                0
            }) by {
            assert(b2.drop_first() =~= Seq::<BinCountEntry>::empty());
            assert(bins_val(b2.drop_first(), x) == 0);
            assert(b2[0] == BinCountEntry { bin: id, count: cnt });
            assert(bins_val(b2, x) == (if b2[0].bin == x {
                b2[0].count as int
            } else {
                0
            }) + bins_val(b2.drop_first(), x));
            assert(bins_val(b, x) == 0);
        }
        assert forall|x: u32| bins_has(b2, x) <==> (bins_has(b, x) || x == id) by {
            if x == id {
                assert(b2[0].bin == x);
            }
            if bins_has(b2, x) {
                let k = choose|k: int| 0 <= k < b2.len() && b2[k].bin == x;
                assert(k == 0);
            }
            if bins_has(b, x) {
                let k = choose|k: int| 0 <= k < b.len() && (#[trigger] b[k]).bin == x;
                assert(false);
            }
        }
    } else if b[0].bin < id {
        lemma_insert_props(b.drop_first(), id, cnt);
        match insert_pair_spec(b.drop_first(), id, cnt) {
            Ok(rest) => {
                let b2 = seq![b[0]] + rest;
                assert(b2.drop_first() =~= rest);
                assert forall|x: u32|
                    bins_val(b2, x) == bins_val(b, x) + (if x == id {
                        cnt as int
                    } else {
                        0
                    }) by {
                    assert(bins_val(b2, x) == (if b2[0].bin == x {
                        b2[0].count as int
                    } else {
                        0
                    }) + bins_val(rest, x));
                    assert(bins_val(b, x) == (if b[0].bin == x {
                        b[0].count as int
                    } else {
                        0
                    }) + bins_val(b.drop_first(), x));
                }
                assert forall|x: u32| bins_has(b2, x) <==> (bins_has(b, x) || x == id) by {
                    if bins_has(b2, x) {
                        let k = choose|k: int| 0 <= k < b2.len() && b2[k].bin == x;
                        if k == 0 {
                            assert(b[0].bin == x);
                        } else {
                            assert(rest[k - 1].bin == x);
                            assert(bins_has(rest, x));
                            if bins_has(b.drop_first(), x) {
                                let t = choose|t: int|
                                    0 <= t < b.drop_first().len() && b.drop_first()[t].bin == x;
                                assert(b[t + 1].bin == x);
                            }
                        }
                    }
                    if bins_has(b, x) {
                        let k = choose|k: int| 0 <= k < b.len() && b[k].bin == x;
                        if k == 0 {
                            assert(b2[0].bin == x);
                        } else {
                            assert(b.drop_first()[k - 1].bin == x);
                            assert(bins_has(rest, x));
                            let t = choose|t: int| 0 <= t < rest.len() && rest[t].bin == x;
                            assert(b2[t + 1].bin == x);
                        }
                    }
                    if x == id {
                        assert(bins_has(rest, x));
                        let t = choose|t: int| 0 <= t < rest.len() && rest[t].bin == x;
                        assert(b2[t + 1].bin == x);
                    }
                }
                assert forall|i: int, j: int| 0 <= i < j < b2.len() implies b2[i].bin
                    < b2[j].bin by {
                    if i == 0 {
                        assert(bins_has(rest, b2[j].bin)) by {
                            assert(rest[j - 1].bin == b2[j].bin);
                        }
                        if bins_has(b.drop_first(), b2[j].bin) {
                            let t = choose|t: int|
                                0 <= t < b.drop_first().len() && b.drop_first()[t].bin == b2[j].bin;
                            assert(b[t + 1].bin == b2[j].bin);
                        }
                    } else {
                        assert(rest[i - 1].bin < rest[j - 1].bin);
                    }
                }
            },
            Err(_) => {
                assert(b[0].bin != id);
                assert(bins_val(b, id) == bins_val(b.drop_first(), id));
            },
        }
    } else if b[0].bin == id {
        if b[0].count + cnt <= u32::MAX {
            let merged = BinCountEntry { bin: id, count: (b[0].count + cnt) as u32 };
            let b2 = seq![merged] + b.drop_first();
            assert(b2.drop_first() =~= b.drop_first());
            assert forall|x: u32|
                bins_val(b2, x) == bins_val(b, x) + (if x == id {
                    cnt as int
                } else {
                    0
                }) by {
                assert(bins_val(b2, x) == (if b2[0].bin == x {
                    b2[0].count as int
                } else {
                    0
                }) + bins_val(b2.drop_first(), x));
                assert(bins_val(b, x) == (if b[0].bin == x {
                    b[0].count as int
                } else {
                    0
                }) + bins_val(b.drop_first(), x));
            }
            assert forall|x: u32| bins_has(b2, x) <==> (bins_has(b, x) || x == id) by {
                if x == id {
                    assert(b2[0].bin == x);
                }
                if bins_has(b2, x) {
                    let k = choose|k: int| 0 <= k < b2.len() && b2[k].bin == x;
                    if k > 0 {
                        assert(b[k].bin == x);
                    }
                }
                if bins_has(b, x) {
                    let k = choose|k: int| 0 <= k < b.len() && b[k].bin == x;
                    if k > 0 {
                        assert(b2[k].bin == x);
                    }
                }
            }
            assert forall|i: int, j: int| 0 <= i < j < b2.len() implies b2[i].bin
                < b2[j].bin by {
                if i == 0 {
                    assert(b[0].bin < b[j].bin);
                    assert(b2[j] == b[j]);
                } else {
                    assert(b2[i] == b[i] && b2[j] == b[j]);
                }
            }
        } else {
            assert(!bins_has(b.drop_first(), id)) by {
                if bins_has(b.drop_first(), id) {
                    let t = choose|t: int|
                        0 <= t < b.drop_first().len() && b.drop_first()[t].bin == id;
                    assert(b[0].bin < b[t + 1].bin);
                }
            }
            lemma_bins_val_absent(b.drop_first(), id);
        }
    } else {
        let fresh = BinCountEntry { bin: id, count: cnt };
        let b2 = seq![fresh] + b;
        assert(b2.drop_first() =~= b);
        assert forall|x: u32|
            bins_val(b2, x) == bins_val(b, x) + (if x == id {
                cnt as int
            } else {
                0
            }) by {
            assert(bins_val(b2, x) == (if b2[0].bin == x {
                b2[0].count as int
            } else {
                0
            }) + bins_val(b2.drop_first(), x));
        }
        assert forall|x: u32| bins_has(b2, x) <==> (bins_has(b, x) || x == id) by {
            if x == id {
                assert(b2[0].bin == x);
            }
            if bins_has(b2, x) {
                let k = choose|k: int| 0 <= k < b2.len() && b2[k].bin == x;
                if k > 0 {
                    assert(b[k - 1].bin == x);
                }
            }
            if bins_has(b, x) {
                let k = choose|k: int| 0 <= k < b.len() && b[k].bin == x;
                assert(b2[k + 1].bin == x);
            }
        }
        assert forall|i: int, j: int| 0 <= i < j < b2.len() implies b2[i].bin < b2[j].bin by {
            if i == 0 {
                assert(b2[j] == b[j - 1]);
                if j >= 2 {
                    assert(b[0].bin < b[j - 1].bin);
                }
            } else {
                assert(b2[i] == b[i - 1] && b2[j] == b[j - 1]);
            }
        }
        assert(bins_val(b2, id) == cnt + bins_val(b, id));
    }
}

/// What aggregation pins down: the result is sorted, assigns every id the
/// sum of its declared counts, and carries exactly the declared ids.
pub proof fn lemma_aggregate_props(pairs: Seq<(u32, u32)>)
    ensures
        match aggregate_spec(pairs) {
            Ok(b) => {
                &&& sorted_bins(b)
                &&& forall|x: u32| bins_val(b, x) == bin_sum(pairs, x)
                &&& forall|x: u32| bins_has(b, x) <==> has_id(pairs, x)
            },
            Err(_) => true,
        },
    decreases pairs.len(),
{
    if pairs.len() > 0 {
        lemma_aggregate_props(pairs.drop_last());
        match aggregate_spec(pairs.drop_last()) {
            Ok(b) => {
                lemma_insert_props(b, pairs.last().0, pairs.last().1);
                match insert_pair_spec(b, pairs.last().0, pairs.last().1) {
                    Ok(b2) => {
                        assert forall|x: u32| bins_has(b2, x) <==> has_id(pairs, x) by {
                            assert(forall|k: int|
                                0 <= k < pairs.drop_last().len()
                                    ==> #[trigger] pairs.drop_last()[k] == pairs[k]);
                            if has_id(pairs, x) {
                                let k = choose|k: int| 0 <= k < pairs.len() && pairs[k].0 == x;
                                if k < pairs.len() - 1 {
                                    assert(pairs.drop_last()[k].0 == x);
                                }
                            }
                            if has_id(pairs.drop_last(), x) {
                                let k = choose|k: int|
                                    0 <= k < pairs.drop_last().len() && pairs.drop_last()[k].0
                                        == x;
                                assert(pairs[k].0 == x);
                            }
                            if pairs.last().0 == x {
                                assert(pairs[pairs.len() - 1].0 == x);
                            }
                        }
                    },
                    Err(_) => {},
                }
            },
            Err(_) => {},
        }
    }
}

/// Two sorted bin lists that carry the same ids with the same totals are
/// the same list.
proof fn lemma_sorted_bins_unique(b1: Seq<BinCountEntry>, b2: Seq<BinCountEntry>)
    requires
        sorted_bins(b1),
        sorted_bins(b2),
        forall|x: u32| bins_has(b1, x) <==> bins_has(b2, x),
        forall|x: u32| bins_val(b1, x) == bins_val(b2, x),
    ensures
        b1 == b2,
    decreases b1.len(),
{
    if b1.len() > 0 {
        assert(forall|k: int|
            0 <= k < b1.drop_first().len() ==> #[trigger] b1.drop_first()[k] == b1[k + 1]);
    }
    if b2.len() > 0 {
        assert(forall|k: int|
            0 <= k < b2.drop_first().len() ==> #[trigger] b2.drop_first()[k] == b2[k + 1]);
    }
    if b1.len() == 0 {
        if b2.len() > 0 {
            assert(bins_has(b2, b2[0].bin));
            assert(bins_has(b1, b2[0].bin));
            let k = choose|k: int| 0 <= k < b1.len() && b1[k].bin == b2[0].bin;
            assert(false);
        }
        assert(b1 =~= b2);
    } else if b2.len() == 0 {
        assert(bins_has(b1, b1[0].bin));
        assert(bins_has(b2, b1[0].bin));
        let k = choose|k: int| 0 <= k < b2.len() && b2[k].bin == b1[0].bin;
        assert(false);
    } else {
        // The heads carry the same id: each head's id occurs in the other
        // list, and sortedness pins it to position zero.
        assert(bins_has(b1, b1[0].bin));
        assert(bins_has(b2, b1[0].bin));
        let k2 = choose|k: int| 0 <= k < b2.len() && b2[k].bin == b1[0].bin;
        assert(bins_has(b2, b2[0].bin));
        assert(bins_has(b1, b2[0].bin));
        let k1 = choose|k: int| 0 <= k < b1.len() && b1[k].bin == b2[0].bin;
        if b1[0].bin < b2[0].bin {
            assert(b2[k2].bin >= b2[0].bin);
            assert(false);
        }
        if b2[0].bin < b1[0].bin {
            assert(b1[k1].bin >= b1[0].bin);
            assert(false);
        }
        let h = b1[0].bin;
        assert(!bins_has(b1.drop_first(), h)) by {
            if bins_has(b1.drop_first(), h) {
                let t = choose|t: int|
                    0 <= t < b1.drop_first().len() && b1.drop_first()[t].bin == h;
                assert(b1[0].bin < b1[t + 1].bin);
            }
        }
        assert(!bins_has(b2.drop_first(), h)) by {
            if bins_has(b2.drop_first(), h) {
                let t = choose|t: int|
                    0 <= t < b2.drop_first().len() && b2.drop_first()[t].bin == h;
                assert(b2[0].bin < b2[t + 1].bin);
            }
        }
        lemma_bins_val_absent(b1.drop_first(), h);
        lemma_bins_val_absent(b2.drop_first(), h);
        assert(bins_val(b1, h) == b1[0].count + bins_val(b1.drop_first(), h));
        assert(bins_val(b2, h) == b2[0].count + bins_val(b2.drop_first(), h));
        assert(b1[0].count == b2[0].count);
        assert forall|x: u32| bins_has(b1.drop_first(), x) <==> bins_has(
            b2.drop_first(),
            x,
        ) by {
            if bins_has(b1.drop_first(), x) {
                let t = choose|t: int|
                    0 <= t < b1.drop_first().len() && b1.drop_first()[t].bin == x;
                assert(b1[t + 1].bin == x);
                assert(x != h);
                assert(bins_has(b2, x));
                let u = choose|u: int| 0 <= u < b2.len() && b2[u].bin == x;
                assert(u != 0);
                assert(b2.drop_first()[u - 1].bin == x);
            }
            if bins_has(b2.drop_first(), x) {
                let t = choose|t: int|
                    0 <= t < b2.drop_first().len() && b2.drop_first()[t].bin == x;
                assert(b2[t + 1].bin == x);
                assert(x != h);
                assert(bins_has(b1, x));
                let u = choose|u: int| 0 <= u < b1.len() && b1[u].bin == x;
                assert(u != 0);
                assert(b1.drop_first()[u - 1].bin == x);
            }
        }
        assert forall|x: u32| bins_val(b1.drop_first(), x) == bins_val(
            b2.drop_first(),
            x,
        ) by {
            if x == h {
                assert(bins_val(b1.drop_first(), x) == 0 && bins_val(b2.drop_first(), x) == 0);
            } else {
                assert(bins_val(b1, x) == bins_val(b1.drop_first(), x));
                assert(bins_val(b2, x) == bins_val(b2.drop_first(), x));
            }
        }
        lemma_sorted_bins_unique(b1.drop_first(), b2.drop_first());
        assert(b1[0] == b2[0]);
        assert(b1.len() == b2.len());
        assert forall|i: int| 0 <= i < b1.len() implies b1[i] == b2[i] by {
            if i > 0 {
                assert(b1[i] == b1.drop_first()[i - 1]);
                assert(b2[i] == b2.drop_first()[i - 1]);
            }
        }
        assert(b1 =~= b2);
    }
}

/// Removing one pair takes exactly its contribution out of the sum.
proof fn lemma_bin_sum_remove(s: Seq<(u32, u32)>, j: int, id: u32)
    requires
        0 <= j < s.len(),
    ensures
        bin_sum(s, id) == bin_sum(s.remove(j), id) + if s[j].0 == id {
            s[j].1 as int
        } else {
            0
        },
    decreases s.len(),
{
    if j == s.len() - 1 {
        assert(s.remove(j) =~= s.drop_last());
    } else {
        assert(s.remove(j).drop_last() =~= s.drop_last().remove(j));
        assert(s.remove(j).last() == s.last());
        lemma_bin_sum_remove(s.drop_last(), j, id);
    }
}

/// The sum for each id depends only on the multiset of declared pairs.
proof fn lemma_bin_sum_multiset(s1: Seq<(u32, u32)>, s2: Seq<(u32, u32)>, id: u32)
    requires
        s1.to_multiset() == s2.to_multiset(),
    ensures
        bin_sum(s1, id) == bin_sum(s2, id),
    decreases s1.len(),
{
    broadcast use vstd::seq_lib::group_to_multiset_ensures;

    if s1.len() == 0 {
        assert(s2.to_multiset().len() == 0);
        assert(s2.len() == 0);
    } else {
        let last = s1.last();
        assert(s1.contains(last));
        assert(s1.to_multiset().count(last) > 0);
        assert(s2.to_multiset().count(last) > 0);
        assert(s2.contains(last));
        let j = choose|j: int| 0 <= j < s2.len() && s2[j] == last;
        assert(s1.drop_last() =~= s1.remove(s1.len() - 1));
        assert(s1.remove(s1.len() - 1).to_multiset() == s1.to_multiset().remove(last));
        assert(s2.remove(j).to_multiset() == s2.to_multiset().remove(last));
        lemma_bin_sum_multiset(s1.drop_last(), s2.remove(j), id);
        lemma_bin_sum_remove(s2, j, id);
    }
}

/// Whether an id is declared depends only on the multiset of pairs.
proof fn lemma_has_id_multiset(s1: Seq<(u32, u32)>, s2: Seq<(u32, u32)>, id: u32)
    requires
        s1.to_multiset() == s2.to_multiset(),
    ensures
        has_id(s1, id) == has_id(s2, id),
{
    broadcast use vstd::seq_lib::group_to_multiset_ensures;

    if has_id(s1, id) {
        let k = choose|k: int| 0 <= k < s1.len() && s1[k].0 == id;
        assert(s1.contains(s1[k]));
        assert(s2.to_multiset().count(s1[k]) > 0);
        assert(s2.contains(s1[k]));
        let j = choose|j: int| 0 <= j < s2.len() && s2[j] == s1[k];
        assert(s2[j].0 == id);
    }
    if has_id(s2, id) {
        let k = choose|k: int| 0 <= k < s2.len() && s2[k].0 == id;
        assert(s2.contains(s2[k]));
        assert(s1.to_multiset().count(s2[k]) > 0);
        assert(s1.contains(s2[k]));
        let j = choose|j: int| 0 <= j < s1.len() && s1[j] == s2[k];
        assert(s1[j].0 == id);
    }
}

/// A sorted bin list never assigns an id more than one entry's worth.
proof fn lemma_bins_val_bounded(b: Seq<BinCountEntry>, id: u32)
    requires
        sorted_bins(b),
    ensures
        0 <= bins_val(b, id) <= u32::MAX,
    decreases b.len(),
{
    if b.len() > 0 {
        assert(forall|k: int|
            0 <= k < b.drop_first().len() ==> #[trigger] b.drop_first()[k] == b[k + 1]);
        if b[0].bin == id {
            assert(!bins_has(b.drop_first(), id)) by {
                if bins_has(b.drop_first(), id) {
                    let t = choose|t: int|
                        0 <= t < b.drop_first().len() && b.drop_first()[t].bin == id;
                    assert(b[0].bin < b[t + 1].bin);
                }
            }
            lemma_bins_val_absent(b.drop_first(), id);
        } else {
            lemma_bins_val_bounded(b.drop_first(), id);
        }
    }
}

/// Dropping the last pair cannot increase any id's total.
proof fn lemma_bin_sum_mono(pairs: Seq<(u32, u32)>, id: u32)
    requires
        pairs.len() > 0,
    ensures
        bin_sum(pairs.drop_last(), id) <= bin_sum(pairs, id),
{
}

/// Aggregation succeeds exactly when every id's total count fits.
pub proof fn lemma_aggregate_ok_iff(pairs: Seq<(u32, u32)>)
    ensures
        aggregate_spec(pairs) is Ok <==> (forall|id: u32| bin_sum(pairs, id) <= u32::MAX),
    decreases pairs.len(),
{
    lemma_aggregate_props(pairs);
    match aggregate_spec(pairs) {
        Ok(b) => {
            assert forall|id: u32| bin_sum(pairs, id) <= u32::MAX by {
                lemma_bins_val_bounded(b, id);
            }
        },
        Err(_) => {
            if forall|id: u32| bin_sum(pairs, id) <= u32::MAX {
                assert(pairs.len() > 0);
                assert forall|id: u32| bin_sum(pairs.drop_last(), id) <= u32::MAX by {
                    lemma_bin_sum_mono(pairs, id);
                }
                lemma_aggregate_ok_iff(pairs.drop_last());
                lemma_aggregate_props(pairs.drop_last());
                let b = aggregate_spec(pairs.drop_last())->Ok_0;
                let last = pairs.last();
                lemma_insert_props(b, last.0, last.1);
                assert(bins_val(b, last.0) + last.1 > u32::MAX);
                assert(bins_val(b, last.0) == bin_sum(pairs.drop_last(), last.0));
                assert(bin_sum(pairs, last.0) == bin_sum(pairs.drop_last(), last.0)
                    + last.1 as int);
                assert(false);
            }
        },
    }
}

/// Bin-count aggregation is commutative: when a declaration sequence
/// aggregates successfully, any reordering of its `(id, count)` pairs
/// aggregates to the very same sorted bin list.
pub proof fn lemma_bin_aggregation_commutes(s1: Seq<(u32, u32)>, s2: Seq<(u32, u32)>)
    requires
        s1.to_multiset() == s2.to_multiset(),
        aggregate_spec(s1) is Ok,
    ensures
        aggregate_spec(s2) == aggregate_spec(s1),
{
    lemma_aggregate_ok_iff(s1);
    lemma_aggregate_ok_iff(s2);
    assert forall|id: u32| bin_sum(s2, id) <= u32::MAX by {
        lemma_bin_sum_multiset(s1, s2, id);
    }
    lemma_aggregate_props(s1);
    lemma_aggregate_props(s2);
    let b1 = aggregate_spec(s1)->Ok_0;
    let b2 = aggregate_spec(s2)->Ok_0;
    assert forall|x: u32| bins_val(b1, x) == bins_val(b2, x) by {
        lemma_bin_sum_multiset(s1, s2, x);
    }
    assert forall|x: u32| bins_has(b1, x) <==> bins_has(b2, x) by {
        lemma_has_id_multiset(s1, s2, x);
    }
    lemma_sorted_bins_unique(b1, b2);
}

/// One die row of a bin map in plain integer form: coordinates, the bin
/// code, and the opaque trailing flag.
#[derive(Debug, Clone, Copy, PartialEq, Eq, Structural)]
pub struct MapEntry {
    pub x: i32,
    pub y: i32,
    pub code: i32,
    pub flag: i32,
}

/// A flat view of a WLBI bin-map file, with the wafer number read as a
/// number, convenient for callers that only read.
#[derive(Debug, Clone, PartialEq, Eq)]
pub struct WaferMapInfo {
    pub wafer_type: u32,
    pub dut: u32,
    pub mode: u32,
    pub product: String,
    pub wafer_lots: String,
    pub wafer_no: u32,
    /// Wafer size in thousandths.
    pub wafer_size: i64,
    /// Die index step along X in thousandths.
    pub index_x: i64,
    /// Die index step along Y in thousandths.
    pub index_y: i64,
    pub entries: Vec<MapEntry>,
    pub bins: Vec<BinCountEntry>,
}

/// The integer bin code of a die: special markers count as zero (the map
/// section of this format only ever yields numeric bins).
pub open spec fn die_code(d: WaferMapDie) -> int {
    match d.bin {
        BinValue::Number(n) => n as int,
        BinValue::Special(_) => 0,
    }
}

/// Parses a whole `.WaferMap` file given as one string: the text is split
/// into lines the way the file reader would split it, parsed as a bin map,
/// and flattened into a `WaferMapInfo` whose wafer number must be numeric.
pub fn parse_file3_str(s: &str) -> (r: Result<WaferMapInfo, FormatError>)
    ensures
        match r {
            Ok(w) => {
                let p = bin_from_lines_spec(crate::text::split_lines_spec(s@));
                &&& p is Ok
                &&& w.wafer_type == p->Ok_0.wafer_type
                &&& w.dut == p->Ok_0.dut
                &&& w.mode == p->Ok_0.mode
                &&& w.product@ == p->Ok_0.product
                &&& w.wafer_lots@ == p->Ok_0.wafer_lots
                &&& parse_u32_spec(p->Ok_0.wafer_no) == Some(w.wafer_no)
                &&& w.wafer_size == p->Ok_0.wafer_size
                &&& w.index_x == p->Ok_0.index_x
                &&& w.index_y == p->Ok_0.index_y
                &&& w.entries@.len() == p->Ok_0.map.len()
                &&& (forall|k: int|
                    0 <= k < w.entries@.len() ==> {
                        let d = p->Ok_0.map[k];
                        #[trigger] w.entries@[k] == (MapEntry {
                            x: d.x,
                            y: d.y,
                            code: die_code(d) as i32,
                            flag: d.reserved,
                        })
                    })
                &&& w.bins@ == p->Ok_0.bins
            },
            Err(e) => {
                let p = bin_from_lines_spec(crate::text::split_lines_spec(s@));
                match p {
                    Err(pe) => pe == e@,
                    Ok(m) => parse_u32_spec(m.wafer_no) is None && e@
                        == (ErrorV::InvalidNumericField { field: "Wafer No"@, text: m.wafer_no }),
                }
            },
        },
{
    let lines = crate::text::split_lines(s);
    let m = match BinMapData::from_lines(lines.as_slice()) {
        Ok(m) => m,
        Err(e) => return Err(e),
    };
    let wn = chars_of(m.wafer_no.as_str());
    let wafer_no = match parse_u32(&wn) {
        Some(n) => n,
        None => {
            return Err(
                FormatError::InvalidNumericField {
                    field: String::from_str("Wafer No"),
                    text: m.wafer_no,
                },
            );
        },
    };
    let mut entries: Vec<MapEntry> = Vec::new();
    let mut k: usize = 0;
    while k < m.map.len()
        invariant
            k <= m.map@.len(),
            entries@.len() == k,
            forall|t: int|
                0 <= t < k ==> {
                    let d = m.map@[t];
                    #[trigger] entries@[t] == (MapEntry {
                        x: d.x,
                        y: d.y,
                        code: die_code(d) as i32,
                        flag: d.reserved,
                    })
                },
        decreases m.map@.len() - k,
    {
        let d = m.map[k];
        let code: i32 = match d.bin {
            BinValue::Number(n) => n,
            BinValue::Special(_) => 0,
        };
        entries.push(MapEntry { x: d.x, y: d.y, code, flag: d.reserved });
        k = k + 1;
    }
    Ok(
        WaferMapInfo {
            wafer_type: m.wafer_type,
            dut: m.dut,
            mode: m.mode,
            product: m.product,
            wafer_lots: m.wafer_lots,
            wafer_no,
            wafer_size: m.wafer_size,
            index_x: m.index_x,
            index_y: m.index_y,
            entries,
            bins: m.bins,
        },
    )
}

/// One serialized WLBI header line: the label padded to thirteen
/// characters, a colon and a space, the value, and a newline.
pub open spec fn line13(label: Seq<char>, value: Seq<char>) -> Seq<char> {
    crate::num::pad_right(label, 13) + ": "@ + value + seq!['\n']
}

/// One serialized die line: the four integers, space-separated.
pub open spec fn die_line(d: WaferMapDie) -> Seq<char> {
    crate::num::int_str(d.x as int) + " "@ + crate::num::int_str(d.y as int) + " "@
        + d.bin.text_spec() + " "@ + crate::num::int_str(d.reserved as int)
}

/// One serialized bin-count line: the id right-aligned to two places, the
/// count right-aligned to three, and a trailing comma.
pub open spec fn bin_line(e: BinCountEntry) -> Seq<char> {
    "Bin"@ + crate::num::pad_left(crate::num::dec_str(e.bin as nat), ' ', 2) + " "@
        + crate::num::pad_left(crate::num::dec_str(e.count as nat), ' ', 3) + ","@
}

/// The nine serialized header lines of a WLBI bin map.
pub open spec fn bin_text_head(m: BinMapDataV) -> Seq<char> {
    line13("Wafer Type"@, crate::num::dec_str(m.wafer_type as nat)) + line13(
        "DUT"@,
        crate::num::dec_str(m.dut as nat),
    ) + line13("Mode"@, crate::num::dec_str(m.mode as nat)) + line13("Product"@, m.product)
        + line13("Wafer Lots"@, m.wafer_lots) + line13("Wafer No"@, m.wafer_no) + line13(
        "Wafer Size"@,
        crate::num::scaled_str(m.wafer_size as int, 3),
    ) + line13("Index X"@, crate::num::scaled_str(m.index_x as int, 3)) + line13(
        "Index Y"@,
        crate::num::scaled_str(m.index_y as int, 3),
    )
}

/// The serialized text of a WLBI bin map: the nine header lines, a blank
/// line and the `[MAP]:` marker, one line of four integers per die, two
/// blank lines, one `Bin` line per aggregated count, then a blank line and
/// the end sentinel.
pub open spec fn bin_text_spec(m: BinMapDataV) -> Seq<char> {
    bin_text_head(m) + seq!['\n'] + "[MAP]:"@ + seq!['\n'] + crate::text::join_lines(
        m.map.map_values(|d: WaferMapDie| die_line(d)),
    ) + seq!['\n', '\n'] + crate::text::join_lines(
        m.bins.map_values(|e: BinCountEntry| bin_line(e)),
    ) + seq!['\n'] + "## END ##"@ + seq!['\n']
}

/// Appends one thirteen-wide header line with a string value.
fn push_line13_str(out: &mut Vec<char>, label: &str, value: &str)
    ensures
        final(out)@ == old(out)@ + line13(label@, value@),
{
    let lbl = crate::header::pad_label(label, 13);
    crate::text::append_chars(out, &lbl);
    crate::text::append_str(out, ": ");
    crate::text::append_str(out, value);
    out.push('\n');
    proof {
        assert(out@ =~= old(out)@ + line13(label@, value@));
    }
}

/// Appends one thirteen-wide header line with an already-rendered value.
fn push_line13_chars(out: &mut Vec<char>, label: &str, value: &Vec<char>)
    ensures
        final(out)@ == old(out)@ + line13(label@, value@),
{
    let lbl = crate::header::pad_label(label, 13);
    crate::text::append_chars(out, &lbl);
    crate::text::append_str(out, ": ");
    crate::text::append_chars(out, value);
    out.push('\n');
    proof {
        assert(out@ =~= old(out)@ + line13(label@, value@));
    }
}

impl BinMapData {
    /// Re-serializes this record into the `.WaferMap` text layout.
    #[verifier::rlimit(100)]
    pub fn to_string(&self) -> (s: String)
        requires
            self.wafer_size > i64::MIN,
            self.index_x > i64::MIN,
            self.index_y > i64::MIN,
        ensures
            s@ == bin_text_spec(self@),
    {
        let mut out: Vec<char> = Vec::new();
        let wt = crate::num::fmt_u64(self.wafer_type as u64);
        push_line13_chars(&mut out, "Wafer Type", &wt);
        let d = crate::num::fmt_u64(self.dut as u64);
        push_line13_chars(&mut out, "DUT", &d);
        let m = crate::num::fmt_u64(self.mode as u64);
        push_line13_chars(&mut out, "Mode", &m);
        push_line13_str(&mut out, "Product", self.product.as_str());
        push_line13_str(&mut out, "Wafer Lots", self.wafer_lots.as_str());
        push_line13_str(&mut out, "Wafer No", self.wafer_no.as_str());
        let ws = crate::num::fmt_scaled(self.wafer_size, 3);
        push_line13_chars(&mut out, "Wafer Size", &ws);
        let ix = crate::num::fmt_scaled(self.index_x, 3);
        push_line13_chars(&mut out, "Index X", &ix);
        let iy = crate::num::fmt_scaled(self.index_y, 3);
        push_line13_chars(&mut out, "Index Y", &iy);
        proof {
            assert(out@ =~= bin_text_head(self@));
        }
        out.push('\n');
        crate::text::append_str(&mut out, "[MAP]:");
        out.push('\n');
        let ghost pre = out@;
        let ghost dls = self.map@.map_values(|die: WaferMapDie| die_line(die));
        let mut k: usize = 0;
        while k < self.map.len()
            invariant
                k <= self.map@.len(),
                dls == self.map@.map_values(|die: WaferMapDie| die_line(die)),
                out@ == pre + crate::text::join_lines(dls.subrange(0, k as int)),
            decreases self.map@.len() - k,
        {
            proof {
                assert(dls.subrange(0, k + 1 as int).drop_last() =~= dls.subrange(0, k as int));
                assert(dls.subrange(0, k + 1 as int).last() == dls[k as int]);
                assert(dls[k as int] == die_line(self.map@[k as int]));
            }
            let die = self.map[k];
            let xs = crate::num::fmt_i64(die.x as i64);
            crate::text::append_chars(&mut out, &xs);
            out.push(' ');
            let ys = crate::num::fmt_i64(die.y as i64);
            crate::text::append_chars(&mut out, &ys);
            out.push(' ');
            match die.bin {
                BinValue::Number(n) => {
                    let bs = crate::num::fmt_i64(n as i64);
                    crate::text::append_chars(&mut out, &bs);
                },
                BinValue::Special(c) => {
                    out.push(c);
                    proof {
                        assert(die.bin.text_spec() =~= seq![c]);
                    }
                },
            }
            out.push(' ');
            let rs = crate::num::fmt_i64(die.reserved as i64);
            crate::text::append_chars(&mut out, &rs);
            out.push('\n');
            proof {
                reveal_strlit(" ");
                assert(out@ =~= pre + crate::text::join_lines(dls.subrange(0, k + 1 as int)));
            }
            k = k + 1;
        }
        proof {
            assert(dls.subrange(0, k as int) =~= dls);
        }
        out.push('\n');
        out.push('\n');
        let ghost pre2 = out@;
        let ghost bls = self.bins@.map_values(|e: BinCountEntry| bin_line(e));
        let mut k2: usize = 0;
        while k2 < self.bins.len()
            invariant
                k2 <= self.bins@.len(),
                bls == self.bins@.map_values(|e: BinCountEntry| bin_line(e)),
                out@ == pre2 + crate::text::join_lines(bls.subrange(0, k2 as int)),
            decreases self.bins@.len() - k2,
        {
            proof {
                assert(bls.subrange(0, k2 + 1 as int).drop_last() =~= bls.subrange(0, k2 as int));
                assert(bls.subrange(0, k2 + 1 as int).last() == bls[k2 as int]);
                assert(bls[k2 as int] == bin_line(self.bins@[k2 as int]));
            }
            let e = self.bins[k2];
            crate::text::append_str(&mut out, "Bin");
            let ids = crate::num::fmt_u64(e.bin as u64);
            if ids.len() < 2 {
                let n = 2 - ids.len();
                crate::num::push_repeat(&mut out, ' ', n);
            }
            crate::text::append_chars(&mut out, &ids);
            out.push(' ');
            let cs = crate::num::fmt_u64(e.count as u64);
            if cs.len() < 3 {
                let n = 3 - cs.len();
                crate::num::push_repeat(&mut out, ' ', n);
            }
            crate::text::append_chars(&mut out, &cs);
            out.push(',');
            out.push('\n');
            proof {
                reveal_strlit(" ");
                reveal_strlit(",");
                assert(out@ =~= pre2 + crate::text::join_lines(bls.subrange(0, k2 + 1 as int)));
            }
            k2 = k2 + 1;
        }
        proof {
            assert(bls.subrange(0, k2 as int) =~= bls);
        }
        out.push('\n');
        crate::text::append_str(&mut out, "## END ##");
        out.push('\n');
        proof {
            assert(out@ =~= bin_text_spec(self@));
        }
        str_of(&out)
    }
}

} // verus!
