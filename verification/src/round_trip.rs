//! Round-trip stability: re-serializing a parsed model and parsing the
//! result again reproduces the raw grid and the die list. The lemmas here
//! walk the serialized text line by line through the parser's own
//! specification.

use vstd::prelude::*;
use crate::errors::ErrorV;
use crate::header::kv_spec;
use crate::header::strip_pct_spec;
use crate::num::all_plain;
use crate::num::dec_str;
use crate::num::is_digit;
use crate::num::is_plain_char;
use crate::num::lemma_dec_str_digits;
use crate::num::lemma_dec_str_plain;
use crate::num::lemma_parse_scaled_round_trip;
use crate::num::lemma_parse_u32_round_trip;
use crate::num::lemma_plain_char_props;
use crate::num::lemma_scaled_str_last_digit;
use crate::num::lemma_scaled_str_plain;
use crate::num::scaled_str;
use crate::map_ex::MapDataV;
use crate::map_ex::key18;
use crate::map_ex::line18;
use crate::map_ex::map_from_lines_spec;
use crate::map_ex::map_text_spec;
use crate::num::pad_right;
use crate::text::is_blank_spec;
use crate::text::is_ws_char;
use crate::text::join_lines;
use crate::text::lemma_split_lines_join;
use crate::text::lemma_trim_excludes;
use crate::text::lemma_trim_idempotent;
use crate::text::lemma_trim_nonws;
use crate::text::lemma_trim_space_prefix;
use crate::text::lemma_trim_strip_cr;
use crate::text::split_lines_spec;
use crate::text::strip_cr_spec;
use crate::text::trim_spec;
use crate::wafer::WaferV;
use crate::wafer::non_blank;
use crate::wafer::wafer_from_lines_spec;
use crate::wafer::wafer_text_spec;

verus! {

/// A string that does not end in a carriage return keeps all its
/// characters when trailing carriage returns are stripped.
pub proof fn lemma_strip_cr_noop(s: Seq<char>)
    requires
        s.len() == 0 || s.last() != '\r',
    ensures
        strip_cr_spec(s) == s,
{
}

/// Joining distributes over concatenation of line sequences.
pub proof fn lemma_join_concat(a: Seq<Seq<char>>, b: Seq<Seq<char>>)
    ensures
        join_lines(a + b) == join_lines(a) + join_lines(b),
    decreases b.len(),
{
    if b.len() == 0 {
        assert(a + b =~= a);
        assert(join_lines(a) + join_lines(b) =~= join_lines(a));
    } else {
        lemma_join_concat(a, b.drop_last());
        assert((a + b).drop_last() =~= a + b.drop_last());
        assert((a + b).last() == b.last());
        assert(join_lines(a) + (join_lines(b.drop_last()) + b.last() + seq!['\n']) =~= join_lines(
            a,
        ) + join_lines(b.drop_last()) + b.last() + seq!['\n']);
    }
}

/// Joining one more line appends it and a newline.
pub proof fn lemma_join_push(ls: Seq<Seq<char>>, l: Seq<char>)
    ensures
        join_lines(ls.push(l)) == join_lines(ls) + l + seq!['\n'],
{
    assert(ls.push(l).drop_last() =~= ls);
    assert(ls.push(l).last() == l);
}

/// A line written as `key: value` reads back as the trimmed value under
/// that key.
pub proof fn lemma_kv_reparse(lines: Seq<Seq<char>>, pos: int, key: Seq<char>, value: Seq<char>)
    requires
        0 <= pos < lines.len(),
        lines[pos] == key + seq![':', ' '] + value,
    ensures
        kv_spec(lines, pos, key) == Ok::<Seq<char>, ErrorV>(trim_spec(value)),
{
    let line = lines[pos];
    assert(line.subrange(0, key.len() as int + 1) =~= key + seq![':']);
    assert(line.subrange(key.len() as int + 1, line.len() as int) =~= seq![' '] + value);
    lemma_trim_space_prefix(value);
}

/// Filtering blank lines distributes over concatenation.
pub proof fn lemma_non_blank_concat(a: Seq<Seq<char>>, b: Seq<Seq<char>>)
    ensures
        non_blank(a + b) == non_blank(a) + non_blank(b),
    decreases b.len(),
{
    if b.len() == 0 {
        assert(a + b =~= a);
        assert(non_blank(a) + non_blank(b) =~= non_blank(a));
    } else {
        lemma_non_blank_concat(a, b.drop_last());
        assert((a + b).drop_last() =~= a + b.drop_last());
        assert((a + b).last() == b.last());
        if !is_blank_spec(b.last()) {
            assert(non_blank(a) + non_blank(b.drop_last()).push(b.last()) =~= (non_blank(a)
                + non_blank(b.drop_last())).push(b.last()));
        }
    }
}

/// A sequence of non-blank lines passes through the blank filter intact.
pub proof fn lemma_non_blank_id(ls: Seq<Seq<char>>)
    requires
        forall|k: int| 0 <= k < ls.len() ==> !is_blank_spec(#[trigger] ls[k]),
    ensures
        non_blank(ls) == ls,
    decreases ls.len(),
{
    if ls.len() > 0 {
        assert(forall|k: int|
            0 <= k < ls.len() - 1 ==> #[trigger] ls.drop_last()[k] == ls[k]);
        lemma_non_blank_id(ls.drop_last());
        assert(!is_blank_spec(ls.last())) by {
            assert(ls[ls.len() - 1] == ls.last());
        }
        assert(non_blank(ls) =~= ls);
    }
}

/// A whitespace-free nonempty text trims to itself and survives the
/// carriage-return strip.
proof fn lemma_plain_text_facts(s: Seq<char>)
    requires
        all_plain(s),
        s.len() > 0,
    ensures
        trim_spec(s) == s,
        strip_cr_spec(s) == s,
        forall|j: int| 0 <= j < s.len() ==> #[trigger] s[j] != '\n',
{
    assert forall|j: int| 0 <= j < s.len() implies #[trigger] s[j] != '\n'
        && !is_ws_char(s[j]) by {
        lemma_plain_char_props(s[j]);
    }
    lemma_trim_nonws(s);
    lemma_strip_cr_noop(s);
}

/// A trimmed field of a newline-free line: it trims to itself, holds no
/// newline, and survives the carriage-return strip.
proof fn lemma_field_facts(src: Seq<char>)
    requires
        forall|j: int| 0 <= j < src.len() ==> #[trigger] src[j] != '\n',
    ensures
        trim_spec(trim_spec(src)) == trim_spec(src),
        strip_cr_spec(trim_spec(src)) == trim_spec(src),
        forall|j: int| 0 <= j < trim_spec(src).len() ==> #[trigger] trim_spec(src)[j] != '\n',
{
    lemma_trim_idempotent(src);
    lemma_trim_strip_cr(src);
    lemma_trim_excludes(src, '\n');
}

/// A serialized header line `prefix + value` holds no newline and does not
/// end with a carriage return, provided the value doesn't and the prefix's
/// characters are plain text ending in a space.
proof fn lemma_header_line_wf(prefix: Seq<char>, value: Seq<char>)
    requires
        forall|j: int| 0 <= j < prefix.len() ==> #[trigger] prefix[j] != '\n',
        prefix.len() > 0,
        prefix.last() != '\r',
        forall|j: int| 0 <= j < value.len() ==> #[trigger] value[j] != '\n',
        strip_cr_spec(value) == value,
    ensures
        forall|j: int|
            0 <= j < (prefix + value).len() ==> #[trigger] (prefix + value)[j] != '\n',
        strip_cr_spec(prefix + value) == prefix + value,
{
    let l = prefix + value;
    assert forall|j: int| 0 <= j < l.len() implies #[trigger] l[j] != '\n' by {
        if j < prefix.len() {
            assert(l[j] == prefix[j]);
        } else {
            assert(l[j] == value[j - prefix.len()]);
        }
    }
    if value.len() == 0 {
        assert(l.last() == prefix.last());
    } else {
        assert(l.last() == value.last());
        if value.last() == '\r' {
            assert(strip_cr_spec(value) == strip_cr_spec(value.drop_last()));
            crate::text::lemma_strip_cr_len(value.drop_last());
            assert(false);
        }
    }
    lemma_strip_cr_noop(l);
}

/// One line is clean when it holds no newline and no trailing carriage
/// return; a field moreover trims to itself.
pub open spec fn line_ok(s: Seq<char>) -> bool {
    &&& forall|j: int| 0 <= j < s.len() ==> #[trigger] s[j] != '\n'
    &&& strip_cr_spec(s) == s
}

pub open spec fn field_ok(s: Seq<char>) -> bool {
    &&& line_ok(s)
    &&& trim_spec(s) == s
}

/// The line sequence a wafer record serializes to.
pub open spec fn wafer_out_lines(w: WaferV) -> Seq<Seq<char>> {
    seq![
        "Operator: "@ + w.operator,
        "Device: "@ + w.device,
        "Lot ID: "@ + w.lot_id,
        "Wafer ID: "@ + w.wafer_id,
        "Meas Time: "@ + w.meas_time,
        "Gross Die: "@ + dec_str(w.gross_die as nat),
        "Pass Die: "@ + dec_str(w.pass_die as nat),
        "Fail Die: "@ + dec_str(w.fail_die as nat),
        "Total Yield: "@ + scaled_str(w.total_yield as int, 2) + seq!['%'],
        "notch-"@ + w.notch,
        Seq::<char>::empty(),
    ] + w.map.raw
}

/// The fields of a parsed wafer record are clean: trimmed slices of
/// newline-free input lines, and non-blank raw grid lines.
proof fn lemma_wafer_fields_ok(lines: Seq<Seq<char>>, w: WaferV)
    requires
        wafer_from_lines_spec(lines) == Ok::<WaferV, ErrorV>(w),
        forall|k: int, j: int|
            0 <= k < lines.len() && 0 <= j < lines[k].len() ==> #[trigger] lines[k][j] != '\n',
        forall|k: int| 0 <= k < lines.len() ==> strip_cr_spec(#[trigger] lines[k]) == lines[k],
    ensures
        field_ok(w.operator),
        field_ok(w.device),
        field_ok(w.lot_id),
        field_ok(w.wafer_id),
        field_ok(w.meas_time),
        field_ok(w.notch),
        forall|k: int| 0 <= k < w.map.raw.len() ==> line_ok(#[trigger] w.map.raw[k]),
        forall|k: int| 0 <= k < w.map.raw.len() ==> !is_blank_spec(#[trigger] w.map.raw[k]),
        w.map.raw.len() > 0,
{
    let srcs: Seq<Seq<char>> = seq![
        lines[0].subrange("Operator"@.len() as int + 1, lines[0].len() as int),
        lines[1].subrange("Device"@.len() as int + 1, lines[1].len() as int),
        lines[2].subrange("Lot ID"@.len() as int + 1, lines[2].len() as int),
        lines[3].subrange("Wafer ID"@.len() as int + 1, lines[3].len() as int),
        lines[4].subrange("Meas Time"@.len() as int + 1, lines[4].len() as int),
        lines[9],
    ];
    assert forall|t: int| 0 <= t < srcs.len() implies field_ok(trim_spec(#[trigger] srcs[t])) by {
        let k: int = if t == 5 {
            9
        } else {
            t
        };
        assert(forall|j: int| 0 <= j < srcs[t].len() ==> #[trigger] srcs[t][j] != '\n') by {
            if t < 5 {
                assert(forall|j: int|
                    0 <= j < srcs[t].len() ==> srcs[t][j] == #[trigger] lines[k][j + lines[k].len()
                        - srcs[t].len()]);
            }
        }
        lemma_field_facts(srcs[t]);
    }
    assert(w.operator == trim_spec(srcs[0]));
    assert(w.device == trim_spec(srcs[1]));
    assert(w.lot_id == trim_spec(srcs[2]));
    assert(w.wafer_id == trim_spec(srcs[3]));
    assert(w.meas_time == trim_spec(srcs[4]));
    assert(w.notch == trim_spec(srcs[5]));
    let rest = lines.subrange(10, lines.len() as int);
    crate::wafer::lemma_non_blank_elems(rest);
    crate::wafer::lemma_non_blank_kept(rest);
    assert forall|k: int| 0 <= k < w.map.raw.len() implies line_ok(#[trigger] w.map.raw[k]) by {
        let j0 = choose|j: int| 0 <= j < rest.len() && w.map.raw[k] == rest[j];
        assert(rest[j0] == lines[10 + j0]);
    }
}

/// The serialized wafer text is its line sequence, joined.
#[verifier::rlimit(100)]
proof fn lemma_wafer_text_is_joined(w: WaferV)
    ensures
        wafer_text_spec(w) == join_lines(wafer_out_lines(w)),
{
    let l0 = "Operator: "@ + w.operator;
    let l1 = "Device: "@ + w.device;
    let l2 = "Lot ID: "@ + w.lot_id;
    let l3 = "Wafer ID: "@ + w.wafer_id;
    let l4 = "Meas Time: "@ + w.meas_time;
    let l5 = "Gross Die: "@ + dec_str(w.gross_die as nat);
    let l6 = "Pass Die: "@ + dec_str(w.pass_die as nat);
    let l7 = "Fail Die: "@ + dec_str(w.fail_die as nat);
    let l8 = "Total Yield: "@ + scaled_str(w.total_yield as int, 2) + seq!['%'];
    let l9 = "notch-"@ + w.notch;
    let l10 = Seq::<char>::empty();
    let hdr = seq![l0, l1, l2, l3, l4, l5, l6, l7, l8, l9, l10];
    lemma_join_concat(hdr, w.map.raw);
    assert(hdr =~= seq![l0, l1, l2, l3, l4, l5, l6, l7, l8, l9].push(l10));
    lemma_join_push(seq![l0, l1, l2, l3, l4, l5, l6, l7, l8, l9], l10);
    assert(seq![l0, l1, l2, l3, l4, l5, l6, l7, l8, l9] =~= seq![
        l0, l1, l2, l3, l4, l5, l6, l7, l8,
    ].push(l9));
    lemma_join_push(seq![l0, l1, l2, l3, l4, l5, l6, l7, l8], l9);
    assert(seq![l0, l1, l2, l3, l4, l5, l6, l7, l8] =~= seq![
        l0, l1, l2, l3, l4, l5, l6, l7,
    ].push(l8));
    lemma_join_push(seq![l0, l1, l2, l3, l4, l5, l6, l7], l8);
    assert(seq![l0, l1, l2, l3, l4, l5, l6, l7] =~= seq![l0, l1, l2, l3, l4, l5, l6].push(l7));
    lemma_join_push(seq![l0, l1, l2, l3, l4, l5, l6], l7);
    assert(seq![l0, l1, l2, l3, l4, l5, l6] =~= seq![l0, l1, l2, l3, l4, l5].push(l6));
    lemma_join_push(seq![l0, l1, l2, l3, l4, l5], l6);
    assert(seq![l0, l1, l2, l3, l4, l5] =~= seq![l0, l1, l2, l3, l4].push(l5));
    lemma_join_push(seq![l0, l1, l2, l3, l4], l5);
    assert(seq![l0, l1, l2, l3, l4] =~= seq![l0, l1, l2, l3].push(l4));
    lemma_join_push(seq![l0, l1, l2, l3], l4);
    assert(seq![l0, l1, l2, l3] =~= seq![l0, l1, l2].push(l3));
    lemma_join_push(seq![l0, l1, l2], l3);
    assert(seq![l0, l1, l2] =~= seq![l0, l1].push(l2));
    lemma_join_push(seq![l0, l1], l2);
    assert(seq![l0, l1] =~= seq![l0].push(l1));
    lemma_join_push(seq![l0], l1);
    assert(seq![l0] =~= Seq::<Seq<char>>::empty().push(l0));
    lemma_join_push(Seq::<Seq<char>>::empty(), l0);
    assert(join_lines(Seq::<Seq<char>>::empty()) == Seq::<char>::empty());
    assert(wafer_text_spec(w) =~= join_lines(hdr) + join_lines(w.map.raw));
}

/// Splitting the serialized wafer text recovers its line sequence.
proof fn lemma_wafer_text_splits(w: WaferV)
    requires
        field_ok(w.operator),
        field_ok(w.device),
        field_ok(w.lot_id),
        field_ok(w.wafer_id),
        field_ok(w.meas_time),
        field_ok(w.notch),
        forall|k: int| 0 <= k < w.map.raw.len() ==> line_ok(#[trigger] w.map.raw[k]),
    ensures
        split_lines_spec(wafer_text_spec(w)) == wafer_out_lines(w),
{
    lemma_wafer_text_is_joined(w);
    let ols = wafer_out_lines(w);
    lemma_dec_str_plain(w.gross_die as nat);
    lemma_dec_str_plain(w.pass_die as nat);
    lemma_dec_str_plain(w.fail_die as nat);
    lemma_dec_str_digits(w.gross_die as nat);
    lemma_dec_str_digits(w.pass_die as nat);
    lemma_dec_str_digits(w.fail_die as nat);
    lemma_plain_text_facts(dec_str(w.gross_die as nat));
    lemma_plain_text_facts(dec_str(w.pass_die as nat));
    lemma_plain_text_facts(dec_str(w.fail_die as nat));
    let ys = scaled_str(w.total_yield as int, 2);
    let yv = ys + seq!['%'];
    lemma_scaled_str_plain(w.total_yield as int, 2);
    lemma_scaled_str_last_digit(w.total_yield as int, 2);
    lemma_plain_text_facts(ys);
    assert(forall|j: int| 0 <= j < yv.len() ==> #[trigger] yv[j] != '\n') by {
        assert(forall|j: int| 0 <= j < ys.len() ==> yv[j] == #[trigger] ys[j]);
        assert(yv[yv.len() - 1] == '%');
    }
    assert(strip_cr_spec(yv) == yv) by {
        assert(yv.last() == '%');
        lemma_strip_cr_noop(yv);
    }
    reveal_strlit("Operator: ");
    reveal_strlit("Device: ");
    reveal_strlit("Lot ID: ");
    reveal_strlit("Wafer ID: ");
    reveal_strlit("Meas Time: ");
    reveal_strlit("Gross Die: ");
    reveal_strlit("Pass Die: ");
    reveal_strlit("Fail Die: ");
    reveal_strlit("Total Yield: ");
    reveal_strlit("notch-");
    lemma_header_line_wf("Operator: "@, w.operator);
    lemma_header_line_wf("Device: "@, w.device);
    lemma_header_line_wf("Lot ID: "@, w.lot_id);
    lemma_header_line_wf("Wafer ID: "@, w.wafer_id);
    lemma_header_line_wf("Meas Time: "@, w.meas_time);
    lemma_header_line_wf("Gross Die: "@, dec_str(w.gross_die as nat));
    lemma_header_line_wf("Pass Die: "@, dec_str(w.pass_die as nat));
    lemma_header_line_wf("Total Yield: "@, yv);
    lemma_header_line_wf("Fail Die: "@, dec_str(w.fail_die as nat));
    lemma_header_line_wf("notch-"@, w.notch);
    assert(("Total Yield: "@ + scaled_str(w.total_yield as int, 2) + seq!['%']) =~= "Total Yield: "@
        + yv);
    let hdrlen: int = 11;
    assert forall|k: int, j: int|
        0 <= k < ols.len() && 0 <= j < ols[k].len() implies #[trigger] ols[k][j] != '\n' by {
        if k >= hdrlen {
            assert(ols[k] == w.map.raw[k - hdrlen]);
        }
    }
    assert forall|k: int| 0 <= k < ols.len() implies strip_cr_spec(#[trigger] ols[k])
        == ols[k] by {
        if k >= hdrlen {
            assert(ols[k] == w.map.raw[k - hdrlen]);
        }
    }
    lemma_split_lines_join(ols);
}

/// Round-trip stability for the ASCII prober map: re-serializing a parsed
/// wafer record and parsing the text again succeeds and reproduces the raw
/// grid verbatim and the die list exactly.
#[verifier::rlimit(100)]
pub proof fn lemma_wafer_round_trip(lines: Seq<Seq<char>>, w: WaferV)
    requires
        wafer_from_lines_spec(lines) == Ok::<WaferV, ErrorV>(w),
        forall|k: int, j: int|
            0 <= k < lines.len() && 0 <= j < lines[k].len() ==> #[trigger] lines[k][j] != '\n',
        forall|k: int| 0 <= k < lines.len() ==> strip_cr_spec(#[trigger] lines[k]) == lines[k],
    ensures
        ({
            let p = wafer_from_lines_spec(split_lines_spec(wafer_text_spec(w)));
            &&& p is Ok
            &&& p->Ok_0.map.raw == w.map.raw
            &&& p->Ok_0.map.dies == w.map.dies
        }),
{
    lemma_wafer_fields_ok(lines, w);
    lemma_wafer_text_splits(w);
    let relines = split_lines_spec(wafer_text_spec(w));
    let ols = wafer_out_lines(w);
    assert(relines == ols);
    // The header reads back field for field.
    reveal_strlit("Operator: ");
    reveal_strlit("Operator");
    reveal_strlit("Device: ");
    reveal_strlit("Device");
    reveal_strlit("Lot ID: ");
    reveal_strlit("Lot ID");
    reveal_strlit("Wafer ID: ");
    reveal_strlit("Wafer ID");
    reveal_strlit("Meas Time: ");
    reveal_strlit("Meas Time");
    reveal_strlit("Gross Die: ");
    reveal_strlit("Gross Die");
    reveal_strlit("Pass Die: ");
    reveal_strlit("Pass Die");
    reveal_strlit("Fail Die: ");
    reveal_strlit("Fail Die");
    reveal_strlit("Total Yield: ");
    reveal_strlit("Total Yield");
    let ys = scaled_str(w.total_yield as int, 2);
    let yv = ys + seq!['%'];
    assert(ols[0] =~= "Operator"@ + seq![':', ' '] + w.operator);
    lemma_kv_reparse(relines, 0, "Operator"@, w.operator);
    assert(ols[1] =~= "Device"@ + seq![':', ' '] + w.device);
    lemma_kv_reparse(relines, 1, "Device"@, w.device);
    assert(ols[2] =~= "Lot ID"@ + seq![':', ' '] + w.lot_id);
    lemma_kv_reparse(relines, 2, "Lot ID"@, w.lot_id);
    assert(ols[3] =~= "Wafer ID"@ + seq![':', ' '] + w.wafer_id);
    lemma_kv_reparse(relines, 3, "Wafer ID"@, w.wafer_id);
    assert(ols[4] =~= "Meas Time"@ + seq![':', ' '] + w.meas_time);
    lemma_kv_reparse(relines, 4, "Meas Time"@, w.meas_time);
    assert(ols[5] =~= "Gross Die"@ + seq![':', ' '] + dec_str(w.gross_die as nat));
    lemma_kv_reparse(relines, 5, "Gross Die"@, dec_str(w.gross_die as nat));
    assert(ols[6] =~= "Pass Die"@ + seq![':', ' '] + dec_str(w.pass_die as nat));
    lemma_kv_reparse(relines, 6, "Pass Die"@, dec_str(w.pass_die as nat));
    assert(ols[7] =~= "Fail Die"@ + seq![':', ' '] + dec_str(w.fail_die as nat));
    lemma_kv_reparse(relines, 7, "Fail Die"@, dec_str(w.fail_die as nat));
    assert(ols[8] =~= "Total Yield"@ + seq![':', ' '] + yv);
    lemma_kv_reparse(relines, 8, "Total Yield"@, yv);
    // The numeric values read back exactly.
    lemma_dec_str_plain(w.gross_die as nat);
    lemma_dec_str_plain(w.pass_die as nat);
    lemma_dec_str_plain(w.fail_die as nat);
    lemma_dec_str_digits(w.gross_die as nat);
    lemma_dec_str_digits(w.pass_die as nat);
    lemma_dec_str_digits(w.fail_die as nat);
    lemma_plain_text_facts(dec_str(w.gross_die as nat));
    lemma_plain_text_facts(dec_str(w.pass_die as nat));
    lemma_plain_text_facts(dec_str(w.fail_die as nat));
    lemma_parse_u32_round_trip(w.gross_die);
    lemma_parse_u32_round_trip(w.pass_die);
    lemma_parse_u32_round_trip(w.fail_die);
    lemma_scaled_str_plain(w.total_yield as int, 2);
    lemma_scaled_str_last_digit(w.total_yield as int, 2);
    lemma_plain_text_facts(ys);
    assert(trim_spec(yv) == yv) by {
        assert(yv[0] == ys[0]);
        assert(is_plain_char(ys[0]));
        lemma_plain_char_props(ys[0]);
        assert(!is_ws_char(yv[0]));
        assert(yv.last() == '%');
        lemma_trim_nonws(yv);
    }
    assert(strip_pct_spec(yv) == strip_pct_spec(ys)) by {
        assert(yv.len() > 0 && yv.last() == '%');
        assert(yv.drop_last() =~= ys);
    }
    assert(strip_pct_spec(ys) == ys) by {
        if ys.len() > 0 && ys.last() == '%' {
            assert(is_digit(ys.last()));
            crate::text::lemma_char_eq_cp(ys.last(), '%');
            assert(false);
        }
    }
    lemma_parse_scaled_round_trip(w.total_yield, 2);
    // The grid reads back verbatim.
    let retail = relines.subrange(10, relines.len() as int);
    assert(retail =~= seq![Seq::<char>::empty()] + w.map.raw);
    lemma_non_blank_concat(seq![Seq::<char>::empty()], w.map.raw);
    assert(non_blank(Seq::<Seq<char>>::empty()) =~= Seq::<Seq<char>>::empty());
    assert(non_blank(seq![Seq::<char>::empty()]) =~= Seq::<Seq<char>>::empty()) by {
        assert(seq![Seq::<char>::empty()].drop_last() =~= Seq::<Seq<char>>::empty());
        assert(seq![Seq::<char>::empty()].last() =~= Seq::<char>::empty());
        assert(is_blank_spec(Seq::<char>::empty()));
    }
    lemma_non_blank_id(w.map.raw);
    assert(non_blank(retail) =~= w.map.raw);
}


/// A padded header label followed by `: ` is a clean line prefix ending in
/// a space.
proof fn lemma_key18_prefix(label: Seq<char>)
    requires
        forall|j: int| 0 <= j < label.len() ==> #[trigger] label[j] != '\n',
    ensures
        ({
            let prefix = key18(label) + seq![':', ' '];
            &&& forall|j: int| 0 <= j < prefix.len() ==> #[trigger] prefix[j] != '\n'
            &&& prefix.len() > 0
            &&& prefix.last() != '\r'
        }),
{
    let k = key18(label);
    let prefix = k + seq![':', ' '];
    assert forall|j: int| 0 <= j < prefix.len() implies #[trigger] prefix[j] != '\n' by {
        if j < k.len() {
            assert(prefix[j] == k[j]);
            if j < label.len() {
                assert(k[j] == label[j]);
            } else {
                assert(k[j] == ' ');
            }
        }
    }
    assert(prefix.last() == ' ');
}

/// The line sequence an extended map serializes to.
pub open spec fn map_out_lines(m: MapDataV) -> Seq<Seq<char>> {
    seq![
        key18("Device Name"@) + seq![':', ' '] + m.device_name,
        key18("Lot No."@) + seq![':', ' '] + m.lot_no,
        key18("Wafer ID"@) + seq![':', ' '] + m.wafer_id,
        key18("Wafer Size"@) + seq![':', ' '] + m.wafer_size,
        key18("Dice SizeX"@) + seq![':', ' '] + scaled_str(m.dice_size_x as int, 3),
        key18("Dice SizeY"@) + seq![':', ' '] + scaled_str(m.dice_size_y as int, 3),
        key18("Flat/Notch"@) + seq![':', ' '] + m.flat_notch,
        key18("Map Column"@) + seq![':', ' '] + dec_str(m.map_columns as nat),
        key18("Map Row"@) + seq![':', ' '] + dec_str(m.map_rows as nat),
        key18("Total Tested"@) + seq![':', ' '] + dec_str(m.total_tested as nat),
        key18("Total Pass"@) + seq![':', ' '] + dec_str(m.total_pass as nat),
        key18("Total Fail"@) + seq![':', ' '] + dec_str(m.total_fail as nat),
        key18("Yield"@) + seq![':', ' '] + (scaled_str(m.yield_percent as int, 2) + seq!['%']),
        Seq::<char>::empty(),
    ] + m.map.raw
}

/// The first seven serialized lines, joined, are the head text.
#[verifier::rlimit(100)]
proof fn lemma_map_head_joined(m: MapDataV)
    ensures
        join_lines(map_out_lines(m).subrange(0, 7)) == crate::map_ex::map_text_head(m),
{
    reveal_strlit(": ");
    assert(": "@ =~= seq![':', ' ']);
    let ls = map_out_lines(m);
    assert forall|t: int| 0 <= t < 7 implies join_lines(ls.subrange(0, t + 1)) == join_lines(
        ls.subrange(0, t),
    ) + ls[t] + seq!['\n'] by {
        assert(ls.subrange(0, t + 1).drop_last() =~= ls.subrange(0, t));
        assert(ls.subrange(0, t + 1).last() == ls[t]);
    }
    assert(join_lines(ls.subrange(0, 0)) == Seq::<char>::empty()) by {
        assert(ls.subrange(0, 0) =~= Seq::<Seq<char>>::empty());
    }
    assert(join_lines(ls.subrange(0, 7)) =~= crate::map_ex::map_text_head(m));
}

/// The next seven serialized lines (counts, yield, and the blank
/// separator), joined, are the counts text.
#[verifier::rlimit(100)]
proof fn lemma_map_counts_joined(m: MapDataV)
    ensures
        join_lines(map_out_lines(m).subrange(7, 14)) == crate::map_ex::map_text_counts(m),
{
    reveal_strlit(": ");
    assert(": "@ =~= seq![':', ' ']);
    let ls = map_out_lines(m);
    let cs = ls.subrange(7, 14);
    assert forall|t: int| 0 <= t < 7 implies join_lines(cs.subrange(0, t + 1)) == join_lines(
        cs.subrange(0, t),
    ) + cs[t] + seq!['\n'] by {
        assert(cs.subrange(0, t + 1).drop_last() =~= cs.subrange(0, t));
        assert(cs.subrange(0, t + 1).last() == cs[t]);
    }
    assert(join_lines(cs.subrange(0, 0)) == Seq::<char>::empty()) by {
        assert(cs.subrange(0, 0) =~= Seq::<Seq<char>>::empty());
    }
    assert(cs.subrange(0, 7) =~= cs);
    assert(join_lines(cs) =~= crate::map_ex::map_text_counts(m));
}

/// The serialized extended-map text is its line sequence, joined.
proof fn lemma_map_text_is_joined(m: MapDataV)
    ensures
        map_text_spec(m) == join_lines(map_out_lines(m)),
{
    let ls = map_out_lines(m);
    let hdr = ls.subrange(0, 14);
    assert(hdr + m.map.raw =~= ls);
    lemma_join_concat(hdr, m.map.raw);
    assert(ls.subrange(0, 7) + ls.subrange(7, 14) =~= hdr);
    lemma_join_concat(ls.subrange(0, 7), ls.subrange(7, 14));
    assert(join_lines(ls.subrange(0, 7) + ls.subrange(7, 14)) == join_lines(hdr));
    lemma_map_head_joined(m);
    lemma_map_counts_joined(m);
}

/// The fields of a parsed extended map are clean.
proof fn lemma_map_fields_ok(lines: Seq<Seq<char>>, m: MapDataV)
    requires
        map_from_lines_spec(lines) == Ok::<MapDataV, ErrorV>(m),
        forall|k: int, j: int|
            0 <= k < lines.len() && 0 <= j < lines[k].len() ==> #[trigger] lines[k][j] != '\n',
        forall|k: int| 0 <= k < lines.len() ==> strip_cr_spec(#[trigger] lines[k]) == lines[k],
    ensures
        field_ok(m.device_name),
        field_ok(m.lot_no),
        field_ok(m.wafer_id),
        field_ok(m.wafer_size),
        field_ok(m.flat_notch),
        forall|k: int| 0 <= k < m.map.raw.len() ==> line_ok(#[trigger] m.map.raw[k]),
        forall|k: int| 0 <= k < m.map.raw.len() ==> !is_blank_spec(#[trigger] m.map.raw[k]),
        m.map.raw.len() > 0,
{
    let srcs: Seq<Seq<char>> = seq![
        lines[0].subrange(key18("Device Name"@).len() as int + 1, lines[0].len() as int),
        lines[1].subrange(key18("Lot No."@).len() as int + 1, lines[1].len() as int),
        lines[2].subrange(key18("Wafer ID"@).len() as int + 1, lines[2].len() as int),
        lines[3].subrange(key18("Wafer Size"@).len() as int + 1, lines[3].len() as int),
        lines[6].subrange(key18("Flat/Notch"@).len() as int + 1, lines[6].len() as int),
    ];
    assert forall|t: int| 0 <= t < srcs.len() implies field_ok(trim_spec(#[trigger] srcs[t])) by {
        let k: int = if t == 4 {
            6
        } else {
            t
        };
        assert(forall|j: int| 0 <= j < srcs[t].len() ==> #[trigger] srcs[t][j] != '\n') by {
            assert(forall|j: int|
                0 <= j < srcs[t].len() ==> srcs[t][j] == #[trigger] lines[k][j + lines[k].len()
                    - srcs[t].len()]);
        }
        lemma_field_facts(srcs[t]);
    }
    assert(m.device_name == trim_spec(srcs[0]));
    assert(m.lot_no == trim_spec(srcs[1]));
    assert(m.wafer_id == trim_spec(srcs[2]));
    assert(m.wafer_size == trim_spec(srcs[3]));
    assert(m.flat_notch == trim_spec(srcs[4]));
    let rest = lines.subrange(13, lines.len() as int);
    crate::wafer::lemma_non_blank_elems(rest);
    crate::wafer::lemma_non_blank_kept(rest);
    assert forall|k: int| 0 <= k < m.map.raw.len() implies line_ok(#[trigger] m.map.raw[k]) by {
        let j0 = choose|j: int| 0 <= j < rest.len() && m.map.raw[k] == rest[j];
        assert(rest[j0] == lines[13 + j0]);
    }
}

/// A formatted fixed-point value followed by nothing, or by a percent
/// sign, is clean and trimmed.
proof fn lemma_scaled_value_ok(v: int, scale: nat)
    requires
        1 <= scale <= 9,
    ensures
        field_ok(scaled_str(v, scale)),
        field_ok(scaled_str(v, scale) + seq!['%']),
        strip_pct_spec(scaled_str(v, scale) + seq!['%']) == scaled_str(v, scale),
        strip_pct_spec(scaled_str(v, scale)) == scaled_str(v, scale),
{
    let ys = scaled_str(v, scale);
    let yv = ys + seq!['%'];
    lemma_scaled_str_plain(v, scale);
    lemma_scaled_str_last_digit(v, scale);
    lemma_plain_text_facts(ys);
    assert(forall|j: int| 0 <= j < yv.len() ==> #[trigger] yv[j] != '\n') by {
        assert(forall|j: int| 0 <= j < ys.len() ==> yv[j] == #[trigger] ys[j]);
        assert(yv[yv.len() - 1] == '%');
    }
    assert(strip_cr_spec(yv) == yv) by {
        assert(yv.last() == '%');
        lemma_strip_cr_noop(yv);
    }
    assert(trim_spec(yv) == yv) by {
        assert(yv[0] == ys[0]);
        assert(is_plain_char(ys[0]));
        lemma_plain_char_props(ys[0]);
        assert(!is_ws_char(yv[0]));
        assert(yv.last() == '%');
        lemma_trim_nonws(yv);
    }
    assert(strip_pct_spec(yv) == strip_pct_spec(ys)) by {
        assert(yv.len() > 0 && yv.last() == '%');
        assert(yv.drop_last() =~= ys);
    }
    assert(strip_pct_spec(ys) == ys) by {
        if ys.len() > 0 && ys.last() == '%' {
            assert(is_digit(ys.last()));
            crate::text::lemma_char_eq_cp(ys.last(), '%');
            assert(false);
        }
    }
}

/// A formatted unsigned decimal is clean and trimmed.
proof fn lemma_dec_value_ok(n: nat)
    ensures
        field_ok(dec_str(n)),
{
    lemma_dec_str_plain(n);
    lemma_dec_str_digits(n);
    lemma_plain_text_facts(dec_str(n));
}

/// Splitting the serialized extended-map text recovers its line sequence.
#[verifier::rlimit(100)]
proof fn lemma_map_text_splits(m: MapDataV)
    requires
        field_ok(m.device_name),
        field_ok(m.lot_no),
        field_ok(m.wafer_id),
        field_ok(m.wafer_size),
        field_ok(m.flat_notch),
        forall|k: int| 0 <= k < m.map.raw.len() ==> line_ok(#[trigger] m.map.raw[k]),
    ensures
        split_lines_spec(map_text_spec(m)) == map_out_lines(m),
{
    lemma_map_text_is_joined(m);
    let ols = map_out_lines(m);
    reveal_strlit("Device Name");
    reveal_strlit("Lot No.");
    reveal_strlit("Wafer ID");
    reveal_strlit("Wafer Size");
    reveal_strlit("Dice SizeX");
    reveal_strlit("Dice SizeY");
    reveal_strlit("Flat/Notch");
    reveal_strlit("Map Column");
    reveal_strlit("Map Row");
    reveal_strlit("Total Tested");
    reveal_strlit("Total Pass");
    reveal_strlit("Total Fail");
    reveal_strlit("Yield");
    lemma_key18_prefix("Device Name"@);
    lemma_key18_prefix("Lot No."@);
    lemma_key18_prefix("Wafer ID"@);
    lemma_key18_prefix("Wafer Size"@);
    lemma_key18_prefix("Dice SizeX"@);
    lemma_key18_prefix("Dice SizeY"@);
    lemma_key18_prefix("Flat/Notch"@);
    lemma_key18_prefix("Map Column"@);
    lemma_key18_prefix("Map Row"@);
    lemma_key18_prefix("Total Tested"@);
    lemma_key18_prefix("Total Pass"@);
    lemma_key18_prefix("Total Fail"@);
    lemma_key18_prefix("Yield"@);
    lemma_scaled_value_ok(m.dice_size_x as int, 3);
    lemma_scaled_value_ok(m.dice_size_y as int, 3);
    lemma_scaled_value_ok(m.yield_percent as int, 2);
    lemma_dec_value_ok(m.map_columns as nat);
    lemma_dec_value_ok(m.map_rows as nat);
    lemma_dec_value_ok(m.total_tested as nat);
    lemma_dec_value_ok(m.total_pass as nat);
    lemma_dec_value_ok(m.total_fail as nat);
    lemma_header_line_wf(key18("Device Name"@) + seq![':', ' '], m.device_name);
    lemma_header_line_wf(key18("Lot No."@) + seq![':', ' '], m.lot_no);
    lemma_header_line_wf(key18("Wafer ID"@) + seq![':', ' '], m.wafer_id);
    lemma_header_line_wf(key18("Wafer Size"@) + seq![':', ' '], m.wafer_size);
    lemma_header_line_wf(
        key18("Dice SizeX"@) + seq![':', ' '],
        scaled_str(m.dice_size_x as int, 3),
    );
    lemma_header_line_wf(
        key18("Dice SizeY"@) + seq![':', ' '],
        scaled_str(m.dice_size_y as int, 3),
    );
    lemma_header_line_wf(key18("Flat/Notch"@) + seq![':', ' '], m.flat_notch);
    lemma_header_line_wf(key18("Map Column"@) + seq![':', ' '], dec_str(m.map_columns as nat));
    lemma_header_line_wf(key18("Map Row"@) + seq![':', ' '], dec_str(m.map_rows as nat));
    lemma_header_line_wf(
        key18("Total Tested"@) + seq![':', ' '],
        dec_str(m.total_tested as nat),
    );
    lemma_header_line_wf(key18("Total Pass"@) + seq![':', ' '], dec_str(m.total_pass as nat));
    lemma_header_line_wf(key18("Total Fail"@) + seq![':', ' '], dec_str(m.total_fail as nat));
    lemma_header_line_wf(
        key18("Yield"@) + seq![':', ' '],
        scaled_str(m.yield_percent as int, 2) + seq!['%'],
    );
    let hdrlen: int = 14;
    assert forall|k: int, j: int|
        0 <= k < ols.len() && 0 <= j < ols[k].len() implies #[trigger] ols[k][j] != '\n' by {
        if k >= hdrlen {
            assert(ols[k] == m.map.raw[k - hdrlen]);
        }
    }
    assert forall|k: int| 0 <= k < ols.len() implies strip_cr_spec(#[trigger] ols[k])
        == ols[k] by {
        if k >= hdrlen {
            assert(ols[k] == m.map.raw[k - hdrlen]);
        }
    }
    lemma_split_lines_join(ols);
}

/// Round-trip stability for the extended map: re-serializing a parsed
/// record and parsing the text again succeeds and reproduces the raw grid
/// verbatim and the die list exactly.
#[verifier::rlimit(100)]
pub proof fn lemma_map_round_trip(lines: Seq<Seq<char>>, m: MapDataV)
    requires
        map_from_lines_spec(lines) == Ok::<MapDataV, ErrorV>(m),
        forall|k: int, j: int|
            0 <= k < lines.len() && 0 <= j < lines[k].len() ==> #[trigger] lines[k][j] != '\n',
        forall|k: int| 0 <= k < lines.len() ==> strip_cr_spec(#[trigger] lines[k]) == lines[k],
    ensures
        ({
            let p = map_from_lines_spec(split_lines_spec(map_text_spec(m)));
            &&& p is Ok
            &&& p->Ok_0.map.raw == m.map.raw
            &&& p->Ok_0.map.dies == m.map.dies
        }),
{
    lemma_map_fields_ok(lines, m);
    lemma_map_text_splits(m);
    let relines = split_lines_spec(map_text_spec(m));
    let ols = map_out_lines(m);
    assert(relines == ols);
    lemma_kv_reparse(relines, 0, key18("Device Name"@), m.device_name);
    lemma_kv_reparse(relines, 1, key18("Lot No."@), m.lot_no);
    lemma_kv_reparse(relines, 2, key18("Wafer ID"@), m.wafer_id);
    lemma_kv_reparse(relines, 3, key18("Wafer Size"@), m.wafer_size);
    lemma_kv_reparse(relines, 4, key18("Dice SizeX"@), scaled_str(m.dice_size_x as int, 3));
    lemma_kv_reparse(relines, 5, key18("Dice SizeY"@), scaled_str(m.dice_size_y as int, 3));
    lemma_kv_reparse(relines, 6, key18("Flat/Notch"@), m.flat_notch);
    lemma_kv_reparse(relines, 7, key18("Map Column"@), dec_str(m.map_columns as nat));
    lemma_kv_reparse(relines, 8, key18("Map Row"@), dec_str(m.map_rows as nat));
    lemma_kv_reparse(relines, 9, key18("Total Tested"@), dec_str(m.total_tested as nat));
    lemma_kv_reparse(relines, 10, key18("Total Pass"@), dec_str(m.total_pass as nat));
    lemma_kv_reparse(relines, 11, key18("Total Fail"@), dec_str(m.total_fail as nat));
    lemma_kv_reparse(
        relines,
        12,
        key18("Yield"@),
        scaled_str(m.yield_percent as int, 2) + seq!['%'],
    );
    lemma_scaled_value_ok(m.dice_size_x as int, 3);
    lemma_scaled_value_ok(m.dice_size_y as int, 3);
    lemma_scaled_value_ok(m.yield_percent as int, 2);
    lemma_dec_value_ok(m.map_columns as nat);
    lemma_dec_value_ok(m.map_rows as nat);
    lemma_dec_value_ok(m.total_tested as nat);
    lemma_dec_value_ok(m.total_pass as nat);
    lemma_dec_value_ok(m.total_fail as nat);
    lemma_parse_u32_round_trip(m.map_columns);
    lemma_parse_u32_round_trip(m.map_rows);
    lemma_parse_u32_round_trip(m.total_tested);
    lemma_parse_u32_round_trip(m.total_pass);
    lemma_parse_u32_round_trip(m.total_fail);
    lemma_parse_scaled_round_trip(m.dice_size_x, 3);
    lemma_parse_scaled_round_trip(m.dice_size_y, 3);
    lemma_parse_scaled_round_trip(m.yield_percent, 2);
    // The grid reads back verbatim.
    let retail = relines.subrange(13, relines.len() as int);
    assert(retail =~= seq![Seq::<char>::empty()] + m.map.raw);
    lemma_non_blank_concat(seq![Seq::<char>::empty()], m.map.raw);
    assert(non_blank(Seq::<Seq<char>>::empty()) =~= Seq::<Seq<char>>::empty());
    assert(non_blank(seq![Seq::<char>::empty()]) =~= Seq::<Seq<char>>::empty()) by {
        assert(seq![Seq::<char>::empty()].drop_last() =~= Seq::<Seq<char>>::empty());
        assert(seq![Seq::<char>::empty()].last() =~= Seq::<char>::empty());
        assert(is_blank_spec(Seq::<char>::empty()));
    }
    lemma_non_blank_id(m.map.raw);
    assert(non_blank(retail) =~= m.map.raw);
}

} // verus!
