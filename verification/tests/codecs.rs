//! End-to-end tests for the four wafer-format codecs: the two whole-file
//! entry points, each format's parse and re-serialize pair, the error
//! taxonomy, and the shared helpers.

use wafer_codec::bin_map::BinMapData;
use wafer_codec::bin_map::parse_file3_str;
use wafer_codec::errors::FormatError;
use wafer_codec::header::parse_kv;
use wafer_codec::hex_map::HexMapData;
use wafer_codec::hex_map::parse_hex_cell;
use wafer_codec::map_ex::MapData;
use wafer_codec::map_ex::parse_file1_str;
use wafer_codec::model::BinValue;
use wafer_codec::model::center_xy;
use wafer_codec::wafer::Wafer;

const SAMPLE1: &str = "\
Device Name       : S1M032120B
Lot No.           : B003332
Wafer ID          : 01
Wafer Size        : 6\"
Dice SizeX        : 4986.000
Dice SizeY        : 3740.000
Flat/Notch        : Down
Map Column        : 2
Map Row           : 3
Total Tested      : 6
Total Pass        : 5
Total Fail        : 1
Yield             : 83.33%

ABC
DEF
GHI
";

#[test]
fn parse_file1_str_basic() {
    let info = parse_file1_str(SAMPLE1).expect("should parse SAMPLE1");
    assert_eq!(info.device_name, "S1M032120B");
    assert_eq!(info.lot_no, "B003332");
    assert_eq!(info.map_columns, 2);
    assert_eq!(info.total_pass, 5);
    assert!((info.yield_percent as f64 / 100.0 - 83.33).abs() < 1e-6);
    assert_eq!(info.ascii_map, vec!["ABC", "DEF", "GHI"]);
}

const SAMPLE3: &str = "\
WaferType: 0
DUT:1
Mode:1
Product:Foo
Wafer Lots:Foo-123
Wafer No:7
Wafer Size:6.00
Index X:10.0
Index Y:20.0

[MAP]:
0 0 1 0
1 0 2 1
";

#[test]
fn parse_file3_str_basic() {
    let map = parse_file3_str(SAMPLE3).expect("parse SAMPLE3");
    assert_eq!(map.wafer_type, 0);
    assert_eq!(map.product, "Foo");
    assert_eq!(map.wafer_no, 7);
    assert!((map.index_x as f64 / 1000.0 - 10.0).abs() < 1e-6);
    assert_eq!(map.entries.len(), 2);
    assert_eq!(map.entries[1].code, 2);
    assert_eq!(map.entries[1].flag, 1);
}

fn lines_of(text: &str) -> Vec<String> {
    wafer_codec::text::split_lines(text)
}

const WAFER_TEXT: &str = "\
Operator: OP1
Device: DEV9
Lot ID: L42
Wafer ID: 07
Meas Time: 2024-05-01 08:00
Gross Die: 9
Pass Die: 7
Fail Die: 2
Total Yield: 77.78%
Down

.1.
2A3
.4.
";

#[test]
fn wafer_parse_fields_and_dies() {
    let w = Wafer::from_lines(&lines_of(WAFER_TEXT)).expect("parse wafer");
    assert_eq!(w.operator, "OP1");
    assert_eq!(w.device, "DEV9");
    assert_eq!(w.gross_die, 9);
    assert_eq!(w.pass_die, 7);
    assert_eq!(w.fail_die, 2);
    assert_eq!(w.total_yield, 7778);
    assert_eq!(w.notch, "Down");
    assert_eq!(w.map.raw, vec![".1.", "2A3", ".4."]);
    // 3x3 grid: origin (-1, -1); the four '.' cells yield no die.
    assert_eq!(w.map.dies.len(), 5);
    assert_eq!(w.map.dies[0].x, 0);
    assert_eq!(w.map.dies[0].y, -1);
    assert_eq!(w.map.dies[0].bin, BinValue::Number(1));
    assert_eq!(w.map.dies[2].x, 0);
    assert_eq!(w.map.dies[2].y, 0);
    assert_eq!(w.map.dies[2].bin, BinValue::Special('A'));
}

#[test]
fn wafer_placeholder_cells_yield_no_die() {
    let w = Wafer::from_lines(&lines_of(WAFER_TEXT)).expect("parse wafer");
    // No die may sit at the coordinates of a '.' cell: corners of the 3x3.
    for d in &w.map.dies {
        assert!(!(d.x == -1 && d.y == -1));
        assert!(!(d.x == 1 && d.y == -1));
        assert!(!(d.x == -1 && d.y == 1));
        assert!(!(d.x == 1 && d.y == 1));
    }
}

#[test]
fn wafer_round_trip_preserves_raw_and_dies() {
    let w = Wafer::from_lines(&lines_of(WAFER_TEXT)).expect("parse wafer");
    let text = w.to_string();
    let w2 = Wafer::from_lines(&lines_of(&text)).expect("reparse wafer");
    assert_eq!(w2.map.raw, w.map.raw);
    assert_eq!(w2.map.dies, w.map.dies);
    assert_eq!(w2.gross_die, w.gross_die);
    assert_eq!(w2.total_yield, w.total_yield);
}

#[test]
fn wafer_serialize_exact() {
    let w = Wafer::from_lines(&lines_of(WAFER_TEXT)).expect("parse wafer");
    let expected = "Operator: OP1\nDevice: DEV9\nLot ID: L42\nWafer ID: 07\n\
Meas Time: 2024-05-01 08:00\nGross Die: 9\nPass Die: 7\nFail Die: 2\n\
Total Yield: 77.78%\nnotch-Down\n\n.1.\n2A3\n.4.\n";
    assert_eq!(w.to_string(), expected);
}

#[test]
fn wafer_missing_header_line() {
    let err = Wafer::from_lines(&lines_of("Operator: x\n")).unwrap_err();
    assert!(matches!(err, FormatError::MissingHeaderLine { .. }));
}

#[test]
fn wafer_header_key_mismatch() {
    let err = Wafer::from_lines(&lines_of("Oper: x\n")).unwrap_err();
    match err {
        FormatError::HeaderKeyMismatch { expected, found } => {
            assert_eq!(expected, "Operator");
            assert_eq!(found, "Oper: x");
        },
        other => panic!("wrong error: {:?}", other),
    }
}

#[test]
fn wafer_invalid_numeric_field() {
    let text = "Operator: o\nDevice: d\nLot ID: l\nWafer ID: w\nMeas Time: t\n\
Gross Die: many\nPass Die: 1\nFail Die: 0\nTotal Yield: 100.00%\nUp\n\n1\n";
    let err = Wafer::from_lines(&lines_of(text)).unwrap_err();
    match err {
        FormatError::InvalidNumericField { field, text } => {
            assert_eq!(field, "Gross Die");
            assert_eq!(text, "many");
        },
        other => panic!("wrong error: {:?}", other),
    }
}

#[test]
fn wafer_empty_grid() {
    let text = "Operator: o\nDevice: d\nLot ID: l\nWafer ID: w\nMeas Time: t\n\
Gross Die: 1\nPass Die: 1\nFail Die: 0\nTotal Yield: 100.00%\nUp\n\n   \n";
    let err = Wafer::from_lines(&lines_of(text)).unwrap_err();
    assert!(matches!(err, FormatError::EmptyGrid));
}

#[test]
fn map_ex_round_trip_preserves_raw_and_dies() {
    let m = MapData::from_lines(&lines_of(SAMPLE1)).expect("parse map");
    let text = m.to_string();
    let m2 = MapData::from_lines(&lines_of(&text)).expect("reparse map");
    assert_eq!(m2.map.raw, m.map.raw);
    assert_eq!(m2.map.dies, m.map.dies);
    assert_eq!(m2.dice_size_x, m.dice_size_x);
    assert_eq!(m2.yield_percent, m.yield_percent);
}

#[test]
fn map_ex_dies_use_declared_dimensions() {
    let m = MapData::from_lines(&lines_of(SAMPLE1)).expect("parse map");
    // Declared 2 columns and 3 rows: origin (-1, -1), even though the grid
    // text is 3 characters wide.
    assert_eq!(m.map_columns, 2);
    assert_eq!(m.map_rows, 3);
    assert_eq!(m.map.dies[0].x, -1);
    assert_eq!(m.map.dies[0].y, -1);
    assert_eq!(m.map.dies[0].bin, BinValue::Special('A'));
    assert_eq!(m.map.dies.len(), 9);
}

#[test]
fn map_ex_serialize_uses_padded_labels() {
    let m = MapData::from_lines(&lines_of(SAMPLE1)).expect("parse map");
    let text = m.to_string();
    assert!(text.starts_with("Device Name       : S1M032120B\n"));
    assert!(text.contains("\nDice SizeX        : 4986.000\n"));
    assert!(text.contains("\nYield             : 83.33%\n"));
}

#[test]
fn bin_map_scenario_two_dies() {
    let m = BinMapData::from_lines(&lines_of(SAMPLE3)).expect("parse bin map");
    assert_eq!(m.wafer_type, 0);
    assert_eq!(m.dut, 1);
    assert_eq!(m.wafer_no, "7");
    assert_eq!(m.map.len(), 2);
    assert_eq!(m.map[0].x, 0);
    assert_eq!(m.map[0].bin, BinValue::Number(1));
    assert_eq!(m.map[0].reserved, 0);
    assert_eq!(m.map[1].bin, BinValue::Number(2));
    assert_eq!(m.map[1].reserved, 1);
}

#[test]
fn bin_map_malformed_map_line() {
    let text = "WaferType: 0\nDUT:1\nMode:1\nProduct:Foo\nWafer Lots:F\nWafer No:7\n\
Wafer Size:6.00\nIndex X:10.0\nIndex Y:20.0\n[MAP]:\n1 2 3\n";
    let err = BinMapData::from_lines(&lines_of(text)).unwrap_err();
    match err {
        FormatError::MalformedGridLine { line } => assert_eq!(line, "1 2 3"),
        other => panic!("wrong error: {:?}", other),
    }
}

#[test]
fn bin_map_missing_map_section() {
    let text = "WaferType: 0\nDUT:1\nMode:1\nProduct:Foo\nWafer Lots:F\nWafer No:7\n\
Wafer Size:6.00\nIndex X:10.0\nIndex Y:20.0\n";
    let err = BinMapData::from_lines(&lines_of(text)).unwrap_err();
    match err {
        FormatError::MissingMapSection { marker } => assert_eq!(marker, "[MAP]"),
        other => panic!("wrong error: {:?}", other),
    }
}

fn bin_text_with_bins(bins: &str) -> String {
    format!(
        "WaferType: 0\nDUT:1\nMode:1\nProduct:Foo\nWafer Lots:F\nWafer No:7\n\
Wafer Size:6.00\nIndex X:10.0\nIndex Y:20.0\n[MAP]:\n0 0 1 0\n{}\n## END ##\n",
        bins
    )
}

#[test]
fn bin_counts_are_summed_not_overwritten() {
    let m = BinMapData::from_lines(&lines_of(&bin_text_with_bins("Bin 3 10, Bin 3 5"))).unwrap();
    assert_eq!(m.bins.len(), 1);
    assert_eq!(m.bins[0].bin, 3);
    assert_eq!(m.bins[0].count, 15);
}

#[test]
fn bin_count_aggregation_is_order_independent() {
    let a = BinMapData::from_lines(&lines_of(&bin_text_with_bins("Bin 3 10, Bin 1 5"))).unwrap();
    let b = BinMapData::from_lines(&lines_of(&bin_text_with_bins("Bin 1 5, Bin 3 10"))).unwrap();
    assert_eq!(a.bins, b.bins);
    assert_eq!(a.bins.len(), 2);
    assert_eq!(a.bins[0].bin, 1);
    assert_eq!(a.bins[0].count, 5);
    assert_eq!(a.bins[1].bin, 3);
    assert_eq!(a.bins[1].count, 10);
}

#[test]
fn bin_map_serialize_exact() {
    let m = BinMapData::from_lines(&lines_of(&bin_text_with_bins("Bin 3 10, Bin 3 5"))).unwrap();
    let expected = "Wafer Type   : 0\nDUT          : 1\nMode         : 1\nProduct      : Foo\n\
Wafer Lots   : F\nWafer No     : 7\nWafer Size   : 6.000\nIndex X      : 10.000\n\
Index Y      : 20.000\n\n[MAP]:\n0 0 1 0\n\n\nBin 3  15,\n\n## END ##\n";
    assert_eq!(m.to_string(), expected);
}

const HEX_TEXT: &str = "\
DEVICE: DEV
LOT: LOT1
WAFER: 3
FNLOC: 180
ROWCT: 2
COLCT: 3
BCEQU: 1
REFPX: 1
REFPY: 2
DUTMS: MM
XDIES: 4.98600
YDIES: 3.74000
RowData: 01 -- fe
RowData: -- 10 --
";

#[test]
fn hex_parse_grid_and_dies() {
    let h = HexMapData::from_lines(&lines_of(HEX_TEXT)).expect("parse hex");
    assert_eq!(h.header.device, "DEV");
    assert_eq!(h.header.fnloc, Some(180));
    assert_eq!(h.header.bcequ, Some(1));
    assert_eq!(h.header.row_ct, 2);
    assert_eq!(h.header.col_ct, 3);
    assert_eq!(h.header.x_dies, 498600);
    assert_eq!(h.map.grid.len(), 2);
    assert_eq!(h.map.grid[0][0].0, Some(1));
    assert_eq!(h.map.grid[0][1].0, None);
    assert_eq!(h.map.grid[0][2].0, Some(0xFE));
    // Dies only for populated cells, centered on a 3x2 grid.
    assert_eq!(h.map.dies.len(), 3);
    assert_eq!(h.map.dies[0].x, -1);
    assert_eq!(h.map.dies[0].y, -1);
    assert_eq!(h.map.dies[0].bin, BinValue::Number(1));
    assert_eq!(h.map.dies[1].x, 1);
    assert_eq!(h.map.dies[1].bin, BinValue::Number(0xFE));
    assert_eq!(h.map.dies[2].x, 0);
    assert_eq!(h.map.dies[2].y, 0);
}

#[test]
fn hex_missing_optional_fields_parse_as_absent() {
    let text = "DEVICE: D\nLOT: L\nWAFER: 1\nROWCT: 1\nCOLCT: 2\nREFPX: 0\nREFPY: 0\n\
DUTMS: MM\nXDIES: 1.00000\nYDIES: 1.00000\nRowData: 01 02\n";
    let h = HexMapData::from_lines(&lines_of(text)).expect("parse hex without options");
    assert_eq!(h.header.fnloc, None);
    assert_eq!(h.header.bcequ, None);
    assert_eq!(h.map.dies.len(), 2);
}

#[test]
fn hex_rowdata_tokens_on_following_line() {
    let text = "DEVICE: D\nLOT: L\nWAFER: 1\nROWCT: 1\nCOLCT: 2\nREFPX: 0\nREFPY: 0\n\
DUTMS: MM\nXDIES: 1.00000\nYDIES: 1.00000\nRowData:\n01 02\n";
    let h = HexMapData::from_lines(&lines_of(text)).expect("parse hex split row");
    assert_eq!(h.map.raw, vec!["01 02"]);
    assert_eq!(h.map.grid[0][0].0, Some(1));
}

#[test]
fn hex_short_and_missing_rows_are_padded() {
    let text = "DEVICE: D\nLOT: L\nWAFER: 1\nROWCT: 3\nCOLCT: 3\nREFPX: 0\nREFPY: 0\n\
DUTMS: MM\nXDIES: 1.00000\nYDIES: 1.00000\nRowData: 01\n";
    let h = HexMapData::from_lines(&lines_of(text)).expect("parse hex padded");
    assert_eq!(h.map.grid.len(), 3);
    assert_eq!(h.map.grid[0].len(), 3);
    assert_eq!(h.map.grid[0][1].0, None);
    assert_eq!(h.map.grid[2], vec![
        wafer_codec::hex_map::HexCell(None),
        wafer_codec::hex_map::HexCell(None),
        wafer_codec::hex_map::HexCell(None),
    ]);
    assert_eq!(h.map.dies.len(), 1);
}

#[test]
fn hex_bad_token_is_malformed_grid_line() {
    let text = "DEVICE: D\nLOT: L\nWAFER: 1\nROWCT: 1\nCOLCT: 2\nREFPX: 0\nREFPY: 0\n\
DUTMS: MM\nXDIES: 1.00000\nYDIES: 1.00000\nRowData: 0q1\n";
    let err = HexMapData::from_lines(&lines_of(text)).unwrap_err();
    match err {
        FormatError::MalformedGridLine { line } => assert_eq!(line, "0q1"),
        other => panic!("wrong error: {:?}", other),
    }
}

#[test]
fn hex_round_trip_preserves_grid_and_dies() {
    let h = HexMapData::from_lines(&lines_of(HEX_TEXT)).expect("parse hex");
    let text = h.to_string();
    assert!(text.contains("RowData: 01 -- FE\n"));
    assert!(text.contains("BCEQU: 01\n"));
    let h2 = HexMapData::from_lines(&lines_of(&text)).expect("reparse hex");
    assert_eq!(h2.map.grid, h.map.grid);
    assert_eq!(h2.map.dies, h.map.dies);
    assert_eq!(h2.header, h.header);
}

#[test]
fn parse_hex_cell_cases() {
    assert_eq!(parse_hex_cell("--").unwrap().0, None);
    assert_eq!(parse_hex_cell("0A").unwrap().0, Some(10));
    assert_eq!(parse_hex_cell("ff").unwrap().0, Some(255));
    assert!(parse_hex_cell("123").is_err());
    assert!(parse_hex_cell("g1").is_err());
}

#[test]
fn center_xy_centers_indices() {
    assert_eq!(center_xy(28, 37, 0, 0), (-14, -18));
    assert_eq!(center_xy(28, 37, 27, 36), (13, 18));
    assert_eq!(center_xy(3, 3, 1, 1), (0, 0));
    assert_eq!(center_xy(0, 0, 5, 6), (5, 6));
}

#[test]
fn parse_kv_reads_one_line() {
    let lines = lines_of("Operator: Ann\nDevice: D\n");
    let mut pos = 0usize;
    let v = parse_kv(&lines, &mut pos, "Operator").unwrap();
    assert_eq!(v, "Ann");
    assert_eq!(pos, 1);
    let v2 = parse_kv(&lines, &mut pos, "Device").unwrap();
    assert_eq!(v2, "D");
    assert!(parse_kv(&lines, &mut pos, "Lot ID").is_err());
}

#[test]
fn bin_value_to_string() {
    assert_eq!(BinValue::Number(7).to_string(), "7");
    assert_eq!(BinValue::Number(-3).to_string(), "-3");
    assert_eq!(BinValue::Special('A').to_string(), "A");
}

#[test]
fn error_messages_carry_context() {
    let e = FormatError::InvalidNumericField {
        field: String::from("Gross Die"),
        text: String::from("many"),
    };
    assert_eq!(e.message(), "invalid numeric value for `Gross Die`: `many`");
}

#[test]
fn product_record_from_excel_row() {
    let src = wafer_codec::records::ProductRecordExcel {
        product_id: String::from("P1"),
        batch_id: String::from("B1"),
        wafer_id: String::from("W1"),
        sub_id: String::from("S1"),
    };
    let r = wafer_codec::records::ProductRecord::from(src);
    assert_eq!(r.product_id, "P1");
    assert_eq!(r.sub_id, "S1");
}
