//! Codecs for the text formats written by wafer-test equipment: a plain ASCII
//! prober map, a WLBI bin map, a CP/AOI extended map, and a HEX/SINF grid map.
//! Each codec parses a sequence of text lines into a typed model and
//! re-serializes the model back into the equipment's layout, and each parse
//! and serialize function carries a contract that pins its result down.

pub mod bin_map;
pub mod errors;
pub mod header;
pub mod hex_map;
pub mod map_ex;
pub mod model;
pub mod num;
pub mod records;
pub mod round_trip;
pub mod text;
pub mod wafer;
