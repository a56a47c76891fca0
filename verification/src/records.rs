//! Plain record types carried between the spreadsheet-reading collaborator
//! and the host application: product/OEM mappings, product rows, and the
//! die-layout sheet extracted from a layout workbook.

use vstd::prelude::*;
use crate::model::AsciiDie;

verus! {

/// One OEM-to-product mapping row.
#[derive(Debug, Clone, PartialEq, Eq)]
pub struct ProductMappingRecord {
    pub oem_id: String,
    pub product_id: String,
}

/// A product row as the workbook reader supplies it.
#[derive(Debug, Clone, PartialEq, Eq)]
pub struct ProductRecordExcel {
    pub product_id: String,
    pub batch_id: String,
    pub wafer_id: String,
    pub sub_id: String,
}

/// A product row in the application's own shape.
#[derive(Debug, Clone, PartialEq, Eq)]
pub struct ProductRecord {
    pub product_id: String,
    pub batch_id: String,
    pub wafer_id: String,
    pub sub_id: String,
}

impl From<ProductRecordExcel> for ProductRecord {
    /// A field-for-field conversion from the workbook row shape.
    fn from(src: ProductRecordExcel) -> (r: Self) {
        ProductRecord {
            product_id: src.product_id,
            batch_id: src.batch_id,
            wafer_id: src.wafer_id,
            sub_id: src.sub_id,
        }
    }
}

impl vstd::std_specs::convert::FromSpecImpl<ProductRecordExcel> for ProductRecord {
    open spec fn obeys_from_spec() -> bool {
        true
    }

    open spec fn from_spec(src: ProductRecordExcel) -> Self {
        ProductRecord {
            product_id: src.product_id,
            batch_id: src.batch_id,
            wafer_id: src.wafer_id,
            sub_id: src.sub_id,
        }
    }
}

/// One sheet of a die-layout workbook: the X headers of its first row, the
/// Y headers of its first column, and the dies of its interior cells.
#[derive(Debug, Clone, PartialEq, Eq)]
pub struct DieLayoutSheet {
    pub x_headers: Vec<i32>,
    pub y_headers: Vec<i32>,
    pub dies: Vec<AsciiDie>,
}

} // verus!
