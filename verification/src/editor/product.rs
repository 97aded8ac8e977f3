//! An editor's identity, as its `product.json` gives it.

use vstd::prelude::*;

verus! {

/// The fields of `product.json` the tool uses.
pub struct Product {
    pub name_short: String,
    pub name_long: String,
    pub application_name: String,
    pub data_folder_name: String,
    pub quality: Option<String>,
    pub commit: Option<String>,
}

}
