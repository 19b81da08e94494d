//! League standings for volleyball divisions: the table rows of an HTML
//! fragment become records of twelve text fields, and the records become
//! comma-separated text.

pub mod csv;
pub mod delimited;
pub mod division;
pub mod fetch;
pub mod html;
pub mod json;
pub mod run;
pub mod stats;
pub mod table;
pub mod text;
