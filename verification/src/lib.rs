//! Human-readable descriptions of Wikidata items: short one-line
//! descriptions in many languages and longer prose paragraphs for people.

pub mod api;
pub mod desc_options;
pub mod english;
pub mod format_type;
pub mod generator;
pub mod html;
pub mod json;
pub mod lang_type;
pub mod long_desc;
pub mod media;
pub mod qid;
pub mod result;
pub mod short_desc;
pub mod str_map;
pub mod text;
pub mod validation;
pub mod wikidata;
pub mod wikidata_item;
