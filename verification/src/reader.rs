//! The extraction engine and the data it works on.
pub mod error;
pub mod hierarchy_tag_store;
pub mod laws;
pub mod output_tag_value;
pub mod scan;
pub mod tag_value;
pub mod tag_value_type;
pub mod tokenizer;
pub mod util;
pub mod xml_event;
pub mod xml_read_config;
pub mod xml_reader;
