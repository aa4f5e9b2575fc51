//! Streaming extraction of configured values from a tag-structured document.
//!
//! A caller declares which tag paths are of interest and, for each of them,
//! which values to capture: the element's text, named attributes, or both.
//! The scanner then consumes start-tag, end-tag and text events in document
//! order, tracks the nesting path, and returns the captured values grouped by
//! each occurrence of a designated group-boundary path.
pub mod reader;
