use vstd::prelude::*;

verus! {

/// The mathematical content of a [`ReadError`].
pub enum ReadErrorModel {
    StructuralMismatch { tag_hierarchy: Seq<Seq<char>>, tag_name: Seq<char> },
    EmptyPath,
    HierarchyConflict { bound: Seq<Seq<char>>, requested: Seq<Seq<char>> },
    TagNameMismatch { tag_hierarchy: Seq<Seq<char>>, tag_name: Seq<char> },
    TagNameEncoding { raw_name: Seq<u8> },
    Tokenizer { message: Seq<char> },
}

/// Why a scan was aborted. Every variant is fatal: no partial result is
/// returned alongside it.
#[derive(Debug, PartialEq, Eq)]
pub enum ReadError {
    /// An end tag named `tag_name` arrived while the innermost open tag of
    /// `tag_hierarchy` has another name.
    StructuralMismatch { tag_hierarchy: Vec<String>, tag_name: String },
    /// The last element of an empty tag path was asked for.
    EmptyPath,
    /// A record bound to the path `bound` was asked to take the different
    /// path `requested`.
    HierarchyConflict { bound: Vec<String>, requested: Vec<String> },
    /// A record bound to `tag_hierarchy` was handed the start tag of an
    /// element named `tag_name`, which is not the path's last name.
    TagNameMismatch { tag_hierarchy: Vec<String>, tag_name: String },
    /// The name of a start or end tag is not valid UTF-8.
    TagNameEncoding { raw_name: Vec<u8> },
    /// The tokenizer could not make sense of the document.
    Tokenizer { message: String },
}

impl View for ReadError {
    type V = ReadErrorModel;

    open spec fn view(&self) -> ReadErrorModel {
        match self {
            ReadError::StructuralMismatch { tag_hierarchy, tag_name } => {
                ReadErrorModel::StructuralMismatch {
                    tag_hierarchy: tag_hierarchy.deep_view(),
                    tag_name: tag_name@,
                }
            },
            ReadError::EmptyPath => ReadErrorModel::EmptyPath,
            ReadError::HierarchyConflict { bound, requested } => {
                ReadErrorModel::HierarchyConflict {
                    bound: bound.deep_view(),
                    requested: requested.deep_view(),
                }
            },
            ReadError::TagNameMismatch { tag_hierarchy, tag_name } => {
                ReadErrorModel::TagNameMismatch {
                    tag_hierarchy: tag_hierarchy.deep_view(),
                    tag_name: tag_name@,
                }
            },
            ReadError::TagNameEncoding { raw_name } => {
                ReadErrorModel::TagNameEncoding { raw_name: raw_name@ }
            },
            ReadError::Tokenizer { message } => ReadErrorModel::Tokenizer { message: message@ },
        }
    }
}

/// Why a registration was refused.
#[derive(Debug, Clone, Copy, PartialEq, Eq, Structural)]
pub enum ConfigError {
    /// The path to register does not start with the group-boundary path.
    NotAGroupMember,
}

} // verus!
