use vstd::prelude::*;

verus! {

/// Every way a generation run can fail.
#[derive(Debug, PartialEq, Eq)]
pub enum ArtGenError {
    /// A directory could not be read.
    MissingDirectory(String),
    /// The requested number of assets is not a positive integer.
    InvalidCollectionSize,
    /// The catalog cannot supply the requested number of distinct assets.
    InsufficientLayers,
    /// A category directory is not named `<two digits><label>`.
    IncorrectDirectoryConvention(String),
    /// A trait file is not named `<two digits><label>.<extension>`.
    IncorrectFileConvention(String),
    /// A category has no trait that can ever be drawn.
    EmptyDistribution(String),
    /// A chosen trait file could not be opened as an image.
    ImageDecode(String),
    /// A generated image could not be written.
    ImageEncode(String),
    /// A metadata file could not be written.
    MetadataWrite(String),
}

} // verus!
