use vstd::prelude::*;

verus! {

/// Errors reported while reading an Office package.
#[derive(Debug)]
pub enum Error {
    /// The input is not a valid document of a supported shape.
    Invalid(&'static str),
    /// A resource limit was exceeded.
    Limit(&'static str),
    /// A package part named by the document is absent.
    MissingPart(String),
    /// The input could not be read.
    Io(std::io::Error),
    /// The ZIP container is malformed or unsupported.
    Zip(zip::result::ZipError),
    /// A part is not well-formed XML; the parser's message.
    Xml(String),
}

} // verus!
