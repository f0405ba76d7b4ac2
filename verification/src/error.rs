//! Error kinds shared by the loader, the parser, the resolver and the
//! SOAP runtime.

use vstd::prelude::*;

verus! {

/// Everything that can go wrong while loading or parsing service
/// descriptions, resolving the model, or decoding a SOAP exchange.
#[derive(Debug, Clone)]
pub enum Error {
    /// The input URL could not be parsed, or a reference could not be
    /// joined to the root URL.
    UrlParseError,
    /// A URL could not be mapped to a local path, or the path could not be
    /// canonicalized.
    PathConversionError,
    /// A referenced local document could not be opened.
    FileOpenError,
    /// A network failure while loading a remote document or performing a
    /// SOAP call.
    HttpFetchError,
    /// A URL whose scheme is not `file`, `http` or `https`.
    UnsupportedScheme(String),
    /// Malformed XML, or an unexpected event during a structured
    /// expectation.
    XmlParseError,
    /// Well-formed XML that violates the WSDL/XSD shape expected by the
    /// parser: a missing mandatory attribute, an unresolved reference, an
    /// orphan state close.
    StructuralError,
    /// A referenced document is not among the supplied ones; the caller
    /// must fetch it and retry.
    MissingDocument(String),
}

/// The ghost value of an [`Error`].
pub enum ErrorView {
    UrlParseError,
    PathConversionError,
    FileOpenError,
    HttpFetchError,
    UnsupportedScheme(Seq<char>),
    XmlParseError,
    StructuralError,
    MissingDocument(Seq<char>),
}

impl View for Error {
    type V = ErrorView;

    open spec fn view(&self) -> ErrorView {
        match self {
            Error::UrlParseError => ErrorView::UrlParseError,
            Error::PathConversionError => ErrorView::PathConversionError,
            Error::FileOpenError => ErrorView::FileOpenError,
            Error::HttpFetchError => ErrorView::HttpFetchError,
            Error::UnsupportedScheme(s) => ErrorView::UnsupportedScheme(s@),
            Error::XmlParseError => ErrorView::XmlParseError,
            Error::StructuralError => ErrorView::StructuralError,
            Error::MissingDocument(s) => ErrorView::MissingDocument(s@),
        }
    }
}

impl Error {
    /// A short description, in place of a `Display` implementation.
    pub fn describe(&self) -> (r: &'static str)
        ensures
            r@.len() > 0,
    {
        proof {
            reveal_strlit("unable to parse the provided URL");
        }
        match self {
            Error::UrlParseError => "unable to parse the provided URL",
            Error::PathConversionError => {
                proof {
                    reveal_strlit("unable to convert the provided path");
                }
                "unable to convert the provided path"
            },
            Error::FileOpenError => {
                proof {
                    reveal_strlit("unable to open the file");
                }
                "unable to open the file"
            },
            Error::HttpFetchError => {
                proof {
                    reveal_strlit("unable to get the file from the server");
                }
                "unable to get the file from the server"
            },
            Error::UnsupportedScheme(_) => {
                proof {
                    reveal_strlit("unsupported URL scheme");
                }
                "unsupported URL scheme"
            },
            Error::XmlParseError => {
                proof {
                    reveal_strlit("error parsing XML input");
                }
                "error parsing XML input"
            },
            Error::StructuralError => {
                proof {
                    reveal_strlit("document does not have the expected WSDL/XSD shape");
                }
                "document does not have the expected WSDL/XSD shape"
            },
            Error::MissingDocument(_) => {
                proof {
                    reveal_strlit("a referenced document was not supplied");
                }
                "a referenced document was not supplied"
            },
        }
    }
}

} // verus!
