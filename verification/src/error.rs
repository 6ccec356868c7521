//! The two error kinds of the renderer: malformed content, and failures
//! reported by the graphics backend.

use vstd::prelude::*;

verus! {

/// General result type of the renderer.
pub type MResult<T> = Result<T, Error>;

/// General error type.
///
/// A `DataError` reports malformed or inconsistent content handed to an
/// `add_*` call; it is always recoverable, and the renderer state is left
/// unchanged. A `GraphicsAPIError` carries a failure reported by the
/// graphics backend driving this library.
#[derive(Clone, Debug)]
pub enum Error {
    GraphicsAPIError { backend: String, error: String },
    DataError { error: String },
}

impl Error {
    /// The message of a data error; arbitrary for the other kind.
    pub open spec fn data_msg(&self) -> Seq<char> {
        match self {
            Error::DataError { error } => error@,
            Error::GraphicsAPIError { backend, error } => error@,
        }
    }

    pub fn from_data_error_string(error: String) -> (r: Self)
        ensures
            r == (Error::DataError { error }),
    {
        Error::DataError { error }
    }

    pub fn from_vulkan_error(error: String) -> (r: Self)
        ensures
            r matches Error::GraphicsAPIError { backend, error: e } && e == error
                && backend@ == "Vulkan"@,
    {
        Error::GraphicsAPIError { backend: "Vulkan".to_owned(), error }
    }

    pub fn from_vulkan_impl_error(error: String) -> (r: Self)
        ensures
            r matches Error::GraphicsAPIError { backend, error: e } && e == error
                && backend@ == "Vulkan-IMPL"@,
    {
        Error::GraphicsAPIError { backend: "Vulkan-IMPL".to_owned(), error }
    }

    /// Human-readable rendering, naming the error kind.
    pub fn message(&self) -> (r: String)
        ensures
            (self matches Error::DataError { error }
                ==> r@ == "Data error: "@ + error@),
            (self matches Error::GraphicsAPIError { backend, error }
                ==> r@ == backend@ + " API error: "@ + error@),
    {
        match self {
            Error::GraphicsAPIError { backend, error } => {
                let mut s = backend.clone();
                s.append(" API error: ");
                s.append(error.as_str());
                s
            },
            Error::DataError { error } => {
                let mut s = "Data error: ".to_owned();
                s.append(error.as_str());
                s
            },
        }
    }
}

} // verus!
