use vstd::prelude::*;

verus! {

/// Why a single field value could not be read.
#[derive(Clone, Copy, Debug, PartialEq, Eq, Structural)]
pub enum FieldError {
    /// Fewer bytes remain than the declared type needs.
    TruncatedInput,
    /// The bytes are not a value of the declared type (a bad flag byte, a
    /// string that is not UTF-8).
    InvalidValue,
}

} // verus!

verus! {

/// Errors of the library.
#[derive(Debug, PartialEq, Eq)]
pub enum ToolkitError {
    /// A stored value is shorter than its type needs.
    TruncatedInput,
    /// A raw record does not start with a well-formed, UTF-8 event name.
    MalformedEnvelope,
    /// The event name is not in the schema registry.
    UnknownEventType { name: String },
    /// A field of a known event could not be decoded.
    FieldDecodeError { field_name: String, cause: FieldError },
    /// Bytes remain after every declared field was decoded.
    TrailingBytes,
    /// The backend holds no value at the requested address.
    NotFound,
    /// The stored value is not of the expected kind.
    TypeMismatch,
    /// The transaction's execution failed with this message.
    TransactionFailed { message: String },
    /// The storage backend failed; its message is passed on as it is.
    BackendError { message: String },
    /// A transaction hash is not 64 hexadecimal digits.
    InvalidHash,
}

/// Model of an error.
pub enum ErrorView {
    TruncatedInput,
    MalformedEnvelope,
    UnknownEventType(Seq<char>),
    FieldDecodeError(Seq<char>, FieldError),
    TrailingBytes,
    NotFound,
    TypeMismatch,
    TransactionFailed(Seq<char>),
    BackendError(Seq<char>),
    InvalidHash,
}

impl View for ToolkitError {
    type V = ErrorView;

    open spec fn view(&self) -> ErrorView {
        match self {
            ToolkitError::TruncatedInput => ErrorView::TruncatedInput,
            ToolkitError::MalformedEnvelope => ErrorView::MalformedEnvelope,
            ToolkitError::UnknownEventType { name } => ErrorView::UnknownEventType(name@),
            ToolkitError::FieldDecodeError { field_name, cause } => ErrorView::FieldDecodeError(
                field_name@,
                *cause,
            ),
            ToolkitError::TrailingBytes => ErrorView::TrailingBytes,
            ToolkitError::NotFound => ErrorView::NotFound,
            ToolkitError::TypeMismatch => ErrorView::TypeMismatch,
            ToolkitError::TransactionFailed { message } => ErrorView::TransactionFailed(message@),
            ToolkitError::BackendError { message } => ErrorView::BackendError(message@),
            ToolkitError::InvalidHash => ErrorView::InvalidHash,
        }
    }
}

} // verus!
