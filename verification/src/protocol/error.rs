use vstd::prelude::*;

verus! {

/// A field that an answer of the account service is expected to hold.
#[derive(Clone, Copy, Debug, PartialEq, Eq, Structural)]
pub enum Field {
    /// `errorMessage`, beside `error`.
    ErrorMessage,
    /// `selectedProfile.name`.
    ProfileName,
    /// `selectedProfile.id`.
    ProfileId,
    /// `accessToken`.
    AccessToken,
}

/// What can go wrong in the protocol layer.
#[derive(Clone, Debug, PartialEq, Eq)]
pub enum Error {
    /// A failure that carries its message: the account service refused, or
    /// a server did not accept the join.
    Failed(String),
    /// The byte source ended before the value did.
    UnexpectedEof,
    /// A variable-length integer went on after its fifth byte.
    VarIntTooBig,
    /// A stack with a tag was to be written in the legacy era, whose
    /// compressed tag format is recognized but neither read nor written.
    LegacyTag,
    /// The answer of the account service is no JSON document.
    Json,
    /// The answer of the account service lacks a field, or holds something
    /// other than a string there.
    Malformed(Field),
    /// The account has no access token in slot 2, or no uuid.
    IncompleteAccount,
}

/// An error as plain values.
pub enum ErrorView {
    Failed(Seq<char>),
    UnexpectedEof,
    VarIntTooBig,
    LegacyTag,
    Json,
    Malformed(Field),
    IncompleteAccount,
}

impl View for Error {
    type V = ErrorView;

    open spec fn view(&self) -> ErrorView {
        match self {
            Error::Failed(message) => ErrorView::Failed(message@),
            Error::UnexpectedEof => ErrorView::UnexpectedEof,
            Error::VarIntTooBig => ErrorView::VarIntTooBig,
            Error::LegacyTag => ErrorView::LegacyTag,
            Error::Json => ErrorView::Json,
            Error::Malformed(field) => ErrorView::Malformed(*field),
            Error::IncompleteAccount => ErrorView::IncompleteAccount,
        }
    }
}

} // verus!
