//! The errors that the file system reports.

use vstd::prelude::*;
use vstd::string::StringExecFns;

verus! {

#[verifier::external_type_specification]
#[verifier::external_body]
pub struct ExBincodeErrorKind(bincode::ErrorKind);

/// Why an operation of the file system failed.
#[derive(Debug)]
pub enum Error {
    /// A device file name or an inode type letter has the wrong form.
    Parse,
    /// A value could not be written into, or read out of, a block.
    Bincode(Box<bincode::ErrorKind>),
    /// A size or a block number is out of bounds; the text says which.
    Size(String),
    /// A file offset lies beyond what the inode's pointer tree can reach.
    Overflow,
    /// A cached block was asked for both as raw bytes and as pointers.
    CacheInvalid,
}

/// An error as plain values: its kind, and the text of an error about a
/// size.
pub enum ErrorView {
    Parse,
    Bincode,
    Size(Seq<char>),
    Overflow,
    CacheInvalid,
}

impl View for Error {
    type V = ErrorView;

    open spec fn view(&self) -> ErrorView {
        match self {
            Error::Parse => ErrorView::Parse,
            Error::Bincode(_) => ErrorView::Bincode,
            Error::Size(text) => ErrorView::Size(text@),
            Error::Overflow => ErrorView::Overflow,
            Error::CacheInvalid => ErrorView::CacheInvalid,
        }
    }
}

/// The kind of an error, without what it carries.
#[derive(Copy, Clone, Debug, PartialEq, Eq, Structural, Hash)]
pub enum Failure {
    Parse,
    Bincode,
    Size,
    Overflow,
    CacheInvalid,
}

impl Error {
    /// The kind of this error.
    pub open spec fn spec_kind(&self) -> Failure {
        match self {
            Error::Parse => Failure::Parse,
            Error::Bincode(_) => Failure::Bincode,
            Error::Size(_) => Failure::Size,
            Error::Overflow => Failure::Overflow,
            Error::CacheInvalid => Failure::CacheInvalid,
        }
    }

    /// The kind of this error.
    #[verifier::when_used_as_spec(spec_kind)]
    pub fn kind(&self) -> (r: Failure)
        ensures
            r == self.spec_kind(),
    {
        match self {
            Error::Parse => Failure::Parse,
            Error::Bincode(_) => Failure::Bincode,
            Error::Size(_) => Failure::Size,
            Error::Overflow => Failure::Overflow,
            Error::CacheInvalid => Failure::CacheInvalid,
        }
    }

    /// What the error says, as it is shown to a user.
    pub fn message(&self) -> (r: String)
        ensures
            self is Bincode ==> r@.len() >= "(de)serialization error: "@.len() && r@.take(
                "(de)serialization error: "@.len() as int,
            ) == "(de)serialization error: "@,
            self is Size ==> r@ == self->Size_0@,
            self is Overflow ==> r@ == "offset is beyond the reach of the inode"@,
            self is CacheInvalid ==> r@ == "block is cached in another form"@,
            self is Parse ==> r@ == "Parse error"@,
    {
        match self {
            Error::Parse => "Parse error".to_owned(),
            Error::Bincode(e) => {
                let text = bincode_message(e);
                let mut out = "(de)serialization error: ".to_owned();
                out.append(text.as_str());
                assert(out@.take("(de)serialization error: "@.len() as int)
                    =~= "(de)serialization error: "@);
                out
            },
            Error::Size(text) => text.clone(),
            Error::Overflow => "offset is beyond the reach of the inode".to_owned(),
            Error::CacheInvalid => "block is cached in another form".to_owned(),
        }
    }
}

/// `Display` of `bincode::ErrorKind`: the text that the outside error shows.
/// Nothing is stated of the text.
#[verifier::external_body]
fn bincode_message(e: &Box<bincode::ErrorKind>) -> (r: String) {
    format!("{}", e)
}

pub type Result<A> = core::result::Result<A, Error>;

} // verus!
