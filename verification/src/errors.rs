//! The error kinds shared by every layer, and the text an error takes
//! when it crosses a boundary that carries bytes only.

use vstd::prelude::*;
use vstd::string::StringExecFns;
use vstd::string::StrSliceExecFns;
use vstd::utf8::encode_utf8;

verus! {

/// The closed set of error kinds.
///
/// `Okay` is the kind that is no failure: a streaming task returns it to say
/// that it has nothing to hand out on this tick.
#[derive(Clone, Copy, Debug, PartialEq, Eq, Hash, Structural)]
pub enum CuteErrorCode {
    SerializeInvalid,
    DeSerializeInvalid,
    DeadlineExceeded,
    PermissionDenied,
    NotFound,
    Internal,
    Cancelled,
    Unauthenticated,
    Okay,
}

/// The name under which a kind is written into an error's text.
pub open spec fn code_name(code: CuteErrorCode) -> Seq<char> {
    match code {
        CuteErrorCode::SerializeInvalid => "SerializeInvalid"@,
        CuteErrorCode::DeSerializeInvalid => "DeSerializeInvalid"@,
        CuteErrorCode::DeadlineExceeded => "DeadlineExceeded"@,
        CuteErrorCode::PermissionDenied => "PermissionDenied"@,
        CuteErrorCode::NotFound => "NotFound"@,
        CuteErrorCode::Internal => "Internal"@,
        CuteErrorCode::Cancelled => "Cancelled"@,
        CuteErrorCode::Unauthenticated => "Unauthenticated"@,
        CuteErrorCode::Okay => "Ok"@,
    }
}

/// The text of an error: the kind's name, `" : "`, then the message.
pub open spec fn error_text(code: CuteErrorCode, message: Seq<char>) -> Seq<char> {
    code_name(code) + " : "@ + message
}

impl CuteErrorCode {
    /// The number that stands for this kind, 1 to 9 in the order of declaration.
    pub open spec fn number_spec(self) -> int {
        match self {
            CuteErrorCode::SerializeInvalid => 1,
            CuteErrorCode::DeSerializeInvalid => 2,
            CuteErrorCode::DeadlineExceeded => 3,
            CuteErrorCode::PermissionDenied => 4,
            CuteErrorCode::NotFound => 5,
            CuteErrorCode::Internal => 6,
            CuteErrorCode::Cancelled => 7,
            CuteErrorCode::Unauthenticated => 8,
            CuteErrorCode::Okay => 9,
        }
    }

    pub fn number(self) -> (n: u32)
        ensures
            n == self.number_spec(),
    {
        match self {
            CuteErrorCode::SerializeInvalid => 1,
            CuteErrorCode::DeSerializeInvalid => 2,
            CuteErrorCode::DeadlineExceeded => 3,
            CuteErrorCode::PermissionDenied => 4,
            CuteErrorCode::NotFound => 5,
            CuteErrorCode::Internal => 6,
            CuteErrorCode::Cancelled => 7,
            CuteErrorCode::Unauthenticated => 8,
            CuteErrorCode::Okay => 9,
        }
    }

    /// The kind's name as it stands in an error's text.
    pub fn name(self) -> (s: &'static str)
        ensures
            s@ == code_name(self),
    {
        match self {
            CuteErrorCode::SerializeInvalid => "SerializeInvalid",
            CuteErrorCode::DeSerializeInvalid => "DeSerializeInvalid",
            CuteErrorCode::DeadlineExceeded => "DeadlineExceeded",
            CuteErrorCode::PermissionDenied => "PermissionDenied",
            CuteErrorCode::NotFound => "NotFound",
            CuteErrorCode::Internal => "Internal",
            CuteErrorCode::Cancelled => "Cancelled",
            CuteErrorCode::Unauthenticated => "Unauthenticated",
            CuteErrorCode::Okay => "Ok",
        }
    }
}

/// An error: its kind and a message for people.
#[derive(Debug)]
pub struct CuteError {
    pub code: CuteErrorCode,
    pub message: String,
}

/// What an error is in contracts: its kind and the characters of its message.
pub struct ErrorView {
    pub code: CuteErrorCode,
    pub message: Seq<char>,
}

impl View for CuteError {
    type V = ErrorView;

    open spec fn view(&self) -> ErrorView {
        ErrorView { code: self.code, message: self.message@ }
    }
}

impl Clone for CuteError {
    fn clone(&self) -> (r: Self)
        ensures
            r@ == self@,
    {
        CuteError { code: self.code, message: self.message.clone() }
    }
}

impl Default for CuteError {
    fn default() -> (r: Self)
        ensures
            r.code == CuteErrorCode::Okay,
            r.message@ == Seq::<char>::empty(),
    {
        CuteError { code: CuteErrorCode::Okay, message: String::new() }
    }
}

impl CuteError {
    fn new(code: CuteErrorCode, msg: &str) -> (r: Self)
        ensures
            r.code == code,
            r.message@ == msg@,
    {
        CuteError { code, message: String::from_str(msg) }
    }

    /// The error's text: the kind's name, `" : "`, then the message.
    pub fn to_text(&self) -> (s: String)
        ensures
            s@ == error_text(self.code, self.message@),
    {
        let mut s = String::from_str(self.code.name());
        s.append(" : ");
        s.append(self.message.as_str());
        s
    }

    /// The error's text in UTF-8, for a boundary that carries bytes only.
    pub fn serialize(&self) -> (bytes: Vec<u8>)
        ensures
            bytes@ == encode_utf8(error_text(self.code, self.message@)),
    {
        let s = self.to_text();
        s.as_str().as_bytes_vec()
    }

    pub fn serialize_invalid(msg: &str) -> (e: CuteError)
        ensures
            e.code == CuteErrorCode::SerializeInvalid,
            e.message@ == msg@,
    {
        CuteError::new(CuteErrorCode::SerializeInvalid, msg)
    }

    pub fn deserialize_invalid(msg: &str) -> (e: CuteError)
        ensures
            e.code == CuteErrorCode::DeSerializeInvalid,
            e.message@ == msg@,
    {
        CuteError::new(CuteErrorCode::DeSerializeInvalid, msg)
    }

    pub fn deadline_exceeded(msg: &str) -> (e: CuteError)
        ensures
            e.code == CuteErrorCode::DeadlineExceeded,
            e.message@ == msg@,
    {
        CuteError::new(CuteErrorCode::DeadlineExceeded, msg)
    }

    pub fn permission_denied(msg: &str) -> (e: CuteError)
        ensures
            e.code == CuteErrorCode::PermissionDenied,
            e.message@ == msg@,
    {
        CuteError::new(CuteErrorCode::PermissionDenied, msg)
    }

    pub fn not_found(msg: &str) -> (e: CuteError)
        ensures
            e.code == CuteErrorCode::NotFound,
            e.message@ == msg@,
    {
        CuteError::new(CuteErrorCode::NotFound, msg)
    }

    pub fn internal(msg: &str) -> (e: CuteError)
        ensures
            e.code == CuteErrorCode::Internal,
            e.message@ == msg@,
    {
        CuteError::new(CuteErrorCode::Internal, msg)
    }

    pub fn cancelled(msg: &str) -> (e: CuteError)
        ensures
            e.code == CuteErrorCode::Cancelled,
            e.message@ == msg@,
    {
        CuteError::new(CuteErrorCode::Cancelled, msg)
    }

    pub fn unauthenticated(msg: &str) -> (e: CuteError)
        ensures
            e.code == CuteErrorCode::Unauthenticated,
            e.message@ == msg@,
    {
        CuteError::new(CuteErrorCode::Unauthenticated, msg)
    }

    pub fn ok(msg: &str) -> (e: CuteError)
        ensures
            e.code == CuteErrorCode::Okay,
            e.message@ == msg@,
    {
        CuteError::new(CuteErrorCode::Okay, msg)
    }
}

/// The kinds of I/O failure that the error model tells apart; every other
/// kind is `Other`.
#[derive(Clone, Copy, Debug, PartialEq, Eq, Hash, Structural)]
pub enum IoErrorKind {
    InvalidInput,
    InvalidData,
    TimedOut,
    PermissionDenied,
    NotFound,
    WouldBlock,
    Interrupted,
    Unsupported,
    Other,
}

/// The error kind that an I/O failure of kind `kind` becomes.
pub open spec fn code_of_io_kind(kind: IoErrorKind) -> CuteErrorCode {
    match kind {
        IoErrorKind::InvalidInput => CuteErrorCode::SerializeInvalid,
        IoErrorKind::InvalidData => CuteErrorCode::DeSerializeInvalid,
        IoErrorKind::TimedOut => CuteErrorCode::DeadlineExceeded,
        IoErrorKind::PermissionDenied => CuteErrorCode::PermissionDenied,
        IoErrorKind::NotFound => CuteErrorCode::NotFound,
        IoErrorKind::WouldBlock => CuteErrorCode::Okay,
        IoErrorKind::Interrupted => CuteErrorCode::Cancelled,
        IoErrorKind::Unsupported => CuteErrorCode::Unauthenticated,
        IoErrorKind::Other => CuteErrorCode::Internal,
    }
}

/// The kind of I/O failure that an error of kind `code` becomes.
pub open spec fn io_kind_of_code(code: CuteErrorCode) -> IoErrorKind {
    match code {
        CuteErrorCode::SerializeInvalid => IoErrorKind::InvalidInput,
        CuteErrorCode::DeSerializeInvalid => IoErrorKind::InvalidData,
        CuteErrorCode::DeadlineExceeded => IoErrorKind::TimedOut,
        CuteErrorCode::PermissionDenied => IoErrorKind::PermissionDenied,
        CuteErrorCode::NotFound => IoErrorKind::NotFound,
        CuteErrorCode::Okay => IoErrorKind::WouldBlock,
        CuteErrorCode::Cancelled => IoErrorKind::Interrupted,
        CuteErrorCode::Unauthenticated => IoErrorKind::Unsupported,
        CuteErrorCode::Internal => IoErrorKind::Other,
    }
}

/// The message of the error that an I/O failure becomes: the failure's own
/// text, behind the name of its kind and `". "` where the kind is `Other`.
pub open spec fn io_message(kind: IoErrorKind, kind_text: Seq<char>, text: Seq<char>) -> Seq<char> {
    if kind == IoErrorKind::Other {
        kind_text + ". "@ + text
    } else {
        text
    }
}

impl CuteError {
    /// The error that an I/O failure becomes. `kind_text` is the name of
    /// the failure's kind and `text` the failure's own text.
    pub fn from_io(kind: IoErrorKind, kind_text: &str, text: &str) -> (e: CuteError)
        ensures
            e.code == code_of_io_kind(kind),
            e.message@ == io_message(kind, kind_text@, text@),
    {
        match kind {
            IoErrorKind::InvalidInput => CuteError::serialize_invalid(text),
            IoErrorKind::InvalidData => CuteError::deserialize_invalid(text),
            IoErrorKind::TimedOut => CuteError::deadline_exceeded(text),
            IoErrorKind::PermissionDenied => CuteError::permission_denied(text),
            IoErrorKind::NotFound => CuteError::not_found(text),
            IoErrorKind::WouldBlock => CuteError::ok(text),
            IoErrorKind::Interrupted => CuteError::cancelled(text),
            IoErrorKind::Unsupported => CuteError::unauthenticated(text),
            IoErrorKind::Other => {
                let mut message = String::from_str(kind_text);
                message.append(". ");
                message.append(text);
                CuteError::internal(message.as_str())
            },
        }
    }

    /// The kind of the I/O failure that this error becomes; the failure's
    /// text is the error's message.
    pub fn io_kind(&self) -> (kind: IoErrorKind)
        ensures
            kind == io_kind_of_code(self.code),
    {
        match self.code {
            CuteErrorCode::SerializeInvalid => IoErrorKind::InvalidInput,
            CuteErrorCode::DeSerializeInvalid => IoErrorKind::InvalidData,
            CuteErrorCode::DeadlineExceeded => IoErrorKind::TimedOut,
            CuteErrorCode::PermissionDenied => IoErrorKind::PermissionDenied,
            CuteErrorCode::NotFound => IoErrorKind::NotFound,
            CuteErrorCode::Okay => IoErrorKind::WouldBlock,
            CuteErrorCode::Cancelled => IoErrorKind::Interrupted,
            CuteErrorCode::Unauthenticated => IoErrorKind::Unsupported,
            CuteErrorCode::Internal => IoErrorKind::Other,
        }
    }
}

/// An error kind that has become a kind of I/O failure comes back as
/// itself, and so does a kind of I/O failure that has become an error kind.
pub proof fn lemma_io_kinds_round_trip(code: CuteErrorCode, kind: IoErrorKind)
    ensures
        code_of_io_kind(io_kind_of_code(code)) == code,
        io_kind_of_code(code_of_io_kind(kind)) == kind,
{
}

} // verus!
