use vstd::prelude::*;
use vstd::string::StringExecFns;

verus! {

/// Why a hex string could not be decoded.
#[derive(Debug, Clone, Copy, PartialEq, Eq, Structural)]
pub enum HexError {
    /// A byte that is not one of `0-9`, `a-f`, `A-F`, read as a `char`,
    /// at the given byte position.
    InvalidHexCharacter { c: char, index: usize },
    /// The input holds an odd number of bytes.
    OddLength,
    /// The input does not have the length that the output needs.
    InvalidStringLength,
}

/// Why a receive from a channel found nothing.
#[derive(Debug, Clone, Copy, PartialEq, Eq, Structural)]
pub enum RecvError {
    /// Nothing is waiting in the channel right now.
    Empty,
    /// The sending side has gone away.
    Disconnected,
}

/// Why a database filter could not be built.
#[derive(Debug, Clone, Copy, PartialEq, Eq, Structural)]
pub enum DbFilterError {
    FieldAlreadyExists,
    FieldAlreadyStarted,
}

/// Why a database operation failed.
#[derive(Debug, Clone, PartialEq, Eq)]
pub enum DbError {
    DbOpenFailed,
    NotFound,
    DecodeError,
    QueryError,
    NoteProcessFailed,
    TransactionFailed,
    SubscriptionError,
    BufferOverflow,
    CString,
    Filter(DbFilterError),
    /// An I/O failure, with its message.
    IO(String),
}

impl DbError {
    /// Whether a profile lookup that failed this way is answered by asking
    /// the relays for it: only when the profile was not found.
    pub fn asks_relays(&self) -> (ask: bool)
        ensures
            ask == (*self is NotFound),
    {
        match self {
            DbError::NotFound => true,
            _ => false,
        }
    }
}

/// Errors of the library.
#[derive(Debug)]
pub enum Error {
    /// The relay url uses the unencrypted `ws://` scheme.
    InsecureConnection,
    /// The websocket layer failed, with its message.
    WsError(String),
    /// The relay is not connected.
    NotConnected,
    /// The database failed.
    DbError(DbError),
    /// The relay is already known.
    AlreadyConnected,
    /// A hex string could not be decoded.
    HexError(HexError),
    /// A byte slice did not have the length of the array it was read into.
    TryFromSliceError,
    /// A channel receive failed.
    TryRecvError(RecvError),
}

/// The text that `hex` gives for an invalid character at a position.
pub uninterp spec fn invalid_hex_character_text(c: char, index: usize) -> Seq<char>;

/// The text of a hex decoding error.
pub open spec fn hex_error_text(h: HexError) -> Seq<char> {
    match h {
        HexError::InvalidHexCharacter { c, index } => invalid_hex_character_text(c, index),
        HexError::OddLength => "Odd number of digits"@,
        HexError::InvalidStringLength => "Invalid string length"@,
    }
}

/// Calls the `Display` of `hex::FromHexError` on the error with the same
/// variant and fields: "Odd number of digits", "Invalid string length", or
/// the text for an invalid character at a position, which depends on the
/// character and the position alone.
#[verifier::external_body]
fn hex_error_message(h: HexError) -> (s: String)
    ensures
        h matches HexError::InvalidHexCharacter { c, index } ==> s@ == invalid_hex_character_text(
            c,
            index,
        ),
        h is OddLength ==> s@ == "Odd number of digits"@,
        h is InvalidStringLength ==> s@ == "Invalid string length"@,
{
    let e = match h {
        HexError::InvalidHexCharacter { c, index } => hex::FromHexError::InvalidHexCharacter {
            c,
            index,
        },
        HexError::OddLength => hex::FromHexError::OddLength,
        HexError::InvalidStringLength => hex::FromHexError::InvalidStringLength,
    };
    e.to_string()
}

/// The text of a database error.
pub open spec fn db_error_text(d: DbError) -> Seq<char> {
    match d {
        DbError::DbOpenFailed => "Database open failed"@,
        DbError::NotFound => "Not found"@,
        DbError::DecodeError => "Decode error"@,
        DbError::QueryError => "Query failed"@,
        DbError::NoteProcessFailed => "Note process failed"@,
        DbError::TransactionFailed => "Transaction failed"@,
        DbError::SubscriptionError => "Subscription failed"@,
        DbError::BufferOverflow => "Buffer overflow"@,
        DbError::CString => "CString failed"@,
        DbError::Filter(DbFilterError::FieldAlreadyExists) => "Filter error: Field already exists"@,
        DbError::Filter(DbFilterError::FieldAlreadyStarted) => "Filter error: Field already started"@,
        DbError::IO(m) => "IO error: "@ + m@,
    }
}

/// The text of an error.
pub open spec fn error_text(e: Error) -> Seq<char> {
    match e {
        Error::InsecureConnection => "connection is not wss, will not connect!"@,
        Error::NotConnected => "not connected, cannot send message."@,
        Error::AlreadyConnected => "already connected to this relay."@,
        Error::WsError(m) => m@,
        Error::DbError(d) => db_error_text(d),
        Error::HexError(h) => hex_error_text(h),
        Error::TryFromSliceError => "could not convert slice to array"@,
        Error::TryRecvError(RecvError::Empty) => "receiving on an empty channel"@,
        Error::TryRecvError(RecvError::Disconnected) => "receiving on a closed channel"@,
    }
}

impl DbError {
    /// The text that describes this database error.
    pub fn message(&self) -> (s: String)
        ensures
            s@ == db_error_text(*self),
    {
        match self {
            DbError::DbOpenFailed => "Database open failed".to_owned(),
            DbError::NotFound => "Not found".to_owned(),
            DbError::DecodeError => "Decode error".to_owned(),
            DbError::QueryError => "Query failed".to_owned(),
            DbError::NoteProcessFailed => "Note process failed".to_owned(),
            DbError::TransactionFailed => "Transaction failed".to_owned(),
            DbError::SubscriptionError => "Subscription failed".to_owned(),
            DbError::BufferOverflow => "Buffer overflow".to_owned(),
            DbError::CString => "CString failed".to_owned(),
            DbError::Filter(DbFilterError::FieldAlreadyExists) => "Filter error: Field already exists".to_owned(),
            DbError::Filter(DbFilterError::FieldAlreadyStarted) => "Filter error: Field already started".to_owned(),
            DbError::IO(m) => {
                let mut s = "IO error: ".to_owned();
                s.append(m.as_str());
                s
            },
        }
    }
}

impl Error {
    /// The text that describes this error.
    pub fn message(&self) -> (s: String)
        ensures
            s@ == error_text(*self),
    {
        match self {
            Error::InsecureConnection => "connection is not wss, will not connect!".to_owned(),
            Error::NotConnected => "not connected, cannot send message.".to_owned(),
            Error::AlreadyConnected => "already connected to this relay.".to_owned(),
            Error::WsError(m) => m.clone(),
            Error::DbError(d) => d.message(),
            Error::HexError(h) => hex_error_message(*h),
            Error::TryFromSliceError => "could not convert slice to array".to_owned(),
            Error::TryRecvError(RecvError::Empty) => "receiving on an empty channel".to_owned(),
            Error::TryRecvError(RecvError::Disconnected) => "receiving on a closed channel".to_owned(),
        }
    }
}

} // verus!
