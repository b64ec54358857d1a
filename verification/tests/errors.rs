use enostr::error::{DbError, DbFilterError, Error, HexError, RecvError};
use enostr::Pubkey;

#[test]
fn fixed_messages() {
    assert_eq!(Error::InsecureConnection.message(), "connection is not wss, will not connect!");
    assert_eq!(Error::NotConnected.message(), "not connected, cannot send message.");
    assert_eq!(Error::AlreadyConnected.message(), "already connected to this relay.");
    assert_eq!(Error::WsError("boom".to_string()).message(), "boom");
    assert_eq!(Error::TryFromSliceError.message(), "could not convert slice to array");
    assert_eq!(Error::TryRecvError(RecvError::Empty).message(), "receiving on an empty channel");
    assert_eq!(
        Error::TryRecvError(RecvError::Disconnected).message(),
        "receiving on a closed channel"
    );
}

#[test]
fn database_messages() {
    assert_eq!(Error::DbError(DbError::NotFound).message(), "Not found");
    assert_eq!(DbError::CString.message(), "CString failed");
    assert_eq!(
        DbError::Filter(DbFilterError::FieldAlreadyStarted).message(),
        "Filter error: Field already started"
    );
    assert_eq!(DbError::IO("disk full".to_string()).message(), "IO error: disk full");
}

#[test]
fn hex_messages() {
    assert_eq!(Error::HexError(HexError::OddLength).message(), "Odd number of digits");
    assert_eq!(Error::HexError(HexError::InvalidStringLength).message(), "Invalid string length");
    let e = Pubkey::from_hex(&"0g".repeat(32)).unwrap_err();
    assert_eq!(e.message(), "Invalid character 'g' at position 1");
}

#[test]
fn messages_match_std_texts() {
    let empty: &[u8] = &[];
    let slice_err = <[u8; 1]>::try_from(empty).unwrap_err();
    assert_eq!(Error::TryFromSliceError.message(), slice_err.to_string());
    assert_eq!(
        Error::TryRecvError(RecvError::Empty).message(),
        std::sync::mpsc::TryRecvError::Empty.to_string()
    );
    assert_eq!(
        Error::TryRecvError(RecvError::Disconnected).message(),
        std::sync::mpsc::TryRecvError::Disconnected.to_string()
    );
}
