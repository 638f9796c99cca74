//! Configuration, errors and the byte framing of the network transport.
//!
//! On the wire every frame is its length as a four-byte big-endian number,
//! followed by that many bytes of payload.

use vstd::prelude::*;

verus! {

/// `std::io::Error`, carried opaquely inside [`TransportError::Io`].
#[verifier::external_type_specification]
#[verifier::external_body]
pub struct ExIoError(std::io::Error);

/// `bincode::error::EncodeError`, carried opaquely inside
/// [`TransportError::Serialization`].
#[verifier::external_type_specification]
#[verifier::external_body]
pub struct ExEncodeError(bincode::error::EncodeError);

/// `bincode::error::DecodeError`, carried opaquely inside
/// [`TransportError::Deserialization`].
#[verifier::external_type_specification]
#[verifier::external_body]
pub struct ExDecodeError(bincode::error::DecodeError);

/// The kinds of I/O error that the transport tells apart.
#[derive(Clone, Copy, Debug, PartialEq, Eq, Structural)]
pub enum IoErrorKind {
    InvalidData,
    UnexpectedEof,
    ConnectionReset,
    ConnectionAborted,
    BrokenPipe,
    WouldBlock,
    /// Any kind not listed above.
    Other,
}

/// The kind of an I/O error, as `std::io::Error::kind` reports it, folded
/// into [`IoErrorKind`].
pub uninterp spec fn io_error_kind(e: std::io::Error) -> IoErrorKind;

/// Calls `std::io::Error::kind` and folds the result into [`IoErrorKind`].
/// Claimed: the result is the error's kind, which depends on the error
/// alone.
#[verifier::external_body]
fn error_kind(e: &std::io::Error) -> (r: IoErrorKind)
    ensures
        r == io_error_kind(*e),
{
    match e.kind() {
        std::io::ErrorKind::InvalidData => IoErrorKind::InvalidData,
        std::io::ErrorKind::UnexpectedEof => IoErrorKind::UnexpectedEof,
        std::io::ErrorKind::ConnectionReset => IoErrorKind::ConnectionReset,
        std::io::ErrorKind::ConnectionAborted => IoErrorKind::ConnectionAborted,
        std::io::ErrorKind::BrokenPipe => IoErrorKind::BrokenPipe,
        std::io::ErrorKind::WouldBlock => IoErrorKind::WouldBlock,
        _ => IoErrorKind::Other,
    }
}

/// Error of a transport operation.
pub enum TransportError {
    Io(std::io::Error),
    Serialization(bincode::error::EncodeError),
    Deserialization(bincode::error::DecodeError),
    ConnectionClosed,
    NotConnected,
    ChannelDisconnected,
}

/// Configuration of a network transport.
pub struct TransportConfig {
    /// Address to connect to (sender) or to bind to (receiver).
    pub address: String,
    pub port: u16,
    /// Reconnect automatically when the connection fails.
    pub auto_reconnect: bool,
    /// Delay between reconnection attempts, in milliseconds.
    pub reconnect_delay_ms: u64,
    /// Connection timeout, in milliseconds.
    pub connect_timeout_ms: u64,
}

impl Default for TransportConfig {
    fn default() -> (r: Self)
        ensures
            r.address@ == "127.0.0.1"@,
            r.port == 9876,
            r.auto_reconnect,
            r.reconnect_delay_ms == 1000,
            r.connect_timeout_ms == 5000,
    {
        TransportConfig {
            address: "127.0.0.1".to_owned(),
            port: 9876,
            auto_reconnect: true,
            reconnect_delay_ms: 1000,
            connect_timeout_ms: 5000,
        }
    }
}

impl Clone for TransportConfig {
    fn clone(&self) -> (r: Self)
        ensures
            r == *self,
    {
        TransportConfig {
            address: self.address.clone(),
            port: self.port,
            auto_reconnect: self.auto_reconnect,
            reconnect_delay_ms: self.reconnect_delay_ms,
            connect_timeout_ms: self.connect_timeout_ms,
        }
    }
}

/// The largest payload, in bytes, that a reader accepts.
pub const MAX_MESSAGE_BYTES: usize = 104857600;

/// The four bytes that announce a payload of `n` bytes (big-endian).
pub open spec fn length_header(n: nat) -> Seq<u8> {
    seq![
        (n / 16777216) as u8,
        ((n / 65536) % 256) as u8,
        ((n / 256) % 256) as u8,
        (n % 256) as u8,
    ]
}

/// The number that four header bytes announce (big-endian).
pub open spec fn header_value(h: Seq<u8>) -> nat {
    (h[0] * 16777216 + h[1] * 65536 + h[2] * 256 + h[3]) as nat
}

/// What a reader makes of a header: the payload length, or `None` where the
/// announced payload is larger than [`MAX_MESSAGE_BYTES`].
pub open spec fn announced_length(h: Seq<u8>) -> Option<nat> {
    if header_value(h) > MAX_MESSAGE_BYTES {
        None
    } else {
        Some(header_value(h))
    }
}

/// The bytes sent for one payload.
pub open spec fn packet(payload: Seq<u8>) -> Seq<u8> {
    length_header(payload.len()) + payload
}

/// Builds the I/O error that reports an announced payload that is too large,
/// with `std::io::Error::new`, kind `InvalidData` and a message naming the
/// length. Claimed: the error's kind is `InvalidData`, which
/// `std::io::Error::new` documents; its message is left unstated.
#[verifier::external_body]
fn message_too_large(len: usize) -> (r: std::io::Error)
    ensures
        io_error_kind(r) == IoErrorKind::InvalidData,
{
    std::io::Error::new(std::io::ErrorKind::InvalidData, format!("Message too large: {len} bytes"))
}

/// The bytes to write for one payload: its length header, then the payload.
pub fn encode_packet(payload: &Vec<u8>) -> (r: Vec<u8>)
    requires
        payload@.len() <= u32::MAX,
    ensures
        r@ == packet(payload@),
{
    let n: usize = payload.len();
    let mut out: Vec<u8> = Vec::new();
    out.push((n / 16777216) as u8);
    out.push(((n / 65536) % 256) as u8);
    out.push(((n / 256) % 256) as u8);
    out.push((n % 256) as u8);
    let mut i: usize = 0;
    while i < n
        invariant
            n == payload@.len(),
            i <= n,
            out@ == length_header(n as nat) + payload@.subrange(0, i as int),
        decreases n - i,
    {
        out.push(payload[i]);
        i = i + 1;
        proof {
            assert(payload@.subrange(0, i as int) == payload@.subrange(0, i - 1).push(payload@[i - 1]));
        }
    }
    proof {
        assert(payload@.subrange(0, n as int) == payload@);
    }
    out
}

/// Reads a length header: the payload length, or an I/O error of kind
/// `InvalidData` when the announced payload is larger than
/// [`MAX_MESSAGE_BYTES`].
pub fn decode_length_header(header: [u8; 4]) -> (r: Result<usize, TransportError>)
    ensures
        match announced_length(header@) {
            Some(n) => r == Ok::<usize, TransportError>(n as usize),
            None => r matches Err(TransportError::Io(e)) && io_error_kind(e) == IoErrorKind::InvalidData,
        },
{
    let len: u64 = header[0] as u64 * 16777216 + header[1] as u64 * 65536 + header[2] as u64 * 256
        + header[3] as u64;
    if len > MAX_MESSAGE_BYTES as u64 {
        Err(TransportError::Io(message_too_large(len as usize)))
    } else {
        Ok(len as usize)
    }
}

/// The I/O error kinds that mean the connection is gone: the peer closed it
/// or it broke.
pub open spec fn is_lost_connection_kind(k: IoErrorKind) -> bool {
    ||| k == IoErrorKind::UnexpectedEof
    ||| k == IoErrorKind::ConnectionReset
    ||| k == IoErrorKind::ConnectionAborted
    ||| k == IoErrorKind::BrokenPipe
}

/// Whether a failed read means that the connection is lost, so that the
/// reader drops its stream and reports [`TransportError::ConnectionClosed`]:
/// an I/O error of a kind that [`is_lost_connection_kind`] lists.
pub fn is_connection_lost(err: &TransportError) -> (r: bool)
    ensures
        r == (*err matches TransportError::Io(e) && is_lost_connection_kind(io_error_kind(e))),
{
    match err {
        TransportError::Io(e) => {
            let k = error_kind(e);
            match k {
                IoErrorKind::UnexpectedEof | IoErrorKind::ConnectionReset | IoErrorKind::ConnectionAborted
                | IoErrorKind::BrokenPipe => true,
                _ => false,
            }
        },
        _ => false,
    }
}

/// A header announces the length it was written for.
pub proof fn lemma_length_header_roundtrip(n: nat)
    requires
        n <= u32::MAX,
    ensures
        length_header(n).len() == 4,
        header_value(length_header(n)) == n,
{
    let h = length_header(n);
    assert(h[0] == n / 16777216);
    assert(h[1] == (n / 65536) % 256);
    assert(h[2] == (n / 256) % 256);
    assert(h[3] == n % 256);
}

/// A packet whose payload is no larger than [`MAX_MESSAGE_BYTES`] is read back
/// whole: its header announces the payload length, and the bytes after the
/// header are the payload.
pub proof fn law_packet_roundtrip(payload: Seq<u8>)
    requires
        payload.len() <= MAX_MESSAGE_BYTES,
    ensures
        announced_length(packet(payload).subrange(0, 4)) == Some(payload.len()),
        packet(payload).subrange(4, packet(payload).len() as int) == payload,
{
    lemma_length_header_roundtrip(payload.len());
    assert(packet(payload).subrange(0, 4) == length_header(payload.len()));
    assert(packet(payload).subrange(4, packet(payload).len() as int) == payload);
}

/// The header is big-endian: a length below 256 is its last byte after
/// three zero bytes, and multiplying a length by 256 moves every byte one
/// place to the front, a zero byte coming in at the end.
pub proof fn law_length_header_is_big_endian(n: nat)
    ensures
        n < 256 ==> length_header(n) == seq![0u8, 0u8, 0u8, n as u8],
        n < 16777216 ==> length_header(256 * n) == length_header(n).subrange(1, 4).push(0u8),
{
    if n < 16777216 {
        let m = 256 * n;
        assert(m / 16777216 == n / 65536) by (nonlinear_arith) requires m == 256 * n;
        assert((m / 65536) % 256 == (n / 256) % 256) by (nonlinear_arith) requires m == 256 * n;
        assert((m / 256) % 256 == n % 256) by (nonlinear_arith) requires m == 256 * n;
        assert(m % 256 == 0) by (nonlinear_arith) requires m == 256 * n;
        assert(n / 65536 < 256) by (nonlinear_arith) requires n < 16777216;
        assert(length_header(m) =~= length_header(n).subrange(1, 4).push(0u8));
    }
    if n < 256 {
        assert(length_header(n) =~= seq![0u8, 0u8, 0u8, n as u8]);
    }
}

} // verus!
