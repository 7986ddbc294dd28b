//! Reader for SSL log files (`SSL_LOG_FILE` v1, optionally gzip).
//!
//! Record layout (big-endian): `i64` receive timestamp [ns], `i32` type, `i32`
//! size, payload. Types: 2 legacy vision, 3 referee, 4 vision
//! (`SSL_WrapperPacket`), 5 tracker (`TrackerWrapperPacket`), 6 index.
use vstd::prelude::*;

use crate::net::wire;
use crate::text;

verus! {

/// Type of a referee record.
pub const KIND_REFEREE: i32 = 3;

/// Type of a vision record.
pub const KIND_VISION: i32 = 4;

/// Type of a tracker record.
pub const KIND_TRACKER: i32 = 5;

/// The version of the file format that is understood.
pub const LOG_VERSION: i32 = 1;

/// One record, with messages of the types `V`, `R` and `T`.
#[derive(Clone, Debug, PartialEq, Eq)]
pub enum Record<V, R, T> {
    /// SSL vision wrapper packet (detection and/or geometry).
    Vision(V),
    /// Game-controller referee message.
    Referee(R),
    /// Tracker (autoref / game-controller ball tracker) packet.
    Tracker(T),
    /// Anything else (legacy vision, index, unknown, undecodable).
    Other {
        /// Raw type id.
        kind: i32,
        /// Payload length.
        len: usize,
    },
}

/// A record with its log receive time.
#[derive(Clone, Debug, PartialEq, Eq)]
pub struct Entry<V, R, T> {
    /// Receive timestamp [ns] as written by the logger (wall clock).
    pub time_ns: i64,
    /// The record.
    pub record: Record<V, R, T>,
}

/// Why a log could not be opened or read on.
#[derive(Clone, Debug, PartialEq, Eq)]
pub enum LogError {
    /// The file ends within its header.
    ShortHeader,
    /// The file does not start as a log does; these are its first bytes.
    NotALog(Vec<u8>),
    /// A version that is not understood.
    Version(i32),
    /// A record with a negative size.
    NegativeSize {
        /// The size.
        size: i32,
        /// How many records were read before it.
        record: u64,
    },
    /// The file ends within a record's payload.
    ShortPayload,
    /// The compressed data is corrupt within the file's header.
    CorruptHeader,
    /// The compressed data is corrupt within a record's payload.
    CorruptPayload,
    /// The compressed data is corrupt where a record should start.
    Corrupt,
}

/// What is said of a file that starts otherwise than a log does, as `header` shows.
pub fn not_a_log(header: &str) -> (res: String)
    ensures
        res@ == "not an SSL log file: header "@ + header@,
{
    text::join("not an SSL log file: header ", header)
}

impl LogError {
    /// What the error says to a reader.
    pub open spec fn spec_message(self) -> Seq<char> {
        match self {
            LogError::ShortHeader | LogError::CorruptHeader => "read log header"@,
            LogError::NotALog(header) => "not an SSL log file: header "@ + text::quoted(
                text::lossy(header@),
            ),
            LogError::Version(v) => "unsupported SSL log version "@ + text::signed_decimal(
                v as int,
            ),
            LogError::NegativeSize { size, record } => (("negative record size "@
                + text::signed_decimal(size as int)) + " at record "@) + text::decimal(
                record as nat,
            ),
            LogError::ShortPayload | LogError::CorruptPayload => "read record payload"@,
            LogError::Corrupt => "corrupt gzip stream"@,
        }
    }

    /// What the error says to a reader.
    pub fn message(&self) -> (res: String)
        ensures
            res@ == self.spec_message(),
    {
        match self {
            LogError::ShortHeader | LogError::CorruptHeader => "read log header".to_owned(),
            LogError::NotALog(header) => {
                let shown = text::from_utf8_lossy(header.as_slice());
                let quoted = text::quote(shown.as_str());
                not_a_log(quoted.as_str())
            },
            LogError::Version(v) => {
                let digits = text::to_signed_decimal(*v as i64);
                text::join("unsupported SSL log version ", digits.as_str())
            },
            LogError::NegativeSize { size, record } => {
                let digits = text::to_signed_decimal(*size as i64);
                let a = text::join("negative record size ", digits.as_str());
                let b = text::join(a.as_str(), " at record ");
                let number = text::to_decimal(*record);
                text::join(b.as_str(), number.as_str())
            },
            LogError::ShortPayload | LogError::CorruptPayload => "read record payload".to_owned(),
            LogError::Corrupt => "corrupt gzip stream".to_owned(),
        }
    }
}

// ---------------------------------------------------------------- big-endian numbers

/// The number that bytes stand for, most significant first.
pub open spec fn big_endian(b: Seq<u8>) -> nat
    decreases b.len(),
{
    if b.len() == 0 {
        0
    } else {
        256 * big_endian(b.drop_last()) + b.last() as nat
    }
}

/// The two's complement number of 32 bits.
pub open spec fn signed32(v: nat) -> int {
    if v >= 0x8000_0000 {
        v - 0x1_0000_0000
    } else {
        v as int
    }
}

/// The two's complement number of 64 bits.
pub open spec fn signed64(v: nat) -> int {
    if v >= 0x8000_0000_0000_0000 {
        v - 0x1_0000_0000_0000_0000
    } else {
        v as int
    }
}

/// `v` as `n` bytes, most significant first.
pub open spec fn be_bytes(v: nat, n: nat) -> Seq<u8>
    decreases n,
{
    if n == 0 {
        seq![]
    } else {
        be_bytes(v / 256, (n - 1) as nat).push((v % 256) as u8)
    }
}

/// 256 to the power of `n`.
pub open spec fn power256(n: nat) -> nat
    decreases n,
{
    if n == 0 {
        1
    } else {
        256 * power256((n - 1) as nat)
    }
}

proof fn lemma_be_bytes(v: nat, n: nat)
    requires
        v < power256(n),
    ensures
        be_bytes(v, n).len() == n,
        big_endian(be_bytes(v, n)) == v,
    decreases n,
{
    if n > 0 {
        lemma_be_bytes(v / 256, (n - 1) as nat);
        let b = be_bytes(v, n);
        assert(b.drop_last() =~= be_bytes(v / 256, (n - 1) as nat));
    }
}

proof fn lemma_big_endian_bound(b: Seq<u8>)
    ensures
        big_endian(b) < power256(b.len()),
    decreases b.len(),
{
    if b.len() > 0 {
        lemma_big_endian_bound(b.drop_last());
    }
}

proof fn lemma_powers()
    ensures
        power256(4) == 0x1_0000_0000,
        power256(8) == 0x1_0000_0000_0000_0000,
{
    reveal_with_fuel(power256, 9);
}

/// The number in `len` bytes from `at`.
fn read_number(data: &Vec<u8>, at: usize, len: usize) -> (res: u64)
    requires
        len <= 8,
        at + len <= data@.len(),
    ensures
        res == big_endian(data@.subrange(at as int, at + len)),
{
    let total: usize = data.len();
    let mut v: u64 = 0;
    let mut i: usize = 0;
    assert(data@.subrange(at as int, at as int) =~= Seq::<u8>::empty());
    while i < len
        invariant
            i <= len <= 8,
            at + len <= data@.len(),
            total == data@.len(),
            v == big_endian(data@.subrange(at as int, at + i)),
        decreases len - i,
    {
        proof {
            let s = data@.subrange(at as int, at + i + 1);
            assert(s.drop_last() =~= data@.subrange(at as int, at + i));
            assert(s.last() == data@[at + i]);
            lemma_big_endian_bound(s);
            lemma_power_grows(s.len(), 8);
            lemma_powers();
        }
        v = v * 256 + data[at + i] as u64;
        i += 1;
    }
    v
}

proof fn lemma_power_grows(a: nat, b: nat)
    requires
        a <= b,
    ensures
        power256(a) <= power256(b),
    decreases b,
{
    if a < b {
        lemma_power_grows(a, (b - 1) as nat);
    }
}

fn read_i32(data: &Vec<u8>, at: usize) -> (res: i32)
    requires
        at + 4 <= data@.len(),
    ensures
        res == signed32(big_endian(data@.subrange(at as int, at + 4))),
{
    let v = read_number(data, at, 4);
    proof {
        lemma_big_endian_bound(data@.subrange(at as int, at + 4));
        lemma_powers();
    }
    if v >= 0x8000_0000 {
        (v as i64 - 0x1_0000_0000) as i32
    } else {
        v as i32
    }
}

fn read_i64(data: &Vec<u8>, at: usize) -> (res: i64)
    requires
        at + 8 <= data@.len(),
    ensures
        res == signed64(big_endian(data@.subrange(at as int, at + 8))),
{
    let v = read_number(data, at, 8);
    if v >= 0x8000_0000_0000_0000 {
        (v as i128 - 0x1_0000_0000_0000_0000) as i64
    } else {
        v as i64
    }
}

fn copy_range(data: &Vec<u8>, from: usize, to: usize) -> (res: Vec<u8>)
    requires
        from <= to <= data@.len(),
    ensures
        res@ == data@.subrange(from as int, to as int),
{
    let mut out: Vec<u8> = Vec::new();
    let mut i: usize = from;
    while i < to
        invariant
            from <= i <= to <= data@.len(),
            out@ == data@.subrange(from as int, i as int),
        decreases to - i,
    {
        out.push(data[i]);
        i += 1;
        assert(data@.subrange(from as int, i as int) =~= data@.subrange(from as int, i - 1).push(
            data@[i - 1],
        ));
    }
    out
}

// ---------------------------------------------------------------- compression

/// How a stream of bytes ends.
#[derive(Clone, Copy, Debug, PartialEq, Eq, Structural)]
pub enum StreamEnd {
    /// At its end.
    Complete,
    /// Cut off.
    Cut,
    /// In data that makes no sense.
    Corrupt,
}

/// What came of asking a stream for a number of bytes.
#[derive(Clone, Debug, PartialEq, Eq)]
pub enum Chunk {
    /// As many as asked for.
    Bytes(Vec<u8>),
    /// The stream ended before.
    End,
    /// The stream broke before.
    Fault,
}

/// What came of asking a stream for a number of bytes, as a value.
pub enum Got {
    /// As many as asked for.
    Bytes(Seq<u8>),
    /// The stream ended before.
    End,
    /// The stream broke before.
    Fault,
}

impl Chunk {
    /// The outcome as a value.
    pub open spec fn view(&self) -> Got {
        match *self {
            Chunk::Bytes(b) => Got::Bytes(b@),
            Chunk::End => Got::End,
            Chunk::Fault => Got::Fault,
        }
    }
}

/// Whether asking a stream for `n` bytes can come to `g`. The stream is what it
/// holds up to its end or first fault, and how it ends. A whole stream gives every
/// byte it holds. One that is cut off or corrupt may stop before the fault.
pub open spec fn possible(s: (Seq<u8>, StreamEnd), n: int, g: Got) -> bool {
    match g {
        Got::Bytes(b) => 0 <= n <= s.0.len() && b == s.0.take(n),
        Got::End => !(s.1 is Corrupt) && (s.1 is Complete ==> s.0.len() < n),
        Got::Fault => s.1 is Corrupt,
    }
}

/// What asking a whole stream for `n` bytes comes to.
pub open spec fn asked(b: Seq<u8>, n: int) -> Got {
    if n <= b.len() {
        Got::Bytes(b.take(n))
    } else {
        Got::End
    }
}

/// A whole stream that could not give as much as was asked for is at most shorter
/// than before.
pub open spec fn ran_out(s: (Seq<u8>, StreamEnd), rest: (Seq<u8>, StreamEnd)) -> bool {
    s.1 is Complete ==> exists|k: int|
        0 <= k <= s.0.len() && rest == (#[trigger] s.0.skip(k), StreamEnd::Complete)
}

/// The bytes of a file as a stream; trusted declaration of std's type, nothing is
/// claimed of it.
#[verifier::external_type_specification]
#[verifier::external_body]
#[verifier::reject_recursive_types(T)]
pub struct ExCursor<T>(std::io::Cursor<T>);

/// Trusted declaration of flate2's decoder of gzip files; nothing is claimed of it.
#[verifier::external_type_specification]
#[verifier::external_body]
#[verifier::reject_recursive_types(R)]
pub struct ExMultiGzDecoder<R>(flate2::read::MultiGzDecoder<R>);

/// What the members of a gzip file decompress to, up to the end of the file or the
/// first place where it is cut off or corrupt, and which of these it is.
pub uninterp spec fn gunzipped(bytes: Seq<u8>) -> (Seq<u8>, StreamEnd);

/// What a decoder still holds, up to its end or first fault, and how it ends.
pub uninterp spec fn pending(
    d: flate2::read::MultiGzDecoder<std::io::Cursor<Vec<u8>>>,
) -> (Seq<u8>, StreamEnd);

/// Trusted: `flate2::read::MultiGzDecoder::new`. The decoder holds what is named
/// [`gunzipped`] of the file.
#[verifier::external_body]
fn gunzip(file: Vec<u8>) -> (res: flate2::read::MultiGzDecoder<std::io::Cursor<Vec<u8>>>)
    ensures
        pending(res) == gunzipped(file@),
{
    flate2::read::MultiGzDecoder::new(std::io::Cursor::new(file))
}

/// Trusted: `read_exact` of a `flate2::read::MultiGzDecoder`. It gives the next `n`
/// bytes that the decoder holds, in order, and leaves the others; a whole file gives
/// every byte. The error tells a file that ends too early from one that is corrupt.
/// How near to the fault of a damaged file the bytes still come is not said: that
/// depends on how much is asked for at a time. Nor is what a damaged file gives
/// after an error.
#[verifier::external_body]
fn inflate(
    d: &mut flate2::read::MultiGzDecoder<std::io::Cursor<Vec<u8>>>,
    n: usize,
) -> (res: Chunk)
    ensures
        possible(pending(*old(d)), n as int, res@),
        res is Bytes ==> pending(*final(d)) == (
            pending(*old(d)).0.skip(n as int),
            pending(*old(d)).1,
        ),
        !(res is Bytes) ==> ran_out(pending(*old(d)), pending(*final(d))),
{
    let mut out: Vec<u8> = vec![0; n];
    match std::io::Read::read_exact(d, &mut out) {
        Ok(()) => Chunk::Bytes(out),
        Err(e) if e.kind() == std::io::ErrorKind::UnexpectedEof => Chunk::End,
        Err(_) => Chunk::Fault,
    }
}

/// Whether a file name extension says that the file is compressed: `gz`, in any
/// case of letters.
pub open spec fn compressed(extension: Option<&str>) -> bool {
    extension matches Some(e) && text::lowered(e@) == "gz"@
}

/// What a file holds, and how that ends.
pub open spec fn contents(extension: Option<&str>, file: Seq<u8>) -> (Seq<u8>, StreamEnd) {
    if compressed(extension) {
        gunzipped(file)
    } else {
        (file, StreamEnd::Complete)
    }
}

/// Where a log is read from.
#[derive(Debug)]
enum Input {
    /// An uncompressed file, read up to a place.
    Plain {
        /// The file.
        bytes: Vec<u8>,
        /// The place.
        pos: usize,
    },
    /// A compressed file.
    Gzip(flate2::read::MultiGzDecoder<std::io::Cursor<Vec<u8>>>),
}

impl Input {
    spec fn wf(self) -> bool {
        match self {
            Input::Plain { bytes, pos } => pos <= bytes@.len(),
            Input::Gzip(_) => true,
        }
    }

    spec fn stream(self) -> (Seq<u8>, StreamEnd) {
        match self {
            Input::Plain { bytes, pos } => (bytes@.skip(pos as int), StreamEnd::Complete),
            Input::Gzip(d) => pending(d),
        }
    }

    /// The next `n` bytes.
    fn take(&mut self, n: usize) -> (res: Chunk)
        requires
            old(self).wf(),
        ensures
            final(self).wf(),
            possible(old(self).stream(), n as int, res@),
            res is Bytes ==> final(self).stream() == (
                old(self).stream().0.skip(n as int),
                old(self).stream().1,
            ),
            !(res is Bytes) ==> ran_out(old(self).stream(), final(self).stream()),
    {
        let ghost before = self.stream();
        match self {
            Input::Plain { bytes, pos } => {
                let at: usize = *pos;
                let total: usize = bytes.len();
                if total - at < n {
                    *pos = total;
                    assert(bytes@.skip(total as int) =~= before.0.skip(before.0.len() as int));
                    Chunk::End
                } else {
                    let out = copy_range(bytes, at, at + n);
                    *pos = at + n;
                    assert(out@ =~= before.0.take(n as int));
                    assert(bytes@.skip(at + n) =~= before.0.skip(n as int));
                    Chunk::Bytes(out)
                }
            },
            Input::Gzip(d) => inflate(d, n),
        }
    }
}

// ---------------------------------------------------------------- framing

/// What stands in front of a record's payload.
#[derive(Clone, Copy, Debug, PartialEq, Eq, Structural)]
pub struct Head {
    /// Receive time.
    pub time_ns: i64,
    /// Type.
    pub kind: i32,
    /// Length of the payload.
    pub size: i32,
}

/// Bytes of the file header, and of what stands in front of each payload.
pub const HEAD_LEN: usize = 16;

/// Whether records of a type hold a message that is decoded.
pub open spec fn decoded_kind(kind: int) -> bool {
    kind == KIND_VISION || kind == KIND_REFEREE || kind == KIND_TRACKER
}

/// The file header: `SSL_LOG_FILE` and the version.
pub open spec fn magic() -> Seq<u8> {
    seq![83u8, 83u8, 76u8, 95u8, 76u8, 79u8, 71u8, 95u8, 70u8, 73u8, 76u8, 69u8]
}

fn is_magic(data: &Vec<u8>) -> (res: bool)
    requires
        data@.len() >= 12,
    ensures
        res == (data@.subrange(0, 12) == magic()),
{
    let ok = data[0] == 83 && data[1] == 83 && data[2] == 76 && data[3] == 95 && data[4] == 76
        && data[5] == 79 && data[6] == 71 && data[7] == 95 && data[8] == 70 && data[9] == 73
        && data[10] == 76 && data[11] == 69;
    proof {
        if ok {
            assert(data@.subrange(0, 12) =~= magic());
        } else if data@.subrange(0, 12) == magic() {
            assert forall|i: int| 0 <= i < 12 implies data@[i] == magic()[i] by {
                assert(data@.subrange(0, 12)[i] == data@[i]);
            }
        }
    }
    ok
}

/// Whether `res` is what the first 16 bytes of a file come to: nothing wrong when
/// they are the header of the understood version, else the error for what is wrong.
pub open spec fn header_checked(g: Got, res: Result<(), LogError>) -> bool {
    match g {
        Got::Bytes(b) => if b.subrange(0, 12) != magic() {
            res matches Err(LogError::NotALog(h)) && h@ == b.subrange(0, 12)
        } else if signed32(big_endian(b.subrange(12, 16))) != LOG_VERSION {
            res == Err::<(), LogError>(
                LogError::Version(signed32(big_endian(b.subrange(12, 16))) as i32),
            )
        } else {
            res is Ok
        },
        Got::End => res == Err::<(), LogError>(LogError::ShortHeader),
        Got::Fault => res == Err::<(), LogError>(LogError::CorruptHeader),
    }
}

/// Check the first 16 bytes of a file.
pub fn check_header(c: &Chunk) -> (res: Result<(), LogError>)
    requires
        c matches Chunk::Bytes(b) ==> b@.len() == HEAD_LEN,
    ensures
        header_checked(c@, res),
{
    match c {
        Chunk::Bytes(b) => {
            if !is_magic(b) {
                return Err(LogError::NotALog(copy_range(b, 0, 12)));
            }
            let version = read_i32(b, 12);
            if version != LOG_VERSION {
                return Err(LogError::Version(version));
            }
            Ok(())
        },
        Chunk::End => Err(LogError::ShortHeader),
        Chunk::Fault => Err(LogError::CorruptHeader),
    }
}

/// What the 16 bytes in front of a payload come to after `count` records: what they
/// say, nothing at the end of the file, or the error for a negative size or a break.
pub open spec fn head_of(g: Got, count: u64) -> Result<Option<Head>, LogError> {
    match g {
        Got::Bytes(b) => {
            let h = Head {
                time_ns: signed64(big_endian(b.subrange(0, 8))) as i64,
                kind: signed32(big_endian(b.subrange(8, 12))) as i32,
                size: signed32(big_endian(b.subrange(12, 16))) as i32,
            };
            if h.size < 0 {
                Err(LogError::NegativeSize { size: h.size, record: count })
            } else {
                Ok(Some(h))
            }
        },
        Got::End => Ok(None),
        Got::Fault => Err(LogError::Corrupt),
    }
}

/// Read what stands in front of a payload after `count` records.
pub fn read_head(c: &Chunk, count: u64) -> (res: Result<Option<Head>, LogError>)
    requires
        c matches Chunk::Bytes(b) ==> b@.len() == HEAD_LEN,
    ensures
        res == head_of(c@, count),
{
    match c {
        Chunk::Bytes(b) => {
            let time_ns = read_i64(b, 0);
            let kind = read_i32(b, 8);
            let size = read_i32(b, 12);
            if size < 0 {
                Err(LogError::NegativeSize { size, record: count })
            } else {
                Ok(Some(Head { time_ns, kind, size }))
            }
        },
        Chunk::End => Ok(None),
        Chunk::Fault => Err(LogError::Corrupt),
    }
}

/// What decoding a payload came to, by the type of its record.
#[derive(Clone, Debug, PartialEq, Eq)]
pub enum Decoded<V, R, T> {
    /// Of a vision record; none if it is no such message.
    Vision(Option<V>),
    /// Of a referee record; none if it is no such message.
    Referee(Option<R>),
    /// Of a tracker record; none if it is no such message.
    Tracker(Option<T>),
    /// Of a type that is not decoded.
    Raw,
}

/// Whether decoding was tried and failed.
pub open spec fn undecodable<V, R, T>(d: Decoded<V, R, T>) -> bool {
    match d {
        Decoded::Vision(m) => m is None,
        Decoded::Referee(m) => m is None,
        Decoded::Tracker(m) => m is None,
        Decoded::Raw => false,
    }
}

/// The record that comes of decoding: the message, or `Other` where there is none.
pub open spec fn record_of<V, R, T>(d: Decoded<V, R, T>, kind: i32, len: usize) -> Record<V, R, T> {
    match d {
        Decoded::Vision(Some(m)) => Record::Vision(m),
        Decoded::Referee(Some(m)) => Record::Referee(m),
        Decoded::Tracker(Some(m)) => Record::Tracker(m),
        _ => Record::Other { kind, len },
    }
}

/// The record that comes of decoding a payload of `len` bytes, and whether it is
/// counted as undecodable.
pub fn settle<V, R, T>(d: Decoded<V, R, T>, kind: i32, len: usize) -> (res: (
    Record<V, R, T>,
    bool,
))
    ensures
        res.0 == record_of(d, kind, len),
        res.1 == undecodable(d),
{
    match d {
        Decoded::Vision(Some(m)) => (Record::Vision(m), false),
        Decoded::Referee(Some(m)) => (Record::Referee(m), false),
        Decoded::Tracker(Some(m)) => (Record::Tracker(m), false),
        Decoded::Raw => (Record::Other { kind, len }, false),
        _ => (Record::Other { kind, len }, true),
    }
}

/// Whether a decoder can say `m` of a payload: what it says of the bytes, or that
/// they are no message where they cannot be one at all.
pub open spec fn says<M, F: Fn(&Vec<u8>) -> Option<M>>(f: F, payload: Seq<u8>, m: Option<M>) -> bool {
    if wire::walkable(payload) {
        exists|p: Vec<u8>| p@ == payload && #[trigger] call_ensures(f, (&p,), m)
    } else {
        m is None
    }
}

/// Whether decoding a payload can come to `d`.
pub open spec fn decoded_as<
    V,
    R,
    T,
    FV: Fn(&Vec<u8>) -> Option<V>,
    FR: Fn(&Vec<u8>) -> Option<R>,
    FT: Fn(&Vec<u8>) -> Option<T>,
>(vision: FV, referee: FR, tracker: FT, kind: i32, payload: Seq<u8>, d: Decoded<V, R, T>) -> bool {
    match d {
        Decoded::Vision(m) => kind == KIND_VISION && says(vision, payload, m),
        Decoded::Referee(m) => kind == KIND_REFEREE && says(referee, payload, m),
        Decoded::Tracker(m) => kind == KIND_TRACKER && says(tracker, payload, m),
        Decoded::Raw => !decoded_kind(kind as int),
    }
}

fn try_decode<M, F: Fn(&Vec<u8>) -> Option<M>>(f: &F, payload: &Vec<u8>) -> (res: Option<M>)
    requires
        forall|p: &Vec<u8>| call_requires(*f, (p,)),
    ensures
        says(*f, payload@, res),
{
    if wire::readable(payload.as_slice()) {
        f(payload)
    } else {
        None
    }
}

/// Reads a log record by record.
#[derive(Debug)]
pub struct LogReader {
    input: Input,
    count: u64,
    decode_errors: u64,
}

impl LogReader {
    /// No more records failed to decode than were read.
    pub closed spec fn wf(&self) -> bool {
        &&& self.input.wf()
        &&& self.decode_errors <= self.count
    }

    /// What is still to be read, up to its end or first fault, and how it ends.
    pub closed spec fn stream(&self) -> (Seq<u8>, StreamEnd) {
        self.input.stream()
    }

    /// Records read so far.
    pub closed spec fn spec_count(&self) -> u64 {
        self.count
    }

    /// Records that failed to decode so far.
    pub closed spec fn spec_decode_errors(&self) -> u64 {
        self.decode_errors
    }

    /// Whether opening a file with these contents gives `res` when its first 16 bytes
    /// come to `g`.
    pub open spec fn opened(
        s: (Seq<u8>, StreamEnd),
        g: Got,
        res: Result<LogReader, LogError>,
    ) -> bool {
        &&& possible(s, HEAD_LEN as int, g)
        &&& match res {
            Ok(r) => {
                &&& header_checked(g, Ok::<(), LogError>(()))
                &&& r.wf()
                &&& r.stream() == (s.0.skip(HEAD_LEN as int), s.1)
                &&& r.spec_count() == 0
                &&& r.spec_decode_errors() == 0
            },
            Err(e) => header_checked(g, Err::<(), LogError>(e)),
        }
    }

    /// Open the contents of a `.log` or `.log.gz` file, told apart by the
    /// `extension` of its name, and validate the header.
    pub fn open(extension: Option<&str>, file: Vec<u8>) -> (res: Result<LogReader, LogError>)
        ensures
            ({
                let s = contents(extension, file@);
                &&& exists|g: Got| #[trigger] LogReader::opened(s, g, res)
                &&& s.1 is Complete ==> LogReader::opened(s, asked(s.0, HEAD_LEN as int), res)
            }),
    {
        let gz = match extension {
            Some(e) => {
                let l = text::to_lower(e);
                text::same(l.as_str(), "gz")
            },
            None => false,
        };
        let ghost bytes = file@;
        let mut input = if gz {
            Input::Gzip(gunzip(file))
        } else {
            assert(bytes.skip(0) =~= bytes);
            Input::Plain { bytes: file, pos: 0 }
        };
        let ghost s = input.stream();
        let c = input.take(HEAD_LEN);
        let res = match check_header(&c) {
            Ok(()) => Ok(LogReader { input, count: 0, decode_errors: 0 }),
            Err(e) => Err(e),
        };
        assert(LogReader::opened(s, c@, res));
        res
    }

    /// Records read so far.
    pub fn count(&self) -> (res: u64)
        ensures
            res == self.spec_count(),
    {
        self.count
    }

    /// Records that failed to decode so far.
    pub fn decode_errors(&self) -> (res: u64)
        ensures
            res == self.spec_decode_errors(),
    {
        self.decode_errors
    }

    /// Whether a reader in state `a` is left in state `b` and gives `res`, when what
    /// stands in front of the payload comes to `head`, the payload to `body` and
    /// decoding it to `d`.
    pub open spec fn stepped<V, R, T>(
        a: LogReader,
        b: LogReader,
        head: Got,
        body: Got,
        d: Decoded<V, R, T>,
        res: Result<Option<Entry<V, R, T>>, LogError>,
    ) -> bool {
        let rest = (a.stream().0.skip(HEAD_LEN as int), a.stream().1);
        &&& possible(a.stream(), HEAD_LEN as int, head)
        &&& match head_of(head, a.spec_count()) {
            Ok(Some(h)) => {
                &&& possible(rest, h.size as int, body)
                &&& match body {
                    Got::Bytes(payload) => {
                        &&& b.stream() == (rest.0.skip(h.size as int), rest.1)
                        &&& b.spec_count() == a.spec_count() + 1
                        &&& b.spec_decode_errors() == a.spec_decode_errors() + (if undecodable(d) {
                            1int
                        } else {
                            0
                        })
                        &&& res == Ok::<Option<Entry<V, R, T>>, LogError>(
                            Some(
                                Entry {
                                    time_ns: h.time_ns,
                                    record: record_of(d, h.kind, payload.len() as usize),
                                },
                            ),
                        )
                    },
                    Got::End => {
                        &&& ran_out(rest, b.stream())
                        &&& a.same_counts(b)
                        &&& res == Err::<Option<Entry<V, R, T>>, LogError>(LogError::ShortPayload)
                    },
                    Got::Fault => {
                        &&& a.same_counts(b)
                        &&& res == Err::<Option<Entry<V, R, T>>, LogError>(LogError::CorruptPayload)
                    },
                }
            },
            Ok(None) => {
                &&& ran_out(a.stream(), b.stream())
                &&& a.same_counts(b)
                &&& res == Ok::<Option<Entry<V, R, T>>, LogError>(None)
            },
            Err(e) => {
                &&& head is Bytes ==> b.stream() == rest
                &&& a.same_counts(b)
                &&& res == Err::<Option<Entry<V, R, T>>, LogError>(e)
            },
        }
    }

    /// Both readers have counted the same.
    pub open spec fn same_counts(&self, o: LogReader) -> bool {
        self.spec_count() == o.spec_count() && self.spec_decode_errors() == o.spec_decode_errors()
    }

    /// Read the next record; `Ok(None)` at end of file. The payload of an understood
    /// type is handed to the decoder for it; a record whose payload is no such
    /// message is counted and taken as `Other`.
    pub fn next_entry<
        V,
        R,
        T,
        FV: Fn(&Vec<u8>) -> Option<V>,
        FR: Fn(&Vec<u8>) -> Option<R>,
        FT: Fn(&Vec<u8>) -> Option<T>,
    >(&mut self, vision: FV, referee: FR, tracker: FT) -> (res: Result<
        Option<Entry<V, R, T>>,
        LogError,
    >)
        requires
            old(self).wf(),
            old(self).spec_count() < u64::MAX,
            forall|p: &Vec<u8>| call_requires(vision, (p,)),
            forall|p: &Vec<u8>| call_requires(referee, (p,)),
            forall|p: &Vec<u8>| call_requires(tracker, (p,)),
        ensures
            final(self).wf(),
            exists|head: Got, body: Got, d: Decoded<V, R, T>|
                {
                    &&& #[trigger] LogReader::stepped(*old(self), *final(self), head, body, d, res)
                    &&& head_of(head, old(self).spec_count()) matches Ok(Some(h)) ==> (
                    body matches Got::Bytes(payload) ==> decoded_as(
                        vision,
                        referee,
                        tracker,
                        h.kind,
                        payload,
                        d,
                    ))
                },
    {
        let ghost start = *self;
        let top = self.input.take(HEAD_LEN);
        let head = match read_head(&top, self.count) {
            Ok(Some(h)) => h,
            Ok(None) => {
                assert(LogReader::stepped(start, *self, top@, Got::End, Decoded::<V, R, T>::Raw, Ok(None)));
                return Ok(None);
            },
            Err(e) => {
                assert(LogReader::stepped(
                    start,
                    *self,
                    top@,
                    Got::End,
                    Decoded::<V, R, T>::Raw,
                    Err(e),
                ));
                return Err(e);
            },
        };
        let body = self.input.take(head.size as usize);
        let ghost seen = body@;
        let payload = match body {
            Chunk::Bytes(b) => b,
            Chunk::End => {
                assert(LogReader::stepped(
                    start,
                    *self,
                    top@,
                    seen,
                    Decoded::<V, R, T>::Raw,
                    Err(LogError::ShortPayload),
                ));
                return Err(LogError::ShortPayload);
            },
            Chunk::Fault => {
                assert(LogReader::stepped(
                    start,
                    *self,
                    top@,
                    seen,
                    Decoded::<V, R, T>::Raw,
                    Err(LogError::CorruptPayload),
                ));
                return Err(LogError::CorruptPayload);
            },
        };
        self.count = self.count + 1;
        let d = if head.kind == KIND_VISION {
            Decoded::Vision(try_decode(&vision, &payload))
        } else if head.kind == KIND_REFEREE {
            Decoded::Referee(try_decode(&referee, &payload))
        } else if head.kind == KIND_TRACKER {
            Decoded::Tracker(try_decode(&tracker, &payload))
        } else {
            Decoded::Raw
        };
        let ghost what = d;
        let (record, failed) = settle(d, head.kind, payload.len());
        if failed {
            self.decode_errors = self.decode_errors + 1;
        }
        let res = Ok(Some(Entry { time_ns: head.time_ns, record }));
        assert(LogReader::stepped(start, *self, top@, seen, what, res));
        res
    }
}

/// A record as the logger writes it.
pub open spec fn written(time: i64, kind: i32, payload: Seq<u8>) -> Seq<u8> {
    be_bytes(
        if time < 0 {
            (time + 0x1_0000_0000_0000_0000) as nat
        } else {
            time as nat
        },
        8,
    ) + be_bytes(
        if kind < 0 {
            (kind + 0x1_0000_0000) as nat
        } else {
            kind as nat
        },
        4,
    ) + be_bytes(payload.len(), 4) + payload
}

/// A record that was written is read back as it was, whatever follows it, and
/// reading goes on right behind it.
pub proof fn law_written_records_are_read_back(
    time: i64,
    kind: i32,
    payload: Seq<u8>,
    rest: Seq<u8>,
    count: u64,
)
    requires
        payload.len() <= i32::MAX,
    ensures
        ({
            let b = written(time, kind, payload) + rest;
            let after = b.skip(HEAD_LEN as int);
            &&& head_of(asked(b, HEAD_LEN as int), count) == Ok::<Option<Head>, LogError>(
                Some(Head { time_ns: time, kind, size: payload.len() as i32 }),
            )
            &&& asked(after, payload.len() as int) == Got::Bytes(payload)
            &&& after.skip(payload.len() as int) == rest
        }),
{
    lemma_powers();
    let t = if time < 0 {
        (time + 0x1_0000_0000_0000_0000) as nat
    } else {
        time as nat
    };
    let k = if kind < 0 {
        (kind + 0x1_0000_0000) as nat
    } else {
        kind as nat
    };
    lemma_be_bytes(t, 8);
    lemma_be_bytes(k, 4);
    lemma_be_bytes(payload.len(), 4);
    let b = written(time, kind, payload) + rest;
    let head = b.take(HEAD_LEN as int);
    assert(head.subrange(0, 8) =~= be_bytes(t, 8));
    assert(head.subrange(8, 12) =~= be_bytes(k, 4));
    assert(head.subrange(12, 16) =~= be_bytes(payload.len(), 4));
    let after = b.skip(HEAD_LEN as int);
    assert(after.take(payload.len() as int) =~= payload);
    assert(after.skip(payload.len() as int) =~= rest);
}

/// The next record of a whole log that goes on with a written record is that record,
/// and what follows it is left.
pub proof fn law_the_next_entry_is_the_written_record<V, R, T>(
    a: LogReader,
    b: LogReader,
    head: Got,
    body: Got,
    d: Decoded<V, R, T>,
    res: Result<Option<Entry<V, R, T>>, LogError>,
    time: i64,
    kind: i32,
    payload: Seq<u8>,
    rest: Seq<u8>,
)
    requires
        payload.len() <= i32::MAX,
        a.stream() == (written(time, kind, payload) + rest, StreamEnd::Complete),
        LogReader::stepped(a, b, head, body, d, res),
    ensures
        body == Got::Bytes(payload),
        res == Ok::<Option<Entry<V, R, T>>, LogError>(
            Some(Entry { time_ns: time, record: record_of(d, kind, payload.len() as usize) }),
        ),
        b.stream() == (rest, StreamEnd::Complete),
        b.spec_count() == a.spec_count() + 1,
{
    law_written_records_are_read_back(time, kind, payload, rest, a.spec_count());
    let all = written(time, kind, payload) + rest;
    law_whole_streams_give_what_they_hold(all, HEAD_LEN as int, head);
    law_whole_streams_give_what_they_hold(
        all.skip(HEAD_LEN as int),
        payload.len() as int,
        body,
    );
}

/// Damage only makes reading stop: a record that is read from a file that is cut off
/// or corrupt is the one that a whole file with the same contents gives.
pub proof fn law_damage_only_stops_reading<V, R, T>(
    a: LogReader,
    b: LogReader,
    head: Got,
    body: Got,
    d: Decoded<V, R, T>,
    res: Result<Option<Entry<V, R, T>>, LogError>,
)
    requires
        LogReader::stepped(a, b, head, body, d, res),
        res matches Ok(Some(_)),
    ensures
        head == asked(a.stream().0, HEAD_LEN as int),
        head_of(head, a.spec_count()) matches Ok(Some(h)) && body == asked(
            a.stream().0.skip(HEAD_LEN as int),
            h.size as int,
        ),
        b.stream().1 == a.stream().1,
{
}

/// Asking a whole stream has one outcome.
pub proof fn law_whole_streams_give_what_they_hold(b: Seq<u8>, n: int, g: Got)
    requires
        n >= 0,
    ensures
        possible((b, StreamEnd::Complete), n, g) <==> g == asked(b, n),
{
}

/// Of four bytes the first counts most, in two's complement.
pub proof fn law_big_endian_numbers(b: Seq<u8>)
    ensures
        b.len() == 4 ==> big_endian(b) == 0x100_0000 * b[0] + 0x1_0000 * b[1] + 0x100 * b[2] + b[3],
        b.len() == 8 ==> big_endian(b) == 0x1_0000_0000 * big_endian(b.subrange(0, 4)) + big_endian(
            b.subrange(4, 8),
        ),
        b.len() == 4 && b[0] < 128 ==> signed32(big_endian(b)) == big_endian(b),
        b.len() == 4 && b[0] >= 128 ==> signed32(big_endian(b)) == big_endian(b) - 0x1_0000_0000,
        b.len() == 8 && b[0] < 128 ==> signed64(big_endian(b)) == big_endian(b),
        b.len() == 8 && b[0] >= 128 ==> signed64(big_endian(b)) == big_endian(b)
            - 0x1_0000_0000_0000_0000,
{
    lemma_powers();
    if b.len() == 4 {
        lemma_four_bytes(b);
    }
    if b.len() == 8 {
        let x = b.subrange(0, 4);
        let y = b.subrange(4, 8);
        lemma_four_bytes(x);
        lemma_four_bytes(y);
        let b7 = b.drop_last();
        let b6 = b7.drop_last();
        let b5 = b6.drop_last();
        let b4 = b5.drop_last();
        assert(b4 =~= x);
        assert(big_endian(b5) == 256 * big_endian(x) + b[4]);
        assert(big_endian(b6) == 256 * big_endian(b5) + b[5]);
        assert(big_endian(b7) == 256 * big_endian(b6) + b[6]);
        assert(big_endian(b) == 256 * big_endian(b7) + b[7]);
        assert(x[0] == b[0]);
        assert(y[0] == b[4] && y[1] == b[5] && y[2] == b[6] && y[3] == b[7]);
    }
}

proof fn lemma_four_bytes(b: Seq<u8>)
    requires
        b.len() == 4,
    ensures
        big_endian(b) == 0x100_0000 * b[0] + 0x1_0000 * b[1] + 0x100 * b[2] + b[3],
{
    let b3 = b.drop_last();
    let b2 = b3.drop_last();
    let b1 = b2.drop_last();
    assert(big_endian(b1.drop_last()) == 0);
    assert(big_endian(b1) == b[0]);
    assert(big_endian(b2) == 256 * big_endian(b1) + b[1]);
    assert(big_endian(b3) == 256 * big_endian(b2) + b[2]);
    assert(big_endian(b) == 256 * big_endian(b3) + b[3]);
}

/// A file starts with the letters `SSL_LOG_FILE` and version 1, in four bytes: anything
/// else is an error that shows what stands there.
pub proof fn law_headers(b: Seq<u8>, res: Result<(), LogError>)
    requires
        b.len() == 16,
        header_checked(Got::Bytes(b), res),
    ensures
        ({
            let letters = "SSL_LOG_FILE"@;
            let named = forall|i: int| 0 <= i < 12 ==> #[trigger] b[i] as int == letters[i] as int;
            let first = b[12] == 0 && b[13] == 0 && b[14] == 0 && b[15] == 1;
            &&& res is Ok <==> named && first
            &&& !named ==> (res matches Err(LogError::NotALog(h)) && h@ == b.subrange(0, 12))
            &&& named && !first ==> (res matches Err(LogError::Version(v)) && v != 1)
        }),
{
    reveal_strlit("SSL_LOG_FILE");
    let letters = "SSL_LOG_FILE"@;
    let front = b.subrange(0, 12);
    let v = b.subrange(12, 16);
    lemma_four_bytes(v);
    lemma_big_endian_bound(v);
    lemma_powers();
    assert(letters[0] == 'S' && letters[1] == 'S' && letters[2] == 'L' && letters[3] == '_'
        && letters[4] == 'L' && letters[5] == 'O' && letters[6] == 'G' && letters[7] == '_' && letters[8]
        == 'F' && letters[9] == 'I' && letters[10] == 'L' && letters[11] == 'E');
    assert forall|i: int| 0 <= i < 12 implies #[trigger] magic()[i] as int == letters[i] as int by {}
    if front == magic() {
        assert forall|i: int| 0 <= i < 12 implies #[trigger] b[i] as int == letters[i] as int by {
            assert(front[i] == magic()[i]);
        }
    }
    if forall|i: int| 0 <= i < 12 ==> #[trigger] b[i] as int == letters[i] as int {
        assert forall|i: int| 0 <= i < 12 implies front[i] == magic()[i] by {
            assert(b[i] as int == letters[i] as int);
        }
        assert(front =~= magic());
    }
    let n = big_endian(v);
    assert(n == 1 <==> b[12] == 0 && b[13] == 0 && b[14] == 0 && b[15] == 1);
}

/// A file that ends or breaks within its header is told apart from one that is not a
/// log.
pub proof fn law_broken_headers(res: Result<(), LogError>)
    ensures
        header_checked(Got::End, res) ==> res matches Err(LogError::ShortHeader),
        header_checked(Got::Fault, res) ==> res matches Err(LogError::CorruptHeader),
{
}

/// In front of a payload stand eight bytes of time, four of type and four of size; a
/// size below zero is an error with the number of records before it, the end of the file
/// is no record.
pub proof fn law_heads(b: Seq<u8>, count: u64)
    requires
        b.len() == 16,
    ensures
        head_of(Got::End, count) == Ok::<Option<Head>, LogError>(None),
        head_of(Got::Fault, count) == Err::<Option<Head>, LogError>(LogError::Corrupt),
        b[12] >= 128 ==> (head_of(Got::Bytes(b), count) matches Err(
            LogError::NegativeSize { size, record },
        ) && record == count && size < 0 && size == signed32(big_endian(b.subrange(12, 16)))),
        b[12] < 128 ==> (head_of(Got::Bytes(b), count) matches Ok(Some(h)) && h.time_ns == signed64(
            big_endian(b.subrange(0, 8)),
        ) && h.kind == signed32(big_endian(b.subrange(8, 12))) && h.size == big_endian(
            b.subrange(12, 16),
        )),
{
    lemma_powers();
    lemma_big_endian_bound(b.subrange(0, 8));
    lemma_big_endian_bound(b.subrange(8, 12));
    lemma_big_endian_bound(b.subrange(12, 16));
    law_big_endian_numbers(b.subrange(12, 16));
    assert(b.subrange(12, 16)[0] == b[12]);
}

/// A message that decodes is the record; one that does not is kept by type and length
/// and counted, and what is not decoded is kept so without being counted.
pub proof fn law_records_of_messages<V, R, T>(d: Decoded<V, R, T>, kind: i32, len: usize)
    ensures
        d matches Decoded::Vision(Some(m)) ==> record_of(d, kind, len) == Record::<V, R, T>::Vision(m),
        d matches Decoded::Referee(Some(m)) ==> record_of(d, kind, len) == Record::<V, R, T>::Referee(m),
        d matches Decoded::Tracker(Some(m)) ==> record_of(d, kind, len) == Record::<V, R, T>::Tracker(m),
        undecodable(d) || d is Raw ==> record_of(d, kind, len) == (Record::<
            V,
            R,
            T,
        >::Other { kind, len }),
        undecodable(d) <==> d == Decoded::<V, R, T>::Vision(None) || d == Decoded::<V, R, T>::Referee(None)
            || d == Decoded::<V, R, T>::Tracker(None),
{
}

/// Referee records are of type 3, vision records of type 4, tracker records of type 5;
/// no others are decoded.
pub proof fn law_decoded_kinds(kind: int)
    ensures
        decoded_kind(kind) <==> 3 <= kind <= 5,
        KIND_REFEREE == 3 && KIND_VISION == 4 && KIND_TRACKER == 5,
        LOG_VERSION == 1 && HEAD_LEN == 16,
{
}

/// Only a file with the extension `gz` is decompressed; any other holds its own bytes.
pub proof fn law_contents_by_extension(extension: Option<&str>, file: Seq<u8>)
    ensures
        (extension matches Some(e) && text::lowered(e@) == "gz"@) ==> contents(extension, file) == gunzipped(
            file,
        ),
        (extension matches Some(e) ==> text::lowered(e@) != "gz"@) ==> contents(extension, file).0 == file
            && contents(extension, file).1 is Complete,
{
}

/// A stream gives the next bytes in order; it only ends where a whole one has fewer than
/// asked for, or where it is cut off, and only a corrupt one fails.
pub proof fn law_streams_give_their_next_bytes(s: (Seq<u8>, StreamEnd), n: int, g: Got)
    requires
        possible(s, n, g),
    ensures
        g matches Got::Bytes(b) ==> b.len() == n && n <= s.0.len() && forall|i: int|
            0 <= i < n ==> #[trigger] b[i] == s.0[i],
        g is End && s.1 is Complete ==> s.0.len() < n,
        g is End ==> !(s.1 is Corrupt),
        g is Fault ==> s.1 is Corrupt,
{
}

/// Records of type 4 are decoded as vision, of type 3 as referee, of type 5 as tracker
/// messages, and no others; bytes that are no message at all are not decoded.
pub proof fn law_decoding_by_kind<
    V,
    R,
    T,
    FV: Fn(&Vec<u8>) -> Option<V>,
    FR: Fn(&Vec<u8>) -> Option<R>,
    FT: Fn(&Vec<u8>) -> Option<T>,
>(vision: FV, referee: FR, tracker: FT, kind: i32, payload: Seq<u8>, d: Decoded<V, R, T>)
    requires
        decoded_as(vision, referee, tracker, kind, payload, d),
    ensures
        d is Referee <==> kind == 3,
        d is Vision <==> kind == 4,
        d is Tracker <==> kind == 5,
        !wire::walkable(payload) ==> d is Raw || undecodable(d),
        wire::walkable(payload) ==> (d matches Decoded::Vision(m) ==> exists|p: Vec<u8>|
            p@ == payload && #[trigger] call_ensures(vision, (&p,), m)),
        wire::walkable(payload) ==> (d matches Decoded::Referee(m) ==> exists|p: Vec<u8>|
            p@ == payload && #[trigger] call_ensures(referee, (&p,), m)),
        wire::walkable(payload) ==> (d matches Decoded::Tracker(m) ==> exists|p: Vec<u8>|
            p@ == payload && #[trigger] call_ensures(tracker, (&p,), m)),
{
}

/// A whole log with fewer than sixteen bytes left is at its end; where sixteen bytes are
/// left with a size below zero, or with more than is left, reading fails. None of these
/// counts a record.
pub proof fn law_logs_end_or_fail<V, R, T>(
    a: LogReader,
    b: LogReader,
    head: Got,
    body: Got,
    d: Decoded<V, R, T>,
    res: Result<Option<Entry<V, R, T>>, LogError>,
)
    requires
        LogReader::stepped(a, b, head, body, d, res),
        a.stream().1 is Complete,
    ensures
        ({
            let s = a.stream().0;
            let size = big_endian(s.subrange(12, 16)) as int;
            &&& s.len() < 16 ==> (res matches Ok(None))
            &&& s.len() >= 16 && s[12] >= 128 ==> (res matches Err(
                LogError::NegativeSize { size: _, record },
            ) && record == a.spec_count())
            &&& s.len() >= 16 && s[12] < 128 && s.len() < 16 + size ==> (res matches Err(
                LogError::ShortPayload,
            ))
            &&& s.len() >= 16 && s[12] < 128 && s.len() >= 16 + size ==> (res matches Ok(Some(x))
                && b.spec_count() == a.spec_count() + 1 && b.stream().0 == s.skip(16 + size)
                && b.spec_decode_errors() == a.spec_decode_errors() + (if undecodable(d) {
                1int
            } else {
                0
            }))
            &&& !(res matches Ok(Some(_))) ==> b.spec_count() == a.spec_count()
                && b.spec_decode_errors() == a.spec_decode_errors()
        }),
{
    let s = a.stream().0;
    law_whole_streams_give_what_they_hold(s, 16, head);
    if s.len() >= 16 {
        let h = s.take(16);
        law_heads(h, a.spec_count());
        assert(h.subrange(12, 16) =~= s.subrange(12, 16));
        assert(h[12] == s[12]);
        if s[12] < 128 {
            let size = big_endian(s.subrange(12, 16)) as int;
            law_whole_streams_give_what_they_hold(s.skip(16), size, body);
            if s.len() >= 16 + size {
                assert(s.skip(16).skip(size) =~= s.skip(16 + size));
            }
        }
    }
}

/// A whole log opens exactly if it starts with the header, and is then read on from
/// behind it with nothing counted.
pub proof fn law_logs_open_behind_the_header(s: Seq<u8>, g: Got, res: Result<LogReader, LogError>)
    requires
        LogReader::opened((s, StreamEnd::Complete), g, res),
    ensures
        s.len() < 16 ==> res matches Err(LogError::ShortHeader),
        s.len() >= 16 ==> (res is Ok <==> s.subrange(0, 12) == magic() && s[12] == 0 && s[13] == 0 && s[14]
            == 0 && s[15] == 1),
        res matches Ok(r) ==> r.stream().0 == s.skip(16) && r.stream().1 is Complete && r.spec_count() == 0
            && r.spec_decode_errors() == 0,
{
    law_whole_streams_give_what_they_hold(s, 16, g);
    if s.len() >= 16 {
        let h = s.take(16);
        assert(h.subrange(0, 12) =~= s.subrange(0, 12));
        lemma_four_bytes(h.subrange(12, 16));
        lemma_big_endian_bound(h.subrange(12, 16));
        lemma_powers();
        let n = big_endian(h.subrange(12, 16));
        assert(n == 1 <==> s[12] == 0 && s[13] == 0 && s[14] == 0 && s[15] == 1);
    }
}

} // verus!
