//! LZ4 frame decoding.
//!
//! The frame envelope, its checksums, linked blocks and the concatenation of
//! frames are handled here; single compressed blocks go to the block decoder.


use vstd::prelude::*;
use vstd::string::*;
use std::hash::Hasher;
use twox_hash::XxHash32;
use crate::bytes::{copy_at, le32, le64, le_u32, le_u64, starts_with};
use crate::codec::{CodecStatus, CodecStep, EndOfInput};
use crate::error::{fault, ArchiveError, ErrorKind, ErrorView};
use crate::text::{decimal, decimal_digits};

verus! {

/// The four bytes that open a frame.
pub const MAGIC: [u8; 4] = [0x04, 0x22, 0x4d, 0x18];

/// The shortest frame header.
pub const MIN_HEADER: usize = 7;

/// The largest block that a frame can declare.
pub const MAX_BLOCK: usize = 4 * 1024 * 1024;

/// Frame bytes that are retained at most.
pub const MAX_PENDING: usize = MAX_BLOCK + 4 + 4 + 19;

/// Decoded bytes that a linked block can refer to.
pub const WINDOW: usize = 64 * 1024;

/// A malformed-frame error.
pub open spec fn lz4_malformed(context: Seq<char>) -> ErrorView {
    fault(ErrorKind::Malformed, "lz4", context)
}

fn malformed(context: &str) -> (error: ArchiveError)
    ensures
        error@ == lz4_malformed(context@),
{
    ArchiveError::of_format(ErrorKind::Malformed, "lz4", context)
}

// ---------------------------------------------------------------------------
// Outside functions
// ---------------------------------------------------------------------------

/// What `lz4_flex::block::decompress_into` makes of a block in a buffer of
/// `room` bytes: the decoded bytes or the message of its error.
pub uninterp spec fn lz4_block(block: Seq<u8>, room: nat) -> Result<Seq<u8>, Seq<char>>;

/// What `lz4_flex::block::decompress_into_with_dict` makes of a block in a
/// buffer of `room` bytes, behind the decoded bytes `dictionary`.
pub uninterp spec fn lz4_linked_block(block: Seq<u8>, room: nat, dictionary: Seq<u8>) -> Result<
    Seq<u8>,
    Seq<char>,
>;

/// The XXH32 hash of a byte string with seed zero.
pub uninterp spec fn xxh32(data: Seq<u8>) -> u32;

/// The bytes at the head of a buffer, or a message, as a named result.
pub open spec fn block_outcome(result: Result<usize, String>, buffer: Seq<u8>) -> Result<
    Seq<u8>,
    Seq<char>,
> {
    match result {
        Ok(count) => Ok(buffer.take(count as int)),
        Err(message) => Err(message@),
    }
}

/// `lz4_flex::block::decompress_into`. Claimed: the count lies within the
/// buffer, and the bytes at its head or the error's message are the named
/// result. Of the buffer behind them nothing is claimed. A block is no longer than a
/// frame allows, so that the lengths in it are added up without overflow.
#[verifier::external_body]
fn decompress_block(block: &[u8], output: &mut [u8]) -> (result: Result<usize, String>)
    requires
        block@.len() <= MAX_BLOCK,
    ensures
        final(output)@.len() == old(output)@.len(),
        result matches Ok(count) ==> count <= old(output)@.len(),
        block_outcome(result, final(output)@) == lz4_block(block@, old(output)@.len()),
{
    lz4_flex::block::decompress_into(block, output).map_err(|error| error.to_string())
}

/// `lz4_flex::block::decompress_into_with_dict`. Claimed: the count lies within
/// the buffer, and the bytes at its head or the error's message are the named
/// result. Of the buffer behind them nothing is claimed. A block is no longer than a
/// frame allows, so that the lengths in it are added up without overflow.
#[verifier::external_body]
fn decompress_linked_block(block: &[u8], output: &mut [u8], dictionary: &[u8]) -> (result: Result<
    usize,
    String,
>)
    requires
        block@.len() <= MAX_BLOCK,
    ensures
        final(output)@.len() == old(output)@.len(),
        result matches Ok(count) ==> count <= old(output)@.len(),
        block_outcome(result, final(output)@) == lz4_linked_block(
            block@,
            old(output)@.len(),
            dictionary@,
        ),
{
    lz4_flex::block::decompress_into_with_dict(block, output, dictionary)
        .map_err(|error| error.to_string())
}

/// The state of an XXH32 computation.
#[verifier::external_type_specification]
#[verifier::external_body]
pub struct ExXxHash32(twox_hash::XxHash32);

/// An XXH32 computation with seed zero.
pub struct ContentHash {
    hasher: XxHash32,
    data: Ghost<Seq<u8>>,
}

impl ContentHash {
    /// The bytes absorbed so far.
    pub closed spec fn data(&self) -> Seq<u8> {
        self.data@
    }

    /// `twox_hash::XxHash32::with_seed` for seed zero. Claimed: the state has
    /// absorbed nothing.
    #[verifier::external_body]
    pub(crate) fn new() -> (hash: Self)
        ensures
            hash.data().len() == 0,
    {
        ContentHash { hasher: XxHash32::with_seed(0), data: Ghost(Seq::empty()) }
    }

    /// `XxHash32::write`. Claimed: the bytes come behind those absorbed before.
    #[verifier::external_body]
    pub(crate) fn absorb(&mut self, bytes: &[u8])
        ensures
            final(self).data() == old(self).data() + bytes@,
    {
        self.hasher.write(bytes);
    }

    /// `XxHash32::finish`. Claimed: the named hash of the bytes absorbed.
    #[verifier::external_body]
    pub(crate) fn digest(&self) -> (value: u32)
        ensures
            value == xxh32(self.data()),
    {
        self.hasher.finish() as u32
    }
}

/// The XXH32 hash of `bytes`.
fn hash_of(bytes: &[u8]) -> (value: u32)
    ensures
        value == xxh32(bytes@),
{
    let mut hash = ContentHash::new();
    hash.absorb(bytes);
    proof {
        assert(hash.data() =~= bytes@);
    }
    hash.digest()
}

// ---------------------------------------------------------------------------
// Model
// ---------------------------------------------------------------------------

/// What comes next in the stream.
#[derive(Clone, Copy, Debug, PartialEq, Eq, Structural)]
pub enum State {
    Header,
    Blocks,
}

/// Whether the bit of the given weight is set in a byte.
pub open spec fn bit(byte: u8, weight: int) -> bool {
    (byte as int / weight) % 2 == 1
}

/// The mathematical content of an [`Lz4Decoder`].
#[verifier::ext_equal]
pub struct Lz4Model {
    pub state: State,
    /// Frame bytes not parsed yet.
    pub pending: Seq<u8>,
    /// Decoded bytes that the caller has not taken.
    pub ready: Seq<u8>,
    /// The last decoded bytes of this frame, for linked blocks.
    pub dictionary: Seq<u8>,
    pub max_block: nat,
    pub flags: u8,
    pub content_size: Option<u64>,
    pub content_length: u64,
    /// The decoded bytes of this frame, if it carries their checksum.
    pub content: Seq<u8>,
    pub saw_frame: bool,
    pub done: bool,
}

/// The last `count` bytes, or all of them.
pub open spec fn last_bytes(bytes: Seq<u8>, count: nat) -> Seq<u8> {
    if bytes.len() <= count {
        bytes
    } else {
        bytes.skip(bytes.len() - count)
    }
}

/// The largest block for a block-size code.
pub open spec fn block_limit(code: int) -> Option<nat> {
    if code == 4 {
        Some(0x1_0000)
    } else if code == 5 {
        Some(0x4_0000)
    } else if code == 6 {
        Some(0x10_0000)
    } else if code == 7 {
        Some(0x40_0000)
    } else {
        None
    }
}

impl Lz4Model {
    pub open spec fn independent(self) -> bool {
        bit(self.flags, 32)
    }

    pub open spec fn block_checksum(self) -> bool {
        bit(self.flags, 16)
    }

    pub open spec fn content_checksum(self) -> bool {
        bit(self.flags, 4)
    }

    /// The frame header that `pending` begins with, parsed; `None` while it is
    /// incomplete.
    pub open spec fn parse_header(self) -> Result<Option<Lz4Model>, ErrorView> {
        let p = self.pending;
        let flags = p[4];
        let descriptor = p[5];
        let length: nat = 7 + if bit(flags, 8) {
            8nat
        } else {
            0nat
        } + if bit(flags, 1) {
            4nat
        } else {
            0nat
        };
        if p.len() < MIN_HEADER {
            Ok(None)
        } else if p.take(4) != MAGIC@ {
            Err(lz4_malformed("non-frame trailing filter data"@))
        } else if p.len() < length {
            Ok(None)
        } else if flags / 64 != 1 {
            Err(lz4_malformed("unsupported LZ4 frame version"@))
        } else if bit(flags, 2) || descriptor / 128 == 1 || descriptor % 16 != 0 {
            Err(lz4_malformed("reserved LZ4 frame bits are set"@))
        } else if bit(flags, 1) {
            Err(
                fault(
                    ErrorKind::Unsupported,
                    "lz4",
                    "LZ4 frame dictionaries are not supported"@,
                ),
            )
        } else {
            match block_limit(descriptor as int / 16) {
                None => Err(lz4_malformed("unsupported LZ4 maximum block size"@)),
                Some(max_block) => if xxh32(p.subrange(4, length - 1)) / 256 % 256 != p[length
                    - 1] {
                    Err(lz4_malformed("LZ4 frame header checksum mismatch"@))
                } else {
                    Ok(
                        Some(
                            Lz4Model {
                                state: State::Blocks,
                                pending: p.skip(length as int),
                                dictionary: Seq::empty(),
                                max_block,
                                flags,
                                content_size: if bit(flags, 8) {
                                    Some(le64(p, 6) as u64)
                                } else {
                                    None
                                },
                                content_length: 0,
                                content: Seq::empty(),
                                ..self
                            },
                        ),
                    )
                },
            }
        }
    }

    /// The end of the frame.
    pub open spec fn finish_frame(self, length: nat) -> Result<Lz4Model, ErrorView> {
        if self.content_size matches Some(expected) && self.content_length != expected {
            Err(lz4_malformed(size_text(self.content_size->0, self.content_length)))
        } else if self.content_checksum() && xxh32(self.content) != le32(self.pending, 4) {
            Err(lz4_malformed("LZ4 content checksum mismatch"@))
        } else {
            Ok(
                Lz4Model {
                    state: State::Header,
                    pending: self.pending.skip(length as int),
                    saw_frame: true,
                    ..self
                },
            )
        }
    }

    /// A block of `length` frame bytes that decodes to `decoded`, or to an
    /// error's message.
    pub open spec fn accept_block(self, decoded: Result<Seq<u8>, Seq<char>>, length: nat) -> Result<
        Lz4Model,
        ErrorView,
    > {
        match decoded {
            Err(message) => Err(lz4_malformed(message)),
            Ok(bytes) => {
                let total = self.content_length + bytes.len();
                if total > u64::MAX {
                    Err(lz4_malformed("LZ4 decoded length overflow"@))
                } else if self.content_size matches Some(expected) && total > expected {
                    Err(lz4_malformed("LZ4 decoded data exceeds the declared content size"@))
                } else {
                    Ok(
                        Lz4Model {
                            pending: self.pending.skip(length as int),
                            ready: bytes,
                            dictionary: if self.independent() {
                                self.dictionary
                            } else {
                                last_bytes(self.dictionary + bytes, WINDOW as nat)
                            },
                            content_length: total as u64,
                            content: if self.content_checksum() {
                                self.content + bytes
                            } else {
                                self.content
                            },
                            ..self
                        },
                    )
                }
            },
        }
    }

    /// The bytes of the block that `pending` begins with, decoded.
    pub open spec fn decode_block(self, block: Seq<u8>, stored: bool) -> Result<
        Seq<u8>,
        Seq<char>,
    > {
        if stored {
            Ok(block)
        } else if self.independent() {
            lz4_block(block, self.max_block)
        } else {
            lz4_linked_block(block, self.max_block, self.dictionary)
        }
    }

    /// The record that `pending` begins with, parsed; `None` while it is
    /// incomplete.
    pub open spec fn parse_block(self) -> Result<Option<Lz4Model>, ErrorView> {
        let p = self.pending;
        let record = le32(p, 0);
        let size = record % 0x8000_0000;
        let block = p.subrange(4, 4 + size as int);
        let check: nat = if self.block_checksum() {
            4
        } else {
            0
        };
        let length = (4 + size + check) as nat;
        let end: nat = if self.content_checksum() {
            8
        } else {
            4
        };
        if p.len() < 4 {
            Ok(None)
        } else if record == 0 {
            if p.len() < end {
                Ok(None)
            } else {
                match self.finish_frame(end) {
                    Ok(next) => Ok(Some(next)),
                    Err(error) => Err(error),
                }
            }
        } else if size == 0 || size > self.max_block {
            Err(lz4_malformed("LZ4 block exceeds the declared maximum"@))
        } else if p.len() < length {
            Ok(None)
        } else if self.block_checksum() && xxh32(block) != le32(p, 4 + size as int) {
            Err(lz4_malformed("LZ4 block checksum mismatch"@))
        } else {
            match self.accept_block(self.decode_block(block, record >= 0x8000_0000), length) {
                Ok(next) => Ok(Some(next)),
                Err(error) => Err(error),
            }
        }
    }

    pub open spec fn parse(self) -> Result<Option<Lz4Model>, ErrorView> {
        match self.state {
            State::Header => self.parse_header(),
            State::Blocks => self.parse_block(),
        }
    }

    /// The decoded bytes that fit a buffer.
    pub open spec fn fitting(self, room: nat) -> nat {
        if self.ready.len() < room {
            self.ready.len()
        } else {
            room
        }
    }

    /// The decoder after handing those bytes out.
    pub open spec fn drained(self, room: nat) -> Lz4Model {
        Lz4Model { ready: self.ready.skip(self.fitting(room) as int), ..self }
    }

    /// Parses and hands bytes out until the buffer is full or a record is
    /// incomplete: the decoder then, and the bytes handed out.
    pub open spec fn pump(self, room: nat) -> Result<(Lz4Model, Seq<u8>), ErrorView>
        decreases self.pending.len(),
    {
        if room == 0 {
            Ok((self, Seq::empty()))
        } else {
            match self.parse() {
                Err(error) => Err(error),
                Ok(None) => Ok((self, Seq::empty())),
                Ok(Some(next)) => if next.pending.len() < self.pending.len() {
                    let bytes = next.ready.take(next.fitting(room) as int);
                    match next.drained(room).pump((room - bytes.len()) as nat) {
                        Err(error) => Err(error),
                        Ok((last, more)) => Ok((last, bytes + more)),
                    }
                } else {
                    Ok((next, Seq::empty()))
                },
            }
        }
    }

    /// Why the stream is incomplete.
    pub open spec fn truncated(self) -> ErrorView {
        match self.state {
            State::Header => lz4_malformed("truncated LZ4 frame header"@),
            State::Blocks => lz4_malformed("LZ4 frame ended before its terminal block"@),
        }
    }

    /// The bytes of input that one call takes.
    pub open spec fn acceptable(self, input_len: nat) -> nat {
        let free = if self.pending.len() >= MAX_PENDING {
            0
        } else {
            (MAX_PENDING - self.pending.len()) as nat
        };
        if free < input_len {
            free
        } else {
            input_len
        }
    }

    /// The end of a call that has handed `written` out.
    pub open spec fn settle(
        self,
        consumed: nat,
        written: Seq<u8>,
        room: nat,
        at_end: bool,
    ) -> Result<Lz4Move, ErrorView> {
        if self.ready.len() > 0 || written.len() == room {
            Ok(Lz4Move { model: self, consumed, written, status: CodecStatus::NeedOutput })
        } else if at_end {
            if self.state is Header && self.pending.len() == 0 && self.saw_frame {
                Ok(
                    Lz4Move {
                        model: Lz4Model { done: true, ..self },
                        consumed,
                        written,
                        status: CodecStatus::Done,
                    },
                )
            } else {
                Err(self.truncated())
            }
        } else {
            Ok(Lz4Move { model: self, consumed, written, status: CodecStatus::NeedInput })
        }
    }

    /// A call with no room for output.
    pub open spec fn process_nothing(self, consumed: nat, at_end: bool) -> Result<
        Lz4Move,
        ErrorView,
    > {
        let written = Seq::<u8>::empty();
        if self.ready.len() > 0 || self.pending.len() > 0 || self.state is Blocks {
            Ok(Lz4Move { model: self, consumed, written, status: CodecStatus::NeedOutput })
        } else if at_end {
            if self.saw_frame {
                Ok(
                    Lz4Move {
                        model: Lz4Model { done: true, ..self },
                        consumed,
                        written,
                        status: CodecStatus::Done,
                    },
                )
            } else {
                Err(self.truncated())
            }
        } else {
            Ok(Lz4Move { model: self, consumed, written, status: CodecStatus::NeedInput })
        }
    }

    /// One call.
    pub open spec fn process(self, input: Seq<u8>, room: nat, end: EndOfInput) -> Result<
        Lz4Move,
        ErrorView,
    > {
        if self.done {
            if input.len() == 0 {
                Ok(
                    Lz4Move {
                        model: self,
                        consumed: 0,
                        written: Seq::empty(),
                        status: CodecStatus::Done,
                    },
                )
            } else {
                Err(lz4_malformed("data follows the completed LZ4 stream"@))
            }
        } else {
            let consumed = self.acceptable(input.len());
            let at_end = end is End && consumed == input.len();
            let fed = Lz4Model { pending: self.pending + input.take(consumed as int), ..self };
            if room == 0 {
                fed.process_nothing(consumed, at_end)
            } else {
                let first = fed.ready.take(fed.fitting(room) as int);
                match fed.drained(room).pump((room - first.len()) as nat) {
                    Err(error) => Err(error),
                    Ok((last, more)) => last.settle(consumed, first + more, room, at_end),
                }
            }
        }
    }
}

/// One call of the decoder.
#[verifier::ext_equal]
pub struct Lz4Move {
    pub model: Lz4Model,
    pub consumed: nat,
    pub written: Seq<u8>,
    pub status: CodecStatus,
}

/// The message about a wrong content size.
pub open spec fn size_text(expected: u64, decoded: u64) -> Seq<char> {
    "LZ4 content size mismatch: expected "@ + decimal_digits(expected as nat) + ", decoded "@
        + decimal_digits(decoded as nat)
}

// ---------------------------------------------------------------------------
// Decoder
// ---------------------------------------------------------------------------

/// Incremental LZ4 frame decoder.
pub struct Lz4Decoder {
    pub state: State,
    pub pending: Vec<u8>,
    pub decoded: Vec<u8>,
    pub decoded_position: usize,
    pub dictionary: Vec<u8>,
    pub max_block: usize,
    pub flags: u8,
    pub content_size: Option<u64>,
    pub content_length: u64,
    pub content_hash: ContentHash,
    pub saw_frame: bool,
    pub done: bool,
}

impl View for Lz4Decoder {
    type V = Lz4Model;

    open spec fn view(&self) -> Lz4Model {
        Lz4Model {
            state: self.state,
            pending: self.pending@,
            ready: self.decoded@.skip(self.decoded_position as int),
            dictionary: self.dictionary@,
            max_block: self.max_block as nat,
            flags: self.flags,
            content_size: self.content_size,
            content_length: self.content_length,
            content: self.content_hash.data(),
            saw_frame: self.saw_frame,
            done: self.done,
        }
    }
}

impl Default for Lz4Decoder {
    fn default() -> (decoder: Self)
        ensures
            decoder.wf(),
            decoder@ == (Lz4Model {
                state: State::Header,
                pending: Seq::empty(),
                ready: Seq::empty(),
                dictionary: Seq::empty(),
                max_block: 0,
                flags: 32,
                content_size: None,
                content_length: 0,
                content: Seq::empty(),
                saw_frame: false,
                done: false,
            }),
    {
        Lz4Decoder::new()
    }
}

impl Lz4Decoder {
    /// The retained bytes are within their bounds, and decoded bytes are dropped
    /// once all are handed out.
    pub open spec fn wf(self) -> bool {
        &&& self.decoded_position <= self.decoded@.len()
        &&& self.decoded@.len() > 0 ==> self.decoded_position < self.decoded@.len()
        &&& self.max_block <= MAX_BLOCK
        &&& self.dictionary@.len() <= WINDOW
        &&& self.pending@.len() <= MAX_PENDING
    }

    /// A decoder before its first byte.
    pub fn new() -> (decoder: Self)
        ensures
            decoder.wf(),
            decoder@ == (Lz4Model {
                state: State::Header,
                pending: Seq::empty(),
                ready: Seq::empty(),
                dictionary: Seq::empty(),
                max_block: 0,
                flags: 32,
                content_size: None,
                content_length: 0,
                content: Seq::empty(),
                saw_frame: false,
                done: false,
            }),
    {
        let decoder = Lz4Decoder {
            state: State::Header,
            pending: Vec::new(),
            decoded: Vec::new(),
            decoded_position: 0,
            dictionary: Vec::new(),
            max_block: 0,
            flags: 32,
            content_size: None,
            content_length: 0,
            content_hash: ContentHash::new(),
            saw_frame: false,
            done: false,
        };
        proof {
            assert(decoder@.ready =~= Seq::<u8>::empty());
            assert(decoder@.content =~= Seq::<u8>::empty());
        }
        decoder
    }

    fn discard_pending(&mut self, count: usize)
        requires
            count <= old(self).pending@.len(),
        ensures
            *final(self) == (Lz4Decoder { pending: final(self).pending, ..*old(self) }),
            final(self).pending@ == old(self).pending@.skip(count as int),
    {
        let rest = self.pending.split_off(count);
        proof {
            assert(rest@ =~= old(self).pending@.skip(count as int));
        }
        self.pending = rest;
    }

    /// Copies decoded bytes to `output`, from `produced` on.
    fn drain_decoded(&mut self, output: &mut [u8], produced: usize) -> (copied: usize)
        requires
            old(self).wf(),
            produced <= old(output)@.len(),
        ensures
            final(self).wf(),
            final(output)@.len() == old(output)@.len(),
            copied == old(self)@.fitting((old(output)@.len() - produced) as nat),
            final(self)@ == old(self)@.drained((old(output)@.len() - produced) as nat),
            final(output)@.take(produced + copied) == old(output)@.take(produced as int) + old(
                self,
            )@.ready.take(copied as int),
            produced + copied <= old(output)@.len(),
    {
        let available: usize = self.decoded.len() - self.decoded_position;
        let room: usize = output.len() - produced;
        let copied: usize = if available < room {
            available
        } else {
            room
        };
        copy_at(output, produced, self.decoded.as_slice(), self.decoded_position, copied);
        let ghost whole = self.decoded@;
        let ghost at = self.decoded_position as int;
        proof {
            assert(whole.subrange(at, at + copied) =~= whole.skip(at).take(copied as int));
            assert(output@.take(produced + copied) =~= old(output)@.take(produced as int)
                + whole.subrange(at, at + copied));
            assert(whole.skip(at).skip(copied as int) =~= whole.skip(at + copied));
        }
        self.decoded_position = self.decoded_position + copied;
        if self.decoded_position == self.decoded.len() {
            self.decoded.clear();
            self.decoded_position = 0;
        }
        proof {
            assert(self@.ready =~= whole.skip(at + copied));
        }
        copied
    }

    fn parse_header(&mut self) -> (result: Result<bool, ArchiveError>)
        requires
            old(self).wf(),
        ensures
            match result {
                Ok(true) => old(self)@.parse_header() == Ok::<_, ErrorView>(Some(final(self)@))
                    && final(self).wf() && final(self).pending@.len() < old(self).pending@.len(),
                Ok(false) => old(self)@.parse_header() == Ok::<_, ErrorView>(None::<Lz4Model>)
                    && *final(self) == *old(self),
                Err(error) => old(self)@.parse_header() == Err::<Option<Lz4Model>, _>(error@),
            },
    {
        if self.pending.len() < MIN_HEADER {
            return Ok(false);
        }
        proof {
            let p = self.pending@;
            assert(p.subrange(0, 4) =~= p.take(4));
        }
        if !starts_with(self.pending.as_slice(), &MAGIC) {
            return Err(malformed("non-frame trailing filter data"));
        }
        let flags: u8 = self.pending[4];
        let descriptor: u8 = self.pending[5];
        let sized = (flags / 8) % 2 == 1;
        let keyed = flags % 2 == 1;
        let mut header_length: usize = MIN_HEADER;
        if sized {
            header_length += 8;
        }
        if keyed {
            header_length += 4;
        }
        if self.pending.len() < header_length {
            return Ok(false);
        }
        if flags / 64 != 1 {
            return Err(malformed("unsupported LZ4 frame version"));
        }
        if (flags / 2) % 2 == 1 || descriptor / 128 == 1 || descriptor % 16 != 0 {
            return Err(malformed("reserved LZ4 frame bits are set"));
        }
        if keyed {
            return Err(
                ArchiveError::of_format(
                    ErrorKind::Unsupported,
                    "lz4",
                    "LZ4 frame dictionaries are not supported",
                ),
            );
        }
        let code: u8 = descriptor / 16;
        let max_block: usize = if code == 4 {
            0x1_0000
        } else if code == 5 {
            0x4_0000
        } else if code == 6 {
            0x10_0000
        } else if code == 7 {
            0x40_0000
        } else {
            return Err(malformed("unsupported LZ4 maximum block size"));
        };
        let hash: u32 = hash_of(&self.pending.as_slice()[4..header_length - 1]);
        if hash / 256 % 256 != self.pending[header_length - 1] as u32 {
            return Err(malformed("LZ4 frame header checksum mismatch"));
        }
        let content_size = if sized {
            Some(le_u64(self.pending.as_slice(), 6))
        } else {
            None
        };
        self.max_block = max_block;
        self.content_size = content_size;
        self.flags = flags;
        self.content_length = 0;
        self.content_hash = ContentHash::new();
        self.dictionary.clear();
        self.discard_pending(header_length);
        self.state = State::Blocks;
        proof {
            assert(self@.content =~= Seq::<u8>::empty());
            assert(self@.dictionary =~= Seq::<u8>::empty());
        }
        Ok(true)
    }

    fn update_dictionary(&mut self, decoded: &[u8])
        requires
            old(self).dictionary@.len() <= WINDOW,
        ensures
            *final(self) == (Lz4Decoder { dictionary: final(self).dictionary, ..*old(self) }),
            final(self).dictionary@ == if old(self)@.independent() {
                old(self).dictionary@
            } else {
                last_bytes(old(self).dictionary@ + decoded@, WINDOW as nat)
            },
            final(self).dictionary@.len() <= WINDOW,
    {
        if (self.flags / 32) % 2 == 1 {
            return;
        }
        let ghost all = self.dictionary@ + decoded@;
        let mut fresh: Vec<u8> = Vec::new();
        if decoded.len() >= WINDOW {
            fresh.extend_from_slice(&decoded[decoded.len() - WINDOW..decoded.len()]);
        } else {
            let free: usize = WINDOW - decoded.len();
            let keep: usize = if self.dictionary.len() < free {
                self.dictionary.len()
            } else {
                free
            };
            let start: usize = self.dictionary.len() - keep;
            fresh.extend_from_slice(&self.dictionary.as_slice()[start..self.dictionary.len()]);
            fresh.extend_from_slice(decoded);
        }
        proof {
            assert(fresh@ =~= last_bytes(all, WINDOW as nat));
        }
        self.dictionary = fresh;
    }

    fn finish_frame(&mut self, record_length: usize) -> (result: Result<(), ArchiveError>)
        requires
            old(self).wf(),
            record_length == if old(self)@.content_checksum() {
                8int
            } else {
                4int
            },
            record_length <= old(self).pending@.len(),
        ensures
            match result {
                Ok(()) => old(self)@.finish_frame(record_length as nat) == Ok::<_, ErrorView>(
                    final(self)@,
                ) && final(self).wf() && final(self).pending@.len() < old(self).pending@.len(),
                Err(error) => old(self)@.finish_frame(record_length as nat) == Err::<Lz4Model, _>(
                    error@,
                ),
            },
    {
        if let Some(expected) = self.content_size {
            if self.content_length != expected {
                let mut text = "LZ4 content size mismatch: expected ".to_string();
                text.append(decimal(expected).as_str());
                text.append(", decoded ");
                text.append(decimal(self.content_length).as_str());
                return Err(ArchiveError::of_format_text(ErrorKind::Malformed, "lz4", text));
            }
        }
        if (self.flags / 4) % 2 == 1 {
            let expected: u32 = le_u32(self.pending.as_slice(), 4);
            if self.content_hash.digest() != expected {
                return Err(malformed("LZ4 content checksum mismatch"));
            }
        }
        self.discard_pending(record_length);
        self.state = State::Header;
        self.saw_frame = true;
        Ok(())
    }

    /// Goes on from what a block of `record_length` frame bytes decodes to.
    pub fn apply_block(&mut self, decoded: Result<Vec<u8>, String>, record_length: usize) -> (result:
        Result<(), ArchiveError>)
        requires
            old(self).wf(),
            old(self)@.ready.len() == 0,
            record_length <= old(self).pending@.len(),
        ensures
            ({
                let named = match decoded {
                    Ok(bytes) => Ok::<Seq<u8>, Seq<char>>(bytes@),
                    Err(message) => Err(message@),
                };
                match result {
                    Ok(()) => old(self)@.accept_block(named, record_length as nat) == Ok::<
                        _,
                        ErrorView,
                    >(final(self)@) && final(self).wf(),
                    Err(error) => old(self)@.accept_block(named, record_length as nat) == Err::<
                        Lz4Model,
                        _,
                    >(error@),
                }
            }),
    {
        let bytes = match decoded {
            Ok(bytes) => bytes,
            Err(message) => {
                return Err(ArchiveError::of_format_text(ErrorKind::Malformed, "lz4", message));
            },
        };
        let total: u64 = match self.content_length.checked_add(bytes.len() as u64) {
            Some(total) => total,
            None => {
                return Err(malformed("LZ4 decoded length overflow"));
            },
        };
        if let Some(expected) = self.content_size {
            if total > expected {
                return Err(malformed("LZ4 decoded data exceeds the declared content size"));
            }
        }
        self.content_length = total;
        if (self.flags / 4) % 2 == 1 {
            self.content_hash.absorb(bytes.as_slice());
        }
        self.update_dictionary(bytes.as_slice());
        self.decoded = bytes;
        self.decoded_position = 0;
        self.discard_pending(record_length);
        proof {
            assert(self@.ready =~= self.decoded@);
        }
        Ok(())
    }

    fn decode_block(&self, block: &[u8], stored: bool) -> (decoded: Result<Vec<u8>, String>)
        requires
            self.wf(),
            block@.len() <= MAX_BLOCK,
        ensures
            match decoded {
                Ok(bytes) => self@.decode_block(block@, stored) == Ok::<_, Seq<char>>(bytes@),
                Err(message) => self@.decode_block(block@, stored) == Err::<Seq<u8>, _>(message@),
            },
    {
        if stored {
            return Ok(crate::bytes::to_vec(block));
        }
        let mut buffer: Vec<u8> = Vec::new();
        buffer.resize(self.max_block, 0);
        let result = if (self.flags / 32) % 2 == 1 {
            decompress_block(block, buffer.as_mut_slice())
        } else {
            decompress_linked_block(block, buffer.as_mut_slice(), self.dictionary.as_slice())
        };
        match result {
            Ok(count) => {
                let ghost whole = buffer@;
                buffer.truncate(count);
                proof {
                    assert(buffer@ =~= whole.take(count as int));
                }
                Ok(buffer)
            },
            Err(message) => Err(message),
        }
    }

    fn parse_block(&mut self) -> (result: Result<bool, ArchiveError>)
        requires
            old(self).wf(),
            old(self)@.ready.len() == 0,
        ensures
            match result {
                Ok(true) => old(self)@.parse_block() == Ok::<_, ErrorView>(Some(final(self)@))
                    && final(self).wf() && final(self).pending@.len() < old(self).pending@.len(),
                Ok(false) => old(self)@.parse_block() == Ok::<_, ErrorView>(None::<Lz4Model>)
                    && *final(self) == *old(self),
                Err(error) => old(self)@.parse_block() == Err::<Option<Lz4Model>, _>(error@),
            },
    {
        if self.pending.len() < 4 {
            return Ok(false);
        }
        let record: u32 = le_u32(self.pending.as_slice(), 0);
        if record == 0 {
            let record_length: usize = if (self.flags / 4) % 2 == 1 {
                8
            } else {
                4
            };
            if self.pending.len() < record_length {
                return Ok(false);
            }
            self.finish_frame(record_length)?;
            return Ok(true);
        }
        let stored = record >= 0x8000_0000;
        let size: usize = (record % 0x8000_0000) as usize;
        if size == 0 || size > self.max_block {
            return Err(malformed("LZ4 block exceeds the declared maximum"));
        }
        let checked = (self.flags / 16) % 2 == 1;
        let record_length: usize = if checked {
            size + 8
        } else {
            size + 4
        };
        if self.pending.len() < record_length {
            return Ok(false);
        }
        if checked {
            let expected: u32 = le_u32(self.pending.as_slice(), 4 + size);
            if hash_of(&self.pending.as_slice()[4..4 + size]) != expected {
                return Err(malformed("LZ4 block checksum mismatch"));
            }
        }
        let decoded = self.decode_block(&self.pending.as_slice()[4..4 + size], stored);
        self.apply_block(decoded, record_length)?;
        Ok(true)
    }

    fn parse(&mut self) -> (result: Result<bool, ArchiveError>)
        requires
            old(self).wf(),
            old(self)@.ready.len() == 0,
        ensures
            match result {
                Ok(true) => old(self)@.parse() == Ok::<_, ErrorView>(Some(final(self)@))
                    && final(self).wf() && final(self).pending@.len() < old(self).pending@.len(),
                Ok(false) => old(self)@.parse() == Ok::<_, ErrorView>(None::<Lz4Model>)
                    && *final(self) == *old(self),
                Err(error) => old(self)@.parse() == Err::<Option<Lz4Model>, _>(error@),
            },
    {
        match self.state {
            State::Header => self.parse_header(),
            State::Blocks => self.parse_block(),
        }
    }

    fn truncated(&self) -> (error: ArchiveError)
        ensures
            error@ == self@.truncated(),
    {
        match self.state {
            State::Header => malformed("truncated LZ4 frame header"),
            State::Blocks => malformed("LZ4 frame ended before its terminal block"),
        }
    }

    fn settle(&mut self, consumed: usize, produced: usize, output: &[u8], at_end: bool) -> (result:
        Result<CodecStep, ArchiveError>)
        requires
            old(self).wf(),
            produced <= output@.len(),
        ensures
            lz4_matches(
                result,
                final(self)@,
                output@,
                old(self)@.settle(
                    consumed as nat,
                    output@.take(produced as int),
                    output@.len(),
                    at_end,
                ),
            ),
            result is Ok ==> final(self).wf() && result->Ok_0.consumed == consumed
                && result->Ok_0.produced == produced,
    {
        let status = if self.decoded_position != self.decoded.len() || produced == output.len() {
            CodecStatus::NeedOutput
        } else if at_end {
            if self.state == State::Header && self.pending.len() == 0 && self.saw_frame {
                self.done = true;
                CodecStatus::Done
            } else {
                return Err(self.truncated());
            }
        } else {
            CodecStatus::NeedInput
        };
        Ok(CodecStep { consumed, produced, status })
    }

    fn process_nothing(&mut self, consumed: usize, at_end: bool) -> (result: Result<
        CodecStep,
        ArchiveError,
    >)
        requires
            old(self).wf(),
        ensures
            lz4_matches(
                result,
                final(self)@,
                Seq::empty(),
                old(self)@.process_nothing(consumed as nat, at_end),
            ),
            result is Ok ==> final(self).wf() && result->Ok_0.consumed == consumed,
    {
        proof {
            assert(Seq::<u8>::empty().take(0) =~= Seq::<u8>::empty());
        }
        let status = if self.decoded.len() > 0 || self.pending.len() > 0 || self.state
            == State::Blocks {
            CodecStatus::NeedOutput
        } else if at_end {
            if self.saw_frame {
                self.done = true;
                CodecStatus::Done
            } else {
                return Err(self.truncated());
            }
        } else {
            CodecStatus::NeedInput
        };
        Ok(CodecStep { consumed, produced: 0, status })
    }

    /// Decodes from `input` to `output`.
    pub fn process(&mut self, input: &[u8], output: &mut [u8], end: EndOfInput) -> (result: Result<
        CodecStep,
        ArchiveError,
    >)
        requires
            old(self).wf(),
        ensures
            lz4_matches(
                result,
                final(self)@,
                final(output)@,
                old(self)@.process(input@, old(output)@.len(), end),
            ),
            final(output)@.len() == old(output)@.len(),
            result is Ok ==> final(self).wf() && result->Ok_0.fits(
                input@.len(),
                old(output)@.len(),
            ),
    {
        proof {
            assert(output@.take(0) =~= Seq::<u8>::empty());
        }
        if self.done {
            if input.len() == 0 {
                return Ok(CodecStep { consumed: 0, produced: 0, status: CodecStatus::Done });
            }
            return Err(malformed("data follows the completed LZ4 stream"));
        }
        let free: usize = if self.pending.len() >= MAX_PENDING {
            0
        } else {
            MAX_PENDING - self.pending.len()
        };
        let consumed: usize = if free < input.len() {
            free
        } else {
            input.len()
        };
        self.pending.extend_from_slice(&input[0..consumed]);
        let at_end = end == EndOfInput::End && consumed == input.len();
        let ghost fed = Lz4Model {
            pending: old(self)@.pending + input@.take(consumed as int),
            ..old(self)@
        };
        proof {
            assert(self@.pending =~= fed.pending);
            assert(self@ =~= fed);
        }
        if output.len() == 0 {
            proof {
                assert(output@ =~= Seq::<u8>::empty());
            }
            return self.process_nothing(consumed, at_end);
        }
        let ghost room = output@.len();
        let mut produced: usize = self.drain_decoded(output, 0);
        let ghost first = fed.ready.take(fed.fitting(room) as int);
        let ghost goal = fed.drained(room).pump((room - first.len()) as nat);
        let mut going = true;
        proof {
            assert(output@.take(produced as int) =~= first);
        }
        while produced < output.len() && going
            invariant
                self.wf(),
                room == output@.len(),
                room == old(output)@.len(),
                produced <= room,
                goal == fed.drained(room).pump((room - first.len()) as nat),
                goal_from(
                    goal,
                    first,
                    output@.take(produced as int),
                    if going {
                        self@.pump((room - produced) as nat)
                    } else {
                        Ok((self@, Seq::empty()))
                    },
                ),
                produced < room ==> self@.ready.len() == 0,
                fed == (Lz4Model {
                    pending: old(self)@.pending + input@.take(consumed as int),
                    ..old(self)@
                }),
                first == fed.ready.take(fed.fitting(room) as int),
                !old(self)@.done,
                consumed == old(self)@.acceptable(input@.len()),
                room > 0,
            decreases self.pending@.len(), going as int,
        {
            let ghost before = self@;
            let ghost so_far = output@.take(produced as int);
            let progressed = self.parse()?;
            if !progressed {
                going = false;
            } else {
                let ghost next = self@;
                let copied: usize = self.drain_decoded(output, produced);
                let ghost bytes = next.ready.take(copied as int);
                proof {
                    assert(so_far + bytes =~= output@.take(produced + copied));
                    match next.drained((room - produced) as nat).pump(
                        (room - produced - copied) as nat,
                    ) {
                        Ok((last, more)) => {
                            assert(so_far + (bytes + more) =~= output@.take(produced + copied)
                                + more);
                        },
                        Err(_) => {},
                    }
                }
                produced = produced + copied;
            }
        }
        proof {
            let done = output@.take(produced as int);
            assert(done + Seq::<u8>::empty() =~= done);
        }
        self.settle(consumed, produced, output, at_end)
    }
}

/// `goal` is what `rest` leads to once `done` has been handed out, where `goal`
/// counts from behind `first`.
spec fn goal_from(
    goal: Result<(Lz4Model, Seq<u8>), ErrorView>,
    first: Seq<u8>,
    done: Seq<u8>,
    rest: Result<(Lz4Model, Seq<u8>), ErrorView>,
) -> bool {
    match rest {
        Err(error) => goal == Err::<(Lz4Model, Seq<u8>), _>(error),
        Ok((last, more)) => goal matches Ok((end, all)) && end == last && first + all == done
            + more,
    }
}

/// The result of a call in the form of its contract.
pub open spec fn lz4_matches(
    result: Result<CodecStep, ArchiveError>,
    model: Lz4Model,
    output: Seq<u8>,
    expected: Result<Lz4Move, ErrorView>,
) -> bool {
    match result {
        Ok(step) => step.produced <= output.len() && expected == Ok::<_, ErrorView>(
            Lz4Move {
                model,
                consumed: step.consumed as nat,
                written: output.take(step.produced as int),
                status: step.status,
            },
        ),
        Err(error) => expected == Err::<Lz4Move, _>(error@),
    }
}

} // verus!
