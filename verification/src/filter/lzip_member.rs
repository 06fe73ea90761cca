//! The members of an lzip stream: header, dictionary, budget and trailer.

use vstd::prelude::*;
use vstd::arithmetic::power2::pow2;
use vstd::string::*;
use crate::bytes::{le32, le64, le_u32, le_u64, starts_with};
use crate::filter::crc::{crc32_of, Crc32};
use crate::text::{decimal, decimal_digits};

verus! {

/// Length of a member trailer.
pub const TRAILER_SIZE: usize = 20;

/// The four bytes that open a member.
pub const LZIP_MAGIC: [u8; 4] = [0x4c, 0x5a, 0x49, 0x50];

/// A refusal by the member checks.
#[derive(Debug)]
pub struct LzipFault {
    /// A budget was exceeded; otherwise the data is invalid.
    pub out_of_memory: bool,
    pub message: String,
}

/// The mathematical content of an [`LzipFault`].
#[verifier::ext_equal]
pub struct LzipFaultView {
    pub out_of_memory: bool,
    pub message: Seq<char>,
}

impl View for LzipFault {
    type V = LzipFaultView;

    open spec fn view(&self) -> LzipFaultView {
        LzipFaultView { out_of_memory: self.out_of_memory, message: self.message@ }
    }
}

/// A refusal of invalid data.
pub open spec fn invalid(message: Seq<char>) -> LzipFaultView {
    LzipFaultView { out_of_memory: false, message }
}

/// A refusal for want of budget.
pub open spec fn exhausted(message: Seq<char>) -> LzipFaultView {
    LzipFaultView { out_of_memory: true, message }
}

/// An invalid-data refusal.
pub fn invalid_data(message: &str) -> (refusal: LzipFault)
    ensures
        refusal@ == invalid(message@),
{
    LzipFault { out_of_memory: false, message: message.to_string() }
}

/// An out-of-budget refusal.
pub fn out_of_memory(message: &str) -> (refusal: LzipFault)
    ensures
        refusal@ == exhausted(message@),
{
    LzipFault { out_of_memory: true, message: message.to_string() }
}

/// The refusal carried by a result.
pub open spec fn refusal_of<T>(result: Result<T, LzipFault>) -> Option<LzipFaultView> {
    match result {
        Ok(_) => None,
        Err(refusal) => Some(refusal@),
    }
}

// ---------------------------------------------------------------------------
// Header
// ---------------------------------------------------------------------------

/// The dictionary size that a byte stands for: a power of two between 2^12 and
/// 2^29, less some sixteenths of it, and at least 2^12.
pub open spec fn lzip_dictionary(encoded: u8) -> Result<nat, LzipFaultView> {
    let log2 = (encoded % 32) as nat;
    let base = pow2(log2);
    let size = base - base / 16 * (encoded / 32);
    if !(12 <= log2 <= 29) {
        Err(invalid("invalid lzip dictionary-size base"@))
    } else if size < 4096 {
        Err(invalid("lzip dictionary size is out of range"@))
    } else {
        Ok(size as nat)
    }
}

/// Decodes a dictionary size.
pub fn decode_dictionary_size(encoded: u8) -> (result: Result<u32, LzipFault>)
    ensures
        match result {
            Ok(size) => lzip_dictionary(encoded) == Ok::<_, LzipFaultView>(size as nat) && 4096
                <= size <= 0x2000_0000,
            Err(refusal) => lzip_dictionary(encoded) == Err::<nat, _>(refusal@),
        },
{
    let log2: u32 = (encoded % 32) as u32;
    if log2 < 12 || log2 > 29 {
        return Err(invalid_data("invalid lzip dictionary-size base"));
    }
    let fraction: u32 = (encoded / 32) as u32;
    proof {
        vstd::arithmetic::power2::lemma2_to64();
        if log2 < 29 {
            vstd::arithmetic::power2::lemma_pow2_strictly_increases(log2 as nat, 29);
        }
        vstd::bits::lemma_u32_shl_is_mul(1, log2);
    }
    let base: u32 = 1u32 << log2;
    let step: u32 = base / 16;
    proof {
        assert(step * fraction <= step * 7) by (nonlinear_arith)
            requires
                fraction <= 7,
                step >= 0,
        ;
    }
    let size: u32 = base - step * fraction;
    if size < 4096 {
        return Err(invalid_data("lzip dictionary size is out of range"));
    }
    Ok(size)
}

/// What the first bytes of a member come to: its dictionary size, or `None` at
/// the end of a stream that has had a member. `read` bytes of the header were
/// there before the input ended.
pub open spec fn member_start(header: Seq<u8>, read: nat, member_index: u64) -> Result<
    Option<nat>,
    LzipFaultView,
> {
    if read == 0 {
        if member_index == 0 {
            Err(invalid("empty lzip stream"@))
        } else {
            Ok(None)
        }
    } else if read < 6 {
        Err(invalid("truncated lzip member header"@))
    } else if header.take(4) != LZIP_MAGIC@ {
        Err(invalid("invalid lzip member magic"@))
    } else if header[4] != 1 {
        Err(invalid("unsupported lzip member version"@))
    } else {
        match lzip_dictionary(header[5]) {
            Ok(size) => Ok(Some(size)),
            Err(refusal) => Err(refusal),
        }
    }
}

/// Checks a member header of which `read` bytes could be read.
pub fn read_member_header(header: &[u8; 6], read: usize, member_index: u64) -> (result: Result<
    Option<u32>,
    LzipFault,
>)
    ensures
        match result {
            Ok(Some(size)) => member_start(header@, read as nat, member_index) == Ok::<
                _,
                LzipFaultView,
            >(Some(size as nat)) && 4096 <= size <= 0x2000_0000,
            Ok(None) => member_start(header@, read as nat, member_index) == Ok::<_, LzipFaultView>(
                None::<nat>,
            ),
            Err(refusal) => member_start(header@, read as nat, member_index) == Err::<
                Option<nat>,
                _,
            >(refusal@),
        },
{
    if read == 0 {
        if member_index == 0 {
            return Err(invalid_data("empty lzip stream"));
        }
        return Ok(None);
    }
    if read < 6 {
        return Err(invalid_data("truncated lzip member header"));
    }
    proof {
        assert(header@.subrange(0, 4) =~= header@.take(4));
    }
    if !starts_with(header.as_slice(), &LZIP_MAGIC) {
        return Err(invalid_data("invalid lzip member magic"));
    }
    if header[4] != 1 {
        return Err(invalid_data("unsupported lzip member version"));
    }
    let size: u32 = decode_dictionary_size(header[5])?;
    Ok(Some(size))
}

/// KiB that decoding LZMA data of an lzip member with a dictionary of
/// `dictionary` bytes takes: the fixed part, the probabilities, and the
/// dictionary rounded up to 16 bytes.
pub open spec fn lzma_kib(dictionary: u32) -> nat {
    let size = if dictionary < 4096 {
        4096
    } else {
        dictionary as int
    };
    (22 + ((size + 15) / 16 * 16) / 1024) as nat
}

/// `lzma_rust2::lzma_get_memory_usage` for three literal context bits and no
/// literal position bits. Claimed: `10` KiB, `12` KiB of probabilities, and the
/// KiB of the dictionary, which counts as at least 4096 bytes and is rounded up
/// to a multiple of 16; an error, of unstated message, for a dictionary beyond
/// the largest multiple of 16.
#[verifier::external_body]
fn lzma_memory_kib(dictionary: u32) -> (result: Result<u32, String>)
    ensures
        result is Ok <==> dictionary <= 0xFFFF_FFF0,
        result is Ok ==> result->Ok_0 == lzma_kib(dictionary),
{
    lzma_rust2::lzma_get_memory_usage(dictionary, 3, 0).map_err(|error| error.to_string())
}

/// The message about a workspace of `required` bytes.
pub open spec fn lzip_workspace_text(required: nat, limit: nat) -> Seq<char> {
    "lzip LZMA workspace requires "@ + decimal_digits(required) + " bytes, limit is "@
        + decimal_digits(limit)
}

/// Checks the memory that a member's dictionary asks for.
pub fn validate_dictionary_memory(dictionary: u32, limit: Option<usize>) -> (result: Result<
    (),
    LzipFault,
>)
    requires
        dictionary <= 0x2000_0000,
    ensures
        refusal_of(result) == match limit {
            None => None,
            Some(limit) => {
                let required = lzma_kib(dictionary) * 1024;
                if required > limit {
                    Some(exhausted(lzip_workspace_text(required, limit as nat)))
                } else {
                    None
                }
            },
        },
{
    let limit: usize = match limit {
        Some(limit) => limit,
        None => {
            return Ok(());
        },
    };
    let kib: u32 = match lzma_memory_kib(dictionary) {
        Ok(kib) => kib,
        Err(message) => {
            return Err(LzipFault { out_of_memory: false, message });
        },
    };
    let required: u64 = kib as u64 * 1024;
    if required > limit as u64 {
        let mut text = "lzip LZMA workspace requires ".to_string();
        text.append(decimal(required).as_str());
        text.append(" bytes, limit is ");
        text.append(decimal(limit as u64).as_str());
        return Err(LzipFault { out_of_memory: true, message: text });
    }
    Ok(())
}

// ---------------------------------------------------------------------------
// Payload and trailer
// ---------------------------------------------------------------------------

/// The mathematical content of a [`LzipStream`].
#[verifier::ext_equal]
pub struct LzipStreamModel {
    /// Members that are complete.
    pub member_index: u64,
    /// Bytes decoded in all members.
    pub decoded_total: u64,
    pub decoded_limit: Option<u64>,
    /// The decoded bytes of this member.
    pub data: Seq<u8>,
}

impl LzipStreamModel {
    /// The bytes that may still be decoded.
    pub open spec fn budget(self) -> Option<nat> {
        match self.decoded_limit {
            None => None,
            Some(maximum) => if maximum <= self.decoded_total {
                Some(0)
            } else {
                Some((maximum - self.decoded_total) as nat)
            },
        }
    }

    /// How many bytes to ask the decoder for: what the budget allows, and one
    /// byte to see whether the stream goes on where it allows none.
    pub open spec fn capacity(self, buffer: nat) -> nat {
        match self.budget() {
            None => buffer,
            Some(left) => if left == 0 {
                1
            } else if left < buffer {
                left
            } else {
                buffer
            },
        }
    }

    /// The stream after a decoded chunk; an empty chunk ends the payload.
    pub open spec fn chunk(self, truncated: bool, bytes: Seq<u8>) -> Result<
        LzipStreamModel,
        LzipFaultView,
    > {
        if truncated {
            Err(invalid("truncated lzip LZMA payload"@))
        } else if bytes.len() == 0 {
            Ok(self)
        } else if self.budget() == Some(0nat) {
            Err(exhausted("lzip decoded stream exceeds configured limit"@))
        } else if self.data.len() + bytes.len() > u64::MAX {
            Err(invalid("lzip member data size overflow"@))
        } else if self.decoded_total + bytes.len() > u64::MAX {
            Err(exhausted("lzip decoded-total counter overflow"@))
        } else {
            Ok(
                LzipStreamModel {
                    data: self.data + bytes,
                    decoded_total: (self.decoded_total + bytes.len()) as u64,
                    ..self
                },
            )
        }
    }

    /// The stream behind a member of `compressed` payload bytes with the given
    /// trailer.
    pub open spec fn close(self, trailer: Seq<u8>, compressed: u64) -> Result<
        LzipStreamModel,
        LzipFaultView,
    > {
        let member_size = 6 + compressed + 20;
        if crc32_of(self.data) != le32(trailer, 0) {
            Err(invalid("lzip CRC32 mismatch"@))
        } else if self.data.len() != le64(trailer, 4) {
            Err(invalid("lzip uncompressed size mismatch"@))
        } else if member_size > u64::MAX {
            Err(invalid("lzip member size overflow"@))
        } else if member_size != le64(trailer, 12) {
            Err(invalid("lzip member size mismatch"@))
        } else if self.member_index == u64::MAX {
            Err(exhausted("lzip member count overflow"@))
        } else {
            Ok(
                LzipStreamModel {
                    member_index: (self.member_index + 1) as u64,
                    data: Seq::empty(),
                    ..self
                },
            )
        }
    }
}

/// Checks over the members of one stream.
pub struct LzipStream {
    pub member_index: u64,
    pub decoded_total: u64,
    pub decoded_limit: Option<u64>,
    pub crc: Crc32,
    pub data_size: u64,
    pub data: Ghost<Seq<u8>>,
}

impl View for LzipStream {
    type V = LzipStreamModel;

    open spec fn view(&self) -> LzipStreamModel {
        LzipStreamModel {
            member_index: self.member_index,
            decoded_total: self.decoded_total,
            decoded_limit: self.decoded_limit,
            data: self.data@,
        }
    }
}

impl LzipStream {
    /// The counters agree with the decoded bytes.
    pub open spec fn wf(self) -> bool {
        self.crc.covers(self.data@) && self.data_size == self.data@.len()
    }

    /// A stream before its first member.
    pub fn new(decoded_limit: Option<u64>) -> (stream: Self)
        ensures
            stream.wf(),
            stream@ == (LzipStreamModel {
                member_index: 0,
                decoded_total: 0,
                decoded_limit,
                data: Seq::empty(),
            }),
    {
        LzipStream {
            member_index: 0,
            decoded_total: 0,
            decoded_limit,
            crc: Crc32::new(),
            data_size: 0,
            data: Ghost(Seq::empty()),
        }
    }

    /// How many bytes to ask the decoder for, into a buffer of `buffer` bytes.
    pub fn capacity(&self, buffer: usize) -> (count: usize)
        requires
            buffer > 0,
        ensures
            count == self@.capacity(buffer as nat),
            1 <= count <= buffer,
    {
        match self.decoded_limit {
            None => buffer,
            Some(maximum) => {
                if maximum <= self.decoded_total {
                    return 1;
                }
                let left: u64 = maximum - self.decoded_total;
                if left < buffer as u64 {
                    left as usize
                } else {
                    buffer
                }
            },
        }
    }

    /// Accounts a decoded chunk. `truncated` tells that the input ended inside
    /// the payload. Returns whether the payload goes on.
    pub fn accept_chunk(&mut self, truncated: bool, bytes: &[u8]) -> (result: Result<
        bool,
        LzipFault,
    >)
        requires
            old(self).wf(),
        ensures
            match result {
                Ok(goes_on) => old(self)@.chunk(truncated, bytes@) == Ok::<_, LzipFaultView>(
                    final(self)@,
                ) && goes_on == (bytes@.len() > 0) && final(self).wf(),
                Err(refusal) => old(self)@.chunk(truncated, bytes@) == Err::<LzipStreamModel, _>(
                    refusal@,
                ),
            },
    {
        if truncated {
            return Err(invalid_data("truncated lzip LZMA payload"));
        }
        if bytes.len() == 0 {
            return Ok(false);
        }
        if let Some(maximum) = self.decoded_limit {
            if maximum <= self.decoded_total {
                return Err(out_of_memory("lzip decoded stream exceeds configured limit"));
            }
        }
        let count: u64 = bytes.len() as u64;
        let data_size: u64 = match self.data_size.checked_add(count) {
            Some(size) => size,
            None => {
                return Err(invalid_data("lzip member data size overflow"));
            },
        };
        let decoded_total: u64 = match self.decoded_total.checked_add(count) {
            Some(total) => total,
            None => {
                return Err(out_of_memory("lzip decoded-total counter overflow"));
            },
        };
        self.data_size = data_size;
        self.decoded_total = decoded_total;
        self.crc.update(bytes);
        self.data = Ghost(self.data@ + bytes@);
        Ok(true)
    }

    /// Checks the trailer of a member of `compressed` payload bytes, of which
    /// `read` bytes could be read.
    pub fn finish_member(&mut self, trailer: &[u8; 20], read: usize, compressed: u64) -> (result:
        Result<(), LzipFault>)
        requires
            old(self).wf(),
        ensures
            match result {
                Ok(()) => read >= TRAILER_SIZE && old(self)@.close(trailer@, compressed) == Ok::<
                    _,
                    LzipFaultView,
                >(final(self)@) && final(self).wf(),
                Err(refusal) => if read < TRAILER_SIZE {
                    refusal@ == invalid("truncated lzip member trailer"@)
                } else {
                    old(self)@.close(trailer@, compressed) == Err::<LzipStreamModel, _>(refusal@)
                },
            },
    {
        if read < TRAILER_SIZE {
            return Err(invalid_data("truncated lzip member trailer"));
        }
        let bytes = trailer.as_slice();
        if self.crc.finalize() != le_u32(bytes, 0) {
            return Err(invalid_data("lzip CRC32 mismatch"));
        }
        if self.data_size != le_u64(bytes, 4) {
            return Err(invalid_data("lzip uncompressed size mismatch"));
        }
        let member_size: u64 = match compressed.checked_add(26) {
            Some(size) => size,
            None => {
                return Err(invalid_data("lzip member size overflow"));
            },
        };
        if member_size != le_u64(bytes, 12) {
            return Err(invalid_data("lzip member size mismatch"));
        }
        match self.member_index.checked_add(1) {
            Some(index) => {
                self.member_index = index;
            },
            None => {
                return Err(out_of_memory("lzip member count overflow"));
            },
        }
        self.crc = Crc32::new();
        self.data_size = 0;
        self.data = Ghost(Seq::empty());
        Ok(())
    }
}

/// The decoded bytes never exceed the budget by more than the one byte that
/// shows that the stream goes on, and that byte is refused.
pub proof fn law_lzip_budget(stream: LzipStreamModel, truncated: bool, bytes: Seq<u8>, buffer: nat)
    requires
        stream.decoded_limit matches Some(maximum) ==> stream.decoded_total <= maximum,
        bytes.len() <= stream.capacity(buffer),
    ensures
        stream.chunk(truncated, bytes) matches Ok(next) ==> (stream.decoded_limit matches Some(
            maximum,
        ) ==> next.decoded_total <= maximum),
{
}

} // verus!
