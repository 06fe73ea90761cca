//! The XZ format as a writer lays it out, and the laws on how it is checked.

use vstd::prelude::*;
use vstd::arithmetic::power2::{lemma_pow2_unfold, pow2};
use crate::filter::xz_envelope::{
    block_fault, dictionary_size, filter_list_fault, lzma2_fault, lzma2_kib, place, skip_vli,
    vli_next, vli_scan, Vli,
};
use crate::layout::{lemma_byte_at, stands_at, zeros};

verus! {

// ---------------------------------------------------------------------------
// Multibyte integers
// ---------------------------------------------------------------------------

/// A number in groups of seven bits, the lowest first; every byte but the last has
/// its top bit set.
pub open spec fn written_vli(value: nat) -> Seq<u8>
    decreases value,
{
    if value < 128 {
        seq![value as u8]
    } else {
        seq![(128 + value % 128) as u8] + written_vli(value / 128)
    }
}

proof fn lemma_places(index: int)
    requires
        0 <= index < 9,
    ensures
        place(index + 1) == 128 * place(index),
        place(index) < place(9),
        place(index) >= 1,
{
}

/// What the first byte of a number does to the state of reading: it is the last one
/// and gives the value, or the rest of the number follows.
pub proof fn lemma_vli_step(vli: Vli, value: nat) -> (next: Vli)
    requires
        vli.wf(),
        vli.bytes < 9,
        value * place(vli.bytes as int) < place(9),
    ensures
        vli.value + value * place(vli.bytes as int) < place(9),
        value < 128 ==> vli_next(vli, value as u8) == Ok::<_, crate::error::ErrorView>(
            (next, Some((vli.value + value * place(vli.bytes as int)) as u64)),
        ),
        value >= 128 ==> {
            &&& vli_next(vli, (128 + value % 128) as u8) == Ok::<
                (Vli, Option<u64>),
                crate::error::ErrorView,
            >((next, None))
            &&& next.wf()
            &&& next.bytes < 9
            &&& (value / 128) * place(next.bytes as int) < place(9)
            &&& next.value + (value / 128) * place(next.bytes as int) == vli.value + value * place(
                vli.bytes as int,
            )
        },
{
    let k = vli.bytes as int;
    let p = place(k);
    lemma_places(k);
    let digit = value % 128;
    let next = Vli { value: (vli.value + digit * p) as u64, bytes: (vli.bytes + 1) as u8 };
    if value < 128 {
        assert(digit == value);
        assert(value * p <= 127 * p) by (nonlinear_arith)
            requires
                value <= 127,
        ;
        assert(vli.value + value * p < place(9)) by {
            if k == 8 {
                assert(vli.value < place(8));
                assert(value * p <= 127 * p);
            } else {
                assert(place(k + 1) == 128 * p);
            }
        }
        assert((value as u8 % 128) == value);
    } else {
        let rest = value / 128;
        assert(value == digit + 128 * rest);
        assert(rest * (128 * p) + digit * p == value * p) by (nonlinear_arith)
            requires
                value == digit + 128 * rest,
        ;
        assert(digit * p <= 127 * p) by (nonlinear_arith)
            requires
                digit <= 127,
        ;
        assert(rest * (128 * p) >= 128 * p) by (nonlinear_arith)
            requires
                rest >= 1,
        ;
        assert(digit * p >= 0) by (nonlinear_arith);
        assert(place(k + 1) < place(9));
        assert(k + 1 < 9);
        assert(((128 + value % 128) as u8 % 128) == digit);
        assert(next.wf());
        lemma_value_bound(next, rest);
    }
    next
}

proof fn lemma_value_bound(vli: Vli, value: nat)
    requires
        vli.wf(),
        vli.bytes < 9,
        value * place(vli.bytes as int) < place(9),
    ensures
        vli.value + value * place(vli.bytes as int) < place(9),
{
    let p = place(vli.bytes as int);
    lemma_places(vli.bytes as int);
    let all = place(9) / p;
    assert(place(9) == all * p) by {
        if vli.bytes == 8 {
            assert(all == 128);
        }
    }
    assert(value < all) by (nonlinear_arith)
        requires
            value * p < all * p,
            p >= 1,
    ;
    assert((value + 1) * p <= all * p) by (nonlinear_arith)
        requires
            value + 1 <= all,
            p >= 1,
    ;
    assert((value + 1) * p == value * p + p) by (nonlinear_arith);
}

proof fn lemma_vli_is_read(data: Seq<u8>, offset: int, end: int, vli: Vli, value: nat)
    requires
        vli.wf(),
        vli.bytes < 9,
        value * place(vli.bytes as int) < place(9),
        stands_at(data, offset, written_vli(value)),
        offset + written_vli(value).len() <= end,
    ensures
        vli_scan(data, offset, end, vli) == Ok::<_, crate::error::ErrorView>(
            (
                (vli.value + value * place(vli.bytes as int)) as u64,
                offset + written_vli(value).len(),
            ),
        ),
        vli.value + value * place(vli.bytes as int) < place(9),
    decreases value,
{
    let text = written_vli(value);
    lemma_byte_at(data, offset, text, 0);
    let next = lemma_vli_step(vli, value);
    if value >= 128 {
        let rest = value / 128;
        assert(text.skip(1) =~= written_vli(rest));
        assert(data.subrange(offset + 1, offset + 1 + written_vli(rest).len())
            =~= data.subrange(offset, offset + text.len()).skip(1));
        lemma_vli_is_read(data, offset + 1, end, next, rest);
    }
}

/// A number below two to the sixty-third power that was written as a multibyte
/// integer is read as that number, and what follows it is read next.
pub proof fn law_written_vli_is_read(data: Seq<u8>, offset: int, end: int, value: u64)
    requires
        value < 0x8000_0000_0000_0000,
        stands_at(data, offset, written_vli(value as nat)),
        offset + written_vli(value as nat).len() <= end,
    ensures
        vli_scan(data, offset, end, Vli::zero()) == Ok::<_, crate::error::ErrorView>(
            (value, offset + written_vli(value as nat).len()),
        ),
{
    assert(value * place(0) == value) by (nonlinear_arith)
        requires
            place(0) == 1,
    ;
    lemma_vli_is_read(data, offset, end, Vli::zero(), value as nat);
}

proof fn lemma_written_vli_len(value: nat)
    ensures
        written_vli(value).len() >= 1,
    decreases value,
{
    if value >= 128 {
        lemma_written_vli_len(value / 128);
    }
}

// ---------------------------------------------------------------------------
// Block headers
// ---------------------------------------------------------------------------

/// A filter of a block: its number and its properties.
pub struct WrittenFilter {
    pub id: u64,
    pub properties: Seq<u8>,
}

/// A filter as a block header lists it.
pub open spec fn written_filter(filter: WrittenFilter) -> Seq<u8> {
    written_vli(filter.id as nat) + written_vli(filter.properties.len()) + filter.properties
}

/// A list of filters.
pub open spec fn written_filters(filters: Seq<WrittenFilter>) -> Seq<u8>
    decreases filters.len(),
{
    if filters.len() == 0 {
        Seq::empty()
    } else {
        written_filter(filters[0]) + written_filters(filters.skip(1))
    }
}

/// A size that a header may leave out.
pub open spec fn written_size(size: Option<u64>) -> Seq<u8> {
    match size {
        Some(size) => written_vli(size as nat),
        None => Seq::empty(),
    }
}

/// What a block header holds.
pub struct WrittenBlockHeader {
    pub compressed: Option<u64>,
    pub uncompressed: Option<u64>,
    pub filters: Seq<WrittenFilter>,
    /// How many zero bytes fill the header up.
    pub padding: nat,
    pub crc: Seq<u8>,
}

impl WrittenBlockHeader {
    /// The flags: one less than the number of filters, and a bit for each size.
    pub open spec fn flags(self) -> u8 {
        (self.filters.len() - 1 + (if self.compressed is Some {
            0x40int
        } else {
            0
        }) + (if self.uncompressed is Some {
            0x80int
        } else {
            0
        })) as u8
    }

    /// What stands between the flags and the padding.
    pub open spec fn fields(self) -> Seq<u8> {
        written_size(self.compressed) + written_size(self.uncompressed) + written_filters(
            self.filters,
        )
    }

    /// The bytes of the header. The first counts words of four bytes, less one.
    pub open spec fn bytes(self) -> Seq<u8> {
        let length = 2 + self.fields().len() + self.padding + 4;
        seq![(length / 4 - 1) as u8, self.flags()] + self.fields() + zeros(self.padding) + self.crc
    }

    /// A header that the format allows: one to four filters, sizes and numbers of
    /// 63 bits, a checksum of four bytes, and words of four bytes in all.
    pub open spec fn is_allowed(self) -> bool {
        &&& 1 <= self.filters.len() <= 4
        &&& self.crc.len() == 4
        &&& self.compressed matches Some(size) ==> size < 0x8000_0000_0000_0000
        &&& self.uncompressed matches Some(size) ==> size < 0x8000_0000_0000_0000
        &&& forall|i: int|
            0 <= i < self.filters.len() ==> (#[trigger] self.filters[i]).id
                < 0x8000_0000_0000_0000
        &&& 8 <= self.bytes().len() <= 1024
        &&& self.bytes().len() % 4 == 0
    }
}

/// A filter asks for no more than a budget: it is not LZMA2, or its one property
/// stands for a dictionary that LZMA2 decodes within the budget.
pub open spec fn filter_fits(filter: WrittenFilter, limit: nat) -> bool {
    filter.id == 0x21 ==> {
        &&& filter.properties.len() == 1
        &&& dictionary_size(filter.properties[0]) matches Some(size) && lzma2_kib(size as u32)
            * 1024 <= limit
    }
}

/// A property byte stands for a dictionary of 4 KiB, of 6 KiB, or of twice the
/// size of the one two before it, up to the largest; bytes beyond stand for none.
pub proof fn law_dictionaries_double(property: u8)
    ensures
        dictionary_size(0) == Some(4096nat),
        dictionary_size(1) == Some(6144nat),
        property < 38 ==> dictionary_size((property + 2) as u8) == Some(
            2 * dictionary_size(property)->0,
        ),
        dictionary_size(40) == Some(0xffff_ffffnat),
        property <= 40 <==> dictionary_size(property) is Some,
{
    vstd::arithmetic::power2::lemma2_to64();
    assert((2 + 0u8 % 2) * pow2((0u8 / 2 + 11) as nat) == 2 * 2048);
    assert((2 + 1u8 % 2) * pow2((1u8 / 2 + 11) as nat) == 3 * 2048);
    if property < 38 {
        let shift = (property / 2 + 11) as nat;
        lemma_pow2_unfold(shift + 1);
        assert((property + 2) / 2 + 11 == shift + 1);
        let base: int = 2 + property % 2;
        assert(base * (2 * pow2(shift)) == 2 * (base * pow2(shift))) by (nonlinear_arith);
    }
}

proof fn lemma_filters_are_read(
    header: Seq<u8>,
    offset: int,
    end: int,
    filters: Seq<WrittenFilter>,
    limit: nat,
)
    requires
        end <= 1024,
        forall|i: int|
            0 <= i < filters.len() ==> (#[trigger] filters[i]).id < 0x8000_0000_0000_0000,
        stands_at(header, offset, written_filters(filters)),
        offset + written_filters(filters).len() <= end,
    ensures
        filter_list_fault(header, offset, end, filters.len(), limit) is None <==> forall|i: int|
            0 <= i < filters.len() ==> filter_fits(#[trigger] filters[i], limit),
    decreases filters.len(),
{
    if filters.len() > 0 {
        let filter = filters[0];
        let whole = written_filters(filters);
        let rest = filters.skip(1);
        let id = written_vli(filter.id as nat);
        let size = written_vli(filter.properties.len());
        let count = filter.properties.len();
        let part = header.subrange(offset, offset + whole.len());
        assert(count <= whole.len());
        assert(header.subrange(offset, offset + id.len()) =~= part.subrange(0, id.len() as int));
        assert(whole.subrange(0, id.len() as int) =~= id);
        law_written_vli_is_read(header, offset, end, filter.id);
        let sized = offset + id.len();
        assert(header.subrange(sized, sized + size.len()) =~= part.subrange(
            id.len() as int,
            (id.len() + size.len()) as int,
        ));
        assert(whole.subrange(id.len() as int, (id.len() + size.len()) as int) =~= size);
        law_written_vli_is_read(header, sized, end, count as u64);
        let start = sized + size.len();
        let head = id.len() + size.len();
        assert(header.subrange(start, start + count) =~= part.subrange(
            head as int,
            (head + count) as int,
        ));
        assert(whole.subrange(head as int, (head + count) as int) =~= filter.properties);
        if count > 0 {
            assert(header.subrange(start, start + count)[0] == header[start]);
        }
        assert(header.subrange(start + count, start + count + written_filters(rest).len())
            =~= part.subrange((head + count) as int, whole.len() as int));
        assert(whole.subrange((head + count) as int, whole.len() as int) =~= written_filters(rest));
        assert forall|i: int| 0 <= i < rest.len() implies (#[trigger] rest[i]).id
            < 0x8000_0000_0000_0000 by {
            assert(rest[i] == filters[i + 1]);
        }
        lemma_filters_are_read(header, start + count, end, rest, limit);
        assert((forall|i: int| 0 <= i < filters.len() ==> filter_fits(#[trigger] filters[i], limit))
            <==> filter_fits(filter, limit) && (forall|i: int|
            0 <= i < rest.len() ==> filter_fits(#[trigger] rest[i], limit))) by {
            if forall|i: int| 0 <= i < filters.len() ==> filter_fits(#[trigger] filters[i], limit) {
                assert forall|i: int| 0 <= i < rest.len() implies filter_fits(
                    #[trigger] rest[i],
                    limit,
                ) by {
                    assert(rest[i] == filters[i + 1]);
                }
            }
            if filter_fits(filter, limit) && (forall|i: int|
                0 <= i < rest.len() ==> filter_fits(#[trigger] rest[i], limit)) {
                assert forall|i: int| 0 <= i < filters.len() implies filter_fits(
                    #[trigger] filters[i],
                    limit,
                ) by {
                    if i > 0 {
                        assert(rest[i - 1] == filters[i]);
                    }
                }
            }
        }
        assert(filter.id == 0x21 && count == 1 ==> (lzma2_fault(header[start], limit) is None <==> (
        dictionary_size(filter.properties[0]) matches Some(size) && lzma2_kib(size as u32) * 1024
            <= limit)));
    }
}

proof fn lemma_flags(header: WrittenBlockHeader)
    requires
        1 <= header.filters.len() <= 4,
    ensures
        header.flags() % 4 + 1 == header.filters.len(),
        (header.flags() / 64) % 2 == 1 <==> header.compressed is Some,
        header.flags() / 128 == 1 <==> header.uncompressed is Some,
{
}

/// A block header that is laid out as the format says is accepted exactly if every
/// LZMA2 filter that it lists fits the budget, whether or not it records the sizes
/// of the block; without a budget it always is.
#[verifier::rlimit(40)]
#[verifier::spinoff_prover]
pub proof fn law_block_headers_are_judged_by_their_filters(
    header: WrittenBlockHeader,
    codec_memory: Option<usize>,
)
    requires
        header.is_allowed(),
    ensures
        block_fault(header.bytes(), codec_memory) is None <==> (codec_memory matches Some(limit)
            ==> forall|i: int|
            0 <= i < header.filters.len() ==> filter_fits(
                #[trigger] header.filters[i],
                limit as nat,
            )),
{
    if let Some(limit) = codec_memory {
        let bytes = header.bytes();
        let end = bytes.len() - 4;
        let first = written_size(header.compressed);
        let second = written_size(header.uncompressed);
        let list = written_filters(header.filters);
        let flags = header.flags();
        assert(bytes[1] == flags);
        lemma_flags(header);
        assert(bytes.subrange(2, 2 + first.len() as int) =~= first);
        if let Some(size) = header.compressed {
            law_written_vli_is_read(bytes, 2, end, size);
        }
        let at = 2 + first.len();
        assert(skip_vli(bytes, 2, end, header.compressed is Some) == Ok::<
            int,
            crate::error::ErrorView,
        >(at as int));
        assert(bytes.subrange(at as int, (at + second.len()) as int) =~= second);
        if let Some(size) = header.uncompressed {
            law_written_vli_is_read(bytes, at as int, end, size);
        }
        let filters = at + second.len();
        assert(skip_vli(bytes, at as int, end, header.uncompressed is Some) == Ok::<
            int,
            crate::error::ErrorView,
        >(filters as int));
        assert(bytes.subrange(filters as int, (filters + list.len()) as int) =~= list);
        lemma_filters_are_read(bytes, filters as int, end, header.filters, limit as nat);
    }
}

} // verus!
