//! The RPM format as a writer lays it out, and the laws on how it is read.

use vstd::prelude::*;
use vstd::string::*;
use crate::bytes::{be32, has_prefix};
use crate::filtered::detect::{name_of, FilterId};
use crate::layout::{high4, law_high4_is_read, lemma_ascii, stands_at, zeros};
use crate::limits::Limits;
use crate::package::rpm::{
    declared, header_magic, header_sizes, lead_magic, tag_text, text_at, DeclaredCompressor,
    RpmStage, RpmView,
};
use crate::parts::lemma_first_index_is;

verus! {

/// A header: its index of records of sixteen bytes, and its store.
pub struct WrittenHeader {
    pub reserved: Seq<u8>,
    pub records: u32,
    pub index: Seq<u8>,
    pub store: Seq<u8>,
}

impl WrittenHeader {
    /// The index has as many records as it says, and the store a length of 32 bits.
    pub open spec fn is_allowed(self) -> bool {
        &&& self.reserved.len() == 4
        &&& self.index.len() == 16 * self.records
        &&& self.store.len() <= 0xffff_ffff
    }

    /// The bytes that begin the header: the magic with the version, four reserved
    /// bytes, the number of records and the length of the store.
    pub open spec fn intro(self) -> Seq<u8> {
        seq![0x8eu8, 0xad, 0xe8, 0x01] + self.reserved + high4(self.records) + high4(
            self.store.len() as u32,
        )
    }

    /// The bytes of the header.
    pub open spec fn bytes(self) -> Seq<u8> {
        self.intro() + self.index + self.store
    }
}

/// A package: a lead of 96 bytes, the signature header filled up to a multiple of
/// eight bytes, the main header, and the payload.
pub struct WrittenPackage {
    pub lead: Seq<u8>,
    pub signature: WrittenHeader,
    pub padding: nat,
    pub main: WrittenHeader,
    pub payload: Seq<u8>,
}

impl WrittenPackage {
    /// A package that the format allows.
    pub open spec fn is_allowed(self) -> bool {
        &&& self.lead.len() == 96
        &&& self.lead.subrange(0, 4) == seq![0xedu8, 0xab, 0xee, 0xdb]
        &&& self.signature.is_allowed()
        &&& self.main.is_allowed()
        &&& self.padding < 8
        &&& (self.signature.store.len() + self.padding) % 8 == 0
    }

    /// The headers fit a budget for metadata, and the address space.
    pub open spec fn fits(self, limits: Limits) -> bool {
        let first = self.signature.index.len() + self.signature.store.len();
        let second = self.main.index.len() + self.main.store.len();
        &&& first <= usize::MAX && second <= usize::MAX
        &&& limits.metadata_bytes matches Some(limit) ==> first <= limit && second <= limit
    }

    /// The bytes of the package.
    pub open spec fn bytes(self) -> Seq<u8> {
        self.lead + self.signature.bytes() + zeros(self.padding) + self.main.bytes()
            + self.payload
    }
}

/// The state before the first byte.
pub open spec fn fresh(limits: Limits) -> RpmView {
    RpmView {
        limits,
        stage: RpmStage::Lead,
        index: Seq::empty(),
        store: Seq::empty(),
        findings: Seq::empty(),
        container_readable: true,
        format_ok: false,
        payload_ok: false,
        payload_filter: None,
        payload_compressor: None,
    }
}

/// What a reader comes to who gives a state the bytes that it asks for, and the bytes
/// that are left; within some number of requests.
#[verifier::opaque]
pub open spec fn read_on(state: RpmView, bytes: Seq<u8>, requests: nat) -> (RpmView, Seq<u8>)
    decreases requests,
{
    match state.request() {
        None => (state, bytes),
        Some(length) => if requests == 0 {
            (state, bytes)
        } else if bytes.len() < length {
            (state.ended(), bytes)
        } else {
            read_on(
                state.supplied(bytes.take(length as int)),
                bytes.skip(length as int),
                (requests - 1) as nat,
            )
        },
    }
}

proof fn lemma_request(state: RpmView, part: Seq<u8>, rest: Seq<u8>, requests: nat)
    requires
        state.request() == Some(part.len() as usize),
        part.len() <= usize::MAX,
        requests > 0,
    ensures
        read_on(state, part + rest, requests) == read_on(
            state.supplied(part),
            rest,
            (requests - 1) as nat,
        ),
{
    reveal(read_on);
    assert((part + rest).take(part.len() as int) =~= part);
    assert((part + rest).skip(part.len() as int) =~= rest);
}

proof fn lemma_intro(header: WrittenHeader)
    requires
        header.is_allowed(),
    ensures
        header.intro().len() == 16,
        has_prefix(header.intro(), header_magic()),
        header_sizes(header.intro()) == (header.index.len(), header.store.len()),
{
    let intro = header.intro();
    let magic = seq![0x8eu8, 0xad, 0xe8, 0x01];
    assert(intro.subrange(0, 4) =~= magic);
    assert(magic =~= header_magic());
    assert(intro.subrange(8, 12) =~= high4(header.records));
    assert(intro.subrange(12, 16) =~= high4(header.store.len() as u32));
    law_high4_is_read(intro, 8, header.records);
    law_high4_is_read(intro, 12, header.store.len() as u32);
}

/// The state after a header was read.
pub open spec fn past_header(state: RpmView, header: WrittenHeader, stage: RpmStage) -> RpmView {
    RpmView { stage, index: header.index, store: header.store, ..state }
}

proof fn lemma_header(
    state: RpmView,
    signature: bool,
    header: WrittenHeader,
    rest: Seq<u8>,
    requests: nat,
)
    requires
        state.stage == (RpmStage::Intro { signature }),
        header.is_allowed(),
        header.index.len() + header.store.len() <= usize::MAX,
        state.limits.metadata_bytes matches Some(limit) ==> header.index.len() + header.store.len()
            <= limit,
        requests >= 3,
    ensures
        ({
            let after = state.supplied(header.intro()).supplied(header.index).supplied(
                header.store,
            );
            &&& read_on(state, header.bytes() + rest, requests) == read_on(
                after,
                rest,
                (requests - 3) as nat,
            )
            &&& after == past_header(state, header, after.stage)
            &&& !signature ==> after.stage == RpmStage::Payload
            &&& signature ==> after.stage == (RpmStage::Intro { signature: false })
                || after.stage is Padding
        }),
{
    lemma_intro(header);
    let first = state.supplied(header.intro());
    let second = first.supplied(header.index);
    assert(header.bytes() + rest =~= header.intro() + (header.index + (header.store + rest)));
    lemma_request(state, header.intro(), header.index + (header.store + rest), requests);
    lemma_request(first, header.index, header.store + rest, (requests - 1) as nat);
    lemma_request(second, header.store, rest, (requests - 2) as nat);
}

/// A package that is laid out as the format says is read: after seven requests, or
/// six where the signature's store needs no padding, the reader stands at the
/// payload with the index and the store of the main header, and nothing is found.
#[verifier::rlimit(60)]
#[verifier::spinoff_prover]
pub proof fn law_packages_are_read(package: WrittenPackage, limits: Limits)
    requires
        package.is_allowed(),
        package.fits(limits),
    ensures
        ({
            let requests = if package.padding == 0 {
                7nat
            } else {
                8
            };
            read_on(fresh(limits), package.bytes(), requests) == (
                past_header(fresh(limits), package.main, RpmStage::Payload),
                package.payload,
            )
        }),
{
    let start = fresh(limits);
    let begun = RpmView { stage: RpmStage::Intro { signature: true }, ..start };
    let fill = zeros(package.padding);
    let later = package.main.bytes() + package.payload;
    lemma_grouped(
        package.lead,
        package.signature.bytes(),
        fill,
        package.main.bytes(),
        package.payload,
    );
    lemma_lead(start, package.lead);
    lemma_request(
        start,
        package.lead,
        package.signature.bytes() + (fill + later),
        if package.padding == 0 {
            7
        } else {
            8
        },
    );
    lemma_signature(begun, package.signature, package.padding, later, 3);
    let ready = past_header(start, package.signature, RpmStage::Intro { signature: false });
    lemma_header(ready, false, package.main, package.payload, 3);
    let main = past_header(start, package.main, RpmStage::Payload);
    assert(past_header(ready, package.main, RpmStage::Payload) == main);
    assert(read_on(main, package.payload, 0) == (main, package.payload)) by {
        reveal(read_on);
    }
}

proof fn lemma_grouped(a: Seq<u8>, b: Seq<u8>, c: Seq<u8>, d: Seq<u8>, e: Seq<u8>)
    ensures
        a + b + c + d + e == a + (b + (c + (d + e))),
{
    assert(a + b + c + d + e =~= a + (b + (c + (d + e))));
}

proof fn lemma_lead(state: RpmView, lead: Seq<u8>)
    requires
        state.stage is Lead,
        lead.len() == 96,
        lead.subrange(0, 4) == seq![0xedu8, 0xab, 0xee, 0xdb],
    ensures
        state.request() == Some(96usize),
        state.supplied(lead) == (RpmView {
            stage: RpmStage::Intro { signature: true },
            ..state
        }),
{
    assert(seq![0xedu8, 0xab, 0xee, 0xdb] =~= lead_magic());
}

proof fn lemma_signature(
    state: RpmView,
    header: WrittenHeader,
    padding: nat,
    later: Seq<u8>,
    requests: nat,
)
    requires
        state.stage == (RpmStage::Intro { signature: true }),
        header.is_allowed(),
        header.index.len() + header.store.len() <= usize::MAX,
        state.limits.metadata_bytes matches Some(limit) ==> header.index.len() + header.store.len()
            <= limit,
        padding < 8,
        (header.store.len() + padding) % 8 == 0,
    ensures
        read_on(
            state,
            header.bytes() + (zeros(padding) + later),
            requests + if padding == 0 {
                3nat
            } else {
                4
            },
        ) == read_on(
            past_header(state, header, RpmStage::Intro { signature: false }),
            later,
            requests,
        ),
{
    let fill = zeros(padding);
    let all = requests + if padding == 0 {
        3nat
    } else {
        4
    };
    lemma_header(state, true, header, fill + later, all);
    let signed = state.supplied(header.intro()).supplied(header.index).supplied(header.store);
    lemma_signed_stage(state, header, padding);
    let ready = past_header(state, header, RpmStage::Intro { signature: false });
    if padding == 0 {
        assert(fill + later =~= later);
        assert(signed == ready);
    } else {
        lemma_request(signed, fill, later, requests + 1);
        assert(signed.supplied(fill) == ready);
    }
}

proof fn lemma_same_fill(length: int, first: int, second: int)
    requires
        0 <= first < 8,
        0 <= second < 8,
        (length + first) % 8 == 0,
        (length + second) % 8 == 0,
    ensures
        first == second,
{
}

proof fn lemma_signed_stage(state: RpmView, header: WrittenHeader, padding: nat)
    requires
        state.stage == (RpmStage::Intro { signature: true }),
        header.is_allowed(),
        header.index.len() + header.store.len() <= usize::MAX,
        state.limits.metadata_bytes matches Some(limit) ==> header.index.len() + header.store.len()
            <= limit,
        padding < 8,
        (header.store.len() + padding) % 8 == 0,
    ensures
        ({
            let signed = state.supplied(header.intro()).supplied(header.index).supplied(
                header.store,
            );
            if padding == 0 {
                signed.stage == (RpmStage::Intro { signature: false })
            } else {
                signed.stage == (RpmStage::Padding { length: padding as usize })
            }
        }),
{
    lemma_intro(header);
    let third = state.supplied(header.intro()).supplied(header.index);
    let signed = third.supplied(header.store);
    assert(third.stage == (RpmStage::Store {
        signature: true,
        length: header.store.len() as usize,
    }));
    law_padding_fills_words(third, header.store);
    let passed = match signed.stage {
        RpmStage::Padding { .. } => signed.request()->0 as int,
        _ => 0,
    };
    lemma_same_fill(header.store.len() as int, passed, padding as int);
}

/// After the store of the signature header, which takes `n` bytes, as many bytes are
/// passed over before the main header as bring `n` to a multiple of eight, and fewer
/// than eight.
pub proof fn law_padding_fills_words(state: RpmView, store: Seq<u8>)
    requires
        state.stage == (RpmStage::Store { signature: true, length: store.len() as usize }),
        store.len() <= usize::MAX,
    ensures
        ({
            let after = state.supplied(store);
            let passed = match after.stage {
                RpmStage::Padding { .. } => after.request()->0 as int,
                _ => 0,
            };
            &&& 0 <= passed < 8
            &&& (store.len() + passed) % 8 == 0
            &&& after.stage is Padding <==> passed > 0
            &&& after.stage !is Padding ==> after.stage == (RpmStage::Intro { signature: false })
        }),
{
}

// ---------------------------------------------------------------------------
// Tags
// ---------------------------------------------------------------------------

/// A record of an index: a tag, the type of its value, where the value begins in the
/// store, and how many there are.
pub struct WrittenTag {
    pub tag: u32,
    pub kind: u32,
    pub offset: u32,
    pub count: u32,
}

/// The bytes of a record.
pub open spec fn written_tag(record: WrittenTag) -> Seq<u8> {
    high4(record.tag) + high4(record.kind) + high4(record.offset) + high4(record.count)
}

/// The bytes of an index.
pub open spec fn written_index(records: Seq<WrittenTag>) -> Seq<u8>
    decreases records.len(),
{
    if records.len() == 0 {
        Seq::empty()
    } else {
        written_index(records.drop_last()) + written_tag(records.last())
    }
}

proof fn lemma_index_length(records: Seq<WrittenTag>)
    ensures
        written_index(records).len() == 16 * records.len(),
    decreases records.len(),
{
    if records.len() > 0 {
        lemma_index_length(records.drop_last());
    }
}

proof fn lemma_tag_stands(records: Seq<WrittenTag>, at: int)
    requires
        0 <= at < records.len(),
    ensures
        stands_at(written_index(records), 16 * at, written_tag(records[at])),
    decreases records.len(),
{
    lemma_index_length(records);
    lemma_index_length(records.drop_last());
    let all = written_index(records);
    let head = written_index(records.drop_last());
    let own = written_tag(records[at]);
    if at == records.len() - 1 {
        assert(all.subrange(16 * at, 16 * at + 16) =~= own);
    } else {
        lemma_tag_stands(records.drop_last(), at);
        assert(all.subrange(16 * at, 16 * at + 16) =~= head.subrange(16 * at, 16 * at + 16));
    }
}

proof fn lemma_tag_is_read(records: Seq<WrittenTag>, at: int)
    requires
        0 <= at < records.len(),
    ensures
        ({
            let index = written_index(records);
            &&& be32(index, 16 * at) == records[at].tag
            &&& be32(index, 16 * at + 4) == records[at].kind
            &&& be32(index, 16 * at + 8) == records[at].offset
        }),
{
    lemma_tag_stands(records, at);
    let index = written_index(records);
    let own = written_tag(records[at]);
    let part = index.subrange(16 * at, 16 * at + 16);
    assert(index.subrange(16 * at, 16 * at + 4) =~= part.subrange(0, 4));
    assert(own.subrange(0, 4) =~= high4(records[at].tag));
    assert(index.subrange(16 * at + 4, 16 * at + 8) =~= part.subrange(4, 8));
    assert(own.subrange(4, 8) =~= high4(records[at].kind));
    assert(index.subrange(16 * at + 8, 16 * at + 12) =~= part.subrange(8, 12));
    assert(own.subrange(8, 12) =~= high4(records[at].offset));
    law_high4_is_read(index, 16 * at, records[at].tag);
    law_high4_is_read(index, 16 * at + 4, records[at].kind);
    law_high4_is_read(index, 16 * at + 8, records[at].offset);
}

proof fn lemma_tag_text(
    records: Seq<WrittenTag>,
    store: Seq<u8>,
    tag: u32,
    at: int,
    count: nat,
)
    requires
        0 <= at < count <= records.len(),
        records[at].tag == tag,
        records[at].kind == 6,
        forall|i: int|
            at < i < records.len() ==> !((#[trigger] records[i]).tag == tag && records[i].kind
                == 6),
    ensures
        tag_text(written_index(records), store, tag, count) == text_at(
            store,
            records[at].offset as nat,
        ),
    decreases count,
{
    lemma_tag_is_read(records, count - 1);
    if count - 1 > at {
        lemma_tag_text(records, store, tag, at, (count - 1) as nat);
    }
}

/// The main header's texts are found: the format of the payload under the tag 1124
/// and its compressor under 1125, where the last record of that tag that is a text
/// says that it begins, up to a zero byte.
pub proof fn law_tags_are_found(
    state: RpmView,
    records: Seq<WrittenTag>,
    tag: u32,
    at: int,
    text: Seq<u8>,
)
    requires
        state.index == written_index(records),
        0 <= at < records.len(),
        records[at].tag == tag,
        records[at].kind == 6,
        forall|i: int|
            at < i < records.len() ==> !((#[trigger] records[i]).tag == tag && records[i].kind
                == 6),
        stands_at(state.store, records[at].offset as int, text + seq![0u8]),
        !text.contains(0),
    ensures
        state.tag(tag) == Some(text),
        tag == 1125 ==> state.at_payload(Seq::empty()).payload_compressor == Some(text),
        tag == 1124 ==> (state.at_payload(Seq::empty()).format_ok <==> text
            == "cpio".spec_bytes()),
{
    lemma_index_length(records);
    lemma_tag_text(records, state.store, tag, at, records.len());
    let offset = records[at].offset as int;
    let rest = state.store.skip(offset);
    let ended = text + seq![0u8];
    assert(rest.take(ended.len() as int) =~= state.store.subrange(
        offset,
        offset + ended.len(),
    ));
    assert forall|i: int| 0 <= i < text.len() implies rest[i] != 0 by {
        assert(rest.take(ended.len() as int)[i] == ended[i]);
        assert(text[i] == ended[i]);
    }
    assert(rest.take(ended.len() as int)[text.len() as int] == 0);
    lemma_first_index_is(rest, 0, text.len());
    assert(rest.take(text.len() as int) =~= text) by {
        assert forall|i: int| 0 <= i < text.len() implies rest[i] == text[i] by {
            assert(rest.take(ended.len() as int)[i] == ended[i]);
        }
    }
}

/// A compressor is declared by the name of its filter.
pub proof fn law_compressors_have_their_names(filter: FilterId, tag: Seq<u8>)
    requires
        filter == FilterId::Gzip || filter == FilterId::Bzip2 || filter == FilterId::Zstd || filter
            == FilterId::Xz || filter == FilterId::Lz4,
        tag.len() == name_of(filter).len(),
        forall|i: int| 0 <= i < tag.len() ==> tag[i] as int == #[trigger] name_of(filter)[i] as int,
    ensures
        declared(Some(tag)) == DeclaredCompressor::Known(Some(filter)),
{
    reveal_strlit("gzip");
    reveal_strlit("xz");
    reveal_strlit("zstd");
    reveal_strlit("bzip2");
    reveal_strlit("lz4");
    lemma_ascii("gzip");
    lemma_ascii("xz");
    lemma_ascii("zstd");
    lemma_ascii("bzip2");
    lemma_ascii("lz4");
    match filter {
        FilterId::Gzip => {
            assert(tag =~= "gzip".spec_bytes());
        },
        FilterId::Bzip2 => {
            assert(tag =~= "bzip2".spec_bytes());
        },
        FilterId::Zstd => {
            assert(tag =~= "zstd".spec_bytes());
            assert(tag[0] == 0x7a && "gzip".spec_bytes()[0] == 0x67);
        },
        FilterId::Xz => {
            assert(tag =~= "xz".spec_bytes());
        },
        _ => {
            assert(tag =~= "lz4".spec_bytes());
        },
    }
}

} // verus!
