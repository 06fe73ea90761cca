//! Which outer filter an input or output has, and what a reader may decode.

use vstd::prelude::*;
use vstd::string::*;
use crate::bytes::{copy_at, has_prefix, overlay, same_bytes, starts_with};
use crate::error::{fault, plain_fault, ArchiveError, ErrorKind, ErrorView};
use crate::io_fault::{io_fault, IoFault, IoKind};
use crate::parts::{components, SLASH};
use crate::path::{is_parent, named_components};

verus! {

/// An outer filter.
#[derive(Clone, Copy, Debug, PartialEq, Eq, Structural)]
pub enum FilterId {
    Gzip,
    Deflate,
    Bzip2,
    Zstd,
    Xz,
    Lz4,
    Compress,
    Lzip,
}

/// Which implementation of a codec is used.
#[derive(Clone, Copy, Debug, PartialEq, Eq, Structural)]
pub enum Backend {
    Portable,
    Native,
}

/// Which implementation of a codec is wanted.
#[derive(Clone, Copy, Debug, PartialEq, Eq, Structural)]
pub enum BackendPreference {
    Auto,
    Portable,
    Native,
}

// ---------------------------------------------------------------------------
// Detection
// ---------------------------------------------------------------------------

/// The filter that a prefix announces.
pub open spec fn announced(prefix: Seq<u8>) -> Option<FilterId> {
    if has_prefix(prefix, seq![0x4cu8, 0x5au8, 0x49u8, 0x50u8]) {
        Some(FilterId::Lzip)
    } else if has_prefix(prefix, seq![0x1fu8, 0x8bu8]) {
        Some(FilterId::Gzip)
    } else if has_prefix(prefix, seq![0x1fu8, 0x9du8]) {
        Some(FilterId::Compress)
    } else if has_prefix(prefix, seq![0x42u8, 0x5au8, 0x68u8]) {
        Some(FilterId::Bzip2)
    } else if has_prefix(prefix, seq![0x28u8, 0xb5u8, 0x2fu8, 0xfdu8]) {
        Some(FilterId::Zstd)
    } else if has_prefix(prefix, seq![0xfdu8, 0x37u8, 0x7au8, 0x58u8, 0x5au8, 0u8]) {
        Some(FilterId::Xz)
    } else if has_prefix(prefix, seq![0x04u8, 0x22u8, 0x4du8, 0x18u8]) {
        Some(FilterId::Lz4)
    } else {
        None
    }
}

/// Detects the filter that a prefix announces.
pub fn detect_filter(prefix: &[u8]) -> (filter: Option<FilterId>)
    ensures
        filter == announced(prefix@),
{
    let lzip: [u8; 4] = [0x4c, 0x5a, 0x49, 0x50];
    let gzip: [u8; 2] = [0x1f, 0x8b];
    let compress: [u8; 2] = [0x1f, 0x9d];
    let bzip2: [u8; 3] = [0x42, 0x5a, 0x68];
    let zstd: [u8; 4] = [0x28, 0xb5, 0x2f, 0xfd];
    let xz: [u8; 6] = [0xfd, 0x37, 0x7a, 0x58, 0x5a, 0];
    let lz4: [u8; 4] = [0x04, 0x22, 0x4d, 0x18];
    proof {
        assert(lzip@ =~= seq![0x4cu8, 0x5au8, 0x49u8, 0x50u8]);
        assert(gzip@ =~= seq![0x1fu8, 0x8bu8]);
        assert(compress@ =~= seq![0x1fu8, 0x9du8]);
        assert(bzip2@ =~= seq![0x42u8, 0x5au8, 0x68u8]);
        assert(zstd@ =~= seq![0x28u8, 0xb5u8, 0x2fu8, 0xfdu8]);
        assert(xz@ =~= seq![0xfdu8, 0x37u8, 0x7au8, 0x58u8, 0x5au8, 0u8]);
        assert(lz4@ =~= seq![0x04u8, 0x22u8, 0x4du8, 0x18u8]);
    }
    if starts_with(prefix, &lzip) {
        Some(FilterId::Lzip)
    } else if starts_with(prefix, &gzip) {
        Some(FilterId::Gzip)
    } else if starts_with(prefix, &compress) {
        Some(FilterId::Compress)
    } else if starts_with(prefix, &bzip2) {
        Some(FilterId::Bzip2)
    } else if starts_with(prefix, &zstd) {
        Some(FilterId::Zstd)
    } else if starts_with(prefix, &xz) {
        Some(FilterId::Xz)
    } else if starts_with(prefix, &lz4) {
        Some(FilterId::Lz4)
    } else {
        None
    }
}

/// The codec that decodes a filter.
#[derive(Clone, Copy, Debug, PartialEq, Eq, Structural)]
pub struct CodecChoice {
    pub filter: FilterId,
    pub backend: Backend,
}

/// The name of a filter in messages.
pub open spec fn name_of(filter: FilterId) -> Seq<char> {
    match filter {
        FilterId::Gzip => "gzip"@,
        FilterId::Deflate => "deflate"@,
        FilterId::Bzip2 => "bzip2"@,
        FilterId::Zstd => "zstd"@,
        FilterId::Xz => "xz"@,
        FilterId::Lz4 => "lz4"@,
        FilterId::Compress => "compress"@,
        FilterId::Lzip => "lzip"@,
    }
}

/// The name of a filter in messages.
pub fn filter_name(filter: FilterId) -> (name: &'static str)
    ensures
        name@ == name_of(filter),
{
    match filter {
        FilterId::Gzip => "gzip",
        FilterId::Deflate => "deflate",
        FilterId::Bzip2 => "bzip2",
        FilterId::Zstd => "zstd",
        FilterId::Xz => "xz",
        FilterId::Lz4 => "lz4",
        FilterId::Compress => "compress",
        FilterId::Lzip => "lzip",
    }
}

/// An error about a filter.
pub open spec fn filter_fault(kind: ErrorKind, filter: FilterId, context: Seq<char>) -> ErrorView {
    ErrorView { kind, format: Some(name_of(filter)), context }
}

fn filter_error(kind: ErrorKind, filter: FilterId, context: &str) -> (error: ArchiveError)
    ensures
        error@ == filter_fault(kind, filter, context@),
{
    ArchiveError::of_format(kind, filter_name(filter), context)
}

/// The outcome of a backend choice.
pub open spec fn resolved_view(resolved: Result<Backend, ArchiveError>) -> Result<
    Backend,
    ErrorView,
> {
    match resolved {
        Ok(backend) => Ok(backend),
        Err(error) => Err(error@),
    }
}

/// The codec for a filter, given which backend the preference resolves to.
/// `deflate`, `compress` and `lzip` have portable codecs only.
pub open spec fn chosen(
    filter: FilterId,
    preference: BackendPreference,
    resolved: Result<Backend, ErrorView>,
) -> Result<CodecChoice, ErrorView> {
    match filter {
        FilterId::Deflate => Ok(CodecChoice { filter, backend: Backend::Portable }),
        FilterId::Compress => if preference == BackendPreference::Native {
            Err(
                filter_fault(
                    ErrorKind::Capability,
                    filter,
                    "the Unix compress/LZW filter has no native backend"@,
                ),
            )
        } else {
            Ok(CodecChoice { filter, backend: Backend::Portable })
        },
        FilterId::Lzip => if preference == BackendPreference::Native {
            Err(
                filter_fault(
                    ErrorKind::Capability,
                    filter,
                    "the lzip filter has no native backend"@,
                ),
            )
        } else {
            Ok(CodecChoice { filter, backend: Backend::Portable })
        },
        _ => match resolved {
            Err(error) => Err(error),
            Ok(backend) => if backend == Backend::Native && filter != FilterId::Bzip2 {
                Err(
                    filter_fault(
                        ErrorKind::Capability,
                        filter,
                        "requested native codec backend is not compiled"@,
                    ),
                )
            } else {
                Ok(CodecChoice { filter, backend })
            },
        },
    }
}

/// Chooses the codec for a filter.
pub fn choose_codec(
    filter: FilterId,
    preference: BackendPreference,
    resolved: Result<Backend, ArchiveError>,
) -> (result: Result<CodecChoice, ArchiveError>)
    ensures
        match result {
            Ok(choice) => chosen(filter, preference, resolved_view(resolved)) == Ok::<
                _,
                ErrorView,
            >(choice),
            Err(error) => chosen(filter, preference, resolved_view(resolved)) == Err::<
                CodecChoice,
                _,
            >(error@),
        },
{
    match filter {
        FilterId::Deflate => Ok(CodecChoice { filter, backend: Backend::Portable }),
        FilterId::Compress => {
            if preference == BackendPreference::Native {
                return Err(
                    filter_error(
                        ErrorKind::Capability,
                        filter,
                        "the Unix compress/LZW filter has no native backend",
                    ),
                );
            }
            Ok(CodecChoice { filter, backend: Backend::Portable })
        },
        FilterId::Lzip => {
            if preference == BackendPreference::Native {
                return Err(
                    filter_error(
                        ErrorKind::Capability,
                        filter,
                        "the lzip filter has no native backend",
                    ),
                );
            }
            Ok(CodecChoice { filter, backend: Backend::Portable })
        },
        _ => {
            let backend = resolved?;
            if backend == Backend::Native && filter != FilterId::Bzip2 {
                return Err(
                    filter_error(
                        ErrorKind::Capability,
                        filter,
                        "requested native codec backend is not compiled",
                    ),
                );
            }
            Ok(CodecChoice { filter, backend })
        },
    }
}

/// How an input that begins with `prefix` is read: through a codec, or as it
/// is. An lzip input needs no backend; for all others the preference must
/// resolve.
pub open spec fn input_codec(
    prefix: Seq<u8>,
    preference: BackendPreference,
    resolved: Result<Backend, ErrorView>,
) -> Result<Option<CodecChoice>, ErrorView> {
    match announced(prefix) {
        Some(FilterId::Lzip) => match chosen(FilterId::Lzip, preference, resolved) {
            Ok(choice) => Ok(Some(choice)),
            Err(error) => Err(error),
        },
        found => match resolved {
            Err(error) => Err(error),
            Ok(_) => match found {
                None => Ok(None),
                Some(filter) => match chosen(filter, preference, resolved) {
                    Ok(choice) => Ok(Some(choice)),
                    Err(error) => Err(error),
                },
            },
        },
    }
}

/// Decides how an input is read.
pub fn choose_input_codec(
    prefix: &[u8],
    preference: BackendPreference,
    resolved: Result<Backend, ArchiveError>,
) -> (result: Result<Option<CodecChoice>, ArchiveError>)
    ensures
        match result {
            Ok(choice) => input_codec(prefix@, preference, resolved_view(resolved)) == Ok::<
                _,
                ErrorView,
            >(choice),
            Err(error) => input_codec(prefix@, preference, resolved_view(resolved)) == Err::<
                Option<CodecChoice>,
                _,
            >(error@),
        },
{
    let found = detect_filter(prefix);
    if let Some(FilterId::Lzip) = found {
        return match choose_codec(FilterId::Lzip, preference, resolved) {
            Ok(choice) => Ok(Some(choice)),
            Err(error) => Err(error),
        };
    }
    let backend = resolved?;
    match found {
        None => Ok(None),
        Some(filter) => match choose_codec(filter, preference, Ok(backend)) {
            Ok(choice) => Ok(Some(choice)),
            Err(error) => Err(error),
        },
    }
}

/// How an output is written.
#[derive(Clone, Copy, Debug, PartialEq, Eq, Structural)]
pub enum OutputFilter {
    Plain,
    Gzip,
    Bzip2,
    Zstd,
    Xz,
    Lz4,
}

/// How an output with a filter is written.
pub open spec fn output_codec(
    filter: Option<FilterId>,
    resolved: Result<Backend, ErrorView>,
) -> Result<OutputFilter, ErrorView> {
    match resolved {
        Err(error) => Err(error),
        Ok(backend) => match filter {
            None => Ok(OutputFilter::Plain),
            Some(FilterId::Lzip) => Err(
                filter_fault(ErrorKind::Capability, FilterId::Lzip, "lzip filter is read-only"@),
            ),
            Some(FilterId::Gzip) => if backend == Backend::Native {
                Err(plain_fault(ErrorKind::Capability, "native codec backend is not compiled"@))
            } else {
                Ok(OutputFilter::Gzip)
            },
            Some(FilterId::Bzip2) => Ok(OutputFilter::Bzip2),
            Some(FilterId::Zstd) => Ok(OutputFilter::Zstd),
            Some(FilterId::Xz) => Ok(OutputFilter::Xz),
            Some(FilterId::Lz4) => Ok(OutputFilter::Lz4),
            Some(_) => Err(
                plain_fault(
                    ErrorKind::Capability,
                    "filter is disabled or has no incremental writer"@,
                ),
            ),
        },
    }
}

/// Decides how an output is written.
pub fn choose_output_codec(filter: Option<FilterId>, resolved: Result<Backend, ArchiveError>) -> (
    result: Result<OutputFilter, ArchiveError>)
    ensures
        match result {
            Ok(choice) => output_codec(filter, resolved_view(resolved)) == Ok::<_, ErrorView>(
                choice,
            ),
            Err(error) => output_codec(filter, resolved_view(resolved)) == Err::<OutputFilter, _>(
                error@,
            ),
        },
{
    let backend = resolved?;
    match filter {
        None => Ok(OutputFilter::Plain),
        Some(FilterId::Lzip) => Err(
            filter_error(ErrorKind::Capability, FilterId::Lzip, "lzip filter is read-only"),
        ),
        Some(FilterId::Gzip) => {
            if backend == Backend::Native {
                return Err(
                    ArchiveError::plain(
                        ErrorKind::Capability,
                        "native codec backend is not compiled",
                    ),
                );
            }
            Ok(OutputFilter::Gzip)
        },
        Some(FilterId::Bzip2) => Ok(OutputFilter::Bzip2),
        Some(FilterId::Zstd) => Ok(OutputFilter::Zstd),
        Some(FilterId::Xz) => Ok(OutputFilter::Xz),
        Some(FilterId::Lz4) => Ok(OutputFilter::Lz4),
        Some(_) => Err(
            ArchiveError::plain(
                ErrorKind::Capability,
                "filter is disabled or has no incremental writer",
            ),
        ),
    }
}

/// A byte with an ASCII letter lowered.
pub open spec fn lowered(byte: u8) -> u8 {
    if 0x41 <= byte <= 0x5a {
        (byte + 0x20) as u8
    } else {
        byte
    }
}

/// A text with its ASCII letters lowered.
pub open spec fn lowercase(text: Seq<u8>) -> Seq<u8> {
    Seq::new(text.len(), |i: int| lowered(text[i]))
}

/// The filter that a file name extension stands for, in any case.
pub open spec fn extension_filter(extension: Seq<u8>) -> Option<FilterId> {
    let text = lowercase(extension);
    if text == "gz".spec_bytes() || text == "tgz".spec_bytes() {
        Some(FilterId::Gzip)
    } else if text == "bz2".spec_bytes() || text == "tbz".spec_bytes() || text
        == "tbz2".spec_bytes() {
        Some(FilterId::Bzip2)
    } else if text == "zst".spec_bytes() {
        Some(FilterId::Zstd)
    } else if text == "xz".spec_bytes() {
        Some(FilterId::Xz)
    } else if text == "lz4".spec_bytes() {
        Some(FilterId::Lz4)
    } else if text == "z".spec_bytes() {
        Some(FilterId::Compress)
    } else if text == "lz".spec_bytes() {
        Some(FilterId::Lzip)
    } else {
        None
    }
}

/// Lowers the ASCII letters of a text.
pub fn to_lowercase(text: &[u8]) -> (lower: Vec<u8>)
    ensures
        lower@ == lowercase(text@),
{
    let mut lower: Vec<u8> = Vec::new();
    let mut i: usize = 0;
    while i < text.len()
        invariant
            i <= text@.len(),
            lower@ =~= lowercase(text@.take(i as int)),
        decreases text@.len() - i,
    {
        let byte: u8 = text[i];
        if 0x41 <= byte && byte <= 0x5a {
            lower.push(byte + 0x20);
        } else {
            lower.push(byte);
        }
        i += 1;
    }
    proof {
        assert(text@.take(i as int) =~= text@);
    }
    lower
}

/// The filter that a file name extension stands for.
pub fn filter_for_extension(extension: &[u8]) -> (filter: Option<FilterId>)
    ensures
        filter == extension_filter(extension@),
{
    let lower = to_lowercase(extension);
    let text = lower.as_slice();
    if same_bytes(text, "gz".as_bytes()) || same_bytes(text, "tgz".as_bytes()) {
        Some(FilterId::Gzip)
    } else if same_bytes(text, "bz2".as_bytes()) || same_bytes(text, "tbz".as_bytes())
        || same_bytes(text, "tbz2".as_bytes()) {
        Some(FilterId::Bzip2)
    } else if same_bytes(text, "zst".as_bytes()) {
        Some(FilterId::Zstd)
    } else if same_bytes(text, "xz".as_bytes()) {
        Some(FilterId::Xz)
    } else if same_bytes(text, "lz4".as_bytes()) {
        Some(FilterId::Lz4)
    } else if same_bytes(text, "z".as_bytes()) {
        Some(FilterId::Compress)
    } else if same_bytes(text, "lz".as_bytes()) {
        Some(FilterId::Lzip)
    } else {
        None
    }
}

/// Where a byte last occurs, or `-1`.
pub open spec fn last_place(text: Seq<u8>, byte: u8) -> int
    decreases text.len(),
{
    if text.len() == 0 {
        -1
    } else if text.last() == byte {
        text.len() - 1
    } else {
        last_place(text.drop_last(), byte)
    }
}

/// The file that a name stands for: the last of its parts between slashes, of which
/// dots count for nothing. None if there is none, or if it is the parent.
pub open spec fn file_part(name: Seq<u8>) -> Option<Seq<u8>> {
    let parts = named_components(components(name));
    if parts.len() == 0 || is_parent(parts.last()) {
        None
    } else {
        Some(parts.last())
    }
}

/// A name that every host cuts at the same places: slashes alone separate its
/// parts, and neither two of them nor a drive stand at its beginning.
pub open spec fn is_portable_name(name: Seq<u8>) -> bool {
    &&& !name.contains(0x5c)
    &&& !has_prefix(name, seq![SLASH, SLASH])
    &&& !(name.len() > 1 && name[1] == 0x3a)
}

/// What follows the last dot of a file name, unless the name begins with it.
pub open spec fn extension_of(file: Seq<u8>) -> Option<Seq<u8>> {
    let dot = last_place(file, 0x2e);
    if dot > 0 {
        Some(file.skip(dot + 1))
    } else {
        None
    }
}

/// The extension of the file that a name stands for.
pub open spec fn name_extension(name: Seq<u8>) -> Option<Seq<u8>> {
    match file_part(name) {
        Some(file) => extension_of(file),
        None => None,
    }
}

/// `std::path::Path::extension`, as text. Claimed: for a portable name it is
/// what follows the last dot of the file name, unless there is no dot but one at
/// the beginning, and there is none where the name ends in no file. Nothing is
/// claimed of other names, which hosts cut differently.
#[verifier::external_body]
fn host_extension(name: &str) -> (extension: Option<&str>)
    ensures
        is_portable_name(name.spec_bytes()) ==> match extension {
            Some(text) => name_extension(name.spec_bytes()) == Some(text.spec_bytes()),
            None => name_extension(name.spec_bytes()) is None,
        },
{
    std::path::Path::new(name).extension().and_then(|text| text.to_str())
}

/// The filter that an extension, if there is one, stands for.
pub open spec fn found_filter(extension: Option<Seq<u8>>) -> Option<FilterId> {
    match extension {
        Some(text) => extension_filter(text),
        None => None,
    }
}

/// Returns the compression codec implied by a filename. The host decides where
/// the extension of a name begins that is not portable.
pub fn filter_for_name(name: &str) -> (filter: Option<FilterId>)
    ensures
        is_portable_name(name.spec_bytes()) ==> filter == found_filter(
            name_extension(name.spec_bytes()),
        ),
        exists|extension: Option<Seq<u8>>| filter == #[trigger] found_filter(extension),
{
    match host_extension(name) {
        Some(extension) => {
            let filter = filter_for_extension(extension.as_bytes());
            proof {
                assert(filter == found_filter(Some(extension.spec_bytes())));
            }
            filter
        },
        None => {
            proof {
                assert(found_filter(None) is None);
            }
            None
        },
    }
}

// ---------------------------------------------------------------------------
// Prefix
// ---------------------------------------------------------------------------

/// The first bytes of an input, read to detect its filter and then handed on.
pub struct Prefix {
    pub bytes: [u8; 6],
    pub len: usize,
    pub position: usize,
}

impl View for Prefix {
    type V = Seq<u8>;

    /// The bytes that have not been handed on.
    open spec fn view(&self) -> Seq<u8> {
        self.bytes@.subrange(self.position as int, self.len as int)
    }
}

impl Prefix {
    /// The position lies within the bytes that were read.
    pub open spec fn wf(self) -> bool {
        self.position <= self.len <= 6
    }

    /// Bytes that were read ahead.
    pub fn new(bytes: [u8; 6], len: usize) -> (prefix: Self)
        requires
            len <= 6,
        ensures
            prefix.wf(),
            prefix@ == bytes@.take(len as int),
    {
        let prefix = Prefix { bytes, len, position: 0 };
        proof {
            assert(prefix@ =~= bytes@.take(len as int));
        }
        prefix
    }

    /// Hands bytes on to a reader. `None` if there is none left, and the input
    /// itself is to be read.
    pub fn read(&mut self, output: &mut [u8]) -> (count: Option<usize>)
        requires
            old(self).wf(),
        ensures
            final(self).wf(),
            match count {
                None => old(self)@.len() == 0 && old(output)@.len() > 0 && final(output)@ == old(
                    output,
                )@ && final(self)@ == old(self)@,
                Some(count) => {
                    &&& count == if old(self)@.len() < old(output)@.len() {
                        old(self)@.len()
                    } else {
                        old(output)@.len()
                    }
                    &&& count == 0 ==> old(output)@.len() == 0
                    &&& final(output)@ == overlay(old(output)@, 0, old(self)@.take(count as int))
                    &&& final(self)@ == old(self)@.skip(count as int)
                },
            },
    {
        proof {
            assert(overlay(output@, 0, self@.take(0)) =~= output@);
            assert(self@.skip(0) =~= self@);
        }
        if output.len() == 0 {
            return Some(0);
        }
        if self.position == self.len {
            return None;
        }
        let left: usize = self.len - self.position;
        let count: usize = if left < output.len() {
            left
        } else {
            output.len()
        };
        let ghost at = self.position as int;
        copy_at(output, 0, &self.bytes, self.position, count);
        proof {
            assert(self@.take(count as int) =~= self.bytes@.subrange(at, at + count));
        }
        self.position = self.position + count;
        proof {
            assert(self@ =~= old(self)@.skip(count as int));
        }
        Some(count)
    }
}

// ---------------------------------------------------------------------------
// Budget
// ---------------------------------------------------------------------------

/// How many bytes a reader asks its codec for.
#[derive(Clone, Copy, Debug, PartialEq, Eq, Structural)]
pub enum Allowance {
    /// One byte, to see whether the stream goes on; the budget is spent.
    Probe,
    /// At most this many bytes.
    Read(usize),
}

/// The decoded bytes of a reader, against its budget.
#[derive(Clone, Copy, Debug, PartialEq, Eq, Structural)]
pub struct DecodedBudget {
    pub decoded: u64,
    pub limit: Option<u64>,
}

impl DecodedBudget {
    /// What a read of `room` bytes may ask for.
    pub open spec fn allows(self, room: nat) -> Allowance {
        match self.limit {
            None => Allowance::Read(room as usize),
            Some(limit) => if limit <= self.decoded {
                Allowance::Probe
            } else if limit - self.decoded < room {
                Allowance::Read((limit - self.decoded) as usize)
            } else {
                Allowance::Read(room as usize)
            },
        }
    }

    /// A budget of which nothing is spent.
    pub fn new(limit: Option<u64>) -> (budget: Self)
        ensures
            budget == (DecodedBudget { decoded: 0, limit }),
    {
        DecodedBudget { decoded: 0, limit }
    }

    /// What a read of `room` bytes may ask for.
    pub fn allowance(&self, room: usize) -> (allowance: Allowance)
        requires
            room > 0,
        ensures
            allowance == self.allows(room as nat),
            allowance matches Allowance::Read(count) ==> 1 <= count <= room,
    {
        match self.limit {
            None => Allowance::Read(room),
            Some(limit) => {
                if limit <= self.decoded {
                    return Allowance::Probe;
                }
                let left: u64 = limit - self.decoded;
                if left < room as u64 {
                    Allowance::Read(left as usize)
                } else {
                    Allowance::Read(room)
                }
            },
        }
    }

    /// Judges a probe that read `count` bytes.
    pub fn probed(&self, count: usize) -> (result: Result<usize, IoFault>)
        ensures
            match result {
                Ok(read) => count == 0 && read == 0,
                Err(fault) => count > 0 && fault@ == io_fault(
                    IoKind::Other,
                    "decoded stream exceeds configured limit"@,
                ),
            },
    {
        if count == 0 {
            Ok(0)
        } else {
            Err(IoFault::new(IoKind::Other, "decoded stream exceeds configured limit"))
        }
    }

    /// Accounts `count` decoded bytes.
    pub fn record(&mut self, count: usize) -> (result: Result<usize, IoFault>)
        ensures
            match result {
                Ok(read) => old(self).decoded + count <= u64::MAX && read == count && *final(self)
                    == (DecodedBudget {
                    decoded: (old(self).decoded + count) as u64,
                    ..*old(self)
                }),
                Err(fault) => old(self).decoded + count > u64::MAX && fault@ == io_fault(
                    IoKind::Other,
                    "decoded stream size overflow"@,
                ) && *final(self) == *old(self),
            },
    {
        match self.decoded.checked_add(count as u64) {
            Some(decoded) => {
                self.decoded = decoded;
                Ok(count)
            },
            None => Err(IoFault::new(IoKind::Other, "decoded stream size overflow")),
        }
    }
}

/// A reader that asks for no more than it is allowed never exceeds its budget.
pub proof fn law_budget_holds(budget: DecodedBudget, room: nat, count: nat)
    requires
        budget.limit matches Some(limit) ==> budget.decoded <= limit,
        budget.allows(room) matches Allowance::Read(allowed) && count <= allowed,
        room <= usize::MAX,
    ensures
        budget.limit matches Some(limit) ==> budget.decoded + count <= limit,
{
}

} // verus!
