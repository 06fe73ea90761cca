//! The two digests of a layer.

use vstd::prelude::*;
use crate::filter::aes7z::{sha256, Sha256Hash};
use crate::text::join;

verus! {

/// A hexadecimal digit.
pub open spec fn hex_digit(value: int) -> char {
    if value < 10 {
        ('0' as u32 + value) as char
    } else {
        ('a' as u32 + value - 10) as char
    }
}

/// Bytes as lower case hexadecimal digits, most significant first.
pub open spec fn hex(bytes: Seq<u8>) -> Seq<char> {
    Seq::new(
        2 * bytes.len(),
        |i: int|
            if i % 2 == 0 {
                hex_digit(bytes[i / 2] as int / 16)
            } else {
                hex_digit(bytes[i / 2] as int % 16)
            },
    )
}

fn digit(value: u8) -> (text: &'static str)
    requires
        value < 16,
    ensures
        text@ == seq![hex_digit(value as int)],
{
    proof {
        reveal_strlit("0");
        reveal_strlit("1");
        reveal_strlit("2");
        reveal_strlit("3");
        reveal_strlit("4");
        reveal_strlit("5");
        reveal_strlit("6");
        reveal_strlit("7");
        reveal_strlit("8");
        reveal_strlit("9");
        reveal_strlit("a");
        reveal_strlit("b");
        reveal_strlit("c");
        reveal_strlit("d");
        reveal_strlit("e");
        reveal_strlit("f");
    }
    let text: &'static str = match value {
        0 => "0",
        1 => "1",
        2 => "2",
        3 => "3",
        4 => "4",
        5 => "5",
        6 => "6",
        7 => "7",
        8 => "8",
        9 => "9",
        10 => "a",
        11 => "b",
        12 => "c",
        13 => "d",
        14 => "e",
        _ => "f",
    };
    proof {
        assert(text@ =~= seq![hex_digit(value as int)]);
    }
    text
}

/// Writes a digest in hexadecimal.
pub fn encode_hex(bytes: [u8; 32]) -> (text: String)
    ensures
        text@ == hex(bytes@),
{
    let mut text = String::new();
    let mut i: usize = 0;
    proof {
        assert(text@ =~= hex(bytes@).take(0));
    }
    while i < 32
        invariant
            i <= 32,
            bytes@.len() == 32,
            text@ == hex(bytes@).take(2 * i as int),
        decreases 32 - i,
    {
        let byte: u8 = bytes[i];
        let ghost before = text@;
        text.append(digit(byte / 16));
        text.append(digit(byte % 16));
        proof {
            let whole = hex(bytes@);
            assert(whole[2 * i as int] == hex_digit(byte as int / 16));
            assert(whole[2 * i + 1] == hex_digit(byte as int % 16));
            assert(text@ =~= before.push(hex_digit(byte as int / 16)).push(
                hex_digit(byte as int % 16),
            ));
            assert(whole.take(2 * (i + 1)) =~= whole.take(2 * i as int).push(
                whole[2 * i as int],
            ).push(whole[2 * i + 1]));
        }
        i += 1;
    }
    proof {
        assert(hex(bytes@).take(64) =~= hex(bytes@));
    }
    text
}

/// The digest of a layer's blob and that of its uncompressed stream.
#[derive(Clone, Copy, Debug, PartialEq, Eq)]
pub struct LayerDigests {
    pub compressed: [u8; 32],
    pub diff_id: [u8; 32],
}

/// The mathematical content of [`LayerDigests`].
#[verifier::ext_equal]
pub struct DigestsView {
    pub compressed: Seq<u8>,
    pub diff_id: Seq<u8>,
}

impl View for LayerDigests {
    type V = DigestsView;

    open spec fn view(&self) -> DigestsView {
        DigestsView { compressed: self.compressed@, diff_id: self.diff_id@ }
    }
}

impl LayerDigests {
    /// A pair of digests.
    pub fn from_bytes(compressed: [u8; 32], diff_id: [u8; 32]) -> (digests: Self)
        ensures
            digests.compressed == compressed,
            digests.diff_id == diff_id,
    {
        LayerDigests { compressed, diff_id }
    }

    /// The digest of the blob.
    pub fn compressed(&self) -> (digest: &[u8; 32])
        ensures
            *digest == self.compressed,
    {
        &self.compressed
    }

    /// The digest of the uncompressed stream.
    pub fn diff_id(&self) -> (digest: &[u8; 32])
        ensures
            *digest == self.diff_id,
    {
        &self.diff_id
    }

    /// The digest of the blob in hexadecimal.
    pub fn compressed_hex(self) -> (text: String)
        ensures
            text@ == hex(self.compressed@),
    {
        encode_hex(self.compressed)
    }

    /// The digest of the uncompressed stream in hexadecimal.
    pub fn diff_id_hex(self) -> (text: String)
        ensures
            text@ == hex(self.diff_id@),
    {
        encode_hex(self.diff_id)
    }

    /// The descriptor of the blob.
    pub fn compressed_descriptor(self) -> (text: String)
        ensures
            text@ == "sha256:"@ + hex(self.compressed@),
    {
        join("sha256:", self.compressed_hex().as_str())
    }

    /// The descriptor of the uncompressed stream.
    pub fn diff_id_descriptor(self) -> (text: String)
        ensures
            text@ == "sha256:"@ + hex(self.diff_id@),
    {
        join("sha256:", self.diff_id_hex().as_str())
    }
}

/// The digests of streams while they are read.
pub struct LayerHasher {
    pub blob: Sha256Hash,
    pub stream: Sha256Hash,
}

impl LayerHasher {
    /// Nothing has been read.
    pub fn new() -> (hasher: Self)
        ensures
            hasher.blob.data().len() == 0,
            hasher.stream.data().len() == 0,
    {
        LayerHasher { blob: Sha256Hash::new(), stream: Sha256Hash::new() }
    }

    /// Takes bytes of the blob.
    pub fn read_blob(&mut self, bytes: &[u8])
        ensures
            final(self).blob.data() == old(self).blob.data() + bytes@,
            final(self).stream == old(self).stream,
    {
        self.blob.absorb(bytes);
    }

    /// Takes bytes of the uncompressed stream.
    pub fn read_stream(&mut self, bytes: &[u8])
        ensures
            final(self).stream.data() == old(self).stream.data() + bytes@,
            final(self).blob == old(self).blob,
    {
        self.stream.absorb(bytes);
    }

    /// The digests of what was read.
    pub fn digests(&self) -> (digests: LayerDigests)
        ensures
            digests@ == (DigestsView {
                compressed: sha256(self.blob.data()),
                diff_id: sha256(self.stream.data()),
            }),
    {
        LayerDigests::from_bytes(self.blob.digest(), self.stream.digest())
    }
}

} // verus!
