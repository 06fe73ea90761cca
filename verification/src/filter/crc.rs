//! IEEE CRC-32, bit by bit, polynomial `0xEDB88320`.

use vstd::prelude::*;

verus! {

/// One bit of the division.
pub open spec fn crc_bit(crc: u32) -> u32 {
    if crc % 2 == 1 {
        (crc >> 1u32) ^ 0xEDB8_8320u32
    } else {
        crc >> 1u32
    }
}

/// `bits` bits of the division.
pub open spec fn crc_bits(crc: u32, bits: nat) -> u32
    decreases bits,
{
    if bits == 0 {
        crc
    } else {
        crc_bit(crc_bits(crc, (bits - 1) as nat))
    }
}

/// The state after one byte.
pub open spec fn crc_byte(crc: u32, byte: u8) -> u32 {
    crc_bits(crc ^ (byte as u32), 8)
}

/// The state after a run of bytes.
pub open spec fn crc_fold(crc: u32, data: Seq<u8>) -> u32
    decreases data.len(),
{
    if data.len() == 0 {
        crc
    } else {
        crc_byte(crc_fold(crc, data.drop_last()), data.last())
    }
}

/// The CRC-32 of a byte string.
pub open spec fn crc32_of(data: Seq<u8>) -> u32 {
    !crc_fold(0xFFFF_FFFF, data)
}

/// Feeding two pieces one after the other is feeding them at once.
pub proof fn law_crc_concatenation(crc: u32, first: Seq<u8>, second: Seq<u8>)
    ensures
        crc_fold(crc, first + second) == crc_fold(crc_fold(crc, first), second),
    decreases second.len(),
{
    if second.len() == 0 {
        assert(first + second =~= first);
    } else {
        law_crc_concatenation(crc, first, second.drop_last());
        assert((first + second).drop_last() =~= first + second.drop_last());
        assert((first + second).last() == second.last());
    }
}

/// Incremental IEEE CRC-32.
#[derive(Clone, Copy, Debug)]
pub struct Crc32 {
    pub state: u32,
}

impl Default for Crc32 {
    fn default() -> (crc: Self)
        ensures
            crc.covers(Seq::empty()),
    {
        Crc32::new()
    }
}

impl Crc32 {
    /// `data` is what has been folded in.
    pub open spec fn covers(self, data: Seq<u8>) -> bool {
        self.state == crc_fold(0xFFFF_FFFF, data)
    }

    /// Starts a checksum.
    pub fn new() -> (crc: Self)
        ensures
            crc.covers(Seq::empty()),
            crc.state == 0xFFFF_FFFF,
    {
        Crc32 { state: 0xFFFF_FFFF }
    }

    /// Folds `data` in. Whatever was covered before, `data` comes behind it.
    pub fn update(&mut self, data: &[u8])
        ensures
            final(self).state == crc_fold(old(self).state, data@),
            forall|before: Seq<u8>| #[trigger]
                old(self).covers(before) ==> final(self).covers(before + data@),
    {
        let mut crc: u32 = self.state;
        let mut i: usize = 0;
        proof {
            assert(data@.take(0) =~= Seq::<u8>::empty());
        }
        while i < data.len()
            invariant
                i <= data@.len(),
                crc == crc_fold(old(self).state, data@.take(i as int)),
            decreases data@.len() - i,
        {
            let byte: u8 = data[i];
            proof {
                assert(data@.take(i + 1).drop_last() =~= data@.take(i as int));
                assert(data@.take(i + 1).last() == byte);
            }
            let start: u32 = crc ^ (byte as u32);
            crc = start;
            let mut bit: u32 = 0;
            while bit < 8
                invariant
                    bit <= 8,
                    crc == crc_bits(start, bit as nat),
                decreases 8 - bit,
            {
                crc = if crc % 2 == 1 {
                    (crc >> 1u32) ^ 0xEDB8_8320u32
                } else {
                    crc >> 1u32
                };
                bit += 1;
            }
            i += 1;
        }
        self.state = crc;
        proof {
            assert(data@.take(data@.len() as int) =~= data@);
            assert forall|before: Seq<u8>| #[trigger] old(self).covers(before) implies self.covers(
                before + data@,
            ) by {
                law_crc_concatenation(0xFFFF_FFFF, before, data@);
            }
        }
    }

    /// The checksum of what was folded in.
    pub fn finalize(self) -> (value: u32)
        ensures
            value == !self.state,
            forall|data: Seq<u8>| #[trigger] self.covers(data) ==> value == crc32_of(data),
    {
        !self.state
    }
}

/// The CRC-32 of `data`.
pub fn crc32(data: &[u8]) -> (value: u32)
    ensures
        value == crc32_of(data@),
{
    let mut crc = Crc32::new();
    crc.update(data);
    proof {
        assert(crc.covers(data@));
    }
    crc.finalize()
}

} // verus!
