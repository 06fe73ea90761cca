//! Branch/call/jump decode filters.
//!
//! An encoder replaces the relative targets of branch instructions by absolute
//! ones; decoding inverts that. What becomes of an instruction depends on its
//! bytes, on its address and, for x86, on a mask of the opcodes just before it.
//! So the decoded bytes do not depend on how the input is cut into pieces: a
//! piece that ends inside an instruction window keeps its tail for later.

use vstd::prelude::*;
use vstd::arithmetic::div_mod::lemma_add_mod_noop_right;
use crate::bytes::overlay;

verus! {

/// Which instruction family a filter targets.
#[derive(Clone, Copy, Debug, PartialEq, Eq, Structural)]
pub enum BranchKind {
    /// x86 call and jump.
    X86,
    /// 32-bit ARM branch with link.
    Arm,
    /// ARM Thumb branch with link.
    ArmThumb,
    /// 64-bit ARM branch with link and page address.
    Arm64,
    /// PowerPC branch with link.
    Ppc,
    /// SPARC call.
    Sparc,
    /// Itanium bundles.
    Ia64,
    /// RISC-V jump and upper-immediate pairs.
    RiscV,
}

/// The bytes that an instruction of a family can depend on.
pub open spec fn window(kind: BranchKind) -> nat {
    match kind {
        BranchKind::X86 => 5,
        BranchKind::Ia64 => 16,
        BranchKind::RiscV => 8,
        _ => 4,
    }
}

/// What becomes of the instruction at the head of a window: the bytes it turns
/// into, whose number is that of the bytes passed over, and the next mask.
pub struct Decoded {
    pub bytes: Seq<u8>,
    pub mask: u32,
}

/// Subtraction of addresses.
pub open spec fn minus(a: u32, b: u32) -> u32 {
    if a >= b {
        (a - b) as u32
    } else {
        (a - b + 0x1_0000_0000) as u32
    }
}

/// Addition of addresses.
pub open spec fn plus(a: u32, b: u32) -> u32 {
    if a + b > u32::MAX {
        (a + b - 0x1_0000_0000) as u32
    } else {
        (a + b) as u32
    }
}

/// The four bytes as a number, least significant first.
pub open spec fn word_le(b0: u8, b1: u8, b2: u8, b3: u8) -> u32 {
    (b0 as u32) | ((b1 as u32) << 8u32) | ((b2 as u32) << 16u32) | ((b3 as u32) << 24u32)
}

/// Byte `index` of a number.
pub open spec fn byte_of(word: u32, index: u32) -> u8 {
    (word >> (8 * index) as u32) as u8
}

fn get_byte(word: u32, index: u32) -> (byte: u8)
    requires
        index < 4,
    ensures
        byte == byte_of(word, index),
{
    #[verifier::truncate]
    let byte: u8 = (word >> (8 * index)) as u8;
    byte
}

fn read_word(b0: u8, b1: u8, b2: u8, b3: u8) -> (word: u32)
    ensures
        word == word_le(b0, b1, b2, b3),
{
    (b0 as u32) | ((b1 as u32) << 8u32) | ((b2 as u32) << 16u32) | ((b3 as u32) << 24u32)
}

/// The four bytes of a number, least significant first.
pub open spec fn word_bytes(word: u32) -> Seq<u8> {
    seq![byte_of(word, 0), byte_of(word, 1), byte_of(word, 2), byte_of(word, 3)]
}

fn put_word(buf: &mut [u8], at: usize, word: u32)
    requires
        at + 4 <= old(buf).len(),
    ensures
        final(buf)@ == overlay(old(buf)@, at as int, word_bytes(word)),
{
    buf[at] = get_byte(word, 0);
    buf[at + 1] = get_byte(word, 1);
    buf[at + 2] = get_byte(word, 2);
    buf[at + 3] = get_byte(word, 3);
    proof {
        assert(buf@ =~= overlay(old(buf)@, at as int, word_bytes(word)));
    }
}

// ---------------------------------------------------------------------------
// x86
// ---------------------------------------------------------------------------

/// A most significant byte that a branch target can have.
pub open spec fn is_86_ms_byte(byte: u8) -> bool {
    byte == 0x00 || byte == 0xFF
}

/// Whether a byte can be the most significant one of a branch target.
pub fn test_86_ms_byte(byte: u8) -> (yes: bool)
    ensures
        yes == is_86_ms_byte(byte),
{
    byte == 0x00 || byte == 0xFF
}

/// How many bytes back the nearest opcode in the mask lies.
pub open spec fn mask_bit_number(mask: u32) -> u32 {
    if mask == 0 {
        0
    } else if mask == 1 {
        1
    } else if mask <= 3 {
        2
    } else {
        3
    }
}

/// Whether an opcode behind the opcodes of the mask may be a branch.
pub open spec fn mask_allowed(mask: u32) -> bool {
    mask == 0 || mask == 1 || mask == 2 || mask == 4
}

/// Whether the opcodes just before rule out a branch here.
pub open spec fn x86_blocked(mask: u32, w: Seq<u8>) -> bool {
    mask != 0 && (!mask_allowed(mask) || is_86_ms_byte(w[4 - mask_bit_number(mask)]))
}

/// The ones below the byte that the mask points to.
pub open spec fn low_ones(mask: u32) -> u32 {
    if mask == 1 {
        0x00FF_FFFF
    } else if mask <= 3 {
        0x0000_FFFF
    } else {
        0x0000_00FF
    }
}

/// The byte of a target that the mask points to.
pub open spec fn masked_byte(word: u32, mask: u32) -> u8 {
    byte_of(word, (3 - mask_bit_number(mask)) as u32)
}

/// The relative target of a branch. A target whose byte under the mask looks
/// like a most significant one was stored with the bits below it flipped.
pub open spec fn x86_target(mask: u32, source: u32, pc: u32) -> u32 {
    let dest = minus(source, pc);
    if mask != 0 && is_86_ms_byte(masked_byte(dest, mask)) {
        minus(dest ^ low_ones(mask), pc)
    } else {
        dest
    }
}

pub open spec fn x86_step(mask: u32, w: Seq<u8>, pc: u32) -> Decoded {
    if w[0] != 0xE8 && w[0] != 0xE9 {
        Decoded { bytes: seq![w[0]], mask: (2 * mask % 8) as u32 }
    } else if x86_blocked(mask, w) || !is_86_ms_byte(w[4]) {
        Decoded { bytes: seq![w[0]], mask: ((2 * mask + 1) % 8) as u32 }
    } else {
        let dest = x86_target(mask, word_le(w[1], w[2], w[3], w[4]), pc);
        Decoded {
            bytes: seq![
                w[0],
                byte_of(dest, 0),
                byte_of(dest, 1),
                byte_of(dest, 2),
                if byte_of(dest, 3) % 2 == 1 {
                    0xFFu8
                } else {
                    0x00u8
                },
            ],
            mask: 0,
        }
    }
}

/// One correction is enough: after it, the byte under the mask no longer looks
/// like a most significant one, because it is the complement of a byte of the
/// source that does not.
pub proof fn law_x86_one_correction_suffices(mask: u32, source: u32, pc: u32)
    requires
        mask == 1 || mask == 2 || mask == 4,
        !is_86_ms_byte(masked_byte(source, mask)),
    ensures
        ({
            let dest = minus(source, pc);
            is_86_ms_byte(masked_byte(dest, mask)) ==> !is_86_ms_byte(
                masked_byte(minus(dest ^ low_ones(mask), pc), mask),
            )
        }),
{
    let dest = minus(source, pc);
    let ones = low_ones(mask);
    let flipped = dest ^ ones;
    let fixed = minus(flipped, pc);
    let shift = (8 * (3 - mask_bit_number(mask))) as u32;
    assert(shift == 16 && ones == 0x00FF_FFFFu32 || shift == 8 && ones == 0x0000_FFFFu32 || shift
        == 0 && ones == 0x0000_00FFu32);
    lemma_wrapping(source, pc);
    lemma_wrapping(flipped, pc);
    assert(((fixed >> shift) as u8) == !((source >> shift) as u8)) by (bit_vector)
        requires
            dest == (source - pc) as u32,
            flipped == dest ^ ones,
            fixed == (flipped - pc) as u32,
            shift == 16 && ones == 0x00FF_FFFFu32 || shift == 8 && ones == 0x0000_FFFFu32 || shift
                == 0 && ones == 0x0000_00FFu32,
    ;
    let byte = (source >> shift) as u8;
    assert(byte != 0x00u8 && byte != 0xFFu8 ==> !byte != 0x00u8 && !byte != 0xFFu8) by (bit_vector);
}

proof fn lemma_wrapping(a: u32, b: u32)
    ensures
        minus(a, b) == (a - b) as u32,
{
    assert(a < b ==> (a - b + 0x1_0000_0000) as u32 == (a - b) as u32) by (bit_vector);
}

// ---------------------------------------------------------------------------
// Four-byte families
// ---------------------------------------------------------------------------

pub open spec fn arm_step(w: Seq<u8>, pc: u32) -> Seq<u8> {
    if w[3] == 0xEB {
        let source = word_le(w[0], w[1], w[2], 0) << 2u32;
        let dest = minus(source, pc) >> 2u32;
        seq![byte_of(dest, 0), byte_of(dest, 1), byte_of(dest, 2), w[3]]
    } else {
        w.take(4)
    }
}

pub open spec fn thumb_step(w: Seq<u8>, pc: u32) -> Seq<u8> {
    if w[1] / 8 == 0x1E && w[3] / 8 == 0x1F {
        let source = ((((w[1] % 8) as u32) << 19u32) | ((w[0] as u32) << 11u32) | (((w[3]
            % 8) as u32) << 8u32) | (w[2] as u32)) << 1u32;
        let dest = minus(source, pc) >> 1u32;
        seq![
            byte_of(dest >> 11u32, 0),
            (0xF0 + (dest >> 19u32) % 8) as u8,
            byte_of(dest, 0),
            (0xF8 + (dest >> 8u32) % 8) as u8,
        ]
    } else {
        w.take(2)
    }
}

pub open spec fn arm64_branch(source: u32, pc: u32) -> u32 {
    (minus(source, pc >> 2u32) & 0x03FF_FFFFu32) | 0x9400_0000u32
}

pub open spec fn arm64_page(source: u32) -> u32 {
    ((source >> 29u32) & 3u32) | ((source >> 3u32) & 0x001F_FFFCu32)
}

pub open spec fn arm64_address(source: u32, pc: u32) -> u32 {
    let page = minus(arm64_page(source), pc >> 12u32);
    0x9000_0000u32 | (source & 0x1Fu32) | ((page & 3u32) << 29u32) | ((page & 0x0003_FFFCu32)
        << 3u32) | (minus(0, page & 0x0002_0000u32) & 0x00E0_0000u32)
}

pub open spec fn arm64_step(w: Seq<u8>, pc: u32) -> Seq<u8> {
    let source = word_le(w[0], w[1], w[2], w[3]);
    if (source >> 26u32) == 0x25 {
        word_bytes(arm64_branch(source, pc))
    } else if ((source >> 24u32) & 0x9Fu32) == 0x90 && (plus(arm64_page(source), 0x0002_0000)
        & 0x001C_0000u32) == 0 {
        word_bytes(arm64_address(source, pc))
    } else {
        w.take(4)
    }
}

pub open spec fn ppc_step(w: Seq<u8>, pc: u32) -> Seq<u8> {
    if w[0] / 4 == 0x12 && w[3] % 4 == 1 {
        let source = word_le((w[3] - 1) as u8, w[2], w[1], (w[0] % 4) as u8);
        let dest = minus(source, pc);
        seq![
            (0x48 + (dest >> 24u32) % 4) as u8,
            byte_of(dest, 2),
            byte_of(dest, 1),
            byte_of(dest | 1u32, 0),
        ]
    } else {
        w.take(4)
    }
}

pub open spec fn sparc_step(w: Seq<u8>, pc: u32) -> Seq<u8> {
    if (w[0] == 0x40 && w[1] / 64 == 0) || (w[0] == 0x7F && w[1] / 64 == 3) {
        let source = word_le(w[3], w[2], w[1], w[0]) << 2u32;
        let dest = minus(source, pc) >> 2u32;
        let sign = if (dest >> 22u32) % 2 == 1 {
            0x3FC0_0000u32
        } else {
            0u32
        };
        let stored = sign | (dest & 0x003F_FFFFu32) | 0x4000_0000u32;
        seq![byte_of(stored, 3), byte_of(stored, 2), byte_of(stored, 1), byte_of(stored, 0)]
    } else {
        w.take(4)
    }
}

// ---------------------------------------------------------------------------
// Itanium
// ---------------------------------------------------------------------------

/// Whether slot `slot` of a bundle with the given template is a branch slot.
pub open spec fn ia64_branch_slot(template: u8, slot: nat) -> bool {
    if template == 16 || template == 17 || template == 24 || template == 25 || template == 28
        || template == 29 {
        slot == 2
    } else if template == 18 || template == 19 {
        slot == 1 || slot == 2
    } else if template == 22 || template == 23 {
        true
    } else {
        false
    }
}

/// The six bytes from `at` on as a number, least significant first.
pub open spec fn six_bytes(w: Seq<u8>, at: int) -> u64 {
    (w[at] as u64) | ((w[at + 1] as u64) << 8u64) | ((w[at + 2] as u64) << 16u64) | ((w[at
        + 3] as u64) << 24u64) | ((w[at + 4] as u64) << 32u64) | ((w[at + 5] as u64) << 40u64)
}

/// The six bytes of a number, least significant first.
pub open spec fn six_of(value: u64) -> Seq<u8> {
    seq![
        value as u8,
        (value >> 8u64) as u8,
        (value >> 16u64) as u8,
        (value >> 24u64) as u8,
        (value >> 32u64) as u8,
        (value >> 40u64) as u8,
    ]
}

/// The first byte of a slot.
pub open spec fn slot_byte(slot: nat) -> int {
    if slot == 0 {
        0
    } else if slot == 1 {
        5
    } else {
        10
    }
}

/// The bit of its first byte at which a slot begins.
pub open spec fn slot_bit(slot: nat) -> u64 {
    if slot == 0 {
        5
    } else if slot == 1 {
        6
    } else {
        7
    }
}

/// Whether a slot's instruction is a relative call.
pub open spec fn ia64_is_call(norm: u64) -> bool {
    ((norm >> 37u64) & 0x0Fu64) == 0x05 && ((norm >> 9u64) & 0x07u64) == 0
}

/// A slot's call with its target made relative.
pub open spec fn ia64_call(norm: u64, pc: u32) -> u64 {
    let source = ((((norm >> 13u64) & 0x0F_FFFFu64) | (((norm >> 36u64) & 1u64) << 20u64))
        << 4u64) as u32;
    let dest = (minus(source, pc) >> 4u32) as u64;
    (norm & !(0x8F_FFFFu64 << 13u64)) | ((dest & 0x0F_FFFFu64) << 13u64) | ((dest & 0x10_0000u64)
        << 16u64)
}

/// A bundle after its slot `slot` was decoded.
pub open spec fn ia64_slot(w: Seq<u8>, slot: nat, pc: u32) -> Seq<u8> {
    let at = slot_byte(slot);
    let bit = slot_bit(slot);
    let field = six_bytes(w, at);
    let norm = field >> bit;
    if ia64_branch_slot((w[0] % 32) as u8, slot) && ia64_is_call(norm) {
        overlay(
            w,
            at,
            six_of((field & (((1u64 << bit) - 1) as u64)) | (ia64_call(norm, pc) << bit)),
        )
    } else {
        w
    }
}

pub open spec fn ia64_step(w: Seq<u8>, pc: u32) -> Seq<u8> {
    ia64_slot(ia64_slot(ia64_slot(w, 0, pc), 1, pc), 2, pc)
}

// ---------------------------------------------------------------------------
// RISC-V
// ---------------------------------------------------------------------------

pub open spec fn riscv_jump(w: Seq<u8>, pc: u32) -> Seq<u8> {
    let b1 = w[1] as u32;
    let b2 = w[2] as u32;
    let b3 = w[3] as u32;
    let addr = minus(((b1 & 0xF0u32) << 13u32) | (b2 << 9u32) | (b3 << 1u32), pc);
    seq![
        w[0],
        ((b1 & 0x0Fu32) | ((addr >> 8u32) & 0xF0u32)) as u8,
        (((addr >> 16u32) & 0x0Fu32) | ((addr >> 7u32) & 0x10u32) | ((addr << 4u32)
            & 0xE0u32)) as u8,
        (((addr >> 4u32) & 0x7Fu32) | ((addr >> 13u32) & 0x80u32)) as u8,
    ]
}

pub open spec fn riscv_step(w: Seq<u8>, pc: u32) -> Seq<u8> {
    let first = word_le(w[0], w[1], w[2], w[3]);
    if w[0] == 0xEF {
        if ((w[1] as u32) & 0x0Du32) != 0 {
            w.take(2)
        } else {
            riscv_jump(w, pc)
        }
    } else if ((w[0] as u32) & 0x7Fu32) == 0x17 {
        if (first & 0xE80u32) != 0 {
            let second = word_le(w[4], w[5], w[6], w[7]);
            if (((first << 8u32) ^ second) & 0xF_8003u32) != 3 {
                w.take(6)
            } else {
                word_bytes(0x117u32 | (second << 12u32)) + word_bytes(
                    plus(first & 0xFFFF_F000u32, second >> 20u32),
                )
            }
        } else if (minus(first, 0x3100) & 0x3F80u32) >= ((first >> 27u32) & 0x1Du32) {
            w.take(4)
        } else {
            let addr = minus(word_le(w[7], w[6], w[5], w[4]), pc);
            word_bytes(
                0x17u32 | ((first >> 27u32) << 7u32) | (plus(addr, 0x800) & 0xFFFF_F000u32),
            ) + word_bytes((first >> 12u32) | (addr << 20u32))
        }
    } else {
        w.take(2)
    }
}

// ---------------------------------------------------------------------------
// Scanning
// ---------------------------------------------------------------------------

/// What becomes of the instruction at the head of `w` at address `pc`.
#[verifier::opaque]
pub open spec fn decode_step(kind: BranchKind, mask: u32, w: Seq<u8>, pc: u32) -> Decoded {
    match kind {
        BranchKind::X86 => x86_step(mask, w, pc),
        BranchKind::Arm => Decoded { bytes: arm_step(w, pc), mask },
        BranchKind::ArmThumb => Decoded { bytes: thumb_step(w, pc), mask },
        BranchKind::Arm64 => Decoded { bytes: arm64_step(w, pc), mask },
        BranchKind::Ppc => Decoded { bytes: ppc_step(w, pc), mask },
        BranchKind::Sparc => Decoded { bytes: sparc_step(w, pc), mask },
        BranchKind::Ia64 => Decoded { bytes: ia64_step(w, pc), mask },
        BranchKind::RiscV => Decoded { bytes: riscv_step(w, pc), mask },
    }
}

/// What becomes of `data` from address `pc` on, up to the first place where no
/// whole window is left, and the mask there.
#[verifier::opaque]
pub open spec fn scan(kind: BranchKind, mask: u32, pc: u32, data: Seq<u8>) -> Decoded
    decreases data.len(),
{
    if data.len() < window(kind) {
        Decoded { bytes: Seq::empty(), mask }
    } else {
        let head = decode_step(kind, mask, data.take(window(kind) as int), pc);
        let passed = head.bytes.len();
        if passed == 0 || passed > data.len() {
            head
        } else {
            let rest = scan(
                kind,
                head.mask,
                plus(pc, passed as u32),
                data.skip(passed as int),
            );
            Decoded { bytes: head.bytes + rest.bytes, mask: rest.mask }
        }
    }
}

/// An address `count` bytes on.
#[verifier::opaque]
pub open spec fn advance(pc: u32, count: nat) -> u32 {
    ((pc + count) % 0x1_0000_0000) as u32
}

/// The address that a family counts from.
pub open spec fn first_address(kind: BranchKind, start: nat) -> u32 {
    match kind {
        BranchKind::X86 => ((start + 5) % 0x1_0000_0000) as u32,
        BranchKind::Arm => ((start + 8) % 0x1_0000_0000) as u32,
        BranchKind::ArmThumb => ((start + 4) % 0x1_0000_0000) as u32,
        _ => (start % 0x1_0000_0000) as u32,
    }
}

/// All of `data` decoded: what scanning turns it into, then the tail as stored.
pub open spec fn bcj_decoded(kind: BranchKind, start: nat, data: Seq<u8>) -> Seq<u8> {
    let done = scan(kind, 0, first_address(kind, start), data).bytes;
    done + data.skip(done.len() as int)
}

proof fn lemma_step_passes(kind: BranchKind, mask: u32, w: Seq<u8>, pc: u32)
    requires
        w.len() == window(kind),
    ensures
        0 < decode_step(kind, mask, w, pc).bytes.len() <= window(kind),
{
    reveal(decode_step);
    if kind is Ia64 {
        let a = ia64_slot(w, 0, pc);
        let b = ia64_slot(a, 1, pc);
        assert(a.len() == 16);
        assert(b.len() == 16);
        assert(ia64_slot(b, 2, pc).len() == 16);
    }
}

/// Scanning stops only where less than a window is left.
pub proof fn law_scan_leaves_less_than_a_window(kind: BranchKind, mask: u32, pc: u32, data: Seq<u8>)
    ensures
        scan(kind, mask, pc, data).bytes.len() <= data.len(),
        data.len() - scan(kind, mask, pc, data).bytes.len() < window(kind),
    decreases data.len(),
{
    reveal(scan);
    if data.len() >= window(kind) {
        let w = data.take(window(kind) as int);
        lemma_step_passes(kind, mask, w, pc);
        let head = decode_step(kind, mask, w, pc);
        let passed = head.bytes.len();
        law_scan_leaves_less_than_a_window(kind, head.mask, plus(pc, passed as u32), data.skip(passed as int));
    }
}

proof fn lemma_advance(pc: u32, first: nat, second: nat)
    requires
        first <= 16,
    ensures
        advance(plus(pc, first as u32), second) == advance(pc, first + second),
{
    reveal(advance);
}

proof fn lemma_advance_step(pc: u32, done: nat, passed: nat)
    requires
        passed <= 16,
    ensures
        plus(advance(pc, done), passed as u32) == advance(pc, done + passed),
{
    reveal(advance);
    let low = (pc + done) % 0x1_0000_0000;
    lemma_add_mod_noop_right(passed as int, pc + done, 0x1_0000_0000);
    assert(plus(low as u32, passed as u32) == (low + passed) % 0x1_0000_0000);
}

/// No bytes on is the address itself.
pub proof fn lemma_advance_none(pc: u32)
    ensures
        advance(pc, 0) == pc,
{
    reveal(advance);
}

/// Scanning a first piece and then what it left over, together with a second
/// piece, is scanning both pieces at once.
pub proof fn law_scan_chunking(
    kind: BranchKind,
    mask: u32,
    pc: u32,
    first: Seq<u8>,
    second: Seq<u8>,
)
    ensures
        ({
            let one = scan(kind, mask, pc, first);
            let count = one.bytes.len();
            let two = scan(
                kind,
                one.mask,
                advance(pc, count),
                first.skip(count as int) + second,
            );
            let all = scan(kind, mask, pc, first + second);
            all.bytes == one.bytes + two.bytes && all.mask == two.mask
        }),
    decreases first.len(),
{
    reveal(scan);
    let one = scan(kind, mask, pc, first);
    let count = one.bytes.len();
    if first.len() < window(kind) {
        lemma_advance_none(pc);
        assert(first.skip(0) =~= first);
        assert(one.bytes + scan(kind, mask, pc, first + second).bytes =~= scan(
            kind,
            mask,
            pc,
            first + second,
        ).bytes);
    } else {
        let w = first.take(window(kind) as int);
        assert((first + second).take(window(kind) as int) =~= w);
        lemma_step_passes(kind, mask, w, pc);
        let head = decode_step(kind, mask, w, pc);
        let passed = head.bytes.len();
        let next = plus(pc, passed as u32);
        let rest = first.skip(passed as int);
        law_scan_chunking(kind, head.mask, next, rest, second);
        assert((first + second).skip(passed as int) =~= rest + second);
        let inner = scan(kind, head.mask, next, rest);
        law_scan_leaves_less_than_a_window(kind, head.mask, next, rest);
        lemma_advance(pc, passed, inner.bytes.len());
        assert(first.skip(count as int) =~= rest.skip(inner.bytes.len() as int));
        let two = scan(
            kind,
            one.mask,
            advance(pc, count),
            first.skip(count as int) + second,
        );
        assert(head.bytes + (inner.bytes + two.bytes) =~= one.bytes + two.bytes);
    }
}

/// Where a piece of a program begins counts: behind a piece that was decoded to its
/// end, the next one is decoded as if decoding had begun there. x86 is left out, where
/// the opcodes just before count too.
pub proof fn law_decoding_may_begin_anywhere(
    kind: BranchKind,
    start: nat,
    first: Seq<u8>,
    second: Seq<u8>,
)
    requires
        !(kind is X86),
        scan(kind, 0, first_address(kind, start), first).bytes.len() == first.len(),
    ensures
        bcj_decoded(kind, start, first + second) == bcj_decoded(kind, start, first) + bcj_decoded(
            kind,
            start + first.len(),
            second,
        ),
{
    let pc = first_address(kind, start);
    let one = scan(kind, 0, pc, first);
    law_scan_chunking(kind, 0, pc, first, second);
    lemma_mask_stays(kind, pc, first);
    assert(first.skip(first.len() as int) + second =~= second);
    lemma_first_address(kind, start, first.len());
    let two = scan(kind, 0, advance(pc, first.len()), second);
    law_scan_leaves_less_than_a_window(kind, 0, advance(pc, first.len()), second);
    assert((first + second).skip((one.bytes + two.bytes).len() as int) =~= second.skip(
        two.bytes.len() as int,
    ));
    assert(bcj_decoded(kind, start, first + second) =~= bcj_decoded(kind, start, first)
        + bcj_decoded(kind, start + first.len(), second));
}

proof fn lemma_mask_stays(kind: BranchKind, pc: u32, data: Seq<u8>)
    requires
        !(kind is X86),
    ensures
        scan(kind, 0, pc, data).mask == 0,
    decreases data.len(),
{
    reveal(scan);
    reveal(decode_step);
    if data.len() >= window(kind) {
        let w = data.take(window(kind) as int);
        lemma_step_passes(kind, 0, w, pc);
        let head = decode_step(kind, 0, w, pc);
        let passed = head.bytes.len();
        lemma_mask_stays(kind, plus(pc, passed as u32), data.skip(passed as int));
    }
}

proof fn lemma_first_address(kind: BranchKind, start: nat, count: nat)
    ensures
        advance(first_address(kind, start), count) == first_address(kind, start + count),
{
    reveal(advance);
    let ahead: int = match kind {
        BranchKind::X86 => 5,
        BranchKind::Arm => 8,
        BranchKind::ArmThumb => 4,
        _ => 0,
    };
    lemma_add_mod_noop_right(count as int, start + ahead, 0x1_0000_0000);
}

// ---------------------------------------------------------------------------
// Execution
// ---------------------------------------------------------------------------

/// The window of `buf` at `at`.
pub open spec fn window_at(buf: Seq<u8>, at: int, kind: BranchKind) -> Seq<u8> {
    buf.subrange(at, at + window(kind))
}

fn x86_at(buf: &mut [u8], at: usize, mask: u32, pc: u32) -> (result: (usize, u32))
    requires
        at + 5 <= old(buf).len(),
        mask < 8,
    ensures
        ({
            let step = x86_step(mask, window_at(old(buf)@, at as int, BranchKind::X86), pc);
            &&& result.0 == step.bytes.len()
            &&& result.1 == step.mask
            &&& result.1 < 8
            &&& final(buf)@ == overlay(old(buf)@, at as int, step.bytes)
        }),
{
    let ghost w = window_at(old(buf)@, at as int, BranchKind::X86);
    let opcode: u8 = buf[at];
    proof {
        assert(overlay(buf@, at as int, seq![opcode]) =~= buf@);
    }
    if opcode != 0xE8 && opcode != 0xE9 {
        return (1, 2 * mask % 8);
    }
    if mask != 0 {
        let back: usize = if mask == 1 {
            1
        } else if mask <= 3 {
            2
        } else {
            3
        };
        let allowed = mask == 1 || mask == 2 || mask == 4;
        if !allowed || test_86_ms_byte(buf[at + 4 - back]) {
            return (1, (2 * mask + 1) % 8);
        }
    }
    if !test_86_ms_byte(buf[at + 4]) {
        return (1, (2 * mask + 1) % 8);
    }
    let source: u32 = read_word(buf[at + 1], buf[at + 2], buf[at + 3], buf[at + 4]);
    let mut dest: u32 = source.wrapping_sub(pc);
    if mask != 0 {
        let index: u32 = if mask == 1 {
            2
        } else if mask <= 3 {
            1
        } else {
            0
        };
        let ones: u32 = if mask == 1 {
            0x00FF_FFFF
        } else if mask <= 3 {
            0x0000_FFFF
        } else {
            0x0000_00FF
        };
        if test_86_ms_byte(get_byte(dest, index)) {
            dest = (dest ^ ones).wrapping_sub(pc);
        }
    }
    let top: u8 = if get_byte(dest, 3) % 2 == 1 {
        0xFF
    } else {
        0x00
    };
    buf[at + 1] = get_byte(dest, 0);
    buf[at + 2] = get_byte(dest, 1);
    buf[at + 3] = get_byte(dest, 2);
    buf[at + 4] = top;
    proof {
        assert(buf@ =~= overlay(old(buf)@, at as int, x86_step(mask, w, pc).bytes));
    }
    (5, 0)
}

fn arm_at(buf: &mut [u8], at: usize, pc: u32) -> (passed: usize)
    requires
        at + 4 <= old(buf).len(),
    ensures
        ({
            let bytes = arm_step(window_at(old(buf)@, at as int, BranchKind::Arm), pc);
            passed == bytes.len() && final(buf)@ == overlay(old(buf)@, at as int, bytes)
        }),
{
    if buf[at + 3] == 0xEB {
        let source: u32 = read_word(buf[at], buf[at + 1], buf[at + 2], 0) << 2u32;
        let dest: u32 = source.wrapping_sub(pc) >> 2u32;
        buf[at] = get_byte(dest, 0);
        buf[at + 1] = get_byte(dest, 1);
        buf[at + 2] = get_byte(dest, 2);
    }
    proof {
        let w = window_at(old(buf)@, at as int, BranchKind::Arm);
        assert(buf@ =~= overlay(old(buf)@, at as int, arm_step(w, pc)));
    }
    4
}

fn thumb_at(buf: &mut [u8], at: usize, pc: u32) -> (passed: usize)
    requires
        at + 4 <= old(buf).len(),
    ensures
        ({
            let bytes = thumb_step(window_at(old(buf)@, at as int, BranchKind::ArmThumb), pc);
            passed == bytes.len() && final(buf)@ == overlay(old(buf)@, at as int, bytes)
        }),
{
    let ghost w = window_at(old(buf)@, at as int, BranchKind::ArmThumb);
    let b1: u8 = buf[at + 1];
    let b3: u8 = buf[at + 3];
    if b1 / 8 == 0x1E && b3 / 8 == 0x1F {
        let b0: u32 = buf[at] as u32;
        let b2: u32 = buf[at + 2] as u32;
        let source: u32 = ((((b1 % 8) as u32) << 19u32) | (b0 << 11u32) | (((b3 % 8) as u32)
            << 8u32) | b2) << 1u32;
        let dest: u32 = source.wrapping_sub(pc) >> 1u32;
        buf[at] = get_byte(dest >> 11u32, 0);
        buf[at + 1] = (0xF0 + (dest >> 19u32) % 8) as u8;
        buf[at + 2] = get_byte(dest, 0);
        buf[at + 3] = (0xF8 + (dest >> 8u32) % 8) as u8;
        proof {
            assert(buf@ =~= overlay(old(buf)@, at as int, thumb_step(w, pc)));
        }
        return 4;
    }
    proof {
        assert(buf@ =~= overlay(old(buf)@, at as int, thumb_step(w, pc)));
    }
    2
}

fn arm64_at(buf: &mut [u8], at: usize, pc: u32) -> (passed: usize)
    requires
        at + 4 <= old(buf).len(),
    ensures
        ({
            let bytes = arm64_step(window_at(old(buf)@, at as int, BranchKind::Arm64), pc);
            passed == bytes.len() && final(buf)@ == overlay(old(buf)@, at as int, bytes)
        }),
{
    let ghost w = window_at(old(buf)@, at as int, BranchKind::Arm64);
    let source: u32 = read_word(buf[at], buf[at + 1], buf[at + 2], buf[at + 3]);
    if (source >> 26u32) == 0x25 {
        let dest: u32 = (source.wrapping_sub(pc >> 2u32) & 0x03FF_FFFFu32) | 0x9400_0000u32;
        put_word(buf, at, dest);
    } else if ((source >> 24u32) & 0x9Fu32) == 0x90 {
        let page: u32 = ((source >> 29u32) & 3u32) | ((source >> 3u32) & 0x001F_FFFCu32);
        if (page.wrapping_add(0x0002_0000) & 0x001C_0000u32) == 0 {
            let relative: u32 = page.wrapping_sub(pc >> 12u32);
            let dest: u32 = 0x9000_0000u32 | (source & 0x1Fu32) | ((relative & 3u32) << 29u32) | ((
            relative & 0x0003_FFFCu32) << 3u32) | (0u32.wrapping_sub(relative & 0x0002_0000u32)
                & 0x00E0_0000u32);
            put_word(buf, at, dest);
        }
    }
    proof {
        assert(buf@ =~= overlay(old(buf)@, at as int, arm64_step(w, pc)));
    }
    4
}

fn ppc_at(buf: &mut [u8], at: usize, pc: u32) -> (passed: usize)
    requires
        at + 4 <= old(buf).len(),
    ensures
        ({
            let bytes = ppc_step(window_at(old(buf)@, at as int, BranchKind::Ppc), pc);
            passed == bytes.len() && final(buf)@ == overlay(old(buf)@, at as int, bytes)
        }),
{
    let ghost w = window_at(old(buf)@, at as int, BranchKind::Ppc);
    let b0: u8 = buf[at];
    let b3: u8 = buf[at + 3];
    if b0 / 4 == 0x12 && b3 % 4 == 1 {
        let source: u32 = read_word(b3 - 1, buf[at + 2], buf[at + 1], b0 % 4);
        let dest: u32 = source.wrapping_sub(pc);
        buf[at] = (0x48 + (dest >> 24u32) % 4) as u8;
        buf[at + 1] = get_byte(dest, 2);
        buf[at + 2] = get_byte(dest, 1);
        buf[at + 3] = get_byte(dest | 1u32, 0);
    }
    proof {
        assert(buf@ =~= overlay(old(buf)@, at as int, ppc_step(w, pc)));
    }
    4
}

fn sparc_at(buf: &mut [u8], at: usize, pc: u32) -> (passed: usize)
    requires
        at + 4 <= old(buf).len(),
    ensures
        ({
            let bytes = sparc_step(window_at(old(buf)@, at as int, BranchKind::Sparc), pc);
            passed == bytes.len() && final(buf)@ == overlay(old(buf)@, at as int, bytes)
        }),
{
    let ghost w = window_at(old(buf)@, at as int, BranchKind::Sparc);
    let b0: u8 = buf[at];
    let b1: u8 = buf[at + 1];
    if (b0 == 0x40 && b1 / 64 == 0) || (b0 == 0x7F && b1 / 64 == 3) {
        let source: u32 = read_word(buf[at + 3], buf[at + 2], b1, b0) << 2u32;
        let dest: u32 = source.wrapping_sub(pc) >> 2u32;
        let sign: u32 = if (dest >> 22u32) % 2 == 1 {
            0x3FC0_0000
        } else {
            0
        };
        let stored: u32 = sign | (dest & 0x003F_FFFFu32) | 0x4000_0000u32;
        buf[at] = get_byte(stored, 3);
        buf[at + 1] = get_byte(stored, 2);
        buf[at + 2] = get_byte(stored, 1);
        buf[at + 3] = get_byte(stored, 0);
    }
    proof {
        assert(buf@ =~= overlay(old(buf)@, at as int, sparc_step(w, pc)));
    }
    4
}

fn ia64_slot_at(buf: &mut [u8], at: usize, slot: u8, pc: u32)
    requires
        at + 16 <= old(buf).len(),
        slot < 3,
    ensures
        final(buf)@ == overlay(
            old(buf)@,
            at as int,
            ia64_slot(old(buf)@.subrange(at as int, at + 16), slot as nat, pc),
        ),
{
    let ghost w = old(buf)@.subrange(at as int, at + 16);
    proof {
        assert(buf@ =~= overlay(old(buf)@, at as int, w));
    }
    let template: u8 = buf[at] % 32;
    let branches = if template == 16 || template == 17 || template == 24 || template == 25
        || template == 28 || template == 29 {
        slot == 2
    } else if template == 18 || template == 19 {
        slot == 1 || slot == 2
    } else {
        template == 22 || template == 23
    };
    if !branches {
        return;
    }
    let first: usize = if slot == 0 {
        0
    } else if slot == 1 {
        5
    } else {
        10
    };
    let bit: u64 = if slot == 0 {
        5
    } else if slot == 1 {
        6
    } else {
        7
    };
    let base: usize = at + first;
    let field: u64 = (buf[base] as u64) | ((buf[base + 1] as u64) << 8u64) | ((buf[base
        + 2] as u64) << 16u64) | ((buf[base + 3] as u64) << 24u64) | ((buf[base + 4] as u64)
        << 32u64) | ((buf[base + 5] as u64) << 40u64);
    proof {
        assert(field == six_bytes(w, first as int));
    }
    let norm: u64 = field >> bit;
    if ((norm >> 37u64) & 0x0Fu64) != 0x05 || ((norm >> 9u64) & 0x07u64) != 0 {
        return;
    }
    #[verifier::truncate]
    let source: u32 = ((((norm >> 13u64) & 0x0F_FFFFu64) | (((norm >> 36u64) & 1u64) << 20u64))
        << 4u64) as u32;
    let dest: u64 = (source.wrapping_sub(pc) >> 4u32) as u64;
    let call: u64 = (norm & !(0x8F_FFFFu64 << 13u64)) | ((dest & 0x0F_FFFFu64) << 13u64) | ((dest
        & 0x10_0000u64) << 16u64);
    assert((1u64 << 5u64) == 32 && (1u64 << 6u64) == 64 && (1u64 << 7u64) == 128) by (bit_vector);
    let keep: u64 = (1u64 << bit) - 1;
    let value: u64 = (field & keep) | (call << bit);
    put_six(buf, base, value);
    proof {
        assert(buf@ =~= overlay(old(buf)@, at as int, overlay(w, first as int, six_of(value))));
    }
}

fn put_six(buf: &mut [u8], at: usize, value: u64)
    requires
        at + 6 <= old(buf).len(),
    ensures
        final(buf)@ == overlay(old(buf)@, at as int, six_of(value)),
{
    #[verifier::truncate]
    let b0: u8 = value as u8;
    #[verifier::truncate]
    let b1: u8 = (value >> 8u64) as u8;
    #[verifier::truncate]
    let b2: u8 = (value >> 16u64) as u8;
    #[verifier::truncate]
    let b3: u8 = (value >> 24u64) as u8;
    #[verifier::truncate]
    let b4: u8 = (value >> 32u64) as u8;
    #[verifier::truncate]
    let b5: u8 = (value >> 40u64) as u8;
    buf[at] = b0;
    buf[at + 1] = b1;
    buf[at + 2] = b2;
    buf[at + 3] = b3;
    buf[at + 4] = b4;
    buf[at + 5] = b5;
    proof {
        assert(buf@ =~= overlay(old(buf)@, at as int, six_of(value)));
    }
}

fn ia64_at(buf: &mut [u8], at: usize, pc: u32) -> (passed: usize)
    requires
        at + 16 <= old(buf).len(),
    ensures
        ({
            let bytes = ia64_step(window_at(old(buf)@, at as int, BranchKind::Ia64), pc);
            passed == bytes.len() && final(buf)@ == overlay(old(buf)@, at as int, bytes)
        }),
{
    let ghost w = window_at(old(buf)@, at as int, BranchKind::Ia64);
    let ghost w1 = ia64_slot(w, 0, pc);
    let ghost w2 = ia64_slot(w1, 1, pc);
    let ghost w3 = ia64_slot(w2, 2, pc);
    proof {
        assert(w1.len() == 16 && w2.len() == 16 && w3.len() == 16);
    }
    ia64_slot_at(buf, at, 0, pc);
    proof {
        assert(buf@.subrange(at as int, at + 16) =~= w1);
    }
    ia64_slot_at(buf, at, 1, pc);
    proof {
        assert(buf@.subrange(at as int, at + 16) =~= w2);
    }
    ia64_slot_at(buf, at, 2, pc);
    proof {
        assert(buf@ =~= overlay(old(buf)@, at as int, w3));
    }
    16
}

fn riscv_jump_at(buf: &mut [u8], at: usize, pc: u32)
    requires
        at + 4 <= old(buf).len(),
    ensures
        final(buf)@ == overlay(
            old(buf)@,
            at as int,
            riscv_jump(old(buf)@.subrange(at as int, at + 4), pc),
        ),
{
    let ghost w = old(buf)@.subrange(at as int, at + 4);
    let b1: u32 = buf[at + 1] as u32;
    let b2: u32 = buf[at + 2] as u32;
    let b3: u32 = buf[at + 3] as u32;
    let addr: u32 = (((b1 & 0xF0u32) << 13u32) | (b2 << 9u32) | (b3 << 1u32)).wrapping_sub(pc);
    #[verifier::truncate]
    let n1: u8 = ((b1 & 0x0Fu32) | ((addr >> 8u32) & 0xF0u32)) as u8;
    #[verifier::truncate]
    let n2: u8 = (((addr >> 16u32) & 0x0Fu32) | ((addr >> 7u32) & 0x10u32) | ((addr << 4u32)
        & 0xE0u32)) as u8;
    #[verifier::truncate]
    let n3: u8 = (((addr >> 4u32) & 0x7Fu32) | ((addr >> 13u32) & 0x80u32)) as u8;
    buf[at + 1] = n1;
    buf[at + 2] = n2;
    buf[at + 3] = n3;
    proof {
        assert(buf@ =~= overlay(old(buf)@, at as int, riscv_jump(w, pc)));
    }
}

fn riscv_at(buf: &mut [u8], at: usize, pc: u32) -> (passed: usize)
    requires
        at + 8 <= old(buf).len(),
    ensures
        ({
            let bytes = riscv_step(window_at(old(buf)@, at as int, BranchKind::RiscV), pc);
            passed == bytes.len() && final(buf)@ == overlay(old(buf)@, at as int, bytes)
        }),
{
    let ghost w = window_at(old(buf)@, at as int, BranchKind::RiscV);
    proof {
        assert(overlay(buf@, at as int, w.take(2)) =~= buf@);
        assert(overlay(buf@, at as int, w.take(4)) =~= buf@);
        assert(overlay(buf@, at as int, w.take(6)) =~= buf@);
    }
    let opcode: u32 = buf[at] as u32;
    if opcode == 0xEF {
        if ((buf[at + 1] as u32) & 0x0Du32) != 0 {
            return 2;
        }
        riscv_jump_at(buf, at, pc);
        proof {
            assert(riscv_jump(w, pc) =~= riscv_jump(old(buf)@.subrange(at as int, at + 4), pc));
        }
        return 4;
    }
    if (opcode & 0x7Fu32) != 0x17 {
        return 2;
    }
    let first: u32 = read_word(buf[at], buf[at + 1], buf[at + 2], buf[at + 3]);
    let low: u32;
    let high: u32;
    if (first & 0xE80u32) != 0 {
        let second: u32 = read_word(buf[at + 4], buf[at + 5], buf[at + 6], buf[at + 7]);
        if (((first << 8u32) ^ second) & 0xF_8003u32) != 3 {
            return 6;
        }
        low = 0x117u32 | (second << 12u32);
        high = (first & 0xFFFF_F000u32).wrapping_add(second >> 20u32);
    } else {
        if (first.wrapping_sub(0x3100) & 0x3F80u32) >= ((first >> 27u32) & 0x1Du32) {
            return 4;
        }
        let addr: u32 = read_word(buf[at + 7], buf[at + 6], buf[at + 5], buf[at + 4]).wrapping_sub(
            pc,
        );
        low = 0x17u32 | ((first >> 27u32) << 7u32) | (addr.wrapping_add(0x800) & 0xFFFF_F000u32);
        high = (first >> 12u32) | (addr << 20u32);
    }
    put_word(buf, at, low);
    put_word(buf, at + 4, high);
    proof {
        assert(buf@ =~= overlay(old(buf)@, at as int, word_bytes(low) + word_bytes(high)));
    }
    8
}

/// Running state of a branch filter.
#[derive(Clone, Copy, Debug, PartialEq, Eq, Structural)]
pub struct BcjFilter {
    pub kind: BranchKind,
    /// Address of the next byte, modulo the 32 bits that targets have.
    pub pos: u32,
    /// x86 opcodes among the last three bytes.
    pub mask: u32,
}

fn window_len(kind: BranchKind) -> (len: usize)
    ensures
        len == window(kind),
{
    match kind {
        BranchKind::X86 => 5,
        BranchKind::Ia64 => 16,
        BranchKind::RiscV => 8,
        _ => 4,
    }
}

impl BcjFilter {
    /// The mask has three bits.
    pub open spec fn wf(self) -> bool {
        self.mask < 8
    }

    /// A filter for code that begins at `start`.
    pub fn new(kind: BranchKind, start: usize) -> (filter: Self)
        ensures
            filter == (BcjFilter { kind, pos: first_address(kind, start as nat), mask: 0 }),
            filter.wf(),
    {
        let low: u64 = (start as u64) % 0x1_0000_0000;
        let lead: u64 = match kind {
            BranchKind::X86 => 5,
            BranchKind::Arm => 8,
            BranchKind::ArmThumb => 4,
            _ => 0,
        };
        proof {
            lemma_add_mod_noop_right(lead as int, start as int, 0x1_0000_0000);
        }
        let pos: u64 = (lead + low) % 0x1_0000_0000;
        BcjFilter { kind, pos: pos as u32, mask: 0 }
    }

    fn decode_at(&mut self, buf: &mut [u8], at: usize) -> (passed: usize)
        requires
            old(self).wf(),
            at + window(old(self).kind) <= old(buf).len(),
        ensures
            ({
                let step = decode_step(
                    old(self).kind,
                    old(self).mask,
                    window_at(old(buf)@, at as int, old(self).kind),
                    old(self).pos,
                );
                &&& passed == step.bytes.len()
                &&& 0 < passed <= window(old(self).kind)
                &&& final(buf)@ == overlay(old(buf)@, at as int, step.bytes)
                &&& *final(self) == (BcjFilter { mask: step.mask, ..*old(self) })
                &&& final(self).wf()
            }),
    {
        proof {
            lemma_step_passes(
                self.kind,
                self.mask,
                window_at(buf@, at as int, self.kind),
                self.pos,
            );
            reveal(decode_step);
        }
        match self.kind {
            BranchKind::X86 => {
                let (passed, mask) = x86_at(buf, at, self.mask, self.pos);
                self.mask = mask;
                passed
            },
            BranchKind::Arm => arm_at(buf, at, self.pos),
            BranchKind::ArmThumb => thumb_at(buf, at, self.pos),
            BranchKind::Arm64 => arm64_at(buf, at, self.pos),
            BranchKind::Ppc => ppc_at(buf, at, self.pos),
            BranchKind::Sparc => sparc_at(buf, at, self.pos),
            BranchKind::Ia64 => ia64_at(buf, at, self.pos),
            BranchKind::RiscV => riscv_at(buf, at, self.pos),
        }
    }

    /// Decodes the leading run of whole windows in place and returns its length.
    pub fn decode(&mut self, buf: &mut [u8]) -> (count: usize)
        requires
            old(self).wf(),
        ensures
            ({
                let all = scan(old(self).kind, old(self).mask, old(self).pos, old(buf)@);
                &&& count == all.bytes.len()
                &&& count <= old(buf)@.len()
                &&& final(buf)@ == all.bytes + old(buf)@.skip(count as int)
                &&& *final(self) == (BcjFilter {
                    kind: old(self).kind,
                    pos: advance(old(self).pos, count as nat),
                    mask: all.mask,
                })
                &&& final(self).wf()
            }),
    {
        let size: usize = window_len(self.kind);
        let ghost start = *self;
        let ghost source = buf@;
        let ghost all = scan(start.kind, start.mask, start.pos, source);
        let mut at: usize = 0;
        proof {
            lemma_advance_none(start.pos);
            assert(source.skip(0) =~= source);
            assert(buf@.take(0) + scan(start.kind, start.mask, start.pos, source).bytes
                =~= all.bytes);
        }
        while buf.len() - at >= size
            invariant
                start == *old(self),
                source == old(buf)@,
                size == window(start.kind),
                self.wf(),
                self.kind == start.kind,
                self.pos == advance(start.pos, at as nat),
                at <= buf.len(),
                buf@.len() == source.len(),
                buf@.skip(at as int) == source.skip(at as int),
                all == scan(start.kind, start.mask, start.pos, source),
                ({
                    let rest = scan(self.kind, self.mask, self.pos, source.skip(at as int));
                    all.bytes == buf@.take(at as int) + rest.bytes && all.mask == rest.mask
                }),
            decreases buf.len() - at,
        {
            let ghost before = buf@;
            let ghost step = decode_step(
                self.kind,
                self.mask,
                window_at(before, at as int, self.kind),
                self.pos,
            );
            let ghost rest = source.skip(at as int);
            proof {
                reveal(scan);
                assert(window_at(before, at as int, self.kind) =~= rest.take(size as int)) by {
                    assert(before.skip(at as int) =~= rest);
                    assert(before.skip(at as int).take(size as int) =~= window_at(
                        before,
                        at as int,
                        self.kind,
                    ));
                }
            }
            let passed: usize = self.decode_at(buf, at);
            proof {
                let next = plus(self.pos, passed as u32);
                lemma_advance_step(start.pos, at as nat, passed as nat);
                assert(rest.skip(passed as int) =~= source.skip(at + passed));
                assert(buf@.skip(at + passed) =~= before.skip(at as int).skip(passed as int));
                assert(buf@.take(at + passed) =~= before.take(at as int) + step.bytes);
                let tail = scan(self.kind, step.mask, next, rest.skip(passed as int));
                assert(before.take(at as int) + (step.bytes + tail.bytes) =~= buf@.take(
                    at + passed,
                ) + tail.bytes);
            }
            self.pos = self.pos.wrapping_add(passed as u32);
            at = at + passed;
        }
        proof {
            reveal(scan);
            assert(buf@.take(at as int) =~= all.bytes);
            assert(buf@ =~= all.bytes + source.skip(at as int)) by {
                assert(buf@ =~= buf@.take(at as int) + buf@.skip(at as int));
            }
        }
        at
    }
}

} // verus!
