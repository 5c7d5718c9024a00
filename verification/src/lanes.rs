//! Bytes and halves of a memory word: what loads take out of a word and what stores put into it.
use vstd::prelude::*;

use crate::alu::wrapped;
use crate::isa::Opcode;

verus! {

/// The weight of a byte of a word, the first byte being the lowest.
pub open spec fn byte_weight(lane: int) -> int {
    if lane == 0 {
        1
    } else if lane == 1 {
        0x100
    } else if lane == 2 {
        0x1_0000
    } else {
        0x100_0000
    }
}

/// The weight of a half of a word.
pub open spec fn half_weight(lane: int) -> int {
    if lane == 0 {
        1
    } else {
        0x1_0000
    }
}

/// A byte of a word.
pub open spec fn byte_of(word: u32, lane: int) -> int {
    (word as int / byte_weight(lane)) % 0x100
}

/// A half of a word.
pub open spec fn half_of(word: u32, lane: int) -> int {
    (word as int / half_weight(lane)) % 0x1_0000
}

/// The byte that an address selects in its word.
pub open spec fn byte_lane(addr: u32) -> int {
    addr as int % 4
}

/// The half that an address selects in its word.
pub open spec fn half_lane(addr: u32) -> int {
    (addr as int / 2) % 2
}

/// The address meets the alignment that the operation asks for.
pub open spec fn aligned_for(opcode: Opcode, addr: u32) -> bool {
    match opcode {
        Opcode::LH | Opcode::LHU | Opcode::SH => addr % 2 == 0,
        Opcode::LW | Opcode::SW => addr % 4 == 0,
        _ => true,
    }
}

/// The value that a load gives its register.
pub open spec fn loaded(opcode: Opcode, word: u32, addr: u32) -> u32
    recommends
        opcode.is_load(),
        aligned_for(opcode, addr),
{
    let byte = byte_of(word, byte_lane(addr));
    let half = half_of(word, half_lane(addr));
    match opcode {
        Opcode::LB => wrapped(
            if byte < 0x80 {
                byte
            } else {
                byte - 0x100
            },
        ),
        Opcode::LBU => wrapped(byte),
        Opcode::LH => wrapped(
            if half < 0x8000 {
                half
            } else {
                half - 0x1_0000
            },
        ),
        Opcode::LHU => wrapped(half),
        _ => word,
    }
}

/// The word that consists of four bytes.
pub open spec fn join_bytes(b0: int, b1: int, b2: int, b3: int) -> u32 {
    (b0 + b1 * 0x100 + b2 * 0x1_0000 + b3 * 0x100_0000) as u32
}

/// The word that consists of two halves.
pub open spec fn join_halves(h0: int, h1: int) -> u32 {
    (h0 + h1 * 0x1_0000) as u32
}

/// The byte of a word after a store: the stored byte in its own lane, the old one elsewhere.
pub open spec fn byte_after(word: u32, value: u32, addr: u32, lane: int) -> int {
    if lane == byte_lane(addr) {
        value as int % 0x100
    } else {
        byte_of(word, lane)
    }
}

/// The half of a word after a store: the stored half in its own lane, the old one elsewhere.
pub open spec fn half_after(word: u32, value: u32, addr: u32, lane: int) -> int {
    if lane == half_lane(addr) {
        value as int % 0x1_0000
    } else {
        half_of(word, lane)
    }
}

/// The word that a store leaves in memory.
pub open spec fn stored(opcode: Opcode, word: u32, value: u32, addr: u32) -> u32
    recommends
        opcode.is_store(),
        aligned_for(opcode, addr),
{
    match opcode {
        Opcode::SB => join_bytes(
            byte_after(word, value, addr, 0),
            byte_after(word, value, addr, 1),
            byte_after(word, value, addr, 2),
            byte_after(word, value, addr, 3),
        ),
        Opcode::SH => join_halves(
            half_after(word, value, addr, 0),
            half_after(word, value, addr, 1),
        ),
        _ => value,
    }
}

/// The value that a load gives its register; nothing where the address is not aligned for it.
pub fn load(opcode: Opcode, word: u32, addr: u32) -> (value: Option<u32>)
    requires
        opcode.is_load(),
    ensures
        value == if aligned_for(opcode, addr) {
            Some(loaded(opcode, word, addr))
        } else {
            None
        },
{
    match opcode {
        Opcode::LB => {
            let byte: u32 = select_byte(word, addr);
            if byte < 0x80 {
                Some(byte)
            } else {
                Some(byte + 0xffff_ff00)
            }
        },
        Opcode::LBU => Some(select_byte(word, addr)),
        Opcode::LH => {
            if addr % 2 != 0 {
                return None;
            }
            let half: u32 = select_half(word, addr);
            if half < 0x8000 {
                Some(half)
            } else {
                Some(half + 0xffff_0000)
            }
        },
        Opcode::LHU => {
            if addr % 2 != 0 {
                return None;
            }
            Some(select_half(word, addr))
        },
        _ => {
            if addr % 4 != 0 {
                return None;
            }
            Some(word)
        },
    }
}

/// The byte of a word that an address selects.
pub fn select_byte(word: u32, addr: u32) -> (byte: u32)
    ensures
        byte == byte_of(word, byte_lane(addr)),
{
    match addr % 4 {
        0 => word % 0x100,
        1 => (word / 0x100) % 0x100,
        2 => (word / 0x1_0000) % 0x100,
        _ => (word / 0x100_0000) % 0x100,
    }
}

fn select_half(word: u32, addr: u32) -> (half: u32)
    ensures
        half == half_of(word, half_lane(addr)),
{
    match (addr / 2) % 2 {
        0 => word % 0x1_0000,
        _ => (word / 0x1_0000) % 0x1_0000,
    }
}

/// The word that a store leaves in memory; nothing where the address is not aligned for it.
pub fn store(opcode: Opcode, word: u32, value: u32, addr: u32) -> (new_word: Option<u32>)
    requires
        opcode.is_store(),
    ensures
        new_word == if aligned_for(opcode, addr) {
            Some(stored(opcode, word, value, addr))
        } else {
            None
        },
{
    match opcode {
        Opcode::SB => {
            let byte: u32 = value % 0x100;
            let b0: u32 = if addr % 4 == 0 { byte } else { word % 0x100 };
            let b1: u32 = if addr % 4 == 1 { byte } else { (word / 0x100) % 0x100 };
            let b2: u32 = if addr % 4 == 2 { byte } else { (word / 0x1_0000) % 0x100 };
            let b3: u32 = if addr % 4 == 3 { byte } else { (word / 0x100_0000) % 0x100 };
            Some(b0 + b1 * 0x100 + b2 * 0x1_0000 + b3 * 0x100_0000)
        },
        Opcode::SH => {
            if addr % 2 != 0 {
                return None;
            }
            let half: u32 = value % 0x1_0000;
            let h0: u32 = if (addr / 2) % 2 == 0 { half } else { word % 0x1_0000 };
            let h1: u32 = if (addr / 2) % 2 == 1 { half } else { (word / 0x1_0000) % 0x1_0000 };
            Some(h0 + h1 * 0x1_0000)
        },
        _ => {
            if addr % 4 != 0 {
                return None;
            }
            Some(value)
        },
    }
}

/// The bytes of a joined word are those that were joined.
pub proof fn lemma_join_bytes(b0: int, b1: int, b2: int, b3: int)
    requires
        0 <= b0 < 0x100,
        0 <= b1 < 0x100,
        0 <= b2 < 0x100,
        0 <= b3 < 0x100,
    ensures
        byte_of(join_bytes(b0, b1, b2, b3), 0) == b0,
        byte_of(join_bytes(b0, b1, b2, b3), 1) == b1,
        byte_of(join_bytes(b0, b1, b2, b3), 2) == b2,
        byte_of(join_bytes(b0, b1, b2, b3), 3) == b3,
{
    let word = join_bytes(b0, b1, b2, b3) as int;
    assert(word == (b1 + b2 * 0x100 + b3 * 0x1_0000) * 0x100 + b0);
    assert(word / 0x100 == (b2 + b3 * 0x100) * 0x100 + b1);
    assert(word / 0x1_0000 == b3 * 0x100 + b2);
    assert(word / 0x100_0000 == b3);
}

/// A stored byte is read back, and the other three bytes of the word stay.
pub proof fn law_store_byte(word: u32, value: u32, addr: u32, lane: int)
    requires
        0 <= lane < 4,
    ensures
        byte_of(stored(Opcode::SB, word, value, addr), lane) == byte_after(word, value, addr, lane),
        loaded(Opcode::LBU, stored(Opcode::SB, word, value, addr), addr) == value % 0x100,
{
    lemma_join_bytes(
        byte_after(word, value, addr, 0),
        byte_after(word, value, addr, 1),
        byte_after(word, value, addr, 2),
        byte_after(word, value, addr, 3),
    );
}

/// A stored half is read back, and the other half of the word stays.
pub proof fn law_store_half(word: u32, value: u32, addr: u32, lane: int)
    requires
        0 <= lane < 2,
        addr % 2 == 0,
    ensures
        half_of(stored(Opcode::SH, word, value, addr), lane) == half_after(word, value, addr, lane),
        loaded(Opcode::LHU, stored(Opcode::SH, word, value, addr), addr) == value % 0x1_0000,
{
    let h0 = half_after(word, value, addr, 0);
    let h1 = half_after(word, value, addr, 1);
    assert(0 <= h0 < 0x1_0000 && 0 <= h1 < 0x1_0000);
    let joined = join_halves(h0, h1);
    assert(joined as int == h1 * 0x1_0000 + h0);
    assert(half_of(joined, 0) == h0);
    assert(half_of(joined, 1) == h1);
    assert(stored(Opcode::SH, word, value, addr) == joined);
}

/// A stored word is read back.
pub proof fn law_store_word(word: u32, value: u32, addr: u32)
    requires
        addr % 4 == 0,
    ensures
        loaded(Opcode::LW, stored(Opcode::SW, word, value, addr), addr) == value,
{
}

/// A load gives the word, or the byte or half of it that the address selects: as a number from zero
/// on, or as the number in two's complement of that width which agrees with it.
pub proof fn law_loaded_number(word: u32, addr: u32)
    ensures
        ({
            let w = word as int;
            let byte = if addr % 4 == 0 {
                w % 0x100
            } else if addr % 4 == 1 {
                w / 0x100 % 0x100
            } else if addr % 4 == 2 {
                w / 0x1_0000 % 0x100
            } else {
                w / 0x100_0000
            };
            let lb = loaded(Opcode::LB, word, addr) as int;
            &&& loaded(Opcode::LBU, word, addr) == byte
            &&& lb < 0x80 || 0xffff_ff80 <= lb
            &&& (lb - byte) % 0x100 == 0
        }),
        addr % 2 == 0 ==> {
            let w = word as int;
            let half = if addr % 4 == 0 {
                w % 0x1_0000
            } else {
                w / 0x1_0000
            };
            let lh = loaded(Opcode::LH, word, addr) as int;
            &&& loaded(Opcode::LHU, word, addr) == half
            &&& lh < 0x8000 || 0xffff_8000 <= lh
            &&& (lh - half) % 0x1_0000 == 0
        },
        addr % 4 == 0 ==> loaded(Opcode::LW, word, addr) == word,
        aligned_for(Opcode::LB, addr) && aligned_for(Opcode::LBU, addr),
        aligned_for(Opcode::LH, addr) <==> addr % 2 == 0,
        aligned_for(Opcode::LHU, addr) <==> addr % 2 == 0,
        aligned_for(Opcode::LW, addr) <==> addr % 4 == 0,
{
}

/// A store changes the byte, half or word that the address selects to the low part of the value, and
/// leaves the rest of the word as it is.
pub proof fn law_stored_number(word: u32, value: u32, addr: u32)
    ensures
        ({
            let w = word as int;
            let n = stored(Opcode::SB, word, value, addr) as int;
            let byte = value as int % 0x100;
            &&& n % 0x100 == if addr % 4 == 0 {
                byte
            } else {
                w % 0x100
            }
            &&& n / 0x100 % 0x100 == if addr % 4 == 1 {
                byte
            } else {
                w / 0x100 % 0x100
            }
            &&& n / 0x1_0000 % 0x100 == if addr % 4 == 2 {
                byte
            } else {
                w / 0x1_0000 % 0x100
            }
            &&& n / 0x100_0000 == if addr % 4 == 3 {
                byte
            } else {
                w / 0x100_0000
            }
        }),
        addr % 2 == 0 ==> {
            let w = word as int;
            let n = stored(Opcode::SH, word, value, addr) as int;
            &&& n % 0x1_0000 == if addr % 4 == 0 {
                value as int % 0x1_0000
            } else {
                w % 0x1_0000
            }
            &&& n / 0x1_0000 == if addr % 4 == 2 {
                value as int % 0x1_0000
            } else {
                w / 0x1_0000
            }
        },
        addr % 4 == 0 ==> stored(Opcode::SW, word, value, addr) == value,
        aligned_for(Opcode::SB, addr),
        aligned_for(Opcode::SH, addr) <==> addr % 2 == 0,
        aligned_for(Opcode::SW, addr) <==> addr % 4 == 0,
{
    law_store_byte(word, value, addr, 0);
    law_store_byte(word, value, addr, 1);
    law_store_byte(word, value, addr, 2);
    law_store_byte(word, value, addr, 3);
    if addr % 2 == 0 {
        law_store_half(word, value, addr, 0);
        law_store_half(word, value, addr, 1);
    }
}

/// The four bytes of a word, the lowest first, make up the word.
pub proof fn law_bytes(word: u32)
    ensures
        join_bytes(byte_of(word, 0), byte_of(word, 1), byte_of(word, 2), byte_of(word, 3)) == word,
        word == byte_of(word, 0) + byte_of(word, 1) * 0x100 + byte_of(word, 2) * 0x1_0000 + byte_of(
            word,
            3,
        ) * 0x100_0000,
        forall|lane: int| 0 <= #[trigger] byte_of(word, lane) < 0x100,
{
    let w = word as int;
    assert(w == (w / 0x100) * 0x100 + w % 0x100);
    assert(w / 0x100 == (w / 0x1_0000) * 0x100 + (w / 0x100) % 0x100);
    assert(w / 0x1_0000 == (w / 0x100_0000) * 0x100 + (w / 0x1_0000) % 0x100);
}

} // verus!
