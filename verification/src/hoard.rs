//! The instruction set of the Dragon's Hoard program and its wire format.
//!
//! An instruction travels as one tag byte, the position of its variant, and
//! then its fields in order: a `u8` as it is, a `u64` as eight bytes, least
//! significant first. A reader takes an instruction from the front of its
//! input and leaves what follows untouched.

use vstd::prelude::*;
use vstd::bytes::{
    spec_u64_to_le_bytes, spec_u64_from_le_bytes, u64_to_le_bytes, u64_from_le_bytes,
    lemma_auto_spec_u64_to_from_le_bytes,
};
use vstd::slice::slice_subrange;

verus! {

/// Instructions supported by the Dragon's Hoard program.
#[derive(Clone, Copy, Debug, PartialEq, Eq, Structural)]
pub enum DragonInstruction {
    /// Initialize the dungeon with a vault.
    InitDungeon { vault_bump: u8 },
    /// Enter the dungeon by paying the entry fee.
    EnterDungeon,
    /// Fight a monster and earn loot.
    FightMonster { seed: u64, loot_bump: u8 },
    /// Claim loot earnings.
    ClaimLoot,
    /// Leave the dungeon.
    ExitDungeon,
}

impl DragonInstruction {
    /// The bytes that stand for this instruction.
    pub open spec fn wire(self) -> Seq<u8> {
        match self {
            DragonInstruction::InitDungeon { vault_bump } => seq![0u8, vault_bump],
            DragonInstruction::EnterDungeon => seq![1u8],
            DragonInstruction::FightMonster { seed, loot_bump } => seq![2u8] + spec_u64_to_le_bytes(
                seed,
            ) + seq![loot_bump],
            DragonInstruction::ClaimLoot => seq![3u8],
            DragonInstruction::ExitDungeon => seq![4u8],
        }
    }

    /// The instruction at the front of `data`, if there is a whole one.
    pub open spec fn parsed(data: Seq<u8>) -> Option<DragonInstruction> {
        if data.len() == 0 {
            None
        } else if data[0] == 0 {
            if data.len() >= 2 {
                Some(DragonInstruction::InitDungeon { vault_bump: data[1] })
            } else {
                None
            }
        } else if data[0] == 1 {
            Some(DragonInstruction::EnterDungeon)
        } else if data[0] == 2 {
            if data.len() >= 10 {
                Some(
                    DragonInstruction::FightMonster {
                        seed: spec_u64_from_le_bytes(data.subrange(1, 9)),
                        loot_bump: data[9],
                    },
                )
            } else {
                None
            }
        } else if data[0] == 3 {
            Some(DragonInstruction::ClaimLoot)
        } else if data[0] == 4 {
            Some(DragonInstruction::ExitDungeon)
        } else {
            None
        }
    }

    /// Writes the instruction in its wire format.
    pub fn encode(&self) -> (bytes: Vec<u8>)
        ensures
            bytes@ == self.wire(),
    {
        let mut bytes: Vec<u8> = Vec::new();
        match *self {
            DragonInstruction::InitDungeon { vault_bump } => {
                bytes.push(0);
                bytes.push(vault_bump);
            },
            DragonInstruction::EnterDungeon => {
                bytes.push(1);
            },
            DragonInstruction::FightMonster { seed, loot_bump } => {
                bytes.push(2);
                let mut digits = u64_to_le_bytes(seed);
                bytes.append(&mut digits);
                bytes.push(loot_bump);
            },
            DragonInstruction::ClaimLoot => {
                bytes.push(3);
            },
            DragonInstruction::ExitDungeon => {
                bytes.push(4);
            },
        }
        assert(bytes@ =~= self.wire());
        bytes
    }

    /// Reads the instruction at the front of `data`. `None` when the tag is
    /// unknown or the input ends before the last field.
    pub fn decode(data: &[u8]) -> (instruction: Option<DragonInstruction>)
        ensures
            instruction == Self::parsed(data@),
    {
        if data.len() == 0 {
            return None;
        }
        let tag = data[0];
        if tag == 0 {
            if data.len() >= 2 {
                Some(DragonInstruction::InitDungeon { vault_bump: data[1] })
            } else {
                None
            }
        } else if tag == 1 {
            Some(DragonInstruction::EnterDungeon)
        } else if tag == 2 {
            if data.len() >= 10 {
                let seed = u64_from_le_bytes(slice_subrange(data, 1, 9));
                Some(DragonInstruction::FightMonster { seed, loot_bump: data[9] })
            } else {
                None
            }
        } else if tag == 3 {
            Some(DragonInstruction::ClaimLoot)
        } else if tag == 4 {
            Some(DragonInstruction::ExitDungeon)
        } else {
            None
        }
    }
}

/// Reading what was written gives the instruction back, whatever follows it.
pub proof fn lemma_decode_inverts_encode(instruction: DragonInstruction, rest: Seq<u8>)
    ensures
        DragonInstruction::parsed(instruction.wire() + rest) == Some(instruction),
{
    lemma_auto_spec_u64_to_from_le_bytes();
    let data = instruction.wire() + rest;
    match instruction {
        DragonInstruction::FightMonster { seed, loot_bump } => {
            assert(data.subrange(1, 9) =~= spec_u64_to_le_bytes(seed));
            assert(data[9] == loot_bump);
        },
        _ => {},
    }
}

} // verus!
