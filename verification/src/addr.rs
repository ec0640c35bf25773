//! Deterministic, keyless custody addressing.  Contest records, vaults,
//! vault authorities and participant records each live at a program-derived
//! address computed from the owning program's identity and a fixed seed
//! schema.  Knowing the derivation seeds of an authority address is the only
//! "signature" that authorizes outbound transfers from the matching vault.

use vstd::bytes::{spec_u64_to_le_bytes, u64_to_le_bytes};
use vstd::prelude::*;

use crate::state::AccountId;

verus! {

/// Identity of the owning program, as address bytes.
pub const PROGRAM_ID: [u8; 32] = [
    243,
    189,
    48,
    152,
    10,
    174,
    47,
    16,
    22,
    186,
    162,
    70,
    77,
    26,
    166,
    68,
    14,
    91,
    139,
    57,
    205,
    218,
    42,
    162,
    149,
    193,
    105,
    167,
    161,
    208,
    56,
    62,
];

/// The address and bump that program derivation yields for the given seeds
/// under the given program identity, or nothing in the statistically
/// improbable case that no bump seed is viable.
pub uninterp spec fn pda_of(program_id: Seq<u8>, seeds: Seq<Seq<u8>>) -> Option<(Seq<u8>, u8)>;

/// Relies on `Pubkey::try_find_program_address` of anchor_lang: the derived
/// address and bump depend on the program id and the seed bytes alone, and
/// the call returns `None` rather than panicking when no bump seed is
/// viable.
#[verifier::external_body]
fn find_pda(program_id: &[u8; 32], seeds: &Vec<Vec<u8>>) -> (r: Option<([u8; 32], u8)>)
    ensures
        (r is Some) == (pda_of(program_id@, seeds.deep_view()) is Some),
        r matches Some(p) ==> pda_of(program_id@, seeds.deep_view()) matches Some(q) && p.0@ == q.0
            && p.1 == q.1,
{
    let refs: Vec<&[u8]> = seeds.iter().map(|s| s.as_slice()).collect();
    let pid = anchor_lang::prelude::Pubkey::new_from_array(*program_id);
    anchor_lang::prelude::Pubkey::try_find_program_address(&refs, &pid).map(
        |p: (anchor_lang::prelude::Pubkey, u8)| (p.0.to_bytes(), p.1),
    )
}

/// What the derivation under this program's identity yields for `seeds`.
pub open spec fn spec_pda(seeds: Seq<Seq<u8>>) -> Option<(Seq<u8>, u8)> {
    pda_of(PROGRAM_ID@, seeds)
}

/// The executable derivation result `r` agrees with the specification-level
/// result `s`.
pub open spec fn matches_pda(r: Option<([u8; 32], u8)>, s: Option<(Seq<u8>, u8)>) -> bool {
    &&& (r is Some) == (s is Some)
    &&& (r matches Some(p) ==> s matches Some(q) && p.0@ == q.0 && p.1 == q.1)
}

/// Seed tag of a contest record.
pub open spec fn contest_tag() -> Seq<u8> {
    seq![99u8, 111u8, 110u8, 116u8, 101u8, 115u8, 116u8]
}

/// Seed tag of a contest vault.
pub open spec fn vault_tag() -> Seq<u8> {
    seq![118u8, 97u8, 117u8, 108u8, 116u8]
}

/// Seed tag of a contest vault authority.
pub open spec fn vault_authority_tag() -> Seq<u8> {
    seq![
        118u8,
        97u8,
        117u8,
        108u8,
        116u8,
        95u8,
        97u8,
        117u8,
        116u8,
        104u8,
        111u8,
        114u8,
        105u8,
        116u8,
        121u8,
    ]
}

/// Seed tag of a participant record.
pub open spec fn participant_tag() -> Seq<u8> {
    seq![112u8, 97u8, 114u8, 116u8, 105u8, 99u8, 105u8, 112u8, 97u8, 110u8, 116u8]
}

/// Seeds of the contest record address for `contest_id`.
pub open spec fn contest_seeds(contest_id: u64) -> Seq<Seq<u8>> {
    seq![contest_tag(), spec_u64_to_le_bytes(contest_id)]
}

/// Seeds of the vault address for `contest_id`.
pub open spec fn vault_seeds(contest_id: u64) -> Seq<Seq<u8>> {
    seq![vault_tag(), spec_u64_to_le_bytes(contest_id)]
}

/// Seeds of the vault authority address for `contest_id`.
pub open spec fn vault_authority_seeds(contest_id: u64) -> Seq<Seq<u8>> {
    seq![vault_authority_tag(), spec_u64_to_le_bytes(contest_id)]
}

/// Seeds of the participant record address for `contest_id` and `player`.
pub open spec fn participant_seeds(contest_id: u64, player: AccountId) -> Seq<Seq<u8>> {
    seq![participant_tag(), spec_u64_to_le_bytes(contest_id), spec_u64_to_le_bytes(player)]
}

fn contest_tag_vec() -> (v: Vec<u8>)
    ensures
        v@ == contest_tag(),
{
    let mut v: Vec<u8> = Vec::new();
    v.push(99);
    v.push(111);
    v.push(110);
    v.push(116);
    v.push(101);
    v.push(115);
    v.push(116);
    proof {
        assert(v@ =~= contest_tag());
    }
    v
}

fn vault_tag_vec() -> (v: Vec<u8>)
    ensures
        v@ == vault_tag(),
{
    let mut v: Vec<u8> = Vec::new();
    v.push(118);
    v.push(97);
    v.push(117);
    v.push(108);
    v.push(116);
    proof {
        assert(v@ =~= vault_tag());
    }
    v
}

fn vault_authority_tag_vec() -> (v: Vec<u8>)
    ensures
        v@ == vault_authority_tag(),
{
    let mut v: Vec<u8> = Vec::new();
    v.push(118);
    v.push(97);
    v.push(117);
    v.push(108);
    v.push(116);
    v.push(95);
    v.push(97);
    v.push(117);
    v.push(116);
    v.push(104);
    v.push(111);
    v.push(114);
    v.push(105);
    v.push(116);
    v.push(121);
    proof {
        assert(v@ =~= vault_authority_tag());
    }
    v
}

fn participant_tag_vec() -> (v: Vec<u8>)
    ensures
        v@ == participant_tag(),
{
    let mut v: Vec<u8> = Vec::new();
    v.push(112);
    v.push(97);
    v.push(114);
    v.push(116);
    v.push(105);
    v.push(99);
    v.push(105);
    v.push(112);
    v.push(97);
    v.push(110);
    v.push(116);
    proof {
        assert(v@ =~= participant_tag());
    }
    v
}

/// Address and bump of the contest record for `contest_id`.
pub fn contest_address(contest_id: u64) -> (r: Option<([u8; 32], u8)>)
    ensures
        matches_pda(r, spec_pda(contest_seeds(contest_id))),
{
    let mut seeds: Vec<Vec<u8>> = Vec::new();
    seeds.push(contest_tag_vec());
    seeds.push(u64_to_le_bytes(contest_id));
    proof {
        assert(seeds.deep_view() =~~= contest_seeds(contest_id));
    }
    find_pda(&PROGRAM_ID, &seeds)
}

/// Address and bump of the vault for `contest_id`.
pub fn vault_address(contest_id: u64) -> (r: Option<([u8; 32], u8)>)
    ensures
        matches_pda(r, spec_pda(vault_seeds(contest_id))),
{
    let mut seeds: Vec<Vec<u8>> = Vec::new();
    seeds.push(vault_tag_vec());
    seeds.push(u64_to_le_bytes(contest_id));
    proof {
        assert(seeds.deep_view() =~~= vault_seeds(contest_id));
    }
    find_pda(&PROGRAM_ID, &seeds)
}

/// Address and bump of the vault authority for `contest_id`.
pub fn vault_authority_address(contest_id: u64) -> (r: Option<([u8; 32], u8)>)
    ensures
        matches_pda(r, spec_pda(vault_authority_seeds(contest_id))),
{
    let mut seeds: Vec<Vec<u8>> = Vec::new();
    seeds.push(vault_authority_tag_vec());
    seeds.push(u64_to_le_bytes(contest_id));
    proof {
        assert(seeds.deep_view() =~~= vault_authority_seeds(contest_id));
    }
    find_pda(&PROGRAM_ID, &seeds)
}

/// Address and bump of the participant record for `contest_id` and `player`.
pub fn participant_record_address(contest_id: u64, player: AccountId) -> (r: Option<
    ([u8; 32], u8),
>)
    ensures
        matches_pda(r, spec_pda(participant_seeds(contest_id, player))),
{
    let mut seeds: Vec<Vec<u8>> = Vec::new();
    seeds.push(participant_tag_vec());
    seeds.push(u64_to_le_bytes(contest_id));
    seeds.push(u64_to_le_bytes(player));
    proof {
        assert(seeds.deep_view() =~~= participant_seeds(contest_id, player));
    }
    find_pda(&PROGRAM_ID, &seeds)
}

/// Byte-for-byte equality of two 32-byte addresses.
pub fn bytes32_eq(a: &[u8; 32], b: &[u8; 32]) -> (r: bool)
    ensures
        r == (a@ == b@),
{
    for i in 0..32
        invariant
            forall|j: int| 0 <= j < i ==> a@[j] == b@[j],
    {
        if a[i] != b[i] {
            return false;
        }
    }
    proof {
        assert(a@ =~= b@);
    }
    true
}

} // verus!
