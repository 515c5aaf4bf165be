use vstd::prelude::*;
use anchor_lang::solana_program::pubkey::Pubkey;

verus! {

/// The program address found for the seeds `[tag, owner]` under `program_id`,
/// with its bump, or none where the search finds no address.
pub uninterp spec fn program_address_of(tag: Seq<u8>, owner: Seq<u8>, program_id: Seq<u8>) -> Option<(Seq<u8>, u8)>;

/// Relies on `Pubkey::try_find_program_address`: it searches the bumps from 255
/// down for the first one whose hashed seeds fall off the curve, so the result is
/// a function of the seed bytes and the program id alone.
#[verifier::external_body]
fn try_find_program_address(tag: &[u8], owner: &[u8; 32], program_id: &[u8; 32]) -> (r: Option<([u8; 32], u8)>)
    ensures
        slot_view(r) == program_address_of(tag@, owner@, program_id@),
{
    let program = Pubkey::new_from_array(*program_id);
    Pubkey::try_find_program_address(&[tag, &owner[..]], &program).map(|(k, b)| (k.to_bytes(), b))
}

/// A derived slot as plain values: the address bytes and the bump.
pub open spec fn slot_view(r: Option<([u8; 32], u8)>) -> Option<(Seq<u8>, u8)> {
    match r {
        Some((k, b)) => Some((k@, b)),
        None => None,
    }
}

/// The namespace tag of list stores: the bytes of "blink_list".
pub open spec fn blink_list_tag() -> Seq<u8> {
    seq![98u8, 108u8, 105u8, 110u8, 107u8, 95u8, 108u8, 105u8, 115u8, 116u8]
}

/// Whether `key` is the address derived for `owner` in the list namespace.
pub open spec fn is_owner_slot(key: Seq<u8>, owner: Seq<u8>, program_id: Seq<u8>) -> bool {
    match program_address_of(blink_list_tag(), owner, program_id) {
        Some((k, _)) => k == key,
        None => false,
    }
}

pub fn blink_list_seed() -> (r: Vec<u8>)
    ensures
        r@ == blink_list_tag(),
{
    let r = vec![98u8, 108u8, 105u8, 110u8, 107u8, 95u8, 108u8, 105u8, 115u8, 116u8];
    assert(r@ =~= blink_list_tag());
    r
}

/// The storage slot of `owner` in the namespace `tag`: its address and bump.
pub fn derive_slot(tag: &[u8], owner: &[u8; 32], program_id: &[u8; 32]) -> (r: Option<([u8; 32], u8)>)
    ensures
        slot_view(r) == program_address_of(tag@, owner@, program_id@),
{
    try_find_program_address(tag, owner, program_id)
}

/// Whether `key` is the list-store address of `owner`.
pub fn is_owner_slot_key(key: &[u8; 32], owner: &[u8; 32], program_id: &[u8; 32]) -> (r: bool)
    ensures
        r == is_owner_slot(key@, owner@, program_id@),
{
    let tag = blink_list_seed();
    let found = derive_slot(tag.as_slice(), owner, program_id);
    match found {
        Some((k, bump)) => {
            assert(program_address_of(blink_list_tag(), owner@, program_id@) == Some((k@, bump)));
            let mut i: usize = 0;
            while i < 32
                invariant
                    i <= 32,
                    k@.len() == 32,
                    program_address_of(blink_list_tag(), owner@, program_id@) == Some((k@, bump)),
                    key@.len() == 32,
                    forall|j: int| 0 <= j < i ==> k@[j] == key@[j],
                decreases 32 - i,
            {
                if k[i] != key[i] {
                    assert(k@[i as int] != key@[i as int]);
                    return false;
                }
                i = i + 1;
            }
            assert(k@ =~= key@);
            true
        },
        None => false,
    }
}

/// Derivation is deterministic: two derivations from the same tag, owner and
/// program give the same address and bump.
pub proof fn derive_slot_is_deterministic(
    tag: Seq<u8>,
    owner: Seq<u8>,
    program_id: Seq<u8>,
    first: Option<([u8; 32], u8)>,
    second: Option<([u8; 32], u8)>,
)
    requires
        slot_view(first) == program_address_of(tag, owner, program_id),
        slot_view(second) == program_address_of(tag, owner, program_id),
    ensures
        slot_view(first) == slot_view(second),
{
}

} // verus!
