use vstd::prelude::*;

use crate::errors::CronosError;

verus! {

/// A 32-byte storage address, held as two little-endian 128-bit words.
///
/// Addresses are opaque identities to the scheduler logic: it only ever
/// compares them, stores them, and re-derives them from seeds. The word
/// representation keeps equality structural and lets records hold addresses
/// as plain values.
#[derive(Clone, Copy, Debug, Hash, PartialEq, Eq, Structural)]
pub struct Address {
    pub lo: u128,
    pub hi: u128,
}

/// The address and disambiguation nonce ("bump") that seed-based derivation
/// yields for the given seed components under the given program identity,
/// or `None` when no nonce in the search range gives a valid address.
/// Derivation is a pure function of the seeds and the program identity.
pub uninterp spec fn pda_of(seeds: Seq<Seq<u8>>, program: Address) -> Option<(Address, u8)>;

/// Relies on `solana_sdk::pubkey::Pubkey::try_find_program_address`: the
/// result depends on the seed bytes and program id alone, and is `None`
/// (never a panic) when no bump seed yields a valid off-curve address or
/// the seeds exceed the ledger's count or length limits.
#[verifier::external_body]
fn find_program_address(seeds: &Vec<Vec<u8>>, program: &Address) -> (r: Option<(Address, u8)>)
    ensures
        r == pda_of(seeds.deep_view(), *program),
{
    let seed_refs: Vec<&[u8]> = seeds.iter().map(|s| s.as_slice()).collect();
    let mut pb = [0u8; 32];
    pb[0..16].copy_from_slice(&program.lo.to_le_bytes());
    pb[16..32].copy_from_slice(&program.hi.to_le_bytes());
    let pk = solana_sdk::pubkey::Pubkey::new_from_array(pb);
    solana_sdk::pubkey::Pubkey::try_find_program_address(&seed_refs, &pk).map(|(k, b)| {
        let kb = k.to_bytes();
        let lo = u128::from_le_bytes(kb[0..16].try_into().unwrap());
        let hi = u128::from_le_bytes(kb[16..32].try_into().unwrap());
        (Address { lo, hi }, b)
    })
}

/// The first `n` little-endian bytes of `x`.
pub open spec fn le_bytes(x: int, n: nat) -> Seq<u8>
    decreases n,
{
    if n == 0 {
        Seq::empty()
    } else {
        seq![(x % 256) as u8] + le_bytes(x / 256, (n - 1) as nat)
    }
}

/// An address as a 32-byte seed component.
pub open spec fn address_seed(a: Address) -> Seq<u8> {
    le_bytes(a.lo as int, 16) + le_bytes(a.hi as int, 16)
}

/// A creation index as an 8-byte seed component.
pub open spec fn index_seed(i: u64) -> Seq<u8> {
    le_bytes(i as int, 8)
}

fn push_le_bytes(out: &mut Vec<u8>, x: u128, n: usize)
    ensures
        final(out)@ == old(out)@ + le_bytes(x as int, n as nat),
{
    let mut cur = x;
    let mut k: usize = 0;
    while k < n
        invariant
            k <= n,
            old(out)@ + le_bytes(x as int, n as nat) == out@ + le_bytes(
                cur as int,
                (n - k) as nat,
            ),
        decreases n - k,
    {
        proof {
            assert(le_bytes(cur as int, (n - k) as nat) == seq![(cur as int % 256) as u8]
                + le_bytes(cur as int / 256, (n - k - 1) as nat));
            assert(out@ + le_bytes(cur as int, (n - k) as nat) =~= out@.push(
                (cur as int % 256) as u8,
            ) + le_bytes(cur as int / 256, (n - k - 1) as nat));
        }
        out.push((cur % 256) as u8);
        cur = cur / 256;
        k = k + 1;
    }
    proof {
        assert(out@ + le_bytes(cur as int, 0) =~= out@);
    }
}

/// An address rendered as the 32 seed bytes that locate records derived
/// from it.
pub fn address_seed_bytes(a: &Address) -> (r: Vec<u8>)
    ensures
        r@ == address_seed(*a),
{
    let mut out: Vec<u8> = Vec::new();
    push_le_bytes(&mut out, a.lo, 16);
    push_le_bytes(&mut out, a.hi, 16);
    proof {
        assert(out@ =~= address_seed(*a));
    }
    out
}

/// A creation index rendered as its 8 seed bytes.
pub fn index_seed_bytes(i: u64) -> (r: Vec<u8>)
    ensures
        r@ == index_seed(i),
{
    let mut out: Vec<u8> = Vec::new();
    push_le_bytes(&mut out, i as u128, 8);
    proof {
        assert(out@ =~= index_seed(i));
    }
    out
}

/// Derive the canonical storage address for `seeds` under `program`.
///
/// Succeeds exactly when a valid nonce exists in the search range; otherwise
/// reports `AddressSpaceExhausted` (practically unreachable).
pub fn derive_address(seeds: Vec<Vec<u8>>, program: &Address) -> (r: Result<
    (Address, u8),
    CronosError,
>)
    ensures
        r matches Ok(p) ==> pda_of(seeds.deep_view(), *program) == Some(p),
        r matches Err(e) ==> pda_of(seeds.deep_view(), *program) is None && e
            == CronosError::AddressSpaceExhausted,
{
    match find_program_address(&seeds, program) {
        Some(p) => Ok(p),
        None => Err(CronosError::AddressSpaceExhausted),
    }
}

} // verus!
