use vstd::prelude::*;

verus! {

/// The SHA-256 digest (32 bytes) of a byte sequence, as computed by the host
/// ledger's hash primitive. Left uninterpreted: the digest is a function of
/// the input bytes alone.
pub uninterp spec fn sha256_of(data: Seq<u8>) -> Seq<u8>;

/// The program-derived address for a list of seeds under a program id, as
/// computed by the host ledger, or `None` when no bump seed yields a valid
/// address (over-long seeds, too many seeds, or the statistically improbable
/// exhaustion of bump seeds). Left uninterpreted: the outcome is a function
/// of the seeds and the program id alone.
pub uninterp spec fn derived_address_of(seeds: Seq<Seq<u8>>, program_id: Seq<u8>) -> Option<Seq<u8>>;

/// The base58 text rendering of a 32-byte address, as bytes.
pub uninterp spec fn base58_of(addr: Seq<u8>) -> Seq<u8>;

/// Relies on anchor_lang::solana_program::hash::hash: the SHA-256 digest of
/// the input, always 32 bytes, depending on the input bytes alone.
#[verifier::external_body]
pub(crate) fn sha256(data: &Vec<u8>) -> (r: Vec<u8>)
    ensures
        r@ == sha256_of(data@),
        r@.len() == 32,
{
    anchor_lang::solana_program::hash::hash(data.as_slice())
        .to_bytes()
        .to_vec()
}

/// Relies on anchor_lang::solana_program::pubkey::Pubkey::try_find_program_address:
/// a deterministic search over bump seeds that yields a 32-byte program-derived
/// address, or `None` when the seeds admit no valid address. It never panics.
#[verifier::external_body]
pub(crate) fn derive_address(seeds: &Vec<Vec<u8>>, program_id: &Vec<u8>) -> (r: Option<Vec<u8>>)
    requires
        program_id@.len() == 32,
    ensures
        r.deep_view() == derived_address_of(seeds.deep_view(), program_id@),
        r matches Some(a) ==> a@.len() == 32,
{
    let mut pid_bytes = [0u8; 32];
    pid_bytes.copy_from_slice(program_id.as_slice());
    let pid = anchor_lang::solana_program::pubkey::Pubkey::new_from_array(pid_bytes);
    let seed_slices: Vec<&[u8]> = seeds.iter().map(|s| s.as_slice()).collect();
    match anchor_lang::solana_program::pubkey::Pubkey::try_find_program_address(&seed_slices, &pid) {
        Some((addr, _bump)) => Some(addr.to_bytes().to_vec()),
        None => None,
    }
}

/// Relies on the Display impl of anchor_lang::solana_program::pubkey::Pubkey:
/// the base58 text of the 32 address bytes, depending on those bytes alone.
#[verifier::external_body]
pub(crate) fn base58_text(addr: &Vec<u8>) -> (r: Vec<u8>)
    requires
        addr@.len() == 32,
    ensures
        r@ == base58_of(addr@),
{
    let mut addr_bytes = [0u8; 32];
    addr_bytes.copy_from_slice(addr.as_slice());
    let pk = anchor_lang::solana_program::pubkey::Pubkey::new_from_array(addr_bytes);
    pk.to_string().into_bytes()
}

/// The digest commitment check: whether the caller-supplied digest matches
/// the recomputed digest of the canonical input bytes. A caller can publish
/// a commitment to exact text off-band and have the stored record provably
/// match it.
pub fn verify_digest(canonical_input: &Vec<u8>, claimed_digest: &Vec<u8>) -> (r: bool)
    ensures
        r == (sha256_of(canonical_input@) == claimed_digest@),
{
    let recomputed = sha256(canonical_input);
    bytes_eq(&recomputed, claimed_digest)
}

/// Byte-for-byte equality of two byte vectors.
pub fn bytes_eq(a: &Vec<u8>, b: &Vec<u8>) -> (r: bool)
    ensures
        r == (a@ == b@),
{
    if a.len() != b.len() {
        return false;
    }
    let mut i: usize = 0;
    while i < a.len()
        invariant
            i <= a@.len(),
            a@.len() == b@.len(),
            forall|j: int| 0 <= j < i ==> a@[j] == b@[j],
        decreases a@.len() - i,
    {
        if a[i] != b[i] {
            return false;
        }
        i = i + 1;
    }
    proof {
        assert(a@ =~= b@);
    }
    true
}

/// A copy of a byte vector.
pub fn bytes_clone(a: &Vec<u8>) -> (r: Vec<u8>)
    ensures
        r@ == a@,
{
    let mut r: Vec<u8> = Vec::new();
    let mut i: usize = 0;
    while i < a.len()
        invariant
            i <= a@.len(),
            r@ == a@.subrange(0, i as int),
        decreases a@.len() - i,
    {
        r.push(a[i]);
        proof {
            assert(r@ =~= a@.subrange(0, (i + 1) as int));
        }
        i = i + 1;
    }
    proof {
        assert(r@ =~= a@);
    }
    r
}

/// Concatenation of two byte vectors.
pub fn bytes_concat(a: &Vec<u8>, b: &Vec<u8>) -> (r: Vec<u8>)
    ensures
        r@ == a@ + b@,
{
    let mut r: Vec<u8> = Vec::new();
    let mut i: usize = 0;
    while i < a.len()
        invariant
            i <= a@.len(),
            r@ == a@.subrange(0, i as int),
        decreases a@.len() - i,
    {
        r.push(a[i]);
        proof {
            assert(r@ =~= a@.subrange(0, (i + 1) as int));
        }
        i = i + 1;
    }
    proof {
        assert(r@ =~= a@);
    }
    let mut j: usize = 0;
    while j < b.len()
        invariant
            j <= b@.len(),
            r@ == a@ + b@.subrange(0, j as int),
        decreases b@.len() - j,
    {
        r.push(b[j]);
        proof {
            assert(r@ =~= a@ + b@.subrange(0, (j + 1) as int));
        }
        j = j + 1;
    }
    proof {
        assert(r@ =~= a@ + b@);
    }
    r
}

} // verus!
