use vstd::prelude::*;

use crate::entries::claim_win_step;
use crate::entries::enter_pool_step;
use crate::errors::CustomError;
use crate::pool_options::create_option_step;
use crate::pools::create_pool_step;
use crate::pools::set_is_paused_step;
use crate::pools::set_winning_option_step;
use crate::state::entry_index;
use crate::state::lemma_entry_index_props;
use crate::state::lemma_entry_index_stable;
use crate::state::lemma_option_index_props;
use crate::state::lemma_option_index_stable;
use crate::state::lemma_pool_index_props;
use crate::state::lemma_pool_index_stable;
use crate::state::option_index;
use crate::state::pool_index;
use crate::state::EntryModel;
use crate::state::LedgerModel;
use crate::state::OptionModel;
use crate::state::PoolModel;

verus! {

/// A claim can be paid at most once: after `claim_win` succeeds, a second
/// call with identical arguments fails with `EntryAlreadyClaimed` and leaves
/// the ledger unchanged.
pub proof fn lemma_single_claim(
    l: LedgerModel,
    winner: Seq<u8>,
    pool_addr: Seq<u8>,
    option_addr: Seq<u8>,
    entry_addr: Seq<u8>,
)
    requires
        claim_win_step(l, winner, pool_addr, option_addr, entry_addr).1 is Ok,
    ensures
        ({
            let l2 = claim_win_step(l, winner, pool_addr, option_addr, entry_addr).0;
            claim_win_step(l2, winner, pool_addr, option_addr, entry_addr) == (
                l2,
                Err::<u64, CustomError>(CustomError::EntryAlreadyClaimed),
            )
        }),
{
    let l2 = claim_win_step(l, winner, pool_addr, option_addr, entry_addr).0;
    let pi = pool_index(l.pools, pool_addr);
    lemma_pool_index_props(l.pools, pool_addr);
    let p = l.pools[pi];
    let oi = option_index(p.options, option_addr);
    lemma_option_index_props(p.options, option_addr);
    let o = p.options[oi];
    let ei = entry_index(o.entries, entry_addr);
    lemma_entry_index_props(o.entries, entry_addr);
    let e = o.entries[ei];
    let e2 = EntryModel { is_claimed: true, ..e };
    let o2 = OptionModel { entries: o.entries.update(ei, e2), ..o };
    let p2 = PoolModel { options: p.options.update(oi, o2), ..p };
    lemma_pool_index_stable(l.pools, pi, p2, pool_addr);
    lemma_option_index_stable(p.options, oi, o2, option_addr);
    lemma_entry_index_stable(o.entries, ei, e2, entry_addr);
    assert(l2.pools[pi] == p2);
    assert(l2.pools[pi].options[oi] == o2);
    assert(l2.pools[pi].options[oi].entries[ei] == e2);
}

/// A claim that presents an entry record foreign to the named option — one
/// created under some other option — fails as an identity mismatch, and the
/// ledger is unchanged. The inequality of the derived address and the
/// presented entry address stands as a hypothesis: it is what the
/// domain-scoped, collision-resistant derivation provides when the entry was
/// derived under a different option.
pub proof fn lemma_claim_foreign_entry_rejected(
    l: LedgerModel,
    winner: Seq<u8>,
    pool_addr: Seq<u8>,
    option_addr: Seq<u8>,
    entry_addr: Seq<u8>,
)
    requires
        ({
            let pi = pool_index(l.pools, pool_addr);
            let oi = option_index(l.pools[pi].options, option_addr);
            &&& pi != -1
            &&& oi != -1
            &&& entry_index(l.pools[pi].options[oi].entries, entry_addr) == -1
        }),
        crate::crypto::derived_address_of(
            seq![option_addr, winner],
            l.program_id,
        ) matches Some(da) && da != entry_addr,
    ensures
        claim_win_step(l, winner, pool_addr, option_addr, entry_addr) == (
            l,
            Err::<u64, CustomError>(CustomError::EntryNotDerivedFromOptionOrSigner),
        ),
{
}

/// A claim signed by anyone but the entry's own participant fails as an
/// identity mismatch, and the ledger is unchanged: naming, at call time, the
/// participant address that derives to the presented entry is the sole
/// authentication of a claim. The inequality of the derived address and the
/// entry address stands as a hypothesis: it is what the collision-resistant
/// derivation provides when the signer is not the entry's participant.
pub proof fn lemma_claim_wrong_participant_rejected(
    l: LedgerModel,
    winner: Seq<u8>,
    pool_addr: Seq<u8>,
    option_addr: Seq<u8>,
    entry_addr: Seq<u8>,
)
    requires
        ({
            let pi = pool_index(l.pools, pool_addr);
            let oi = option_index(l.pools[pi].options, option_addr);
            let ei = entry_index(l.pools[pi].options[oi].entries, entry_addr);
            &&& pi != -1
            &&& oi != -1
            &&& ei != -1
            &&& !l.pools[pi].options[oi].entries[ei].is_claimed
            &&& l.pools[pi].winning_option == Some(option_addr)
        }),
        crate::crypto::derived_address_of(
            seq![option_addr, winner],
            l.program_id,
        ) matches Some(da) && da != entry_addr,
    ensures
        claim_win_step(l, winner, pool_addr, option_addr, entry_addr) == (
            l,
            Err::<u64, CustomError>(CustomError::EntryNotDerivedFromOptionOrSigner),
        ),
{
}

/// One (pool, option, entry) position neither moves nor loses its claimed
/// flag between an earlier and a later ledger.
pub open spec fn monotone_at(l: LedgerModel, l2: LedgerModel, pi: int, oi: int, ei: int) -> bool {
    &&& l2.pools[pi].options.len() >= l.pools[pi].options.len()
    &&& l2.pools[pi].options[oi].entries.len() >= l.pools[pi].options[oi].entries.len()
    &&& l2.pools[pi].addr == l.pools[pi].addr
    &&& l2.pools[pi].options[oi].addr == l.pools[pi].options[oi].addr
    &&& l2.pools[pi].options[oi].entries[ei].addr == l.pools[pi].options[oi].entries[ei].addr
    &&& (l.pools[pi].options[oi].entries[ei].is_claimed
        ==> l2.pools[pi].options[oi].entries[ei].is_claimed)
}

/// No operation moves a record or clears a claimed flag: every pool, option
/// and entry of the earlier ledger is still there, at the same position and
/// address, and an entry once claimed is still claimed.
///
/// Together with `lemma_single_claim` this gives the single-claim property
/// over every reachable state: whatever operations run in between, a second
/// claim of a claimed entry fails.
pub open spec fn claim_flags_monotone(l: LedgerModel, l2: LedgerModel) -> bool {
    &&& l2.pools.len() >= l.pools.len()
    &&& forall|pi: int, oi: int, ei: int|
        #![trigger monotone_at(l, l2, pi, oi, ei)]
        0 <= pi < l.pools.len() && 0 <= oi < l.pools[pi].options.len() && 0 <= ei
            < l.pools[pi].options[oi].entries.len() ==> monotone_at(l, l2, pi, oi, ei)
}

/// Creating a pool only appends a record.
pub proof fn lemma_create_pool_monotone(
    l: LedgerModel,
    signer: Seq<u8>,
    title: Seq<u8>,
    title_hash: Seq<u8>,
    image_url: Seq<u8>,
    description: Seq<u8>,
)
    ensures
        claim_flags_monotone(
            l,
            create_pool_step(l, signer, title, title_hash, image_url, description).0,
        ),
{
}

/// Pausing or unpausing touches no option and no entry.
pub proof fn lemma_set_is_paused_monotone(
    l: LedgerModel,
    signer: Seq<u8>,
    pool_addr: Seq<u8>,
    is_paused: bool,
)
    ensures
        claim_flags_monotone(l, set_is_paused_step(l, signer, pool_addr, is_paused).0),
{
    if set_is_paused_step(l, signer, pool_addr, is_paused).1 is Ok {
        lemma_pool_index_props(l.pools, pool_addr);
    }
}

/// Declaring a winner touches no option and no entry.
pub proof fn lemma_set_winning_option_monotone(
    l: LedgerModel,
    signer: Seq<u8>,
    pool_addr: Seq<u8>,
    winning_option: Seq<u8>,
)
    ensures
        claim_flags_monotone(
            l,
            set_winning_option_step(l, signer, pool_addr, winning_option).0,
        ),
{
    if set_winning_option_step(l, signer, pool_addr, winning_option).1 is Ok {
        lemma_pool_index_props(l.pools, pool_addr);
    }
}

/// Creating an option only appends a record to one pool.
pub proof fn lemma_create_option_monotone(
    l: LedgerModel,
    signer: Seq<u8>,
    pool_addr: Seq<u8>,
    option_title: Seq<u8>,
    option_hash: Seq<u8>,
)
    ensures
        claim_flags_monotone(
            l,
            create_option_step(l, signer, pool_addr, option_title, option_hash).0,
        ),
{
    if create_option_step(l, signer, pool_addr, option_title, option_hash).1 is Ok {
        lemma_pool_index_props(l.pools, pool_addr);
    }
}

/// Entering a pool accumulates value but never clears a claimed flag: a
/// repeated entry on an existing record keeps the record's address and its
/// claimed state, and a first entry only appends.
pub proof fn lemma_enter_pool_monotone(
    l: LedgerModel,
    entrant: Seq<u8>,
    pool_addr: Seq<u8>,
    option_addr: Seq<u8>,
    value: u64,
)
    ensures
        claim_flags_monotone(l, enter_pool_step(l, entrant, pool_addr, option_addr, value).0),
{
    if enter_pool_step(l, entrant, pool_addr, option_addr, value).1 is Ok {
        let pi = pool_index(l.pools, pool_addr);
        lemma_pool_index_props(l.pools, pool_addr);
        let p = l.pools[pi];
        let oi = option_index(p.options, option_addr);
        lemma_option_index_props(p.options, option_addr);
        let o = p.options[oi];
        let eaddr = crate::crypto::derived_address_of(
            seq![option_addr, entrant],
            l.program_id,
        )->Some_0;
        let ei = entry_index(o.entries, eaddr);
        lemma_entry_index_props(o.entries, eaddr);
    }
}

/// Claiming sets one claimed flag and nothing else: no record moves and no
/// flag is cleared.
pub proof fn lemma_claim_win_monotone(
    l: LedgerModel,
    winner: Seq<u8>,
    pool_addr: Seq<u8>,
    option_addr: Seq<u8>,
    entry_addr: Seq<u8>,
)
    ensures
        claim_flags_monotone(l, claim_win_step(l, winner, pool_addr, option_addr, entry_addr).0),
{
    if claim_win_step(l, winner, pool_addr, option_addr, entry_addr).1 is Ok {
        let pi = pool_index(l.pools, pool_addr);
        lemma_pool_index_props(l.pools, pool_addr);
        let p = l.pools[pi];
        let oi = option_index(p.options, option_addr);
        lemma_option_index_props(p.options, option_addr);
        let o = p.options[oi];
        let ei = entry_index(o.entries, entry_addr);
        lemma_entry_index_props(o.entries, entry_addr);
    }
}

/// The monotone relation composes, so it extends along any sequence of
/// operations.
pub proof fn lemma_claim_flags_monotone_trans(l1: LedgerModel, l2: LedgerModel, l3: LedgerModel)
    requires
        claim_flags_monotone(l1, l2),
        claim_flags_monotone(l2, l3),
    ensures
        claim_flags_monotone(l1, l3),
{
    assert forall|pi: int, oi: int, ei: int|
        0 <= pi < l1.pools.len() && 0 <= oi < l1.pools[pi].options.len() && 0 <= ei
            < l1.pools[pi].options[oi].entries.len() implies #[trigger] monotone_at(
        l1,
        l3,
        pi,
        oi,
        ei,
    ) by {
        assert(monotone_at(l1, l2, pi, oi, ei));
        assert(monotone_at(l2, l3, pi, oi, ei));
    }
}

} // verus!

