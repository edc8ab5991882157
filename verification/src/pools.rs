use vstd::prelude::*;

use crate::crypto::bytes_clone;
use crate::crypto::bytes_eq;
use crate::crypto::derive_address;
use crate::crypto::derived_address_of;
use crate::crypto::sha256_of;
use crate::crypto::verify_digest;
use crate::errors::CustomError;
use crate::state::Ledger;
use crate::state::LedgerModel;
use crate::state::Pool;
use crate::state::PoolModel;
use crate::state::find_pool;
use crate::state::lemma_bytes_deep_view;
use crate::state::lemma_pool_index_props;
use crate::state::lemma_pool_index_unique;
use crate::state::lemma_pool_views_push;
use crate::state::lemma_pool_views_update;
use crate::state::lemma_wf_push_pool;
use crate::state::lemma_wf_update_pool;
use crate::state::option_values_sum;
use crate::state::pool_index;
use crate::state::pool_wf;
use crate::state::pool_wf_option;
use crate::state::ledger_wf_pool;
use crate::state::OptionModel;

verus! {

/// Maximum length in bytes of a pool's image URL and description.
pub const MAX_TEXT_LEN: usize = 200;

/// What `create_pool` does to the ledger: the new ledger and the result.
///
/// A pool is created by the administrator under a digest commitment: the
/// caller supplies the digest of the title, the pool's address is derived
/// from that digest and the admin address, and creation fails when a pool
/// already sits at that address.
pub open spec fn create_pool_step(
    l: LedgerModel,
    signer: Seq<u8>,
    title: Seq<u8>,
    title_hash: Seq<u8>,
    image_url: Seq<u8>,
    description: Seq<u8>,
) -> (LedgerModel, Result<Seq<u8>, CustomError>) {
    if signer != l.admin {
        (l, Err(CustomError::Unauthorized))
    } else if image_url.len() > MAX_TEXT_LEN {
        (l, Err(CustomError::ImageUrlTooLong))
    } else if description.len() > MAX_TEXT_LEN {
        (l, Err(CustomError::DescriptionTooLong))
    } else if sha256_of(title) != title_hash {
        (l, Err(CustomError::TitleDoesNotMatchHash))
    } else {
        match derived_address_of(seq![title_hash, l.admin], l.program_id) {
            None => (l, Err(CustomError::AddressUnderivable)),
            Some(addr) => {
                if pool_index(l.pools, addr) != -1 {
                    (l, Err(CustomError::AddressOccupied))
                } else {
                    (
                        LedgerModel {
                            pools: l.pools.push(
                                PoolModel {
                                    addr,
                                    title,
                                    is_paused: false,
                                    winning_option: None,
                                    value: 0,
                                    options: Seq::empty(),
                                },
                            ),
                            ..l
                        },
                        Ok(addr),
                    )
                }
            },
        }
    }
}

/// What `set_is_paused` does to the ledger.
pub open spec fn set_is_paused_step(
    l: LedgerModel,
    signer: Seq<u8>,
    pool_addr: Seq<u8>,
    is_paused: bool,
) -> (LedgerModel, Result<(), CustomError>) {
    if signer != l.admin {
        (l, Err(CustomError::Unauthorized))
    } else {
        let pi = pool_index(l.pools, pool_addr);
        if pi == -1 {
            (l, Err(CustomError::AccountNotFound))
        } else {
            (
                LedgerModel {
                    pools: l.pools.update(pi, PoolModel { is_paused, ..l.pools[pi] }),
                    ..l
                },
                Ok(()),
            )
        }
    }
}

/// What `set_winning_option` does to the ledger.
pub open spec fn set_winning_option_step(
    l: LedgerModel,
    signer: Seq<u8>,
    pool_addr: Seq<u8>,
    winning_option: Seq<u8>,
) -> (LedgerModel, Result<(), CustomError>) {
    if signer != l.admin {
        (l, Err(CustomError::Unauthorized))
    } else {
        let pi = pool_index(l.pools, pool_addr);
        if pi == -1 {
            (l, Err(CustomError::AccountNotFound))
        } else if !l.pools[pi].is_paused {
            (l, Err(CustomError::PoolStateIncompatible))
        } else {
            (
                LedgerModel {
                    pools: l.pools.update(
                        pi,
                        PoolModel { winning_option: Some(winning_option), ..l.pools[pi] },
                    ),
                    ..l
                },
                Ok(()),
            )
        }
    }
}

impl Ledger {
    /// Create a pool whose title matches the supplied digest commitment.
    ///
    /// Succeeds exactly when the signer is the administrator, the image URL
    /// and description are within bounds, the digest of the title equals
    /// `title_hash`, the pool address is derivable, and no pool sits at that
    /// address yet. The new pool starts open, unresolved, and empty.
    pub fn create_pool(
        &mut self,
        signer: &Vec<u8>,
        title: Vec<u8>,
        title_hash: Vec<u8>,
        image_url: &Vec<u8>,
        description: &Vec<u8>,
    ) -> (r: Result<Vec<u8>, CustomError>)
        requires
            old(self).wf(),
        ensures
            final(self).wf(),
            ({
                let (l2, res) = create_pool_step(
                    old(self)@,
                    signer@,
                    title@,
                    title_hash@,
                    image_url@,
                    description@,
                );
                &&& final(self)@ == l2
                &&& (match r {
                    Ok(a) => Ok(a@),
                    Err(e) => Err::<Seq<u8>, CustomError>(e),
                }) == res
            }),
            r is Err ==> final(self)@ == old(self)@,
            r is Ok <==> {
                &&& signer@ == old(self)@.admin
                &&& image_url@.len() <= MAX_TEXT_LEN
                &&& description@.len() <= MAX_TEXT_LEN
                &&& title_hash@ == sha256_of(title@)
                &&& derived_address_of(
                    seq![title_hash@, old(self)@.admin],
                    old(self)@.program_id,
                ) matches Some(a) && pool_index(old(self)@.pools, a) == -1
            },
    {
        if !bytes_eq(signer, &self.admin) {
            return Err(CustomError::Unauthorized);
        }
        if image_url.len() > MAX_TEXT_LEN {
            return Err(CustomError::ImageUrlTooLong);
        }
        if description.len() > MAX_TEXT_LEN {
            return Err(CustomError::DescriptionTooLong);
        }
        if !verify_digest(&title, &title_hash) {
            return Err(CustomError::TitleDoesNotMatchHash);
        }
        let admin_seed = bytes_clone(&self.admin);
        let mut seeds: Vec<Vec<u8>> = Vec::new();
        seeds.push(title_hash);
        seeds.push(admin_seed);
        proof {
            assert(seeds.deep_view() =~= seq![title_hash@, old(self)@.admin]) by {
                assert(seeds@.len() == 2);
                lemma_bytes_deep_view(seeds@[0]);
                lemma_bytes_deep_view(seeds@[1]);
            }
        }
        match derive_address(&seeds, &self.program_id) {
            None => Err(CustomError::AddressUnderivable),
            Some(addr) => {
                proof {
                    lemma_bytes_deep_view(addr);
                }
                match find_pool(&self.pools, &addr) {
                    Some(pi) => {
                        proof {
                            lemma_pool_index_unique(self@.pools, addr@, pi as int);
                        }
                        Err(CustomError::AddressOccupied)
                    },
                    None => {
                        proof {
                            lemma_pool_index_props(self@.pools, addr@);
                        }
                        let addr_out = bytes_clone(&addr);
                        let pool = Pool {
                            addr,
                            title,
                            is_paused: false,
                            winning_option: None,
                            value: 0,
                            options: Vec::new(),
                        };
                        proof {
                            let target = PoolModel {
                                addr: addr@,
                                title: title@,
                                is_paused: false,
                                winning_option: None,
                                value: 0,
                                options: Seq::empty(),
                            };
                            assert(pool@.options =~= target.options);
                            assert(pool@ =~= target);
                            assert(option_values_sum(Seq::<OptionModel>::empty()) == 0);
                            assert(pool_wf(target));
                            lemma_pool_views_push(self.pools@, pool);
                            lemma_wf_push_pool(self@, target);
                        }
                        self.pools.push(pool);
                        proof {
                            assert(self@ =~= create_pool_step(
                                old(self)@,
                                signer@,
                                title@,
                                title_hash@,
                                image_url@,
                                description@,
                            ).0);
                        }
                        Ok(addr_out)
                    },
                }
            },
        }
    }

    /// Pause or unpause a pool. Administrator only; otherwise unconditional.
    pub fn set_is_paused(
        &mut self,
        signer: &Vec<u8>,
        pool_addr: &Vec<u8>,
        is_paused: bool,
    ) -> (r: Result<(), CustomError>)
        requires
            old(self).wf(),
        ensures
            final(self).wf(),
            (final(self)@, r) == set_is_paused_step(old(self)@, signer@, pool_addr@, is_paused),
            r is Err ==> final(self)@ == old(self)@,
    {
        if !bytes_eq(signer, &self.admin) {
            return Err(CustomError::Unauthorized);
        }
        match find_pool(&self.pools, pool_addr) {
            None => {
                proof {
                    lemma_pool_index_props(self@.pools, pool_addr@);
                }
                Err(CustomError::AccountNotFound)
            },
            Some(pi) => {
                proof {
                    lemma_pool_index_unique(self@.pools, pool_addr@, pi as int);
                }
                let ghost l = self@;
                let ghost target = PoolModel { is_paused, ..l.pools[pi as int] };
                let p = &mut self.pools[pi];
                p.is_paused = is_paused;
                proof {
                    assert(self.pools@[pi as int]@ =~= target);
                    lemma_pool_views_update(old(self).pools@, pi as int, self.pools@[pi as int]);
                    assert(self@.pools =~= l.pools.update(pi as int, target));
                    assert(ledger_wf_pool(l, pi as int));
                    assert forall|k: int| 0 <= k < target.options.len() implies pool_wf_option(
                        target,
                        k,
                    ) by {
                        assert(pool_wf_option(l.pools[pi as int], k));
                    }
                    assert(pool_wf(target));
                    lemma_wf_update_pool(l, pi as int, target);
                    assert(self@ =~= set_is_paused_step(old(self)@, signer@, pool_addr@, is_paused).0);
                }
                Ok(())
            },
        }
    }

    /// Declare the winning option of a paused pool. Administrator only;
    /// fails with `PoolStateIncompatible` while the pool is open. The
    /// declared address is recorded as presented; a claim succeeds only for
    /// entries of the option of this pool that sits at that address.
    pub fn set_winning_option(
        &mut self,
        signer: &Vec<u8>,
        pool_addr: &Vec<u8>,
        winning_option: Vec<u8>,
    ) -> (r: Result<(), CustomError>)
        requires
            old(self).wf(),
        ensures
            final(self).wf(),
            (final(self)@, r) == set_winning_option_step(
                old(self)@,
                signer@,
                pool_addr@,
                winning_option@,
            ),
            r is Err ==> final(self)@ == old(self)@,
            ({
                let pi = pool_index(old(self)@.pools, pool_addr@);
                &&& signer@ == old(self)@.admin
                &&& pi != -1
                &&& !old(self)@.pools[pi].is_paused
            }) ==> r == Err::<(), CustomError>(CustomError::PoolStateIncompatible) && final(self)@ == old(
                self,
            )@,
    {
        if !bytes_eq(signer, &self.admin) {
            return Err(CustomError::Unauthorized);
        }
        match find_pool(&self.pools, pool_addr) {
            None => {
                proof {
                    lemma_pool_index_props(self@.pools, pool_addr@);
                }
                Err(CustomError::AccountNotFound)
            },
            Some(pi) => {
                proof {
                    lemma_pool_index_unique(self@.pools, pool_addr@, pi as int);
                }
                if !self.pools[pi].is_paused {
                    return Err(CustomError::PoolStateIncompatible);
                }
                let ghost l = self@;
                let ghost target = PoolModel {
                    winning_option: Some(winning_option@),
                    ..l.pools[pi as int]
                };
                let p = &mut self.pools[pi];
                p.winning_option = Some(winning_option);
                proof {
                    assert(self.pools@[pi as int]@ =~= target);
                    lemma_pool_views_update(old(self).pools@, pi as int, self.pools@[pi as int]);
                    assert(self@.pools =~= l.pools.update(pi as int, target));
                    assert(ledger_wf_pool(l, pi as int));
                    assert forall|k: int| 0 <= k < target.options.len() implies pool_wf_option(
                        target,
                        k,
                    ) by {
                        assert(pool_wf_option(l.pools[pi as int], k));
                    }
                    assert(pool_wf(target));
                    lemma_wf_update_pool(l, pi as int, target);
                    assert(self@ =~= set_winning_option_step(
                        old(self)@,
                        signer@,
                        pool_addr@,
                        winning_option@,
                    ).0);
                }
                Ok(())
            },
        }
    }
}

} // verus!
