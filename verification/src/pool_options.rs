use vstd::prelude::*;

use crate::crypto::base58_of;
use crate::crypto::base58_text;
use crate::crypto::bytes_clone;
use crate::crypto::bytes_concat;
use crate::crypto::bytes_eq;
use crate::crypto::derive_address;
use crate::crypto::derived_address_of;
use crate::crypto::sha256;
use crate::crypto::sha256_of;
use crate::crypto::verify_digest;
use crate::errors::CustomError;
use crate::state::entry_values_sum;
use crate::state::find_option;
use crate::state::find_pool;
use crate::state::ledger_wf_pool;
use crate::state::lemma_bytes_deep_view;
use crate::state::lemma_option_index_props;
use crate::state::lemma_option_index_unique;
use crate::state::lemma_option_views_push;
use crate::state::lemma_pool_index_props;
use crate::state::lemma_pool_index_unique;
use crate::state::lemma_pool_views_update;
use crate::state::lemma_pool_wf_push_option;
use crate::state::lemma_wf_update_pool;
use crate::state::option_index;
use crate::state::option_wf;
use crate::state::pool_index;
use crate::state::pool_wf;
use crate::state::EntryModel;
use crate::state::Ledger;
use crate::state::LedgerModel;
use crate::state::OptionModel;
use crate::state::PoolModel;
use crate::state::PoolOption;

verus! {

/// What `create_option` does to the ledger: the new ledger and the result.
///
/// An option is created by the administrator under a digest commitment over
/// the pool's address text and the option title; the option's address is
/// derived from that digest, so a given title can be registered only once per
/// pool. The presented pool address is re-derived from the pool's title and
/// the admin address, never trusted.
pub open spec fn create_option_step(
    l: LedgerModel,
    signer: Seq<u8>,
    pool_addr: Seq<u8>,
    option_title: Seq<u8>,
    option_hash: Seq<u8>,
) -> (LedgerModel, Result<Seq<u8>, CustomError>) {
    if signer != l.admin {
        (l, Err(CustomError::Unauthorized))
    } else {
        let pi = pool_index(l.pools, pool_addr);
        if pi == -1 {
            (l, Err(CustomError::AccountNotFound))
        } else {
            let p = l.pools[pi];
            match derived_address_of(seq![sha256_of(p.title), l.admin], l.program_id) {
                None => (l, Err(CustomError::AddressUnderivable)),
                Some(dp) => {
                    if dp != pool_addr {
                        (l, Err(CustomError::PoolAccountDoesNotMatch))
                    } else if sha256_of(base58_of(pool_addr) + option_title) != option_hash {
                        (l, Err(CustomError::PoolOptionDoesNotMatchHash))
                    } else {
                        match derived_address_of(seq![option_hash], l.program_id) {
                            None => (l, Err(CustomError::AddressUnderivable)),
                            Some(oaddr) => {
                                if option_index(p.options, oaddr) != -1 {
                                    (l, Err(CustomError::AddressOccupied))
                                } else {
                                    (
                                        LedgerModel {
                                            pools: l.pools.update(
                                                pi,
                                                PoolModel {
                                                    options: p.options.push(
                                                        OptionModel {
                                                            addr: oaddr,
                                                            title: option_title,
                                                            value: 0,
                                                            entries: Seq::empty(),
                                                        },
                                                    ),
                                                    ..p
                                                },
                                            ),
                                            ..l
                                        },
                                        Ok(oaddr),
                                    )
                                }
                            },
                        }
                    }
                },
            }
        }
    }
}

impl Ledger {
    /// Create an option of a pool whose title matches the supplied digest
    /// commitment over the pool's address text and the option title.
    ///
    /// The new option starts with no value and no entries; the pool's value
    /// is unchanged.
    pub fn create_option(
        &mut self,
        signer: &Vec<u8>,
        pool_addr: &Vec<u8>,
        option_title: Vec<u8>,
        option_hash: Vec<u8>,
    ) -> (r: Result<Vec<u8>, CustomError>)
        requires
            old(self).wf(),
        ensures
            final(self).wf(),
            ({
                let (l2, res) = create_option_step(
                    old(self)@,
                    signer@,
                    pool_addr@,
                    option_title@,
                    option_hash@,
                );
                &&& final(self)@ == l2
                &&& (match r {
                    Ok(a) => Ok(a@),
                    Err(e) => Err::<Seq<u8>, CustomError>(e),
                }) == res
            }),
            r is Err ==> final(self)@ == old(self)@,
    {
        if !bytes_eq(signer, &self.admin) {
            return Err(CustomError::Unauthorized);
        }
        let pi = match find_pool(&self.pools, pool_addr) {
            None => {
                proof {
                    lemma_pool_index_props(self@.pools, pool_addr@);
                }
                return Err(CustomError::AccountNotFound);
            },
            Some(pi) => {
                proof {
                    lemma_pool_index_unique(self@.pools, pool_addr@, pi as int);
                }
                pi
            },
        };
        proof {
            assert(ledger_wf_pool(self@, pi as int));
        }
        let pool_title_hash = sha256(&self.pools[pi].title);
        let admin_seed = bytes_clone(&self.admin);
        let mut pool_seeds: Vec<Vec<u8>> = Vec::new();
        pool_seeds.push(pool_title_hash);
        pool_seeds.push(admin_seed);
        proof {
            assert(pool_seeds.deep_view() =~= seq![
                sha256_of(old(self)@.pools[pi as int].title),
                old(self)@.admin,
            ]) by {
                assert(pool_seeds@.len() == 2);
                lemma_bytes_deep_view(pool_seeds@[0]);
                lemma_bytes_deep_view(pool_seeds@[1]);
            }
        }
        let dp = match derive_address(&pool_seeds, &self.program_id) {
            None => {
                return Err(CustomError::AddressUnderivable);
            },
            Some(dp) => dp,
        };
        proof {
            lemma_bytes_deep_view(dp);
        }
        if !bytes_eq(&dp, pool_addr) {
            return Err(CustomError::PoolAccountDoesNotMatch);
        }
        let pool_addr_text = base58_text(pool_addr);
        let digest_input = bytes_concat(&pool_addr_text, &option_title);
        if !verify_digest(&digest_input, &option_hash) {
            return Err(CustomError::PoolOptionDoesNotMatchHash);
        }
        let mut option_seeds: Vec<Vec<u8>> = Vec::new();
        option_seeds.push(option_hash);
        proof {
            assert(option_seeds.deep_view() =~= seq![option_hash@]) by {
                assert(option_seeds@.len() == 1);
                lemma_bytes_deep_view(option_seeds@[0]);
            }
        }
        let oaddr = match derive_address(&option_seeds, &self.program_id) {
            None => {
                return Err(CustomError::AddressUnderivable);
            },
            Some(oaddr) => oaddr,
        };
        proof {
            lemma_bytes_deep_view(oaddr);
        }
        match find_option(&self.pools[pi].options, &oaddr) {
            Some(oi) => {
                proof {
                    lemma_option_index_unique(self@.pools[pi as int].options, oaddr@, oi as int);
                }
                Err(CustomError::AddressOccupied)
            },
            None => {
                proof {
                    lemma_option_index_props(self@.pools[pi as int].options, oaddr@);
                }
                let oaddr_out = bytes_clone(&oaddr);
                let option = PoolOption {
                    addr: oaddr,
                    title: option_title,
                    value: 0,
                    entries: Vec::new(),
                };
                let ghost l = self@;
                let ghost om = OptionModel {
                    addr: oaddr@,
                    title: option_title@,
                    value: 0,
                    entries: Seq::empty(),
                };
                let ghost target = PoolModel {
                    options: l.pools[pi as int].options.push(om),
                    ..l.pools[pi as int]
                };
                proof {
                    assert(option@.entries =~= om.entries);
                    assert(option@ =~= om);
                    assert(entry_values_sum(Seq::<EntryModel>::empty()) == 0);
                    assert(option_wf(om));
                }
                let p = &mut self.pools[pi];
                let ghost old_options = p.options@;
                p.options.push(option);
                proof {
                    lemma_option_views_push(old_options, p.options@[old_options.len() as int]);
                    assert(self.pools@[pi as int]@.options =~= target.options);
                    assert(self.pools@[pi as int]@ =~= target);
                    lemma_pool_views_update(old(self).pools@, pi as int, self.pools@[pi as int]);
                    assert(self@.pools =~= l.pools.update(pi as int, target));
                    lemma_pool_wf_push_option(l.pools[pi as int], om, l.pools[pi as int].value);
                    assert(pool_wf(target));
                    lemma_wf_update_pool(l, pi as int, target);
                    assert(self@ =~= create_option_step(
                        old(self)@,
                        signer@,
                        pool_addr@,
                        option_title@,
                        option_hash@,
                    ).0);
                }
                Ok(oaddr_out)
            },
        }
    }
}

} // verus!
