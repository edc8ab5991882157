use vstd::prelude::*;

use crate::crypto::bytes_clone;
use crate::crypto::bytes_eq;
use crate::crypto::derive_address;
use crate::crypto::derived_address_of;
use crate::errors::CustomError;
use crate::state::entry_index;
use crate::state::find_entry;
use crate::state::find_option;
use crate::state::find_pool;
use crate::state::ledger_wf_pool;
use crate::state::lemma_bytes_deep_view;
use crate::state::lemma_entry_index_props;
use crate::state::lemma_entry_index_unique;
use crate::state::lemma_entry_views_push;
use crate::state::lemma_entry_views_update;
use crate::state::lemma_option_index_props;
use crate::state::lemma_option_index_unique;
use crate::state::lemma_option_views_update;
use crate::state::lemma_option_wf_push_entry;
use crate::state::lemma_option_wf_update_entry;
use crate::state::lemma_pool_index_props;
use crate::state::lemma_pool_index_unique;
use crate::state::lemma_pool_views_update;
use crate::state::lemma_pool_wf_update_option;
use crate::state::lemma_wf_update_pool;
use crate::state::option_index;
use crate::state::pool_index;
use crate::state::pool_wf;
use crate::state::pool_wf_option;
use crate::state::Entry;
use crate::state::EntryModel;
use crate::state::Ledger;
use crate::state::LedgerModel;
use crate::state::OptionModel;
use crate::state::PoolModel;

verus! {

/// The proportional payout of an entry, computed in two floored stages.
///
/// The winner's share is first scaled to hundredths of the pool value per
/// unit of the winning option's value, then applied to the entry's value.
/// Flooring at both stages discards fractional units twice, so the payouts of
/// all winners can sum to strictly less than the pool's value; the residual
/// dust is never redistributed.
pub open spec fn win_amount_calc(pool_value: u64, option_value: u64, entry_value: u64) -> Result<
    u64,
    CustomError,
> {
    if option_value == 0 {
        Err(CustomError::DivisionByZero)
    } else if pool_value * 100 > u64::MAX {
        Err(CustomError::ValueOverflow)
    } else {
        let share = (pool_value * 100) / (option_value as int);
        if entry_value * share > u64::MAX {
            Err(CustomError::ValueOverflow)
        } else {
            Ok((((entry_value * share) / 100) as u64))
        }
    }
}

/// What `enter_pool` does to the ledger: the new ledger and the result.
///
/// A participant commits `value` to one option of an open pool. The entry's
/// address is derived from the option address and the participant address,
/// never taken from the caller; a participant's repeated entries on one
/// option accumulate in one record. The entry, the option and the pool all
/// grow by `value`, checked against overflow before anything is touched.
pub open spec fn enter_pool_step(
    l: LedgerModel,
    entrant: Seq<u8>,
    pool_addr: Seq<u8>,
    option_addr: Seq<u8>,
    value: u64,
) -> (LedgerModel, Result<(), CustomError>) {
    let pi = pool_index(l.pools, pool_addr);
    if pi == -1 {
        (l, Err(CustomError::AccountNotFound))
    } else {
        let p = l.pools[pi];
        if p.is_paused {
            (l, Err(CustomError::PoolStateIncompatible))
        } else {
            let oi = option_index(p.options, option_addr);
            if oi == -1 {
                (l, Err(CustomError::AccountNotFound))
            } else {
                match derived_address_of(seq![option_addr, entrant], l.program_id) {
                    None => (l, Err(CustomError::AddressUnderivable)),
                    Some(eaddr) => {
                        let o = p.options[oi];
                        let ei = entry_index(o.entries, eaddr);
                        let prior: u64 = if ei == -1 {
                            0
                        } else {
                            o.entries[ei].value
                        };
                        if prior + value > u64::MAX || o.value + value > u64::MAX || p.value + value
                            > u64::MAX {
                            (l, Err(CustomError::ValueOverflow))
                        } else {
                            let new_entries = if ei == -1 {
                                o.entries.push(
                                    EntryModel { addr: eaddr, value, is_claimed: false },
                                )
                            } else {
                                o.entries.update(
                                    ei,
                                    EntryModel {
                                        value: (o.entries[ei].value + value) as u64,
                                        ..o.entries[ei]
                                    },
                                )
                            };
                            let o2 = OptionModel {
                                value: (o.value + value) as u64,
                                entries: new_entries,
                                ..o
                            };
                            let p2 = PoolModel {
                                value: (p.value + value) as u64,
                                options: p.options.update(oi, o2),
                                ..p
                            };
                            (LedgerModel { pools: l.pools.update(pi, p2), ..l }, Ok(()))
                        }
                    },
                }
            }
        }
    }
}

/// What `claim_win` does to the ledger: the new ledger and the paid amount.
///
/// The entry may be claimed only once, only when its option is the pool's
/// winning option, and only by the participant whose address derives, with
/// the option address, to the presented entry address. An entry address
/// that is missing from the presented option is first held against that
/// derivation, so presenting an entry of another option fails as an
/// identity mismatch. The payout follows `win_amount_calc`; the pool's
/// recorded value is a cumulative deposit counter and is not decremented by
/// the payout.
pub open spec fn claim_win_step(
    l: LedgerModel,
    winner: Seq<u8>,
    pool_addr: Seq<u8>,
    option_addr: Seq<u8>,
    entry_addr: Seq<u8>,
) -> (LedgerModel, Result<u64, CustomError>) {
    let pi = pool_index(l.pools, pool_addr);
    if pi == -1 {
        (l, Err(CustomError::AccountNotFound))
    } else {
        let p = l.pools[pi];
        let oi = option_index(p.options, option_addr);
        if oi == -1 {
            (l, Err(CustomError::AccountNotFound))
        } else {
            let o = p.options[oi];
            let ei = entry_index(o.entries, entry_addr);
            if ei == -1 {
                // No entry of the presented option sits at the presented
                // address. Authentication still speaks first: an address
                // that the presented option and signer do not derive to is
                // an identity failure, not a missing record.
                match derived_address_of(seq![option_addr, winner], l.program_id) {
                    None => (l, Err(CustomError::AddressUnderivable)),
                    Some(da) => {
                        if da != entry_addr {
                            (l, Err(CustomError::EntryNotDerivedFromOptionOrSigner))
                        } else {
                            (l, Err(CustomError::AccountNotFound))
                        }
                    },
                }
            } else {
                let e = o.entries[ei];
                if e.is_claimed {
                    (l, Err(CustomError::EntryAlreadyClaimed))
                } else if p.winning_option != Some(option_addr) {
                    (l, Err(CustomError::LosingOption))
                } else {
                    match derived_address_of(seq![option_addr, winner], l.program_id) {
                        None => (l, Err(CustomError::AddressUnderivable)),
                        Some(da) => {
                            if da != entry_addr {
                                (l, Err(CustomError::EntryNotDerivedFromOptionOrSigner))
                            } else {
                                match win_amount_calc(p.value, o.value, e.value) {
                                    Err(err) => (l, Err(err)),
                                    Ok(amount) => {
                                        let e2 = EntryModel { is_claimed: true, ..e };
                                        let o2 = OptionModel {
                                            entries: o.entries.update(ei, e2),
                                            ..o
                                        };
                                        let p2 = PoolModel {
                                            options: p.options.update(oi, o2),
                                            ..p
                                        };
                                        (
                                            LedgerModel { pools: l.pools.update(pi, p2), ..l },
                                            Ok(amount),
                                        )
                                    },
                                }
                            }
                        },
                    }
                }
            }
        }
    }
}

/// The proportional payout of an entry, as an executable function.
///
/// With pool value 100 and option value 30, the share is 333 hundredths and
/// an entry of 10 pays 33, not 34: both divisions floor.
pub fn compute_win_amount(pool_value: u64, option_value: u64, entry_value: u64) -> (r: Result<
    u64,
    CustomError,
>)
    ensures
        r == win_amount_calc(pool_value, option_value, entry_value),
{
    if option_value == 0 {
        return Err(CustomError::DivisionByZero);
    }
    let scaled = match pool_value.checked_mul(100) {
        None => {
            return Err(CustomError::ValueOverflow);
        },
        Some(scaled) => scaled,
    };
    let share = scaled / option_value;
    match entry_value.checked_mul(share) {
        None => Err(CustomError::ValueOverflow),
        Some(prod) => Ok(prod / 100),
    }
}

impl Ledger {
    /// The derived address binding an entry to one (option, participant)
    /// pair under this ledger's program id.
    pub fn derive_entry_address(&self, option_addr: &Vec<u8>, participant: &Vec<u8>) -> (r: Option<
        Vec<u8>,
    >)
        requires
            self.wf(),
        ensures
            r.deep_view() == derived_address_of(
                seq![option_addr@, participant@],
                self@.program_id,
            ),
            r matches Some(a) ==> a@.len() == 32,
    {
        let mut seeds: Vec<Vec<u8>> = Vec::new();
        seeds.push(bytes_clone(option_addr));
        seeds.push(bytes_clone(participant));
        proof {
            assert(seeds.deep_view() =~= seq![option_addr@, participant@]) by {
                assert(seeds@.len() == 2);
                lemma_bytes_deep_view(seeds@[0]);
                lemma_bytes_deep_view(seeds@[1]);
            }
        }
        derive_address(&seeds, &self.program_id)
    }

    /// Commit `value` to one option of an open pool.
    ///
    /// Fails with `PoolStateIncompatible` while the pool is paused; the
    /// ledger is unchanged on every failure.
    pub fn enter_pool(
        &mut self,
        entrant: &Vec<u8>,
        pool_addr: &Vec<u8>,
        option_addr: &Vec<u8>,
        value: u64,
    ) -> (r: Result<(), CustomError>)
        requires
            old(self).wf(),
        ensures
            final(self).wf(),
            (final(self)@, r) == enter_pool_step(
                old(self)@,
                entrant@,
                pool_addr@,
                option_addr@,
                value,
            ),
            r is Err ==> final(self)@ == old(self)@,
            ({
                let pi = pool_index(old(self)@.pools, pool_addr@);
                pi != -1 && old(self)@.pools[pi].is_paused
            }) ==> r == Err::<(), CustomError>(CustomError::PoolStateIncompatible) && final(self)@
                == old(self)@,
    {
        let pi = match find_pool(&self.pools, pool_addr) {
            None => {
                proof {
                    lemma_pool_index_props(self@.pools, pool_addr@);
                }
                return Err(CustomError::AccountNotFound);
            },
            Some(pi) => {
                proof {
                    lemma_pool_index_unique(self@.pools, pool_addr@, pi as int);
                }
                pi
            },
        };
        if self.pools[pi].is_paused {
            return Err(CustomError::PoolStateIncompatible);
        }
        proof {
            assert(ledger_wf_pool(self@, pi as int));
        }
        let oi = match find_option(&self.pools[pi].options, option_addr) {
            None => {
                proof {
                    lemma_option_index_props(self@.pools[pi as int].options, option_addr@);
                }
                return Err(CustomError::AccountNotFound);
            },
            Some(oi) => {
                proof {
                    lemma_option_index_unique(
                        self@.pools[pi as int].options,
                        option_addr@,
                        oi as int,
                    );
                }
                oi
            },
        };
        proof {
            assert(pool_wf_option(self@.pools[pi as int], oi as int));
        }
        let mut seeds: Vec<Vec<u8>> = Vec::new();
        seeds.push(bytes_clone(option_addr));
        seeds.push(bytes_clone(entrant));
        proof {
            assert(seeds.deep_view() =~= seq![option_addr@, entrant@]) by {
                assert(seeds@.len() == 2);
                lemma_bytes_deep_view(seeds@[0]);
                lemma_bytes_deep_view(seeds@[1]);
            }
        }
        let eaddr = match derive_address(&seeds, &self.program_id) {
            None => {
                return Err(CustomError::AddressUnderivable);
            },
            Some(a) => a,
        };
        proof {
            lemma_bytes_deep_view(eaddr);
        }
        let ei_found = find_entry(&self.pools[pi].options[oi].entries, &eaddr);
        let prior: u64 = match ei_found {
            Some(ei) => {
                proof {
                    lemma_entry_index_unique(
                        self@.pools[pi as int].options[oi as int].entries,
                        eaddr@,
                        ei as int,
                    );
                }
                self.pools[pi].options[oi].entries[ei].value
            },
            None => {
                proof {
                    lemma_entry_index_props(
                        self@.pools[pi as int].options[oi as int].entries,
                        eaddr@,
                    );
                }
                0
            },
        };
        if u64::MAX - value < prior {
            return Err(CustomError::ValueOverflow);
        }
        if u64::MAX - value < self.pools[pi].options[oi].value {
            return Err(CustomError::ValueOverflow);
        }
        if u64::MAX - value < self.pools[pi].value {
            return Err(CustomError::ValueOverflow);
        }
        let ghost l = self@;
        let ghost p_old = l.pools[pi as int];
        let ghost o_old = p_old.options[oi as int];
        match ei_found {
            Some(ei) => {
                let ghost e2 = EntryModel {
                    value: (o_old.entries[ei as int].value + value) as u64,
                    ..o_old.entries[ei as int]
                };
                let ghost o2 = OptionModel {
                    value: (o_old.value + value) as u64,
                    entries: o_old.entries.update(ei as int, e2),
                    ..o_old
                };
                let ghost p2 = PoolModel {
                    value: (p_old.value + value) as u64,
                    options: p_old.options.update(oi as int, o2),
                    ..p_old
                };
                let p = &mut self.pools[pi];
                let o = &mut p.options[oi];
                let e = &mut o.entries[ei];
                e.value = e.value + value;
                o.value = o.value + value;
                p.value = p.value + value;
                proof {
                    assert(self.pools@[pi as int].options@[oi as int].entries@[ei as int]@ =~= e2);
                    lemma_entry_views_update(
                        old(self).pools@[pi as int].options@[oi as int].entries@,
                        ei as int,
                        self.pools@[pi as int].options@[oi as int].entries@[ei as int],
                    );
                    assert(self.pools@[pi as int].options@[oi as int]@.entries =~= o2.entries);
                    assert(self.pools@[pi as int].options@[oi as int]@ =~= o2);
                    lemma_option_views_update(
                        old(self).pools@[pi as int].options@,
                        oi as int,
                        self.pools@[pi as int].options@[oi as int],
                    );
                    assert(self.pools@[pi as int]@.options =~= p2.options);
                    assert(self.pools@[pi as int]@ =~= p2);
                    lemma_pool_views_update(old(self).pools@, pi as int, self.pools@[pi as int]);
                    assert(self@.pools =~= l.pools.update(pi as int, p2));
                    lemma_option_wf_update_entry(o_old, ei as int, e2, o2.value);
                    lemma_pool_wf_update_option(p_old, oi as int, o2, p2.value);
                    lemma_wf_update_pool(l, pi as int, p2);
                    assert(self@ =~= enter_pool_step(
                        old(self)@,
                        entrant@,
                        pool_addr@,
                        option_addr@,
                        value,
                    ).0);
                }
                Ok(())
            },
            None => {
                let ghost e2 = EntryModel { addr: eaddr@, value, is_claimed: false };
                let ghost o2 = OptionModel {
                    value: (o_old.value + value) as u64,
                    entries: o_old.entries.push(e2),
                    ..o_old
                };
                let ghost p2 = PoolModel {
                    value: (p_old.value + value) as u64,
                    options: p_old.options.update(oi as int, o2),
                    ..p_old
                };
                let entry = Entry { addr: eaddr, value, is_claimed: false };
                proof {
                    assert(entry@ =~= e2);
                }
                let p = &mut self.pools[pi];
                let o = &mut p.options[oi];
                let ghost old_entries = o.entries@;
                o.entries.push(entry);
                o.value = o.value + value;
                p.value = p.value + value;
                proof {
                    lemma_entry_views_push(
                        old_entries,
                        self.pools@[pi as int].options@[oi as int].entries@[old_entries.len() as int],
                    );
                    assert(self.pools@[pi as int].options@[oi as int]@.entries =~= o2.entries);
                    assert(self.pools@[pi as int].options@[oi as int]@ =~= o2);
                    lemma_option_views_update(
                        old(self).pools@[pi as int].options@,
                        oi as int,
                        self.pools@[pi as int].options@[oi as int],
                    );
                    assert(self.pools@[pi as int]@.options =~= p2.options);
                    assert(self.pools@[pi as int]@ =~= p2);
                    lemma_pool_views_update(old(self).pools@, pi as int, self.pools@[pi as int]);
                    assert(self@.pools =~= l.pools.update(pi as int, p2));
                    lemma_option_wf_push_entry(o_old, e2, o2.value);
                    lemma_pool_wf_update_option(p_old, oi as int, o2, p2.value);
                    lemma_wf_update_pool(l, pi as int, p2);
                    assert(self@ =~= enter_pool_step(
                        old(self)@,
                        entrant@,
                        pool_addr@,
                        option_addr@,
                        value,
                    ).0);
                }
                Ok(())
            },
        }
    }

    /// Pay out one winning entry, at most once.
    ///
    /// The caller is authenticated purely by presenting the participant
    /// address that, with the option address, derives to the entry's address.
    /// On success the returned amount moves from custody to the winner and
    /// the entry is marked claimed; the ledger is unchanged on every failure.
    pub fn claim_win(
        &mut self,
        winner: &Vec<u8>,
        pool_addr: &Vec<u8>,
        option_addr: &Vec<u8>,
        entry_addr: &Vec<u8>,
    ) -> (r: Result<u64, CustomError>)
        requires
            old(self).wf(),
        ensures
            final(self).wf(),
            (final(self)@, r) == claim_win_step(
                old(self)@,
                winner@,
                pool_addr@,
                option_addr@,
                entry_addr@,
            ),
            r is Err ==> final(self)@ == old(self)@,
    {
        let pi = match find_pool(&self.pools, pool_addr) {
            None => {
                proof {
                    lemma_pool_index_props(self@.pools, pool_addr@);
                }
                return Err(CustomError::AccountNotFound);
            },
            Some(pi) => {
                proof {
                    lemma_pool_index_unique(self@.pools, pool_addr@, pi as int);
                }
                pi
            },
        };
        proof {
            assert(ledger_wf_pool(self@, pi as int));
        }
        let oi = match find_option(&self.pools[pi].options, option_addr) {
            None => {
                proof {
                    lemma_option_index_props(self@.pools[pi as int].options, option_addr@);
                }
                return Err(CustomError::AccountNotFound);
            },
            Some(oi) => {
                proof {
                    lemma_option_index_unique(
                        self@.pools[pi as int].options,
                        option_addr@,
                        oi as int,
                    );
                }
                oi
            },
        };
        proof {
            assert(pool_wf_option(self@.pools[pi as int], oi as int));
        }
        let ei = match find_entry(&self.pools[pi].options[oi].entries, entry_addr) {
            None => {
                proof {
                    lemma_entry_index_props(
                        self@.pools[pi as int].options[oi as int].entries,
                        entry_addr@,
                    );
                }
                let mut seeds: Vec<Vec<u8>> = Vec::new();
                seeds.push(bytes_clone(option_addr));
                seeds.push(bytes_clone(winner));
                proof {
                    assert(seeds.deep_view() =~= seq![option_addr@, winner@]) by {
                        assert(seeds@.len() == 2);
                        lemma_bytes_deep_view(seeds@[0]);
                        lemma_bytes_deep_view(seeds@[1]);
                    }
                }
                let da = match derive_address(&seeds, &self.program_id) {
                    None => {
                        return Err(CustomError::AddressUnderivable);
                    },
                    Some(a) => a,
                };
                proof {
                    lemma_bytes_deep_view(da);
                }
                if !bytes_eq(&da, entry_addr) {
                    return Err(CustomError::EntryNotDerivedFromOptionOrSigner);
                }
                return Err(CustomError::AccountNotFound);
            },
            Some(ei) => {
                proof {
                    lemma_entry_index_unique(
                        self@.pools[pi as int].options[oi as int].entries,
                        entry_addr@,
                        ei as int,
                    );
                }
                ei
            },
        };
        if self.pools[pi].options[oi].entries[ei].is_claimed {
            return Err(CustomError::EntryAlreadyClaimed);
        }
        let is_winner = match &self.pools[pi].winning_option {
            Some(w) => bytes_eq(w, option_addr),
            None => false,
        };
        if !is_winner {
            return Err(CustomError::LosingOption);
        }
        let mut seeds: Vec<Vec<u8>> = Vec::new();
        seeds.push(bytes_clone(option_addr));
        seeds.push(bytes_clone(winner));
        proof {
            assert(seeds.deep_view() =~= seq![option_addr@, winner@]) by {
                assert(seeds@.len() == 2);
                lemma_bytes_deep_view(seeds@[0]);
                lemma_bytes_deep_view(seeds@[1]);
            }
        }
        let da = match derive_address(&seeds, &self.program_id) {
            None => {
                return Err(CustomError::AddressUnderivable);
            },
            Some(a) => a,
        };
        proof {
            lemma_bytes_deep_view(da);
        }
        if !bytes_eq(&da, entry_addr) {
            return Err(CustomError::EntryNotDerivedFromOptionOrSigner);
        }
        let amount = match compute_win_amount(
            self.pools[pi].value,
            self.pools[pi].options[oi].value,
            self.pools[pi].options[oi].entries[ei].value,
        ) {
            Err(err) => {
                return Err(err);
            },
            Ok(amount) => amount,
        };
        let ghost l = self@;
        let ghost p_old = l.pools[pi as int];
        let ghost o_old = p_old.options[oi as int];
        let ghost e_old = o_old.entries[ei as int];
        let ghost e2 = EntryModel { is_claimed: true, ..e_old };
        let ghost o2 = OptionModel { entries: o_old.entries.update(ei as int, e2), ..o_old };
        let ghost p2 = PoolModel { options: p_old.options.update(oi as int, o2), ..p_old };
        let p = &mut self.pools[pi];
        let o = &mut p.options[oi];
        let e = &mut o.entries[ei];
        e.is_claimed = true;
        proof {
            assert(self.pools@[pi as int].options@[oi as int].entries@[ei as int]@ =~= e2);
            lemma_entry_views_update(
                old(self).pools@[pi as int].options@[oi as int].entries@,
                ei as int,
                self.pools@[pi as int].options@[oi as int].entries@[ei as int],
            );
            assert(self.pools@[pi as int].options@[oi as int]@.entries =~= o2.entries);
            assert(self.pools@[pi as int].options@[oi as int]@ =~= o2);
            lemma_option_views_update(
                old(self).pools@[pi as int].options@,
                oi as int,
                self.pools@[pi as int].options@[oi as int],
            );
            assert(self.pools@[pi as int]@.options =~= p2.options);
            assert(self.pools@[pi as int]@ =~= p2);
            lemma_pool_views_update(old(self).pools@, pi as int, self.pools@[pi as int]);
            assert(self@.pools =~= l.pools.update(pi as int, p2));
            lemma_option_wf_update_entry(o_old, ei as int, e2, o2.value);
            lemma_pool_wf_update_option(p_old, oi as int, o2, p2.value);
            lemma_wf_update_pool(l, pi as int, p2);
            assert(self@ =~= claim_win_step(
                old(self)@,
                winner@,
                pool_addr@,
                option_addr@,
                entry_addr@,
            ).0);
        }
        Ok(amount)
    }

    /// The amount that `claim_win` would pay for these arguments, or the
    /// error it would give, without touching the ledger.
    ///
    /// A caller that must move custody atomically with the claim can check
    /// funds against this amount first: the result equals the outcome of
    /// `claim_win` on the unchanged ledger.
    pub fn claim_win_amount(
        &self,
        winner: &Vec<u8>,
        pool_addr: &Vec<u8>,
        option_addr: &Vec<u8>,
        entry_addr: &Vec<u8>,
    ) -> (r: Result<u64, CustomError>)
        requires
            self.wf(),
        ensures
            r == claim_win_step(self@, winner@, pool_addr@, option_addr@, entry_addr@).1,
    {
        let pi = match find_pool(&self.pools, pool_addr) {
            None => {
                proof {
                    lemma_pool_index_props(self@.pools, pool_addr@);
                }
                return Err(CustomError::AccountNotFound);
            },
            Some(pi) => {
                proof {
                    lemma_pool_index_unique(self@.pools, pool_addr@, pi as int);
                }
                pi
            },
        };
        proof {
            assert(ledger_wf_pool(self@, pi as int));
        }
        let oi = match find_option(&self.pools[pi].options, option_addr) {
            None => {
                proof {
                    lemma_option_index_props(self@.pools[pi as int].options, option_addr@);
                }
                return Err(CustomError::AccountNotFound);
            },
            Some(oi) => {
                proof {
                    lemma_option_index_unique(
                        self@.pools[pi as int].options,
                        option_addr@,
                        oi as int,
                    );
                }
                oi
            },
        };
        proof {
            assert(pool_wf_option(self@.pools[pi as int], oi as int));
        }
        let ei_found = find_entry(&self.pools[pi].options[oi].entries, entry_addr);
        proof {
            match ei_found {
                Some(ei) => lemma_entry_index_unique(
                    self@.pools[pi as int].options[oi as int].entries,
                    entry_addr@,
                    ei as int,
                ),
                None => lemma_entry_index_props(
                    self@.pools[pi as int].options[oi as int].entries,
                    entry_addr@,
                ),
            }
        }
        if let Some(ei) = ei_found {
            if self.pools[pi].options[oi].entries[ei].is_claimed {
                return Err(CustomError::EntryAlreadyClaimed);
            }
            let is_winner = match &self.pools[pi].winning_option {
                Some(w) => bytes_eq(w, option_addr),
                None => false,
            };
            if !is_winner {
                return Err(CustomError::LosingOption);
            }
        }
        let mut seeds: Vec<Vec<u8>> = Vec::new();
        seeds.push(bytes_clone(option_addr));
        seeds.push(bytes_clone(winner));
        proof {
            assert(seeds.deep_view() =~= seq![option_addr@, winner@]) by {
                assert(seeds@.len() == 2);
                lemma_bytes_deep_view(seeds@[0]);
                lemma_bytes_deep_view(seeds@[1]);
            }
        }
        let da = match derive_address(&seeds, &self.program_id) {
            None => {
                return Err(CustomError::AddressUnderivable);
            },
            Some(a) => a,
        };
        proof {
            lemma_bytes_deep_view(da);
        }
        if !bytes_eq(&da, entry_addr) {
            return Err(CustomError::EntryNotDerivedFromOptionOrSigner);
        }
        let ei = match ei_found {
            None => {
                return Err(CustomError::AccountNotFound);
            },
            Some(ei) => ei,
        };
        compute_win_amount(
            self.pools[pi].value,
            self.pools[pi].options[oi].value,
            self.pools[pi].options[oi].entries[ei].value,
        )
    }
}

} // verus!
