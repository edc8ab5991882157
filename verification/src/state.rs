use vstd::prelude::*;

verus! {

// ---------------------------------------------------------------------------
// Mathematical model
// ---------------------------------------------------------------------------

/// Model of one participant's cumulative wager on one option.
#[verifier::ext_equal]
pub struct EntryModel {
    /// Derived from the option address and the participant address.
    pub addr: Seq<u8>,
    pub value: u64,
    pub is_claimed: bool,
}

/// Model of one possible outcome of a pool.
#[verifier::ext_equal]
pub struct OptionModel {
    /// Derived from the digest of the pool address text and the option title.
    pub addr: Seq<u8>,
    pub title: Seq<u8>,
    pub value: u64,
    pub entries: Seq<EntryModel>,
}

/// Model of one wagering pool.
#[verifier::ext_equal]
pub struct PoolModel {
    /// Derived from the digest of the title and the admin address.
    pub addr: Seq<u8>,
    pub title: Seq<u8>,
    pub is_paused: bool,
    pub winning_option: Option<Seq<u8>>,
    pub value: u64,
    pub options: Seq<OptionModel>,
}

/// Model of the whole ledger.
#[verifier::ext_equal]
pub struct LedgerModel {
    /// The administrator address, fixed at initialization.
    pub admin: Seq<u8>,
    /// The program id that scopes every derived address, 32 bytes.
    pub program_id: Seq<u8>,
    pub pools: Seq<PoolModel>,
}

// ---------------------------------------------------------------------------
// Sums
// ---------------------------------------------------------------------------

/// The sum of the values of a sequence of entries.
pub open spec fn entry_values_sum(es: Seq<EntryModel>) -> int
    decreases es.len(),
{
    if es.len() == 0 {
        0
    } else {
        es.first().value + entry_values_sum(es.drop_first())
    }
}

/// The sum of the values of a sequence of options.
pub open spec fn option_values_sum(os: Seq<OptionModel>) -> int
    decreases os.len(),
{
    if os.len() == 0 {
        0
    } else {
        os.first().value + option_values_sum(os.drop_first())
    }
}

// ---------------------------------------------------------------------------
// Address uniqueness and first-match indices
// ---------------------------------------------------------------------------

pub open spec fn unique_entry_addrs(es: Seq<EntryModel>) -> bool {
    forall|i: int, j: int| 0 <= i < j < es.len() ==> es[i].addr != es[j].addr
}

pub open spec fn unique_option_addrs(os: Seq<OptionModel>) -> bool {
    forall|i: int, j: int| 0 <= i < j < os.len() ==> os[i].addr != os[j].addr
}

pub open spec fn unique_pool_addrs(ps: Seq<PoolModel>) -> bool {
    forall|i: int, j: int| 0 <= i < j < ps.len() ==> ps[i].addr != ps[j].addr
}

/// The index of the first entry with the given address, or -1.
pub open spec fn entry_index(es: Seq<EntryModel>, addr: Seq<u8>) -> int
    decreases es.len(),
{
    if es.len() == 0 {
        -1
    } else if es.first().addr == addr {
        0
    } else {
        let r = entry_index(es.drop_first(), addr);
        if r == -1 {
            -1
        } else {
            r + 1
        }
    }
}

/// The index of the first option with the given address, or -1.
pub open spec fn option_index(os: Seq<OptionModel>, addr: Seq<u8>) -> int
    decreases os.len(),
{
    if os.len() == 0 {
        -1
    } else if os.first().addr == addr {
        0
    } else {
        let r = option_index(os.drop_first(), addr);
        if r == -1 {
            -1
        } else {
            r + 1
        }
    }
}

/// The index of the first pool with the given address, or -1.
pub open spec fn pool_index(ps: Seq<PoolModel>, addr: Seq<u8>) -> int
    decreases ps.len(),
{
    if ps.len() == 0 {
        -1
    } else if ps.first().addr == addr {
        0
    } else {
        let r = pool_index(ps.drop_first(), addr);
        if r == -1 {
            -1
        } else {
            r + 1
        }
    }
}

// ---------------------------------------------------------------------------
// Well-formedness: the accounting invariant
// ---------------------------------------------------------------------------

/// An option is well-formed when its value is exactly the sum of its entries'
/// values and its entries sit at pairwise distinct derived addresses.
pub open spec fn option_wf(o: OptionModel) -> bool {
    &&& o.addr.len() == 32
    &&& o.value == entry_values_sum(o.entries)
    &&& unique_entry_addrs(o.entries)
}

/// A pool is well-formed when its value is exactly the sum of its options'
/// values, its options sit at pairwise distinct derived addresses, and each
/// option is itself well-formed.
pub open spec fn pool_wf(p: PoolModel) -> bool {
    &&& p.addr.len() == 32
    &&& p.value == option_values_sum(p.options)
    &&& unique_option_addrs(p.options)
    &&& forall|i: int| 0 <= i < p.options.len() ==> pool_wf_option(p, i)
}

/// Helper naming the per-option conjunct of `pool_wf`, to give the
/// quantifier a stable trigger.
pub open spec fn pool_wf_option(p: PoolModel, i: int) -> bool {
    option_wf(p.options[i])
}

/// The ledger is well-formed when its program id is a 32-byte address, its
/// pools sit at pairwise distinct derived addresses, and each pool is itself
/// well-formed.
pub open spec fn ledger_wf(l: LedgerModel) -> bool {
    &&& l.program_id.len() == 32
    &&& unique_pool_addrs(l.pools)
    &&& forall|i: int| 0 <= i < l.pools.len() ==> ledger_wf_pool(l, i)
}

/// Helper naming the per-pool conjunct of `ledger_wf`.
pub open spec fn ledger_wf_pool(l: LedgerModel, i: int) -> bool {
    pool_wf(l.pools[i])
}

// ---------------------------------------------------------------------------
// Executable records
// ---------------------------------------------------------------------------

/// One participant's cumulative wager on one option.
pub struct Entry {
    /// Derived from the option address and the participant address.
    pub addr: Vec<u8>,
    /// Total value wagered by this participant on this option.
    pub value: u64,
    /// Whether the winnings were already paid out.
    pub is_claimed: bool,
}

/// One possible outcome of a pool.
pub struct PoolOption {
    /// Derived from the digest of the pool address text and the option title.
    pub addr: Vec<u8>,
    pub title: Vec<u8>,
    /// Sum of the values of all entries on this option.
    pub value: u64,
    pub entries: Vec<Entry>,
}

/// One wagering pool.
pub struct Pool {
    /// Derived from the digest of the title and the admin address.
    pub addr: Vec<u8>,
    pub title: Vec<u8>,
    pub is_paused: bool,
    /// The declared winning option, once resolved.
    pub winning_option: Option<Vec<u8>>,
    /// Sum of the values of all options of this pool (cumulative deposits;
    /// never decremented by claims).
    pub value: u64,
    pub options: Vec<PoolOption>,
}

/// The whole ledger: every pool ever created, keyed by derived address,
/// together with the configured administrator and program id.
pub struct Ledger {
    pub admin: Vec<u8>,
    pub program_id: Vec<u8>,
    pub pools: Vec<Pool>,
}

impl View for Entry {
    type V = EntryModel;

    open spec fn view(&self) -> EntryModel {
        EntryModel { addr: self.addr@, value: self.value, is_claimed: self.is_claimed }
    }
}

impl View for PoolOption {
    type V = OptionModel;

    open spec fn view(&self) -> OptionModel {
        OptionModel {
            addr: self.addr@,
            title: self.title@,
            value: self.value,
            entries: self.entries@.map_values(|e: Entry| e@),
        }
    }
}

impl View for Pool {
    type V = PoolModel;

    open spec fn view(&self) -> PoolModel {
        PoolModel {
            addr: self.addr@,
            title: self.title@,
            is_paused: self.is_paused,
            winning_option: match self.winning_option {
                Some(w) => Some(w@),
                None => None,
            },
            value: self.value,
            options: self.options@.map_values(|o: PoolOption| o@),
        }
    }
}

impl View for Ledger {
    type V = LedgerModel;

    open spec fn view(&self) -> LedgerModel {
        LedgerModel {
            admin: self.admin@,
            program_id: self.program_id@,
            pools: self.pools@.map_values(|p: Pool| p@),
        }
    }
}

impl Ledger {
    /// Shorthand for well-formedness of the ledger's model.
    pub open spec fn wf(&self) -> bool {
        ledger_wf(self@)
    }

    /// An empty ledger under the given administrator and program id.
    pub fn new(admin: Vec<u8>, program_id: Vec<u8>) -> (r: Ledger)
        requires
            program_id@.len() == 32,
        ensures
            r.wf(),
            r@.admin == admin@,
            r@.program_id == program_id@,
            r@.pools.len() == 0,
    {
        let r = Ledger { admin, program_id, pools: Vec::new() };
        proof {
            assert(r@.pools =~= Seq::<PoolModel>::empty());
        }
        r
    }
}

// ---------------------------------------------------------------------------
// Lemmas on sums
// ---------------------------------------------------------------------------

/// Appending an entry adds its value to the sum.
pub proof fn lemma_entry_sum_push(es: Seq<EntryModel>, e: EntryModel)
    ensures
        entry_values_sum(es.push(e)) == entry_values_sum(es) + e.value,
    decreases es.len(),
{
    if es.len() == 0 {
        assert(es.push(e).first() == e);
        assert(es.push(e).drop_first() =~= Seq::<EntryModel>::empty());
        assert(entry_values_sum(Seq::<EntryModel>::empty()) == 0);
    } else {
        assert(es.push(e).first() == es.first());
        assert(es.push(e).drop_first() =~= es.drop_first().push(e));
        lemma_entry_sum_push(es.drop_first(), e);
    }
}

/// Replacing the entry at one index changes the sum by the difference of the
/// values.
pub proof fn lemma_entry_sum_update(es: Seq<EntryModel>, i: int, e: EntryModel)
    requires
        0 <= i < es.len(),
    ensures
        entry_values_sum(es.update(i, e)) == entry_values_sum(es) - es[i].value + e.value,
    decreases es.len(),
{
    if i == 0 {
        assert(es.update(0, e).drop_first() =~= es.drop_first());
    } else {
        assert(es.update(i, e).drop_first() =~= es.drop_first().update(i - 1, e));
        lemma_entry_sum_update(es.drop_first(), i - 1, e);
    }
}

/// Appending an option adds its value to the sum.
pub proof fn lemma_option_sum_push(os: Seq<OptionModel>, o: OptionModel)
    ensures
        option_values_sum(os.push(o)) == option_values_sum(os) + o.value,
    decreases os.len(),
{
    if os.len() == 0 {
        assert(os.push(o).first() == o);
        assert(os.push(o).drop_first() =~= Seq::<OptionModel>::empty());
        assert(option_values_sum(Seq::<OptionModel>::empty()) == 0);
    } else {
        assert(os.push(o).first() == os.first());
        assert(os.push(o).drop_first() =~= os.drop_first().push(o));
        lemma_option_sum_push(os.drop_first(), o);
    }
}

/// Replacing the option at one index changes the sum by the difference of the
/// values.
pub proof fn lemma_option_sum_update(os: Seq<OptionModel>, i: int, o: OptionModel)
    requires
        0 <= i < os.len(),
    ensures
        option_values_sum(os.update(i, o)) == option_values_sum(os) - os[i].value + o.value,
    decreases os.len(),
{
    if i == 0 {
        assert(os.update(0, o).drop_first() =~= os.drop_first());
    } else {
        assert(os.update(i, o).drop_first() =~= os.drop_first().update(i - 1, o));
        lemma_option_sum_update(os.drop_first(), i - 1, o);
    }
}

// ---------------------------------------------------------------------------
// Lemmas on first-match indices
// ---------------------------------------------------------------------------

/// Where `entry_index` points, the address matches; where it is -1, no entry
/// matches.
pub proof fn lemma_entry_index_props(es: Seq<EntryModel>, addr: Seq<u8>)
    ensures
        entry_index(es, addr) == -1 ==> forall|j: int| 0 <= j < es.len() ==> es[j].addr != addr,
        entry_index(es, addr) != -1 ==> {
            &&& 0 <= entry_index(es, addr) < es.len()
            &&& es[entry_index(es, addr)].addr == addr
        },
    decreases es.len(),
{
    if es.len() > 0 && es.first().addr != addr {
        lemma_entry_index_props(es.drop_first(), addr);
        assert forall|j: int| entry_index(es, addr) == -1 && 0 <= j < es.len() implies es[j].addr
            != addr by {
            if j > 0 {
                assert(es.drop_first()[j - 1] == es[j]);
            }
        }
    }
}

/// An entry whose address matches pins `entry_index` to its position, given
/// pairwise distinct addresses.
pub proof fn lemma_entry_index_unique(es: Seq<EntryModel>, addr: Seq<u8>, i: int)
    requires
        unique_entry_addrs(es),
        0 <= i < es.len(),
        es[i].addr == addr,
    ensures
        entry_index(es, addr) == i,
{
    lemma_entry_index_props(es, addr);
}

/// Where `option_index` points, the address matches; where it is -1, no
/// option matches.
pub proof fn lemma_option_index_props(os: Seq<OptionModel>, addr: Seq<u8>)
    ensures
        option_index(os, addr) == -1 ==> forall|j: int| 0 <= j < os.len() ==> os[j].addr != addr,
        option_index(os, addr) != -1 ==> {
            &&& 0 <= option_index(os, addr) < os.len()
            &&& os[option_index(os, addr)].addr == addr
        },
    decreases os.len(),
{
    if os.len() > 0 && os.first().addr != addr {
        lemma_option_index_props(os.drop_first(), addr);
        assert forall|j: int| option_index(os, addr) == -1 && 0 <= j < os.len() implies os[j].addr
            != addr by {
            if j > 0 {
                assert(os.drop_first()[j - 1] == os[j]);
            }
        }
    }
}

/// An option whose address matches pins `option_index` to its position, given
/// pairwise distinct addresses.
pub proof fn lemma_option_index_unique(os: Seq<OptionModel>, addr: Seq<u8>, i: int)
    requires
        unique_option_addrs(os),
        0 <= i < os.len(),
        os[i].addr == addr,
    ensures
        option_index(os, addr) == i,
{
    lemma_option_index_props(os, addr);
}

/// Where `pool_index` points, the address matches; where it is -1, no pool
/// matches.
pub proof fn lemma_pool_index_props(ps: Seq<PoolModel>, addr: Seq<u8>)
    ensures
        pool_index(ps, addr) == -1 ==> forall|j: int| 0 <= j < ps.len() ==> ps[j].addr != addr,
        pool_index(ps, addr) != -1 ==> {
            &&& 0 <= pool_index(ps, addr) < ps.len()
            &&& ps[pool_index(ps, addr)].addr == addr
        },
    decreases ps.len(),
{
    if ps.len() > 0 && ps.first().addr != addr {
        lemma_pool_index_props(ps.drop_first(), addr);
        assert forall|j: int| pool_index(ps, addr) == -1 && 0 <= j < ps.len() implies ps[j].addr
            != addr by {
            if j > 0 {
                assert(ps.drop_first()[j - 1] == ps[j]);
            }
        }
    }
}

/// A pool whose address matches pins `pool_index` to its position, given
/// pairwise distinct addresses.
pub proof fn lemma_pool_index_unique(ps: Seq<PoolModel>, addr: Seq<u8>, i: int)
    requires
        unique_pool_addrs(ps),
        0 <= i < ps.len(),
        ps[i].addr == addr,
    ensures
        pool_index(ps, addr) == i,
{
    lemma_pool_index_props(ps, addr);
}

/// Replacing an entry without changing its address leaves every first-match
/// index as it was.
pub proof fn lemma_entry_index_stable(es: Seq<EntryModel>, i: int, e: EntryModel, a: Seq<u8>)
    requires
        0 <= i < es.len(),
        e.addr == es[i].addr,
    ensures
        entry_index(es.update(i, e), a) == entry_index(es, a),
    decreases es.len(),
{
    if i == 0 {
        assert(es.update(0, e).first() == e);
        assert(es.update(0, e).drop_first() =~= es.drop_first());
    } else {
        assert(es.update(i, e).first() == es.first());
        assert(es.update(i, e).drop_first() =~= es.drop_first().update(i - 1, e));
        lemma_entry_index_stable(es.drop_first(), i - 1, e, a);
    }
}

/// Replacing an option without changing its address leaves every first-match
/// index as it was.
pub proof fn lemma_option_index_stable(os: Seq<OptionModel>, i: int, o: OptionModel, a: Seq<u8>)
    requires
        0 <= i < os.len(),
        o.addr == os[i].addr,
    ensures
        option_index(os.update(i, o), a) == option_index(os, a),
    decreases os.len(),
{
    if i == 0 {
        assert(os.update(0, o).first() == o);
        assert(os.update(0, o).drop_first() =~= os.drop_first());
    } else {
        assert(os.update(i, o).first() == os.first());
        assert(os.update(i, o).drop_first() =~= os.drop_first().update(i - 1, o));
        lemma_option_index_stable(os.drop_first(), i - 1, o, a);
    }
}

/// Replacing a pool without changing its address leaves every first-match
/// index as it was.
pub proof fn lemma_pool_index_stable(ps: Seq<PoolModel>, i: int, p: PoolModel, a: Seq<u8>)
    requires
        0 <= i < ps.len(),
        p.addr == ps[i].addr,
    ensures
        pool_index(ps.update(i, p), a) == pool_index(ps, a),
    decreases ps.len(),
{
    if i == 0 {
        assert(ps.update(0, p).first() == p);
        assert(ps.update(0, p).drop_first() =~= ps.drop_first());
    } else {
        assert(ps.update(i, p).first() == ps.first());
        assert(ps.update(i, p).drop_first() =~= ps.drop_first().update(i - 1, p));
        lemma_pool_index_stable(ps.drop_first(), i - 1, p, a);
    }
}

// ---------------------------------------------------------------------------
// Lemmas relating record views to model sequences
// ---------------------------------------------------------------------------

/// A byte vector's deep view is its view.
pub proof fn lemma_bytes_deep_view(v: Vec<u8>)
    ensures
        v.deep_view() == v@,
{
    assert(v.deep_view() =~= v@);
}

/// Mapping views distributes over push, for pools.
pub proof fn lemma_pool_views_push(ps: Seq<Pool>, p: Pool)
    ensures
        ps.push(p).map_values(|x: Pool| x@) == ps.map_values(|x: Pool| x@).push(p@),
{
    assert(ps.push(p).map_values(|x: Pool| x@) =~= ps.map_values(|x: Pool| x@).push(p@));
}

/// Mapping views distributes over update, for pools.
pub proof fn lemma_pool_views_update(ps: Seq<Pool>, i: int, p: Pool)
    requires
        0 <= i < ps.len(),
    ensures
        ps.update(i, p).map_values(|x: Pool| x@) == ps.map_values(|x: Pool| x@).update(i, p@),
{
    assert(ps.update(i, p).map_values(|x: Pool| x@) =~= ps.map_values(|x: Pool| x@).update(
        i,
        p@,
    ));
}

/// Mapping views distributes over push, for options.
pub proof fn lemma_option_views_push(os: Seq<PoolOption>, o: PoolOption)
    ensures
        os.push(o).map_values(|x: PoolOption| x@) == os.map_values(|x: PoolOption| x@).push(o@),
{
    assert(os.push(o).map_values(|x: PoolOption| x@) =~= os.map_values(|x: PoolOption| x@).push(
        o@,
    ));
}

/// Mapping views distributes over update, for options.
pub proof fn lemma_option_views_update(os: Seq<PoolOption>, i: int, o: PoolOption)
    requires
        0 <= i < os.len(),
    ensures
        os.update(i, o).map_values(|x: PoolOption| x@) == os.map_values(
            |x: PoolOption| x@,
        ).update(i, o@),
{
    assert(os.update(i, o).map_values(|x: PoolOption| x@) =~= os.map_values(
        |x: PoolOption| x@,
    ).update(i, o@));
}

/// Mapping views distributes over push, for entries.
pub proof fn lemma_entry_views_push(es: Seq<Entry>, e: Entry)
    ensures
        es.push(e).map_values(|x: Entry| x@) == es.map_values(|x: Entry| x@).push(e@),
{
    assert(es.push(e).map_values(|x: Entry| x@) =~= es.map_values(|x: Entry| x@).push(e@));
}

/// Mapping views distributes over update, for entries.
pub proof fn lemma_entry_views_update(es: Seq<Entry>, i: int, e: Entry)
    requires
        0 <= i < es.len(),
    ensures
        es.update(i, e).map_values(|x: Entry| x@) == es.map_values(|x: Entry| x@).update(i, e@),
{
    assert(es.update(i, e).map_values(|x: Entry| x@) =~= es.map_values(|x: Entry| x@).update(
        i,
        e@,
    ));
}

// ---------------------------------------------------------------------------
// Lemmas preserving well-formedness under the ledger's mutations
// ---------------------------------------------------------------------------

/// Replacing a pool by a well-formed pool at the same address keeps the
/// ledger well-formed.
pub proof fn lemma_wf_update_pool(l: LedgerModel, pi: int, p: PoolModel)
    requires
        ledger_wf(l),
        0 <= pi < l.pools.len(),
        p.addr == l.pools[pi].addr,
        pool_wf(p),
    ensures
        ledger_wf(LedgerModel { pools: l.pools.update(pi, p), ..l }),
{
    let l2 = LedgerModel { pools: l.pools.update(pi, p), ..l };
    assert forall|i: int| 0 <= i < l2.pools.len() implies ledger_wf_pool(l2, i) by {
        if i != pi {
            assert(ledger_wf_pool(l, i));
        }
    }
}

/// Adding a well-formed pool at a fresh address keeps the ledger well-formed.
pub proof fn lemma_wf_push_pool(l: LedgerModel, p: PoolModel)
    requires
        ledger_wf(l),
        pool_wf(p),
        forall|j: int| 0 <= j < l.pools.len() ==> l.pools[j].addr != p.addr,
    ensures
        ledger_wf(LedgerModel { pools: l.pools.push(p), ..l }),
{
    let l2 = LedgerModel { pools: l.pools.push(p), ..l };
    assert forall|i: int| 0 <= i < l2.pools.len() implies ledger_wf_pool(l2, i) by {
        if i < l.pools.len() {
            assert(ledger_wf_pool(l, i));
        }
    }
}

/// Replacing an option by a well-formed option at the same address, while
/// moving the pool's value by the same difference, keeps the pool
/// well-formed.
pub proof fn lemma_pool_wf_update_option(p: PoolModel, oi: int, o: OptionModel, nv: u64)
    requires
        pool_wf(p),
        0 <= oi < p.options.len(),
        o.addr == p.options[oi].addr,
        option_wf(o),
        nv == p.value - p.options[oi].value + o.value,
    ensures
        pool_wf(PoolModel { value: nv, options: p.options.update(oi, o), ..p }),
{
    let p2 = PoolModel { value: nv, options: p.options.update(oi, o), ..p };
    lemma_option_sum_update(p.options, oi, o);
    assert forall|i: int| 0 <= i < p2.options.len() implies pool_wf_option(p2, i) by {
        if i != oi {
            assert(pool_wf_option(p, i));
        }
    }
}

/// Adding a well-formed option at a fresh address, while raising the pool's
/// value by the option's value, keeps the pool well-formed.
pub proof fn lemma_pool_wf_push_option(p: PoolModel, o: OptionModel, nv: u64)
    requires
        pool_wf(p),
        option_wf(o),
        forall|j: int| 0 <= j < p.options.len() ==> p.options[j].addr != o.addr,
        nv == p.value + o.value,
    ensures
        pool_wf(PoolModel { value: nv, options: p.options.push(o), ..p }),
{
    let p2 = PoolModel { value: nv, options: p.options.push(o), ..p };
    lemma_option_sum_push(p.options, o);
    assert forall|i: int| 0 <= i < p2.options.len() implies pool_wf_option(p2, i) by {
        if i < p.options.len() {
            assert(pool_wf_option(p, i));
        }
    }
}

/// Replacing an entry at the same address, while moving the option's value by
/// the same difference, keeps the option well-formed.
pub proof fn lemma_option_wf_update_entry(o: OptionModel, ei: int, e: EntryModel, nv: u64)
    requires
        option_wf(o),
        0 <= ei < o.entries.len(),
        e.addr == o.entries[ei].addr,
        nv == o.value - o.entries[ei].value + e.value,
    ensures
        option_wf(OptionModel { value: nv, entries: o.entries.update(ei, e), ..o }),
{
    lemma_entry_sum_update(o.entries, ei, e);
}

/// Adding an entry at a fresh address, while raising the option's value by
/// the entry's value, keeps the option well-formed.
pub proof fn lemma_option_wf_push_entry(o: OptionModel, e: EntryModel, nv: u64)
    requires
        option_wf(o),
        forall|j: int| 0 <= j < o.entries.len() ==> o.entries[j].addr != e.addr,
        nv == o.value + e.value,
    ensures
        option_wf(OptionModel { value: nv, entries: o.entries.push(e), ..o }),
{
    lemma_entry_sum_push(o.entries, e);
}

// ---------------------------------------------------------------------------
// Executable searches
// ---------------------------------------------------------------------------

/// The position of the pool at the given address, if any.
pub fn find_pool(pools: &Vec<Pool>, addr: &Vec<u8>) -> (r: Option<usize>)
    ensures
        match r {
            Some(i) => i < pools@.len() && pools@[i as int]@.addr == addr@ && forall|j: int|
                0 <= j < i ==> pools@[j]@.addr != addr@,
            None => forall|j: int| 0 <= j < pools@.len() ==> pools@[j]@.addr != addr@,
        },
{
    let mut i: usize = 0;
    while i < pools.len()
        invariant
            i <= pools@.len(),
            forall|j: int| 0 <= j < i ==> pools@[j]@.addr != addr@,
        decreases pools@.len() - i,
    {
        if crate::crypto::bytes_eq(&pools[i].addr, addr) {
            return Some(i);
        }
        i = i + 1;
    }
    None
}

/// The position of the option at the given address, if any.
pub fn find_option(options: &Vec<PoolOption>, addr: &Vec<u8>) -> (r: Option<usize>)
    ensures
        match r {
            Some(i) => i < options@.len() && options@[i as int]@.addr == addr@ && forall|j: int|
                0 <= j < i ==> options@[j]@.addr != addr@,
            None => forall|j: int| 0 <= j < options@.len() ==> options@[j]@.addr != addr@,
        },
{
    let mut i: usize = 0;
    while i < options.len()
        invariant
            i <= options@.len(),
            forall|j: int| 0 <= j < i ==> options@[j]@.addr != addr@,
        decreases options@.len() - i,
    {
        if crate::crypto::bytes_eq(&options[i].addr, addr) {
            return Some(i);
        }
        i = i + 1;
    }
    None
}

/// The position of the entry at the given address, if any.
pub fn find_entry(entries: &Vec<Entry>, addr: &Vec<u8>) -> (r: Option<usize>)
    ensures
        match r {
            Some(i) => i < entries@.len() && entries@[i as int]@.addr == addr@ && forall|j: int|
                0 <= j < i ==> entries@[j]@.addr != addr@,
            None => forall|j: int| 0 <= j < entries@.len() ==> entries@[j]@.addr != addr@,
        },
{
    let mut i: usize = 0;
    while i < entries.len()
        invariant
            i <= entries@.len(),
            forall|j: int| 0 <= j < i ==> entries@[j]@.addr != addr@,
        decreases entries@.len() - i,
    {
        if crate::crypto::bytes_eq(&entries[i].addr, addr) {
            return Some(i);
        }
        i = i + 1;
    }
    None
}

} // verus!
