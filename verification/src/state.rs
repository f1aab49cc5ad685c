//! The contract state and its invariant.
//!
//! `Cw721Contract` holds every persisted table of the ledger. Its view is
//! `StateM`, a mathematical model of the whole state; `StateM::inv` is the
//! cross-table well-formedness that every operation preserves: pack rows
//! carry their own key and an id the counter has issued, a pack name is
//! reserved exactly while a live pack bears it, no two live packs of one
//! kind share a name, every recorded royalty owner has a royalty entry, and
//! each balance counter equals the number of live packs its owner holds.

use vstd::prelude::*;

use crate::table::{Registry, Table};
use crate::types::{
    Config, ConfigM, ContractInfo, ContractInfoM, Expiration, Fraction, InstantiateMsg, NftPack,
    NftPackM, PackableM, PackableToken, TokenInfo, TokenM, TokenPack, TokenPackM,
};

verus! {

/// The whole contract state: one field per persisted table or counter.
pub struct Cw721Contract {
    pub contract_info: ContractInfo,
    pub minter: String,
    pub config: Config,
    pub token_count: u64,
    /// `(granter, operator)`: the operator has full control over the
    /// granter's items until the grant expires.
    pub operators: Table<(String, String), Expiration>,
    pub tokens: Table<String, TokenInfo>,
    pub packable_nfts: Table<String, PackableToken>,
    pub token_uri_exists: Registry,
    pub token_name_exists: Registry,
    pub nft_pack_counter: u64,
    pub nft_packs: Table<u64, NftPack>,
    pub pack_name_exists: Registry,
    pub nft_pack_balances: Table<String, u64>,
    /// `(pack_id, beneficiary)`: royalty-share fraction, written once at
    /// packing time.
    pub royalty_fees: Table<(u64, String), Fraction>,
    pub token_pack_counter: u64,
    pub token_packs: Table<u64, TokenPack>,
    pub token_pack_name_exists: Registry,
    pub token_pack_balances: Table<String, u64>,
    pub token_royalty_fees: Table<(u64, String), Fraction>,
}

/// Mathematical model of the whole contract state.
#[verifier::ext_equal]
pub ghost struct StateM {
    pub contract_info: ContractInfoM,
    pub minter: Seq<char>,
    pub config: ConfigM,
    pub token_count: u64,
    pub operators: Map<(Seq<char>, Seq<char>), Expiration>,
    pub tokens: Map<Seq<char>, TokenM>,
    pub packable_nfts: Map<Seq<char>, PackableM>,
    pub token_uri_exists: Set<Seq<char>>,
    pub token_name_exists: Set<Seq<char>>,
    pub nft_pack_counter: u64,
    pub nft_packs: Map<u64, NftPackM>,
    pub pack_name_exists: Set<Seq<char>>,
    pub nft_pack_balances: Map<Seq<char>, u64>,
    pub royalty_fees: Map<(u64, Seq<char>), Fraction>,
    pub token_pack_counter: u64,
    pub token_packs: Map<u64, TokenPackM>,
    pub token_pack_name_exists: Set<Seq<char>>,
    pub token_pack_balances: Map<Seq<char>, u64>,
    pub token_royalty_fees: Map<(u64, Seq<char>), Fraction>,
}

impl View for Cw721Contract {
    type V = StateM;

    open spec fn view(&self) -> StateM {
        StateM {
            contract_info: self.contract_info.deep_view(),
            minter: self.minter@,
            config: self.config.deep_view(),
            token_count: self.token_count,
            operators: self.operators@,
            tokens: self.tokens@,
            packable_nfts: self.packable_nfts@,
            token_uri_exists: self.token_uri_exists@,
            token_name_exists: self.token_name_exists@,
            nft_pack_counter: self.nft_pack_counter,
            nft_packs: self.nft_packs@,
            pack_name_exists: self.pack_name_exists@,
            nft_pack_balances: self.nft_pack_balances@,
            royalty_fees: self.royalty_fees@,
            token_pack_counter: self.token_pack_counter,
            token_packs: self.token_packs@,
            token_pack_name_exists: self.token_pack_name_exists@,
            token_pack_balances: self.token_pack_balances@,
            token_royalty_fees: self.token_royalty_fees@,
        }
    }
}

/// The stored balance counter of `o`: a missing row counts as zero.
pub open spec fn stored_balance(m: Map<Seq<char>, u64>, o: Seq<char>) -> u64 {
    if m.contains_key(o) {
        m[o]
    } else {
        0
    }
}

/// Projects a pack table to the map from pack id to current owner.
pub open spec fn nft_owner_map(m: Map<u64, NftPackM>) -> Map<u64, Seq<char>> {
    m.map_values(|p: NftPackM| p.current_owner)
}

/// Projects a token-pack table to the map from pack id to current owner.
pub open spec fn token_owner_map(m: Map<u64, TokenPackM>) -> Map<u64, Seq<char>> {
    m.map_values(|p: TokenPackM| p.current_owner)
}

/// The ids of the live packs whose current owner is `o`.
pub open spec fn owned_ids(m: Map<u64, Seq<char>>, o: Seq<char>) -> Set<u64> {
    m.dom().filter(|id: u64| m[id] == o)
}

impl Cw721Contract {
    /// Representation well-formedness: every table has unique keys.
    pub open spec fn wf(self) -> bool {
        &&& self.operators.wf()
        &&& self.tokens.wf()
        &&& self.packable_nfts.wf()
        &&& self.token_uri_exists.wf()
        &&& self.token_name_exists.wf()
        &&& self.nft_packs.wf()
        &&& self.pack_name_exists.wf()
        &&& self.nft_pack_balances.wf()
        &&& self.royalty_fees.wf()
        &&& self.token_packs.wf()
        &&& self.token_pack_name_exists.wf()
        &&& self.token_pack_balances.wf()
        &&& self.token_royalty_fees.wf()
    }
}

impl StateM {
    /// Balance counter for packs of items.
    pub open spec fn nft_balance_of(self, o: Seq<char>) -> u64 {
        stored_balance(self.nft_pack_balances, o)
    }

    /// Balance counter for packs of fungible allocations.
    pub open spec fn token_balance_of(self, o: Seq<char>) -> u64 {
        stored_balance(self.token_pack_balances, o)
    }

    /// How many live packs of items `o` owns.
    pub open spec fn nft_owned_count(self, o: Seq<char>) -> nat {
        owned_ids(nft_owner_map(self.nft_packs), o).len()
    }

    /// How many live token packs `o` owns.
    pub open spec fn token_owned_count(self, o: Seq<char>) -> nat {
        owned_ids(token_owner_map(self.token_packs), o).len()
    }

    /// One live pack row is internally consistent with the registries.
    pub open spec fn nft_pack_row_ok(self, id: u64) -> bool {
        &&& self.nft_packs[id].pack_id == id
        &&& 1 <= id && id <= self.nft_pack_counter
        &&& self.pack_name_exists.contains(self.nft_packs[id].pack_name)
        &&& forall|k: int|
            0 <= k < self.nft_packs[id].royalty_owners.len() ==> self.royalty_fees.contains_key(
                (id, #[trigger] self.nft_packs[id].royalty_owners[k]),
            )
    }

    pub open spec fn token_pack_row_ok(self, id: u64) -> bool {
        &&& self.token_packs[id].pack_id == id
        &&& 1 <= id && id <= self.token_pack_counter
        &&& self.token_pack_name_exists.contains(self.token_packs[id].pack_name)
        &&& forall|k: int|
            0 <= k < self.token_packs[id].royalty_owners.len()
                ==> self.token_royalty_fees.contains_key(
                (id, #[trigger] self.token_packs[id].royalty_owners[k]),
            )
    }

    /// Invariant of the item-pack registry: rows are keyed by their own id
    /// and bear issued ids, a name is reserved iff a live pack bears it, no
    /// two live packs share a name, and each balance counter equals the
    /// number of live packs its owner holds.
    pub open spec fn nft_inv(self) -> bool {
        &&& forall|id: u64| #[trigger] self.nft_packs.contains_key(id) ==> self.nft_pack_row_ok(id)
        &&& forall|n: Seq<char>| #[trigger]
            self.pack_name_exists.contains(n) ==> exists|id: u64| #[trigger]
                self.nft_packs.contains_key(id) && self.nft_packs[id].pack_name == n
        &&& forall|i: u64, j: u64|
            #[trigger] self.nft_packs.contains_key(i) && #[trigger] self.nft_packs.contains_key(j)
                && i != j ==> self.nft_packs[i].pack_name != self.nft_packs[j].pack_name
        &&& self.nft_packs.dom().finite()
        &&& self.nft_packs.dom().len() <= self.nft_pack_counter
        &&& forall|o: Seq<char>| #[trigger] self.nft_balance_of(o) == self.nft_owned_count(o)
    }

    /// Invariant of the token-pack registry; mirrors `nft_inv`.
    pub open spec fn token_inv(self) -> bool {
        &&& forall|id: u64| #[trigger]
            self.token_packs.contains_key(id) ==> self.token_pack_row_ok(id)
        &&& forall|n: Seq<char>| #[trigger]
            self.token_pack_name_exists.contains(n) ==> exists|id: u64| #[trigger]
                self.token_packs.contains_key(id) && self.token_packs[id].pack_name == n
        &&& forall|i: u64, j: u64|
            #[trigger] self.token_packs.contains_key(i) && #[trigger] self.token_packs.contains_key(
                j,
            ) && i != j ==> self.token_packs[i].pack_name != self.token_packs[j].pack_name
        &&& self.token_packs.dom().finite()
        &&& self.token_packs.dom().len() <= self.token_pack_counter
        &&& forall|o: Seq<char>| #[trigger] self.token_balance_of(o) == self.token_owned_count(o)
    }

    /// Invariant of the item ledger and its uniqueness registries.
    pub open spec fn item_inv(self) -> bool {
        &&& self.tokens.dom().finite()
        &&& self.token_count == self.tokens.dom().len()
        &&& forall|tid: Seq<char>| #[trigger]
            self.packable_nfts.contains_key(tid) ==> {
                &&& self.packable_nfts[tid].token_id == tid
                &&& self.token_uri_exists.contains(self.packable_nfts[tid].token_uri)
                &&& self.token_name_exists.contains(self.packable_nfts[tid].token_name)
            }
        &&& forall|u: Seq<char>| #[trigger]
            self.token_uri_exists.contains(u) ==> exists|tid: Seq<char>| #[trigger]
                self.packable_nfts.contains_key(tid) && self.packable_nfts[tid].token_uri == u
        &&& forall|n: Seq<char>| #[trigger]
            self.token_name_exists.contains(n) ==> exists|tid: Seq<char>| #[trigger]
                self.packable_nfts.contains_key(tid) && self.packable_nfts[tid].token_name == n
        &&& forall|i: Seq<char>, j: Seq<char>|
            #[trigger] self.packable_nfts.contains_key(i) && #[trigger] self.packable_nfts.contains_key(j)
                && i != j ==> self.packable_nfts[i].token_uri != self.packable_nfts[j].token_uri
                && self.packable_nfts[i].token_name != self.packable_nfts[j].token_name
    }

    /// Every recorded fee fraction lies in `[0, 1]`.
    pub open spec fn fees_inv(self) -> bool {
        &&& self.config.buy_sell_fee.wf()
        &&& forall|k: (u64, Seq<char>)| #[trigger]
            self.royalty_fees.contains_key(k) ==> self.royalty_fees[k].wf()
        &&& forall|k: (u64, Seq<char>)| #[trigger]
            self.token_royalty_fees.contains_key(k) ==> self.token_royalty_fees[k].wf()
    }

    /// The cross-table well-formedness every operation preserves.
    pub open spec fn inv(self) -> bool {
        &&& self.item_inv()
        &&& self.nft_inv()
        &&& self.token_inv()
        &&& self.fees_inv()
    }
}

/// A state whose item-side tables agree with a well-formed one satisfies
/// the item-ledger invariant too.
pub proof fn lemma_item_inv_same(s: StateM, s2: StateM)
    requires
        s.item_inv(),
        s2.tokens == s.tokens,
        s2.token_count == s.token_count,
        s2.packable_nfts == s.packable_nfts,
        s2.token_uri_exists == s.token_uri_exists,
        s2.token_name_exists == s.token_name_exists,
    ensures
        s2.item_inv(),
{
    assert forall|tid: Seq<char>| #[trigger] s2.packable_nfts.contains_key(tid) implies {
        &&& s2.packable_nfts[tid].token_id == tid
        &&& s2.token_uri_exists.contains(s2.packable_nfts[tid].token_uri)
        &&& s2.token_name_exists.contains(s2.packable_nfts[tid].token_name)
    } by {
        assert(s.packable_nfts.contains_key(tid));
    }
    assert forall|u: Seq<char>| #[trigger] s2.token_uri_exists.contains(u)
        implies exists|tid: Seq<char>| #[trigger]
        s2.packable_nfts.contains_key(tid) && s2.packable_nfts[tid].token_uri == u by {
        assert(s.token_uri_exists.contains(u));
        let tid = choose|tid: Seq<char>| #[trigger]
            s.packable_nfts.contains_key(tid) && s.packable_nfts[tid].token_uri == u;
        assert(s2.packable_nfts.contains_key(tid));
    }
    assert forall|n: Seq<char>| #[trigger] s2.token_name_exists.contains(n)
        implies exists|tid: Seq<char>| #[trigger]
        s2.packable_nfts.contains_key(tid) && s2.packable_nfts[tid].token_name == n by {
        assert(s.token_name_exists.contains(n));
        let tid = choose|tid: Seq<char>| #[trigger]
            s.packable_nfts.contains_key(tid) && s.packable_nfts[tid].token_name == n;
        assert(s2.packable_nfts.contains_key(tid));
    }
    assert forall|i: Seq<char>, j: Seq<char>|
        #[trigger] s2.packable_nfts.contains_key(i) && #[trigger] s2.packable_nfts.contains_key(j)
            && i != j implies s2.packable_nfts[i].token_uri != s2.packable_nfts[j].token_uri
        && s2.packable_nfts[i].token_name != s2.packable_nfts[j].token_name by {
        assert(s.packable_nfts.contains_key(i));
        assert(s.packable_nfts.contains_key(j));
    }
}

/// A state whose item-pack tables agree with a well-formed one satisfies
/// the item-pack invariant too.
pub proof fn lemma_nft_inv_same(s: StateM, s2: StateM)
    requires
        s.nft_inv(),
        s2.nft_packs == s.nft_packs,
        s2.nft_pack_counter == s.nft_pack_counter,
        s2.pack_name_exists == s.pack_name_exists,
        s2.nft_pack_balances == s.nft_pack_balances,
        s2.royalty_fees == s.royalty_fees,
    ensures
        s2.nft_inv(),
{
    assert forall|id: u64| #[trigger] s2.nft_packs.contains_key(id)
        implies s2.nft_pack_row_ok(id) by {
        assert(s.nft_packs.contains_key(id));
        assert(s.nft_pack_row_ok(id));
        assert forall|k: int|
            0 <= k < s2.nft_packs[id].royalty_owners.len() implies s2.royalty_fees.contains_key(
            (id, #[trigger] s2.nft_packs[id].royalty_owners[k]),
        ) by {
            assert(s.royalty_fees.contains_key((id, s.nft_packs[id].royalty_owners[k])));
        }
    }
    assert forall|n: Seq<char>| #[trigger] s2.pack_name_exists.contains(n)
        implies exists|id: u64| #[trigger]
        s2.nft_packs.contains_key(id) && s2.nft_packs[id].pack_name == n by {
        assert(s.pack_name_exists.contains(n));
        let id = choose|id: u64| #[trigger]
            s.nft_packs.contains_key(id) && s.nft_packs[id].pack_name == n;
        assert(s2.nft_packs.contains_key(id));
    }
    assert forall|i: u64, j: u64|
        #[trigger] s2.nft_packs.contains_key(i) && #[trigger] s2.nft_packs.contains_key(j) && i
            != j implies s2.nft_packs[i].pack_name != s2.nft_packs[j].pack_name by {
        assert(s.nft_packs.contains_key(i));
        assert(s.nft_packs.contains_key(j));
    }
    assert forall|o: Seq<char>| #[trigger] s2.nft_balance_of(o) == s2.nft_owned_count(o) by {
        assert(s.nft_balance_of(o) == s.nft_owned_count(o));
    }
}

/// A state whose token-pack tables agree with a well-formed one satisfies
/// the token-pack invariant too.
pub proof fn lemma_token_inv_same(s: StateM, s2: StateM)
    requires
        s.token_inv(),
        s2.token_packs == s.token_packs,
        s2.token_pack_counter == s.token_pack_counter,
        s2.token_pack_name_exists == s.token_pack_name_exists,
        s2.token_pack_balances == s.token_pack_balances,
        s2.token_royalty_fees == s.token_royalty_fees,
    ensures
        s2.token_inv(),
{
    assert forall|id: u64| #[trigger] s2.token_packs.contains_key(id)
        implies s2.token_pack_row_ok(id) by {
        assert(s.token_packs.contains_key(id));
        assert(s.token_pack_row_ok(id));
        assert forall|k: int|
            0 <= k < s2.token_packs[id].royalty_owners.len()
                implies s2.token_royalty_fees.contains_key(
            (id, #[trigger] s2.token_packs[id].royalty_owners[k]),
        ) by {
            assert(s.token_royalty_fees.contains_key((id, s.token_packs[id].royalty_owners[k])));
        }
    }
    assert forall|n: Seq<char>| #[trigger] s2.token_pack_name_exists.contains(n)
        implies exists|id: u64| #[trigger]
        s2.token_packs.contains_key(id) && s2.token_packs[id].pack_name == n by {
        assert(s.token_pack_name_exists.contains(n));
        let id = choose|id: u64| #[trigger]
            s.token_packs.contains_key(id) && s.token_packs[id].pack_name == n;
        assert(s2.token_packs.contains_key(id));
    }
    assert forall|i: u64, j: u64|
        #[trigger] s2.token_packs.contains_key(i) && #[trigger] s2.token_packs.contains_key(j)
            && i != j implies s2.token_packs[i].pack_name != s2.token_packs[j].pack_name by {
        assert(s.token_packs.contains_key(i));
        assert(s.token_packs.contains_key(j));
    }
    assert forall|o: Seq<char>| #[trigger] s2.token_balance_of(o) == s2.token_owned_count(o) by {
        assert(s.token_balance_of(o) == s.token_owned_count(o));
    }
}

/// A state whose fee tables agree with a well-formed one satisfies the fee
/// invariant too.
pub proof fn lemma_fees_inv_same(s: StateM, s2: StateM)
    requires
        s.fees_inv(),
        s2.config == s.config,
        s2.royalty_fees == s.royalty_fees,
        s2.token_royalty_fees == s.token_royalty_fees,
    ensures
        s2.fees_inv(),
{
    assert forall|k: (u64, Seq<char>)| #[trigger] s2.royalty_fees.contains_key(k)
        implies s2.royalty_fees[k].wf() by {
        assert(s.royalty_fees.contains_key(k));
    }
    assert forall|k: (u64, Seq<char>)| #[trigger] s2.token_royalty_fees.contains_key(k)
        implies s2.token_royalty_fees[k].wf() by {
        assert(s.token_royalty_fees.contains_key(k));
    }
}

/// The owned-id sets are finite and no larger than the pack table.
pub proof fn lemma_owned_subset(m: Map<u64, Seq<char>>, o: Seq<char>)
    requires
        m.dom().finite(),
    ensures
        owned_ids(m, o).finite(),
        owned_ids(m, o).len() <= m.dom().len(),
{
    let f = |id: u64| m[id] == o;
    m.dom().lemma_len_filter(f);
    assert(owned_ids(m, o) =~= m.dom().filter(f));
}

/// Inserting a fresh id owned by `o` grows exactly `o`'s owned set.
pub proof fn lemma_owned_insert_fresh(m: Map<u64, Seq<char>>, id: u64, o: Seq<char>)
    requires
        !m.contains_key(id),
    ensures
        owned_ids(m.insert(id, o), o) == owned_ids(m, o).insert(id),
        forall|q: Seq<char>| q != o ==> owned_ids(m.insert(id, o), q) == owned_ids(m, q),
{
    assert(owned_ids(m.insert(id, o), o) =~= owned_ids(m, o).insert(id));
    assert forall|q: Seq<char>| q != o implies owned_ids(m.insert(id, o), q) == owned_ids(
        m,
        q,
    ) by {
        assert(owned_ids(m.insert(id, o), q) =~= owned_ids(m, q));
    }
}

/// Re-owning an existing id moves it between the two owned sets.
pub proof fn lemma_owned_update(m: Map<u64, Seq<char>>, id: u64, o2: Seq<char>)
    requires
        m.contains_key(id),
    ensures
        owned_ids(m.insert(id, o2), o2) == owned_ids(m, o2).insert(id),
        m[id] != o2 ==> owned_ids(m.insert(id, o2), m[id]) == owned_ids(m, m[id]).remove(id),
        forall|q: Seq<char>|
            q != o2 && q != m[id] ==> owned_ids(m.insert(id, o2), q) == owned_ids(m, q),
{
    assert(owned_ids(m.insert(id, o2), o2) =~= owned_ids(m, o2).insert(id));
    if m[id] != o2 {
        assert(owned_ids(m.insert(id, o2), m[id]) =~= owned_ids(m, m[id]).remove(id));
    }
    assert forall|q: Seq<char>| q != o2 && q != m[id] implies owned_ids(m.insert(id, o2), q)
        == owned_ids(m, q) by {
        assert(owned_ids(m.insert(id, o2), q) =~= owned_ids(m, q));
    }
}

/// Deleting an id shrinks exactly its owner's owned set.
pub proof fn lemma_owned_remove(m: Map<u64, Seq<char>>, id: u64)
    requires
        m.contains_key(id),
    ensures
        owned_ids(m.remove(id), m[id]) == owned_ids(m, m[id]).remove(id),
        forall|q: Seq<char>| q != m[id] ==> owned_ids(m.remove(id), q) == owned_ids(m, q),
{
    assert(owned_ids(m.remove(id), m[id]) =~= owned_ids(m, m[id]).remove(id));
    assert forall|q: Seq<char>| q != m[id] implies owned_ids(m.remove(id), q) == owned_ids(
        m,
        q,
    ) by {
        assert(owned_ids(m.remove(id), q) =~= owned_ids(m, q));
    }
}

/// Two different owners' owned sets are disjoint, so their sizes add up
/// within the table.
pub proof fn lemma_owned_two_disjoint(m: Map<u64, Seq<char>>, o1: Seq<char>, o2: Seq<char>)
    requires
        m.dom().finite(),
        o1 != o2,
    ensures
        owned_ids(m, o1).len() + owned_ids(m, o2).len() <= m.dom().len(),
{
    let s1 = owned_ids(m, o1);
    let s2 = owned_ids(m, o2);
    lemma_owned_subset(m, o1);
    lemma_owned_subset(m, o2);
    assert(s1.disjoint(s2));
    vstd::set_lib::lemma_set_disjoint_lens(s1, s2);
    vstd::set_lib::lemma_len_subset(s1 + s2, m.dom());
}

/// Projecting to the owner map commutes with inserting a row.
pub proof fn lemma_nft_owner_map_insert(m: Map<u64, NftPackM>, id: u64, p: NftPackM)
    ensures
        nft_owner_map(m.insert(id, p)) == nft_owner_map(m).insert(id, p.current_owner),
{
    assert(nft_owner_map(m.insert(id, p)) =~= nft_owner_map(m).insert(id, p.current_owner));
}

/// Projecting to the owner map commutes with deleting a row.
pub proof fn lemma_nft_owner_map_remove(m: Map<u64, NftPackM>, id: u64)
    ensures
        nft_owner_map(m.remove(id)) == nft_owner_map(m).remove(id),
{
    assert(nft_owner_map(m.remove(id)) =~= nft_owner_map(m).remove(id));
}

/// Projecting to the owner map commutes with inserting a row.
pub proof fn lemma_token_owner_map_insert(m: Map<u64, TokenPackM>, id: u64, p: TokenPackM)
    ensures
        token_owner_map(m.insert(id, p)) == token_owner_map(m).insert(id, p.current_owner),
{
    assert(token_owner_map(m.insert(id, p)) =~= token_owner_map(m).insert(id, p.current_owner));
}

/// Projecting to the owner map commutes with deleting a row.
pub proof fn lemma_token_owner_map_remove(m: Map<u64, TokenPackM>, id: u64)
    ensures
        token_owner_map(m.remove(id)) == token_owner_map(m).remove(id),
{
    assert(token_owner_map(m.remove(id)) =~= token_owner_map(m).remove(id));
}

impl Cw721Contract {
    /// Sets up the ledger: collection info, minter, the global fee
    /// configuration, and both pack-id counters at zero. Relies on the
    /// host to have validated the minter address.
    pub fn instantiate(msg: InstantiateMsg) -> (r: Self)
        ensures
            r.wf(),
            r@.inv(),
            r@.contract_info == (ContractInfoM { name: msg.name@, symbol: msg.symbol@ }),
            r@.minter == msg.minter@,
            r@.config == (ConfigM {
                collection_name: msg.name@,
                collection_name_symbol: msg.symbol@,
                max_packable_nft: 5000u64,
                max_pack_item_count: 10u64,
                max_royalyty_owner: 10u64,
                buy_sell_fee: Fraction { ppm: crate::types::PPM_DENOM },
                contract_owner: msg.minter@,
            }),
            r@.token_count == 0,
            r@.nft_pack_counter == 0,
            r@.token_pack_counter == 0,
            r@.operators == Map::<(Seq<char>, Seq<char>), Expiration>::empty(),
            r@.tokens == Map::<Seq<char>, TokenM>::empty(),
            r@.packable_nfts == Map::<Seq<char>, PackableM>::empty(),
            r@.token_uri_exists == Set::<Seq<char>>::empty(),
            r@.token_name_exists == Set::<Seq<char>>::empty(),
            r@.nft_packs == Map::<u64, NftPackM>::empty(),
            r@.pack_name_exists == Set::<Seq<char>>::empty(),
            r@.nft_pack_balances == Map::<Seq<char>, u64>::empty(),
            r@.royalty_fees == Map::<(u64, Seq<char>), Fraction>::empty(),
            r@.token_packs == Map::<u64, TokenPackM>::empty(),
            r@.token_pack_name_exists == Set::<Seq<char>>::empty(),
            r@.token_pack_balances == Map::<Seq<char>, u64>::empty(),
            r@.token_royalty_fees == Map::<(u64, Seq<char>), Fraction>::empty(),
    {
        let config = Config {
            collection_name: msg.name.clone(),
            collection_name_symbol: msg.symbol.clone(),
            max_packable_nft: 5000,
            max_pack_item_count: 10,
            max_royalyty_owner: 10,
            buy_sell_fee: Fraction::one(),
            contract_owner: msg.minter.clone(),
        };
        let r = Cw721Contract {
            contract_info: ContractInfo { name: msg.name, symbol: msg.symbol },
            minter: msg.minter,
            config,
            token_count: 0,
            operators: Table::new(),
            tokens: Table::new(),
            packable_nfts: Table::new(),
            token_uri_exists: Registry::new(),
            token_name_exists: Registry::new(),
            nft_pack_counter: 0,
            nft_packs: Table::new(),
            pack_name_exists: Registry::new(),
            nft_pack_balances: Table::new(),
            royalty_fees: Table::new(),
            token_pack_counter: 0,
            token_packs: Table::new(),
            token_pack_name_exists: Registry::new(),
            token_pack_balances: Table::new(),
            token_royalty_fees: Table::new(),
        };
        proof {
            assert(r@.nft_packs.dom() =~= Set::<u64>::empty());
            assert(r@.token_packs.dom() =~= Set::<u64>::empty());
            assert(r@.tokens.dom() =~= Set::<Seq<char>>::empty());
            assert(Set::<u64>::empty().len() == 0);
            assert(Set::<Seq<char>>::empty().len() == 0);
            assert forall|o: Seq<char>| #[trigger]
                r@.nft_balance_of(o) == r@.nft_owned_count(o) by {
                assert(owned_ids(nft_owner_map(r@.nft_packs), o) =~= Set::<u64>::empty());
            }
            assert forall|o: Seq<char>| #[trigger]
                r@.token_balance_of(o) == r@.token_owned_count(o) by {
                assert(owned_ids(token_owner_map(r@.token_packs), o) =~= Set::<u64>::empty());
            }
        }
        r
    }

    /// The number of live item records.
    pub fn token_count(&self) -> (r: u64)
        ensures
            r == self@.token_count,
    {
        self.token_count
    }

    /// Counts one more live item record. The count tracks the item table,
    /// which can never hold more rows than the counter type.
    pub fn increment_tokens(&mut self) -> (r: u64)
        requires
            old(self).token_count < u64::MAX,
        ensures
            r == old(self).token_count + 1,
            *final(self) == (Cw721Contract { token_count: r, ..*old(self) }),
    {
        self.token_count = self.token_count + 1;
        self.token_count
    }

    /// Counts one fewer live item record; only called after deleting one,
    /// so the count is positive.
    pub fn decrement_tokens(&mut self) -> (r: u64)
        requires
            old(self).token_count >= 1,
        ensures
            r == old(self).token_count - 1,
            *final(self) == (Cw721Contract { token_count: r, ..*old(self) }),
    {
        self.token_count = self.token_count - 1;
        self.token_count
    }
}

} // verus!
