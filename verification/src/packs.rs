//! The item-pack registry: packing, unpacking, approval and transfer.
//!
//! Packing validates every listed item against the pre-state before any
//! write begins, then moves the items under the pack-holding address,
//! allocates the next pack id, reserves the name, counts the packer's
//! balance up and seeds the royalty ledger. Unpacking is gated by the
//! caller's balance, ownership, and the caller's own royalty entry, and
//! undoes all of it except the royalty entries, which pack ids never being
//! reused keeps harmless. Approvals accumulate (duplicates are permitted)
//! and are cleared by every successful transfer, so an approval is spent by
//! the transfer it admits.

use vstd::prelude::*;

use crate::items::lemma_packable_side_same;
use crate::state::{
    lemma_fees_inv_same, lemma_item_inv_same, lemma_nft_owner_map_insert,
    lemma_nft_owner_map_remove, lemma_owned_insert_fresh, lemma_owned_remove, lemma_owned_subset,
    lemma_owned_two_disjoint, lemma_owned_update, lemma_token_inv_same, nft_owner_map, owned_ids,
    stored_balance, Cw721Contract, StateM,
};
use crate::types::{ContractError, Env, EnvM, Fraction, MessageInfo, NftPack, NftPackM, TokenM};

verus! {

/// Items moved under a new owner with their approvals cleared: the common
/// effect of packing (owner: the pack-holding address) and unpacking
/// (owner: the caller).
pub open spec fn park_items(
    tokens: Map<Seq<char>, TokenM>,
    ids: Seq<Seq<char>>,
    new_owner: Seq<char>,
) -> Map<Seq<char>, TokenM>
    decreases ids.len(),
{
    if ids.len() == 0 {
        tokens
    } else {
        park_items(tokens, ids.drop_last(), new_owner).insert(
            ids.last(),
            TokenM {
                owner: new_owner,
                approvals: Seq::empty(),
                token_uri: tokens[ids.last()].token_uri,
            },
        )
    }
}

/// What parking does: the table keeps its keys, every listed item is owned
/// by `new_owner` with no approvals and its uri kept, and every other item
/// is untouched.
pub proof fn lemma_park_items(tokens: Map<Seq<char>, TokenM>, ids: Seq<Seq<char>>, o: Seq<char>)
    requires
        forall|j: int| 0 <= j < ids.len() ==> tokens.contains_key(#[trigger] ids[j]),
    ensures
        park_items(tokens, ids, o).dom() == tokens.dom(),
        forall|tid: Seq<char>|
            tokens.contains_key(tid) && !ids.contains(tid) ==> park_items(tokens, ids, o)[tid]
                == tokens[tid],
        forall|j: int|
            0 <= j < ids.len() ==> park_items(tokens, ids, o)[#[trigger] ids[j]] == (TokenM {
                owner: o,
                approvals: Seq::empty(),
                token_uri: tokens[ids[j]].token_uri,
            }),
    decreases ids.len(),
{
    if ids.len() > 0 {
        assert forall|j: int| 0 <= j < ids.drop_last().len() implies tokens.contains_key(
            #[trigger] ids.drop_last()[j],
        ) by {
            assert(ids.drop_last()[j] == ids[j]);
        }
        lemma_park_items(tokens, ids.drop_last(), o);
        assert(park_items(tokens, ids, o).dom() =~= tokens.dom());
        assert forall|tid: Seq<char>|
            tokens.contains_key(tid) && !ids.contains(tid) implies park_items(tokens, ids, o)[tid]
            == tokens[tid] by {
            assert(tid != ids.last());
            assert(!ids.drop_last().contains(tid)) by {
                if ids.drop_last().contains(tid) {
                    let j = choose|j: int|
                        0 <= j < ids.drop_last().len() && ids.drop_last()[j] == tid;
                    assert(ids[j] == tid);
                }
            }
        }
        assert forall|j: int| 0 <= j < ids.len() implies park_items(tokens, ids, o)[
            #[trigger] ids[j]
        ] == (TokenM {
            owner: o,
            approvals: Seq::empty(),
            token_uri: tokens[ids[j]].token_uri,
        }) by {
            if ids[j] != ids.last() {
                assert(j < ids.len() - 1);
                assert(ids.drop_last()[j] == ids[j]);
            }
        }
    }
}

impl StateM {
    /// The per-item precondition of packing, checked against the pre-state:
    /// the item exists, the caller may send it, and its packable row exists
    /// and records the caller as current owner.
    pub open spec fn pack_item_check(self, env: EnvM, sender: Seq<char>, tid: Seq<char>) -> Option<
        ContractError,
    > {
        if !self.tokens.contains_key(tid) {
            Some(ContractError::NotFound)
        } else if !self.can_send(env, sender, self.tokens[tid]) {
            Some(ContractError::Unauthorized)
        } else if !self.packable_nfts.contains_key(tid) {
            Some(ContractError::NotFound)
        } else if self.packable_nfts[tid].current_owner != sender {
            Some(ContractError::NotNftOwner)
        } else {
            None
        }
    }

    /// The first failing item's error, in list order.
    pub open spec fn pack_items_error(self, env: EnvM, sender: Seq<char>, ids: Seq<Seq<char>>)
        -> Option<ContractError>
        decreases ids.len(),
    {
        if ids.len() == 0 {
            None
        } else if self.pack_item_check(env, sender, ids.first()) is Some {
            self.pack_item_check(env, sender, ids.first())
        } else {
            self.pack_items_error(env, sender, ids.drop_first())
        }
    }

    /// The per-item precondition of unpacking: the item exists and is still
    /// held by the pack-holding address.
    pub open spec fn unpack_item_check(self, env: EnvM, tid: Seq<char>) -> Option<ContractError> {
        if !self.tokens.contains_key(tid) {
            Some(ContractError::NotFound)
        } else if self.tokens[tid].owner != env.contract_address {
            Some(ContractError::InvalidNftOwner)
        } else {
            None
        }
    }

    /// The first failing item's error, in composition order.
    pub open spec fn unpack_items_error(self, env: EnvM, ids: Seq<Seq<char>>) -> Option<
        ContractError,
    >
        decreases ids.len(),
    {
        if ids.len() == 0 {
            None
        } else if self.unpack_item_check(env, ids.first()) is Some {
            self.unpack_item_check(env, ids.first())
        } else {
            self.unpack_items_error(env, ids.drop_first())
        }
    }

    /// The pack row `pack_nfts` creates.
    pub open spec fn new_nft_pack(
        self,
        sender: Seq<char>,
        ids: Seq<Seq<char>>,
        pack_name: Seq<char>,
        price: u64,
    ) -> NftPackM {
        NftPackM {
            pack_id: (self.nft_pack_counter + 1) as u64,
            pack_name: pack_name,
            item_count: ids.len() as usize,
            pack_items: ids,
            minted_by: sender,
            current_owner: sender,
            previous_owner: None,
            current_price: price,
            previous_price: 0,
            number_of_transfers: 0,
            for_sale: true,
            royalty_owners: seq![sender],
            approvals: Seq::empty(),
        }
    }

    /// Transition of packing: on success the new pack id is the old counter
    /// plus one, every listed item is parked under the pack-holding
    /// address, the name is reserved, the packer's balance counts up, and
    /// the packer's royalty entry is seeded.
    pub open spec fn pack_nfts_spec(
        self,
        env: EnvM,
        sender: Seq<char>,
        ids: Seq<Seq<char>>,
        pack_name: Seq<char>,
        price: u64,
        royalty_fee: Fraction,
    ) -> Result<(StateM, u64), ContractError> {
        if self.pack_name_exists.contains(pack_name) {
            Err(ContractError::ExistPackName)
        } else if self.pack_items_error(env, sender, ids) is Some {
            Err(self.pack_items_error(env, sender, ids)->Some_0)
        } else {
            let id = (self.nft_pack_counter + 1) as u64;
            Ok(
                (
                    StateM {
                        tokens: park_items(self.tokens, ids, env.contract_address),
                        nft_pack_counter: id,
                        nft_packs: self.nft_packs.insert(
                            id,
                            self.new_nft_pack(sender, ids, pack_name, price),
                        ),
                        pack_name_exists: self.pack_name_exists.insert(pack_name),
                        nft_pack_balances: self.nft_pack_balances.insert(
                            sender,
                            (self.nft_balance_of(sender) + 1) as u64,
                        ),
                        royalty_fees: self.royalty_fees.insert((id, sender), royalty_fee),
                        ..self
                    },
                    id,
                ),
            )
        }
    }

    /// Transition of unpacking: gated in order by the caller's balance, the
    /// pack's existence, its ownership, and the caller's own royalty entry;
    /// on success every composed item is handed back to the caller, the
    /// name reservation is freed, the balance counts down and the row is
    /// deleted. Royalty entries stay; the pack id is never reused.
    pub open spec fn unpack_nfts_spec(self, env: EnvM, sender: Seq<char>, pack_id: u64) -> Result<
        StateM,
        ContractError,
    > {
        if self.nft_balance_of(sender) < 1 {
            Err(ContractError::NoNftBalance)
        } else if !self.nft_packs.contains_key(pack_id) {
            Err(ContractError::NotFound)
        } else if self.nft_packs[pack_id].current_owner != sender {
            Err(ContractError::NotNftOwner)
        } else if !self.royalty_fees.contains_key((pack_id, sender)) {
            Err(ContractError::NoNftPackRoyalty)
        } else if self.unpack_items_error(env, self.nft_packs[pack_id].pack_items) is Some {
            Err(self.unpack_items_error(env, self.nft_packs[pack_id].pack_items)->Some_0)
        } else {
            Ok(
                StateM {
                    tokens: park_items(self.tokens, self.nft_packs[pack_id].pack_items, sender),
                    pack_name_exists: self.pack_name_exists.remove(
                        self.nft_packs[pack_id].pack_name,
                    ),
                    nft_pack_balances: self.nft_pack_balances.insert(
                        sender,
                        (self.nft_balance_of(sender) - 1) as u64,
                    ),
                    nft_packs: self.nft_packs.remove(pack_id),
                    ..self
                },
            )
        }
    }

    /// Transition of approving: only the current owner may; the approval is
    /// appended, and duplicates are permitted.
    pub open spec fn approve_nft_pack_spec(self, sender: Seq<char>, to: Seq<char>, pack_id: u64)
        -> Result<StateM, ContractError> {
        if !self.nft_packs.contains_key(pack_id) {
            Err(ContractError::NotFound)
        } else if self.nft_packs[pack_id].current_owner != sender {
            Err(ContractError::NotNftOwner)
        } else {
            let p = self.nft_packs[pack_id];
            Ok(
                StateM {
                    nft_packs: self.nft_packs.insert(
                        pack_id,
                        NftPackM { approvals: p.approvals.push(to), ..p },
                    ),
                    ..self
                },
            )
        }
    }

    /// Transition of transferring: the row must record `from` as current
    /// owner and the caller must hold an approval; a balance that would go
    /// below zero fails the whole operation. On success ownership, price
    /// history and the transfer count move, both balances adjust, and the
    /// approval set is cleared.
    pub open spec fn transfer_nft_pack_spec(
        self,
        sender: Seq<char>,
        from: Seq<char>,
        to: Seq<char>,
        pack_id: u64,
    ) -> Result<StateM, ContractError> {
        if !self.nft_packs.contains_key(pack_id) {
            Err(ContractError::NotFound)
        } else if self.nft_packs[pack_id].current_owner != from {
            Err(ContractError::NotNftOwner)
        } else if !(self.nft_packs[pack_id].approvals.len() > 0
            && self.nft_packs[pack_id].approvals.contains(sender)) {
            Err(ContractError::NotNftApproved)
        } else if self.nft_balance_of(from) < 1 {
            Err(ContractError::NoNftBalance)
        } else {
            let p = self.nft_packs[pack_id];
            let p2 = NftPackM {
                previous_owner: Some(from),
                current_owner: to,
                previous_price: p.current_price,
                number_of_transfers: (p.number_of_transfers + 1) as u64,
                approvals: Seq::empty(),
                ..p
            };
            let b1 = self.nft_pack_balances.insert(from, (self.nft_balance_of(from) - 1) as u64);
            let b2 = b1.insert(to, (stored_balance(b1, to) + 1) as u64);
            Ok(
                StateM {
                    nft_packs: self.nft_packs.insert(pack_id, p2),
                    nft_pack_balances: b2,
                    ..self
                },
            )
        }
    }
}

/// A run of passing items yields no error.
pub proof fn lemma_pack_items_error_none(
    s: StateM,
    env: EnvM,
    sender: Seq<char>,
    ids: Seq<Seq<char>>,
)
    requires
        forall|j: int| 0 <= j < ids.len() ==> s.pack_item_check(env, sender, #[trigger] ids[j])
            is None,
    ensures
        s.pack_items_error(env, sender, ids) is None,
    decreases ids.len(),
{
    if ids.len() > 0 {
        assert(ids.first() == ids[0]);
        assert forall|j: int| 0 <= j < ids.drop_first().len() implies s.pack_item_check(
            env,
            sender,
            #[trigger] ids.drop_first()[j],
        ) is None by {
            assert(ids.drop_first()[j] == ids[j + 1]);
        }
        lemma_pack_items_error_none(s, env, sender, ids.drop_first());
    }
}

/// The failing item first in list order decides the error.
pub proof fn lemma_pack_items_error_at(
    s: StateM,
    env: EnvM,
    sender: Seq<char>,
    ids: Seq<Seq<char>>,
    i: int,
)
    requires
        0 <= i < ids.len(),
        forall|j: int| 0 <= j < i ==> s.pack_item_check(env, sender, #[trigger] ids[j]) is None,
        s.pack_item_check(env, sender, ids[i]) is Some,
    ensures
        s.pack_items_error(env, sender, ids) == s.pack_item_check(env, sender, ids[i]),
    decreases i,
{
    assert(ids.first() == ids[0]);
    if i > 0 {
        assert forall|j: int| 0 <= j < i - 1 implies s.pack_item_check(
            env,
            sender,
            #[trigger] ids.drop_first()[j],
        ) is None by {
            assert(ids.drop_first()[j] == ids[j + 1]);
        }
        assert(ids.drop_first()[i - 1] == ids[i]);
        lemma_pack_items_error_at(s, env, sender, ids.drop_first(), i - 1);
    }
}

/// A run of passing items yields no error.
pub proof fn lemma_unpack_items_error_none(s: StateM, env: EnvM, ids: Seq<Seq<char>>)
    requires
        forall|j: int| 0 <= j < ids.len() ==> s.unpack_item_check(env, #[trigger] ids[j]) is None,
    ensures
        s.unpack_items_error(env, ids) is None,
    decreases ids.len(),
{
    if ids.len() > 0 {
        assert(ids.first() == ids[0]);
        assert forall|j: int| 0 <= j < ids.drop_first().len() implies s.unpack_item_check(
            env,
            #[trigger] ids.drop_first()[j],
        ) is None by {
            assert(ids.drop_first()[j] == ids[j + 1]);
        }
        lemma_unpack_items_error_none(s, env, ids.drop_first());
    }
}

/// The failing item first in composition order decides the error.
pub proof fn lemma_unpack_items_error_at(s: StateM, env: EnvM, ids: Seq<Seq<char>>, i: int)
    requires
        0 <= i < ids.len(),
        forall|j: int| 0 <= j < i ==> s.unpack_item_check(env, #[trigger] ids[j]) is None,
        s.unpack_item_check(env, ids[i]) is Some,
    ensures
        s.unpack_items_error(env, ids) == s.unpack_item_check(env, ids[i]),
    decreases i,
{
    assert(ids.first() == ids[0]);
    if i > 0 {
        assert forall|j: int| 0 <= j < i - 1 implies s.unpack_item_check(
            env,
            #[trigger] ids.drop_first()[j],
        ) is None by {
            assert(ids.drop_first()[j] == ids[j + 1]);
        }
        assert(ids.drop_first()[i - 1] == ids[i]);
        lemma_unpack_items_error_at(s, env, ids.drop_first(), i - 1);
    }
}

/// All items of a passing pack exist in the item table.
pub proof fn lemma_pack_items_all_exist(
    s: StateM,
    env: EnvM,
    sender: Seq<char>,
    ids: Seq<Seq<char>>,
)
    requires
        s.pack_items_error(env, sender, ids) is None,
    ensures
        forall|j: int| 0 <= j < ids.len() ==> s.tokens.contains_key(#[trigger] ids[j]),
        forall|j: int| 0 <= j < ids.len() ==> s.pack_item_check(env, sender, #[trigger] ids[j])
            is None,
    decreases ids.len(),
{
    if ids.len() > 0 {
        lemma_pack_items_all_exist(s, env, sender, ids.drop_first());
        assert forall|j: int| 0 <= j < ids.len() implies s.pack_item_check(
            env,
            sender,
            #[trigger] ids[j],
        ) is None by {
            if j == 0 {
                assert(ids.first() == ids[0]);
            } else {
                assert(ids.drop_first()[j - 1] == ids[j]);
            }
        }
    }
}

/// All items of a passing unpack exist in the item table.
pub proof fn lemma_unpack_items_all_exist(s: StateM, env: EnvM, ids: Seq<Seq<char>>)
    requires
        s.unpack_items_error(env, ids) is None,
    ensures
        forall|j: int| 0 <= j < ids.len() ==> s.tokens.contains_key(#[trigger] ids[j]),
        forall|j: int| 0 <= j < ids.len() ==> s.unpack_item_check(env, #[trigger] ids[j]) is None,
    decreases ids.len(),
{
    if ids.len() > 0 {
        lemma_unpack_items_all_exist(s, env, ids.drop_first());
        assert forall|j: int| 0 <= j < ids.len() implies s.unpack_item_check(
            env,
            #[trigger] ids[j],
        ) is None by {
            if j == 0 {
                assert(ids.first() == ids[0]);
            } else {
                assert(ids.drop_first()[j - 1] == ids[j]);
            }
        }
    }
}

/// Packing keeps the invariant.
pub proof fn lemma_pack_nfts_preserves_inv(
    s: StateM,
    env: EnvM,
    sender: Seq<char>,
    ids: Seq<Seq<char>>,
    pack_name: Seq<char>,
    price: u64,
    royalty_fee: Fraction,
)
    requires
        s.inv(),
        royalty_fee.wf(),
        s.nft_pack_counter < u64::MAX,
    ensures
        s.pack_nfts_spec(env, sender, ids, pack_name, price, royalty_fee) is Ok
            ==> s.pack_nfts_spec(env, sender, ids, pack_name, price, royalty_fee)->Ok_0.0.inv(),
{
    if s.pack_nfts_spec(env, sender, ids, pack_name, price, royalty_fee) is Ok {
        let s2 = s.pack_nfts_spec(env, sender, ids, pack_name, price, royalty_fee)->Ok_0.0;
        let id = (s.nft_pack_counter + 1) as u64;
        lemma_pack_items_all_exist(s, env, sender, ids);
        lemma_park_items(s.tokens, ids, env.contract_address);
        assert(!s.nft_packs.contains_key(id));
        // item ledger: same domain, same side index and registries
        assert(s2.tokens.dom() =~= s.tokens.dom());
        lemma_packable_side_same(s, s2);
        // pack rows
        assert forall|pid: u64| #[trigger] s2.nft_packs.contains_key(pid)
            implies s2.nft_pack_row_ok(pid) by {
            if pid == id {
                assert(s2.nft_packs[id].royalty_owners =~= seq![sender]);
                assert(s2.royalty_fees.contains_key((id, sender)));
            } else {
                assert(s.nft_packs.contains_key(pid));
                assert(s.nft_pack_row_ok(pid));
                assert forall|k: int|
                    0 <= k < s2.nft_packs[pid].royalty_owners.len()
                        implies s2.royalty_fees.contains_key(
                    (pid, #[trigger] s2.nft_packs[pid].royalty_owners[k]),
                ) by {
                    assert(s.royalty_fees.contains_key((pid, s.nft_packs[pid].royalty_owners[k])));
                }
            }
        }
        // names are reserved iff a live pack bears them
        assert forall|n: Seq<char>| #[trigger] s2.pack_name_exists.contains(n)
            implies exists|pid: u64| #[trigger]
            s2.nft_packs.contains_key(pid) && s2.nft_packs[pid].pack_name == n by {
            if n == pack_name {
                assert(s2.nft_packs.contains_key(id));
            } else {
                assert(s.pack_name_exists.contains(n));
                let pid = choose|pid: u64| #[trigger]
                    s.nft_packs.contains_key(pid) && s.nft_packs[pid].pack_name == n;
                assert(s2.nft_packs.contains_key(pid));
            }
        }
        // name uniqueness: the new name was unreserved, so no old row bears it
        assert forall|i: u64, j: u64|
            #[trigger] s2.nft_packs.contains_key(i) && #[trigger] s2.nft_packs.contains_key(j) && i
                != j implies s2.nft_packs[i].pack_name != s2.nft_packs[j].pack_name by {
            if i != id && j != id {
                assert(s.nft_packs.contains_key(i));
                assert(s.nft_packs.contains_key(j));
            } else if i == id {
                assert(s.nft_packs.contains_key(j));
                assert(s.nft_pack_row_ok(j));
            } else {
                assert(s.nft_packs.contains_key(i));
                assert(s.nft_pack_row_ok(i));
            }
        }
        // domain growth
        assert(s2.nft_packs.dom() =~= s.nft_packs.dom().insert(id));
        vstd::set::axiom_set_insert_len(s.nft_packs.dom(), id);
        // balances
        lemma_nft_owner_map_insert(s.nft_packs, id, s.new_nft_pack(sender, ids, pack_name, price));
        assert(nft_owner_map(s.nft_packs).dom() =~= s.nft_packs.dom());
        assert(!nft_owner_map(s.nft_packs).contains_key(id));
        lemma_owned_insert_fresh(nft_owner_map(s.nft_packs), id, sender);
        lemma_owned_subset(nft_owner_map(s.nft_packs), sender);
        assert forall|o: Seq<char>| #[trigger] s2.nft_balance_of(o) == s2.nft_owned_count(o) by {
            assert(s.nft_balance_of(o) == s.nft_owned_count(o));
            if o == sender {
                vstd::set::axiom_set_insert_len(owned_ids(nft_owner_map(s.nft_packs), sender), id);
            }
        }
        // untouched ledgers
        lemma_token_inv_same(s, s2);
        assert forall|k: (u64, Seq<char>)| #[trigger] s2.royalty_fees.contains_key(k)
            implies s2.royalty_fees[k].wf() by {
            if k != (id, sender) {
                assert(s.royalty_fees.contains_key(k));
            }
        }
        assert forall|k: (u64, Seq<char>)| #[trigger] s2.token_royalty_fees.contains_key(k)
            implies s2.token_royalty_fees[k].wf() by {
            assert(s.token_royalty_fees.contains_key(k));
        }
    }
}

/// Unpacking keeps the invariant.
pub proof fn lemma_unpack_nfts_preserves_inv(
    s: StateM,
    env: EnvM,
    sender: Seq<char>,
    pack_id: u64,
)
    requires
        s.inv(),
    ensures
        s.unpack_nfts_spec(env, sender, pack_id) is Ok ==> s.unpack_nfts_spec(
            env,
            sender,
            pack_id,
        )->Ok_0.inv(),
{
    if s.unpack_nfts_spec(env, sender, pack_id) is Ok {
        let s2 = s.unpack_nfts_spec(env, sender, pack_id)->Ok_0;
        let p = s.nft_packs[pack_id];
        lemma_unpack_items_all_exist(s, env, p.pack_items);
        lemma_park_items(s.tokens, p.pack_items, sender);
        // item ledger: same domain, same side index and registries
        assert(s2.tokens.dom() =~= s.tokens.dom());
        lemma_packable_side_same(s, s2);
        // pack rows: the deleted row's name binds no other row
        assert forall|pid: u64| #[trigger] s2.nft_packs.contains_key(pid)
            implies s2.nft_pack_row_ok(pid) by {
            assert(s.nft_packs.contains_key(pid));
            assert(s.nft_pack_row_ok(pid));
            assert(pid != pack_id);
            assert(s.nft_packs[pid].pack_name != p.pack_name);
            assert forall|k: int|
                0 <= k < s2.nft_packs[pid].royalty_owners.len()
                    implies s2.royalty_fees.contains_key(
                (pid, #[trigger] s2.nft_packs[pid].royalty_owners[k]),
            ) by {
                assert(s.royalty_fees.contains_key((pid, s.nft_packs[pid].royalty_owners[k])));
            }
        }
        assert forall|n: Seq<char>| #[trigger] s2.pack_name_exists.contains(n)
            implies exists|pid: u64| #[trigger]
            s2.nft_packs.contains_key(pid) && s2.nft_packs[pid].pack_name == n by {
            assert(s.pack_name_exists.contains(n));
            let pid = choose|pid: u64| #[trigger]
                s.nft_packs.contains_key(pid) && s.nft_packs[pid].pack_name == n;
            assert(pid != pack_id);
            assert(s2.nft_packs.contains_key(pid));
        }
        assert forall|i: u64, j: u64|
            #[trigger] s2.nft_packs.contains_key(i) && #[trigger] s2.nft_packs.contains_key(j) && i
                != j implies s2.nft_packs[i].pack_name != s2.nft_packs[j].pack_name by {
            assert(s.nft_packs.contains_key(i));
            assert(s.nft_packs.contains_key(j));
        }
        assert(s2.nft_packs.dom() =~= s.nft_packs.dom().remove(pack_id));
        vstd::set::axiom_set_remove_len(s.nft_packs.dom(), pack_id);
        // balances
        lemma_nft_owner_map_remove(s.nft_packs, pack_id);
        assert(nft_owner_map(s.nft_packs).dom() =~= s.nft_packs.dom());
        assert(nft_owner_map(s.nft_packs)[pack_id] == sender);
        lemma_owned_remove(nft_owner_map(s.nft_packs), pack_id);
        lemma_owned_subset(nft_owner_map(s.nft_packs), sender);
        assert forall|o: Seq<char>| #[trigger] s2.nft_balance_of(o) == s2.nft_owned_count(o) by {
            assert(s.nft_balance_of(o) == s.nft_owned_count(o));
            if o == sender {
                assert(owned_ids(nft_owner_map(s.nft_packs), sender).contains(pack_id));
                vstd::set::axiom_set_remove_len(
                    owned_ids(nft_owner_map(s.nft_packs), sender),
                    pack_id,
                );
            }
        }
        lemma_token_inv_same(s, s2);
        lemma_fees_inv_same(s, s2);
    }
}

/// Approving keeps the invariant: only the approval list changes.
pub proof fn lemma_approve_nft_pack_preserves_inv(
    s: StateM,
    sender: Seq<char>,
    to: Seq<char>,
    pack_id: u64,
)
    requires
        s.inv(),
    ensures
        s.approve_nft_pack_spec(sender, to, pack_id) is Ok ==> s.approve_nft_pack_spec(
            sender,
            to,
            pack_id,
        )->Ok_0.inv(),
{
    if s.approve_nft_pack_spec(sender, to, pack_id) is Ok {
        let s2 = s.approve_nft_pack_spec(sender, to, pack_id)->Ok_0;
        let p = s.nft_packs[pack_id];
        let p2 = NftPackM { approvals: p.approvals.push(to), ..p };
        lemma_item_inv_same(s, s2);
        assert forall|pid: u64| #[trigger] s2.nft_packs.contains_key(pid)
            implies s2.nft_pack_row_ok(pid) by {
            assert(s.nft_packs.contains_key(pid));
            assert(s.nft_pack_row_ok(pid));
            assert forall|k: int|
                0 <= k < s2.nft_packs[pid].royalty_owners.len()
                    implies s2.royalty_fees.contains_key(
                (pid, #[trigger] s2.nft_packs[pid].royalty_owners[k]),
            ) by {
                assert(s.royalty_fees.contains_key((pid, s.nft_packs[pid].royalty_owners[k])));
            }
        }
        assert forall|n: Seq<char>| #[trigger] s2.pack_name_exists.contains(n)
            implies exists|pid: u64| #[trigger]
            s2.nft_packs.contains_key(pid) && s2.nft_packs[pid].pack_name == n by {
            let pid = choose|pid: u64| #[trigger]
                s.nft_packs.contains_key(pid) && s.nft_packs[pid].pack_name == n;
            assert(s2.nft_packs.contains_key(pid));
            assert(s2.nft_packs[pid].pack_name == n);
        }
        assert forall|i: u64, j: u64|
            #[trigger] s2.nft_packs.contains_key(i) && #[trigger] s2.nft_packs.contains_key(j) && i
                != j implies s2.nft_packs[i].pack_name != s2.nft_packs[j].pack_name by {
            assert(s.nft_packs.contains_key(i));
            assert(s.nft_packs.contains_key(j));
        }
        assert(s2.nft_packs.dom() =~= s.nft_packs.dom());
        // ownership is untouched, so every count stays
        lemma_nft_owner_map_insert(s.nft_packs, pack_id, p2);
        assert(nft_owner_map(s.nft_packs).insert(pack_id, p2.current_owner) =~= nft_owner_map(
            s.nft_packs,
        ));
        assert forall|o: Seq<char>| #[trigger] s2.nft_balance_of(o) == s2.nft_owned_count(o) by {
            assert(s.nft_balance_of(o) == s.nft_owned_count(o));
        }
        lemma_token_inv_same(s, s2);
        lemma_fees_inv_same(s, s2);
    }
}

/// Transferring keeps the invariant: the pack moves between the two owned
/// sets and both balance counters move with it.
pub proof fn lemma_transfer_nft_pack_preserves_inv(
    s: StateM,
    sender: Seq<char>,
    from: Seq<char>,
    to: Seq<char>,
    pack_id: u64,
)
    requires
        s.inv(),
    ensures
        s.transfer_nft_pack_spec(sender, from, to, pack_id) is Ok ==> s.transfer_nft_pack_spec(
            sender,
            from,
            to,
            pack_id,
        )->Ok_0.inv(),
{
    if s.transfer_nft_pack_spec(sender, from, to, pack_id) is Ok {
        let s2 = s.transfer_nft_pack_spec(sender, from, to, pack_id)->Ok_0;
        let p = s.nft_packs[pack_id];
        let p2 = NftPackM {
            previous_owner: Some(from),
            current_owner: to,
            previous_price: p.current_price,
            number_of_transfers: (p.number_of_transfers + 1) as u64,
            approvals: Seq::empty(),
            ..p
        };
        lemma_item_inv_same(s, s2);
        assert forall|pid: u64| #[trigger] s2.nft_packs.contains_key(pid)
            implies s2.nft_pack_row_ok(pid) by {
            assert(s.nft_packs.contains_key(pid));
            assert(s.nft_pack_row_ok(pid));
            assert forall|k: int|
                0 <= k < s2.nft_packs[pid].royalty_owners.len()
                    implies s2.royalty_fees.contains_key(
                (pid, #[trigger] s2.nft_packs[pid].royalty_owners[k]),
            ) by {
                assert(s.royalty_fees.contains_key((pid, s.nft_packs[pid].royalty_owners[k])));
            }
        }
        assert forall|n: Seq<char>| #[trigger] s2.pack_name_exists.contains(n)
            implies exists|pid: u64| #[trigger]
            s2.nft_packs.contains_key(pid) && s2.nft_packs[pid].pack_name == n by {
            let pid = choose|pid: u64| #[trigger]
                s.nft_packs.contains_key(pid) && s.nft_packs[pid].pack_name == n;
            assert(s2.nft_packs.contains_key(pid));
            assert(s2.nft_packs[pid].pack_name == n);
        }
        assert forall|i: u64, j: u64|
            #[trigger] s2.nft_packs.contains_key(i) && #[trigger] s2.nft_packs.contains_key(j) && i
                != j implies s2.nft_packs[i].pack_name != s2.nft_packs[j].pack_name by {
            assert(s.nft_packs.contains_key(i));
            assert(s.nft_packs.contains_key(j));
        }
        assert(s2.nft_packs.dom() =~= s.nft_packs.dom());
        // balances: the pack moves from `from`'s owned set to `to`'s
        let om = nft_owner_map(s.nft_packs);
        lemma_nft_owner_map_insert(s.nft_packs, pack_id, p2);
        assert(om.dom() =~= s.nft_packs.dom());
        assert(om[pack_id] == from);
        lemma_owned_update(om, pack_id, to);
        lemma_owned_subset(om, from);
        lemma_owned_subset(om, to);
        let b1 = s.nft_pack_balances.insert(from, (s.nft_balance_of(from) - 1) as u64);
        if from != to {
            lemma_owned_two_disjoint(om, from, to);
        }
        assert forall|o: Seq<char>| #[trigger] s2.nft_balance_of(o) == s2.nft_owned_count(o) by {
            assert(s.nft_balance_of(o) == s.nft_owned_count(o));
            assert(s.nft_balance_of(from) == s.nft_owned_count(from));
            assert(owned_ids(om, from).contains(pack_id));
            if from == to {
                if o == from {
                    vstd::set::axiom_set_insert_len(owned_ids(om, to), pack_id);
                    assert(owned_ids(om.insert(pack_id, to), o) =~= owned_ids(om, o));
                }
            } else {
                if o == from {
                    vstd::set::axiom_set_remove_len(owned_ids(om, from), pack_id);
                } else if o == to {
                    assert(s.nft_balance_of(to) == s.nft_owned_count(to));
                    assert(owned_ids(om, from).len() + owned_ids(om, to).len()
                        <= s.nft_packs.dom().len());
                    assert(owned_ids(om, to).len() + 1 <= u64::MAX);
                    assert(!owned_ids(om, to).contains(pack_id));
                    vstd::set::axiom_set_insert_len(owned_ids(om, to), pack_id);
                }
            }
        }
        lemma_token_inv_same(s, s2);
        lemma_fees_inv_same(s, s2);
    }
}

/// The balance counter about to be counted up stays below the counter
/// type's ceiling, because every owner's count is bounded by the number of
/// live packs.
pub proof fn lemma_nft_balance_headroom(s: StateM, o: Seq<char>)
    requires
        s.nft_inv(),
    ensures
        s.nft_balance_of(o) <= s.nft_packs.dom().len(),
        s.nft_balance_of(o) <= s.nft_pack_counter,
{
    assert(nft_owner_map(s.nft_packs).dom() =~= s.nft_packs.dom());
    lemma_owned_subset(nft_owner_map(s.nft_packs), o);
}

/// Whether `v` holds an entry equal to `x`.
pub fn contains_addr(v: &Vec<String>, x: &String) -> (r: bool)
    ensures
        r == v.deep_view().contains(x@),
{
    let n = v.len();
    let mut i: usize = 0;
    while i < n
        invariant
            n == v@.len(),
            i <= n,
            forall|j: int| 0 <= j < i ==> v.deep_view()[j] != x@,
        decreases n - i,
    {
        if v[i] == *x {
            proof {
                assert(v.deep_view()[i as int] == x@);
            }
            return true;
        }
        i = i + 1;
    }
    proof {
        if v.deep_view().contains(x@) {
            let j = choose|j: int| 0 <= j < v.deep_view().len() && v.deep_view()[j] == x@;
            assert(v.deep_view()[j] != x@);
        }
    }
    false
}

impl Cw721Contract {
    /// Groups the listed items into a new pack. Every item is validated
    /// against the pre-state before any write begins: the caller must be
    /// able to send it and its packable row must record the caller as
    /// owner. On success the returned pack id is the old counter plus one,
    /// so it is strictly greater than every id issued before, and the
    /// caller's balance counter grows by exactly one.
    #[verifier::loop_isolation(false)]
    pub fn pack_nfts(&mut self, env: &Env, info: &MessageInfo, token_ids: Vec<String>, pack_name:
        String, price: u64, royalty_fee: Fraction) -> (r: Result<u64, ContractError>)
        requires
            old(self).wf(),
            old(self)@.inv(),
            old(self)@.nft_pack_counter < u64::MAX,
            royalty_fee.wf(),
        ensures
            final(self).wf(),
            final(self)@.inv(),
            (match old(self)@.pack_nfts_spec(
                env.deep_view(),
                info.sender@,
                token_ids.deep_view(),
                pack_name@,
                price,
                royalty_fee,
            ) {
                Ok((s2, id)) => r == Ok::<u64, ContractError>(id) && final(self)@ == s2,
                Err(e) => r == Err::<u64, ContractError>(e) && final(self)@ == old(self)@,
            }),
            r is Ok ==> forall|i: u64|
                old(self)@.nft_packs.contains_key(i) ==> i < r->Ok_0,
            r is Ok ==> final(self)@.nft_balance_of(info.sender@) == old(self)@.nft_balance_of(
                info.sender@,
            ) + 1,
    {
        let ghost ed = env.deep_view();
        let ghost sd = info.sender@;
        let ghost ids_dv = token_ids.deep_view();
        proof {
            lemma_pack_nfts_preserves_inv(
                old(self)@,
                ed,
                sd,
                ids_dv,
                pack_name@,
                price,
                royalty_fee,
            );
        }
        if !self.pack_name_exists.is_free(&pack_name) {
            return Err(ContractError::ExistPackName);
        }
        let n = token_ids.len();
        let mut i: usize = 0;
        while i < n
            invariant
                old(self).wf(),
                old(self)@.inv(),
                *self == *old(self),
                n == token_ids@.len(),
                ids_dv == token_ids.deep_view(),
                i <= n,
                forall|j: int|
                    0 <= j < i ==> old(self)@.pack_item_check(ed, sd, #[trigger] ids_dv[j])
                        is None,
            decreases n - i,
        {
            let tid = &token_ids[i];
            proof {
                assert(tid@ == ids_dv[i as int]);
            }
            let can = match self.tokens.get(tid) {
                None => {
                    proof {
                        lemma_pack_items_error_at(old(self)@, ed, sd, ids_dv, i as int);
                    }
                    return Err(ContractError::NotFound);
                },
                Some(token) => self.check_can_send(env, info, token),
            };
            if can.is_err() {
                proof {
                    lemma_pack_items_error_at(old(self)@, ed, sd, ids_dv, i as int);
                }
                return Err(ContractError::Unauthorized);
            }
            match self.packable_nfts.get(tid) {
                None => {
                    proof {
                        lemma_pack_items_error_at(old(self)@, ed, sd, ids_dv, i as int);
                    }
                    return Err(ContractError::NotFound);
                },
                Some(packable) => {
                    if !(packable.current_owner == info.sender) {
                        proof {
                            lemma_pack_items_error_at(old(self)@, ed, sd, ids_dv, i as int);
                        }
                        return Err(ContractError::NotNftOwner);
                    }
                },
            }
            proof {
                assert(old(self)@.pack_item_check(ed, sd, ids_dv[i as int]) is None);
            }
            i = i + 1;
        }
        proof {
            lemma_pack_items_error_none(old(self)@, ed, sd, ids_dv);
            lemma_pack_items_all_exist(old(self)@, ed, sd, ids_dv);
        }
        // all checks passed: write phase
        let pack_count = self.nft_pack_counter + 1;
        self.nft_pack_counter = pack_count;
        let ghost toks0 = old(self)@.tokens;
        let mut pack_items: Vec<String> = Vec::new();
        let mut k: usize = 0;
        while k < n
            invariant
                self.wf(),
                old(self)@.inv(),
                n == token_ids@.len(),
                ids_dv == token_ids.deep_view(),
                toks0 == old(self)@.tokens,
                k <= n,
                env.deep_view() == ed,
                pack_count == old(self)@.nft_pack_counter + 1,
                pack_items.deep_view() =~= ids_dv.take(k as int),
                forall|j: int| 0 <= j < n ==> toks0.contains_key(#[trigger] ids_dv[j]),
                self@ =~~= (StateM {
                    tokens: park_items(toks0, ids_dv.take(k as int), ed.contract_address),
                    nft_pack_counter: pack_count,
                    ..old(self)@
                }),
            decreases n - k,
        {
            proof {
                assert forall|j: int| 0 <= j < k implies toks0.contains_key(
                    #[trigger] ids_dv.take(k as int)[j],
                ) by {
                    assert(ids_dv.take(k as int)[j] == ids_dv[j]);
                }
                lemma_park_items(toks0, ids_dv.take(k as int), ed.contract_address);
                assert(self@.tokens.dom() =~= toks0.dom());
            }
            let tid = token_ids[k].clone();
            let mut token = self.tokens.take(&tid).unwrap();
            token.owner = env.contract_address.clone();
            token.approvals = Vec::new();
            self.tokens.save(tid.clone(), token);
            pack_items.push(tid);
            proof {
                assert(ids_dv.take(k as int + 1) =~= ids_dv.take(k as int).push(
                    ids_dv[k as int],
                ));
                assert(ids_dv.take(k as int + 1).drop_last() =~= ids_dv.take(k as int));
                assert(self@.tokens =~~= park_items(
                    toks0,
                    ids_dv.take(k as int + 1),
                    ed.contract_address,
                ));
                assert(self@ =~~= (StateM {
                    tokens: park_items(toks0, ids_dv.take(k as int + 1), ed.contract_address),
                    nft_pack_counter: pack_count,
                    ..old(self)@
                }));
            }
            k = k + 1;
        }
        proof {
            assert(ids_dv.take(n as int) =~= ids_dv);
        }
        let item_count = token_ids.len();
        let nft_pack = NftPack {
            pack_id: pack_count,
            pack_name: pack_name.clone(),
            item_count,
            pack_items,
            minted_by: info.sender.clone(),
            current_owner: info.sender.clone(),
            previous_owner: None,
            current_price: price,
            previous_price: 0,
            number_of_transfers: 0,
            for_sale: true,
            royalty_owners: vec![info.sender.clone()],
            approvals: Vec::new(),
        };
        self.nft_packs.save(pack_count, nft_pack);
        self.pack_name_exists.reserve(pack_name);
        proof {
            lemma_nft_balance_headroom(old(self)@, info.sender@);
        }
        let bal = match self.nft_pack_balances.get(&info.sender) {
            Some(v) => *v + 1,
            None => 1,
        };
        self.nft_pack_balances.save(info.sender.clone(), bal);
        self.royalty_fees.save((pack_count, info.sender.clone()), royalty_fee);
        proof {
            let s2 = old(self)@.pack_nfts_spec(
                ed,
                sd,
                ids_dv,
                pack_name@,
                price,
                royalty_fee,
            )->Ok_0.0;
            assert(self@ =~~= s2);
        }
        Ok(pack_count)
    }

    /// Dissolves a pack back to its items. The gates, in order: the
    /// caller's balance, the pack's existence, its ownership, the caller's
    /// own royalty entry, and every composed item still being held by the
    /// pack-holding address. On success every item's owner becomes the
    /// caller, the name reservation is freed, the balance counts down and
    /// the row is deleted; the pack id is never reused.
    #[verifier::loop_isolation(false)]
    pub fn unpack_nfts(&mut self, env: &Env, info: &MessageInfo, pack_id: u64) -> (r: Result<
        (),
        ContractError,
    >)
        requires
            old(self).wf(),
            old(self)@.inv(),
        ensures
            final(self).wf(),
            final(self)@.inv(),
            (match old(self)@.unpack_nfts_spec(env.deep_view(), info.sender@, pack_id) {
                Ok(s2) => r is Ok && final(self)@ == s2,
                Err(e) => r == Err::<(), ContractError>(e) && final(self)@ == old(self)@,
            }),
    {
        let ghost ed = env.deep_view();
        let ghost sd = info.sender@;
        proof {
            lemma_unpack_nfts_preserves_inv(old(self)@, ed, sd, pack_id);
        }
        let bal = match self.nft_pack_balances.get(&info.sender) {
            Some(v) => *v,
            None => 0,
        };
        if bal < 1 {
            return Err(ContractError::NoNftBalance);
        }
        {
            let p = match self.nft_packs.get(&pack_id) {
                None => {
                    return Err(ContractError::NotFound);
                },
                Some(p) => p,
            };
            if !(p.current_owner == info.sender) {
                return Err(ContractError::NotNftOwner);
            }
            if self.royalty_fees.get(&(pack_id, info.sender.clone())).is_none() {
                return Err(ContractError::NoNftPackRoyalty);
            }
            let ghost items = old(self)@.nft_packs[pack_id].pack_items;
            let m = p.pack_items.len();
            let mut i: usize = 0;
            while i < m
                invariant
                    old(self).wf(),
                    *self == *old(self),
                    old(self)@.nft_packs.contains_key(pack_id),
                    p.deep_view() == old(self)@.nft_packs[pack_id],
                    items == old(self)@.nft_packs[pack_id].pack_items,
                    m == p.pack_items@.len(),
                    env.deep_view() == ed,
                    i <= m,
                    forall|j: int|
                        0 <= j < i ==> old(self)@.unpack_item_check(ed, #[trigger] items[j])
                            is None,
                decreases m - i,
            {
                let tid = &p.pack_items[i];
                proof {
                    assert(tid@ == items[i as int]);
                }
                match self.tokens.get(tid) {
                    None => {
                        proof {
                            lemma_unpack_items_error_at(old(self)@, ed, items, i as int);
                        }
                        return Err(ContractError::NotFound);
                    },
                    Some(token) => {
                        if !(token.owner == env.contract_address) {
                            proof {
                                lemma_unpack_items_error_at(old(self)@, ed, items, i as int);
                            }
                            return Err(ContractError::InvalidNftOwner);
                        }
                    },
                }
                proof {
                    assert(old(self)@.unpack_item_check(ed, items[i as int]) is None);
                }
                i = i + 1;
            }
        }
        let ghost items = old(self)@.nft_packs[pack_id].pack_items;
        proof {
            lemma_unpack_items_error_none(old(self)@, ed, items);
            lemma_unpack_items_all_exist(old(self)@, ed, items);
        }
        // all checks passed: write phase
        let p = self.nft_packs.take(&pack_id).unwrap();
        let ghost toks0 = old(self)@.tokens;
        let m = p.pack_items.len();
        let mut k: usize = 0;
        while k < m
            invariant
                self.wf(),
                p.deep_view() == old(self)@.nft_packs[pack_id],
                items == old(self)@.nft_packs[pack_id].pack_items,
                toks0 == old(self)@.tokens,
                m == p.pack_items@.len(),
                k <= m,
                forall|j: int| 0 <= j < m ==> toks0.contains_key(#[trigger] items[j]),
                info.sender@ == sd,
                self@ =~~= (StateM {
                    tokens: park_items(toks0, items.take(k as int), sd),
                    nft_packs: old(self)@.nft_packs.remove(pack_id),
                    ..old(self)@
                }),
            decreases m - k,
        {
            proof {
                assert forall|j: int| 0 <= j < k implies toks0.contains_key(
                    #[trigger] items.take(k as int)[j],
                ) by {
                    assert(items.take(k as int)[j] == items[j]);
                }
                lemma_park_items(toks0, items.take(k as int), sd);
                assert(self@.tokens.dom() =~= toks0.dom());
                assert(p.pack_items@[k as int]@ == items[k as int]);
            }
            let tid = p.pack_items[k].clone();
            let mut token = self.tokens.take(&tid).unwrap();
            token.owner = info.sender.clone();
            token.approvals = Vec::new();
            self.tokens.save(tid, token);
            proof {
                assert(items.take(k as int + 1) =~= items.take(k as int).push(items[k as int]));
                assert(items.take(k as int + 1).drop_last() =~= items.take(k as int));
                assert(self@.tokens =~~= park_items(toks0, items.take(k as int + 1), sd));
                assert(self@ =~~= (StateM {
                    tokens: park_items(toks0, items.take(k as int + 1), sd),
                    nft_packs: old(self)@.nft_packs.remove(pack_id),
                    ..old(self)@
                }));
            }
            k = k + 1;
        }
        proof {
            assert(items.take(m as int) =~= items);
        }
        self.pack_name_exists.release(&p.pack_name);
        self.nft_pack_balances.save(info.sender.clone(), bal - 1);
        proof {
            let s2 = old(self)@.unpack_nfts_spec(ed, sd, pack_id)->Ok_0;
            assert(self@ =~~= s2);
        }
        Ok(())
    }

    /// Adds `to` to the approval set of a pack the caller owns. Approvals
    /// accumulate; duplicates are permitted.
    pub fn approve_nft_pack(&mut self, _env: &Env, info: &MessageInfo, to: String, pack_id: u64)
        -> (r: Result<(), ContractError>)
        requires
            old(self).wf(),
            old(self)@.inv(),
        ensures
            final(self).wf(),
            final(self)@.inv(),
            (match old(self)@.approve_nft_pack_spec(info.sender@, to@, pack_id) {
                Ok(s2) => r is Ok && final(self)@ == s2,
                Err(e) => r == Err::<(), ContractError>(e) && final(self)@ == old(self)@,
            }),
    {
        proof {
            lemma_approve_nft_pack_preserves_inv(old(self)@, info.sender@, to@, pack_id);
        }
        match self.nft_packs.get(&pack_id) {
            None => {
                return Err(ContractError::NotFound);
            },
            Some(p) => {
                if !(p.current_owner == info.sender) {
                    return Err(ContractError::NotNftOwner);
                }
            },
        }
        let mut p = self.nft_packs.take(&pack_id).unwrap();
        p.approvals.push(to);
        self.nft_packs.save(pack_id, p);
        proof {
            let s2 = old(self)@.approve_nft_pack_spec(info.sender@, to@, pack_id)->Ok_0;
            assert(self@ =~~= s2);
        }
        Ok(())
    }

    /// Pull-transfers a pack: the row must record `from` as owner, and the
    /// caller must hold one of the pack's single-use approvals. Ownership,
    /// price history and the transfer count move, both balance counters
    /// adjust, and the approval set is cleared, so a stale approval cannot
    /// admit a second transfer.
    pub fn transfer_nft_pack(&mut self, _env: &Env, info: &MessageInfo, from: String, to: String,
        pack_id: u64) -> (r: Result<(), ContractError>)
        requires
            old(self).wf(),
            old(self)@.inv(),
            old(self)@.nft_packs.contains_key(pack_id) ==> old(
                self,
            )@.nft_packs[pack_id].number_of_transfers < u64::MAX,
        ensures
            final(self).wf(),
            final(self)@.inv(),
            (match old(self)@.transfer_nft_pack_spec(info.sender@, from@, to@, pack_id) {
                Ok(s2) => r is Ok && final(self)@ == s2,
                Err(e) => r == Err::<(), ContractError>(e) && final(self)@ == old(self)@,
            }),
    {
        let ghost sd = info.sender@;
        proof {
            lemma_transfer_nft_pack_preserves_inv(old(self)@, sd, from@, to@, pack_id);
        }
        match self.nft_packs.get(&pack_id) {
            None => {
                return Err(ContractError::NotFound);
            },
            Some(p) => {
                if !(p.current_owner == from) {
                    return Err(ContractError::NotNftOwner);
                }
                let approved = p.approvals.len() > 0 && contains_addr(&p.approvals, &info.sender);
                if !approved {
                    return Err(ContractError::NotNftApproved);
                }
            },
        }
        let bal_from = match self.nft_pack_balances.get(&from) {
            Some(v) => *v,
            None => 0,
        };
        if bal_from < 1 {
            return Err(ContractError::NoNftBalance);
        }
        let mut p = self.nft_packs.take(&pack_id).unwrap();
        p.previous_owner = Some(from.clone());
        p.current_owner = to.clone();
        p.previous_price = p.current_price;
        p.number_of_transfers = p.number_of_transfers + 1;
        p.approvals = Vec::new();
        self.nft_packs.save(pack_id, p);
        self.nft_pack_balances.save(from.clone(), bal_from - 1);
        proof {
            // headroom for the recipient's counter
            let om = nft_owner_map(old(self)@.nft_packs);
            assert(om.dom() =~= old(self)@.nft_packs.dom());
            if from@ != to@ {
                lemma_owned_two_disjoint(om, from@, to@);
                assert(old(self)@.nft_balance_of(from@) == old(self)@.nft_owned_count(from@));
                assert(old(self)@.nft_balance_of(to@) == old(self)@.nft_owned_count(to@));
                assert(owned_ids(om, from@).contains(pack_id));
            }
        }
        let bal_to = match self.nft_pack_balances.get(&to) {
            Some(v) => *v,
            None => 0,
        };
        self.nft_pack_balances.save(to.clone(), bal_to + 1);
        proof {
            let s2 = old(self)@.transfer_nft_pack_spec(sd, from@, to@, pack_id)->Ok_0;
            assert(self@ =~~= s2);
        }
        Ok(())
    }
}

} // verus!
