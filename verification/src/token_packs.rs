//! The token-pack registry: the same state machine as the item packs, with
//! a fungible allocation `(token_address, token_amount)` as composition.
//!
//! Unpacking hands the composition back as one outbound fungible-transfer
//! instruction instead of reassigning item owners; moving the allocation in
//! is the caller's task, performed outside the core.

use vstd::prelude::*;

use crate::state::{
    lemma_fees_inv_same, lemma_item_inv_same, lemma_nft_inv_same, lemma_owned_insert_fresh,
    lemma_owned_remove, lemma_owned_subset, lemma_owned_two_disjoint, lemma_owned_update,
    lemma_token_owner_map_insert, lemma_token_owner_map_remove, owned_ids, stored_balance,
    token_owner_map, Cw721Contract, StateM,
};
use crate::types::{
    AssetInfo, AssetInfoM, ContractError, Env, Fraction, MessageInfo, PaymentMsg, PaymentMsgM,
    TokenPack, TokenPackM,
};

verus! {

impl StateM {
    /// The pack row `pack_tokens` creates.
    pub open spec fn new_token_pack(
        self,
        sender: Seq<char>,
        pack_name: Seq<char>,
        token_address: Seq<char>,
        amount: u64,
        price: u64,
    ) -> TokenPackM {
        TokenPackM {
            pack_id: (self.token_pack_counter + 1) as u64,
            pack_name: pack_name,
            token_address: token_address,
            token_amount: amount,
            minted_by: sender,
            current_owner: sender,
            previous_owner: None,
            current_price: price,
            previous_price: 0,
            number_of_transfers: 0,
            for_sale: true,
            royalty_owners: seq![sender],
            approvals: Seq::empty(),
        }
    }

    /// Transition of packing a fungible allocation.
    pub open spec fn pack_tokens_spec(
        self,
        sender: Seq<char>,
        pack_name: Seq<char>,
        token_address: Seq<char>,
        amount: u64,
        price: u64,
        royalty_fee: Fraction,
    ) -> Result<(StateM, u64), ContractError> {
        if self.token_pack_name_exists.contains(pack_name) {
            Err(ContractError::ExistPackName)
        } else {
            let id = (self.token_pack_counter + 1) as u64;
            Ok(
                (
                    StateM {
                        token_pack_counter: id,
                        token_packs: self.token_packs.insert(
                            id,
                            self.new_token_pack(sender, pack_name, token_address, amount, price),
                        ),
                        token_pack_name_exists: self.token_pack_name_exists.insert(pack_name),
                        token_pack_balances: self.token_pack_balances.insert(
                            sender,
                            (self.token_balance_of(sender) + 1) as u64,
                        ),
                        token_royalty_fees: self.token_royalty_fees.insert(
                            (id, sender),
                            royalty_fee,
                        ),
                        ..self
                    },
                    id,
                ),
            )
        }
    }

    /// The instruction returning an unpacked allocation to the caller.
    pub open spec fn unpack_payment(self, sender: Seq<char>, pack_id: u64) -> PaymentMsgM {
        PaymentMsgM {
            info: AssetInfoM::Token { contract_addr: self.token_packs[pack_id].token_address },
            amount: self.token_packs[pack_id].token_amount,
            recipient: sender,
        }
    }

    /// Transition of unpacking: gated in order by the caller's balance, the
    /// pack's existence, its ownership, and the caller's own royalty entry;
    /// on success the allocation goes back to the caller as one payment
    /// instruction, the name is freed, the balance counts down and the row
    /// is deleted. Royalty entries stay; the pack id is never reused.
    pub open spec fn unpack_tokens_spec(self, sender: Seq<char>, pack_id: u64) -> Result<
        (StateM, PaymentMsgM),
        ContractError,
    > {
        if self.token_balance_of(sender) < 1 {
            Err(ContractError::NoTokenBalance)
        } else if !self.token_packs.contains_key(pack_id) {
            Err(ContractError::NotFound)
        } else if self.token_packs[pack_id].current_owner != sender {
            Err(ContractError::NotTokenPackOwner)
        } else if !self.token_royalty_fees.contains_key((pack_id, sender)) {
            Err(ContractError::NoTokenPackRoyalty)
        } else {
            Ok(
                (
                    StateM {
                        token_pack_name_exists: self.token_pack_name_exists.remove(
                            self.token_packs[pack_id].pack_name,
                        ),
                        token_pack_balances: self.token_pack_balances.insert(
                            sender,
                            (self.token_balance_of(sender) - 1) as u64,
                        ),
                        token_packs: self.token_packs.remove(pack_id),
                        ..self
                    },
                    self.unpack_payment(sender, pack_id),
                ),
            )
        }
    }

    /// Transition of approving: only the current owner may; the approval is
    /// appended, and duplicates are permitted.
    pub open spec fn approve_token_pack_spec(self, sender: Seq<char>, pack_id: u64, to: Seq<char>)
        -> Result<StateM, ContractError> {
        if !self.token_packs.contains_key(pack_id) {
            Err(ContractError::NotFound)
        } else if self.token_packs[pack_id].current_owner != sender {
            Err(ContractError::NotTokenPackOwner)
        } else {
            let p = self.token_packs[pack_id];
            Ok(
                StateM {
                    token_packs: self.token_packs.insert(
                        pack_id,
                        TokenPackM { approvals: p.approvals.push(to), ..p },
                    ),
                    ..self
                },
            )
        }
    }

    /// Transition of transferring; mirrors the item-pack transfer.
    pub open spec fn transfer_token_pack_spec(
        self,
        sender: Seq<char>,
        pack_id: u64,
        from: Seq<char>,
        to: Seq<char>,
    ) -> Result<StateM, ContractError> {
        if !self.token_packs.contains_key(pack_id) {
            Err(ContractError::NotFound)
        } else if self.token_packs[pack_id].current_owner != from {
            Err(ContractError::NotTokenPackOwner)
        } else if !(self.token_packs[pack_id].approvals.len() > 0
            && self.token_packs[pack_id].approvals.contains(sender)) {
            Err(ContractError::NotTokenApproved)
        } else if self.token_balance_of(from) < 1 {
            Err(ContractError::NoTokenBalance)
        } else {
            let p = self.token_packs[pack_id];
            let p2 = TokenPackM {
                previous_owner: Some(from),
                current_owner: to,
                previous_price: p.current_price,
                number_of_transfers: (p.number_of_transfers + 1) as u64,
                approvals: Seq::empty(),
                ..p
            };
            let b1 = self.token_pack_balances.insert(
                from,
                (self.token_balance_of(from) - 1) as u64,
            );
            let b2 = b1.insert(to, (stored_balance(b1, to) + 1) as u64);
            Ok(
                StateM {
                    token_packs: self.token_packs.insert(pack_id, p2),
                    token_pack_balances: b2,
                    ..self
                },
            )
        }
    }
}

/// Packing keeps the invariant.
pub proof fn lemma_pack_tokens_preserves_inv(
    s: StateM,
    sender: Seq<char>,
    pack_name: Seq<char>,
    token_address: Seq<char>,
    amount: u64,
    price: u64,
    royalty_fee: Fraction,
)
    requires
        s.inv(),
        royalty_fee.wf(),
        s.token_pack_counter < u64::MAX,
    ensures
        s.pack_tokens_spec(sender, pack_name, token_address, amount, price, royalty_fee) is Ok
            ==> s.pack_tokens_spec(
            sender,
            pack_name,
            token_address,
            amount,
            price,
            royalty_fee,
        )->Ok_0.0.inv(),
{
    if s.pack_tokens_spec(sender, pack_name, token_address, amount, price, royalty_fee) is Ok {
        let s2 = s.pack_tokens_spec(
            sender,
            pack_name,
            token_address,
            amount,
            price,
            royalty_fee,
        )->Ok_0.0;
        let id = (s.token_pack_counter + 1) as u64;
        assert(!s.token_packs.contains_key(id));
        lemma_item_inv_same(s, s2);
        lemma_nft_inv_same(s, s2);
        assert forall|pid: u64| #[trigger] s2.token_packs.contains_key(pid)
            implies s2.token_pack_row_ok(pid) by {
            if pid == id {
                assert(s2.token_packs[id].royalty_owners =~= seq![sender]);
                assert(s2.token_royalty_fees.contains_key((id, sender)));
            } else {
                assert(s.token_packs.contains_key(pid));
                assert(s.token_pack_row_ok(pid));
                assert forall|k: int|
                    0 <= k < s2.token_packs[pid].royalty_owners.len()
                        implies s2.token_royalty_fees.contains_key(
                    (pid, #[trigger] s2.token_packs[pid].royalty_owners[k]),
                ) by {
                    assert(s.token_royalty_fees.contains_key(
                        (pid, s.token_packs[pid].royalty_owners[k]),
                    ));
                }
            }
        }
        assert forall|n: Seq<char>| #[trigger] s2.token_pack_name_exists.contains(n)
            implies exists|pid: u64| #[trigger]
            s2.token_packs.contains_key(pid) && s2.token_packs[pid].pack_name == n by {
            if n == pack_name {
                assert(s2.token_packs.contains_key(id));
            } else {
                assert(s.token_pack_name_exists.contains(n));
                let pid = choose|pid: u64| #[trigger]
                    s.token_packs.contains_key(pid) && s.token_packs[pid].pack_name == n;
                assert(s2.token_packs.contains_key(pid));
            }
        }
        assert forall|i: u64, j: u64|
            #[trigger] s2.token_packs.contains_key(i) && #[trigger] s2.token_packs.contains_key(j)
                && i != j implies s2.token_packs[i].pack_name != s2.token_packs[j].pack_name by {
            if i != id && j != id {
                assert(s.token_packs.contains_key(i));
                assert(s.token_packs.contains_key(j));
            } else if i == id {
                assert(s.token_packs.contains_key(j));
                assert(s.token_pack_row_ok(j));
            } else {
                assert(s.token_packs.contains_key(i));
                assert(s.token_pack_row_ok(i));
            }
        }
        assert(s2.token_packs.dom() =~= s.token_packs.dom().insert(id));
        vstd::set::axiom_set_insert_len(s.token_packs.dom(), id);
        lemma_token_owner_map_insert(
            s.token_packs,
            id,
            s.new_token_pack(sender, pack_name, token_address, amount, price),
        );
        assert(token_owner_map(s.token_packs).dom() =~= s.token_packs.dom());
        assert(!token_owner_map(s.token_packs).contains_key(id));
        lemma_owned_insert_fresh(token_owner_map(s.token_packs), id, sender);
        lemma_owned_subset(token_owner_map(s.token_packs), sender);
        assert forall|o: Seq<char>| #[trigger] s2.token_balance_of(o) == s2.token_owned_count(
            o,
        ) by {
            assert(s.token_balance_of(o) == s.token_owned_count(o));
            if o == sender {
                vstd::set::axiom_set_insert_len(
                    owned_ids(token_owner_map(s.token_packs), sender),
                    id,
                );
            }
        }
        assert forall|k: (u64, Seq<char>)| #[trigger] s2.token_royalty_fees.contains_key(k)
            implies s2.token_royalty_fees[k].wf() by {
            if k != (id, sender) {
                assert(s.token_royalty_fees.contains_key(k));
            }
        }
        assert forall|k: (u64, Seq<char>)| #[trigger] s2.royalty_fees.contains_key(k)
            implies s2.royalty_fees[k].wf() by {
            assert(s.royalty_fees.contains_key(k));
        }
    }
}

/// Unpacking keeps the invariant.
pub proof fn lemma_unpack_tokens_preserves_inv(s: StateM, sender: Seq<char>, pack_id: u64)
    requires
        s.inv(),
    ensures
        s.unpack_tokens_spec(sender, pack_id) is Ok ==> s.unpack_tokens_spec(
            sender,
            pack_id,
        )->Ok_0.0.inv(),
{
    if s.unpack_tokens_spec(sender, pack_id) is Ok {
        let s2 = s.unpack_tokens_spec(sender, pack_id)->Ok_0.0;
        let p = s.token_packs[pack_id];
        lemma_item_inv_same(s, s2);
        lemma_nft_inv_same(s, s2);
        assert forall|pid: u64| #[trigger] s2.token_packs.contains_key(pid)
            implies s2.token_pack_row_ok(pid) by {
            assert(s.token_packs.contains_key(pid));
            assert(s.token_pack_row_ok(pid));
            assert(pid != pack_id);
            assert(s.token_packs[pid].pack_name != p.pack_name);
            assert forall|k: int|
                0 <= k < s2.token_packs[pid].royalty_owners.len()
                    implies s2.token_royalty_fees.contains_key(
                (pid, #[trigger] s2.token_packs[pid].royalty_owners[k]),
            ) by {
                assert(s.token_royalty_fees.contains_key(
                    (pid, s.token_packs[pid].royalty_owners[k]),
                ));
            }
        }
        assert forall|n: Seq<char>| #[trigger] s2.token_pack_name_exists.contains(n)
            implies exists|pid: u64| #[trigger]
            s2.token_packs.contains_key(pid) && s2.token_packs[pid].pack_name == n by {
            assert(s.token_pack_name_exists.contains(n));
            let pid = choose|pid: u64| #[trigger]
                s.token_packs.contains_key(pid) && s.token_packs[pid].pack_name == n;
            assert(pid != pack_id);
            assert(s2.token_packs.contains_key(pid));
        }
        assert forall|i: u64, j: u64|
            #[trigger] s2.token_packs.contains_key(i) && #[trigger] s2.token_packs.contains_key(j)
                && i != j implies s2.token_packs[i].pack_name != s2.token_packs[j].pack_name by {
            assert(s.token_packs.contains_key(i));
            assert(s.token_packs.contains_key(j));
        }
        assert(s2.token_packs.dom() =~= s.token_packs.dom().remove(pack_id));
        vstd::set::axiom_set_remove_len(s.token_packs.dom(), pack_id);
        lemma_token_owner_map_remove(s.token_packs, pack_id);
        assert(token_owner_map(s.token_packs).dom() =~= s.token_packs.dom());
        assert(token_owner_map(s.token_packs)[pack_id] == sender);
        lemma_owned_remove(token_owner_map(s.token_packs), pack_id);
        lemma_owned_subset(token_owner_map(s.token_packs), sender);
        assert forall|o: Seq<char>| #[trigger] s2.token_balance_of(o) == s2.token_owned_count(
            o,
        ) by {
            assert(s.token_balance_of(o) == s.token_owned_count(o));
            if o == sender {
                assert(owned_ids(token_owner_map(s.token_packs), sender).contains(pack_id));
                vstd::set::axiom_set_remove_len(
                    owned_ids(token_owner_map(s.token_packs), sender),
                    pack_id,
                );
            }
        }
        lemma_fees_inv_same(s, s2);
    }
}

/// Approving keeps the invariant: only the approval list changes.
pub proof fn lemma_approve_token_pack_preserves_inv(
    s: StateM,
    sender: Seq<char>,
    pack_id: u64,
    to: Seq<char>,
)
    requires
        s.inv(),
    ensures
        s.approve_token_pack_spec(sender, pack_id, to) is Ok ==> s.approve_token_pack_spec(
            sender,
            pack_id,
            to,
        )->Ok_0.inv(),
{
    if s.approve_token_pack_spec(sender, pack_id, to) is Ok {
        let s2 = s.approve_token_pack_spec(sender, pack_id, to)->Ok_0;
        let p = s.token_packs[pack_id];
        let p2 = TokenPackM { approvals: p.approvals.push(to), ..p };
        lemma_item_inv_same(s, s2);
        lemma_nft_inv_same(s, s2);
        assert forall|pid: u64| #[trigger] s2.token_packs.contains_key(pid)
            implies s2.token_pack_row_ok(pid) by {
            assert(s.token_packs.contains_key(pid));
            assert(s.token_pack_row_ok(pid));
            assert forall|k: int|
                0 <= k < s2.token_packs[pid].royalty_owners.len()
                    implies s2.token_royalty_fees.contains_key(
                (pid, #[trigger] s2.token_packs[pid].royalty_owners[k]),
            ) by {
                assert(s.token_royalty_fees.contains_key(
                    (pid, s.token_packs[pid].royalty_owners[k]),
                ));
            }
        }
        assert forall|n: Seq<char>| #[trigger] s2.token_pack_name_exists.contains(n)
            implies exists|pid: u64| #[trigger]
            s2.token_packs.contains_key(pid) && s2.token_packs[pid].pack_name == n by {
            let pid = choose|pid: u64| #[trigger]
                s.token_packs.contains_key(pid) && s.token_packs[pid].pack_name == n;
            assert(s2.token_packs.contains_key(pid));
            assert(s2.token_packs[pid].pack_name == n);
        }
        assert forall|i: u64, j: u64|
            #[trigger] s2.token_packs.contains_key(i) && #[trigger] s2.token_packs.contains_key(j)
                && i != j implies s2.token_packs[i].pack_name != s2.token_packs[j].pack_name by {
            assert(s.token_packs.contains_key(i));
            assert(s.token_packs.contains_key(j));
        }
        assert(s2.token_packs.dom() =~= s.token_packs.dom());
        lemma_token_owner_map_insert(s.token_packs, pack_id, p2);
        assert(token_owner_map(s.token_packs).insert(pack_id, p2.current_owner)
            =~= token_owner_map(s.token_packs));
        assert forall|o: Seq<char>| #[trigger] s2.token_balance_of(o) == s2.token_owned_count(
            o,
        ) by {
            assert(s.token_balance_of(o) == s.token_owned_count(o));
        }
        lemma_fees_inv_same(s, s2);
    }
}

/// Transferring keeps the invariant; mirrors the item-pack proof.
pub proof fn lemma_transfer_token_pack_preserves_inv(
    s: StateM,
    sender: Seq<char>,
    pack_id: u64,
    from: Seq<char>,
    to: Seq<char>,
)
    requires
        s.inv(),
    ensures
        s.transfer_token_pack_spec(sender, pack_id, from, to) is Ok ==> s.transfer_token_pack_spec(
            sender,
            pack_id,
            from,
            to,
        )->Ok_0.inv(),
{
    if s.transfer_token_pack_spec(sender, pack_id, from, to) is Ok {
        let s2 = s.transfer_token_pack_spec(sender, pack_id, from, to)->Ok_0;
        let p = s.token_packs[pack_id];
        let p2 = TokenPackM {
            previous_owner: Some(from),
            current_owner: to,
            previous_price: p.current_price,
            number_of_transfers: (p.number_of_transfers + 1) as u64,
            approvals: Seq::empty(),
            ..p
        };
        lemma_item_inv_same(s, s2);
        lemma_nft_inv_same(s, s2);
        assert forall|pid: u64| #[trigger] s2.token_packs.contains_key(pid)
            implies s2.token_pack_row_ok(pid) by {
            assert(s.token_packs.contains_key(pid));
            assert(s.token_pack_row_ok(pid));
            assert forall|k: int|
                0 <= k < s2.token_packs[pid].royalty_owners.len()
                    implies s2.token_royalty_fees.contains_key(
                (pid, #[trigger] s2.token_packs[pid].royalty_owners[k]),
            ) by {
                assert(s.token_royalty_fees.contains_key(
                    (pid, s.token_packs[pid].royalty_owners[k]),
                ));
            }
        }
        assert forall|n: Seq<char>| #[trigger] s2.token_pack_name_exists.contains(n)
            implies exists|pid: u64| #[trigger]
            s2.token_packs.contains_key(pid) && s2.token_packs[pid].pack_name == n by {
            let pid = choose|pid: u64| #[trigger]
                s.token_packs.contains_key(pid) && s.token_packs[pid].pack_name == n;
            assert(s2.token_packs.contains_key(pid));
            assert(s2.token_packs[pid].pack_name == n);
        }
        assert forall|i: u64, j: u64|
            #[trigger] s2.token_packs.contains_key(i) && #[trigger] s2.token_packs.contains_key(j)
                && i != j implies s2.token_packs[i].pack_name != s2.token_packs[j].pack_name by {
            assert(s.token_packs.contains_key(i));
            assert(s.token_packs.contains_key(j));
        }
        assert(s2.token_packs.dom() =~= s.token_packs.dom());
        let om = token_owner_map(s.token_packs);
        lemma_token_owner_map_insert(s.token_packs, pack_id, p2);
        assert(om.dom() =~= s.token_packs.dom());
        assert(om[pack_id] == from);
        lemma_owned_update(om, pack_id, to);
        lemma_owned_subset(om, from);
        lemma_owned_subset(om, to);
        if from != to {
            lemma_owned_two_disjoint(om, from, to);
        }
        assert forall|o: Seq<char>| #[trigger] s2.token_balance_of(o) == s2.token_owned_count(
            o,
        ) by {
            assert(s.token_balance_of(o) == s.token_owned_count(o));
            assert(s.token_balance_of(from) == s.token_owned_count(from));
            assert(owned_ids(om, from).contains(pack_id));
            if from == to {
                if o == from {
                    vstd::set::axiom_set_insert_len(owned_ids(om, to), pack_id);
                    assert(owned_ids(om.insert(pack_id, to), o) =~= owned_ids(om, o));
                }
            } else {
                if o == from {
                    vstd::set::axiom_set_remove_len(owned_ids(om, from), pack_id);
                } else if o == to {
                    assert(s.token_balance_of(to) == s.token_owned_count(to));
                    assert(owned_ids(om, from).len() + owned_ids(om, to).len()
                        <= s.token_packs.dom().len());
                    assert(!owned_ids(om, to).contains(pack_id));
                    vstd::set::axiom_set_insert_len(owned_ids(om, to), pack_id);
                }
            }
        }
        lemma_fees_inv_same(s, s2);
    }
}

/// Every owner's token-pack count is bounded by the number of live packs.
pub proof fn lemma_token_balance_headroom(s: StateM, o: Seq<char>)
    requires
        s.token_inv(),
    ensures
        s.token_balance_of(o) <= s.token_packs.dom().len(),
        s.token_balance_of(o) <= s.token_pack_counter,
{
    assert(token_owner_map(s.token_packs).dom() =~= s.token_packs.dom());
    lemma_owned_subset(token_owner_map(s.token_packs), o);
}

impl Cw721Contract {
    /// Creates a pack around a fungible allocation. The name must be
    /// unreserved; the returned pack id is the old counter plus one, so it
    /// is strictly greater than every id issued before, and the caller's
    /// balance counter grows by exactly one.
    pub fn pack_tokens(&mut self, _env: &Env, info: &MessageInfo, pack_name: String, token_address:
        String, amount: u64, price: u64, royalty_fee: Fraction) -> (r: Result<u64, ContractError>)
        requires
            old(self).wf(),
            old(self)@.inv(),
            old(self)@.token_pack_counter < u64::MAX,
            royalty_fee.wf(),
        ensures
            final(self).wf(),
            final(self)@.inv(),
            (match old(self)@.pack_tokens_spec(
                info.sender@,
                pack_name@,
                token_address@,
                amount,
                price,
                royalty_fee,
            ) {
                Ok((s2, id)) => r == Ok::<u64, ContractError>(id) && final(self)@ == s2,
                Err(e) => r == Err::<u64, ContractError>(e) && final(self)@ == old(self)@,
            }),
            r is Ok ==> forall|i: u64|
                old(self)@.token_packs.contains_key(i) ==> i < r->Ok_0,
            r is Ok ==> final(self)@.token_balance_of(info.sender@) == old(
                self,
            )@.token_balance_of(info.sender@) + 1,
    {
        proof {
            lemma_pack_tokens_preserves_inv(
                old(self)@,
                info.sender@,
                pack_name@,
                token_address@,
                amount,
                price,
                royalty_fee,
            );
        }
        if !self.token_pack_name_exists.is_free(&pack_name) {
            return Err(ContractError::ExistPackName);
        }
        let pack_count = self.token_pack_counter + 1;
        self.token_pack_counter = pack_count;
        let token_pack = TokenPack {
            pack_id: pack_count,
            pack_name: pack_name.clone(),
            token_address,
            token_amount: amount,
            minted_by: info.sender.clone(),
            current_owner: info.sender.clone(),
            previous_owner: None,
            current_price: price,
            previous_price: 0,
            number_of_transfers: 0,
            for_sale: true,
            royalty_owners: vec![info.sender.clone()],
            approvals: Vec::new(),
        };
        self.token_packs.save(pack_count, token_pack);
        self.token_pack_name_exists.reserve(pack_name);
        proof {
            lemma_token_balance_headroom(old(self)@, info.sender@);
        }
        let bal = match self.token_pack_balances.get(&info.sender) {
            Some(v) => *v + 1,
            None => 1,
        };
        self.token_pack_balances.save(info.sender.clone(), bal);
        self.token_royalty_fees.save((pack_count, info.sender.clone()), royalty_fee);
        proof {
            let s2 = old(self)@.pack_tokens_spec(
                info.sender@,
                pack_name@,
                token_address@,
                amount,
                price,
                royalty_fee,
            )->Ok_0.0;
            assert(self@ =~~= s2);
        }
        Ok(pack_count)
    }

    /// Dissolves a token pack. The gates, in order: the caller's balance,
    /// the pack's existence, its ownership, and the caller's own royalty
    /// entry. On success the allocation goes back to the caller as one
    /// payment instruction; the host is expected to check the allocation is
    /// actually held before applying it.
    pub fn unpack_tokens(&mut self, _env: &Env, info: &MessageInfo, pack_id: u64) -> (r: Result<
        PaymentMsg,
        ContractError,
    >)
        requires
            old(self).wf(),
            old(self)@.inv(),
        ensures
            final(self).wf(),
            final(self)@.inv(),
            (match old(self)@.unpack_tokens_spec(info.sender@, pack_id) {
                Ok((s2, pay)) => r is Ok && final(self)@ == s2 && r->Ok_0.deep_view() == pay,
                Err(e) => r == Err::<PaymentMsg, ContractError>(e) && final(self)@ == old(self)@,
            }),
    {
        proof {
            lemma_unpack_tokens_preserves_inv(old(self)@, info.sender@, pack_id);
        }
        let bal = match self.token_pack_balances.get(&info.sender) {
            Some(v) => *v,
            None => 0,
        };
        if bal < 1 {
            return Err(ContractError::NoTokenBalance);
        }
        match self.token_packs.get(&pack_id) {
            None => {
                return Err(ContractError::NotFound);
            },
            Some(p) => {
                if !(p.current_owner == info.sender) {
                    return Err(ContractError::NotTokenPackOwner);
                }
            },
        }
        if self.token_royalty_fees.get(&(pack_id, info.sender.clone())).is_none() {
            return Err(ContractError::NoTokenPackRoyalty);
        }
        let p = self.token_packs.take(&pack_id).unwrap();
        let payment = PaymentMsg {
            info: AssetInfo::Token { contract_addr: p.token_address },
            amount: p.token_amount,
            recipient: info.sender.clone(),
        };
        self.token_pack_name_exists.release(&p.pack_name);
        self.token_pack_balances.save(info.sender.clone(), bal - 1);
        proof {
            let s2 = old(self)@.unpack_tokens_spec(info.sender@, pack_id)->Ok_0.0;
            assert(self@ =~~= s2);
        }
        Ok(payment)
    }

    /// Adds `to` to the approval set of a token pack the caller owns.
    /// Approvals accumulate; duplicates are permitted.
    pub fn approve_token_pack(&mut self, _env: &Env, info: &MessageInfo, pack_id: u64, to: String)
        -> (r: Result<(), ContractError>)
        requires
            old(self).wf(),
            old(self)@.inv(),
        ensures
            final(self).wf(),
            final(self)@.inv(),
            (match old(self)@.approve_token_pack_spec(info.sender@, pack_id, to@) {
                Ok(s2) => r is Ok && final(self)@ == s2,
                Err(e) => r == Err::<(), ContractError>(e) && final(self)@ == old(self)@,
            }),
    {
        proof {
            lemma_approve_token_pack_preserves_inv(old(self)@, info.sender@, pack_id, to@);
        }
        match self.token_packs.get(&pack_id) {
            None => {
                return Err(ContractError::NotFound);
            },
            Some(p) => {
                if !(p.current_owner == info.sender) {
                    return Err(ContractError::NotTokenPackOwner);
                }
            },
        }
        let mut p = self.token_packs.take(&pack_id).unwrap();
        p.approvals.push(to);
        self.token_packs.save(pack_id, p);
        proof {
            let s2 = old(self)@.approve_token_pack_spec(info.sender@, pack_id, to@)->Ok_0;
            assert(self@ =~~= s2);
        }
        Ok(())
    }

    /// Pull-transfers a token pack; mirrors the item-pack transfer.
    pub fn transfer_token_pack(&mut self, _env: &Env, info: &MessageInfo, pack_id: u64, from:
        String, to: String) -> (r: Result<(), ContractError>)
        requires
            old(self).wf(),
            old(self)@.inv(),
            old(self)@.token_packs.contains_key(pack_id) ==> old(
                self,
            )@.token_packs[pack_id].number_of_transfers < u64::MAX,
        ensures
            final(self).wf(),
            final(self)@.inv(),
            (match old(self)@.transfer_token_pack_spec(info.sender@, pack_id, from@, to@) {
                Ok(s2) => r is Ok && final(self)@ == s2,
                Err(e) => r == Err::<(), ContractError>(e) && final(self)@ == old(self)@,
            }),
    {
        let ghost sd = info.sender@;
        proof {
            lemma_transfer_token_pack_preserves_inv(old(self)@, sd, pack_id, from@, to@);
        }
        match self.token_packs.get(&pack_id) {
            None => {
                return Err(ContractError::NotFound);
            },
            Some(p) => {
                if !(p.current_owner == from) {
                    return Err(ContractError::NotTokenPackOwner);
                }
                let approved = p.approvals.len() > 0 && crate::packs::contains_addr(
                    &p.approvals,
                    &info.sender,
                );
                if !approved {
                    return Err(ContractError::NotTokenApproved);
                }
            },
        }
        let bal_from = match self.token_pack_balances.get(&from) {
            Some(v) => *v,
            None => 0,
        };
        if bal_from < 1 {
            return Err(ContractError::NoTokenBalance);
        }
        let mut p = self.token_packs.take(&pack_id).unwrap();
        p.previous_owner = Some(from.clone());
        p.current_owner = to.clone();
        p.previous_price = p.current_price;
        p.number_of_transfers = p.number_of_transfers + 1;
        p.approvals = Vec::new();
        self.token_packs.save(pack_id, p);
        self.token_pack_balances.save(from.clone(), bal_from - 1);
        proof {
            let om = token_owner_map(old(self)@.token_packs);
            assert(om.dom() =~= old(self)@.token_packs.dom());
            if from@ != to@ {
                lemma_owned_two_disjoint(om, from@, to@);
                assert(old(self)@.token_balance_of(from@) == old(self)@.token_owned_count(from@));
                assert(old(self)@.token_balance_of(to@) == old(self)@.token_owned_count(to@));
                assert(owned_ids(om, from@).contains(pack_id));
            }
        }
        let bal_to = match self.token_pack_balances.get(&to) {
            Some(v) => *v,
            None => 0,
        };
        self.token_pack_balances.save(to.clone(), bal_to + 1);
        proof {
            let s2 = old(self)@.transfer_token_pack_spec(sd, pack_id, from@, to@)->Ok_0;
            assert(self@ =~~= s2);
        }
        Ok(())
    }
}

} // verus!
