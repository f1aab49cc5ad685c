//! The item ledger: single-item records, their approvals, operator grants,
//! and the packable-item side index with its two uniqueness registries.
//!
//! Each operation is specified as a transition on the state model; the
//! executable method's contract says the result and the new state are
//! exactly the transition's, and that the cross-table invariant is kept.

use vstd::prelude::*;

use crate::state::{
    lemma_fees_inv_same, lemma_item_inv_same, lemma_nft_inv_same, lemma_token_inv_same,
    Cw721Contract, StateM,
};
use crate::types::{
    Approval, ContractError, Env, EnvM, Expiration, MessageInfo, MintMsg, MintMsgM,
    PackableM, PackableToken, ReceiveNotice, ReceiveNoticeM, TokenInfo, TokenM,
};

verus! {

/// The approvals kept when rewriting a spender's approval: all the others.
pub open spec fn keeps(spender: Seq<char>) -> spec_fn(crate::types::ApprovalM) -> bool {
    |a: crate::types::ApprovalM| a.spender != spender
}

impl StateM {
    /// Whether `sender` may move `t` out of its owner's hands: the owner,
    /// a holder of an unexpired approval, or an unexpired operator.
    pub open spec fn can_send(self, env: EnvM, sender: Seq<char>, t: TokenM) -> bool {
        ||| t.owner == sender
        ||| exists|k: int|
            0 <= k < t.approvals.len() && (#[trigger] t.approvals[k]).spender == sender
                && !t.approvals[k].expires.spec_is_expired(env.block)
        ||| (self.operators.contains_key((t.owner, sender)) && !self.operators[
            (t.owner, sender)
        ].spec_is_expired(env.block))
    }

    /// Whether `sender` may manage approvals of `t`: the owner or an
    /// unexpired operator.
    pub open spec fn can_approve(self, env: EnvM, sender: Seq<char>, t: TokenM) -> bool {
        ||| t.owner == sender
        ||| (self.operators.contains_key((t.owner, sender)) && !self.operators[
            (t.owner, sender)
        ].spec_is_expired(env.block))
    }

    /// Transition of minting one packable item.
    pub open spec fn mint_packable_spec(self, sender: Seq<char>, msg: MintMsgM) -> Result<
        StateM,
        ContractError,
    > {
        if sender != self.minter {
            Err(ContractError::Unauthorized)
        } else if self.token_uri_exists.contains(msg.token_uri) {
            Err(ContractError::ExistTokenUri)
        } else if self.token_name_exists.contains(msg.name) {
            Err(ContractError::ExistTokenName)
        } else if self.tokens.contains_key(msg.token_id) {
            Err(ContractError::Claimed)
        } else if self.packable_nfts.contains_key(msg.token_id) {
            Err(ContractError::Claimed)
        } else {
            Ok(
                StateM {
                    tokens: self.tokens.insert(
                        msg.token_id,
                        TokenM {
                            owner: msg.owner,
                            approvals: Seq::empty(),
                            token_uri: msg.token_uri,
                        },
                    ),
                    token_count: (self.token_count + 1) as u64,
                    packable_nfts: self.packable_nfts.insert(
                        msg.token_id,
                        PackableM {
                            token_id: msg.token_id,
                            token_name: msg.name,
                            token_uri: msg.token_uri,
                            minted_by: sender,
                            current_owner: sender,
                            previous_owner: None,
                            price: msg.price,
                            number_of_transfers: 0,
                            for_sale: true,
                        },
                    ),
                    token_uri_exists: self.token_uri_exists.insert(msg.token_uri),
                    token_name_exists: self.token_name_exists.insert(msg.name),
                    ..self
                },
            )
        }
    }

    /// Transition of burning one packable item: the record, its side-index
    /// row, and both registry reservations go together.
    pub open spec fn burn_packable_spec(self, env: EnvM, sender: Seq<char>, token_id: Seq<char>)
        -> Result<StateM, ContractError> {
        if !self.tokens.contains_key(token_id) {
            Err(ContractError::NotFound)
        } else if !self.can_send(env, sender, self.tokens[token_id]) {
            Err(ContractError::Unauthorized)
        } else if !self.packable_nfts.contains_key(token_id) {
            Err(ContractError::NotFound)
        } else {
            Ok(
                StateM {
                    tokens: self.tokens.remove(token_id),
                    token_count: (self.token_count - 1) as u64,
                    packable_nfts: self.packable_nfts.remove(token_id),
                    token_uri_exists: self.token_uri_exists.remove(
                        self.packable_nfts[token_id].token_uri,
                    ),
                    token_name_exists: self.token_name_exists.remove(
                        self.packable_nfts[token_id].token_name,
                    ),
                    ..self
                },
            )
        }
    }

    /// Transition of transferring one item: new owner, approvals cleared.
    pub open spec fn transfer_nft_spec(
        self,
        env: EnvM,
        sender: Seq<char>,
        recipient: Seq<char>,
        token_id: Seq<char>,
    ) -> Result<StateM, ContractError> {
        if !self.tokens.contains_key(token_id) {
            Err(ContractError::NotFound)
        } else if !self.can_send(env, sender, self.tokens[token_id]) {
            Err(ContractError::Unauthorized)
        } else {
            Ok(
                StateM {
                    tokens: self.tokens.insert(
                        token_id,
                        TokenM {
                            owner: recipient,
                            approvals: Seq::empty(),
                            token_uri: self.tokens[token_id].token_uri,
                        },
                    ),
                    ..self
                },
            )
        }
    }

    /// Transition of granting or revoking one item approval: any previous
    /// approval of the same spender goes; a grant must not be expired.
    pub open spec fn update_approvals_spec(
        self,
        env: EnvM,
        sender: Seq<char>,
        spender: Seq<char>,
        token_id: Seq<char>,
        add: bool,
        expires: Option<Expiration>,
    ) -> Result<StateM, ContractError> {
        if !self.tokens.contains_key(token_id) {
            Err(ContractError::NotFound)
        } else if !self.can_approve(env, sender, self.tokens[token_id]) {
            Err(ContractError::Unauthorized)
        } else {
            let t = self.tokens[token_id];
            let kept = t.approvals.filter(keeps(spender));
            if add {
                let exp = expires.unwrap_or(Expiration::Never);
                if exp.spec_is_expired(env.block) {
                    Err(ContractError::Expired)
                } else {
                    Ok(
                        StateM {
                            tokens: self.tokens.insert(
                                token_id,
                                TokenM {
                                    approvals: kept.push(
                                        crate::types::ApprovalM { spender, expires: exp },
                                    ),
                                    ..t
                                },
                            ),
                            ..self
                        },
                    )
                }
            } else {
                Ok(
                    StateM {
                        tokens: self.tokens.insert(token_id, TokenM { approvals: kept, ..t }),
                        ..self
                    },
                )
            }
        }
    }

    /// Transition of granting an operator over all of the sender's items.
    pub open spec fn approve_all_spec(
        self,
        env: EnvM,
        sender: Seq<char>,
        operator: Seq<char>,
        expires: Option<Expiration>,
    ) -> Result<StateM, ContractError> {
        let exp = expires.unwrap_or(Expiration::Never);
        if exp.spec_is_expired(env.block) {
            Err(ContractError::Expired)
        } else {
            Ok(StateM { operators: self.operators.insert((sender, operator), exp), ..self })
        }
    }

    /// Transition of revoking an operator grant.
    pub open spec fn revoke_all_spec(self, sender: Seq<char>, operator: Seq<char>) -> StateM {
        StateM { operators: self.operators.remove((sender, operator)), ..self }
    }

    /// Transition of burning one plain item record.
    pub open spec fn burn_spec(self, env: EnvM, sender: Seq<char>, token_id: Seq<char>) -> Result<
        StateM,
        ContractError,
    > {
        if !self.tokens.contains_key(token_id) {
            Err(ContractError::NotFound)
        } else if !self.can_send(env, sender, self.tokens[token_id]) {
            Err(ContractError::Unauthorized)
        } else {
            Ok(
                StateM {
                    tokens: self.tokens.remove(token_id),
                    token_count: (self.token_count - 1) as u64,
                    ..self
                },
            )
        }
    }
}

/// The packable-row and registry clauses of the item invariant, after the
/// item table alone changed.
pub proof fn lemma_packable_side_same(s: StateM, s2: StateM)
    requires
        s.item_inv(),
        s2.packable_nfts == s.packable_nfts,
        s2.token_uri_exists == s.token_uri_exists,
        s2.token_name_exists == s.token_name_exists,
        s2.tokens.dom().finite(),
        s2.token_count == s2.tokens.dom().len(),
    ensures
        s2.item_inv(),
{
    lemma_item_inv_same(
        StateM { tokens: s2.tokens, token_count: s2.token_count, ..s },
        s2,
    );
}

/// Minting keeps the invariant: the new record, side-index row and
/// reservations are mutually fresh and consistent.
pub proof fn lemma_mint_packable_preserves_inv(s: StateM, sender: Seq<char>, msg: MintMsgM)
    requires
        s.inv(),
        s.token_count < u64::MAX,
    ensures
        s.mint_packable_spec(sender, msg) is Ok ==> s.mint_packable_spec(sender, msg)->Ok_0.inv(),
{
    if s.mint_packable_spec(sender, msg) is Ok {
        let s2 = s.mint_packable_spec(sender, msg)->Ok_0;
        assert(s2.tokens.dom() =~= s.tokens.dom().insert(msg.token_id));
        vstd::set::axiom_set_insert_len(s.tokens.dom(), msg.token_id);
        assert forall|tid: Seq<char>| #[trigger] s2.packable_nfts.contains_key(tid) implies {
            &&& s2.packable_nfts[tid].token_id == tid
            &&& s2.token_uri_exists.contains(s2.packable_nfts[tid].token_uri)
            &&& s2.token_name_exists.contains(s2.packable_nfts[tid].token_name)
        } by {
            if tid != msg.token_id {
                assert(s.packable_nfts.contains_key(tid));
            }
        }
        assert forall|u: Seq<char>| #[trigger] s2.token_uri_exists.contains(u)
            implies exists|tid: Seq<char>| #[trigger]
            s2.packable_nfts.contains_key(tid) && s2.packable_nfts[tid].token_uri == u by {
            if u == msg.token_uri {
                assert(s2.packable_nfts.contains_key(msg.token_id));
            } else {
                assert(s.token_uri_exists.contains(u));
                let tid = choose|tid: Seq<char>| #[trigger]
                    s.packable_nfts.contains_key(tid) && s.packable_nfts[tid].token_uri == u;
                assert(s2.packable_nfts.contains_key(tid));
            }
        }
        assert forall|n: Seq<char>| #[trigger] s2.token_name_exists.contains(n)
            implies exists|tid: Seq<char>| #[trigger]
            s2.packable_nfts.contains_key(tid) && s2.packable_nfts[tid].token_name == n by {
            if n == msg.name {
                assert(s2.packable_nfts.contains_key(msg.token_id));
            } else {
                assert(s.token_name_exists.contains(n));
                let tid = choose|tid: Seq<char>| #[trigger]
                    s.packable_nfts.contains_key(tid) && s.packable_nfts[tid].token_name == n;
                assert(s2.packable_nfts.contains_key(tid));
            }
        }
        assert forall|i: Seq<char>, j: Seq<char>|
            #[trigger] s2.packable_nfts.contains_key(i) && #[trigger] s2.packable_nfts.contains_key(
                j,
            ) && i != j implies s2.packable_nfts[i].token_uri != s2.packable_nfts[j].token_uri
            && s2.packable_nfts[i].token_name != s2.packable_nfts[j].token_name by {
            if i != msg.token_id && j != msg.token_id {
                assert(s.packable_nfts.contains_key(i));
                assert(s.packable_nfts.contains_key(j));
            } else if i == msg.token_id {
                assert(s.packable_nfts.contains_key(j));
            } else {
                assert(s.packable_nfts.contains_key(i));
            }
        }
        lemma_nft_inv_same(s, s2);
        lemma_token_inv_same(s, s2);
        lemma_fees_inv_same(s, s2);
    }
}

/// Burning a packable item keeps the invariant: the registries lose exactly
/// the burned row's uri and name, which no other row bears.
pub proof fn lemma_burn_packable_preserves_inv(
    s: StateM,
    env: EnvM,
    sender: Seq<char>,
    token_id: Seq<char>,
)
    requires
        s.inv(),
    ensures
        s.burn_packable_spec(env, sender, token_id) is Ok ==> s.burn_packable_spec(
            env,
            sender,
            token_id,
        )->Ok_0.inv(),
{
    if s.burn_packable_spec(env, sender, token_id) is Ok {
        let s2 = s.burn_packable_spec(env, sender, token_id)->Ok_0;
        assert(s2.tokens.dom() =~= s.tokens.dom().remove(token_id));
        vstd::set::axiom_set_remove_len(s.tokens.dom(), token_id);
        assert forall|tid: Seq<char>| #[trigger] s2.packable_nfts.contains_key(tid) implies {
            &&& s2.packable_nfts[tid].token_id == tid
            &&& s2.token_uri_exists.contains(s2.packable_nfts[tid].token_uri)
            &&& s2.token_name_exists.contains(s2.packable_nfts[tid].token_name)
        } by {
            assert(s.packable_nfts.contains_key(tid));
            assert(s.packable_nfts.contains_key(token_id));
            assert(tid != token_id);
        }
        assert forall|u: Seq<char>| #[trigger] s2.token_uri_exists.contains(u)
            implies exists|tid: Seq<char>| #[trigger]
            s2.packable_nfts.contains_key(tid) && s2.packable_nfts[tid].token_uri == u by {
            assert(s.token_uri_exists.contains(u));
            let tid = choose|tid: Seq<char>| #[trigger]
                s.packable_nfts.contains_key(tid) && s.packable_nfts[tid].token_uri == u;
            assert(s.packable_nfts.contains_key(token_id));
            assert(tid != token_id);
            assert(s2.packable_nfts.contains_key(tid));
        }
        assert forall|n: Seq<char>| #[trigger] s2.token_name_exists.contains(n)
            implies exists|tid: Seq<char>| #[trigger]
            s2.packable_nfts.contains_key(tid) && s2.packable_nfts[tid].token_name == n by {
            assert(s.token_name_exists.contains(n));
            let tid = choose|tid: Seq<char>| #[trigger]
                s.packable_nfts.contains_key(tid) && s.packable_nfts[tid].token_name == n;
            assert(s.packable_nfts.contains_key(token_id));
            assert(tid != token_id);
            assert(s2.packable_nfts.contains_key(tid));
        }
        assert forall|i: Seq<char>, j: Seq<char>|
            #[trigger] s2.packable_nfts.contains_key(i) && #[trigger] s2.packable_nfts.contains_key(
                j,
            ) && i != j implies s2.packable_nfts[i].token_uri != s2.packable_nfts[j].token_uri
            && s2.packable_nfts[i].token_name != s2.packable_nfts[j].token_name by {
            assert(s.packable_nfts.contains_key(i));
            assert(s.packable_nfts.contains_key(j));
        }
        lemma_nft_inv_same(s, s2);
        lemma_token_inv_same(s, s2);
        lemma_fees_inv_same(s, s2);
    }
}

/// Updating one item record in place keeps the invariant: the item table's
/// domain does not change, and nothing else moves.
pub proof fn lemma_token_update_preserves_inv(s: StateM, token_id: Seq<char>, t: TokenM)
    requires
        s.inv(),
        s.tokens.contains_key(token_id),
    ensures
        (StateM { tokens: s.tokens.insert(token_id, t), ..s }).inv(),
{
    let s2 = StateM { tokens: s.tokens.insert(token_id, t), ..s };
    assert(s2.tokens.dom() =~= s.tokens.dom());
    lemma_packable_side_same(s, s2);
    lemma_nft_inv_same(s, s2);
    lemma_token_inv_same(s, s2);
    lemma_fees_inv_same(s, s2);
}

/// Burning a plain item record keeps the invariant.
pub proof fn lemma_burn_preserves_inv(s: StateM, env: EnvM, sender: Seq<char>, token_id: Seq<char>)
    requires
        s.inv(),
    ensures
        s.burn_spec(env, sender, token_id) is Ok ==> s.burn_spec(env, sender, token_id)->Ok_0.inv(),
{
    if s.burn_spec(env, sender, token_id) is Ok {
        let s2 = s.burn_spec(env, sender, token_id)->Ok_0;
        assert(s2.tokens.dom() =~= s.tokens.dom().remove(token_id));
        vstd::set::axiom_set_remove_len(s.tokens.dom(), token_id);
        lemma_packable_side_same(s, s2);
        lemma_nft_inv_same(s, s2);
        lemma_token_inv_same(s, s2);
        lemma_fees_inv_same(s, s2);
    }
}

/// Changing only the operator table keeps the invariant.
pub proof fn lemma_operators_update_preserves_inv(
    s: StateM,
    m: Map<(Seq<char>, Seq<char>), Expiration>,
)
    requires
        s.inv(),
    ensures
        (StateM { operators: m, ..s }).inv(),
{
    let s2 = StateM { operators: m, ..s };
    lemma_item_inv_same(s, s2);
    lemma_nft_inv_same(s, s2);
    lemma_token_inv_same(s, s2);
    lemma_fees_inv_same(s, s2);
}

impl Cw721Contract {
    /// Returns whether the sender may manage approvals of `token`: its
    /// owner, or an operator holding an unexpired grant.
    pub fn check_can_approve(&self, env: &Env, info: &MessageInfo, token: &TokenInfo) -> (r:
        Result<(), ContractError>)
        requires
            self.wf(),
        ensures
            r is Ok <==> self@.can_approve(env.deep_view(), info.sender@, token.deep_view()),
            r is Err ==> r == Err::<(), ContractError>(ContractError::Unauthorized),
    {
        if token.owner == info.sender {
            return Ok(());
        }
        match self.operators.get(&(token.owner.clone(), info.sender.clone())) {
            Some(ex) => {
                if ex.is_expired(&env.block) {
                    Err(ContractError::Unauthorized)
                } else {
                    Ok(())
                }
            },
            None => Err(ContractError::Unauthorized),
        }
    }

    /// Returns whether the sender may move `token`: its owner, a holder of
    /// an unexpired approval, or an operator holding an unexpired grant.
    pub fn check_can_send(&self, env: &Env, info: &MessageInfo, token: &TokenInfo) -> (r: Result<
        (),
        ContractError,
    >)
        requires
            self.wf(),
        ensures
            r is Ok <==> self@.can_send(env.deep_view(), info.sender@, token.deep_view()),
            r is Err ==> r == Err::<(), ContractError>(ContractError::Unauthorized),
    {
        if token.owner == info.sender {
            return Ok(());
        }
        let n = token.approvals.len();
        let mut i: usize = 0;
        while i < n
            invariant
                n == token.approvals@.len(),
                i <= n,
                forall|j: int|
                    0 <= j < i ==> !((#[trigger] token.approvals@[j]).spender@ == info.sender@
                        && !token.approvals@[j].expires.spec_is_expired(env.block)),
            decreases n - i,
        {
            if token.approvals[i].spender == info.sender && !token.approvals[i].is_expired(
                &env.block,
            ) {
                assert(token.deep_view().approvals[i as int].spender == info.sender@);
                return Ok(());
            }
            i = i + 1;
        }
        assert forall|k: int| 0 <= k < token.deep_view().approvals.len()
            implies !((#[trigger] token.deep_view().approvals[k]).spender == info.sender@
            && !token.deep_view().approvals[k].expires.spec_is_expired(env.block)) by {
            assert(token.deep_view().approvals[k] == token.approvals@[k].deep_view());
        }
        match self.operators.get(&(token.owner.clone(), info.sender.clone())) {
            Some(ex) => {
                if ex.is_expired(&env.block) {
                    Err(ContractError::Unauthorized)
                } else {
                    Ok(())
                }
            },
            None => Err(ContractError::Unauthorized),
        }
    }

    /// Mints one packable item: only the minter may; the id must be
    /// unclaimed and the uri and name unreserved. Writes the item record,
    /// the side-index row, and both reservations together.
    pub fn mint_packable(&mut self, _env: &Env, info: &MessageInfo, msg: MintMsg) -> (r: Result<
        (),
        ContractError,
    >)
        requires
            old(self).wf(),
            old(self)@.inv(),
            old(self)@.token_count < u64::MAX,
        ensures
            final(self).wf(),
            final(self)@.inv(),
            (match old(self)@.mint_packable_spec(info.sender@, msg.deep_view()) {
                Ok(s2) => r is Ok && final(self)@ == s2,
                Err(e) => r == Err::<(), ContractError>(e) && final(self)@ == old(self)@,
            }),
    {
        proof {
            lemma_mint_packable_preserves_inv(old(self)@, info.sender@, msg.deep_view());
        }
        if !(self.minter == info.sender) {
            return Err(ContractError::Unauthorized);
        }
        if !self.token_uri_exists.is_free(&msg.token_uri) {
            return Err(ContractError::ExistTokenUri);
        }
        if !self.token_name_exists.is_free(&msg.name) {
            return Err(ContractError::ExistTokenName);
        }
        if self.tokens.contains_key(&msg.token_id) {
            return Err(ContractError::Claimed);
        }
        if self.packable_nfts.contains_key(&msg.token_id) {
            return Err(ContractError::Claimed);
        }
        let token = TokenInfo {
            owner: msg.owner,
            approvals: Vec::new(),
            token_uri: msg.token_uri.clone(),
        };
        self.tokens.save(msg.token_id.clone(), token);
        self.increment_tokens();
        let packable = PackableToken {
            token_id: msg.token_id.clone(),
            token_name: msg.name.clone(),
            token_uri: msg.token_uri.clone(),
            minted_by: info.sender.clone(),
            current_owner: info.sender.clone(),
            previous_owner: None,
            price: msg.price,
            number_of_transfers: 0,
            for_sale: true,
        };
        self.packable_nfts.save(msg.token_id, packable);
        self.token_uri_exists.reserve(msg.token_uri);
        self.token_name_exists.reserve(msg.name);
        proof {
            let s2 = old(self)@.mint_packable_spec(info.sender@, msg.deep_view())->Ok_0;
            assert(self@ =~~= s2);
        }
        Ok(())
    }

    /// Burns one packable item the sender may send: deletes the record and
    /// the side-index row and frees the uri and name reservations.
    pub fn burn_packable(&mut self, env: &Env, info: &MessageInfo, token_id: String) -> (r: Result<
        (),
        ContractError,
    >)
        requires
            old(self).wf(),
            old(self)@.inv(),
        ensures
            final(self).wf(),
            final(self)@.inv(),
            (match old(self)@.burn_packable_spec(env.deep_view(), info.sender@, token_id@) {
                Ok(s2) => r is Ok && final(self)@ == s2,
                Err(e) => r == Err::<(), ContractError>(e) && final(self)@ == old(self)@,
            }),
    {
        proof {
            lemma_burn_packable_preserves_inv(old(self)@, env.deep_view(), info.sender@, token_id@);
        }
        let can = match self.tokens.get(&token_id) {
            None => {
                return Err(ContractError::NotFound);
            },
            Some(token) => self.check_can_send(env, info, token),
        };
        if can.is_err() {
            return Err(ContractError::Unauthorized);
        }
        let packable = match self.packable_nfts.take(&token_id) {
            None => {
                return Err(ContractError::NotFound);
            },
            Some(p) => p,
        };
        self.tokens.remove(&token_id);
        self.token_uri_exists.release(&packable.token_uri);
        self.token_name_exists.release(&packable.token_name);
        proof {
            vstd::set::axiom_set_remove_len(old(self)@.tokens.dom(), token_id@);
        }
        self.decrement_tokens();
        proof {
            let s2 = old(self)@.burn_packable_spec(env.deep_view(), info.sender@, token_id@)->Ok_0;
            assert(self@ =~~= s2);
        }
        Ok(())
    }

    /// Transfers one item the sender may send: the recipient becomes owner
    /// and the approvals are cleared.
    pub fn transfer_nft(&mut self, env: &Env, info: &MessageInfo, recipient: String, token_id:
        String) -> (r: Result<(), ContractError>)
        requires
            old(self).wf(),
            old(self)@.inv(),
        ensures
            final(self).wf(),
            final(self)@.inv(),
            (match old(self)@.transfer_nft_spec(
                env.deep_view(),
                info.sender@,
                recipient@,
                token_id@,
            ) {
                Ok(s2) => r is Ok && final(self)@ == s2,
                Err(e) => r == Err::<(), ContractError>(e) && final(self)@ == old(self)@,
            }),
    {
        self._transfer_nft(env, info, &recipient, &token_id)
    }

    /// Shared transfer step of `transfer_nft` and `send_nft`.
    pub fn _transfer_nft(&mut self, env: &Env, info: &MessageInfo, recipient: &String,
        token_id: &String) -> (r: Result<(), ContractError>)
        requires
            old(self).wf(),
            old(self)@.inv(),
        ensures
            final(self).wf(),
            final(self)@.inv(),
            (match old(self)@.transfer_nft_spec(
                env.deep_view(),
                info.sender@,
                recipient@,
                token_id@,
            ) {
                Ok(s2) => r is Ok && final(self)@ == s2,
                Err(e) => r == Err::<(), ContractError>(e) && final(self)@ == old(self)@,
            }),
    {
        let can = match self.tokens.get(token_id) {
            None => {
                return Err(ContractError::NotFound);
            },
            Some(token) => self.check_can_send(env, info, token),
        };
        if can.is_err() {
            return Err(ContractError::Unauthorized);
        }
        let mut token = self.tokens.take(token_id).unwrap();
        token.owner = recipient.clone();
        token.approvals = Vec::new();
        self.tokens.save(token_id.clone(), token);
        proof {
            lemma_token_update_preserves_inv(
                old(self)@,
                token_id@,
                old(self)@.transfer_nft_spec(
                    env.deep_view(),
                    info.sender@,
                    recipient@,
                    token_id@,
                )->Ok_0.tokens[token_id@],
            );
            let s2 = old(self)@.transfer_nft_spec(
                env.deep_view(),
                info.sender@,
                recipient@,
                token_id@,
            )->Ok_0;
            assert(self@ =~~= s2);
        }
        Ok(())
    }

    /// Transfers one item to a receiving contract and returns the notice
    /// for it; the host forwards the notice.
    pub fn send_nft(&mut self, env: &Env, info: &MessageInfo, contract: String, token_id: String,
        msg: Vec<u8>) -> (r: Result<ReceiveNotice, ContractError>)
        requires
            old(self).wf(),
            old(self)@.inv(),
        ensures
            final(self).wf(),
            final(self)@.inv(),
            (match old(self)@.transfer_nft_spec(
                env.deep_view(),
                info.sender@,
                contract@,
                token_id@,
            ) {
                Ok(s2) => r is Ok && final(self)@ == s2 && r->Ok_0.deep_view()
                    == (ReceiveNoticeM {
                    contract: contract@,
                    sender: info.sender@,
                    token_id: token_id@,
                    msg: msg.deep_view(),
                }),
                Err(e) => r == Err::<ReceiveNotice, ContractError>(e) && final(self)@ == old(
                    self,
                )@,
            }),
    {
        let res = self._transfer_nft(env, info, &contract, &token_id);
        match res {
            Ok(_) => Ok(
                ReceiveNotice { contract, sender: info.sender.clone(), token_id, msg },
            ),
            Err(e) => Err(e),
        }
    }

    /// Grants `spender` a fresh approval on one item the sender may manage;
    /// an expired grant is refused.
    pub fn approve(&mut self, env: &Env, info: &MessageInfo, spender: String, token_id: String,
        expires: Option<Expiration>) -> (r: Result<(), ContractError>)
        requires
            old(self).wf(),
            old(self)@.inv(),
        ensures
            final(self).wf(),
            final(self)@.inv(),
            (match old(self)@.update_approvals_spec(
                env.deep_view(),
                info.sender@,
                spender@,
                token_id@,
                true,
                expires,
            ) {
                Ok(s2) => r is Ok && final(self)@ == s2,
                Err(e) => r == Err::<(), ContractError>(e) && final(self)@ == old(self)@,
            }),
    {
        self._update_approvals(env, info, &spender, &token_id, true, expires)
    }

    /// Removes `spender`'s approval on one item the sender may manage.
    pub fn revoke(&mut self, env: &Env, info: &MessageInfo, spender: String, token_id: String)
        -> (r: Result<(), ContractError>)
        requires
            old(self).wf(),
            old(self)@.inv(),
        ensures
            final(self).wf(),
            final(self)@.inv(),
            (match old(self)@.update_approvals_spec(
                env.deep_view(),
                info.sender@,
                spender@,
                token_id@,
                false,
                None,
            ) {
                Ok(s2) => r is Ok && final(self)@ == s2,
                Err(e) => r == Err::<(), ContractError>(e) && final(self)@ == old(self)@,
            }),
    {
        self._update_approvals(env, info, &spender, &token_id, false, None)
    }

    /// Rewrites one item's approval list: drops any approval of `spender`,
    /// then, when adding, appends the new grant.
    pub fn _update_approvals(&mut self, env: &Env, info: &MessageInfo, spender: &String, token_id:
        &String, add: bool, expires: Option<Expiration>) -> (r: Result<(), ContractError>)
        requires
            old(self).wf(),
            old(self)@.inv(),
        ensures
            final(self).wf(),
            final(self)@.inv(),
            (match old(self)@.update_approvals_spec(
                env.deep_view(),
                info.sender@,
                spender@,
                token_id@,
                add,
                expires,
            ) {
                Ok(s2) => r is Ok && final(self)@ == s2,
                Err(e) => r == Err::<(), ContractError>(e) && final(self)@ == old(self)@,
            }),
    {
        let can = match self.tokens.get(token_id) {
            None => {
                return Err(ContractError::NotFound);
            },
            Some(token) => self.check_can_approve(env, info, token),
        };
        if can.is_err() {
            return Err(ContractError::Unauthorized);
        }
        let exp = match expires {
            Some(e) => e,
            None => Expiration::Never,
        };
        if add && exp.is_expired(&env.block) {
            return Err(ContractError::Expired);
        }
        let mut token = self.tokens.take(token_id).unwrap();
        let ghost t = old(self)@.tokens[token_id@];
        let n = token.approvals.len();
        let mut kept: Vec<Approval> = Vec::new();
        let mut i: usize = 0;
        while i < n
            invariant
                n == token.approvals@.len(),
                i <= n,
                token.approvals.deep_view() == t.approvals,
                kept.deep_view() =~= t.approvals.take(i as int).filter(keeps(spender@)),
            decreases n - i,
        {
            let ghost kept0 = kept.deep_view();
            proof {
                assert(t.approvals.take(i as int + 1) =~= t.approvals.take(i as int).push(
                    t.approvals[i as int],
                ));
                t.approvals.take(i as int).lemma_filter_push(t.approvals[i as int], keeps(spender@));
                assert(t.approvals[i as int] == token.approvals@[i as int].deep_view());
            }
            if !(token.approvals[i].spender == *spender) {
                let a = Approval {
                    spender: token.approvals[i].spender.clone(),
                    expires: token.approvals[i].expires,
                };
                proof {
                    assert(a.deep_view() == t.approvals[i as int]);
                    assert(keeps(spender@)(t.approvals[i as int]));
                }
                kept.push(a);
                proof {
                    assert(kept.deep_view() =~= kept0.push(t.approvals[i as int]));
                }
            } else {
                proof {
                    assert(!(keeps(spender@)(t.approvals[i as int])));
                }
            }
            proof {
                assert(kept.deep_view() =~= t.approvals.take(i as int + 1).filter(
                    keeps(spender@),
                ));
            }
            i = i + 1;
        }
        proof {
            assert(t.approvals.take(n as int) =~= t.approvals);
        }
        if add {
            kept.push(Approval { spender: spender.clone(), expires: exp });
        }
        token.approvals = kept;
        self.tokens.save(token_id.clone(), token);
        proof {
            let s2 = old(self)@.update_approvals_spec(
                env.deep_view(),
                info.sender@,
                spender@,
                token_id@,
                add,
                expires,
            )->Ok_0;
            lemma_token_update_preserves_inv(old(self)@, token_id@, s2.tokens[token_id@]);
            assert(self@ =~~= s2);
        }
        Ok(())
    }

    /// Grants `operator` control over all of the sender's items until the
    /// grant expires; an already expired grant is refused.
    pub fn approve_all(&mut self, env: &Env, info: &MessageInfo, operator: String, expires: Option<
        Expiration,
    >) -> (r: Result<(), ContractError>)
        requires
            old(self).wf(),
            old(self)@.inv(),
        ensures
            final(self).wf(),
            final(self)@.inv(),
            (match old(self)@.approve_all_spec(env.deep_view(), info.sender@, operator@, expires) {
                Ok(s2) => r is Ok && final(self)@ == s2,
                Err(e) => r == Err::<(), ContractError>(e) && final(self)@ == old(self)@,
            }),
    {
        let exp = match expires {
            Some(e) => e,
            None => Expiration::Never,
        };
        if exp.is_expired(&env.block) {
            return Err(ContractError::Expired);
        }
        self.operators.save((info.sender.clone(), operator), exp);
        proof {
            lemma_operators_update_preserves_inv(old(self)@, self@.operators);
            let s2 = old(self)@.approve_all_spec(
                env.deep_view(),
                info.sender@,
                operator@,
                expires,
            )->Ok_0;
            assert(self@ =~~= s2);
        }
        Ok(())
    }

    /// Revokes `operator`'s grant over the sender's items.
    pub fn revoke_all(&mut self, _env: &Env, info: &MessageInfo, operator: String) -> (r: Result<
        (),
        ContractError,
    >)
        requires
            old(self).wf(),
            old(self)@.inv(),
        ensures
            final(self).wf(),
            final(self)@.inv(),
            r is Ok,
            final(self)@ == old(self)@.revoke_all_spec(info.sender@, operator@),
    {
        self.operators.remove(&(info.sender.clone(), operator));
        proof {
            lemma_operators_update_preserves_inv(old(self)@, self@.operators);
            assert(self@ =~~= old(self)@.revoke_all_spec(info.sender@, operator@));
        }
        Ok(())
    }

    /// Burns one plain item record the sender may send.
    pub fn burn(&mut self, env: &Env, info: &MessageInfo, token_id: String) -> (r: Result<
        (),
        ContractError,
    >)
        requires
            old(self).wf(),
            old(self)@.inv(),
        ensures
            final(self).wf(),
            final(self)@.inv(),
            (match old(self)@.burn_spec(env.deep_view(), info.sender@, token_id@) {
                Ok(s2) => r is Ok && final(self)@ == s2,
                Err(e) => r == Err::<(), ContractError>(e) && final(self)@ == old(self)@,
            }),
    {
        proof {
            lemma_burn_preserves_inv(old(self)@, env.deep_view(), info.sender@, token_id@);
        }
        let can = match self.tokens.get(&token_id) {
            None => {
                return Err(ContractError::NotFound);
            },
            Some(token) => self.check_can_send(env, info, token),
        };
        if can.is_err() {
            return Err(ContractError::Unauthorized);
        }
        self.tokens.remove(&token_id);
        proof {
            vstd::set::axiom_set_remove_len(old(self)@.tokens.dom(), token_id@);
        }
        self.decrement_tokens();
        proof {
            let s2 = old(self)@.burn_spec(env.deep_view(), info.sender@, token_id@)->Ok_0;
            assert(self@ =~~= s2);
        }
        Ok(())
    }
}

} // verus!
