//! The caller-facing dispatch: one entry that routes a message to its
//! operation and collects the emitted outbound messages.

use vstd::prelude::*;

use crate::state::{Cw721Contract, StateM};
use crate::types::{
    ContractError, Env, EnvM, ExecuteMsg, ExecuteMsgM, MessageInfo, MessageInfoM, OutMsg, OutMsgM,
    ReceiveNoticeM, Response,
};

verus! {

impl StateM {
    /// What each dispatched message may assume of the state: the machine
    /// limits of the counters it steps, and that a recorded fraction is a
    /// fraction.
    pub open spec fn execute_pre(self, msg: ExecuteMsgM) -> bool {
        match msg {
            ExecuteMsgM::MintPackable(_) => self.token_count < u64::MAX,
            ExecuteMsgM::PackNfts { royalty_fee, .. } => self.nft_pack_counter < u64::MAX
                && royalty_fee.wf(),
            ExecuteMsgM::PackTokens { royalty_fee, .. } => self.token_pack_counter < u64::MAX
                && royalty_fee.wf(),
            ExecuteMsgM::TransferNftPack { pack_id, .. } => self.nft_packs.contains_key(pack_id)
                ==> self.nft_packs[pack_id].number_of_transfers < u64::MAX,
            ExecuteMsgM::TransferTokenPack { pack_id, .. } => self.token_packs.contains_key(
                pack_id,
            ) ==> self.token_packs[pack_id].number_of_transfers < u64::MAX,
            _ => true,
        }
    }

    /// Transition of the dispatch: each message becomes its operation's
    /// transition, and the response carries the operation's outbound
    /// messages.
    pub open spec fn execute_spec(self, env: EnvM, info: MessageInfoM, msg: ExecuteMsgM) -> Result<
        (StateM, Seq<OutMsgM>),
        ContractError,
    > {
        match msg {
            ExecuteMsgM::MintPackable(m) => match self.mint_packable_spec(info.sender, m) {
                Ok(s2) => Ok((s2, Seq::empty())),
                Err(e) => Err(e),
            },
            ExecuteMsgM::PackNfts { token_ids, pack_name, price, royalty_fee } => {
                match self.pack_nfts_spec(env, info.sender, token_ids, pack_name, price,
                    royalty_fee) {
                    Ok((s2, _id)) => Ok((s2, Seq::empty())),
                    Err(e) => Err(e),
                }
            },
            ExecuteMsgM::UnpackNfts { pack_id } => match self.unpack_nfts_spec(
                env,
                info.sender,
                pack_id,
            ) {
                Ok(s2) => Ok((s2, Seq::empty())),
                Err(e) => Err(e),
            },
            ExecuteMsgM::ApproveNftPack { to, pack_id } => match self.approve_nft_pack_spec(
                info.sender,
                to,
                pack_id,
            ) {
                Ok(s2) => Ok((s2, Seq::empty())),
                Err(e) => Err(e),
            },
            ExecuteMsgM::TransferNftPack { from, to, pack_id } => {
                match self.transfer_nft_pack_spec(info.sender, from, to, pack_id) {
                    Ok(s2) => Ok((s2, Seq::empty())),
                    Err(e) => Err(e),
                }
            },
            ExecuteMsgM::PackTokens { pack_name, token_address, amount, price, royalty_fee } => {
                match self.pack_tokens_spec(info.sender, pack_name, token_address, amount, price,
                    royalty_fee) {
                    Ok((s2, _id)) => Ok((s2, Seq::empty())),
                    Err(e) => Err(e),
                }
            },
            ExecuteMsgM::UnpackTokens { pack_id } => match self.unpack_tokens_spec(
                info.sender,
                pack_id,
            ) {
                Ok((s2, pay)) => Ok((s2, seq![OutMsgM::Pay(pay)])),
                Err(e) => Err(e),
            },
            ExecuteMsgM::ApproveTokenPack { pack_id, to } => match self.approve_token_pack_spec(
                info.sender,
                pack_id,
                to,
            ) {
                Ok(s2) => Ok((s2, Seq::empty())),
                Err(e) => Err(e),
            },
            ExecuteMsgM::TransferTokenPack { pack_id, from, to } => {
                match self.transfer_token_pack_spec(info.sender, pack_id, from, to) {
                    Ok(s2) => Ok((s2, Seq::empty())),
                    Err(e) => Err(e),
                }
            },
            ExecuteMsgM::Approve { spender, token_id, expires } => {
                match self.update_approvals_spec(env, info.sender, spender, token_id, true,
                    expires) {
                    Ok(s2) => Ok((s2, Seq::empty())),
                    Err(e) => Err(e),
                }
            },
            ExecuteMsgM::Revoke { spender, token_id } => {
                match self.update_approvals_spec(env, info.sender, spender, token_id, false,
                    None) {
                    Ok(s2) => Ok((s2, Seq::empty())),
                    Err(e) => Err(e),
                }
            },
            ExecuteMsgM::ApproveAll { operator, expires } => match self.approve_all_spec(
                env,
                info.sender,
                operator,
                expires,
            ) {
                Ok(s2) => Ok((s2, Seq::empty())),
                Err(e) => Err(e),
            },
            ExecuteMsgM::RevokeAll { operator } => Ok(
                (self.revoke_all_spec(info.sender, operator), Seq::empty()),
            ),
            ExecuteMsgM::TransferNft { recipient, token_id } => match self.transfer_nft_spec(
                env,
                info.sender,
                recipient,
                token_id,
            ) {
                Ok(s2) => Ok((s2, Seq::empty())),
                Err(e) => Err(e),
            },
            ExecuteMsgM::SendNft { contract, token_id, msg } => match self.transfer_nft_spec(
                env,
                info.sender,
                contract,
                token_id,
            ) {
                Ok(s2) => Ok(
                    (
                        s2,
                        seq![
                            OutMsgM::Notify(
                                ReceiveNoticeM {
                                    contract,
                                    sender: info.sender,
                                    token_id,
                                    msg,
                                },
                            ),
                        ],
                    ),
                ),
                Err(e) => Err(e),
            },
            ExecuteMsgM::BurnPackable { token_id } => match self.burn_packable_spec(
                env,
                info.sender,
                token_id,
            ) {
                Ok(s2) => Ok((s2, Seq::empty())),
                Err(e) => Err(e),
            },
        }
    }
}

/// A response carrying no outbound message.
fn empty_response() -> (r: Response)
    ensures
        r.deep_view() == Seq::<OutMsgM>::empty(),
{
    let r = Response { messages: Vec::new() };
    proof {
        assert(r.deep_view() =~= Seq::<OutMsgM>::empty());
    }
    r
}

impl Cw721Contract {
    /// Routes one caller-facing message to its operation. The response
    /// carries the operation's outbound messages; every typed failure of
    /// the operation is the failure of the dispatch, with no state change.
    pub fn execute(&mut self, env: &Env, info: &MessageInfo, msg: ExecuteMsg) -> (r: Result<
        Response,
        ContractError,
    >)
        requires
            old(self).wf(),
            old(self)@.inv(),
            old(self)@.execute_pre(msg.deep_view()),
        ensures
            final(self).wf(),
            final(self)@.inv(),
            (match old(self)@.execute_spec(env.deep_view(), info.deep_view(), msg.deep_view()) {
                Ok((s2, msgs)) => r is Ok && final(self)@ == s2 && r->Ok_0.deep_view() == msgs,
                Err(e) => r == Err::<Response, ContractError>(e) && final(self)@ == old(self)@,
            }),
    {
        match msg {
            ExecuteMsg::MintPackable(m) => match self.mint_packable(env, info, m) {
                Ok(_) => Ok(empty_response()),
                Err(e) => Err(e),
            },
            ExecuteMsg::PackNfts { token_ids, pack_name, price, royalty_fee } => {
                match self.pack_nfts(env, info, token_ids, pack_name, price, royalty_fee) {
                    Ok(_) => Ok(empty_response()),
                    Err(e) => Err(e),
                }
            },
            ExecuteMsg::UnpackNfts { pack_id } => match self.unpack_nfts(env, info, pack_id) {
                Ok(_) => Ok(empty_response()),
                Err(e) => Err(e),
            },
            ExecuteMsg::ApproveNftPack { to, pack_id } => {
                match self.approve_nft_pack(env, info, to, pack_id) {
                    Ok(_) => Ok(empty_response()),
                    Err(e) => Err(e),
                }
            },
            ExecuteMsg::TransferNftPack { from, to, pack_id } => {
                match self.transfer_nft_pack(env, info, from, to, pack_id) {
                    Ok(_) => Ok(empty_response()),
                    Err(e) => Err(e),
                }
            },
            ExecuteMsg::PackTokens { pack_name, token_address, amount, price, royalty_fee } => {
                match self.pack_tokens(env, info, pack_name, token_address, amount, price,
                    royalty_fee) {
                    Ok(_) => Ok(empty_response()),
                    Err(e) => Err(e),
                }
            },
            ExecuteMsg::UnpackTokens { pack_id } => match self.unpack_tokens(env, info, pack_id) {
                Ok(pay) => {
                    let mut messages: Vec<OutMsg> = Vec::new();
                    messages.push(OutMsg::Pay(pay));
                    let resp = Response { messages };
                    proof {
                        let paym = old(self)@.unpack_tokens_spec(info.sender@, pack_id)->Ok_0.1;
                        assert(resp.deep_view() =~= seq![OutMsgM::Pay(paym)]);
                    }
                    Ok(resp)
                },
                Err(e) => Err(e),
            },
            ExecuteMsg::ApproveTokenPack { pack_id, to } => {
                match self.approve_token_pack(env, info, pack_id, to) {
                    Ok(_) => Ok(empty_response()),
                    Err(e) => Err(e),
                }
            },
            ExecuteMsg::TransferTokenPack { pack_id, from, to } => {
                match self.transfer_token_pack(env, info, pack_id, from, to) {
                    Ok(_) => Ok(empty_response()),
                    Err(e) => Err(e),
                }
            },
            ExecuteMsg::Approve { spender, token_id, expires } => {
                match self.approve(env, info, spender, token_id, expires) {
                    Ok(_) => Ok(empty_response()),
                    Err(e) => Err(e),
                }
            },
            ExecuteMsg::Revoke { spender, token_id } => {
                match self.revoke(env, info, spender, token_id) {
                    Ok(_) => Ok(empty_response()),
                    Err(e) => Err(e),
                }
            },
            ExecuteMsg::ApproveAll { operator, expires } => {
                match self.approve_all(env, info, operator, expires) {
                    Ok(_) => Ok(empty_response()),
                    Err(e) => Err(e),
                }
            },
            ExecuteMsg::RevokeAll { operator } => match self.revoke_all(env, info, operator) {
                Ok(_) => Ok(empty_response()),
                Err(e) => Err(e),
            },
            ExecuteMsg::TransferNft { recipient, token_id } => {
                match self.transfer_nft(env, info, recipient, token_id) {
                    Ok(_) => Ok(empty_response()),
                    Err(e) => Err(e),
                }
            },
            ExecuteMsg::SendNft { contract, token_id, msg } => {
                match self.send_nft(env, info, contract, token_id, msg) {
                    Ok(notice) => {
                        let ghost noticem = notice.deep_view();
                        let mut messages: Vec<OutMsg> = Vec::new();
                        messages.push(OutMsg::Notify(notice));
                        let resp = Response { messages };
                        proof {
                            assert(resp.deep_view() =~= seq![OutMsgM::Notify(noticem)]);
                        }
                        Ok(resp)
                    },
                    Err(e) => Err(e),
                }
            },
            ExecuteMsg::BurnPackable { token_id } => {
                match self.burn_packable(env, info, token_id) {
                    Ok(_) => Ok(empty_response()),
                    Err(e) => Err(e),
                }
            },
        }
    }
}

} // verus!
