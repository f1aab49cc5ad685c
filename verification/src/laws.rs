//! The ledger's laws: properties that hold across operations, proved over
//! the state-model transitions that the operations' own contracts bind
//! them to.

use vstd::prelude::*;

use crate::packs::{
    lemma_nft_balance_headroom, lemma_pack_items_all_exist, lemma_park_items,
    lemma_unpack_items_error_none,
};
use crate::state::{nft_owner_map, owned_ids, StateM};
use crate::types::{ContractError, EnvM, Fraction};

verus! {

/// A successful packing issues a pack id strictly greater than every id
/// issued before, of either kind, and counts the packer's balance up by
/// exactly one.
pub proof fn lemma_pack_id_fresh(
    s: StateM,
    env: EnvM,
    sender: Seq<char>,
    ids: Seq<Seq<char>>,
    pack_name: Seq<char>,
    price: u64,
    royalty_fee: Fraction,
)
    requires
        s.inv(),
        s.nft_pack_counter < u64::MAX,
        s.pack_nfts_spec(env, sender, ids, pack_name, price, royalty_fee) is Ok,
    ensures
        forall|i: u64|
            s.nft_packs.contains_key(i) ==> i < s.pack_nfts_spec(
                env,
                sender,
                ids,
                pack_name,
                price,
                royalty_fee,
            )->Ok_0.1,
        s.pack_nfts_spec(env, sender, ids, pack_name, price, royalty_fee)->Ok_0.0.nft_balance_of(
            sender,
        ) == s.nft_balance_of(sender) + 1,
{
    lemma_nft_balance_headroom(s, sender);
}

/// A pack name is reserved exactly while a live pack bears it, and no two
/// live packs of one kind share a name: both directions, for both kinds.
pub proof fn lemma_name_reserved_iff_live(s: StateM)
    requires
        s.inv(),
    ensures
        forall|n: Seq<char>|
            #[trigger] s.pack_name_exists.contains(n) <==> exists|id: u64| #[trigger]
                s.nft_packs.contains_key(id) && s.nft_packs[id].pack_name == n,
        forall|n: Seq<char>|
            #[trigger] s.token_pack_name_exists.contains(n) <==> exists|id: u64| #[trigger]
                s.token_packs.contains_key(id) && s.token_packs[id].pack_name == n,
        forall|i: u64, j: u64|
            s.nft_packs.contains_key(i) && s.nft_packs.contains_key(j) && i != j
                ==> s.nft_packs[i].pack_name != s.nft_packs[j].pack_name,
        forall|i: u64, j: u64|
            s.token_packs.contains_key(i) && s.token_packs.contains_key(j) && i != j
                ==> s.token_packs[i].pack_name != s.token_packs[j].pack_name,
{
    assert forall|n: Seq<char>|
        #[trigger] s.pack_name_exists.contains(n) <==> exists|id: u64| #[trigger]
            s.nft_packs.contains_key(id) && s.nft_packs[id].pack_name == n by {
        if exists|id: u64| #[trigger] s.nft_packs.contains_key(id) && s.nft_packs[id].pack_name
            == n {
            let id = choose|id: u64| #[trigger]
                s.nft_packs.contains_key(id) && s.nft_packs[id].pack_name == n;
            assert(s.nft_pack_row_ok(id));
        }
    }
    assert forall|n: Seq<char>|
        #[trigger] s.token_pack_name_exists.contains(n) <==> exists|id: u64| #[trigger]
            s.token_packs.contains_key(id) && s.token_packs[id].pack_name == n by {
        if exists|id: u64| #[trigger] s.token_packs.contains_key(id) && s.token_packs[id].pack_name
            == n {
            let id = choose|id: u64| #[trigger]
                s.token_packs.contains_key(id) && s.token_packs[id].pack_name == n;
            assert(s.token_pack_row_ok(id));
        }
    }
}

/// Round trip: packing then unpacking by the packer, who is the sole
/// royalty-ledger holder, succeeds, restores every listed item's owner to
/// the packer, and fully frees the name reservation; unpacking the same id
/// again fails, and fails with the not-found error whenever the caller
/// still passes the balance gate.
pub proof fn lemma_pack_unpack_round_trip(
    s: StateM,
    env: EnvM,
    sender: Seq<char>,
    ids: Seq<Seq<char>>,
    pack_name: Seq<char>,
    price: u64,
    royalty_fee: Fraction,
)
    requires
        s.inv(),
        royalty_fee.wf(),
        s.nft_pack_counter < u64::MAX,
        s.pack_nfts_spec(env, sender, ids, pack_name, price, royalty_fee) is Ok,
    ensures
        ({
            let (s1, id) = s.pack_nfts_spec(env, sender, ids, pack_name, price, royalty_fee)
                ->Ok_0;
            &&& s1.unpack_nfts_spec(env, sender, id) is Ok
            &&& {
                let s2 = s1.unpack_nfts_spec(env, sender, id)->Ok_0;
                &&& forall|j: int|
                    0 <= j < ids.len() ==> s2.tokens.contains_key(#[trigger] ids[j])
                        && s2.tokens[ids[j]].owner == sender
                &&& !s2.pack_name_exists.contains(pack_name)
                &&& !s2.nft_packs.contains_key(id)
                &&& s2.unpack_nfts_spec(env, sender, id) is Err
                &&& (s2.nft_balance_of(sender) >= 1 ==> s2.unpack_nfts_spec(env, sender, id)
                    == Err::<StateM, ContractError>(ContractError::NotFound))
            }
        }),
{
    let (s1, id) = s.pack_nfts_spec(env, sender, ids, pack_name, price, royalty_fee)->Ok_0;
    lemma_nft_balance_headroom(s, sender);
    lemma_pack_items_all_exist(s, env, sender, ids);
    lemma_park_items(s.tokens, ids, env.contract_address);
    assert(s1.nft_packs[id].pack_items == ids);
    assert forall|j: int| 0 <= j < ids.len() implies s1.unpack_item_check(
        env,
        #[trigger] ids[j],
    ) is None by {
        assert(s1.tokens.contains_key(ids[j]));
        assert(s1.tokens[ids[j]].owner == env.contract_address);
    }
    lemma_unpack_items_error_none(s1, env, ids);
    assert(s1.unpack_nfts_spec(env, sender, id) is Ok);
    let s2 = s1.unpack_nfts_spec(env, sender, id)->Ok_0;
    lemma_park_items(s1.tokens, ids, sender);
    assert forall|j: int| 0 <= j < ids.len() implies s2.tokens.contains_key(#[trigger] ids[j])
        && s2.tokens[ids[j]].owner == sender by {
        assert(s1.tokens.contains_key(ids[j]));
    }
}

/// Approvals gate transfers and are single-use. After an approval:
/// a transfer whose `from` is not the recorded current owner fails with
/// the ownership error; a successful transfer by the approved caller
/// clears the approval set, so a second transfer leaning on the same stale
/// approval fails with the not-approved error.
pub proof fn lemma_approval_single_use(
    s: StateM,
    owner: Seq<char>,
    spender: Seq<char>,
    pack_id: u64,
)
    requires
        s.approve_nft_pack_spec(owner, spender, pack_id) is Ok,
    ensures
        ({
            let s1 = s.approve_nft_pack_spec(owner, spender, pack_id)->Ok_0;
            &&& forall|sender: Seq<char>, from: Seq<char>, to: Seq<char>|
                from != owner ==> s1.transfer_nft_pack_spec(sender, from, to, pack_id)
                    == Err::<StateM, ContractError>(ContractError::NotNftOwner)
            &&& forall|to: Seq<char>|
                #[trigger] s1.transfer_nft_pack_spec(spender, owner, to, pack_id) is Ok ==> {
                    let s2 = s1.transfer_nft_pack_spec(spender, owner, to, pack_id)->Ok_0;
                    &&& s2.nft_packs[pack_id].approvals.len() == 0
                    &&& forall|to2: Seq<char>|
                        s2.transfer_nft_pack_spec(spender, to, to2, pack_id) == Err::<
                            StateM,
                            ContractError,
                        >(ContractError::NotNftApproved)
                }
        }),
{
    let s1 = s.approve_nft_pack_spec(owner, spender, pack_id)->Ok_0;
    assert(s1.nft_packs[pack_id].current_owner == owner);
}

/// The balance counters never go below zero by clamping: an unpack by a
/// caller whose counter is zero fails the whole operation, a transfer
/// whose giving side has a zero counter fails the whole operation, and
/// under the invariant a successful transfer moves exactly one unit from
/// a strictly positive counter.
pub proof fn lemma_balance_never_clamped(
    s: StateM,
    env: EnvM,
    sender: Seq<char>,
    from: Seq<char>,
    to: Seq<char>,
    pack_id: u64,
)
    ensures
        s.nft_balance_of(sender) == 0 ==> s.unpack_nfts_spec(env, sender, pack_id) == Err::<
            StateM,
            ContractError,
        >(ContractError::NoNftBalance),
        s.token_balance_of(sender) == 0 ==> s.unpack_tokens_spec(sender, pack_id) is Err,
        s.nft_balance_of(from) == 0 ==> !(s.transfer_nft_pack_spec(sender, from, to, pack_id)
            is Ok),
        s.token_balance_of(from) == 0 ==> !(s.transfer_token_pack_spec(sender, pack_id, from, to)
            is Ok),
        s.inv() && s.transfer_nft_pack_spec(sender, from, to, pack_id) is Ok ==> {
            &&& s.nft_balance_of(from) >= 1
            &&& s.transfer_nft_pack_spec(sender, from, to, pack_id)->Ok_0.nft_balance_of(from)
                == (if from == to {
                    s.nft_balance_of(from) as int
                } else {
                    s.nft_balance_of(from) - 1
                })
        },
{
    if s.inv() && s.transfer_nft_pack_spec(sender, from, to, pack_id) is Ok {
        if from == to {
            let b1 = s.nft_pack_balances.insert(from, (s.nft_balance_of(from) - 1) as u64);
            assert(crate::state::stored_balance(b1, to) == s.nft_balance_of(from) - 1);
        }
    }
}

/// What a violated balance equation would mean is ruled out: under the
/// invariant, every balance counter equals the number of live packs its
/// owner holds, for both kinds.
pub proof fn lemma_balances_count_live_packs(s: StateM, o: Seq<char>)
    requires
        s.inv(),
    ensures
        s.nft_balance_of(o) == owned_ids(nft_owner_map(s.nft_packs), o).len(),
        s.token_balance_of(o) == owned_ids(
            crate::state::token_owner_map(s.token_packs),
            o,
        ).len(),
{
}

} // verus!
