//! Pack lifecycle: packing, approval, transfer, unpacking, and the
//! dispatcher, on concrete scenarios.

use nftmx_multi_level_royalty::state::Cw721Contract;
use nftmx_multi_level_royalty::types::{
    BlockInfo, ContractError, Env, ExecuteMsg, Fraction, InstantiateMsg, MessageInfo, MintMsg,
    OutMsg,
};

fn fresh() -> Cw721Contract {
    Cw721Contract::instantiate(InstantiateMsg {
        name: "collection".to_string(),
        symbol: "COL".to_string(),
        decimals: 6,
        minter: "X".to_string(),
    })
}

fn env_at(contract: &str) -> Env {
    Env {
        contract_address: contract.to_string(),
        block: BlockInfo { height: 10, time: 1_000 },
    }
}

fn msg_info(sender: &str) -> MessageInfo {
    MessageInfo { sender: sender.to_string(), funds: Vec::new() }
}

fn mint_msg(id: &str, name: &str, uri: &str) -> MintMsg {
    MintMsg {
        token_id: id.to_string(),
        owner: "X".to_string(),
        name: name.to_string(),
        token_uri: uri.to_string(),
        price: 100,
    }
}

fn mint_two(c: &mut Cw721Contract, env: &Env) {
    c.mint_packable(env, &msg_info("X"), mint_msg("t1", "one", "uri-1")).unwrap();
    c.mint_packable(env, &msg_info("X"), mint_msg("t2", "two", "uri-2")).unwrap();
}

fn balance_of(c: &Cw721Contract, owner: &str) -> u64 {
    match c.nft_pack_balances.get(&owner.to_string()) {
        Some(v) => *v,
        None => 0,
    }
}

#[test]
fn pack_assigns_sequential_ids_and_counts_balances() {
    let env = env_at("pack-contract");
    let mut c = fresh();
    mint_two(&mut c, &env);
    let id1 = c
        .pack_nfts(
            &env,
            &msg_info("X"),
            vec!["t1".to_string()],
            "Alpha".to_string(),
            100,
            Fraction { ppm: 100_000 },
        )
        .unwrap();
    let id2 = c
        .pack_nfts(
            &env,
            &msg_info("X"),
            vec!["t2".to_string()],
            "Beta".to_string(),
            100,
            Fraction { ppm: 100_000 },
        )
        .unwrap();
    assert_eq!(id1, 1);
    assert_eq!(id2, 2);
    assert!(id2 > id1);
    assert_eq!(balance_of(&c, "X"), 2);
    let p = c.nft_packs.get(&1).unwrap();
    assert_eq!(p.pack_name, "Alpha".to_string());
    assert_eq!(p.current_owner, "X".to_string());
    assert_eq!(p.minted_by, "X".to_string());
    assert_eq!(p.previous_owner, None);
    assert_eq!(p.current_price, 100);
    assert_eq!(p.previous_price, 0);
    assert_eq!(p.number_of_transfers, 0);
    assert!(p.for_sale);
    assert_eq!(p.royalty_owners, vec!["X".to_string()]);
    assert!(p.approvals.is_empty());
    // items parked under the pack-holding address, approvals cleared
    let t = c.tokens.get(&"t1".to_string()).unwrap();
    assert_eq!(t.owner, "pack-contract".to_string());
    assert!(t.approvals.is_empty());
    // royalty ledger seeded for the packer
    let f = c.royalty_fees.get(&(1, "X".to_string())).unwrap();
    assert_eq!(f.ppm, 100_000);
}

#[test]
fn pack_rejects_reserved_name() {
    let env = env_at("pack-contract");
    let mut c = fresh();
    mint_two(&mut c, &env);
    c.pack_nfts(
        &env,
        &msg_info("X"),
        vec!["t1".to_string()],
        "Alpha".to_string(),
        100,
        Fraction { ppm: 0 },
    )
    .unwrap();
    let r = c.pack_nfts(
        &env,
        &msg_info("X"),
        vec!["t2".to_string()],
        "Alpha".to_string(),
        100,
        Fraction { ppm: 0 },
    );
    assert_eq!(r, Err(ContractError::ExistPackName));
}

#[test]
fn pack_rejects_foreign_packable_owner() {
    let env = env_at("pack-contract");
    let mut c = fresh();
    mint_two(&mut c, &env);
    // Z holds no authorization over t1 at all
    let r = c.pack_nfts(
        &env,
        &msg_info("Z"),
        vec!["t1".to_string()],
        "Alpha".to_string(),
        100,
        Fraction { ppm: 0 },
    );
    assert_eq!(r, Err(ContractError::Unauthorized));
    // Z owns the item record, but the packable index still records X
    c.transfer_nft(&env, &msg_info("X"), "Z".to_string(), "t1".to_string()).unwrap();
    let r = c.pack_nfts(
        &env,
        &msg_info("Z"),
        vec!["t1".to_string()],
        "Alpha".to_string(),
        100,
        Fraction { ppm: 0 },
    );
    assert_eq!(r, Err(ContractError::NotNftOwner));
}

#[test]
fn pack_missing_item_is_not_found() {
    let env = env_at("pack-contract");
    let mut c = fresh();
    let r = c.pack_nfts(
        &env,
        &msg_info("X"),
        vec!["ghost".to_string()],
        "Alpha".to_string(),
        100,
        Fraction { ppm: 0 },
    );
    assert_eq!(r, Err(ContractError::NotFound));
}

#[test]
fn round_trip_restores_items_and_frees_name() {
    let env = env_at("pack-contract");
    let mut c = fresh();
    mint_two(&mut c, &env);
    let id = c
        .pack_nfts(
            &env,
            &msg_info("X"),
            vec!["t1".to_string(), "t2".to_string()],
            "Set-A".to_string(),
            100,
            Fraction { ppm: 100_000 },
        )
        .unwrap();
    c.unpack_nfts(&env, &msg_info("X"), id).unwrap();
    // every item's owner restored to the caller
    assert_eq!(c.tokens.get(&"t1".to_string()).unwrap().owner, "X".to_string());
    assert_eq!(c.tokens.get(&"t2".to_string()).unwrap().owner, "X".to_string());
    assert_eq!(balance_of(&c, "X"), 0);
    assert!(c.nft_packs.get(&id).is_none());
    // the name reservation is fully freed: packing the same name succeeds
    let id2 = c
        .pack_nfts(
            &env,
            &msg_info("X"),
            vec!["t1".to_string()],
            "Set-A".to_string(),
            100,
            Fraction { ppm: 100_000 },
        )
        .unwrap();
    assert_eq!(id2, 2, "pack ids are never reused");
}

#[test]
fn repeated_unpack_fails() {
    let env = env_at("pack-contract");
    let mut c = fresh();
    mint_two(&mut c, &env);
    let id1 = c
        .pack_nfts(
            &env,
            &msg_info("X"),
            vec!["t1".to_string()],
            "Alpha".to_string(),
            100,
            Fraction { ppm: 0 },
        )
        .unwrap();
    let _id2 = c
        .pack_nfts(
            &env,
            &msg_info("X"),
            vec!["t2".to_string()],
            "Beta".to_string(),
            100,
            Fraction { ppm: 0 },
        )
        .unwrap();
    c.unpack_nfts(&env, &msg_info("X"), id1).unwrap();
    // the caller still passes the balance gate, so the stale id is not found
    assert_eq!(c.unpack_nfts(&env, &msg_info("X"), id1), Err(ContractError::NotFound));
}

#[test]
fn unpack_balance_gate_comes_first() {
    let env = env_at("pack-contract");
    let mut c = fresh();
    // no balance at all: the balance gate fails before anything else
    assert_eq!(c.unpack_nfts(&env, &msg_info("X"), 1), Err(ContractError::NoNftBalance));
}

#[test]
fn unpack_requires_ownership_and_royalty_entry() {
    let env = env_at("pack-contract");
    let mut c = fresh();
    mint_two(&mut c, &env);
    let id = c
        .pack_nfts(
            &env,
            &msg_info("X"),
            vec!["t1".to_string()],
            "Alpha".to_string(),
            100,
            Fraction { ppm: 0 },
        )
        .unwrap();
    c.approve_nft_pack(&env, &msg_info("X"), "Y".to_string(), id).unwrap();
    c.transfer_nft_pack(&env, &msg_info("Y"), "X".to_string(), "Y".to_string(), id).unwrap();
    // X no longer owns the pack and has no balance
    assert_eq!(c.unpack_nfts(&env, &msg_info("X"), id), Err(ContractError::NoNftBalance));
    // Y owns it but holds no royalty entry: the deliberate coupling
    assert_eq!(c.unpack_nfts(&env, &msg_info("Y"), id), Err(ContractError::NoNftPackRoyalty));
}

#[test]
fn unpack_detects_out_of_band_item_moves() {
    let env = env_at("pack-contract");
    let mut c = fresh();
    mint_two(&mut c, &env);
    let id = c
        .pack_nfts(
            &env,
            &msg_info("X"),
            vec!["t1".to_string()],
            "Alpha".to_string(),
            100,
            Fraction { ppm: 0 },
        )
        .unwrap();
    // the pack-holding contract's key moved the item out of band
    c.transfer_nft(&env, &msg_info("pack-contract"), "Z".to_string(), "t1".to_string()).unwrap();
    assert_eq!(c.unpack_nfts(&env, &msg_info("X"), id), Err(ContractError::InvalidNftOwner));
}

#[test]
fn approve_requires_owner() {
    let env = env_at("pack-contract");
    let mut c = fresh();
    mint_two(&mut c, &env);
    let id = c
        .pack_nfts(
            &env,
            &msg_info("X"),
            vec!["t1".to_string()],
            "Alpha".to_string(),
            100,
            Fraction { ppm: 0 },
        )
        .unwrap();
    assert_eq!(
        c.approve_nft_pack(&env, &msg_info("Y"), "Y".to_string(), id),
        Err(ContractError::NotNftOwner)
    );
    assert_eq!(
        c.approve_nft_pack(&env, &msg_info("X"), "Y".to_string(), 77),
        Err(ContractError::NotFound)
    );
    c.approve_nft_pack(&env, &msg_info("X"), "Y".to_string(), id).unwrap();
    // duplicates are permitted and accumulate
    c.approve_nft_pack(&env, &msg_info("X"), "Y".to_string(), id).unwrap();
    assert_eq!(
        c.nft_packs.get(&id).unwrap().approvals,
        vec!["Y".to_string(), "Y".to_string()]
    );
}

#[test]
fn transfer_by_wrong_from_is_authorization_failure() {
    let env = env_at("pack-contract");
    let mut c = fresh();
    mint_two(&mut c, &env);
    let id = c
        .pack_nfts(
            &env,
            &msg_info("X"),
            vec!["t1".to_string()],
            "Alpha".to_string(),
            100,
            Fraction { ppm: 0 },
        )
        .unwrap();
    c.approve_nft_pack(&env, &msg_info("X"), "Y".to_string(), id).unwrap();
    // `from` other than the current owner fails, approval or not
    assert_eq!(
        c.transfer_nft_pack(&env, &msg_info("Y"), "Z".to_string(), "Y".to_string(), id),
        Err(ContractError::NotNftOwner)
    );
}

#[test]
fn transfer_consumes_the_approval() {
    let env = env_at("pack-contract");
    let mut c = fresh();
    mint_two(&mut c, &env);
    let id = c
        .pack_nfts(
            &env,
            &msg_info("X"),
            vec!["t1".to_string()],
            "Alpha".to_string(),
            100,
            Fraction { ppm: 0 },
        )
        .unwrap();
    // without any approval the transfer is refused
    assert_eq!(
        c.transfer_nft_pack(&env, &msg_info("Y"), "X".to_string(), "Y".to_string(), id),
        Err(ContractError::NotNftApproved)
    );
    c.approve_nft_pack(&env, &msg_info("X"), "Y".to_string(), id).unwrap();
    c.transfer_nft_pack(&env, &msg_info("Y"), "X".to_string(), "Y".to_string(), id).unwrap();
    // the stale approval cannot admit a second transfer
    assert_eq!(
        c.transfer_nft_pack(&env, &msg_info("Y"), "Y".to_string(), "W".to_string(), id),
        Err(ContractError::NotNftApproved)
    );
}

#[test]
fn scenario_pack_approve_transfer() {
    let env = env_at("pack-contract");
    let mut c = fresh();
    mint_two(&mut c, &env);
    let id = c
        .pack_nfts(
            &env,
            &msg_info("X"),
            vec!["t1".to_string(), "t2".to_string()],
            "Set-A".to_string(),
            100,
            Fraction { ppm: 100_000 },
        )
        .unwrap();
    c.approve_nft_pack(&env, &msg_info("X"), "Y".to_string(), id).unwrap();
    c.transfer_nft_pack(&env, &msg_info("Y"), "X".to_string(), "Y".to_string(), id).unwrap();
    assert_eq!(balance_of(&c, "Y"), 1);
    assert_eq!(balance_of(&c, "X"), 0);
    let p = c.nft_packs.get(&id).unwrap();
    assert_eq!(p.previous_owner, Some("X".to_string()));
    assert_eq!(p.current_owner, "Y".to_string());
    assert_eq!(p.number_of_transfers, 1);
    assert_eq!(p.previous_price, 100);
    assert!(p.approvals.is_empty());
}

#[test]
fn transfer_balance_guard_fails_instead_of_clamping() {
    let env = env_at("pack-contract");
    let mut c = fresh();
    mint_two(&mut c, &env);
    let id = c
        .pack_nfts(
            &env,
            &msg_info("X"),
            vec!["t1".to_string()],
            "Alpha".to_string(),
            100,
            Fraction { ppm: 0 },
        )
        .unwrap();
    c.approve_nft_pack(&env, &msg_info("X"), "Y".to_string(), id).unwrap();
    // a state whose balance counter was tampered to zero: the whole
    // operation fails rather than clamping the counter
    c.nft_pack_balances.save("X".to_string(), 0);
    assert_eq!(
        c.transfer_nft_pack(&env, &msg_info("Y"), "X".to_string(), "Y".to_string(), id),
        Err(ContractError::NoNftBalance)
    );
    // nothing moved
    assert_eq!(c.nft_packs.get(&id).unwrap().current_owner, "X".to_string());
}

#[test]
fn execute_routes_pack_and_unpack() {
    let env = env_at("pack-contract");
    let mut c = fresh();
    mint_two(&mut c, &env);
    let resp = c
        .execute(
            &env,
            &msg_info("X"),
            ExecuteMsg::PackNfts {
                token_ids: vec!["t1".to_string()],
                pack_name: "Alpha".to_string(),
                price: 100,
                royalty_fee: Fraction { ppm: 0 },
            },
        )
        .unwrap();
    assert!(resp.messages.is_empty());
    assert_eq!(balance_of(&c, "X"), 1);
    let resp = c
        .execute(&env, &msg_info("X"), ExecuteMsg::UnpackNfts { pack_id: 1 })
        .unwrap();
    assert!(resp.messages.is_empty());
    assert!(c.nft_packs.get(&1).is_none());
    let r = c.execute(&env, &msg_info("X"), ExecuteMsg::UnpackNfts { pack_id: 1 });
    assert_eq!(r, Err(ContractError::NoNftBalance));
}

#[test]
fn execute_routes_send_nft_notice() {
    let env = env_at("pack-contract");
    let mut c = fresh();
    mint_two(&mut c, &env);
    let resp = c
        .execute(
            &env,
            &msg_info("X"),
            ExecuteMsg::SendNft {
                contract: "market".to_string(),
                token_id: "t1".to_string(),
                msg: vec![1, 2, 3],
            },
        )
        .unwrap();
    assert_eq!(resp.messages.len(), 1);
    match &resp.messages[0] {
        OutMsg::Notify(n) => {
            assert_eq!(n.contract, "market".to_string());
            assert_eq!(n.sender, "X".to_string());
            assert_eq!(n.token_id, "t1".to_string());
            assert_eq!(n.msg, vec![1, 2, 3]);
        }
        other => panic!("expected a notice, got {:?}", other),
    }
    assert_eq!(c.tokens.get(&"t1".to_string()).unwrap().owner, "market".to_string());
}

#[test]
fn pack_empty_composition_is_allowed() {
    let env = env_at("pack-contract");
    let mut c = fresh();
    let id = c
        .pack_nfts(
            &env,
            &msg_info("X"),
            Vec::new(),
            "Empty".to_string(),
            100,
            Fraction { ppm: 0 },
        )
        .unwrap();
    let p = c.nft_packs.get(&id).unwrap();
    assert_eq!(p.item_count, 0);
    assert!(p.pack_items.is_empty());
    c.unpack_nfts(&env, &msg_info("X"), id).unwrap();
}

#[test]
fn pack_duplicate_items_checked_against_the_pre_state() {
    // every listed item is validated before any write begins, so a
    // duplicated id passes its checks and its writes coincide
    let env = env_at("pack-contract");
    let mut c = fresh();
    mint_two(&mut c, &env);
    let id = c
        .pack_nfts(
            &env,
            &msg_info("X"),
            vec!["t1".to_string(), "t1".to_string()],
            "Twice".to_string(),
            100,
            Fraction { ppm: 0 },
        )
        .unwrap();
    let p = c.nft_packs.get(&id).unwrap();
    assert_eq!(p.item_count, 2);
    assert_eq!(c.tokens.get(&"t1".to_string()).unwrap().owner, "pack-contract".to_string());
    c.unpack_nfts(&env, &msg_info("X"), id).unwrap();
    assert_eq!(c.tokens.get(&"t1".to_string()).unwrap().owner, "X".to_string());
}

#[test]
fn execute_routes_the_item_ledger() {
    let env = env_at("pack-contract");
    let mut c = fresh();
    c.execute(
        &env,
        &msg_info("X"),
        ExecuteMsg::MintPackable(mint_msg("t1", "one", "uri-1")),
    )
    .unwrap();
    c.execute(
        &env,
        &msg_info("X"),
        ExecuteMsg::Approve { spender: "Z".to_string(), token_id: "t1".to_string(), expires: None },
    )
    .unwrap();
    c.execute(
        &env,
        &msg_info("Z"),
        ExecuteMsg::TransferNft { recipient: "Z".to_string(), token_id: "t1".to_string() },
    )
    .unwrap();
    assert_eq!(c.tokens.get(&"t1".to_string()).unwrap().owner, "Z".to_string());
    c.execute(&env, &msg_info("Z"), ExecuteMsg::BurnPackable { token_id: "t1".to_string() })
        .unwrap();
    assert_eq!(c.token_count(), 0);
}

#[test]
fn execute_routes_token_packs_and_pays_out() {
    let env = env_at("pack-contract");
    let mut c = fresh();
    c.execute(
        &env,
        &msg_info("X"),
        ExecuteMsg::PackTokens {
            pack_name: "Vault".to_string(),
            token_address: "cw20-token".to_string(),
            amount: 4_200,
            price: 100,
            royalty_fee: Fraction { ppm: 0 },
        },
    )
    .unwrap();
    let resp = c
        .execute(&env, &msg_info("X"), ExecuteMsg::UnpackTokens { pack_id: 1 })
        .unwrap();
    assert_eq!(resp.messages.len(), 1);
    match &resp.messages[0] {
        OutMsg::Pay(p) => {
            assert_eq!(p.amount, 4_200);
            assert_eq!(p.recipient, "X".to_string());
        }
        other => panic!("expected a payout, got {:?}", other),
    }
}
