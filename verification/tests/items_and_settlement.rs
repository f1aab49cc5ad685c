//! The item ledger, the token-pack side, and royalty-aware settlement, on
//! concrete scenarios.

use nftmx_multi_level_royalty::state::Cw721Contract;
use nftmx_multi_level_royalty::types::{
    token_owner_idx, AssetInfo, BlockInfo, Coin, ContractError, Env, Expiration, Fraction,
    InstantiateMsg, MessageInfo, MintMsg, NftPack,
};

fn fresh() -> Cw721Contract {
    Cw721Contract::instantiate(InstantiateMsg {
        name: "collection".to_string(),
        symbol: "COL".to_string(),
        decimals: 6,
        minter: "X".to_string(),
    })
}

fn env_at(contract: &str) -> Env {
    Env {
        contract_address: contract.to_string(),
        block: BlockInfo { height: 10, time: 1_000 },
    }
}

fn msg_info(sender: &str) -> MessageInfo {
    MessageInfo { sender: sender.to_string(), funds: Vec::new() }
}

fn paying(sender: &str, amount: u64) -> MessageInfo {
    MessageInfo {
        sender: sender.to_string(),
        funds: vec![Coin { denom: "uusd".to_string(), amount }],
    }
}

fn mint_msg(id: &str, name: &str, uri: &str) -> MintMsg {
    MintMsg {
        token_id: id.to_string(),
        owner: "X".to_string(),
        name: name.to_string(),
        token_uri: uri.to_string(),
        price: 100,
    }
}

#[test]
fn instantiate_writes_the_configuration() {
    let c = fresh();
    assert_eq!(c.minter, "X".to_string());
    assert_eq!(c.config.collection_name, "collection".to_string());
    assert_eq!(c.config.collection_name_symbol, "COL".to_string());
    assert_eq!(c.config.max_packable_nft, 5000);
    assert_eq!(c.config.max_pack_item_count, 10);
    assert_eq!(c.config.max_royalyty_owner, 10);
    assert_eq!(c.config.buy_sell_fee, Fraction { ppm: 1_000_000 });
    assert_eq!(c.config.contract_owner, "X".to_string());
    assert_eq!(c.token_count(), 0);
}

#[test]
fn mint_tracks_registries_and_count() {
    let env = env_at("pack-contract");
    let mut c = fresh();
    assert_eq!(
        c.mint_packable(&env, &msg_info("Z"), mint_msg("t1", "one", "uri-1")),
        Err(ContractError::Unauthorized)
    );
    c.mint_packable(&env, &msg_info("X"), mint_msg("t1", "one", "uri-1")).unwrap();
    assert_eq!(c.token_count(), 1);
    let p = c.packable_nfts.get(&"t1".to_string()).unwrap();
    assert_eq!(p.token_name, "one".to_string());
    assert_eq!(p.minted_by, "X".to_string());
    assert_eq!(p.current_owner, "X".to_string());
    assert_eq!(p.previous_owner, None);
    assert_eq!(p.price, 100);
    assert_eq!(p.number_of_transfers, 0);
    assert!(p.for_sale);
    assert_eq!(
        c.mint_packable(&env, &msg_info("X"), mint_msg("t9", "nine", "uri-1")),
        Err(ContractError::ExistTokenUri)
    );
    assert_eq!(
        c.mint_packable(&env, &msg_info("X"), mint_msg("t9", "one", "uri-9")),
        Err(ContractError::ExistTokenName)
    );
    assert_eq!(
        c.mint_packable(&env, &msg_info("X"), mint_msg("t1", "nine", "uri-9")),
        Err(ContractError::Claimed)
    );
}

#[test]
fn burn_packable_frees_uri_and_name() {
    let env = env_at("pack-contract");
    let mut c = fresh();
    c.mint_packable(&env, &msg_info("X"), mint_msg("t1", "one", "uri-1")).unwrap();
    c.burn_packable(&env, &msg_info("X"), "t1".to_string()).unwrap();
    assert_eq!(c.token_count(), 0);
    assert!(c.tokens.get(&"t1".to_string()).is_none());
    assert!(c.packable_nfts.get(&"t1".to_string()).is_none());
    // the freed uri and name can be minted again
    c.mint_packable(&env, &msg_info("X"), mint_msg("t1", "one", "uri-1")).unwrap();
}

#[test]
fn item_approvals_are_cleared_by_transfer() {
    let env = env_at("pack-contract");
    let mut c = fresh();
    c.mint_packable(&env, &msg_info("X"), mint_msg("t1", "one", "uri-1")).unwrap();
    c.approve(&env, &msg_info("X"), "Z".to_string(), "t1".to_string(), None).unwrap();
    // the approved spender may move the item
    c.transfer_nft(&env, &msg_info("Z"), "W".to_string(), "t1".to_string()).unwrap();
    let t = c.tokens.get(&"t1".to_string()).unwrap();
    assert_eq!(t.owner, "W".to_string());
    assert!(t.approvals.is_empty());
    // the stale approval no longer authorizes anything
    assert_eq!(
        c.transfer_nft(&env, &msg_info("Z"), "Z".to_string(), "t1".to_string()),
        Err(ContractError::Unauthorized)
    );
}

#[test]
fn item_approval_expiry_is_enforced() {
    let env = env_at("pack-contract");
    let mut c = fresh();
    c.mint_packable(&env, &msg_info("X"), mint_msg("t1", "one", "uri-1")).unwrap();
    // granting an already expired approval is refused
    assert_eq!(
        c.approve(
            &env,
            &msg_info("X"),
            "Z".to_string(),
            "t1".to_string(),
            Some(Expiration::AtHeight(5)),
        ),
        Err(ContractError::Expired)
    );
    // a grant that expires later is accepted but useless once expired
    c.approve(
        &env,
        &msg_info("X"),
        "Z".to_string(),
        "t1".to_string(),
        Some(Expiration::AtHeight(11)),
    )
    .unwrap();
    let late = Env {
        contract_address: "pack-contract".to_string(),
        block: BlockInfo { height: 11, time: 2_000 },
    };
    assert_eq!(
        c.transfer_nft(&late, &msg_info("Z"), "Z".to_string(), "t1".to_string()),
        Err(ContractError::Unauthorized)
    );
}

#[test]
fn revoke_removes_the_grant() {
    let env = env_at("pack-contract");
    let mut c = fresh();
    c.mint_packable(&env, &msg_info("X"), mint_msg("t1", "one", "uri-1")).unwrap();
    c.approve(&env, &msg_info("X"), "Z".to_string(), "t1".to_string(), None).unwrap();
    c.revoke(&env, &msg_info("X"), "Z".to_string(), "t1".to_string()).unwrap();
    assert_eq!(
        c.transfer_nft(&env, &msg_info("Z"), "Z".to_string(), "t1".to_string()),
        Err(ContractError::Unauthorized)
    );
}

#[test]
fn operators_act_for_the_granter() {
    let env = env_at("pack-contract");
    let mut c = fresh();
    c.mint_packable(&env, &msg_info("X"), mint_msg("t1", "one", "uri-1")).unwrap();
    c.approve_all(&env, &msg_info("X"), "OP".to_string(), None).unwrap();
    c.transfer_nft(&env, &msg_info("OP"), "W".to_string(), "t1".to_string()).unwrap();
    assert_eq!(c.tokens.get(&"t1".to_string()).unwrap().owner, "W".to_string());
    // revoking ends the grant
    c.mint_packable(&env, &msg_info("X"), mint_msg("t2", "two", "uri-2")).unwrap();
    c.revoke_all(&env, &msg_info("X"), "OP".to_string()).unwrap();
    assert_eq!(
        c.transfer_nft(&env, &msg_info("OP"), "W".to_string(), "t2".to_string()),
        Err(ContractError::Unauthorized)
    );
}

#[test]
fn burn_requires_authorization() {
    let env = env_at("pack-contract");
    let mut c = fresh();
    c.mint_packable(&env, &msg_info("X"), mint_msg("t1", "one", "uri-1")).unwrap();
    assert_eq!(c.burn(&env, &msg_info("Z"), "t1".to_string()), Err(ContractError::Unauthorized));
    c.burn(&env, &msg_info("X"), "t1".to_string()).unwrap();
    assert_eq!(c.token_count(), 0);
    assert_eq!(
        c.burn(&env, &msg_info("X"), "t1".to_string()),
        Err(ContractError::NotFound)
    );
}

#[test]
fn expiration_kinds() {
    let block = BlockInfo { height: 10, time: 1_000 };
    assert!(Expiration::AtHeight(10).is_expired(&block));
    assert!(!Expiration::AtHeight(11).is_expired(&block));
    assert!(Expiration::AtTime(1_000).is_expired(&block));
    assert!(!Expiration::AtTime(1_001).is_expired(&block));
    assert!(!Expiration::Never.is_expired(&block));
}

#[test]
fn owner_index_projects_the_owner() {
    let env = env_at("pack-contract");
    let mut c = fresh();
    c.mint_packable(&env, &msg_info("X"), mint_msg("t1", "one", "uri-1")).unwrap();
    let t = c.tokens.get(&"t1".to_string()).unwrap();
    assert_eq!(token_owner_idx(t), "X".to_string());
}

#[test]
fn fraction_scaling_is_exact_fixed_point() {
    assert_eq!(Fraction::one().scale(12345), 12345);
    assert_eq!(Fraction { ppm: 0 }.scale(12345), 0);
    assert_eq!(Fraction { ppm: 50_000 }.scale(150_000_000), 7_500_000);
    assert_eq!(Fraction { ppm: 100_000 }.scale(50_000_000), 5_000_000);
    // rounding is downward
    assert_eq!(Fraction { ppm: 500_000 }.scale(3), 1);
}

#[test]
fn settlement_splits_fee_royalty_and_remainder() {
    // amounts in micro-units: a price of 150 units is 150_000_000
    let env = env_at("pack-contract");
    let mut c = fresh();
    c.config.buy_sell_fee = Fraction { ppm: 50_000 }; // 0.05
    c.nft_packs.save(
        1,
        NftPack {
            pack_id: 1,
            pack_name: "Set-A".to_string(),
            item_count: 0,
            pack_items: Vec::new(),
            minted_by: "A".to_string(),
            current_owner: "X".to_string(),
            previous_owner: Some("A".to_string()),
            current_price: 150_000_000,
            previous_price: 100_000_000,
            number_of_transfers: 1,
            for_sale: true,
            royalty_owners: vec!["A".to_string()],
            approvals: Vec::new(),
        },
    );
    c.royalty_fees.save((1, "A".to_string()), Fraction { ppm: 100_000 }); // 0.10
    let msgs = c.buy_nft_pack(&env, &paying("X", 150_000_000), 1).unwrap();
    assert_eq!(msgs.len(), 3);
    // base fee 7.5 to the protocol fee recipient
    assert_eq!(msgs[0].amount, 7_500_000);
    assert_eq!(msgs[0].recipient, "X".to_string()); // contract_owner is the minter X
    // royalty (150 - 100) * 0.10 = 5 to the beneficiary
    assert_eq!(msgs[1].amount, 5_000_000);
    assert_eq!(msgs[1].recipient, "A".to_string());
    // seller net of the total fee 12.5: 137.5
    assert_eq!(msgs[2].amount, 137_500_000);
    assert_eq!(msgs[2].recipient, "X".to_string());
    // no value created or destroyed
    let total: u64 = msgs.iter().map(|m| m.amount).sum();
    assert_eq!(total, 150_000_000);
    for m in &msgs {
        match &m.info {
            AssetInfo::NativeToken { denom } => assert_eq!(denom, "uusd"),
            other => panic!("expected a native payout, got {:?}", other),
        }
    }
}

#[test]
fn settlement_without_appreciation_pays_no_royalty() {
    let env = env_at("pack-contract");
    let mut c = fresh();
    c.config.buy_sell_fee = Fraction { ppm: 50_000 };
    c.nft_packs.save(
        1,
        NftPack {
            pack_id: 1,
            pack_name: "Flat".to_string(),
            item_count: 0,
            pack_items: Vec::new(),
            minted_by: "A".to_string(),
            current_owner: "X".to_string(),
            previous_owner: Some("A".to_string()),
            current_price: 100_000_000,
            previous_price: 100_000_000,
            number_of_transfers: 1,
            for_sale: true,
            royalty_owners: vec!["A".to_string()],
            approvals: Vec::new(),
        },
    );
    c.royalty_fees.save((1, "A".to_string()), Fraction { ppm: 100_000 });
    let msgs = c.buy_nft_pack(&env, &paying("X", 100_000_000), 1).unwrap();
    assert_eq!(msgs.len(), 2);
    assert_eq!(msgs[0].amount, 5_000_000);
    assert_eq!(msgs[1].amount, 95_000_000);
    let total: u64 = msgs.iter().map(|m| m.amount).sum();
    assert_eq!(total, 100_000_000);
}

#[test]
fn settlement_gates() {
    let env = env_at("pack-contract");
    let mut c = fresh();
    c.config.buy_sell_fee = Fraction { ppm: 50_000 };
    c.nft_packs.save(
        1,
        NftPack {
            pack_id: 1,
            pack_name: "Gated".to_string(),
            item_count: 0,
            pack_items: Vec::new(),
            minted_by: "A".to_string(),
            current_owner: "X".to_string(),
            previous_owner: None,
            current_price: 100,
            previous_price: 100,
            number_of_transfers: 0,
            for_sale: true,
            royalty_owners: vec!["A".to_string()],
            approvals: Vec::new(),
        },
    );
    assert_eq!(
        c.buy_nft_pack(&env, &paying("X", 100), 2),
        Err(ContractError::NotFound)
    );
    assert_eq!(
        c.buy_nft_pack(&env, &paying("Y", 100), 1),
        Err(ContractError::NotNftOwner)
    );
    assert_eq!(
        c.buy_nft_pack(&env, &msg_info("X"), 1),
        Err(ContractError::InsufficientFunds)
    );
    assert_eq!(
        c.buy_nft_pack(&env, &paying("X", 99), 1),
        Err(ContractError::InsufficientFunds)
    );
}

#[test]
fn token_pack_round_trip_returns_the_allocation() {
    let env = env_at("pack-contract");
    let mut c = fresh();
    let id = c
        .pack_tokens(
            &env,
            &msg_info("X"),
            "Vault".to_string(),
            "cw20-token".to_string(),
            4_200,
            100,
            Fraction { ppm: 100_000 },
        )
        .unwrap();
    assert_eq!(id, 1);
    assert_eq!(*c.token_pack_balances.get(&"X".to_string()).unwrap(), 1);
    assert_eq!(
        c.pack_tokens(
            &env,
            &msg_info("X"),
            "Vault".to_string(),
            "cw20-token".to_string(),
            1,
            1,
            Fraction { ppm: 0 },
        ),
        Err(ContractError::ExistPackName)
    );
    let pay = c.unpack_tokens(&env, &msg_info("X"), id).unwrap();
    assert_eq!(pay.amount, 4_200);
    assert_eq!(pay.recipient, "X".to_string());
    match &pay.info {
        AssetInfo::Token { contract_addr } => assert_eq!(contract_addr, "cw20-token"),
        other => panic!("expected a fungible-token payout, got {:?}", other),
    }
    assert!(c.token_packs.get(&id).is_none());
    assert_eq!(*c.token_pack_balances.get(&"X".to_string()).unwrap(), 0);
    // the name is free again, and the id is never reused
    let id2 = c
        .pack_tokens(
            &env,
            &msg_info("X"),
            "Vault".to_string(),
            "cw20-token".to_string(),
            1,
            1,
            Fraction { ppm: 0 },
        )
        .unwrap();
    assert_eq!(id2, 2);
    // with the balance spent on nothing, a stale id is a balance failure
    c.unpack_tokens(&env, &msg_info("X"), id2).unwrap();
    assert_eq!(c.unpack_tokens(&env, &msg_info("X"), id), Err(ContractError::NoTokenBalance));
}

#[test]
fn token_pack_transfer_mirrors_the_item_packs() {
    let env = env_at("pack-contract");
    let mut c = fresh();
    let id = c
        .pack_tokens(
            &env,
            &msg_info("X"),
            "Vault".to_string(),
            "cw20-token".to_string(),
            4_200,
            100,
            Fraction { ppm: 0 },
        )
        .unwrap();
    assert_eq!(
        c.approve_token_pack(&env, &msg_info("Y"), id, "Y".to_string()),
        Err(ContractError::NotTokenPackOwner)
    );
    c.approve_token_pack(&env, &msg_info("X"), id, "Y".to_string()).unwrap();
    assert_eq!(
        c.transfer_token_pack(&env, &msg_info("Y"), id, "Z".to_string(), "Y".to_string()),
        Err(ContractError::NotTokenPackOwner)
    );
    assert_eq!(
        c.transfer_token_pack(&env, &msg_info("W"), id, "X".to_string(), "W".to_string()),
        Err(ContractError::NotTokenApproved)
    );
    c.transfer_token_pack(&env, &msg_info("Y"), id, "X".to_string(), "Y".to_string()).unwrap();
    let p = c.token_packs.get(&id).unwrap();
    assert_eq!(p.current_owner, "Y".to_string());
    assert_eq!(p.previous_owner, Some("X".to_string()));
    assert_eq!(p.number_of_transfers, 1);
    assert!(p.approvals.is_empty());
    assert_eq!(*c.token_pack_balances.get(&"Y".to_string()).unwrap(), 1);
    assert_eq!(*c.token_pack_balances.get(&"X".to_string()).unwrap(), 0);
    // the new owner holds no royalty entry, so dissolution is refused
    assert_eq!(
        c.unpack_tokens(&env, &msg_info("Y"), id),
        Err(ContractError::NoTokenPackRoyalty)
    );
}
