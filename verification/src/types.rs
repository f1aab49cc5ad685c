//! The data model: items, packs, royalty fractions, messages and errors.
//!
//! Addresses are plain strings (address format checking belongs to the host
//! runtime), monetary amounts are non-negative integers, and fractions are
//! exact fixed-point values in parts per million. Each executable type has a
//! ghost model over `Seq`/`Option` values, reached through `DeepView`, and
//! the operation contracts speak about those models.

use vstd::prelude::*;

verus! {

/// Denominator of the fixed-point fractions: parts per million.
pub const PPM_DENOM: u32 = 1_000_000;

/// An exact fixed-point fraction in `[0, 1]`: `ppm` parts per million.
#[derive(Clone, Copy, Debug, PartialEq, Eq, Structural)]
pub struct Fraction {
    pub ppm: u32,
}

impl DeepView for Fraction {
    type V = Fraction;

    open spec fn deep_view(&self) -> Fraction {
        *self
    }
}

/// `amount * f`, rounded down: exact fixed-point multiplication.
pub open spec fn frac_of(amount: u64, f: Fraction) -> u64 {
    ((amount * f.ppm) / (PPM_DENOM as int)) as u64
}

impl Fraction {
    /// The fraction does not exceed one.
    pub open spec fn wf(self) -> bool {
        self.ppm <= PPM_DENOM
    }

    /// The whole: a fraction of one.
    pub fn one() -> (r: Self)
        ensures
            r.wf(),
            r.ppm == PPM_DENOM,
    {
        Fraction { ppm: PPM_DENOM }
    }

    /// Scales `amount` by this fraction, rounding down.
    pub fn scale(self, amount: u64) -> (r: u64)
        requires
            self.wf(),
        ensures
            r == frac_of(amount, self),
            r <= amount,
    {
        proof {
            lemma_frac_of_le(amount, self);
        }
        let wide: u128 = (amount as u128) * (self.ppm as u128);
        let q: u128 = wide / (PPM_DENOM as u128);
        q as u64
    }
}

/// A fraction of an amount never exceeds the amount.
pub proof fn lemma_frac_of_le(amount: u64, f: Fraction)
    requires
        f.wf(),
    ensures
        frac_of(amount, f) <= amount,
        frac_of(amount, f) == amount * f.ppm / (PPM_DENOM as int),
{
    assert(amount * f.ppm <= amount * PPM_DENOM) by (nonlinear_arith)
        requires
            f.ppm <= PPM_DENOM,
    ;
    assert(amount * PPM_DENOM / (PPM_DENOM as int) == amount) by (nonlinear_arith);
    assert(amount * f.ppm / (PPM_DENOM as int) <= amount * PPM_DENOM / (PPM_DENOM as int))
        by (nonlinear_arith)
        requires
            amount * f.ppm <= amount * PPM_DENOM,
    ;
    assert(amount * f.ppm >= 0) by (nonlinear_arith);
}

/// The block the host runtime is executing in.
#[derive(Clone, Copy, Debug, PartialEq, Eq, Structural)]
pub struct BlockInfo {
    pub height: u64,
    /// Block time in nanoseconds.
    pub time: u64,
}

impl DeepView for BlockInfo {
    type V = BlockInfo;

    open spec fn deep_view(&self) -> BlockInfo {
        *self
    }
}

/// When an approval or operator grant expires.
#[derive(Clone, Copy, Debug, PartialEq, Eq, Structural)]
pub enum Expiration {
    AtHeight(u64),
    AtTime(u64),
    Never,
}

impl DeepView for Expiration {
    type V = Expiration;

    open spec fn deep_view(&self) -> Expiration {
        *self
    }
}

impl Expiration {
    pub open spec fn spec_is_expired(self, block: BlockInfo) -> bool {
        match self {
            Expiration::AtHeight(h) => block.height >= h,
            Expiration::AtTime(t) => block.time >= t,
            Expiration::Never => false,
        }
    }

    pub fn is_expired(&self, block: &BlockInfo) -> (r: bool)
        ensures
            r == self.spec_is_expired(*block),
    {
        match self {
            Expiration::AtHeight(h) => block.height >= *h,
            Expiration::AtTime(t) => block.time >= *t,
            Expiration::Never => false,
        }
    }
}

/// Model of a per-item approval.
#[verifier::ext_equal]
pub ghost struct ApprovalM {
    pub spender: Seq<char>,
    pub expires: Expiration,
}

/// An account that can transfer or send an item, until `expires`.
#[derive(Clone, Debug)]
pub struct Approval {
    pub spender: String,
    pub expires: Expiration,
}

impl DeepView for Approval {
    type V = ApprovalM;

    open spec fn deep_view(&self) -> ApprovalM {
        ApprovalM { spender: self.spender@, expires: self.expires }
    }
}

impl Approval {
    pub fn is_expired(&self, block: &BlockInfo) -> (r: bool)
        ensures
            r == self.expires.spec_is_expired(*block),
    {
        self.expires.is_expired(block)
    }
}

/// Model of a single-item record.
#[verifier::ext_equal]
pub ghost struct TokenM {
    pub owner: Seq<char>,
    pub approvals: Seq<ApprovalM>,
    pub token_uri: Seq<char>,
}

/// A single-item record of the item ledger.
#[derive(Clone, Debug)]
pub struct TokenInfo {
    /// The owner of the item.
    pub owner: String,
    /// Cleared on every transfer, so the list cannot accumulate much.
    pub approvals: Vec<Approval>,
    /// Universal resource identifier of the item's metadata.
    pub token_uri: String,
}

impl DeepView for TokenInfo {
    type V = TokenM;

    open spec fn deep_view(&self) -> TokenM {
        TokenM {
            owner: self.owner@,
            approvals: self.approvals.deep_view(),
            token_uri: self.token_uri@,
        }
    }
}

/// Selects the owner an item record is indexed by.
pub fn token_owner_idx(d: &TokenInfo) -> (r: String)
    ensures
        r@ == d.owner@,
{
    d.owner.clone()
}

/// Model of a packable-item row.
#[verifier::ext_equal]
pub ghost struct PackableM {
    pub token_id: Seq<char>,
    pub token_name: Seq<char>,
    pub token_uri: Seq<char>,
    pub minted_by: Seq<char>,
    pub current_owner: Seq<char>,
    pub previous_owner: Option<Seq<char>>,
    pub price: u64,
    pub number_of_transfers: u64,
    pub for_sale: bool,
}

/// The side index of items that may be grouped into packs.
#[derive(Clone, Debug)]
pub struct PackableToken {
    pub token_id: String,
    pub token_name: String,
    pub token_uri: String,
    pub minted_by: String,
    pub current_owner: String,
    pub previous_owner: Option<String>,
    pub price: u64,
    pub number_of_transfers: u64,
    pub for_sale: bool,
}

impl DeepView for PackableToken {
    type V = PackableM;

    open spec fn deep_view(&self) -> PackableM {
        PackableM {
            token_id: self.token_id@,
            token_name: self.token_name@,
            token_uri: self.token_uri@,
            minted_by: self.minted_by@,
            current_owner: self.current_owner@,
            previous_owner: self.previous_owner.deep_view(),
            price: self.price,
            number_of_transfers: self.number_of_transfers,
            for_sale: self.for_sale,
        }
    }
}

/// Model of a pack of items.
#[verifier::ext_equal]
pub ghost struct NftPackM {
    pub pack_id: u64,
    pub pack_name: Seq<char>,
    pub item_count: usize,
    pub pack_items: Seq<Seq<char>>,
    pub minted_by: Seq<char>,
    pub current_owner: Seq<char>,
    pub previous_owner: Option<Seq<char>>,
    pub current_price: u64,
    pub previous_price: u64,
    pub number_of_transfers: u64,
    pub for_sale: bool,
    pub royalty_owners: Seq<Seq<char>>,
    pub approvals: Seq<Seq<char>>,
}

/// A named, transferable pack of items.
#[derive(Clone, Debug)]
pub struct NftPack {
    pub pack_id: u64,
    pub pack_name: String,
    pub item_count: usize,
    pub pack_items: Vec<String>,
    pub minted_by: String,
    pub current_owner: String,
    pub previous_owner: Option<String>,
    pub current_price: u64,
    pub previous_price: u64,
    pub number_of_transfers: u64,
    pub for_sale: bool,
    pub royalty_owners: Vec<String>,
    pub approvals: Vec<String>,
}

impl DeepView for NftPack {
    type V = NftPackM;

    open spec fn deep_view(&self) -> NftPackM {
        NftPackM {
            pack_id: self.pack_id,
            pack_name: self.pack_name@,
            item_count: self.item_count,
            pack_items: self.pack_items.deep_view(),
            minted_by: self.minted_by@,
            current_owner: self.current_owner@,
            previous_owner: self.previous_owner.deep_view(),
            current_price: self.current_price,
            previous_price: self.previous_price,
            number_of_transfers: self.number_of_transfers,
            for_sale: self.for_sale,
            royalty_owners: self.royalty_owners.deep_view(),
            approvals: self.approvals.deep_view(),
        }
    }
}

/// Model of a pack of a fungible-token allocation.
#[verifier::ext_equal]
pub ghost struct TokenPackM {
    pub pack_id: u64,
    pub pack_name: Seq<char>,
    pub token_address: Seq<char>,
    pub token_amount: u64,
    pub minted_by: Seq<char>,
    pub current_owner: Seq<char>,
    pub previous_owner: Option<Seq<char>>,
    pub current_price: u64,
    pub previous_price: u64,
    pub number_of_transfers: u64,
    pub for_sale: bool,
    pub royalty_owners: Seq<Seq<char>>,
    pub approvals: Seq<Seq<char>>,
}

/// A named, transferable pack of a fungible-token allocation.
#[derive(Clone, Debug)]
pub struct TokenPack {
    pub pack_id: u64,
    pub pack_name: String,
    pub token_address: String,
    pub token_amount: u64,
    pub minted_by: String,
    pub current_owner: String,
    pub previous_owner: Option<String>,
    pub current_price: u64,
    pub previous_price: u64,
    pub number_of_transfers: u64,
    pub for_sale: bool,
    pub royalty_owners: Vec<String>,
    pub approvals: Vec<String>,
}

impl DeepView for TokenPack {
    type V = TokenPackM;

    open spec fn deep_view(&self) -> TokenPackM {
        TokenPackM {
            pack_id: self.pack_id,
            pack_name: self.pack_name@,
            token_address: self.token_address@,
            token_amount: self.token_amount,
            minted_by: self.minted_by@,
            current_owner: self.current_owner@,
            previous_owner: self.previous_owner.deep_view(),
            current_price: self.current_price,
            previous_price: self.previous_price,
            number_of_transfers: self.number_of_transfers,
            for_sale: self.for_sale,
            royalty_owners: self.royalty_owners.deep_view(),
            approvals: self.approvals.deep_view(),
        }
    }
}

/// Model of the global configuration.
#[verifier::ext_equal]
pub ghost struct ConfigM {
    pub collection_name: Seq<char>,
    pub collection_name_symbol: Seq<char>,
    pub max_packable_nft: u64,
    pub max_pack_item_count: u64,
    pub max_royalyty_owner: u64,
    pub buy_sell_fee: Fraction,
    pub contract_owner: Seq<char>,
}

/// The global configuration, written once at instantiation.
#[derive(Clone, Debug)]
pub struct Config {
    pub collection_name: String,
    pub collection_name_symbol: String,
    pub max_packable_nft: u64,
    pub max_pack_item_count: u64,
    pub max_royalyty_owner: u64,
    /// Protocol fee rate applied to every sale payment.
    pub buy_sell_fee: Fraction,
    /// Recipient of the protocol fee.
    pub contract_owner: String,
}

impl DeepView for Config {
    type V = ConfigM;

    open spec fn deep_view(&self) -> ConfigM {
        ConfigM {
            collection_name: self.collection_name@,
            collection_name_symbol: self.collection_name_symbol@,
            max_packable_nft: self.max_packable_nft,
            max_pack_item_count: self.max_pack_item_count,
            max_royalyty_owner: self.max_royalyty_owner,
            buy_sell_fee: self.buy_sell_fee,
            contract_owner: self.contract_owner@,
        }
    }
}

/// Model of the collection-level info row.
#[verifier::ext_equal]
pub ghost struct ContractInfoM {
    pub name: Seq<char>,
    pub symbol: Seq<char>,
}

/// Collection-level name and symbol.
#[derive(Clone, Debug)]
pub struct ContractInfo {
    pub name: String,
    pub symbol: String,
}

impl DeepView for ContractInfo {
    type V = ContractInfoM;

    open spec fn deep_view(&self) -> ContractInfoM {
        ContractInfoM { name: self.name@, symbol: self.symbol@ }
    }
}

/// Model of an attached coin.
#[verifier::ext_equal]
pub ghost struct CoinM {
    pub denom: Seq<char>,
    pub amount: u64,
}

/// An amount of a named fungible asset attached to a call.
#[derive(Clone, Debug)]
pub struct Coin {
    pub denom: String,
    pub amount: u64,
}

impl DeepView for Coin {
    type V = CoinM;

    open spec fn deep_view(&self) -> CoinM {
        CoinM { denom: self.denom@, amount: self.amount }
    }
}

/// Model of the calling message.
#[verifier::ext_equal]
pub ghost struct MessageInfoM {
    pub sender: Seq<char>,
    pub funds: Seq<CoinM>,
}

/// Who calls, and what payment the call carries.
#[derive(Clone, Debug)]
pub struct MessageInfo {
    pub sender: String,
    pub funds: Vec<Coin>,
}

impl DeepView for MessageInfo {
    type V = MessageInfoM;

    open spec fn deep_view(&self) -> MessageInfoM {
        MessageInfoM { sender: self.sender@, funds: self.funds.deep_view() }
    }
}

/// Model of the execution environment.
#[verifier::ext_equal]
pub ghost struct EnvM {
    pub contract_address: Seq<char>,
    pub block: BlockInfo,
}

/// The environment the host runtime executes the operation in.
#[derive(Clone, Debug)]
pub struct Env {
    /// The address packs' items are parked under while packed.
    pub contract_address: String,
    pub block: BlockInfo,
}

impl DeepView for Env {
    type V = EnvM;

    open spec fn deep_view(&self) -> EnvM {
        EnvM { contract_address: self.contract_address@, block: self.block }
    }
}

/// Every way an operation can be refused. Each failure aborts the whole
/// operation with no partial state change.
#[derive(Clone, Debug, PartialEq, Eq)]
pub enum ContractError {
    /// A referenced row does not exist.
    NotFound,
    Unauthorized,
    /// The item id is already claimed.
    Claimed,
    /// The approval to set is already expired.
    Expired,
    ApprovalNotFound { spender: String },
    ExistTokenUri,
    ExistTokenName,
    ExistPackName,
    NotNftOwner,
    NoNftBalance,
    InvalidOwner,
    NoNftPackRoyalty,
    /// An item of the pack is not held by the pack-holding address: the
    /// pack's contents were moved out of band.
    InvalidNftOwner,
    NotNftApproved,
    InsufficientFunds,
    NoTokenBalance,
    NotTokenPackOwner,
    NoTokenPackRoyalty,
    NotTokenApproved,
    NoPackableToken,
}

/// Model of the asset a payment instruction moves.
#[verifier::ext_equal]
pub ghost enum AssetInfoM {
    NativeToken { denom: Seq<char> },
    Token { contract_addr: Seq<char> },
}

/// The asset a payment instruction moves: a native coin or a fungible token
/// managed by a contract.
#[derive(Clone, Debug, PartialEq, Eq)]
pub enum AssetInfo {
    NativeToken { denom: String },
    Token { contract_addr: String },
}

impl DeepView for AssetInfo {
    type V = AssetInfoM;

    open spec fn deep_view(&self) -> AssetInfoM {
        match self {
            AssetInfo::NativeToken { denom } => AssetInfoM::NativeToken { denom: denom@ },
            AssetInfo::Token { contract_addr } => AssetInfoM::Token {
                contract_addr: contract_addr@,
            },
        }
    }
}

/// Model of an outbound payment instruction.
#[verifier::ext_equal]
pub ghost struct PaymentMsgM {
    pub info: AssetInfoM,
    pub amount: u64,
    pub recipient: Seq<char>,
}

/// An outbound payment instruction. The core only constructs instructions;
/// moving value is the payment collaborator's task, and the host applies an
/// emitted batch all or nothing.
#[derive(Clone, Debug, PartialEq, Eq)]
pub struct PaymentMsg {
    pub info: AssetInfo,
    pub amount: u64,
    pub recipient: String,
}

impl DeepView for PaymentMsg {
    type V = PaymentMsgM;

    open spec fn deep_view(&self) -> PaymentMsgM {
        PaymentMsgM {
            info: self.info.deep_view(),
            amount: self.amount,
            recipient: self.recipient@,
        }
    }
}

/// Model of a receive notice.
#[verifier::ext_equal]
pub ghost struct ReceiveNoticeM {
    pub contract: Seq<char>,
    pub sender: Seq<char>,
    pub token_id: Seq<char>,
    pub msg: Seq<u8>,
}

/// Notice sent to a receiving contract after an item was sent to it.
#[derive(Clone, Debug, PartialEq, Eq)]
pub struct ReceiveNotice {
    pub contract: String,
    pub sender: String,
    pub token_id: String,
    pub msg: Vec<u8>,
}

impl DeepView for ReceiveNotice {
    type V = ReceiveNoticeM;

    open spec fn deep_view(&self) -> ReceiveNoticeM {
        ReceiveNoticeM {
            contract: self.contract@,
            sender: self.sender@,
            token_id: self.token_id@,
            msg: self.msg.deep_view(),
        }
    }
}

/// Model of an outbound message.
#[verifier::ext_equal]
pub ghost enum OutMsgM {
    Pay(PaymentMsgM),
    Notify(ReceiveNoticeM),
}

/// An outbound message emitted by an operation.
#[derive(Clone, Debug, PartialEq, Eq)]
pub enum OutMsg {
    Pay(PaymentMsg),
    Notify(ReceiveNotice),
}

impl DeepView for OutMsg {
    type V = OutMsgM;

    open spec fn deep_view(&self) -> OutMsgM {
        match self {
            OutMsg::Pay(p) => OutMsgM::Pay(p.deep_view()),
            OutMsg::Notify(n) => OutMsgM::Notify(n.deep_view()),
        }
    }
}

/// What a dispatched operation hands back: the outbound messages it emitted.
#[derive(Clone, Debug, PartialEq, Eq)]
pub struct Response {
    pub messages: Vec<OutMsg>,
}

impl DeepView for Response {
    type V = Seq<OutMsgM>;

    open spec fn deep_view(&self) -> Seq<OutMsgM> {
        self.messages.deep_view()
    }
}

/// Instantiation parameters.
#[derive(Clone, Debug)]
pub struct InstantiateMsg {
    pub name: String,
    pub symbol: String,
    pub decimals: u64,
    pub minter: String,
}

/// Model of the minting parameters.
#[verifier::ext_equal]
pub ghost struct MintMsgM {
    pub token_id: Seq<char>,
    pub owner: Seq<char>,
    pub name: Seq<char>,
    pub token_uri: Seq<char>,
    pub price: u64,
}

/// Parameters of minting one packable item.
#[derive(Clone, Debug)]
pub struct MintMsg {
    pub token_id: String,
    /// The owner the item record is created with.
    pub owner: String,
    pub name: String,
    pub token_uri: String,
    pub price: u64,
}

impl DeepView for MintMsg {
    type V = MintMsgM;

    open spec fn deep_view(&self) -> MintMsgM {
        MintMsgM {
            token_id: self.token_id@,
            owner: self.owner@,
            name: self.name@,
            token_uri: self.token_uri@,
            price: self.price,
        }
    }
}

/// Model of one caller-facing operation.
#[verifier::ext_equal]
pub ghost enum ExecuteMsgM {
    MintPackable(MintMsgM),
    PackNfts { token_ids: Seq<Seq<char>>, pack_name: Seq<char>, price: u64, royalty_fee: Fraction },
    UnpackNfts { pack_id: u64 },
    ApproveNftPack { to: Seq<char>, pack_id: u64 },
    TransferNftPack { from: Seq<char>, to: Seq<char>, pack_id: u64 },
    PackTokens {
        pack_name: Seq<char>,
        token_address: Seq<char>,
        amount: u64,
        price: u64,
        royalty_fee: Fraction,
    },
    UnpackTokens { pack_id: u64 },
    ApproveTokenPack { pack_id: u64, to: Seq<char> },
    TransferTokenPack { pack_id: u64, from: Seq<char>, to: Seq<char> },
    Approve { spender: Seq<char>, token_id: Seq<char>, expires: Option<Expiration> },
    Revoke { spender: Seq<char>, token_id: Seq<char> },
    ApproveAll { operator: Seq<char>, expires: Option<Expiration> },
    RevokeAll { operator: Seq<char> },
    TransferNft { recipient: Seq<char>, token_id: Seq<char> },
    SendNft { contract: Seq<char>, token_id: Seq<char>, msg: Seq<u8> },
    BurnPackable { token_id: Seq<char> },
}

/// One caller-facing operation.
#[derive(Clone, Debug)]
pub enum ExecuteMsg {
    MintPackable(MintMsg),
    PackNfts { token_ids: Vec<String>, pack_name: String, price: u64, royalty_fee: Fraction },
    UnpackNfts { pack_id: u64 },
    ApproveNftPack { to: String, pack_id: u64 },
    TransferNftPack { from: String, to: String, pack_id: u64 },
    PackTokens {
        pack_name: String,
        token_address: String,
        amount: u64,
        price: u64,
        royalty_fee: Fraction,
    },
    UnpackTokens { pack_id: u64 },
    ApproveTokenPack { pack_id: u64, to: String },
    TransferTokenPack { pack_id: u64, from: String, to: String },
    Approve { spender: String, token_id: String, expires: Option<Expiration> },
    Revoke { spender: String, token_id: String },
    ApproveAll { operator: String, expires: Option<Expiration> },
    RevokeAll { operator: String },
    TransferNft { recipient: String, token_id: String },
    SendNft { contract: String, token_id: String, msg: Vec<u8> },
    BurnPackable { token_id: String },
}

impl DeepView for ExecuteMsg {
    type V = ExecuteMsgM;

    open spec fn deep_view(&self) -> ExecuteMsgM {
        match self {
            ExecuteMsg::MintPackable(m) => ExecuteMsgM::MintPackable(m.deep_view()),
            ExecuteMsg::PackNfts { token_ids, pack_name, price, royalty_fee } => {
                ExecuteMsgM::PackNfts {
                    token_ids: token_ids.deep_view(),
                    pack_name: pack_name@,
                    price: *price,
                    royalty_fee: *royalty_fee,
                }
            },
            ExecuteMsg::UnpackNfts { pack_id } => ExecuteMsgM::UnpackNfts { pack_id: *pack_id },
            ExecuteMsg::ApproveNftPack { to, pack_id } => ExecuteMsgM::ApproveNftPack {
                to: to@,
                pack_id: *pack_id,
            },
            ExecuteMsg::TransferNftPack { from, to, pack_id } => ExecuteMsgM::TransferNftPack {
                from: from@,
                to: to@,
                pack_id: *pack_id,
            },
            ExecuteMsg::PackTokens { pack_name, token_address, amount, price, royalty_fee } => {
                ExecuteMsgM::PackTokens {
                    pack_name: pack_name@,
                    token_address: token_address@,
                    amount: *amount,
                    price: *price,
                    royalty_fee: *royalty_fee,
                }
            },
            ExecuteMsg::UnpackTokens { pack_id } => ExecuteMsgM::UnpackTokens {
                pack_id: *pack_id,
            },
            ExecuteMsg::ApproveTokenPack { pack_id, to } => ExecuteMsgM::ApproveTokenPack {
                pack_id: *pack_id,
                to: to@,
            },
            ExecuteMsg::TransferTokenPack { pack_id, from, to } => {
                ExecuteMsgM::TransferTokenPack { pack_id: *pack_id, from: from@, to: to@ }
            },
            ExecuteMsg::Approve { spender, token_id, expires } => ExecuteMsgM::Approve {
                spender: spender@,
                token_id: token_id@,
                expires: *expires,
            },
            ExecuteMsg::Revoke { spender, token_id } => ExecuteMsgM::Revoke {
                spender: spender@,
                token_id: token_id@,
            },
            ExecuteMsg::ApproveAll { operator, expires } => ExecuteMsgM::ApproveAll {
                operator: operator@,
                expires: *expires,
            },
            ExecuteMsg::RevokeAll { operator } => ExecuteMsgM::RevokeAll { operator: operator@ },
            ExecuteMsg::TransferNft { recipient, token_id } => ExecuteMsgM::TransferNft {
                recipient: recipient@,
                token_id: token_id@,
            },
            ExecuteMsg::SendNft { contract, token_id, msg } => ExecuteMsgM::SendNft {
                contract: contract@,
                token_id: token_id@,
                msg: msg.deep_view(),
            },
            ExecuteMsg::BurnPackable { token_id } => ExecuteMsgM::BurnPackable {
                token_id: token_id@,
            },
        }
    }
}

/// Migration parameters. None are needed.
#[derive(Clone, Debug)]
pub struct MigrateMsg {}

} // verus!
