//! The settlement engine: royalty-aware buy settlement.
//!
//! Settling reads the pack, the royalty ledger and the fee configuration
//! and emits one payment instruction per royalty beneficiary, one carrying
//! the base protocol fee, and one carrying the remainder to the recorded
//! current owner, who must also be the caller here. The protocol's total
//! fee bookkeeping absorbs the royalty payouts before the remainder is
//! computed, so the instruction amounts always add up to the attached
//! payment exactly: no value is created or destroyed. All instructions are
//! returned as one batch, which the host applies all or nothing; the state
//! itself does not change.

use vstd::prelude::*;

use crate::state::{Cw721Contract, StateM};
use crate::types::{
    frac_of, lemma_frac_of_le, AssetInfo, AssetInfoM, CoinM, ContractError, Env, MessageInfo,
    PaymentMsg, PaymentMsgM,
};

verus! {

/// The settlement currency of native payouts.
pub open spec fn settle_denom() -> Seq<char> {
    "uusd"@
}

/// The price appreciation royalties are owed on.
pub open spec fn royalty_gain(s: StateM, pack_id: u64) -> u64 {
    if s.nft_packs[pack_id].current_price > s.nft_packs[pack_id].previous_price {
        (s.nft_packs[pack_id].current_price - s.nft_packs[pack_id].previous_price) as u64
    } else {
        0
    }
}

/// The instruction paying beneficiary `k` its share of the appreciation.
pub open spec fn royalty_payment(s: StateM, pack_id: u64, k: int) -> PaymentMsgM {
    PaymentMsgM {
        info: AssetInfoM::NativeToken { denom: settle_denom() },
        amount: frac_of(
            royalty_gain(s, pack_id),
            s.royalty_fees[(pack_id, s.nft_packs[pack_id].royalty_owners[k])],
        ),
        recipient: s.nft_packs[pack_id].royalty_owners[k],
    }
}

/// The royalties owed to the first `k` beneficiaries, summed.
pub open spec fn royalty_total(s: StateM, pack_id: u64, k: int) -> int
    decreases k,
{
    if k <= 0 {
        0
    } else {
        royalty_total(s, pack_id, k - 1) + royalty_payment(s, pack_id, k - 1).amount
    }
}

/// The sum of the amounts of a batch of instructions.
pub open spec fn sum_amounts(msgs: Seq<PaymentMsgM>) -> int
    decreases msgs.len(),
{
    if msgs.len() == 0 {
        0
    } else {
        sum_amounts(msgs.drop_last()) + msgs.last().amount
    }
}

impl StateM {
    /// The base protocol fee on a payment.
    pub open spec fn base_fee(self, payment: u64) -> u64 {
        frac_of(payment, self.config.buy_sell_fee)
    }

    /// The royalty instructions a settlement emits: one per beneficiary
    /// when the price appreciated, none otherwise.
    pub open spec fn royalty_batch(self, pack_id: u64) -> Seq<PaymentMsgM> {
        if self.nft_packs[pack_id].current_price > self.nft_packs[pack_id].previous_price {
            Seq::new(
                self.nft_packs[pack_id].royalty_owners.len(),
                |i: int| royalty_payment(self, pack_id, i),
            )
        } else {
            Seq::empty()
        }
    }

    /// The gross fee bookkeeping: base fee plus all royalties. The seller
    /// receives the payment net of this.
    pub open spec fn total_fee(self, pack_id: u64, payment: u64) -> int {
        self.base_fee(payment) + if self.nft_packs[pack_id].current_price
            > self.nft_packs[pack_id].previous_price {
            royalty_total(self, pack_id, self.nft_packs[pack_id].royalty_owners.len() as int)
        } else {
            0
        }
    }

    /// Transition of settling a sale: the caller must be the recorded
    /// current owner and the attached payment must reach the current
    /// price. The batch is: the base fee to the protocol's fee recipient,
    /// one royalty per beneficiary on the appreciation, and the remainder
    /// to the caller.
    pub open spec fn buy_nft_pack_spec(self, sender: Seq<char>, funds: Seq<CoinM>, pack_id: u64)
        -> Result<Seq<PaymentMsgM>, ContractError> {
        if !self.nft_packs.contains_key(pack_id) {
            Err(ContractError::NotFound)
        } else if self.nft_packs[pack_id].current_owner != sender {
            Err(ContractError::NotNftOwner)
        } else if funds.len() < 1 || funds[0].amount < self.nft_packs[pack_id].current_price {
            Err(ContractError::InsufficientFunds)
        } else {
            let payment = funds[0].amount;
            Ok(
                seq![
                    PaymentMsgM {
                        info: AssetInfoM::NativeToken { denom: settle_denom() },
                        amount: self.base_fee(payment),
                        recipient: self.config.contract_owner,
                    },
                ] + self.royalty_batch(pack_id) + seq![
                    PaymentMsgM {
                        info: AssetInfoM::NativeToken { denom: settle_denom() },
                        amount: (payment - self.total_fee(pack_id, payment)) as u64,
                        recipient: sender,
                    },
                ],
            )
        }
    }
}

/// Royalty sums only grow with more beneficiaries.
pub proof fn lemma_royalty_total_mono(s: StateM, pack_id: u64, a: int, b: int)
    requires
        0 <= a <= b,
    ensures
        royalty_total(s, pack_id, a) <= royalty_total(s, pack_id, b),
        0 <= royalty_total(s, pack_id, b),
    decreases b,
{
    if a < b {
        lemma_royalty_total_mono(s, pack_id, a, b - 1);
    } else if b > 0 {
        lemma_royalty_total_mono(s, pack_id, a - 1, b - 1);
    }
}

/// The royalty instructions' amounts add up to the royalty total.
pub proof fn lemma_sum_royalty_batch(s: StateM, pack_id: u64, k: int)
    requires
        0 <= k,
    ensures
        sum_amounts(Seq::new(k as nat, |i: int| royalty_payment(s, pack_id, i))) == royalty_total(
            s,
            pack_id,
            k,
        ),
    decreases k,
{
    let f = |i: int| royalty_payment(s, pack_id, i);
    if k > 0 {
        lemma_sum_royalty_batch(s, pack_id, k - 1);
        assert(Seq::new(k as nat, f).drop_last() =~= Seq::new((k - 1) as nat, f));
        assert(Seq::new(k as nat, f).last() == f(k - 1));
    }
}

/// Sums split over concatenation.
pub proof fn lemma_sum_amounts_add(a: Seq<PaymentMsgM>, b: Seq<PaymentMsgM>)
    ensures
        sum_amounts(a + b) == sum_amounts(a) + sum_amounts(b),
    decreases b.len(),
{
    if b.len() == 0 {
        assert(a + b =~= a);
    } else {
        assert((a + b).drop_last() =~= a + b.drop_last());
        assert((a + b).last() == b.last());
        lemma_sum_amounts_add(a, b.drop_last());
    }
}

/// No value is created or destroyed: the instruction amounts of a
/// successful settlement add up to the attached payment exactly.
pub proof fn lemma_settlement_conserves_value(
    s: StateM,
    sender: Seq<char>,
    funds: Seq<CoinM>,
    pack_id: u64,
)
    requires
        s.buy_nft_pack_spec(sender, funds, pack_id) is Ok,
        s.total_fee(pack_id, funds[0].amount) <= funds[0].amount,
    ensures
        sum_amounts(s.buy_nft_pack_spec(sender, funds, pack_id)->Ok_0) == funds[0].amount,
{
    let payment = funds[0].amount;
    let proto = seq![
        PaymentMsgM {
            info: AssetInfoM::NativeToken { denom: settle_denom() },
            amount: s.base_fee(payment),
            recipient: s.config.contract_owner,
        },
    ];
    let seller = seq![
        PaymentMsgM {
            info: AssetInfoM::NativeToken { denom: settle_denom() },
            amount: (payment - s.total_fee(pack_id, payment)) as u64,
            recipient: sender,
        },
    ];
    let n = s.nft_packs[pack_id].royalty_owners.len() as int;
    lemma_royalty_total_mono(s, pack_id, 0, n);
    lemma_sum_amounts_add(proto + s.royalty_batch(pack_id), seller);
    lemma_sum_amounts_add(proto, s.royalty_batch(pack_id));
    assert(proto.drop_last() =~= Seq::<PaymentMsgM>::empty());
    assert(seller.drop_last() =~= Seq::<PaymentMsgM>::empty());
    assert(sum_amounts(Seq::<PaymentMsgM>::empty()) == 0);
    if s.nft_packs[pack_id].current_price > s.nft_packs[pack_id].previous_price {
        lemma_sum_royalty_batch(s, pack_id, n);
    }
}

impl Cw721Contract {
    /// Settles a sale of a pack. The caller must be the recorded current
    /// owner (the authorization the reference design prescribes) and must
    /// attach a payment of at least the current price in the settlement
    /// currency. The returned batch pays the base fee, every royalty on
    /// the appreciation, and the remainder; its amounts add up to the
    /// attached payment exactly. The state does not change.
    pub fn buy_nft_pack(&self, _env: &Env, info: &MessageInfo, pack_id: u64) -> (r: Result<
        Vec<PaymentMsg>,
        ContractError,
    >)
        requires
            self.wf(),
            self@.inv(),
            self@.buy_nft_pack_spec(info.sender@, info.funds.deep_view(), pack_id) is Ok
                ==> self@.total_fee(pack_id, info.funds.deep_view()[0].amount)
                <= info.funds.deep_view()[0].amount,
        ensures
            (match self@.buy_nft_pack_spec(info.sender@, info.funds.deep_view(), pack_id) {
                Ok(msgs) => r is Ok && r->Ok_0.deep_view() == msgs,
                Err(e) => r == Err::<Vec<PaymentMsg>, ContractError>(e),
            }),
            r is Ok ==> sum_amounts(r->Ok_0.deep_view()) == info.funds.deep_view()[0].amount,
    {
        let ghost sm = self@;
        let ghost fundsm = info.funds.deep_view();
        let p = match self.nft_packs.get(&pack_id) {
            None => {
                return Err(ContractError::NotFound);
            },
            Some(p) => p,
        };
        if !(p.current_owner == info.sender) {
            return Err(ContractError::NotNftOwner);
        }
        if info.funds.len() < 1 {
            return Err(ContractError::InsufficientFunds);
        }
        let payment = info.funds[0].amount;
        proof {
            assert(fundsm[0] == info.funds@[0].deep_view());
        }
        if payment < p.current_price {
            return Err(ContractError::InsufficientFunds);
        }
        proof {
            lemma_settlement_conserves_value(sm, info.sender@, fundsm, pack_id);
        }
        let base = self.config.buy_sell_fee.scale(payment);
        let mut messages: Vec<PaymentMsg> = Vec::new();
        messages.push(
            PaymentMsg {
                info: AssetInfo::NativeToken { denom: "uusd".to_owned() },
                amount: base,
                recipient: self.config.contract_owner.clone(),
            },
        );
        let mut fee = base;
        if p.current_price > p.previous_price {
            let gain = p.current_price - p.previous_price;
            let n = p.royalty_owners.len();
            proof {
                assert(sm.nft_pack_row_ok(pack_id));
                lemma_royalty_total_mono(sm, pack_id, 0, n as int);
            }
            let mut k: usize = 0;
            while k < n
                invariant
                    self.wf(),
                    self@ == sm,
                    sm.inv(),
                    sm.nft_packs.contains_key(pack_id),
                    p.deep_view() == sm.nft_packs[pack_id],
                    n == p.royalty_owners@.len(),
                    k <= n,
                    gain == royalty_gain(sm, pack_id),
                    payment == fundsm[0].amount,
                    sm.total_fee(pack_id, payment) <= payment,
                    sm.nft_packs[pack_id].current_price > sm.nft_packs[pack_id].previous_price,
                    base == sm.base_fee(payment),
                    fee == sm.base_fee(payment) + royalty_total(sm, pack_id, k as int),
                    messages.deep_view() =~= seq![
                        PaymentMsgM {
                            info: AssetInfoM::NativeToken { denom: settle_denom() },
                            amount: sm.base_fee(payment),
                            recipient: sm.config.contract_owner,
                        },
                    ] + Seq::new(k as nat, |i: int| royalty_payment(sm, pack_id, i)),
                decreases n - k,
            {
                proof {
                    assert(sm.nft_pack_row_ok(pack_id));
                    assert(sm.royalty_fees.contains_key(
                        (pack_id, sm.nft_packs[pack_id].royalty_owners[k as int]),
                    ));
                }
                let owner = &p.royalty_owners[k];
                let f = match self.royalty_fees.get(&(pack_id, owner.clone())) {
                    None => {
                        return Err(ContractError::NotFound);
                    },
                    Some(f) => *f,
                };
                proof {
                    assert(owner@ == sm.nft_packs[pack_id].royalty_owners[k as int]);
                    assert(f == sm.royalty_fees[
                        (pack_id, sm.nft_packs[pack_id].royalty_owners[k as int])
                    ]);
                    assert(f.wf());
                    lemma_frac_of_le(gain, f);
                    lemma_royalty_total_mono(sm, pack_id, k as int + 1, n as int);
                }
                let roy = f.scale(gain);
                let m = PaymentMsg {
                    info: AssetInfo::NativeToken { denom: "uusd".to_owned() },
                    amount: roy,
                    recipient: owner.clone(),
                };
                let ghost dv0 = messages.deep_view();
                proof {
                    assert(m.deep_view().recipient == royalty_payment(
                        sm,
                        pack_id,
                        k as int,
                    ).recipient);
                    assert(m.deep_view().amount == royalty_payment(sm, pack_id, k as int).amount);
                    assert(m.deep_view().info == royalty_payment(sm, pack_id, k as int).info);
                    assert(m.deep_view() == royalty_payment(sm, pack_id, k as int));
                }
                messages.push(m);
                fee = fee + roy;
                proof {
                    assert(messages.deep_view() =~= dv0.push(
                        royalty_payment(sm, pack_id, k as int),
                    ));
                    let batch = |i: int| royalty_payment(sm, pack_id, i);
                    assert(Seq::new(k as nat + 1, batch) =~= Seq::new(k as nat, batch).push(
                        batch(k as int),
                    ));
                    assert(messages.deep_view() =~= seq![
                        PaymentMsgM {
                            info: AssetInfoM::NativeToken { denom: settle_denom() },
                            amount: sm.base_fee(payment),
                            recipient: sm.config.contract_owner,
                        },
                    ] + Seq::new(k as nat + 1, batch));
                }
                k = k + 1;
            }
        }
        messages.push(
            PaymentMsg {
                info: AssetInfo::NativeToken { denom: "uusd".to_owned() },
                amount: payment - fee,
                recipient: info.sender.clone(),
            },
        );
        proof {
            let msgs = sm.buy_nft_pack_spec(info.sender@, fundsm, pack_id)->Ok_0;
            assert(messages.deep_view() =~~= msgs);
        }
        Ok(messages)
    }
}

} // verus!
