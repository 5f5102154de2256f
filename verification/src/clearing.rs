//! Settling what the books trade: the fills, the currency they owe, and what
//! was held back for them.

use vstd::prelude::*;

use crate::account::{
    adds_up, amounts, law_settlement_balances, law_split_rows_keep_history_adding_up, plain_sum, settlement_draft,
    settlement_postings, stays_in_range, Account,
};
use crate::ledger::{
    checked_notional_cents, exact_notional, lemma_total_push, net_cents, total_cents, Draft, Hold, LedgerView, Posting,
    WalletId,
};
use crate::market::Market;
use crate::num::{at_least_zero, clamp_i64, clamp_u64, max_int, sat_sub, usat_add};
use crate::orders::Log;
use crate::trading::{
    fill_context, law_takers_pay_and_makers_do_not, leg, leg_cents, leg_rows, lemma_fee_fits, FillRecord, Liquidity,
    Fees, OpenOrderDto, Owner, Position, Resting, SettledFees, Side, Trade, Trader, TraderId,
};

verus! {

/// Cash to let go of, for so many shares of an order that no longer rest.
pub open spec fn let_go(wallet: WalletId, side: Side, qty: u64, price_cents: i64) -> Option<Hold> {
    if side is Buy {
        Some(Hold { wallet, cents: max_int(clamp_i64(price_cents * qty) as int, 0) as i64 })
    } else {
        None
    }
}

/// What a settled trade moves, and what the venue took and paid of it.
#[derive(Debug)]
pub struct Settlement {
    pub draft: Draft,
    pub fees: SettledFees,
}

impl Market {
    /// Orders of `trader`'s in `symbol` on one side rest for `qty` shares
    /// less: a sell gives back the shares it promised.
    pub open spec fn freed(
        before: Map<u64, Trader>,
        after: Map<u64, Trader>,
        trader: TraderId,
        symbol: Seq<char>,
        side: Side,
        qty: u64,
    ) -> bool {
        if side is Sell {
            &&& after == before.insert(trader.0, after[trader.0])
            &&& after[trader.0] == (Trader { reserved_shares: after[trader.0].reserved_shares, ..before[trader.0] })
            &&& after[trader.0].reserved_shares.map() == before[trader.0].promised_less(symbol, qty)
        } else {
            after == before
        }
    }

    /// A trader's order is withdrawn, and reserves nothing more.
    pub open spec fn withdrew(
        &self,
        after: &Market,
        trader: TraderId,
        symbol: Seq<char>,
        cancelled: Resting,
        hold: Option<Hold>,
    ) -> bool {
        match self.account_behind(trader) {
            Some(account) => {
                &&& Market::freed(
                    self.traders.map(),
                    after.traders.map(),
                    trader,
                    symbol,
                    cancelled.side,
                    cancelled.outstanding,
                )
                &&& hold == let_go(account.wallet, cancelled.side, cancelled.outstanding, cancelled.price_cents)
            },
            None => hold is None && after.traders == self.traders,
        }
    }

    /// Give back what so many shares of one of a trader's orders reserved:
    /// shares here for a sell, cash for a buy, which comes back as a hold for
    /// the ledger to let go of.
    fn give_back(&mut self, trader: TraderId, symbol: &str, side: Side, qty: u64, price_cents: i64) -> (hold: Option<Hold>)
        requires
            old(self).wf(),
        ensures
            final(self).wf(),
            *final(self) == (Market { traders: final(self).traders, ..*old(self) }),
            match old(self).account_behind(trader) {
                Some(account) => {
                    &&& Market::freed(
                        old(self).traders.map(),
                        final(self).traders.map(),
                        trader,
                        symbol@,
                        side,
                        qty,
                    )
                    &&& hold == let_go(account.wallet, side, qty, price_cents)
                },
                None => hold is None && *final(self) == *old(self),
            },
    {
        let ghost before = *self;
        match self.account_of(trader) {
            None => {
                return None;
            },
            Some(_) => {},
        }
        let mut hold: Option<Hold> = None;
        match self.traders.get_mut(&trader.0) {
            Some(t) => match self.accounts.get(&t.account_id.0) {
                Some(account) => {
                    assert(before.trader_wf(trader.0));
                    hold = t.release(account, symbol, side, qty, price_cents);
                },
                None => {},
            },
            None => {},
        }
        proof {
            if side is Buy {
                assert(self.traders.map()[trader.0] == before.traders.map()[trader.0]);
                assert(self.traders.map() =~= before.traders.map());
            }
        }
        hold
    }

    /// Give back what a withdrawn order reserved and mark its record
    /// cancelled. What comes back is the cash the ledger is to let go of.
    pub fn release(&mut self, trader: TraderId, symbol: &str, cancelled: &Resting, now_ms: i64) -> (hold: Option<Hold>)
        requires
            old(self).wf(),
        ensures
            final(self).wf(),
            *final(self) == (Market { traders: final(self).traders, orders: final(self).orders, ..*old(self) }),
            final(self).orders.limit() == old(self).orders.limit(),
            final(self).orders.log() == old(self).orders.log().withdrawn(
                cancelled.id,
                symbol@,
                cancelled.outstanding,
                now_ms,
            ),
            old(self).withdrew(final(self), trader, symbol@, *cancelled, hold),
    {
        let hold = self.give_back(
            trader,
            symbol,
            cancelled.side,
            cancelled.outstanding,
            cancelled.price_cents,
        );
        self.orders.cancel(cancelled.id, symbol, cancelled.outstanding, now_ms);
        hold
    }

    /// The traders once the first `n` of these withdrawn orders have given
    /// back what they reserved, one after the other.
    pub open spec fn freed_all(
        before: Map<u64, Trader>,
        after: Map<u64, Trader>,
        trader: TraderId,
        symbol: Seq<char>,
        cancelled: Seq<Resting>,
        n: int,
    ) -> bool
        decreases n,
    {
        if n <= 0 {
            after == before
        } else {
            exists|mid: Map<u64, Trader>|
                Market::freed_all(before, mid, trader, symbol, cancelled, n - 1) && #[trigger] Market::freed(
                    mid,
                    after,
                    trader,
                    symbol,
                    cancelled[n - 1].side,
                    cancelled[n - 1].outstanding,
                )
        }
    }

    /// The log once the first `n` of these orders were withdrawn.
    pub open spec fn withdrawn_all(log: Log, symbol: Seq<char>, cancelled: Seq<Resting>, n: int, now_ms: i64) -> Log
        decreases n,
    {
        if n <= 0 {
            log
        } else {
            Market::withdrawn_all(log, symbol, cancelled, n - 1, now_ms).withdrawn(
                cancelled[n - 1].id,
                symbol,
                cancelled[n - 1].outstanding,
                now_ms,
            )
        }
    }

    /// The cash the ledger lets go of for the first `n` withdrawn orders.
    pub open spec fn let_go_all(wallet: WalletId, cancelled: Seq<Resting>, n: int) -> Seq<Hold>
        decreases n,
    {
        if n <= 0 {
            Seq::empty()
        } else {
            let before = Market::let_go_all(wallet, cancelled, n - 1);
            match let_go(
                wallet,
                cancelled[n - 1].side,
                cancelled[n - 1].outstanding,
                cancelled[n - 1].price_cents,
            ) {
                Some(hold) => before.push(hold),
                None => before,
            }
        }
    }

    /// Give back what every order withdrawn from one symbol reserved, and
    /// mark their records cancelled. What comes back is each as its owner
    /// sees it, and the cash the ledger is to let go of.
    pub fn cancel_all(&mut self, trader: TraderId, symbol: &str, cancelled: &Vec<Resting>, now_ms: i64) -> (r: (
        Vec<OpenOrderDto>,
        Vec<Hold>,
    ))
        requires
            old(self).wf(),
        ensures
            final(self).wf(),
            *final(self) == (Market { traders: final(self).traders, orders: final(self).orders, ..*old(self) }),
            final(self).orders.limit() == old(self).orders.limit(),
            final(self).orders.log() == Market::withdrawn_all(
                old(self).orders.log(),
                symbol@,
                cancelled@,
                cancelled@.len() as int,
                now_ms,
            ),
            r.0@.len() == cancelled@.len(),
            forall|i: int| 0 <= i < r.0@.len() ==> (#[trigger] r.0@[i]).shows(symbol@, cancelled@[i]),
            match old(self).account_behind(trader) {
                Some(account) => {
                    &&& Market::freed_all(
                        old(self).traders.map(),
                        final(self).traders.map(),
                        trader,
                        symbol@,
                        cancelled@,
                        cancelled@.len() as int,
                    )
                    &&& r.1@ == Market::let_go_all(account.wallet, cancelled@, cancelled@.len() as int)
                },
                None => r.1@ == Seq::<Hold>::empty() && final(self).traders == old(self).traders,
            },
    {
        let ghost start = *self;
        let ghost account = self.account_behind(trader);
        let mut shown: Vec<OpenOrderDto> = Vec::new();
        let mut holds: Vec<Hold> = Vec::new();
        let mut i: usize = 0;
        while i < cancelled.len()
            invariant
                start == *old(self),
                account == start.account_behind(trader),
                account == self.account_behind(trader),
                self.wf(),
                *self == (Market { traders: self.traders, orders: self.orders, ..start }),
                self.orders.limit() == start.orders.limit(),
                self.orders.log() == Market::withdrawn_all(
                    start.orders.log(),
                    symbol@,
                    cancelled@,
                    i as int,
                    now_ms,
                ),
                i <= cancelled.len(),
                shown@.len() == i,
                forall|j: int| 0 <= j < i ==> (#[trigger] shown@[j]).shows(symbol@, cancelled@[j]),
                match account {
                    Some(account) => {
                        &&& Market::freed_all(
                            start.traders.map(),
                            self.traders.map(),
                            trader,
                            symbol@,
                            cancelled@,
                            i as int,
                        )
                        &&& holds@ == Market::let_go_all(account.wallet, cancelled@, i as int)
                    },
                    None => holds@ == Seq::<Hold>::empty() && self.traders == start.traders,
                },
            decreases cancelled.len() - i,
        {
            let resting = &cancelled[i];
            let ghost before = self.traders.map();
            match self.release(trader, symbol, resting, now_ms) {
                Some(hold) => {
                    holds.push(hold);
                },
                None => {},
            }
            shown.push(OpenOrderDto::from_resting(symbol, resting));
            proof {
                if account is Some {
                    let after = self.traders.map();
                    let n = i as int + 1;
                    assert(Market::freed_all(start.traders.map(), before, trader, symbol@, cancelled@, n - 1));
                    assert(Market::freed(before, after, trader, symbol@, resting.side, resting.outstanding));
                    assert(Market::freed_all(start.traders.map(), after, trader, symbol@, cancelled@, n));
                    assert(holds@ == Market::let_go_all(account->0.wallet, cancelled@, n));
                }
            }
            i = i + 1;
        }
        (shown, holds)
    }

    /// The order log once both sides of a trade have moved on.
    pub open spec fn log_after(log: Log, symbol: Seq<char>, trade: Trade) -> Log {
        let taken = if trade.taker.owner is Trader {
            log.filled(trade.taker.order, symbol, trade.qty, trade.price_cents, trade.ts_ms)
        } else {
            log
        };
        if trade.maker.owner is Trader {
            taken.filled(trade.maker.order, symbol, trade.qty, trade.price_cents, trade.ts_ms)
        } else {
            taken
        }
    }

    /// The resting side of a trade no longer reserves what traded.
    pub open spec fn fill_taken(&self, after: &Market, symbol: Seq<char>, trade: Trade, hold: Option<Hold>) -> bool {
        match self.account_of_owner(trade.maker.owner) {
            Some(account) => {
                &&& trade.maker.owner matches Owner::Trader(maker) && Market::freed(
                    self.traders.map(),
                    after.traders.map(),
                    maker,
                    symbol,
                    trade.taker_side.other(),
                    trade.qty,
                )
                &&& hold == let_go(account.wallet, trade.taker_side.other(), trade.qty, trade.price_cents)
            },
            None => hold is None && after.traders == self.traders,
        }
    }

    /// Take a trade off the books it was resting on: the records of the two
    /// orders move on, and what the resting side reserved is given back
    /// *before* the trade is settled.
    ///
    /// The cash a resting buy holds back is exactly the cash that pays for
    /// its own fill, so a trader who committed their whole balance to an
    /// order would look insolvent at the moment it filled.
    pub fn take_fill(&mut self, symbol: &str, trade: &Trade) -> (hold: Option<Hold>)
        requires
            old(self).wf(),
        ensures
            final(self).wf(),
            *final(self) == (Market { traders: final(self).traders, orders: final(self).orders, ..*old(self) }),
            final(self).orders.limit() == old(self).orders.limit(),
            final(self).orders.log() == Market::log_after(old(self).orders.log(), symbol@, *trade),
            old(self).fill_taken(final(self), symbol@, *trade, hold),
    {
        match trade.taker.owner {
            Owner::Trader(_) => {
                self.orders.fill(trade.taker.order, symbol, trade.qty, trade.price_cents, trade.ts_ms);
            },
            Owner::Synthetic => {},
        }
        match trade.maker.owner {
            Owner::Trader(maker) => {
                self.orders.fill(trade.maker.order, symbol, trade.qty, trade.price_cents, trade.ts_ms);
                self.give_back(maker, symbol, trade.taker_side.opposite(), trade.qty, trade.price_cents)
            },
            Owner::Synthetic => None,
        }
    }

    /// The account behind one side of a trade, if there is one.
    pub open spec fn account_of_owner(&self, owner: Owner) -> Option<Account> {
        match owner {
            Owner::Trader(trader) => self.account_behind(trader),
            Owner::Synthetic => None,
        }
    }

    /// The wallet behind one side of a trade: the trader's, or the synthetic
    /// one where there is no account.
    pub open spec fn wallet_behind(&self, owner: Owner) -> WalletId {
        match self.account_of_owner(owner) {
            Some(account) => account.wallet,
            None => self.wallets.synthetic,
        }
    }

    fn wallet_for(&self, owner: Owner) -> (wallet: WalletId)
        requires
            self.wf(),
        ensures
            wallet == self.wallet_behind(owner),
    {
        match owner {
            Owner::Trader(trader) => match self.account_of(trader) {
                Some(account) => account.wallet,
                None => self.wallets.synthetic,
            },
            Owner::Synthetic => self.wallets.synthetic,
        }
    }

    /// What one side of a trade would be charged: only a real trader is, for
    /// synthetic liquidity has no wallet of its own to pay out of.
    pub open spec fn charge(&self, owner: Owner, liquidity: Liquidity, value: i64) -> i64 {
        if owner is Trader {
            self.fees.fee(liquidity, value)
        } else {
            0
        }
    }

    fn charge_for(&self, owner: Owner, liquidity: Liquidity, value: i64) -> (fee: i64)
        ensures
            fee == self.charge(owner, liquidity, value),
    {
        match owner {
            Owner::Trader(_) => self.fees.on(liquidity, value),
            Owner::Synthetic => 0,
        }
    }

    /// What the venue can pay a maker out of: what it has, and what the taker
    /// is about to pay it.
    pub open spec fn purse(&self, ledger: &LedgerView, taker_fee: i64) -> i64 {
        max_int(clamp_i64(ledger.available_of(self.wallets.venue) - taker_fee) as int, 0) as i64
    }

    /// What the venue takes and pays on a trade worth `value`: the taker's
    /// fee in full, the maker's rebate up to what the venue can pay.
    pub open spec fn settled(&self, ledger: &LedgerView, trade: Trade, value: i64) -> SettledFees {
        let taker_cents = self.charge(trade.taker.owner, Liquidity::Taker, value);
        let owed = self.charge(trade.maker.owner, Liquidity::Maker, value);
        let purse = self.purse(ledger, taker_cents);
        SettledFees {
            taker_cents,
            maker_cents: if owed < purse {
                owed
            } else {
                purse
            },
        }
    }

    /// The lines of the one transaction a trade worth `value` is settled by.
    pub open spec fn settlement_lines(&self, trade: Trade, value: i64, fees: SettledFees) -> Seq<Posting> {
        let maker = self.wallet_behind(trade.maker.owner);
        settlement_postings(
            self.wallet_behind(trade.taker.owner),
            maker,
            self.wallets.venue,
            trade.taker_side,
            value,
            fees.taker_cents,
        ).push(Posting { wallet: maker, cents: fees.maker_cents }).push(
            Posting { wallet: self.wallets.venue, cents: (-fees.maker_cents) as i64 },
        )
    }

    /// What settling a trade comes to: the transaction that is owed, or a
    /// settlement that failed where the value of the trade does not fit.
    pub open spec fn settles(&self, after: &Market, ledger: &LedgerView, trade: Trade, r: Option<Settlement>) -> bool {
        match r {
            Some(settlement) => {
                let value = (trade.price_cents * trade.qty) as i64;
                let draft = settlement.draft;
                &&& exact_notional(trade.price_cents as int, trade.qty as int) is Some
                &&& *after == *self
                &&& settlement.fees == self.settled(ledger, trade, value)
                &&& draft.reason == (match trade.taker_side {
                    Side::Buy => crate::ledger::Reason::Buy,
                    Side::Sell => crate::ledger::Reason::Sell,
                })
                &&& draft.at_ms == max_int(trade.ts_ms as int, 0)
                &&& draft.memo is None
                &&& draft.postings@ == self.settlement_lines(trade, value, settlement.fees)
            },
            None => {
                &&& exact_notional(trade.price_cents as int, trade.qty as int) is None
                &&& *after == (Market { settlement_failures: clamp_u64(self.settlement_failures + 1), ..*self })
            },
        }
    }

    /// The currency one trade owes, as a single balanced transaction: the
    /// buyer's side, the seller's side, and the venue's cut of each. `None`
    /// where the value of the trade does not fit, which is counted as a
    /// settlement that failed.
    ///
    /// Whichever side is not a trader posts against the synthetic wallet, so
    /// the transaction balances. A rebate comes out of what the venue has
    /// taken, and no further: what it cannot pay, it does not pay.
    pub fn settle_trade(&mut self, ledger: &LedgerView, trade: &Trade) -> (r: Option<Settlement>)
        requires
            old(self).wf(),
            ledger.wf(),
            trade.price_cents * trade.qty != i64::MIN,
        ensures
            final(self).wf(),
            old(self).settles(final(self), ledger, *trade, r),
    {
        let value: i64 = match checked_notional_cents(trade.price_cents, trade.qty) {
            Ok(value) => value,
            Err(_) => {
                self.settlement_refused();
                return None;
            },
        };
        let taker = self.wallet_for(trade.taker.owner);
        let maker = self.wallet_for(trade.maker.owner);
        let venue = self.wallets.venue;
        proof {
            lemma_fee_fits(self.fees, Liquidity::Taker, value);
            lemma_fee_fits(self.fees, Liquidity::Maker, value);
        }
        let taker_cents: i64 = self.charge_for(trade.taker.owner, Liquidity::Taker, value);
        let purse: i64 = at_least_zero(sat_sub(ledger.available(venue), taker_cents));
        let owed: i64 = self.charge_for(trade.maker.owner, Liquidity::Maker, value);
        let maker_cents: i64 = if owed < purse {
            owed
        } else {
            purse
        };
        let draft = settlement_draft(taker, maker, venue, trade.taker_side, value, taker_cents, trade.ts_ms).posting(
            maker,
            maker_cents,
        ).posting(venue, -maker_cents);
        Some(Settlement { draft, fees: SettledFees { taker_cents, maker_cents } })
    }

    /// A trade could not be settled after the book had already traded: the
    /// shares have moved and the money has not. It is counted, and the drift
    /// left for a reconciliation to report.
    pub fn settlement_refused(&mut self)
        requires
            old(self).wf(),
        ensures
            final(self).wf(),
            *final(self) == (Market {
                settlement_failures: clamp_u64(old(self).settlement_failures + 1),
                ..*old(self)
            }),
    {
        self.settlement_failures = usat_add(self.settlement_failures, 1);
    }

    /// No history and no fill log is within `n` rows of the end of its
    /// numbering.
    pub open spec fn has_room(&self, n: int) -> bool {
        &&& forall|id: u64| #[trigger]
            self.accounts.map().contains_key(id) ==> self.accounts.map()[id].entries_total + n <= u64::MAX
        &&& forall|id: u64| #[trigger]
            self.traders.map().contains_key(id) ==> self.traders.map()[id].next_fill_id + n <= u64::MAX
    }

    /// A settled trade was booked to one trader, if it is one with an
    /// account, and to nobody else.
    pub open spec fn booked_to(
        before: &Market,
        after: &Market,
        ledger: &LedgerView,
        symbol: Seq<char>,
        settled: SettledTrade,
        id: TraderId,
        later_cents: i64,
        fills: Seq<FillRecord>,
    ) -> bool {
        match before.account_behind(id) {
            None => fills.len() == 0 && *after == *before,
            Some(account) => {
                let row = before.traders.map()[id.0].account_id.0;
                &&& *after == (Market { traders: after.traders, accounts: after.accounts, ..*before })
                &&& after.traders.map() == before.traders.map().insert(id.0, after.traders.map()[id.0])
                &&& after.accounts.map() == before.accounts.map().insert(row, after.accounts.map()[row])
                &&& Trader::traded(
                    &before.traders.map()[id.0],
                    &after.traders.map()[id.0],
                    &account,
                    &after.accounts.map()[row],
                    ledger,
                    symbol,
                    settled.trade,
                    settled.fees,
                    settled.tx_id,
                    settled.taken,
                    settled.made,
                    later_cents,
                    fills,
                )
            },
        }
    }

    /// Book a settled trade to one of its traders, where `later_cents` of it
    /// are still to be written into their account.
    fn book_to(&mut self, ledger: &LedgerView, symbol: &str, settled: &SettledTrade, id: TraderId, later_cents: i64) -> (fills:
        Vec<FillRecord>)
        requires
            old(self).wf(),
            ledger.wf(),
            old(self).has_room(4),
            settled.trade.price_cents * settled.trade.qty > i64::MIN,
        ensures
            final(self).wf(),
            Market::booked_to(old(self), final(self), ledger, symbol@, *settled, id, later_cents, fills@),
            forall|n: int| n >= 4 && #[trigger] old(self).has_room(n) ==> final(self).has_room(n - 4),
    {
        let ghost before = *self;
        match self.account_of(id) {
            None => {
                return Vec::new();
            },
            Some(_) => {},
        }
        let mut fills: Vec<FillRecord> = Vec::new();
        match self.traders.get_mut(&id.0) {
            Some(trader) => match self.accounts.get_mut(&trader.account_id.0) {
                Some(account) => {
                    assert(before.trader_wf(id.0));
                    assert(before.account_wf(trader.account_id.0));
                    fills = trader.apply_trade_ahead(
                        ledger,
                        account,
                        symbol,
                        &settled.trade,
                        settled.fees,
                        settled.tx_id,
                        settled.taken,
                        settled.made,
                        later_cents,
                    );
                },
                None => {},
            },
            None => {},
        }
        fills
    }

    /// Two traders trade on one account.
    pub open spec fn share_an_account(&self, one: TraderId, other: TraderId) -> bool {
        &&& self.account_behind(one) is Some
        &&& self.account_behind(other) is Some
        &&& self.traders.map()[one.0].account_id == self.traders.map()[other.0].account_id
    }

    /// What the maker's side of a trade has still to bring the account that
    /// the taker's side is written into: nothing, unless two traders on one
    /// account traded with each other.
    pub open spec fn still_to_come(&self, settled: SettledTrade) -> i64 {
        match (settled.trade.taker.owner, settled.trade.maker.owner) {
            (Owner::Trader(one), Owner::Trader(other)) => if one != other && self.share_an_account(one, other) {
                leg_cents(settled.trade, Liquidity::Maker, settled.fees.maker_cents)
            } else {
                0
            },
            _ => 0,
        }
    }

    /// What the maker's side of a trade has still to bring the account that
    /// the taker's side is written into.
    fn yet_to_come(&self, settled: &SettledTrade) -> (cents: i64)
        requires
            self.wf(),
            settled.trade.price_cents * settled.trade.qty > i64::MIN,
        ensures
            cents == self.still_to_come(*settled),
    {
        let (one, other) = match (settled.trade.taker.owner, settled.trade.maker.owner) {
            (Owner::Trader(one), Owner::Trader(other)) => (one, other),
            _ => {
                return 0;
            },
        };
        if one == other {
            return 0;
        }
        match (self.account_of(one), self.account_of(other)) {
            (Some(_), Some(_)) => {},
            _ => {
                return 0;
            },
        }
        match (self.traders.get(&one.0), self.traders.get(&other.0)) {
            (Some(taker), Some(maker)) => {
                if taker.account_id == maker.account_id {
                    leg(&settled.trade, Liquidity::Maker, settled.fees.maker_cents)
                } else {
                    0
                }
            },
            _ => 0,
        }
    }

    /// A settled trade was booked to whichever traders were on its two sides,
    /// the taker first, and once where one trader was on both.
    pub open spec fn booked_both(
        before: &Market,
        after: &Market,
        ledger: &LedgerView,
        symbol: Seq<char>,
        settled: SettledTrade,
        fills: Seq<FillRecord>,
    ) -> bool {
        exists|between: Market, n: int|
            {
                &&& 0 <= n <= fills.len()
                &&& #[trigger] Market::booked_side(
                    before,
                    &between,
                    ledger,
                    symbol,
                    settled,
                    settled.trade.taker.owner,
                    before.still_to_come(settled),
                    fills.take(n),
                )
                &&& Market::booked_side(
                    &between,
                    after,
                    ledger,
                    symbol,
                    settled,
                    if settled.trade.maker.owner == settled.trade.taker.owner {
                        Owner::Synthetic
                    } else {
                        settled.trade.maker.owner
                    },
                    0,
                    fills.skip(n),
                )
            }
    }

    /// A settled trade was booked to one side, where that side is a trader.
    pub open spec fn booked_side(
        before: &Market,
        after: &Market,
        ledger: &LedgerView,
        symbol: Seq<char>,
        settled: SettledTrade,
        owner: Owner,
        later_cents: i64,
        fills: Seq<FillRecord>,
    ) -> bool {
        match owner {
            Owner::Trader(id) => Market::booked_to(before, after, ledger, symbol, settled, id, later_cents, fills),
            Owner::Synthetic => fills.len() == 0 && *after == *before,
        }
    }

    /// Write a trade that has settled into the positions, the fill logs and
    /// the histories of the traders on its two sides. `ledger` is the ledger
    /// after the transaction that settled it. Returns the fills, the taker's
    /// first.
    pub fn book(&mut self, ledger: &LedgerView, symbol: &str, settled: &SettledTrade) -> (fills: Vec<FillRecord>)
        requires
            old(self).wf(),
            ledger.wf(),
            old(self).has_room(8),
            settled.trade.price_cents * settled.trade.qty > i64::MIN,
        ensures
            final(self).wf(),
            final(self).fills_booked == clamp_u64(old(self).fills_booked + fills@.len()),
            Market::booked_both(
                old(self),
                &(Market { fills_booked: old(self).fills_booked, ..*final(self) }),
                ledger,
                symbol@,
                *settled,
                fills@,
            ),
    {
        let mut fills: Vec<FillRecord> = Vec::new();
        let later_cents: i64 = self.yet_to_come(settled);
        match settled.trade.taker.owner {
            Owner::Trader(id) => {
                fills = self.book_to(ledger, symbol, settled, id, later_cents);
            },
            Owner::Synthetic => {},
        }
        let ghost between = *self;
        let ghost first = fills@;
        let mut more: Vec<FillRecord> = Vec::new();
        match settled.trade.maker.owner {
            Owner::Trader(id) => {
                if settled.trade.maker.owner != settled.trade.taker.owner {
                    proof {
                        assert(old(self).has_room(8));
                    }
                    more = self.book_to(ledger, symbol, settled, id, 0);
                }
            },
            Owner::Synthetic => {},
        }
        let ghost second = more@;
        let ghost after = *self;
        fills.append(&mut more);
        self.fills_booked = usat_add(self.fills_booked, fills.len() as u64);
        proof {
            assert(fills@.take(first.len() as int) =~= first);
            assert(fills@.skip(first.len() as int) =~= second);
            assert(Market { fills_booked: old(self).fills_booked, ..*self } == after);
            assert(Market::booked_side(
                old(self),
                &between,
                ledger,
                symbol@,
                *settled,
                settled.trade.taker.owner,
                later_cents,
                fills@.take(first.len() as int),
            ));
        }
        fills
    }
}

/// A trade and the transaction that settled it: what the venue took and paid,
/// and the positions once the trade is in them, on whichever sides a trader
/// was.
#[derive(Clone, Copy, Debug)]
pub struct SettledTrade {
    pub trade: Trade,
    pub fees: SettledFees,
    pub tx_id: u64,
    /// The taker's position with the trade in it.
    pub taken: Position,
    /// The maker's position with the trade in it.
    pub made: Position,
}

// ---------------------------------------------------------------------------
// Laws

/// The one transaction a trade is settled by balances, whichever way the
/// trade and its fees point: a fill creates no currency and destroys none.
pub proof fn law_a_settled_trade_balances(market: &Market, ledger: &LedgerView, trade: Trade, value: i64)
    requires
        market.fees.bounded(),
        value > i64::MIN,
    ensures
        total_cents(market.settlement_lines(trade, value, market.settled(ledger, trade, value))) == 0,
{
    let fees = market.settled(ledger, trade, value);
    lemma_fee_fits(market.fees, Liquidity::Taker, value);
    lemma_fee_fits(market.fees, Liquidity::Maker, value);
    let taker = market.wallet_behind(trade.taker.owner);
    let maker = market.wallet_behind(trade.maker.owner);
    let venue = market.wallets.venue;
    let lines = settlement_postings(taker, maker, venue, trade.taker_side, value, fees.taker_cents);
    law_settlement_balances(taker, maker, venue, trade.taker_side, value, fees.taker_cents);
    let paid = Posting { wallet: maker, cents: fees.maker_cents };
    let given = Posting { wallet: venue, cents: (-fees.maker_cents) as i64 };
    lemma_total_push(lines, paid);
    lemma_total_push(lines.push(paid), given);
}

/// A rebate comes out of what the venue has collected: settling a trade never
/// takes more out of the venue's wallet than the wallet can spend.
pub proof fn law_a_rebate_never_overdraws_the_venue(market: &Market, ledger: &LedgerView, trade: Trade, value: i64)
    requires
        market.fees.bounded(),
        value >= 0,
        ledger.available_of(market.wallets.venue) >= 0,
        market.wallet_behind(trade.taker.owner) != market.wallets.venue,
        market.wallet_behind(trade.maker.owner) != market.wallets.venue,
    ensures
        ledger.available_of(market.wallets.venue) + net_cents(
            market.settlement_lines(trade, value, market.settled(ledger, trade, value)),
            market.wallets.venue,
        ) >= 0,
{
    let fees = market.settled(ledger, trade, value);
    lemma_fee_fits(market.fees, Liquidity::Taker, value);
    lemma_fee_fits(market.fees, Liquidity::Maker, value);
    let taker = market.wallet_behind(trade.taker.owner);
    let maker = market.wallet_behind(trade.maker.owner);
    let venue = market.wallets.venue;
    let lines = settlement_postings(taker, maker, venue, trade.taker_side, value, fees.taker_cents);
    let none = Seq::<Posting>::empty();
    assert(lines =~= none.push(lines[0]).push(lines[1]).push(lines[2]).push(lines[3]));
    lemma_total_push(none, lines[0]);
    lemma_total_push(none.push(lines[0]), lines[1]);
    lemma_total_push(none.push(lines[0]).push(lines[1]), lines[2]);
    lemma_total_push(none.push(lines[0]).push(lines[1]).push(lines[2]), lines[3]);
    let paid = Posting { wallet: maker, cents: fees.maker_cents };
    let given = Posting { wallet: venue, cents: (-fees.maker_cents) as i64 };
    lemma_total_push(lines, paid);
    lemma_total_push(lines.push(paid), given);
    law_takers_pay_and_makers_do_not(market.fees, value);
}

/// A side with no trader behind it is neither charged nor paid.
pub proof fn law_synthetic_liquidity_is_charged_nothing(market: &Market, ledger: &LedgerView, trade: Trade, value: i64)
    requires
        market.fees.bounded(),
        value > i64::MIN,
    ensures
        trade.taker.owner is Synthetic ==> market.settled(ledger, trade, value).taker_cents == 0,
        trade.maker.owner is Synthetic ==> market.settled(ledger, trade, value).maker_cents == 0,
{
}

impl Market {
    /// A side of a trade is written into this account.
    pub open spec fn on_account(&self, owner: Owner, id: u64) -> bool {
        owner matches Owner::Trader(trader) && self.account_behind(trader) is Some && self.traders.map()[
            trader.0
        ].account_id.0 == id
    }

    /// What one side of a trade brings an account, row by row.
    pub open spec fn leg_into(&self, settled: SettledTrade, liquidity: Liquidity, id: u64) -> Seq<int> {
        let (owner, fee_cents) = if liquidity is Taker {
            (settled.trade.taker.owner, settled.fees.taker_cents)
        } else {
            (settled.trade.maker.owner, settled.fees.maker_cents)
        };
        if self.on_account(owner, id) {
            amounts(leg_rows(settled.trade, liquidity, fee_cents))
        } else {
            Seq::empty()
        }
    }
}

/// The rows of one side of a trade come to what that side brings.
proof fn lemma_leg(trade: Trade, liquidity: Liquidity, fee_cents: i64)
    requires
        trade.price_cents * trade.qty > i64::MIN,
    ensures
        leg_cents(trade, liquidity, fee_cents) == clamp_i64(plain_sum(amounts(leg_rows(trade, liquidity, fee_cents)))),
        leg_rows(trade, liquidity, fee_cents).len() <= 2,
{
    let rows = leg_rows(trade, liquidity, fee_cents);
    let all = amounts(rows);
    reveal_with_fuel(plain_sum, 3);
    if fee_cents != 0 {
        assert(all.drop_last() =~= seq![rows[0].1 as int]);
        assert(all.drop_last().drop_last() =~= Seq::<int>::empty());
    } else {
        assert(all.drop_last() =~= Seq::<int>::empty());
    }
}

/// One side of a trade written into an account whose history adds up to
/// `balance` leaves it adding up to where the rows lead.
proof fn lemma_leg_written(
    after: &Account,
    before: &Account,
    balance: i64,
    closing: i64,
    symbol: Seq<char>,
    trade: Trade,
    liquidity: Liquidity,
    fee_cents: i64,
    tx_id: u64,
)
    requires
        before.wf(),
        before.entries_total + 2 <= u64::MAX,
        trade.price_cents * trade.qty > i64::MIN,
        Trader::booked_on(after, before, closing, symbol, trade, liquidity, fee_cents, tx_id),
        adds_up(before.history(), before.entries_total, balance),
        stays_in_range(balance as int, amounts(leg_rows(trade, liquidity, fee_cents))),
        closing == balance + plain_sum(amounts(leg_rows(trade, liquidity, fee_cents))),
    ensures
        after.wf(),
        after.wallet == before.wallet,
        after.entries_total <= before.entries_total + 2,
        adds_up(after.history(), after.entries_total, closing),
{
    let rows = leg_rows(trade, liquidity, fee_cents);
    let order = if liquidity is Taker {
        trade.taker.order
    } else {
        trade.maker.order
    };
    lemma_leg(trade, liquidity, fee_cents);
    let name = choose|name: String|
        #[trigger] name@ == symbol && after.wrote_split(before, closing, rows, fill_context(tx_id, trade.ts_ms, name, order));
    law_split_rows_keep_history_adding_up(
        before.history(),
        before.entries_total,
        balance,
        closing,
        rows,
        fill_context(tx_id, trade.ts_ms, name, order),
        before.cap(),
    );
}

/// Booking a trade keeps every history adding up, whoever was on its sides:
/// where the transaction that settled it moved an account's balance by what
/// the sides written into it come to, the rows lead from the old balance to
/// the new one. That holds of one trader on both sides, and of two who trade
/// on one account.
pub proof fn law_booking_a_trade_keeps_histories_adding_up(
    before: &Market,
    after: &Market,
    ledger: &LedgerView,
    symbol: Seq<char>,
    settled: SettledTrade,
    fills: Seq<FillRecord>,
    id: u64,
    balance: i64,
)
    requires
        before.wf(),
        before.has_room(8),
        settled.trade.price_cents * settled.trade.qty > i64::MIN,
        Market::booked_both(before, after, ledger, symbol, settled, fills),
        before.accounts.map().contains_key(id),
        adds_up(before.accounts.map()[id].history(), before.accounts.map()[id].entries_total, balance),
        ({
            let taken = before.leg_into(settled, Liquidity::Taker, id);
            let made = before.leg_into(settled, Liquidity::Maker, id);
            &&& stays_in_range(balance as int, taken)
            &&& stays_in_range(balance + plain_sum(taken), made)
            &&& ledger.balance_of(before.accounts.map()[id].wallet) == balance + plain_sum(taken) + plain_sum(made)
        }),
    ensures
        after.accounts.map().contains_key(id),
        adds_up(
            after.accounts.map()[id].history(),
            after.accounts.map()[id].entries_total,
            ledger.balance_of(before.accounts.map()[id].wallet),
        ),
{
    let trade = settled.trade;
    let (taker, maker) = (trade.taker.owner, trade.maker.owner);
    let taken = before.leg_into(settled, Liquidity::Taker, id);
    let made = before.leg_into(settled, Liquidity::Maker, id);
    let held = before.accounts.map()[id];
    let end = ledger.balance_of(held.wallet);
    let (between, n) = choose|between: Market, n: int|
        {
            &&& 0 <= n <= fills.len()
            &&& #[trigger] Market::booked_side(
                before,
                &between,
                ledger,
                symbol,
                settled,
                taker,
                before.still_to_come(settled),
                fills.take(n),
            )
            &&& Market::booked_side(
                &between,
                after,
                ledger,
                symbol,
                settled,
                if maker == taker {
                    Owner::Synthetic
                } else {
                    maker
                },
                0,
                fills.skip(n),
            )
        };
    assert(before.account_wf(id));
    assert(taken.take(taken.len() as int) =~= taken);
    assert(made.take(made.len() as int) =~= made);
    assert(i64::MIN <= balance + plain_sum(taken.take(taken.len() as int)) <= i64::MAX);
    assert(i64::MIN <= plain_sum(made.take(made.len() as int)) <= i64::MAX);
    lemma_leg(trade, Liquidity::Maker, settled.fees.maker_cents);
    let middle = (balance + plain_sum(taken)) as i64;
    let both = taker == maker && before.on_account(taker, id);
    let row = between.accounts.map()[id];
    match taker {
        Owner::Trader(t) => {
            if before.account_behind(t) is Some {
                assert(before.trader_wf(t.0));
                let at = before.traders.map()[t.0].account_id.0;
                if at == id {
                    if taker == maker {
                        lemma_both_sides(before, &between, ledger, symbol, settled, t, fills.take(n), balance, middle);
                    } else {
                        lemma_leg_written(
                            &row,
                            &held,
                            balance,
                            middle,
                            symbol,
                            trade,
                            Liquidity::Taker,
                            settled.fees.taker_cents,
                            settled.tx_id,
                        );
                    }
                }
            }
        },
        Owner::Synthetic => {},
    }
    assert(between.accounts.map().contains_key(id));
    assert(row.wallet == held.wallet);
    if taker == maker {
        assert(*after == between);
        if !both {
            assert(taken.len() == 0 && made.len() == 0);
        }
    } else {
        assert(row.wf() && row.entries_total <= held.entries_total + 2);
        assert(adds_up(row.history(), row.entries_total, middle));
        match maker {
            Owner::Trader(m) => {
                assert(before.traders.map().contains_key(m.0) == between.traders.map().contains_key(m.0));
                assert(before.traders.map().contains_key(m.0) ==> before.traders.map()[m.0] == between.traders.map()[m.0]);
                if before.account_behind(m) is Some {
                    assert(before.trader_wf(m.0));
                    let at = before.traders.map()[m.0].account_id.0;
                    assert(between.account_behind(m) is Some);
                    if at == id {
                        lemma_leg_written(
                            &after.accounts.map()[id],
                            &row,
                            middle,
                            end,
                            symbol,
                            trade,
                            Liquidity::Maker,
                            settled.fees.maker_cents,
                            settled.tx_id,
                        );
                    }
                }
            },
            Owner::Synthetic => {},
        }
    }
}

/// One trader on both sides of a trade.
proof fn lemma_both_sides(
    before: &Market,
    after: &Market,
    ledger: &LedgerView,
    symbol: Seq<char>,
    settled: SettledTrade,
    t: TraderId,
    fills: Seq<FillRecord>,
    balance: i64,
    middle: i64,
)
    requires
        before.wf(),
        before.has_room(8),
        settled.trade.price_cents * settled.trade.qty > i64::MIN,
        settled.trade.taker.owner == Owner::Trader(t),
        settled.trade.maker.owner == Owner::Trader(t),
        before.account_behind(t) is Some,
        Market::booked_to(before, after, ledger, symbol, settled, t, 0, fills),
        ({
            let account = before.account_behind(t)->0;
            let taken = amounts(leg_rows(settled.trade, Liquidity::Taker, settled.fees.taker_cents));
            let made = amounts(leg_rows(settled.trade, Liquidity::Maker, settled.fees.maker_cents));
            &&& adds_up(account.history(), account.entries_total, balance)
            &&& stays_in_range(balance as int, taken)
            &&& stays_in_range(balance + plain_sum(taken), made)
            &&& middle == balance + plain_sum(taken)
            &&& ledger.balance_of(account.wallet) == middle + plain_sum(made)
        }),
    ensures
        ({
            let account = before.account_behind(t)->0;
            let id = before.traders.map()[t.0].account_id.0;
            &&& after.accounts.map()[id].wallet == account.wallet
            &&& adds_up(
                after.accounts.map()[id].history(),
                after.accounts.map()[id].entries_total,
                ledger.balance_of(account.wallet),
            )
        }),
{
    let trade = settled.trade;
    let fees = settled.fees;
    let id = before.traders.map()[t.0].account_id.0;
    let account = before.account_behind(t)->0;
    let trader = before.traders.map()[t.0];
    let made = amounts(leg_rows(trade, Liquidity::Maker, fees.maker_cents));
    assert(before.trader_wf(t.0));
    assert(before.account_wf(id));
    let end = ledger.balance_of(account.wallet);
    let rest = clamp_i64(leg_cents(trade, Liquidity::Maker, fees.maker_cents) + 0);
    lemma_leg(trade, Liquidity::Maker, fees.maker_cents);
    assert(made.take(made.len() as int) =~= made);
    assert(i64::MIN <= plain_sum(made.take(made.len() as int)) <= i64::MAX);
    assert(clamp_i64(end - rest) == middle);
    let (between, rows) = choose|between: Trader, rows: Account|
        {
            &&& between.wf()
            &&& rows.wf()
            &&& #[trigger] between.booked(
                &trader,
                symbol,
                trade,
                Liquidity::Taker,
                fees.taker_cents,
                settled.taken,
                fills[0],
            )
            &&& after.traders.map()[t.0].booked(
                &between,
                symbol,
                trade,
                Liquidity::Maker,
                fees.maker_cents,
                settled.made,
                fills[1],
            )
            &&& #[trigger] Trader::booked_on(
                &rows,
                &account,
                clamp_i64(end - rest),
                symbol,
                trade,
                Liquidity::Taker,
                fees.taker_cents,
                settled.tx_id,
            )
            &&& Trader::booked_on(
                &after.accounts.map()[id],
                &rows,
                clamp_i64(end - 0),
                symbol,
                trade,
                Liquidity::Maker,
                fees.maker_cents,
                settled.tx_id,
            )
        };
    lemma_leg_written(
        &rows,
        &account,
        balance,
        middle,
        symbol,
        trade,
        Liquidity::Taker,
        fees.taker_cents,
        settled.tx_id,
    );
    lemma_leg_written(
        &after.accounts.map()[id],
        &rows,
        middle,
        end,
        symbol,
        trade,
        Liquidity::Maker,
        fees.maker_cents,
        settled.tx_id,
    );
}

/// A settled trade moves its value from the buyer to the seller, the taker's
/// fee from the taker to the venue and the maker's from the maker. Whoever
/// took pays the taker's fee, on either side. Nobody else is touched, and
/// this holds of every wallet, also where one stands in two places.
pub proof fn law_a_settled_trade_pays_each_side(
    market: &Market,
    trade: Trade,
    value: i64,
    fees: SettledFees,
    wallet: WalletId,
)
    requires
        value > i64::MIN,
        fees.taker_cents > i64::MIN,
        fees.maker_cents > i64::MIN,
    ensures
        ({
            let bought = if trade.taker_side is Buy {
                -value
            } else {
                value as int
            };
            net_cents(market.settlement_lines(trade, value, fees), wallet) == (if wallet == market.wallet_behind(
                trade.taker.owner,
            ) {
                bought + fees.taker_cents
            } else {
                0
            }) + (if wallet == market.wallet_behind(trade.maker.owner) {
                fees.maker_cents - bought
            } else {
                0
            }) - (if wallet == market.wallets.venue {
                fees.taker_cents + fees.maker_cents
            } else {
                0
            })
        }),
{
    let taker = market.wallet_behind(trade.taker.owner);
    let maker = market.wallet_behind(trade.maker.owner);
    let venue = market.wallets.venue;
    let lines = settlement_postings(taker, maker, venue, trade.taker_side, value, fees.taker_cents);
    let none = Seq::<Posting>::empty();
    assert(lines =~= none.push(lines[0]).push(lines[1]).push(lines[2]).push(lines[3]));
    lemma_total_push(none, lines[0]);
    lemma_total_push(none.push(lines[0]), lines[1]);
    lemma_total_push(none.push(lines[0]).push(lines[1]), lines[2]);
    lemma_total_push(none.push(lines[0]).push(lines[1]).push(lines[2]), lines[3]);
    let paid = Posting { wallet: maker, cents: fees.maker_cents };
    let given = Posting { wallet: venue, cents: (-fees.maker_cents) as i64 };
    lemma_total_push(lines, paid);
    lemma_total_push(lines.push(paid), given);
    assert(net_cents(none, wallet) == 0);
}

/// What a settled trade moves through a trader's wallet is what the rows it
/// leaves in the trader's history come to, on either side of the trade.
pub proof fn law_a_settled_trade_is_written_as_it_moved(
    market: &Market,
    trade: Trade,
    value: i64,
    fees: SettledFees,
)
    requires
        value == trade.price_cents * trade.qty,
        value > i64::MIN,
        fees.taker_cents > i64::MIN,
        fees.maker_cents > i64::MIN,
        market.wallet_behind(trade.taker.owner) != market.wallet_behind(trade.maker.owner),
        market.wallet_behind(trade.taker.owner) != market.wallets.venue,
        market.wallet_behind(trade.maker.owner) != market.wallets.venue,
    ensures
        net_cents(market.settlement_lines(trade, value, fees), market.wallet_behind(trade.taker.owner)) == plain_sum(
            amounts(leg_rows(trade, Liquidity::Taker, fees.taker_cents)),
        ),
        net_cents(market.settlement_lines(trade, value, fees), market.wallet_behind(trade.maker.owner)) == plain_sum(
            amounts(leg_rows(trade, Liquidity::Maker, fees.maker_cents)),
        ),
        net_cents(market.settlement_lines(trade, value, fees), market.wallets.venue) == -fees.taker_cents
            - fees.maker_cents,
{
    law_a_settled_trade_pays_each_side(market, trade, value, fees, market.wallet_behind(trade.taker.owner));
    law_a_settled_trade_pays_each_side(market, trade, value, fees, market.wallet_behind(trade.maker.owner));
    law_a_settled_trade_pays_each_side(market, trade, value, fees, market.wallets.venue);
    lemma_sum_of_a_leg(trade, Liquidity::Taker, fees.taker_cents);
    lemma_sum_of_a_leg(trade, Liquidity::Maker, fees.maker_cents);
}

/// The rows of a leg come to the value, signed for its side, and the fee.
proof fn lemma_sum_of_a_leg(trade: Trade, liquidity: Liquidity, fee_cents: i64)
    requires
        i64::MIN < trade.price_cents * trade.qty <= i64::MAX,
    ensures
        plain_sum(amounts(leg_rows(trade, liquidity, fee_cents))) == fee_cents + (if (liquidity is Taker) == (
        trade.taker_side is Buy) {
            -(trade.price_cents * trade.qty)
        } else {
            trade.price_cents * trade.qty
        }),
{
    let rows = amounts(leg_rows(trade, liquidity, fee_cents));
    let none = Seq::<int>::empty();
    assert(plain_sum(none) == 0);
    let first = none.push(rows[0]);
    assert(first.drop_last() =~= none);
    assert(plain_sum(first) == rows[0]);
    assert(rows[0] == leg_rows(trade, liquidity, fee_cents)[0].1);
    if fee_cents == 0 {
        assert(rows =~= first);
    } else {
        assert(rows[1] == leg_rows(trade, liquidity, fee_cents)[1].1);
        assert(rows.drop_last() =~= first);
    }
}

/// A trader that takes is charged the taker's rate and one that makes is paid
/// the maker's, whole cents of it, as far as the venue has the money once the
/// taker has paid.
pub proof fn law_settled_fees_are_the_rates(market: &Market, ledger: &LedgerView, trade: Trade, value: i64)
    requires
        market.fees.bounded(),
        value >= 0,
        0 <= ledger.available_of(market.wallets.venue),
        ledger.available_of(market.wallets.venue) + value <= i64::MAX,
    ensures
        ({
            let fees = market.settled(ledger, trade, value);
            let purse = ledger.available_of(market.wallets.venue) - fees.taker_cents;
            &&& trade.taker.owner is Trader ==> 0 <= value * market.fees.taker_bps + fees.taker_cents * 10_000
                < 10_000
            &&& fees.taker_cents <= 0 <= fees.maker_cents <= purse
            &&& fees.maker_cents * 10_000 <= -(value * market.fees.maker_bps)
            &&& trade.maker.owner is Trader && fees.maker_cents < purse ==> -(value * market.fees.maker_bps)
                - fees.maker_cents * 10_000 < 10_000
        }),
{
    lemma_fee_fits(market.fees, Liquidity::Taker, value);
    lemma_fee_fits(market.fees, Liquidity::Maker, value);
    law_takers_pay_and_makers_do_not(market.fees, value);
    let taken = market.fees.fee(Liquidity::Taker, value);
    let made = market.fees.fee(Liquidity::Maker, value);
    lemma_rates(market.fees, value);
    assert(-(value * market.fees.maker_bps) >= 0) by (nonlinear_arith)
        requires
            value >= 0,
            market.fees.maker_bps <= 0,
    ;
}

/// A fee is the whole cents of its rate.
proof fn lemma_rates(fees: Fees, value: i64)
    requires
        fees.bounded(),
        value >= 0,
    ensures
        0 <= value * fees.taker_bps + fees.fee(Liquidity::Taker, value) * 10_000 < 10_000,
        0 <= -(value * fees.maker_bps) - fees.fee(Liquidity::Maker, value) * 10_000 < 10_000,
{
    let (taker, maker) = (value * fees.taker_bps, -(value * fees.maker_bps));
    assert(0 <= taker <= value * 10_000) by (nonlinear_arith)
        requires
            0 <= fees.taker_bps <= 10_000,
            value >= 0,
            taker == value * fees.taker_bps,
    ;
    assert(0 <= maker <= value * 10_000) by (nonlinear_arith)
        requires
            -10_000 <= fees.maker_bps <= 0,
            value >= 0,
            maker == -(value * fees.maker_bps),
    ;
    assert(value * fees.bps(Liquidity::Maker) == -maker) by (nonlinear_arith)
        requires
            fees.bps(Liquidity::Maker) == fees.maker_bps,
            maker == -(value * fees.maker_bps),
    ;
    assert(value * fees.bps(Liquidity::Taker) == taker) by (nonlinear_arith)
        requires
            fees.bps(Liquidity::Taker) == fees.taker_bps,
            taker == value * fees.taker_bps,
    ;
}

/// A buy that no longer rests lets go of its price for every share, in its
/// owner's wallet, and touches no promise; a sell gives back its shares and
/// holds no cash. No other trader and no other symbol is touched, and nothing
/// but the promise is.
pub proof fn law_a_withdrawn_order_reserves_nothing_more(
    before: &Market,
    after: &Market,
    trader: TraderId,
    symbol: Seq<char>,
    cancelled: Resting,
    hold: Option<Hold>,
    other: TraderId,
    elsewhere: Seq<char>,
)
    requires
        before.withdrew(after, trader, symbol, cancelled, hold),
        before.account_behind(trader) is Some,
        0 <= cancelled.price_cents * cancelled.outstanding <= i64::MAX,
        other != trader,
        elsewhere != symbol,
    ensures
        cancelled.side is Buy ==> {
            &&& after.traders.map() == before.traders.map()
            &&& hold is Some
            &&& (hold->0).wallet == (before.account_behind(trader)->0).wallet
            &&& (hold->0).cents == cancelled.price_cents * cancelled.outstanding
        },
        cancelled.side is Sell ==> {
            let (was, now) = (before.traders.map()[trader.0], after.traders.map()[trader.0]);
            &&& hold is None
            &&& now.promised(symbol) == (if was.promised(symbol) < cancelled.outstanding {
                0
            } else {
                was.promised(symbol) - cancelled.outstanding
            })
            &&& now.promised(elsewhere) == was.promised(elsewhere)
            &&& now.positions == was.positions && now.fills == was.fills && now.account_id == was.account_id
        },
        after.traders.map().contains_key(other.0) == before.traders.map().contains_key(other.0),
        before.traders.map().contains_key(other.0) ==> after.traders.map()[other.0] == before.traders.map()[other.0],
{
}

/// A trade takes what traded out of what the resting side reserved: cash at
/// the price it traded at where that side buys, shares where it sells. The
/// taker had nothing reserved for it.
pub proof fn law_a_fill_frees_the_resting_side(
    before: &Market,
    after: &Market,
    symbol: Seq<char>,
    trade: Trade,
    maker: TraderId,
    hold: Option<Hold>,
    other: TraderId,
)
    requires
        before.fill_taken(after, symbol, trade, hold),
        trade.maker.owner == Owner::Trader(maker),
        before.account_behind(maker) is Some,
        0 <= trade.price_cents * trade.qty <= i64::MAX,
        other != maker,
    ensures
        trade.taker_side is Sell ==> {
            &&& after.traders.map() == before.traders.map()
            &&& hold is Some
            &&& (hold->0).wallet == (before.account_behind(maker)->0).wallet
            &&& (hold->0).cents == trade.price_cents * trade.qty
        },
        trade.taker_side is Buy ==> {
            let (was, now) = (before.traders.map()[maker.0], after.traders.map()[maker.0]);
            &&& hold is None
            &&& now.promised(symbol) == (if was.promised(symbol) < trade.qty {
                0
            } else {
                was.promised(symbol) - trade.qty
            })
            &&& now.positions == was.positions && now.fills == was.fills
        },
        before.traders.map().contains_key(other.0) ==> after.traders.map()[other.0] == before.traders.map()[other.0],
{
}

/// What the buys among some orders cost, at their own prices.
pub open spec fn cost_of_buys(orders: Seq<Resting>) -> int
    decreases orders.len(),
{
    if orders.len() == 0 {
        0
    } else {
        cost_of_buys(orders.drop_last()) + (if orders.last().side is Buy {
            orders.last().price_cents * orders.last().outstanding
        } else {
            0
        })
    }
}

/// The cents of some holds.
pub open spec fn cents_held(holds: Seq<Hold>) -> int
    decreases holds.len(),
{
    if holds.len() == 0 {
        0
    } else {
        cents_held(holds.drop_last()) + holds.last().cents
    }
}

/// Withdrawing all of a trader's orders lets go of what all of its buys cost,
/// and of nothing in another wallet.
pub proof fn law_withdrawing_all_lets_go_of_every_buy(wallet: WalletId, cancelled: Seq<Resting>, n: int)
    requires
        0 <= n <= cancelled.len(),
        forall|i: int|
            0 <= i < cancelled.len() ==> 0 <= (#[trigger] cancelled[i]).price_cents * cancelled[i].outstanding <= i64::MAX,
    ensures
        cents_held(Market::let_go_all(wallet, cancelled, n)) == cost_of_buys(cancelled.take(n)),
        forall|i: int|
            0 <= i < Market::let_go_all(wallet, cancelled, n).len() ==> (#[trigger] Market::let_go_all(
                wallet,
                cancelled,
                n,
            )[i]).wallet == wallet,
    decreases n,
{
    if n > 0 {
        law_withdrawing_all_lets_go_of_every_buy(wallet, cancelled, n - 1);
        assert(cancelled.take(n).drop_last() =~= cancelled.take(n - 1));
        assert(cancelled.take(n).last() == cancelled[n - 1]);
        let holds = Market::let_go_all(wallet, cancelled, n);
        let fewer = Market::let_go_all(wallet, cancelled, n - 1);
        if cancelled[n - 1].side is Buy {
            assert(holds.drop_last() =~= fewer);
        }
    }
}

/// Withdrawing all of a trader's orders marks every one of them withdrawn in
/// that symbol, and leaves every other order as it was.
pub proof fn law_withdrawing_all_leaves_others_be(
    log: Log,
    symbol: Seq<char>,
    cancelled: Seq<Resting>,
    n: int,
    now_ms: i64,
    id: u64,
)
    requires
        0 <= n <= cancelled.len(),
        log.orders.contains_key(id),
    ensures
        ({
            let after = Market::withdrawn_all(log, symbol, cancelled, n, now_ms);
            let named = exists|i: int| 0 <= i < n && (#[trigger] cancelled[i]).id == id;
            &&& after.orders.dom() == log.orders.dom()
            &&& after.ids == log.ids && after.clients == log.clients
            &&& after.orders[id].symbol == log.orders[id].symbol
            &&& !named || log.orders[id].symbol@ != symbol ==> after.orders[id] == log.orders[id]
            &&& named && log.orders[id].symbol@ == symbol ==> !(after.orders[id].status is Resting)
            &&& after.orders[id].filled == log.orders[id].filled
        }),
    decreases n,
{
    if n > 0 {
        law_withdrawing_all_leaves_others_be(log, symbol, cancelled, n - 1, now_ms, id);
        let mid = Market::withdrawn_all(log, symbol, cancelled, n - 1, now_ms);
        let after = Market::withdrawn_all(log, symbol, cancelled, n, now_ms);
        assert(after.orders.dom() =~= log.orders.dom()) by {
            if mid.orders.contains_key(cancelled[n - 1].id) {
                assert(mid.orders.dom() == log.orders.dom());
            }
        }
    }
}

/// A trade moves on the records of the orders that traded, each by what
/// traded, and no other: an order of another symbol is not taken for one of
/// this.
pub proof fn law_a_trade_fills_the_orders_that_traded(log: Log, symbol: Seq<char>, trade: Trade, id: u64)
    requires
        log.orders.contains_key(id),
        trade.taker.order != trade.maker.order,
    ensures
        ({
            let (was, now) = (log.orders[id], Market::log_after(log, symbol, trade).orders[id]);
            let traded = (id == trade.taker.order && trade.taker.owner is Trader) || (id == trade.maker.order
                && trade.maker.owner is Trader);
            &&& !traded || was.symbol@ != symbol || !(was.status is Resting) ==> now == was
            &&& traded && was.symbol@ == symbol && was.status is Resting && trade.qty <= was.remaining ==> {
                &&& now.remaining == was.remaining - trade.qty
                &&& was.filled + trade.qty <= u64::MAX ==> now.filled == was.filled + trade.qty
                &&& now.updated_at_ms == trade.ts_ms
            }
        }),
        Market::log_after(log, symbol, trade).ids == log.ids,
        Market::log_after(log, symbol, trade).clients == log.clients,
{
}

/// A trade between two traders on accounts of their own leaves each with the
/// position the trade made of it and one fill more, which says which side of
/// the trade it was on. No third trader is touched.
pub proof fn law_a_booked_trade_reaches_both_traders(
    before: &Market,
    after: &Market,
    ledger: &LedgerView,
    symbol: Seq<char>,
    settled: SettledTrade,
    taker: TraderId,
    maker: TraderId,
    fills: Seq<FillRecord>,
    other: TraderId,
)
    requires
        before.wf(),
        Market::booked_both(before, after, ledger, symbol, settled, fills),
        settled.trade.taker.owner == Owner::Trader(taker),
        settled.trade.maker.owner == Owner::Trader(maker),
        taker != maker,
        before.account_behind(taker) is Some,
        before.account_behind(maker) is Some,
        !before.share_an_account(taker, maker),
        settled.taken.qty != 0,
        settled.made.qty != 0,
        other != taker,
        other != maker,
    ensures
        fills.len() == 2,
        fills[0].liquidity is Taker && fills[0].trader_id == taker.0 && fills[0].qty == settled.trade.qty,
        fills[1].liquidity is Maker && fills[1].trader_id == maker.0 && fills[1].qty == settled.trade.qty,
        fills[0].fee_cents == settled.fees.taker_cents,
        fills[1].fee_cents == settled.fees.maker_cents,
        after.traders.map()[taker.0].positions.map()[symbol] == settled.taken,
        after.traders.map()[maker.0].positions.map()[symbol] == settled.made,
        after.traders.map()[taker.0].fills@.last() == fills[0],
        after.traders.map()[maker.0].fills@.last() == fills[1],
        before.traders.map().contains_key(other.0) ==> after.traders.map()[other.0] == before.traders.map()[other.0],
{
    assert(before.trader_wf(taker.0));
    assert(before.trader_wf(maker.0));
    let (between, n) = choose|between: Market, n: int|
        {
            &&& 0 <= n <= fills.len()
            &&& #[trigger] Market::booked_side(
                before,
                &between,
                ledger,
                symbol,
                settled,
                settled.trade.taker.owner,
                before.still_to_come(settled),
                fills.take(n),
            )
            &&& Market::booked_side(
                &between,
                after,
                ledger,
                symbol,
                settled,
                if settled.trade.maker.owner == settled.trade.taker.owner {
                    Owner::Synthetic
                } else {
                    settled.trade.maker.owner
                },
                0,
                fills.skip(n),
            )
        };
    assert(fills.take(n).len() == 1);
    assert(between.account_behind(maker) == before.account_behind(maker));
    assert(fills.skip(n).len() == 1);
    assert(fills[0] == fills.take(n)[0]);
    assert(fills[1] == fills.skip(n)[0]);
}

/// A trade settles wherever its value can be counted, and settling it changes
/// nothing yet; the transaction says which way the taker traded, and moves the
/// value of the trade and the fees, and nothing else. A trade that cannot be
/// counted is a settlement that failed.
pub proof fn law_a_trade_settles_where_it_can_be_counted(
    market: Market,
    after: Market,
    ledger: LedgerView,
    trade: Trade,
    r: Option<Settlement>,
    wallet: WalletId,
)
    requires
        market.wf(),
        market.settles(&after, &ledger, trade, r),
        trade.price_cents * trade.qty != i64::MIN,
    ensures
        r is Some <==> i64::MIN <= trade.price_cents * trade.qty <= i64::MAX,
        r is Some ==> after == market,
        r is None ==> after.settlement_failures >= market.settlement_failures && after.accounts == market.accounts
            && after.traders == market.traders && after.orders == market.orders,
        r is None && market.settlement_failures < u64::MAX ==> after.settlement_failures
            == market.settlement_failures + 1,
        r matches Some(settlement) ==> {
            let value = trade.price_cents * trade.qty;
            let fees = settlement.fees;
            let bought = if trade.taker_side is Buy {
                -value
            } else {
                value
            };
            &&& settlement.draft.reason is Buy <==> trade.taker_side is Buy
            &&& settlement.draft.reason is Sell <==> trade.taker_side is Sell
            &&& fees.taker_cents > i64::MIN && fees.maker_cents > i64::MIN ==> net_cents(
                settlement.draft.postings@,
                wallet,
            ) == (if wallet == market.wallet_behind(trade.taker.owner) {
                bought + fees.taker_cents
            } else {
                0
            }) + (if wallet == market.wallet_behind(trade.maker.owner) {
                fees.maker_cents - bought
            } else {
                0
            }) - (if wallet == market.wallets.venue {
                fees.taker_cents + fees.maker_cents
            } else {
                0
            })
        },
{
    if r is Some {
        let value = (trade.price_cents * trade.qty) as i64;
        let fees = (r->0).fees;
        if fees.taker_cents > i64::MIN && fees.maker_cents > i64::MIN {
            law_a_settled_trade_pays_each_side(&market, trade, value, fees, wallet);
        }
    }
}

} // verus!
