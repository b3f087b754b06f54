use vstd::prelude::*;

verus! {

/// The balance a new or reset bank starts with.
pub const STARTING_BALANCE: usize = 1000;

/// How many of the latest transactions the history keeps.
pub const HISTORY_LIMIT: usize = 128;

/// The kind of a transaction.
#[allow(non_camel_case_types)]
#[derive(Debug, Copy, Clone, PartialEq, Eq, Structural)]
pub enum TransactionType {
    SPEND,
    EARN,
    RESET,
}

/// One entry of the history: its amount, its kind and the balance after it.
#[derive(Debug, Copy, Clone)]
pub struct Transaction {
    pub amount: usize,
    pub typ: TransactionType,
    pub trans_bal: usize,
}

/// `recent` with `t` appended, the oldest entry dropped first when the
/// history is already full.
pub open spec fn record(recent: Seq<Transaction>, t: Transaction) -> Seq<Transaction> {
    if recent.len() >= HISTORY_LIMIT {
        recent.drop_first().push(t)
    } else {
        recent.push(t)
    }
}

/// Counters over the whole life of the bank, and its latest transactions.
pub struct BankHistory {
    resets: usize,
    total_spent: usize,
    total_earned: usize,
    hands_bought: usize,
    recent_transactions: Vec<Transaction>,
}

impl BankHistory {
    #[verifier::type_invariant]
    spec fn bounded(self) -> bool {
        self.recent_transactions@.len() <= HISTORY_LIMIT
    }

    pub closed spec fn spec_resets(&self) -> usize {
        self.resets
    }

    pub closed spec fn spec_total_spent(&self) -> usize {
        self.total_spent
    }

    pub closed spec fn spec_total_earned(&self) -> usize {
        self.total_earned
    }

    pub closed spec fn spec_hands_bought(&self) -> usize {
        self.hands_bought
    }

    /// The latest transactions, oldest first.
    pub closed spec fn recent(&self) -> Seq<Transaction> {
        self.recent_transactions@
    }

    /// The counter that a transaction of kind `typ` and size `amount` raises
    /// still fits in a `usize`.
    pub open spec fn can_record(&self, amount: usize, typ: TransactionType) -> bool {
        match typ {
            TransactionType::SPEND => self.total_spent() + amount <= usize::MAX,
            TransactionType::EARN => self.total_earned() + amount <= usize::MAX,
            TransactionType::RESET => self.resets() + 1 <= usize::MAX,
        }
    }

    /// A history with the counters and latest transactions given.
    pub fn from_parts(
        resets: usize,
        total_spent: usize,
        total_earned: usize,
        hands_bought: usize,
        recent_transactions: Vec<Transaction>,
    ) -> (r: BankHistory)
        requires
            recent_transactions@.len() <= HISTORY_LIMIT,
        ensures
            r.resets() == resets,
            r.total_spent() == total_spent,
            r.total_earned() == total_earned,
            r.hands_bought() == hands_bought,
            r.recent() == recent_transactions@,
    {
        BankHistory { resets, total_spent, total_earned, hands_bought, recent_transactions }
    }

    /// An empty history with every counter at zero.
    pub fn new() -> (r: BankHistory)
        ensures
            r.resets() == 0,
            r.total_spent() == 0,
            r.total_earned() == 0,
            r.hands_bought() == 0,
            r.recent() == Seq::<Transaction>::empty(),
    {
        BankHistory {
            resets: 0,
            total_spent: 0,
            total_earned: 0,
            hands_bought: 0,
            recent_transactions: Vec::new(),
        }
    }

    /// Records a transaction of kind `typ` and size `amount` that left the
    /// balance at `balance`: it raises the counter of its kind (a reset
    /// counts one) and joins the latest transactions, the oldest one
    /// dropped when `HISTORY_LIMIT` are already kept.
    pub fn add_transaction(&mut self, balance: usize, amount: usize, typ: TransactionType)
        requires
            old(self).can_record(amount, typ),
        ensures
            final(self).recent() == record(
                old(self).recent(),
                Transaction { amount, typ, trans_bal: balance },
            ),
            final(self).total_spent() == old(self).total_spent() + if typ
                == TransactionType::SPEND {
                amount as int
            } else {
                0
            },
            final(self).total_earned() == old(self).total_earned() + if typ
                == TransactionType::EARN {
                amount as int
            } else {
                0
            },
            final(self).resets() == old(self).resets() + if typ == TransactionType::RESET {
                1int
            } else {
                0
            },
            final(self).hands_bought() == old(self).hands_bought(),
            final(self).recent().len() <= HISTORY_LIMIT,
    {
        proof {
            use_type_invariant(&*self);
        }
        let len = self.recent_transactions.len();
        let start: usize = if len >= HISTORY_LIMIT {
            1
        } else {
            0
        };
        let mut kept: Vec<Transaction> = Vec::new();
        let mut i: usize = start;
        while i < len
            invariant
                len == self.recent_transactions@.len(),
                start <= i <= len,
                kept@ =~= self.recent_transactions@.subrange(start as int, i as int),
            decreases len - i,
        {
            kept.push(self.recent_transactions[i]);
            i += 1;
        }
        let t = Transaction { amount, typ, trans_bal: balance };
        kept.push(t);
        proof {
            assert(kept@ =~= record(old(self).recent(), t));
        }
        match typ {
            TransactionType::SPEND => self.total_spent = self.total_spent + amount,
            TransactionType::EARN => self.total_earned = self.total_earned + amount,
            TransactionType::RESET => self.resets = self.resets + 1,
        }
        self.recent_transactions = kept;
    }

    /// The latest transactions, oldest first; never more than
    /// `HISTORY_LIMIT` of them.
    pub fn recent_transactions(&self) -> (r: &Vec<Transaction>)
        ensures
            r@ == self.recent(),
            r@.len() <= HISTORY_LIMIT,
    {
        proof {
            use_type_invariant(self);
        }
        &self.recent_transactions
    }

    /// The number of balance resets.
    #[verifier::when_used_as_spec(spec_resets)]
    pub fn resets(&self) -> (r: usize)
        ensures
            r == self.spec_resets(),
    {
        self.resets
    }

    /// The sum spent on hands.
    #[verifier::when_used_as_spec(spec_total_spent)]
    pub fn total_spent(&self) -> (r: usize)
        ensures
            r == self.spec_total_spent(),
    {
        self.total_spent
    }

    /// The sum won.
    #[verifier::when_used_as_spec(spec_total_earned)]
    pub fn total_earned(&self) -> (r: usize)
        ensures
            r == self.spec_total_earned(),
    {
        self.total_earned
    }

    /// The number of hands bought.
    #[verifier::when_used_as_spec(spec_hands_bought)]
    pub fn hands_bought(&self) -> (r: usize)
        ensures
            r == self.spec_hands_bought(),
    {
        self.hands_bought
    }
}


/// The bank: the balance, the bet per hand and the history.
pub struct GameBank {
    balance: usize,
    pub cur_bet: usize,
    history: BankHistory,
}

impl GameBank {
    pub closed spec fn spec_balance(&self) -> usize {
        self.balance
    }

    /// The bet per hand.
    pub closed spec fn bet(&self) -> usize {
        self.cur_bet
    }

    pub closed spec fn spec_history(&self) -> BankHistory {
        self.history
    }

    /// The number of resets, as the history counts them.
    pub open spec fn spec_resets(&self) -> usize {
        self.spec_history().resets()
    }

    /// What buying `hands` hands costs.
    pub open spec fn cost(&self, hands: usize) -> int {
        self.bet() * hands
    }

    /// `hands` hands are affordable, and the counters that buying them
    /// raises still fit in a `usize`.
    pub open spec fn can_buy_spec(&self, hands: usize) -> bool {
        &&& self.cost(hands) <= self.get_balance()
        &&& self.spec_history().total_spent() + self.cost(hands) <= usize::MAX
        &&& self.spec_history().hands_bought() + hands <= usize::MAX
    }

    /// What `halves` half-bets come to, fractions of a unit dropped.
    pub open spec fn payout(&self, halves: usize) -> int {
        (self.bet() * halves) / 2
    }

    /// The payout of `halves` half-bets and the sums it raises fit in a
    /// `usize`.
    pub open spec fn can_win_spec(&self, halves: usize) -> bool {
        &&& self.bet() * halves <= usize::MAX
        &&& self.get_balance() + self.payout(halves) <= usize::MAX
        &&& self.spec_history().total_earned() + self.payout(halves) <= usize::MAX
    }

    /// `buy(bought)` followed by `win(halves)` may be called.
    pub open spec fn can_settle_spec(&self, bought: usize, halves: usize) -> bool {
        &&& self.can_buy_spec(bought)
        &&& self.bet() * halves <= usize::MAX
        &&& self.get_balance() - self.cost(bought) + self.payout(halves) <= usize::MAX
        &&& self.spec_history().total_earned() + self.payout(halves) <= usize::MAX
    }

    /// A bank holding `STARTING_BALANCE`, with no bet and an empty history.
    pub fn new() -> (r: GameBank)
        ensures
            r.get_balance() == STARTING_BALANCE,
            r.bet() == 0,
            r.spec_history().resets() == 0,
            r.spec_history().total_spent() == 0,
            r.spec_history().total_earned() == 0,
            r.spec_history().hands_bought() == 0,
            r.spec_history().recent() == Seq::<Transaction>::empty(),
    {
        GameBank { balance: STARTING_BALANCE, cur_bet: 0, history: BankHistory::new() }
    }

    /// A bank with the balance, bet and history given.
    pub fn from_parts(balance: usize, cur_bet: usize, history: BankHistory) -> (r: GameBank)
        ensures
            r.get_balance() == balance,
            r.bet() == cur_bet,
            r.spec_history() == history,
    {
        GameBank { balance, cur_bet, history }
    }

    /// The bet per hand.
    pub fn get_bet(&self) -> (r: usize)
        ensures
            r == self.bet(),
    {
        self.cur_bet
    }

    /// Sets the bet per hand.
    pub fn set_bet(&mut self, bet: usize)
        ensures
            final(self).bet() == bet,
            final(self).get_balance() == old(self).get_balance(),
            final(self).spec_history() == old(self).spec_history(),
    {
        self.cur_bet = bet;
    }

    /// Whether `buy(hands)` may be called.
    pub fn can_buy(&self, hands: usize) -> (r: bool)
        ensures
            r == self.can_buy_spec(hands),
    {
        match self.cur_bet.checked_mul(hands) {
            Some(amount) => {
                amount <= self.balance && amount <= usize::MAX - self.history.total_spent()
                    && hands <= usize::MAX - self.history.hands_bought()
            },
            None => false,
        }
    }

    /// Pays for `hands` hands at the current bet: the balance goes down by
    /// `cur_bet * hands`, and the purchase is recorded as spent.
    pub fn buy(&mut self, hands: usize)
        requires
            old(self).can_buy_spec(hands),
        ensures
            final(self).get_balance() == old(self).get_balance() - old(self).cost(hands),
            final(self).bet() == old(self).bet(),
            final(self).spec_history().hands_bought() == old(self).spec_history().hands_bought()
                + hands,
            final(self).spec_history().total_spent() == old(self).spec_history().total_spent()
                + old(self).cost(hands),
            final(self).spec_history().total_earned() == old(self).spec_history().total_earned(),
            final(self).spec_history().resets() == old(self).spec_history().resets(),
            final(self).spec_history().recent() == record(
                old(self).spec_history().recent(),
                Transaction {
                    amount: old(self).cost(hands) as usize,
                    typ: TransactionType::SPEND,
                    trans_bal: final(self).get_balance(),
                },
            ),
            final(self).spec_history().recent().len() <= HISTORY_LIMIT,
    {
        proof {
            use_type_invariant(&self.history);
        }
        let amount = self.cur_bet * hands;
        self.balance = self.balance - amount;
        self.history.hands_bought = self.history.hands_bought + hands;
        self.history.add_transaction(self.balance, amount, TransactionType::SPEND);
    }

    /// Whether `buy(bought)` followed by `win(halves)` may be called.
    pub fn can_settle(&self, bought: usize, halves: usize) -> (r: bool)
        ensures
            r == self.can_settle_spec(bought, halves),
    {
        if !self.can_buy(bought) {
            return false;
        }
        let left = self.balance - self.cur_bet * bought;
        match self.cur_bet.checked_mul(halves) {
            Some(product) => {
                let amount = product / 2;
                amount <= usize::MAX - left && amount <= usize::MAX - self.history.total_earned()
            },
            None => false,
        }
    }

    /// Whether `win(halves)` may be called.
    pub fn can_win(&self, halves: usize) -> (r: bool)
        ensures
            r == self.can_win_spec(halves),
    {
        match self.cur_bet.checked_mul(halves) {
            Some(product) => {
                let amount = product / 2;
                amount <= usize::MAX - self.balance && amount <= usize::MAX
                    - self.history.total_earned()
            },
            None => false,
        }
    }

    /// Credits the winnings of `halves` half-bets: `cur_bet * halves / 2`,
    /// fractions of a unit dropped. Returns the amount credited.
    pub fn win(&mut self, halves: usize) -> (r: usize)
        requires
            old(self).can_win_spec(halves),
        ensures
            r == old(self).payout(halves),
            final(self).get_balance() == old(self).get_balance() + r,
            final(self).bet() == old(self).bet(),
            final(self).spec_history().total_earned() == old(self).spec_history().total_earned() + r,
            final(self).spec_history().total_spent() == old(self).spec_history().total_spent(),
            final(self).spec_history().hands_bought() == old(self).spec_history().hands_bought(),
            final(self).spec_history().resets() == old(self).spec_history().resets(),
            final(self).spec_history().recent() == record(
                old(self).spec_history().recent(),
                Transaction {
                    amount: r,
                    typ: TransactionType::EARN,
                    trans_bal: final(self).get_balance(),
                },
            ),
            final(self).spec_history().recent().len() <= HISTORY_LIMIT,
    {
        let amount = self.cur_bet * halves / 2;
        self.balance = self.balance + amount;
        self.history.add_transaction(self.balance, amount, TransactionType::EARN);
        amount
    }

    /// Sets the balance back to `STARTING_BALANCE` and records the reset.
    pub fn reset_balance(&mut self)
        requires
            old(self).spec_history().resets() < usize::MAX,
        ensures
            final(self).get_balance() == STARTING_BALANCE,
            final(self).bet() == old(self).bet(),
            final(self).spec_history().resets() == old(self).spec_history().resets() + 1,
            final(self).spec_history().total_spent() == old(self).spec_history().total_spent(),
            final(self).spec_history().total_earned() == old(self).spec_history().total_earned(),
            final(self).spec_history().hands_bought() == old(self).spec_history().hands_bought(),
            final(self).spec_history().recent() == record(
                old(self).spec_history().recent(),
                Transaction {
                    amount: 0,
                    typ: TransactionType::RESET,
                    trans_bal: STARTING_BALANCE,
                },
            ),
            final(self).spec_history().recent().len() <= HISTORY_LIMIT,
    {
        self.balance = STARTING_BALANCE;
        self.history.add_transaction(self.balance, 0, TransactionType::RESET);
    }

    /// The current balance.
    #[verifier::when_used_as_spec(spec_balance)]
    pub fn get_balance(&self) -> (r: usize)
        ensures
            r == self.spec_balance(),
    {
        self.balance
    }

    /// The number of balance resets so far.
    #[verifier::when_used_as_spec(spec_resets)]
    pub fn get_resets(&self) -> (r: usize)
        ensures
            r == self.spec_resets(),
    {
        self.history.resets()
    }

    /// The history of the bank.
    pub fn history(&self) -> (r: &BankHistory)
        ensures
            *r == self.spec_history(),
    {
        &self.history
    }
}

} // verus!
