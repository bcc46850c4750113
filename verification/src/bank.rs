//! The ledger: accounts, the append-only transaction log, and balances derived
//! from the log.

use crate::card_number::{CardNumber, PAYLOAD_LIMIT};
use crate::clock::unix_now;
use crate::errors::{chain_text, error_chain_fmt, string_views};
use vstd::prelude::*;
use vstd::seq_lib::seq_to_set_is_finite;
use vstd::set_lib::{lemma_int_range, lemma_len_subset, set_int_range};
use vstd::std_specs::cmp::PartialEqSpecImpl;

verus! {

/// Why a ledger operation was refused.
#[derive(Clone, Copy, Debug, PartialEq, Eq, Structural)]
pub enum BankOperationError {
    /// No account has the card number.
    AccountNotFound,
    /// The account with the card number was deleted.
    AccountIsDeleted,
    /// The sender's balance is below the amount.
    NotEnoughFunds,
    /// The secret, or the owner's name, does not match.
    NotAuthorized,
    /// Sender and recipient are one account, or the amount is not positive.
    BadTransaction,
}

impl BankOperationError {
    /// What the error says.
    pub open spec fn message_text(self) -> Seq<char> {
        match self {
            BankOperationError::AccountNotFound => "No account"@,
            BankOperationError::AccountIsDeleted => "Account was deleted"@,
            BankOperationError::NotEnoughFunds => "Not enough funds for operation"@,
            BankOperationError::NotAuthorized => "Account is not authorized"@,
            BankOperationError::BadTransaction => "Can't perform transaction"@,
        }
    }

    /// What the error says.
    pub fn message(&self) -> (text: &'static str)
        ensures
            text@ == self.message_text(),
    {
        match self {
            BankOperationError::AccountNotFound => "No account",
            BankOperationError::AccountIsDeleted => "Account was deleted",
            BankOperationError::NotEnoughFunds => "Not enough funds for operation",
            BankOperationError::NotAuthorized => "Account is not authorized",
            BankOperationError::BadTransaction => "Can't perform transaction",
        }
    }

    /// What the error says, as an owned string.
    pub fn to_string(&self) -> (text: String)
        ensures
            text@ == self.message_text(),
    {
        self.message().to_owned()
    }

    /// The error written out as for a log: the message and, since these
    /// errors have no cause, nothing after the empty line.
    pub fn debug_string(&self) -> (text: String)
        ensures
            text@ == chain_text(self.message_text(), Seq::empty()),
    {
        let causes: Vec<String> = Vec::new();
        assert(string_views(causes@) =~= Seq::empty());
        error_chain_fmt(self.message(), &causes)
    }
}

/// What the ledger knows of an account.
pub struct AccountView {
    pub card: CardNumber,
    pub password: Seq<char>,
    pub exists: bool,
}

/// One entry of the transaction log.
pub struct TransactionView {
    pub sender: AccountView,
    pub recipient: AccountView,
    pub amount: int,
    pub timestamp: int,
}

/// The whole state of a ledger.
pub struct BankView {
    /// The customers' accounts, in the order in which they were added.
    pub accounts: Seq<AccountView>,
    /// The log, oldest entry first.
    pub transactions: Seq<TransactionView>,
    /// The bank's own account: the source of credits and the store's till.
    pub system_account: AccountView,
    /// The name under which the bank's owner signs in.
    pub owner: Seq<char>,
}

/// One line of the listing of accounts.
pub struct AccountSummaryView {
    pub card: CardNumber,
    pub balance: int,
    pub transactions: Seq<TransactionView>,
}

/// The sum of the amounts that `card` received in `log`.
pub open spec fn received(log: Seq<TransactionView>, card: CardNumber) -> int
    decreases log.len(),
{
    if log.len() == 0 {
        0
    } else {
        received(log.drop_last(), card) + if log.last().recipient.card == card {
            log.last().amount
        } else {
            0
        }
    }
}

/// The sum of the amounts that `card` sent in `log`.
pub open spec fn sent(log: Seq<TransactionView>, card: CardNumber) -> int
    decreases log.len(),
{
    if log.len() == 0 {
        0
    } else {
        sent(log.drop_last(), card) + if log.last().sender.card == card {
            log.last().amount
        } else {
            0
        }
    }
}

/// The balance of `card`: what it received less what it sent. It is stored
/// nowhere; the log is all there is.
pub open spec fn balance_of(log: Seq<TransactionView>, card: CardNumber) -> int {
    received(log, card) - sent(log, card)
}

/// Whether `card` is the sender or the recipient of `t`.
pub open spec fn involves(t: TransactionView, card: CardNumber) -> bool {
    t.sender.card == card || t.recipient.card == card
}

/// The entries of `log` that involve `card`, in the order of the log.
pub open spec fn history_of(log: Seq<TransactionView>, card: CardNumber) -> Seq<TransactionView> {
    log.filter(|t: TransactionView| involves(t, card))
}

/// What appending `t` does to a balance.
pub proof fn lemma_balance_push(log: Seq<TransactionView>, t: TransactionView, card: CardNumber)
    ensures
        received(log.push(t), card) == received(log, card) + if t.recipient.card == card {
            t.amount
        } else {
            0
        },
        sent(log.push(t), card) == sent(log, card) + if t.sender.card == card {
            t.amount
        } else {
            0
        },
{
    assert(log.push(t).drop_last() =~= log);
}

impl BankView {
    /// Whether a customer account has `card`.
    pub open spec fn holds(self, card: CardNumber) -> bool {
        exists|i: int| 0 <= i < self.accounts.len() && (#[trigger] self.accounts[i]).card == card
    }

    /// The place of the customer account that has `card`.
    pub open spec fn position(self, card: CardNumber) -> int {
        choose|i: int| 0 <= i < self.accounts.len() && (#[trigger] self.accounts[i]).card == card
    }

    /// Whether `card` is taken, by a customer account or by the bank's own.
    pub open spec fn in_use(self, card: CardNumber) -> bool {
        card == self.system_account.card || self.holds(card)
    }

    /// What holds of every ledger: card numbers are well formed and no two
    /// accounts share one; every logged transaction moves a positive amount
    /// between two different accounts; and no customer is overdrawn.
    pub open spec fn wf(self) -> bool {
        &&& self.system_account.card.valid()
        &&& self.system_account.exists
        &&& forall|i: int|
            0 <= i < self.accounts.len() ==> {
                &&& (#[trigger] self.accounts[i]).card.valid()
                &&& self.accounts[i].card != self.system_account.card
            }
        &&& forall|i: int, j: int|
            0 <= i < j < self.accounts.len() ==> (#[trigger] self.accounts[i]).card != (
            #[trigger] self.accounts[j]).card
        &&& forall|k: int|
            0 <= k < self.transactions.len() ==> {
                &&& (#[trigger] self.transactions[k]).amount > 0
                &&& self.transactions[k].sender.card != self.transactions[k].recipient.card
            }
        &&& forall|card: CardNumber|
            card != self.system_account.card ==> #[trigger] balance_of(self.transactions, card) >= 0
    }

    /// What a lookup of `card` gives.
    pub open spec fn find(self, card: CardNumber) -> Result<AccountView, BankOperationError> {
        if !self.holds(card) {
            Err(BankOperationError::AccountNotFound)
        } else if !self.accounts[self.position(card)].exists {
            Err(BankOperationError::AccountIsDeleted)
        } else {
            Ok(self.accounts[self.position(card)])
        }
    }

    /// What a lookup of `card` with the secret `password` gives.
    pub open spec fn authorize(self, card: CardNumber, password: Seq<char>) -> Result<
        AccountView,
        BankOperationError,
    > {
        match self.find(card) {
            Ok(account) => if account.password == password {
                Ok(account)
            } else {
                Err(BankOperationError::NotAuthorized)
            },
            Err(e) => Err(e),
        }
    }

    /// The ledger with the account of `card` marked as deleted.
    pub open spec fn with_deleted(self, card: CardNumber) -> BankView {
        let i = self.position(card);
        BankView {
            accounts: self.accounts.update(i, AccountView { exists: false, ..self.accounts[i] }),
            ..self
        }
    }

    /// The ledger with one more account, live from the start.
    pub open spec fn with_account(self, card: CardNumber, password: Seq<char>) -> BankView {
        BankView {
            accounts: self.accounts.push(AccountView { card, password, exists: true }),
            ..self
        }
    }

    /// The ledger with `t` appended to the log.
    pub open spec fn with_transaction(self, t: TransactionView) -> BankView {
        BankView { transactions: self.transactions.push(t), ..self }
    }

    /// Whether a transfer is accepted, and if not, why. A transfer to oneself
    /// or of a non-positive amount is refused before the funds are looked at.
    pub open spec fn transfer_outcome(self, sender: CardNumber, recipient: CardNumber, amount: int)
        -> Result<(), BankOperationError> {
        if sender == recipient || amount <= 0 {
            Err(BankOperationError::BadTransaction)
        } else if balance_of(self.transactions, sender) < amount {
            Err(BankOperationError::NotEnoughFunds)
        } else {
            Ok(())
        }
    }

    /// Whether a credit is accepted, and if not, why. The account is looked up
    /// first; the funds of the bank's own account are not looked at.
    pub open spec fn credit_outcome(self, card: CardNumber, amount: int) -> Result<
        AccountView,
        BankOperationError,
    > {
        match self.find(card) {
            Ok(account) => if amount <= 0 {
                Err(BankOperationError::BadTransaction)
            } else {
                Ok(account)
            },
            Err(e) => Err(e),
        }
    }

    /// The ledger after an accepted transfer recorded at `timestamp`.
    pub open spec fn with_transfer(
        self,
        sender: AccountView,
        recipient: AccountView,
        amount: int,
        timestamp: int,
    ) -> BankView {
        self.with_transaction(TransactionView { sender, recipient, amount, timestamp })
    }

    /// Whether the payload `p` is the least whose card number is free.
    pub open spec fn is_first_free(self, p: nat) -> bool {
        &&& !self.in_use(CardNumber::of_payload(p))
        &&& forall|q: nat| q < p ==> self.in_use(#[trigger] CardNumber::of_payload(q))
    }

    /// The free card number with the least payload.
    pub open spec fn first_free_card(self) -> CardNumber {
        CardNumber::of_payload(choose|p: nat| self.is_first_free(p))
    }

    /// The card number that a new account gets where `preferred` was drawn
    /// for it: `preferred` itself unless it is taken, else the first free one.
    pub open spec fn card_for(self, preferred: CardNumber) -> CardNumber {
        if self.in_use(preferred) {
            self.first_free_card()
        } else {
            preferred
        }
    }

    /// Whether card numbers are left for another account.
    pub open spec fn has_room(self) -> bool {
        self.accounts.len() + 1 < PAYLOAD_LIMIT
    }

    /// What the listing says of the account at place `i`.
    pub open spec fn summary(self, i: int) -> AccountSummaryView {
        AccountSummaryView {
            card: self.accounts[i].card,
            balance: balance_of(self.transactions, self.accounts[i].card),
            transactions: history_of(self.transactions, self.accounts[i].card),
        }
    }

    /// Where the card numbers of the first `p` payloads are all taken, the
    /// ledger has at least `p` accounts, its own included.
    pub proof fn lemma_taken_payloads(self, p: nat)
        requires
            p <= PAYLOAD_LIMIT,
            forall|q: nat| q < p ==> self.in_use(#[trigger] CardNumber::of_payload(q)),
        ensures
            p <= self.accounts.len() + 1,
    {
        let payloads = Seq::new(self.accounts.len(), |i: int| self.accounts[i].card.payload() as int);
        let taken = payloads.to_set().insert(self.system_account.card.payload() as int);
        let first = set_int_range(0, p as int);
        payloads.lemma_cardinality_of_set();
        seq_to_set_is_finite(payloads);
        lemma_int_range(0, p as int);
        assert forall|q: int| first.contains(q) implies taken.contains(q) by {
            let card = CardNumber::of_payload(q as nat);
            CardNumber::lemma_of_payload(q as nat);
            assert(self.in_use(card));
            if card != self.system_account.card {
                let i = choose|i: int|
                    0 <= i < self.accounts.len() && (#[trigger] self.accounts[i]).card == card;
                assert(payloads[i] == q);
                assert(payloads.contains(q));
            }
        }
        lemma_len_subset(first, taken);
    }

    /// The least free payload is the only one that `is_first_free` holds of.
    pub proof fn lemma_first_free(self, p: nat)
        requires
            self.is_first_free(p),
        ensures
            self.first_free_card() == CardNumber::of_payload(p),
    {
        let chosen = choose|p: nat| self.is_first_free(p);
        assert(self.is_first_free(chosen));
        if chosen < p {
            assert(self.in_use(CardNumber::of_payload(chosen)));
        } else if p < chosen {
            assert(self.in_use(CardNumber::of_payload(p)));
        }
    }

    /// In a well-formed ledger an account is found at its one place.
    pub proof fn lemma_position(self, card: CardNumber, i: int)
        requires
            self.wf(),
            0 <= i < self.accounts.len(),
            self.accounts[i].card == card,
        ensures
            self.holds(card),
            self.position(card) == i,
    {
        let p = self.position(card);
        if p < i {
            assert(self.accounts[p].card != self.accounts[i].card);
        } else if i < p {
            assert(self.accounts[i].card != self.accounts[p].card);
        }
    }
}

/// One attempt of a sender to pay `amount` to `recipient`.
pub struct TransferAttempt {
    pub recipient: AccountView,
    pub amount: int,
    pub timestamp: int,
}

impl BankView {
    /// The ledger after `sender` has made `attempts` one after the other,
    /// each accepted or refused as `transfer_outcome` says.
    pub open spec fn after_attempts(self, sender: AccountView, attempts: Seq<TransferAttempt>)
        -> BankView
        decreases attempts.len(),
    {
        if attempts.len() == 0 {
            self
        } else {
            let before = self.after_attempts(sender, attempts.drop_last());
            let attempt = attempts.last();
            if before.transfer_outcome(sender.card, attempt.recipient.card, attempt.amount) is Ok {
                before.with_transfer(sender, attempt.recipient, attempt.amount, attempt.timestamp)
            } else {
                before
            }
        }
    }

    /// The sum of the amounts of those of `attempts` that were accepted.
    pub open spec fn spent(self, sender: AccountView, attempts: Seq<TransferAttempt>) -> int
        decreases attempts.len(),
    {
        if attempts.len() == 0 {
            0
        } else {
            let before = self.after_attempts(sender, attempts.drop_last());
            let attempt = attempts.last();
            self.spent(sender, attempts.drop_last()) + if before.transfer_outcome(
                sender.card,
                attempt.recipient.card,
                attempt.amount,
            ) is Ok {
                attempt.amount
            } else {
                0
            }
        }
    }

    /// No double spend: however many transfers a sender attempts in a row,
    /// those that are accepted take exactly their sum off the sender's
    /// balance, and that sum is never more than the balance the sender
    /// started with.
    pub proof fn lemma_no_double_spend(self, sender: AccountView, attempts: Seq<TransferAttempt>)
        ensures
            balance_of(self.after_attempts(sender, attempts).transactions, sender.card)
                == balance_of(self.transactions, sender.card) - self.spent(sender, attempts),
            self.spent(sender, attempts) >= 0,
            self.spent(sender, attempts) > 0 ==> self.spent(sender, attempts) <= balance_of(
                self.transactions,
                sender.card,
            ),
        decreases attempts.len(),
    {
        if attempts.len() > 0 {
            let earlier = attempts.drop_last();
            let attempt = attempts.last();
            let before = self.after_attempts(sender, earlier);
            self.lemma_no_double_spend(sender, earlier);
            if before.transfer_outcome(sender.card, attempt.recipient.card, attempt.amount) is Ok {
                lemma_balance_push(
                    before.transactions,
                    TransactionView {
                        sender,
                        recipient: attempt.recipient,
                        amount: attempt.amount,
                        timestamp: attempt.timestamp,
                    },
                    sender.card,
                );
            }
        }
    }

    /// An accepted transfer takes the amount off the sender's balance, adds
    /// it to the recipient's, leaves every other balance as it was, and does
    /// not overdraw the sender.
    pub proof fn lemma_transfer_moves_funds(
        self,
        sender: AccountView,
        recipient: AccountView,
        amount: int,
        timestamp: int,
        card: CardNumber,
    )
        requires
            self.transfer_outcome(sender.card, recipient.card, amount) is Ok,
        ensures
            balance_of(
                self.with_transfer(sender, recipient, amount, timestamp).transactions,
                card,
            ) == balance_of(self.transactions, card) + if card == recipient.card {
                amount
            } else if card == sender.card {
                -amount
            } else {
                0
            },
            balance_of(
                self.with_transfer(sender, recipient, amount, timestamp).transactions,
                sender.card,
            ) >= 0,
    {
        let entry = TransactionView { sender, recipient, amount, timestamp };
        lemma_balance_push(self.transactions, entry, card);
        lemma_balance_push(self.transactions, entry, sender.card);
    }

    /// Soft delete: marking an account as deleted leaves the log, and with it
    /// every history and balance, as it was, while a lookup of the account
    /// from then on reports it as deleted.
    pub proof fn lemma_delete_keeps_history(self, card: CardNumber)
        requires
            self.wf(),
            self.holds(card),
        ensures
            self.with_deleted(card).wf(),
            self.with_deleted(card).transactions == self.transactions,
            history_of(self.with_deleted(card).transactions, card) == history_of(
                self.transactions,
                card,
            ),
            self.with_deleted(card).find(card) == Err::<AccountView, BankOperationError>(
                BankOperationError::AccountIsDeleted,
            ),
    {
        let i = self.position(card);
        let after = self.with_deleted(card);
        assert(after.accounts[i].card == card);
        assert forall|a: int, b: int| 0 <= a < b < after.accounts.len() implies (
        #[trigger] after.accounts[a]).card != (#[trigger] after.accounts[b]).card by {
            assert(after.accounts[a].card == self.accounts[a].card);
            assert(after.accounts[b].card == self.accounts[b].card);
        }
        assert forall|a: int| 0 <= a < after.accounts.len() implies {
            &&& (#[trigger] after.accounts[a]).card.valid()
            &&& after.accounts[a].card != after.system_account.card
        } by {
            assert(after.accounts[a].card == self.accounts[a].card);
        }
        after.lemma_position(card, i);
    }
}

/// An account as the ledger holds it. A value of this type is a snapshot: it
/// does not change when the ledger does. It holds the account's secret and so
/// has no way of printing itself.
pub struct Account {
    card_number: CardNumber,
    password: String,
    is_existing: bool,
}

impl View for Account {
    type V = AccountView;

    closed spec fn view(&self) -> AccountView {
        AccountView {
            card: self.card_number,
            password: self.password@,
            exists: self.is_existing,
        }
    }
}

impl Clone for Account {
    fn clone(&self) -> (copy: Self)
        ensures
            copy@ == self@,
    {
        Account {
            card_number: self.card_number,
            password: self.password.clone(),
            is_existing: self.is_existing,
        }
    }
}

impl PartialEq for Account {
    /// Accounts are compared by card number alone, so that snapshots of one
    /// account taken at different times are equal.
    fn eq(&self, other: &Self) -> (same: bool) {
        self.card_number == other.card_number
    }
}

impl PartialEqSpecImpl for Account {
    open spec fn obeys_eq_spec() -> bool {
        true
    }

    open spec fn eq_spec(&self, other: &Self) -> bool {
        self@.card == other@.card
    }
}

impl Account {
    /// The account's card number.
    pub fn card(&self) -> (card: CardNumber)
        ensures
            card == self@.card,
    {
        self.card_number
    }

    /// Whether the account was live when the snapshot was taken.
    pub fn is_existing(&self) -> (live: bool)
        ensures
            live == self@.exists,
    {
        self.is_existing
    }
}

/// A transfer between two account snapshots, as the log records it.
pub struct Transaction {
    sender: Account,
    recipient: Account,
    amount: i64,
    timestamp: i64,
}

impl View for Transaction {
    type V = TransactionView;

    closed spec fn view(&self) -> TransactionView {
        TransactionView {
            sender: self.sender@,
            recipient: self.recipient@,
            amount: self.amount as int,
            timestamp: self.timestamp as int,
        }
    }
}

impl Clone for Transaction {
    fn clone(&self) -> (copy: Self)
        ensures
            copy@ == self@,
    {
        Transaction {
            sender: self.sender.clone(),
            recipient: self.recipient.clone(),
            amount: self.amount,
            timestamp: self.timestamp,
        }
    }
}

impl Transaction {
    /// The account that paid.
    pub fn sender(&self) -> (account: &Account)
        ensures
            account@ == self@.sender,
    {
        &self.sender
    }

    /// The account that was paid.
    pub fn recipient(&self) -> (account: &Account)
        ensures
            account@ == self@.recipient,
    {
        &self.recipient
    }

    /// The amount moved, in whole currency units.
    pub fn amount(&self) -> (amount: i64)
        ensures
            amount == self@.amount,
    {
        self.amount
    }

    /// When the transfer was recorded, in seconds since the Unix epoch.
    pub fn timestamp(&self) -> (timestamp: i64)
        ensures
            timestamp == self@.timestamp,
    {
        self.timestamp
    }
}

/// The views of a sequence of accounts.
pub open spec fn account_views(accounts: Seq<Account>) -> Seq<AccountView> {
    accounts.map_values(|a: Account| a@)
}

/// The views of a sequence of transactions.
pub open spec fn transaction_views(transactions: Seq<Transaction>) -> Seq<TransactionView> {
    transactions.map_values(|t: Transaction| t@)
}

/// The name and secret with which the bank's owner signs in.
pub struct SystemCredentials {
    pub username: String,
    pub password: String,
}

/// One line of the listing of accounts: a card number with its balance and
/// its part of the log.
pub struct AccountSummary {
    pub card_number: CardNumber,
    pub balance: i128,
    pub transactions: Vec<Transaction>,
}

impl View for AccountSummary {
    type V = AccountSummaryView;

    open spec fn view(&self) -> AccountSummaryView {
        AccountSummaryView {
            card: self.card_number,
            balance: self.balance as int,
            transactions: transaction_views(self.transactions@),
        }
    }
}

/// The ledger. All that changes accounts or the log goes through its methods.
pub struct Bank {
    accounts: Vec<Account>,
    transactions: Vec<Transaction>,
    system_account: Account,
    bank_username: String,
}

impl View for Bank {
    type V = BankView;

    closed spec fn view(&self) -> BankView {
        BankView {
            accounts: account_views(self.accounts@),
            transactions: transaction_views(self.transactions@),
            system_account: self.system_account@,
            owner: self.bank_username@,
        }
    }
}

impl Bank {
    /// What holds of every ledger at all times.
    #[verifier::type_invariant]
    pub open spec fn well_formed(self) -> bool {
        self@.wf()
    }

    /// A ledger without customers and with an empty log, whose own account
    /// has the card number `system_card` and the secret `cashbox_pass`.
    pub fn with_system_card(system_card: CardNumber, cashbox_pass: &str, bank_username: &str) -> (bank:
        Bank)
        ensures
            bank@.wf(),
            bank@ == (BankView {
                accounts: Seq::empty(),
                transactions: Seq::empty(),
                system_account: AccountView {
                    card: system_card,
                    password: cashbox_pass@,
                    exists: true,
                },
                owner: bank_username@,
            }),
    {
        proof {
            use_type_invariant(&system_card);
        }
        let system_account = Account {
            card_number: system_card,
            password: cashbox_pass.to_owned(),
            is_existing: true,
        };
        let bank = Bank {
            accounts: Vec::new(),
            system_account,
            transactions: Vec::new(),
            bank_username: bank_username.to_owned(),
        };
        assert(bank@.accounts =~= Seq::empty());
        assert(bank@.transactions =~= Seq::empty());
        bank
    }

    /// A ledger without customers and with an empty log. Its own account gets
    /// a card number drawn at random and the secret `cashbox_pass`.
    pub fn new(cashbox_pass: &str, bank_username: &str) -> (bank: Bank)
        ensures
            bank@.wf(),
            bank@.accounts.len() == 0,
            bank@.transactions.len() == 0,
            bank@.system_account.password == cashbox_pass@,
            bank@.system_account.exists,
            bank@.owner == bank_username@,
    {
        Self::with_system_card(CardNumber::generate(), cashbox_pass, bank_username)
    }

    /// Checks the owner's name and the secret of the bank's own account. A
    /// wrong name and a wrong secret are refused alike.
    pub fn authorize_system(&self, credentials: &SystemCredentials) -> (granted: Result<
        (),
        BankOperationError,
    >)
        ensures
            granted is Ok <==> credentials.username@ == self@.owner && credentials.password@
                == self@.system_account.password,
            granted is Err ==> granted == Err::<(), BankOperationError>(
                BankOperationError::NotAuthorized,
            ),
    {
        if self.bank_username == credentials.username && self.system_account.password
            == credentials.password {
            Ok(())
        } else {
            Err(BankOperationError::NotAuthorized)
        }
    }

    /// The number of customer accounts, deleted ones included.
    pub fn account_count(&self) -> (count: usize)
        ensures
            count == self@.accounts.len(),
    {
        self.accounts.len()
    }

    /// A snapshot of the bank's own account, the till that customers pay into.
    pub fn get_store_account(&self) -> (account: Account)
        ensures
            account@ == self@.system_account,
    {
        self.system_account.clone()
    }

    /// The place of the customer account with `card`, if there is one.
    fn position_of(&self, card: CardNumber) -> (place: Option<usize>)
        ensures
            place is Some <==> self@.holds(card),
            place matches Some(i) ==> i < self@.accounts.len() && self@.accounts[i as int].card
                == card,
    {
        let mut i: usize = 0;
        while i < self.accounts.len()
            invariant
                i <= self.accounts.len(),
                forall|j: int| 0 <= j < i ==> (#[trigger] self@.accounts[j]).card != card,
            decreases self.accounts.len() - i,
        {
            if self.accounts[i].card_number == card {
                assert(self@.accounts[i as int].card == card);
                return Some(i);
            }
            i = i + 1;
        }
        None
    }

    /// Looks up the live account with `card`.
    pub fn find_account(&self, card: &CardNumber) -> (found: Result<Account, BankOperationError>)
        ensures
            found is Ok <==> self@.find(*card) is Ok,
            found matches Ok(account) ==> Ok::<AccountView, BankOperationError>(account@)
                == self@.find(*card),
            found matches Err(e) ==> Err::<AccountView, BankOperationError>(e) == self@.find(*card),
    {
        proof {
            use_type_invariant(&*self);
        }
        match self.position_of(*card) {
            None => Err(BankOperationError::AccountNotFound),
            Some(i) => {
                proof {
                    self@.lemma_position(*card, i as int);
                }
                if !self.accounts[i].is_existing {
                    Err(BankOperationError::AccountIsDeleted)
                } else {
                    Ok(self.accounts[i].clone())
                }
            },
        }
    }

    /// Looks up the live account with `card` and checks its secret.
    pub fn authorize_account(&self, card: &CardNumber, password: &str) -> (granted: Result<
        Account,
        BankOperationError,
    >)
        ensures
            granted is Ok <==> self@.authorize(*card, password@) is Ok,
            granted matches Ok(account) ==> Ok::<AccountView, BankOperationError>(account@)
                == self@.authorize(*card, password@),
            granted matches Err(e) ==> Err::<AccountView, BankOperationError>(e)
                == self@.authorize(*card, password@),
    {
        proof {
            use_type_invariant(&*self);
        }
        match self.find_account(card) {
            Err(e) => Err(e),
            Ok(account) => {
                let given = password.to_owned();
                if account.password != given {
                    Err(BankOperationError::NotAuthorized)
                } else {
                    Ok(account)
                }
            },
        }
    }

    /// Marks the account with `card` as deleted. Its entries stay in the log.
    pub fn delete_account(&mut self, card: CardNumber) -> (done: Result<(), BankOperationError>)
        ensures
            final(self)@.wf(),
            done is Ok <==> old(self)@.holds(card),
            done is Ok ==> final(self)@ == old(self)@.with_deleted(card),
            final(self)@.transactions == old(self)@.transactions,
            done is Ok ==> final(self)@.find(card) == Err::<AccountView, BankOperationError>(
                BankOperationError::AccountIsDeleted,
            ),
            done is Err ==> final(self)@ == old(self)@ && done == Err::<(), BankOperationError>(
                BankOperationError::AccountNotFound,
            ),
    {
        proof {
            use_type_invariant(&*self);
        }
        match self.position_of(card) {
            None => Err(BankOperationError::AccountNotFound),
            Some(i) => {
                proof {
                    self@.lemma_position(card, i as int);
                }
                let mut account = self.accounts[i].clone();
                account.is_existing = false;
                // The accounts are taken out while one of them changes, so
                // that the ledger is well formed at every step.
                let mut accounts: Vec<Account> = Vec::new();
                proof {
                    assert(account_views(accounts@) =~= Seq::empty());
                    assert((BankView { accounts: Seq::empty(), ..self@ }).wf());
                }
                std::mem::swap(&mut accounts, &mut self.accounts);
                accounts.set(i, account);
                proof {
                    let before = old(self)@;
                    let after = before.with_deleted(card);
                    assert(account_views(accounts@) =~= after.accounts);
                    before.lemma_delete_keeps_history(card);
                }
                self.accounts = accounts;
                Ok(())
            },
        }
    }

    /// The balance of `account`, folded from the whole log.
    pub fn balance(&self, account: &Account) -> (total: i128)
        ensures
            total == balance_of(self@.transactions, account@.card),
            total == received(self@.transactions, account@.card) - sent(
                self@.transactions,
                account@.card,
            ),
    {
        let card = account.card_number;
        let mut total: i128 = 0;
        let mut i: usize = 0;
        while i < self.transactions.len()
            invariant
                i <= self.transactions.len(),
                total == balance_of(self@.transactions.take(i as int), card),
                -(i * 0x8000_0000_0000_0000) <= total <= i * 0x8000_0000_0000_0000,
            decreases self.transactions.len() - i,
        {
            let entry = &self.transactions[i];
            let mut change: i128 = 0;
            if entry.recipient.card_number == card {
                change = change + entry.amount as i128;
            }
            if entry.sender.card_number == card {
                change = change - entry.amount as i128;
            }
            proof {
                let before = self@.transactions.take(i as int);
                lemma_balance_push(before, entry@, card);
                assert(self@.transactions.take(i + 1) =~= before.push(entry@));
            }
            total = total + change;
            i = i + 1;
        }
        assert(self@.transactions.take(i as int) =~= self@.transactions);
        total
    }

    /// The entries of the log that involve `account`, oldest first.
    pub fn account_transactions(&self, account: &Account) -> (entries: Vec<Transaction>)
        ensures
            transaction_views(entries@) == history_of(self@.transactions, account@.card),
    {
        let card = account.card_number;
        let ghost pred = |t: TransactionView| involves(t, card);
        let mut entries: Vec<Transaction> = Vec::new();
        let mut i: usize = 0;
        assert(self@.transactions.take(0) =~= Seq::empty());
        assert(transaction_views(entries@) =~= Seq::empty());
        proof {
            reveal(Seq::filter);
        }
        while i < self.transactions.len()
            invariant
                i <= self.transactions.len(),
                pred == |t: TransactionView| involves(t, card),
                transaction_views(entries@) == self@.transactions.take(i as int).filter(pred),
            decreases self.transactions.len() - i,
        {
            let entry = &self.transactions[i];
            let ghost before = self@.transactions.take(i as int);
            let ghost kept = transaction_views(entries@);
            proof {
                before.lemma_filter_push(entry@, pred);
                assert(self@.transactions.take(i + 1) =~= before.push(entry@));
            }
            if entry.sender.card_number == card || entry.recipient.card_number == card {
                entries.push(entry.clone());
                assert(transaction_views(entries@) =~= kept.push(entry@));
            }
            i = i + 1;
        }
        assert(self@.transactions.take(i as int) =~= self@.transactions);
        entries
    }

    /// A copy of the whole log, oldest entry first.
    pub fn list_transactions(&self) -> (entries: Vec<Transaction>)
        ensures
            transaction_views(entries@) == self@.transactions,
    {
        let mut entries: Vec<Transaction> = Vec::new();
        let mut i: usize = 0;
        while i < self.transactions.len()
            invariant
                i <= self.transactions.len(),
                transaction_views(entries@) =~= self@.transactions.take(i as int),
            decreases self.transactions.len() - i,
        {
            let ghost kept = transaction_views(entries@);
            let entry = &self.transactions[i];
            entries.push(entry.clone());
            assert(transaction_views(entries@) =~= kept.push(entry@));
            assert(self@.transactions.take(i + 1) =~= self@.transactions.take(i as int).push(
                entry@,
            ));
            i = i + 1;
        }
        assert(self@.transactions.take(i as int) =~= self@.transactions);
        entries
    }

    /// Appends `entry` to the log.
    fn append(&mut self, entry: Transaction)
        requires
            entry@.amount > 0,
            entry@.sender.card != entry@.recipient.card,
            entry@.sender.card != old(self)@.system_account.card ==> balance_of(
                old(self)@.transactions,
                entry@.sender.card,
            ) >= entry@.amount,
        ensures
            final(self)@.wf(),
            final(self)@ == old(self)@.with_transaction(entry@),
    {
        proof {
            use_type_invariant(&*self);
        }
        let ghost shown = entry@;
        // The log is taken out while it grows, so that the ledger is well
        // formed at every step.
        let mut transactions: Vec<Transaction> = Vec::new();
        proof {
            assert(transaction_views(transactions@) =~= Seq::empty());
            assert((BankView { transactions: Seq::empty(), ..self@ }).wf());
        }
        std::mem::swap(&mut transactions, &mut self.transactions);
        transactions.push(entry);
        proof {
            let before = old(self)@;
            let after = before.with_transaction(shown);
            assert(transaction_views(transactions@) =~= after.transactions);
            assert forall|card: CardNumber| card != after.system_account.card implies #[trigger] balance_of(
                after.transactions,
                card,
            ) >= 0 by {
                lemma_balance_push(before.transactions, shown, card);
                assert(balance_of(before.transactions, card) >= 0);
            }
            assert(after.wf());
        }
        self.transactions = transactions;
    }

    /// Moves `amount` from `sender` to `recipient` and records the transfer
    /// with the given time. The funds are checked and the entry is appended in
    /// one step.
    pub fn record_transaction(
        &mut self,
        sender: &Account,
        recipient: &Account,
        amount: i64,
        timestamp: i64,
    ) -> (done: Result<(), BankOperationError>)
        ensures
            final(self)@.wf(),
            done == old(self)@.transfer_outcome(sender@.card, recipient@.card, amount as int),
            sender@.card == recipient@.card || amount <= 0 ==> done == Err::<(), BankOperationError>(
                BankOperationError::BadTransaction,
            ),
            done is Ok ==> final(self)@ == old(self)@.with_transfer(
                sender@,
                recipient@,
                amount as int,
                timestamp as int,
            ),
            done is Err ==> final(self)@ == old(self)@,
    {
        proof {
            use_type_invariant(&*self);
        }
        if sender.card_number == recipient.card_number || amount <= 0 {
            return Err(BankOperationError::BadTransaction);
        }
        if self.balance(sender) < amount as i128 {
            return Err(BankOperationError::NotEnoughFunds);
        }
        self.append(
            Transaction { sender: sender.clone(), recipient: recipient.clone(), amount, timestamp },
        );
        Ok(())
    }

    /// Moves `amount` from `sender` to `recipient` and records the transfer
    /// with the current time.
    pub fn new_transaction(&mut self, sender: &Account, recipient: &Account, amount: i64) -> (done:
        Result<(), BankOperationError>)
        ensures
            final(self)@.wf(),
            done == old(self)@.transfer_outcome(sender@.card, recipient@.card, amount as int),
            sender@.card == recipient@.card || amount <= 0 ==> done == Err::<(), BankOperationError>(
                BankOperationError::BadTransaction,
            ),
            done is Ok ==> exists|timestamp: i64|
                final(self)@ == #[trigger] old(self)@.with_transfer(
                    sender@,
                    recipient@,
                    amount as int,
                    timestamp as int,
                ),
            done is Err ==> final(self)@ == old(self)@,
    {
        proof {
            use_type_invariant(&*self);
        }
        let now = unix_now();
        self.record_transaction(sender, recipient, amount, now)
    }

    /// Credits `amount` to the live account with `card`, out of the bank's own
    /// account and whatever that account's balance, and records the transfer
    /// with the given time.
    pub fn record_credit(&mut self, card: CardNumber, amount: i64, timestamp: i64) -> (done: Result<
        (),
        BankOperationError,
    >)
        ensures
            final(self)@.wf(),
            match old(self)@.credit_outcome(card, amount as int) {
                Ok(account) => done is Ok && final(self)@ == old(self)@.with_transfer(
                    old(self)@.system_account,
                    account,
                    amount as int,
                    timestamp as int,
                ),
                Err(e) => done == Err::<(), BankOperationError>(e) && final(self)@ == old(self)@,
            },
    {
        proof {
            use_type_invariant(&*self);
        }
        let account = match self.find_account(&card) {
            Ok(account) => account,
            Err(e) => {
                return Err(e);
            },
        };
        if amount <= 0 {
            return Err(BankOperationError::BadTransaction);
        }
        self.append(
            Transaction { sender: self.system_account.clone(), recipient: account, amount, timestamp },
        );
        Ok(())
    }

    /// Credits `amount` to the live account with `card` and records the
    /// transfer with the current time.
    pub fn open_credit(&mut self, card: CardNumber, amount: i64) -> (done: Result<
        (),
        BankOperationError,
    >)
        ensures
            final(self)@.wf(),
            match old(self)@.credit_outcome(card, amount as int) {
                Ok(account) => done is Ok && exists|timestamp: i64|
                    final(self)@ == #[trigger] old(self)@.with_transfer(
                        old(self)@.system_account,
                        account,
                        amount as int,
                        timestamp as int,
                    ),
                Err(e) => done == Err::<(), BankOperationError>(e) && final(self)@ == old(self)@,
            },
    {
        proof {
            use_type_invariant(&*self);
        }
        let now = unix_now();
        self.record_credit(card, amount, now)
    }

    /// Every account, deleted ones included, with its balance and its part
    /// of the log, all taken from the ledger as it stands at this call.
    pub fn list_accounts(&self) -> (listing: Vec<AccountSummary>)
        ensures
            listing@.len() == self@.accounts.len(),
            forall|i: int| 0 <= i < listing@.len() ==> (#[trigger] listing@[i])@ == self@.summary(i),
    {
        let mut listing: Vec<AccountSummary> = Vec::new();
        let mut i: usize = 0;
        while i < self.accounts.len()
            invariant
                i <= self.accounts.len(),
                listing@.len() == i,
                forall|j: int| 0 <= j < i ==> (#[trigger] listing@[j])@ == self@.summary(j),
            decreases self.accounts.len() - i,
        {
            let account = &self.accounts[i];
            let summary = AccountSummary {
                card_number: account.card_number,
                balance: self.balance(account),
                transactions: self.account_transactions(account),
            };
            assert(summary@ == self@.summary(i as int));
            listing.push(summary);
            i = i + 1;
        }
        listing
    }

    /// Whether `card` is taken, by a customer account or by the bank's own.
    pub fn is_card_in_use(&self, card: CardNumber) -> (taken: bool)
        ensures
            taken == self@.in_use(card),
    {
        card == self.system_account.card_number || self.position_of(card).is_some()
    }

    /// Whether card numbers are left for another account.
    pub fn has_room(&self) -> (room: bool)
        ensures
            room == self@.has_room(),
    {
        (self.accounts.len() as u64) < PAYLOAD_LIMIT - 1
    }

    /// The free card number with the least payload.
    fn next_free_card(&self) -> (card: CardNumber)
        requires
            self@.has_room(),
        ensures
            card == self@.first_free_card(),
            !self@.in_use(card),
            card.valid(),
    {
        let mut p: u64 = 0;
        loop
            invariant
                p <= self@.accounts.len() + 1,
                self@.has_room(),
                forall|q: nat| q < p ==> self@.in_use(#[trigger] CardNumber::of_payload(q)),
            decreases self@.accounts.len() + 1 - p,
        {
            let card = CardNumber::from_payload(p);
            if !self.is_card_in_use(card) {
                proof {
                    self@.lemma_first_free(p as nat);
                }
                return card;
            }
            proof {
                self@.lemma_taken_payloads((p + 1) as nat);
            }
            p = p + 1;
        }
    }

    /// Adds a live account with the secret `password`. Its card number is
    /// `preferred` unless that is taken, else the first free one.
    pub fn open_account(&mut self, preferred: CardNumber, password: &str) -> (card: CardNumber)
        requires
            old(self)@.has_room(),
        ensures
            final(self)@.wf(),
            card == old(self)@.card_for(preferred),
            card.valid(),
            !old(self)@.in_use(card),
            final(self)@ == old(self)@.with_account(card, password@),
    {
        proof {
            use_type_invariant(&*self);
        }
        proof {
            use_type_invariant(&preferred);
        }
        let card = if self.is_card_in_use(preferred) {
            self.next_free_card()
        } else {
            preferred
        };
        let account = Account {
            card_number: card,
            password: password.to_owned(),
            is_existing: true,
        };
        let ghost shown = account@;
        let mut accounts: Vec<Account> = Vec::new();
        proof {
            assert(account_views(accounts@) =~= Seq::empty());
            assert((BankView { accounts: Seq::empty(), ..self@ }).wf());
        }
        std::mem::swap(&mut accounts, &mut self.accounts);
        accounts.push(account);
        proof {
            let before = old(self)@;
            let after = before.with_account(card, password@);
            assert(account_views(accounts@) =~= after.accounts);
            assert forall|i: int| 0 <= i < before.accounts.len() implies (
            #[trigger] before.accounts[i]).card != card by {
                if before.accounts[i].card == card {
                    assert(before.holds(card));
                }
            }
            assert forall|i: int| 0 <= i < after.accounts.len() implies {
                &&& (#[trigger] after.accounts[i]).card.valid()
                &&& after.accounts[i].card != after.system_account.card
            } by {
                if i < before.accounts.len() {
                    assert(after.accounts[i] == before.accounts[i]);
                }
            }
            assert forall|i: int, j: int| 0 <= i < j < after.accounts.len() implies (
            #[trigger] after.accounts[i]).card != (#[trigger] after.accounts[j]).card by {
                assert(after.accounts[i] == before.accounts[i]);
                if j < before.accounts.len() {
                    assert(after.accounts[j] == before.accounts[j]);
                }
            }
            assert(after.wf());
        }
        self.accounts = accounts;
        card
    }

    /// Adds a live account with the secret `password` and a card number drawn
    /// at random, which no other account of this ledger has.
    pub fn add_account(&mut self, password: &str) -> (card: CardNumber)
        requires
            old(self)@.has_room(),
        ensures
            final(self)@.wf(),
            card.valid(),
            !old(self)@.in_use(card),
            final(self)@ == old(self)@.with_account(card, password@),
    {
        proof {
            use_type_invariant(&*self);
        }
        self.open_account(CardNumber::generate(), password)
    }

    /// Adds an account as `add_account` does, unless no card number is left.
    pub fn try_add_account(&mut self, password: &str) -> (added: Option<CardNumber>)
        ensures
            final(self)@.wf(),
            added is Some <==> old(self)@.has_room(),
            added matches Some(card) ==> card.valid() && !old(self)@.in_use(card) && final(self)@
                == old(self)@.with_account(card, password@),
            added is None ==> final(self)@ == old(self)@,
    {
        proof {
            use_type_invariant(&*self);
        }
        if self.has_room() {
            Some(self.add_account(password))
        } else {
            None
        }
    }
}

} // verus!
