use acquisim::bank::{Bank, BankOperationError, SystemCredentials};
use acquisim::card_number::CardNumber;
use acquisim::errors::error_chain_fmt;

fn card(payload: u64) -> CardNumber {
    CardNumber::from_payload(payload)
}

/// A bank whose own card has the payload 1000, with the customers A
/// (payload 1, secret "p1") and B (payload 2, secret "p2").
fn bank_with_two() -> (Bank, CardNumber, CardNumber) {
    let mut bank = Bank::with_system_card(card(1000), "cash", "owner");
    let a = bank.open_account(card(1), "p1");
    let b = bank.open_account(card(2), "p2");
    (bank, a, b)
}

#[test]
fn testmeme() {
    let mut bank = Bank::new("abc", "owner");
    let sender = bank.add_account("abc");
    let recipient = bank.add_account("abc");
    assert_eq!(bank.open_credit(sender, 10), Ok(()));
    let sender = bank.find_account(&sender).unwrap();
    let recipient = bank.find_account(&recipient).unwrap();
    assert_eq!(bank.new_transaction(&sender, &recipient, 10), Ok(()));
    let log = bank.list_transactions();
    let transaction = &log[1];
    let abc = format!(
        "{{\n  \"sender\": \"{}\",\n  \"recipient\": \"{}\",\n  \"amount\": {},\n  \"datetime\": {}\n}}",
        transaction.sender().card().to_string(),
        transaction.recipient().card().to_string(),
        transaction.amount(),
        transaction.timestamp()
    );
    println!("{abc}");
    println!("Now: {}", transaction.timestamp());
    assert_eq!(transaction.amount(), 10);
}

#[test]
fn credit_then_transfer_then_no_funds() {
    let mut bank = Bank::new("cash", "owner");
    let a = bank.add_account("p1");
    assert_eq!(bank.open_credit(a, 1000), Ok(()));
    let b = bank.add_account("p2");
    let account_a = bank.find_account(&a).unwrap();
    let account_b = bank.find_account(&b).unwrap();
    assert_eq!(bank.new_transaction(&account_a, &account_b, 1000), Ok(()));
    assert_eq!(bank.balance(&account_a), 0);
    assert_eq!(bank.balance(&account_b), 1000);
    assert_eq!(
        bank.new_transaction(&account_a, &account_b, 1),
        Err(BankOperationError::NotEnoughFunds)
    );
    assert_eq!(bank.balance(&account_a), 0);
    assert_eq!(bank.balance(&account_b), 1000);
    assert_eq!(bank.list_transactions().len(), 2);
}

#[test]
fn a_wrong_secret_is_refused_and_the_right_one_gives_the_account() {
    let mut bank = Bank::new("cash", "owner");
    let a = bank.add_account("p1");
    assert_eq!(bank.authorize_account(&a, "wrong").err(), Some(BankOperationError::NotAuthorized));
    assert_eq!(bank.authorize_account(&a, "").err(), Some(BankOperationError::NotAuthorized));
    let account = bank.authorize_account(&a, "p1").ok().unwrap();
    assert_eq!(account.card(), a);
    assert!(account.is_existing());
}

#[test]
fn a_new_bank_has_no_customers_and_an_empty_log() {
    let bank = Bank::with_system_card(card(1000), "cash", "owner");
    assert_eq!(bank.account_count(), 0);
    assert!(bank.list_accounts().is_empty());
    assert!(bank.list_transactions().is_empty());
    let store = bank.get_store_account();
    assert_eq!(store.card(), card(1000));
    assert!(store.is_existing());
    assert_eq!(bank.balance(&store), 0);
    assert!(bank.find_account(&card(1000)).is_err());
}

#[test]
fn the_owner_signs_in_with_name_and_secret() {
    let bank = Bank::new("cash", "owner");
    let sign_in = |username: &str, password: &str| {
        bank.authorize_system(&SystemCredentials {
            username: username.to_string(),
            password: password.to_string(),
        })
    };
    assert_eq!(sign_in("owner", "cash"), Ok(()));
    assert_eq!(sign_in("owner", "wrong"), Err(BankOperationError::NotAuthorized));
    assert_eq!(sign_in("other", "cash"), Err(BankOperationError::NotAuthorized));
    assert_eq!(sign_in("", ""), Err(BankOperationError::NotAuthorized));
    assert_eq!(sign_in("cash", "owner"), Err(BankOperationError::NotAuthorized));
}

#[test]
fn an_unknown_card_is_not_found() {
    let (mut bank, _, _) = bank_with_two();
    let unknown = card(77);
    assert_eq!(bank.find_account(&unknown).err(), Some(BankOperationError::AccountNotFound));
    assert_eq!(
        bank.authorize_account(&unknown, "p1").err(),
        Some(BankOperationError::AccountNotFound)
    );
    assert_eq!(bank.delete_account(unknown), Err(BankOperationError::AccountNotFound));
    assert_eq!(bank.record_credit(unknown, 5, 0), Err(BankOperationError::AccountNotFound));
    assert_eq!(bank.record_credit(unknown, -5, 0), Err(BankOperationError::AccountNotFound));
    assert!(bank.list_transactions().is_empty());
}

#[test]
fn a_deleted_account_keeps_its_history() {
    let (mut bank, a, b) = bank_with_two();
    assert_eq!(bank.record_credit(a, 300, 10), Ok(()));
    let account_a = bank.find_account(&a).unwrap();
    let account_b = bank.find_account(&b).unwrap();
    assert_eq!(bank.record_transaction(&account_a, &account_b, 100, 11), Ok(()));
    let before = bank.account_transactions(&account_a);
    assert_eq!(before.len(), 2);

    assert_eq!(bank.delete_account(a), Ok(()));

    assert_eq!(bank.find_account(&a).err(), Some(BankOperationError::AccountIsDeleted));
    assert_eq!(
        bank.authorize_account(&a, "p1").err(),
        Some(BankOperationError::AccountIsDeleted)
    );
    assert_eq!(bank.record_credit(a, 5, 12), Err(BankOperationError::AccountIsDeleted));
    let after = bank.account_transactions(&account_a);
    assert_eq!(after.len(), 2);
    for (x, y) in before.iter().zip(after.iter()) {
        assert_eq!(x.amount(), y.amount());
        assert_eq!(x.timestamp(), y.timestamp());
        assert!(x.sender() == y.sender());
        assert!(x.recipient() == y.recipient());
    }
    assert_eq!(bank.balance(&account_a), 200);
    assert_eq!(bank.account_count(), 2);
    assert_eq!(bank.list_accounts().len(), 2);
    // deleting once more is accepted and changes nothing
    assert_eq!(bank.delete_account(a), Ok(()));
    assert_eq!(bank.find_account(&a).err(), Some(BankOperationError::AccountIsDeleted));
    assert!(bank.find_account(&b).is_ok());
}

#[test]
fn a_transfer_to_oneself_is_refused_whatever_the_amount() {
    let (mut bank, a, _) = bank_with_two();
    assert_eq!(bank.record_credit(a, 100, 1), Ok(()));
    let account = bank.find_account(&a).unwrap();
    for amount in [i64::MIN, -5, 0, 1, 100, 101, i64::MAX] {
        assert_eq!(
            bank.record_transaction(&account, &account, amount, 2),
            Err(BankOperationError::BadTransaction)
        );
        assert_eq!(
            bank.new_transaction(&account, &account, amount),
            Err(BankOperationError::BadTransaction)
        );
    }
    assert_eq!(bank.list_transactions().len(), 1);
}

#[test]
fn an_amount_that_is_not_positive_is_refused() {
    let (mut bank, a, b) = bank_with_two();
    let account_a = bank.find_account(&a).unwrap();
    let account_b = bank.find_account(&b).unwrap();
    // with funds and without
    for funds in [0, 50] {
        if funds > 0 {
            assert_eq!(bank.record_credit(a, funds, 1), Ok(()));
        }
        for amount in [0, -5, i64::MIN] {
            assert_eq!(
                bank.new_transaction(&account_a, &account_b, amount),
                Err(BankOperationError::BadTransaction)
            );
        }
    }
    // the bank's own account may be overdrawn; the amount is still looked at first
    let store = bank.get_store_account();
    assert_eq!(bank.balance(&store), -50);
    assert_eq!(
        bank.new_transaction(&store, &account_b, -100),
        Err(BankOperationError::BadTransaction)
    );
    assert_eq!(
        bank.new_transaction(&store, &account_b, 1),
        Err(BankOperationError::NotEnoughFunds)
    );
    assert_eq!(bank.list_transactions().len(), 1);
}

#[test]
fn a_credit_of_nothing_is_refused() {
    let (mut bank, a, _) = bank_with_two();
    assert_eq!(bank.record_credit(a, 0, 1), Err(BankOperationError::BadTransaction));
    assert_eq!(bank.open_credit(a, -1), Err(BankOperationError::BadTransaction));
    assert!(bank.list_transactions().is_empty());
}

#[test]
fn a_credit_comes_out_of_the_banks_own_account() {
    let (mut bank, a, _) = bank_with_two();
    assert_eq!(bank.record_credit(a, 250, 99), Ok(()));
    let log = bank.list_transactions();
    assert_eq!(log.len(), 1);
    assert_eq!(log[0].sender().card(), card(1000));
    assert_eq!(log[0].recipient().card(), a);
    assert_eq!(log[0].amount(), 250);
    assert_eq!(log[0].timestamp(), 99);
    let store = bank.get_store_account();
    assert_eq!(bank.balance(&store), -250);
    let account = bank.find_account(&a).unwrap();
    assert_eq!(bank.balance(&account), 250);
}

#[test]
fn the_same_funds_cannot_be_spent_twice() {
    let (mut bank, a, b) = bank_with_two();
    assert_eq!(bank.record_credit(a, 100, 1), Ok(()));
    let account_a = bank.find_account(&a).unwrap();
    let account_b = bank.find_account(&b).unwrap();
    let attempts = [60, 60, 40, 1, 0, 100];
    let mut spent: i128 = 0;
    for (i, amount) in attempts.iter().enumerate() {
        let before = bank.balance(&account_a);
        let done = bank.record_transaction(&account_a, &account_b, *amount, 2 + i as i64);
        if done.is_ok() {
            spent += *amount as i128;
            assert!(*amount as i128 <= before);
        }
        assert!(bank.balance(&account_a) >= 0);
        assert_eq!(bank.balance(&account_a), 100 - spent);
    }
    // 60 and 40 went through, the rest did not
    assert_eq!(spent, 100);
    assert_eq!(bank.balance(&account_b), 100);
    assert_eq!(bank.list_transactions().len(), 3);
}

#[test]
fn a_balance_is_what_came_in_less_what_went_out() {
    let (mut bank, a, b) = bank_with_two();
    assert_eq!(bank.record_credit(a, 500, 1), Ok(()));
    assert_eq!(bank.record_credit(b, 70, 2), Ok(()));
    let account_a = bank.find_account(&a).unwrap();
    let account_b = bank.find_account(&b).unwrap();
    assert_eq!(bank.record_transaction(&account_a, &account_b, 120, 3), Ok(()));
    assert_eq!(bank.record_transaction(&account_b, &account_a, 30, 4), Ok(()));
    assert_eq!(bank.record_transaction(&account_a, &account_b, 10, 5), Ok(()));
    let store = bank.get_store_account();
    for account in [&account_a, &account_b, &store] {
        let mut came_in: i128 = 0;
        let mut went_out: i128 = 0;
        for entry in bank.list_transactions() {
            if entry.recipient() == account {
                came_in += entry.amount() as i128;
            }
            if entry.sender() == account {
                went_out += entry.amount() as i128;
            }
        }
        assert_eq!(bank.balance(account), came_in - went_out);
    }
    assert_eq!(bank.balance(&account_a), 500 - 120 + 30 - 10);
    assert_eq!(bank.balance(&account_b), 70 + 120 - 30 + 10);
    assert_eq!(bank.balance(&store), -570);
}

#[test]
fn balances_beyond_sixty_four_bits_are_exact() {
    let (mut bank, a, _) = bank_with_two();
    assert_eq!(bank.record_credit(a, i64::MAX, 1), Ok(()));
    assert_eq!(bank.record_credit(a, i64::MAX, 2), Ok(()));
    assert_eq!(bank.record_credit(a, i64::MAX, 3), Ok(()));
    let account = bank.find_account(&a).unwrap();
    assert_eq!(bank.balance(&account), 3 * (i64::MAX as i128));
    assert_eq!(bank.balance(&bank.get_store_account()), -3 * (i64::MAX as i128));
}

#[test]
fn a_history_holds_what_involves_the_account_in_the_order_of_the_log() {
    let mut bank = Bank::with_system_card(card(1000), "cash", "owner");
    let a = bank.open_account(card(1), "p1");
    let b = bank.open_account(card(2), "p2");
    let c = bank.open_account(card(3), "p3");
    assert_eq!(bank.record_credit(a, 100, 1), Ok(()));
    assert_eq!(bank.record_credit(b, 100, 2), Ok(()));
    let account_a = bank.find_account(&a).unwrap();
    let account_b = bank.find_account(&b).unwrap();
    let account_c = bank.find_account(&c).unwrap();
    assert_eq!(bank.record_transaction(&account_a, &account_c, 5, 3), Ok(()));
    assert_eq!(bank.record_transaction(&account_b, &account_a, 6, 4), Ok(()));
    assert_eq!(bank.record_transaction(&account_b, &account_c, 7, 5), Ok(()));
    let times = |account| -> Vec<i64> {
        bank.account_transactions(account).iter().map(|t| t.timestamp()).collect()
    };
    assert_eq!(times(&account_a), vec![1, 3, 4]);
    assert_eq!(times(&account_b), vec![2, 4, 5]);
    assert_eq!(times(&account_c), vec![3, 5]);
    assert_eq!(times(&bank.get_store_account()), vec![1, 2]);
    let all: Vec<i64> = bank.list_transactions().iter().map(|t| t.timestamp()).collect();
    assert_eq!(all, vec![1, 2, 3, 4, 5]);
}

#[test]
fn the_listing_gives_every_account_with_balance_and_history() {
    let (mut bank, a, b) = bank_with_two();
    assert_eq!(bank.record_credit(a, 100, 1), Ok(()));
    let account_a = bank.find_account(&a).unwrap();
    let account_b = bank.find_account(&b).unwrap();
    assert_eq!(bank.record_transaction(&account_a, &account_b, 40, 2), Ok(()));
    assert_eq!(bank.delete_account(b), Ok(()));
    let listing = bank.list_accounts();
    assert_eq!(listing.len(), 2);
    assert_eq!(listing[0].card_number, a);
    assert_eq!(listing[0].balance, 60);
    assert_eq!(listing[0].transactions.len(), 2);
    assert_eq!(listing[1].card_number, b);
    assert_eq!(listing[1].balance, 40);
    assert_eq!(listing[1].transactions.len(), 1);
    assert_eq!(listing[1].transactions[0].amount(), 40);
}

#[test]
fn a_new_account_gets_the_card_drawn_for_it_unless_it_is_taken() {
    let mut bank = Bank::with_system_card(card(0), "cash", "owner");
    assert!(bank.is_card_in_use(card(0)));
    assert!(!bank.is_card_in_use(card(5)));
    assert_eq!(bank.open_account(card(5), "x"), card(5));
    assert!(bank.is_card_in_use(card(5)));
    // the bank's own card is taken: the first free card is that of payload 1
    assert_eq!(bank.open_account(card(0), "x"), card(1));
    // a customer's card is taken: payloads 0 and 1 are too, 2 is free
    assert_eq!(bank.open_account(card(5), "x"), card(2));
    assert_eq!(bank.open_account(card(1), "x"), card(3));
    assert_eq!(bank.account_count(), 4);
    let cards: Vec<CardNumber> = bank.list_accounts().iter().map(|a| a.card_number).collect();
    assert_eq!(cards, vec![card(5), card(1), card(2), card(3)]);
}

#[test]
fn accounts_added_at_random_share_no_card() {
    let mut bank = Bank::new("cash", "owner");
    let mut cards = vec![bank.get_store_account().card()];
    for _ in 0..40 {
        assert!(bank.has_room());
        let added = bank.try_add_account("pw").unwrap();
        assert!(!cards.contains(&added));
        assert_eq!(CardNumber::parse(&added.to_string()), Ok(added));
        cards.push(added);
    }
    assert_eq!(bank.account_count(), 40);
}

#[test]
fn accounts_are_equal_by_card_number_alone() {
    let (mut bank, a, b) = bank_with_two();
    let before = bank.find_account(&a).unwrap();
    let other = bank.find_account(&b).unwrap();
    assert_eq!(bank.delete_account(a), Ok(()));
    let store = bank.get_store_account();
    assert!(before == before.clone());
    assert!(before != other);
    assert!(before != store);
    // a snapshot taken before the deletion still stands for the account
    assert!(before.is_existing());
    assert!(bank.find_account(&a).is_err());
}

#[test]
fn errors_say_what_went_wrong() {
    assert_eq!(BankOperationError::AccountNotFound.to_string(), "No account");
    assert_eq!(BankOperationError::AccountIsDeleted.to_string(), "Account was deleted");
    assert_eq!(BankOperationError::NotEnoughFunds.to_string(), "Not enough funds for operation");
    assert_eq!(BankOperationError::NotAuthorized.to_string(), "Account is not authorized");
    assert_eq!(BankOperationError::BadTransaction.to_string(), "Can't perform transaction");
    assert_eq!(BankOperationError::BadTransaction.message(), "Can't perform transaction");
    assert_eq!(BankOperationError::AccountNotFound.debug_string(), "No account\n\n");
}

#[test]
fn an_error_is_written_with_the_chain_of_its_causes() {
    assert_eq!(error_chain_fmt("Request error", &vec![]), "Request error\n\n");
    assert_eq!(
        error_chain_fmt("Request error", &vec!["timed out".to_string(), "socket".to_string()]),
        "Request error\n\nCaused by:\n\ttimed out\nCaused by:\n\tsocket\n"
    );
}
