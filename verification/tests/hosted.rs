use acquisim::bank::{Bank, BankOperationError};
use acquisim::card_number::CardNumber;
use acquisim::hosted::{
    card_token_page_for, card_token_registration_html_page, init_payment, open_payment,
    page_address_string, payment_html_page, payment_page_for, settle_payment,
    trigger_card_token_registration, trigger_payment, Credentials, PageError,
};
use acquisim::init_payment::{InitPaymentRequest, OperationStatus};
use acquisim::sessions::{Delivery, InteractionSessions, SessionError, SessionId, SessionKind};

const OK: &str = "https://shop.example/ok";
const FAILED: &str = "https://shop.example/failed";

fn payment(amount: i64) -> SessionKind {
    SessionKind::Payment { amount, success_url: OK.to_string(), fail_url: FAILED.to_string() }
}

fn registration() -> SessionKind {
    SessionKind::RegisterCardToken { success_url: OK.to_string(), fail_url: FAILED.to_string() }
}

/// A bank with a customer who has 1000, and a payment session for 500.
fn setting() -> (Bank, InteractionSessions, CardNumber, SessionId) {
    let mut bank = Bank::new("cash", "owner");
    let customer = bank.add_account("p1");
    assert_eq!(bank.record_credit(customer, 1000, 1), Ok(()));
    let mut sessions = InteractionSessions::new();
    let id = sessions.create_session(payment(500), bank.get_store_account().card());
    (bank, sessions, customer, id)
}

fn creds(card: CardNumber, password: &str) -> Credentials {
    Credentials { card_number: card, password: password.to_string() }
}

#[test]
fn a_payment_goes_through() {
    let (mut bank, mut sessions, customer, id) = setting();
    let redirect = settle_payment(&mut bank, &mut sessions, id, &creds(customer, "p1"), 77).unwrap();
    assert_eq!(redirect.url, OK);
    assert_eq!(redirect.delivery, Delivery { session: id, outcome: OperationStatus::Success });
    let account = bank.find_account(&customer).unwrap();
    assert_eq!(bank.balance(&account), 500);
    assert_eq!(bank.balance(&bank.get_store_account()), -500);
    let log = bank.list_transactions();
    assert_eq!(log.len(), 2);
    assert_eq!(log[1].sender().card(), customer);
    assert_eq!(log[1].recipient().card(), bank.get_store_account().card());
    assert_eq!(log[1].amount(), 500);
    assert_eq!(log[1].timestamp(), 77);
    assert_eq!(sessions.len(), 0);
}

#[test]
fn a_payment_is_submitted_once_only() {
    let (mut bank, mut sessions, customer, id) = setting();
    assert!(trigger_payment(&mut bank, &mut sessions, id, &creds(customer, "p1")).is_ok());
    assert_eq!(
        trigger_payment(&mut bank, &mut sessions, id, &creds(customer, "p1")).err(),
        Some(SessionError::SessionNotFound)
    );
    assert_eq!(bank.list_transactions().len(), 2);
}

#[test]
fn a_wrong_secret_sends_the_customer_to_the_page_for_failure() {
    let (mut bank, mut sessions, customer, id) = setting();
    let redirect = trigger_payment(&mut bank, &mut sessions, id, &creds(customer, "nope")).unwrap();
    assert_eq!(redirect.url, FAILED);
    assert_eq!(redirect.delivery, Delivery { session: id, outcome: OperationStatus::Fail });
    assert_eq!(bank.list_transactions().len(), 1);
    // the session is resolved and cannot be tried again
    assert_eq!(sessions.len(), 0);
    assert_eq!(
        trigger_payment(&mut bank, &mut sessions, id, &creds(customer, "p1")).err(),
        Some(SessionError::SessionNotFound)
    );
}

#[test]
fn too_little_money_sends_the_customer_to_the_page_for_failure() {
    let mut bank = Bank::new("cash", "owner");
    let customer = bank.add_account("p1");
    assert_eq!(bank.record_credit(customer, 499, 1), Ok(()));
    let mut sessions = InteractionSessions::new();
    let id = sessions.create_session(payment(500), bank.get_store_account().card());
    let redirect = trigger_payment(&mut bank, &mut sessions, id, &creds(customer, "p1")).unwrap();
    assert_eq!(redirect.url, FAILED);
    assert_eq!(redirect.delivery.outcome, OperationStatus::Fail);
    assert_eq!(bank.list_transactions().len(), 1);
}

#[test]
fn a_session_of_another_store_is_refused() {
    let (mut bank, mut sessions, customer, _) = setting();
    let elsewhere = sessions.create_session(payment(500), customer);
    let redirect =
        trigger_payment(&mut bank, &mut sessions, elsewhere, &creds(customer, "p1")).unwrap();
    assert_eq!(redirect.url, FAILED);
    assert_eq!(bank.list_transactions().len(), 1);
}

#[test]
fn a_deleted_or_unknown_customer_is_refused() {
    let (mut bank, mut sessions, customer, id) = setting();
    let unknown = if customer == CardNumber::from_payload(1) {
        CardNumber::from_payload(2)
    } else {
        CardNumber::from_payload(1)
    };
    if !bank.is_card_in_use(unknown) {
        let redirect =
            trigger_payment(&mut bank, &mut sessions, id, &creds(unknown, "p1")).unwrap();
        assert_eq!(redirect.url, FAILED);
    }
    assert_eq!(bank.delete_account(customer), Ok(()));
    let again = sessions.create_session(payment(1), bank.get_store_account().card());
    let redirect = trigger_payment(&mut bank, &mut sessions, again, &creds(customer, "p1")).unwrap();
    assert_eq!(redirect.url, FAILED);
    assert_eq!(bank.list_transactions().len(), 1);
}

#[test]
fn a_payment_submitted_to_a_registration_fails_and_resolves_it() {
    let (mut bank, mut sessions, customer, _) = setting();
    let id = sessions.create_session(registration(), bank.get_store_account().card());
    let redirect = trigger_payment(&mut bank, &mut sessions, id, &creds(customer, "p1")).unwrap();
    assert_eq!(redirect.url, FAILED);
    assert_eq!(redirect.delivery, Delivery { session: id, outcome: OperationStatus::Fail });
    assert!(sessions.find_session(id).is_err());
    assert_eq!(bank.list_transactions().len(), 1);
}

#[test]
fn an_unknown_session_is_an_error_and_changes_nothing() {
    let (mut bank, mut sessions, customer, id) = setting();
    let unknown = SessionId(id.0 ^ 1);
    assert_eq!(
        trigger_payment(&mut bank, &mut sessions, unknown, &creds(customer, "p1")).err(),
        Some(SessionError::SessionNotFound)
    );
    assert_eq!(
        trigger_card_token_registration(&bank, &mut sessions, unknown, "x").err(),
        Some(SessionError::SessionNotFound)
    );
    assert_eq!(sessions.len(), 1);
    assert_eq!(bank.list_transactions().len(), 1);
}

#[test]
fn a_card_is_registered_where_it_is_that_of_a_live_account() {
    let (bank, mut sessions, customer, _) = setting();
    let id = sessions.create_session(registration(), bank.get_store_account().card());
    let redirect =
        trigger_card_token_registration(&bank, &mut sessions, id, &customer.to_string()).unwrap();
    assert_eq!(redirect.url, OK);
    assert_eq!(redirect.delivery, Delivery { session: id, outcome: OperationStatus::Success });
    assert_eq!(
        trigger_card_token_registration(&bank, &mut sessions, id, &customer.to_string()).err(),
        Some(SessionError::SessionNotFound)
    );
}

#[test]
fn a_text_that_is_no_card_number_fails_like_any_refusal() {
    let (bank, mut sessions, _, _) = setting();
    for text in ["", "not a card", "4539578763621487", "453957876362148"] {
        let id = sessions.create_session(registration(), bank.get_store_account().card());
        let redirect = trigger_card_token_registration(&bank, &mut sessions, id, text).unwrap();
        assert_eq!(redirect.url, FAILED);
        assert_eq!(redirect.delivery, Delivery { session: id, outcome: OperationStatus::Fail });
    }
}

#[test]
fn a_registration_is_refused_for_unknown_cards_other_stores_and_payment_sessions() {
    let (mut bank, mut sessions, customer, payment_id) = setting();
    let store = bank.get_store_account().card();
    // the store's own card is no customer's
    let id = sessions.create_session(registration(), store);
    let redirect =
        trigger_card_token_registration(&bank, &mut sessions, id, &store.to_string()).unwrap();
    assert_eq!(redirect.url, FAILED);
    // a session opened for another store
    let id = sessions.create_session(registration(), customer);
    let redirect =
        trigger_card_token_registration(&bank, &mut sessions, id, &customer.to_string()).unwrap();
    assert_eq!(redirect.url, FAILED);
    // a payment session
    let redirect =
        trigger_card_token_registration(&bank, &mut sessions, payment_id, &customer.to_string())
            .unwrap();
    assert_eq!(redirect.url, FAILED);
    // a deleted account
    assert_eq!(bank.delete_account(customer), Ok(()));
    assert_eq!(bank.find_account(&customer).err(), Some(BankOperationError::AccountIsDeleted));
    let id = sessions.create_session(registration(), store);
    let redirect =
        trigger_card_token_registration(&bank, &mut sessions, id, &customer.to_string()).unwrap();
    assert_eq!(redirect.url, FAILED);
}

#[test]
fn a_page_address_is_put_together_from_host_port_path_and_identifier() {
    assert_eq!(
        page_address_string("127.0.0.1", 8080, "/payment/", SessionId(5)),
        "http://127.0.0.1:8080/payment/00000000-0000-0000-0000-000000000005"
    );
    assert_eq!(
        page_address_string("bank.example", 0, "/card_token/", SessionId(u128::MAX)),
        "http://bank.example:0/card_token/ffffffff-ffff-ffff-ffff-ffffffffffff"
    );
}

#[test]
fn the_payment_page_shows_the_amount_and_where_to_submit() {
    let mut sessions = InteractionSessions::new();
    let id = sessions.register_session(SessionId(5), payment(500), CardNumber::from_payload(1));
    let page = payment_html_page(&sessions, "127.0.0.1", 8080, id).unwrap();
    assert_eq!(page.amount, 500);
    assert_eq!(
        page.submit_url,
        "http://127.0.0.1:8080/payment/00000000-0000-0000-0000-000000000005"
    );
    // showing the page does not claim the session
    assert!(payment_html_page(&sessions, "127.0.0.1", 8080, id).is_ok());
    assert!(sessions.claim_session(id).is_ok());
    assert_eq!(payment_html_page(&sessions, "127.0.0.1", 8080, id).err(), Some(PageError::NotFound));
}

#[test]
fn the_address_to_submit_to_is_written_as_the_url_it_is() {
    let mut sessions = InteractionSessions::new();
    let id = sessions.register_session(SessionId(5), payment(500), CardNumber::from_payload(1));
    // the host is put in lower case and the port that goes without saying is left out
    let page = payment_html_page(&sessions, "BANK.Example", 80, id).unwrap();
    assert_eq!(
        page.submit_url,
        "http://bank.example/payment/00000000-0000-0000-0000-000000000005"
    );
}

#[test]
fn a_page_is_not_found_for_unknown_sessions_and_sessions_of_the_other_kind() {
    let mut sessions = InteractionSessions::new();
    let pay = sessions.register_session(SessionId(1), payment(500), CardNumber::from_payload(1));
    let reg = sessions.register_session(SessionId(2), registration(), CardNumber::from_payload(1));
    assert_eq!(
        payment_html_page(&sessions, "localhost", 8080, SessionId(3)).err(),
        Some(PageError::NotFound)
    );
    assert_eq!(payment_html_page(&sessions, "localhost", 8080, reg).err(), Some(PageError::NotFound));
    assert_eq!(
        card_token_registration_html_page(&sessions, "localhost", 8080, pay).err(),
        Some(PageError::NotFound)
    );
    let page = card_token_registration_html_page(&sessions, "localhost", 8080, reg).unwrap();
    assert_eq!(
        page.submit_url,
        "http://localhost:8080/card_token/00000000-0000-0000-0000-000000000002"
    );
}

#[test]
fn a_host_that_makes_no_url_is_an_internal_error() {
    let mut sessions = InteractionSessions::new();
    let id = sessions.register_session(SessionId(1), payment(500), CardNumber::from_payload(1));
    assert_eq!(payment_html_page(&sessions, "", 8080, id).err(), Some(PageError::Internal));
    assert_eq!(payment_html_page(&sessions, "a b", 8080, id).err(), Some(PageError::Internal));
    assert_eq!(
        card_token_registration_html_page(&sessions, "", 1, SessionId(9)).err(),
        Some(PageError::Internal)
    );
    assert_eq!(payment_page_for(&sessions, id, None).err(), Some(PageError::Internal));
    assert_eq!(card_token_page_for(&sessions, id, None).err(), Some(PageError::Internal));
    let page = payment_page_for(&sessions, id, Some("http://x/".to_string())).unwrap();
    assert_eq!(page.submit_url, "http://x/");
    assert_eq!(
        card_token_page_for(&sessions, id, Some("http://x/".to_string())).err(),
        Some(PageError::NotFound)
    );
}

fn request(amount: i64, secret: &str) -> InitPaymentRequest {
    InitPaymentRequest::new(
        "https://shop.example/notify".to_string(),
        OK.to_string(),
        FAILED.to_string(),
        amount,
        secret,
    )
}

#[test]
fn a_genuine_request_opens_a_session_and_gets_its_page() {
    let mut sessions = InteractionSessions::new();
    let store = CardNumber::from_payload(1000);
    let opening = open_payment(
        &mut sessions,
        SessionId(5),
        store,
        "cash",
        "127.0.0.1",
        8080,
        &request(500, "cash"),
    );
    assert_eq!(opening.session, Some(SessionId(5)));
    assert_eq!(
        opening.response.payment_url,
        Some("http://127.0.0.1:8080/payment_page/00000000-0000-0000-0000-000000000005".to_string())
    );
    let session = sessions.claim_session(SessionId(5)).unwrap();
    assert_eq!(session.store_card(), store);
    assert!(matches!(session.session_type(), SessionKind::Payment { amount: 500, .. }));
    assert_eq!(session.session_type().success_url(), OK);
    assert_eq!(session.session_type().fail_url(), FAILED);
}

#[test]
fn a_request_with_a_wrong_token_opens_nothing() {
    let mut sessions = InteractionSessions::new();
    let store = CardNumber::from_payload(1000);
    let opening =
        init_payment(&mut sessions, store, "cash", "127.0.0.1", 8080, &request(500, "other"));
    assert_eq!(opening.response.payment_url, None);
    assert_eq!(opening.session, None);
    assert_eq!(sessions.len(), 0);
}

#[test]
fn a_request_that_cannot_be_given_a_page_leaves_no_session() {
    let mut sessions = InteractionSessions::new();
    let store = CardNumber::from_payload(1000);
    let opening = init_payment(&mut sessions, store, "cash", "", 8080, &request(500, "cash"));
    assert_eq!(opening.response.payment_url, None);
    assert_eq!(opening.session, None);
    assert_eq!(sessions.len(), 0);
}

#[test]
fn from_request_to_settlement() {
    let mut bank = Bank::new("cash", "owner");
    let customer = bank.add_account("p1");
    assert_eq!(bank.open_credit(customer, 1000), Ok(()));
    let mut sessions = InteractionSessions::new();
    let store = bank.get_store_account().card();
    let opening =
        init_payment(&mut sessions, store, "cash", "localhost", 8080, &request(500, "cash"));
    let id = opening.session.unwrap();
    let page_url = opening.response.payment_url.unwrap();
    assert_eq!(page_url, format!("http://localhost:8080/payment_page/{}", id.to_string()));
    let id_text = page_url.rsplit('/').next().unwrap();
    assert_eq!(uuid::Uuid::parse_str(id_text).unwrap().as_u128(), id.0);

    let page = payment_html_page(&sessions, "localhost", 8080, id).unwrap();
    assert_eq!(page.amount, 500);
    let redirect = trigger_payment(&mut bank, &mut sessions, id, &creds(customer, "p1")).unwrap();
    assert_eq!(redirect.url, OK);
    assert_eq!(bank.balance(&bank.find_account(&customer).unwrap()), 500);
    assert_eq!(sessions.len(), 0);
}
