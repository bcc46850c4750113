//! The hosted pages and what a customer's submission on them sets off: the
//! session is claimed, the ledger is asked, the session is resolved, and the
//! customer is sent on to the merchant's page for success or for failure.

use crate::bank::{Bank, BankView};
use crate::card_number::{is_card_text, CardNumber};
use crate::clock::unix_now;
use crate::entropy::random_bits;
use crate::init_payment::{
    expected_token, InitPaymentRequest, InitPaymentRequestView, InitPaymentResponse,
    OperationStatus,
};
use crate::sessions::{
    claimable, descriptor, id_for, Delivery, InteractionSessionView, InteractionSessions,
    RegistryView, SessionError, SessionId, SessionKind, SessionKindView, SessionView,
};
use crate::text::{decimal_nat, decimal_u64};
use vstd::prelude::*;
use vstd::string::*;

verus! {

/// What a customer enters on the payment page.
pub struct Credentials {
    pub card_number: CardNumber,
    pub password: String,
}

/// Where to send the customer, and what to tell whoever awaits the session.
#[derive(Debug)]
pub struct Redirect {
    pub url: String,
    pub delivery: Delivery,
}

/// Why a hosted page cannot be shown.
#[derive(Clone, Copy, Debug, PartialEq, Eq, Structural)]
pub enum PageError {
    /// No session of the page's kind can be claimed under the identifier.
    NotFound,
    /// The address to submit to is no URL.
    Internal,
}

/// What the payment page shows.
#[derive(Debug)]
pub struct PaymentPage {
    pub amount: i64,
    pub submit_url: String,
}

/// What the page for registering a card shows.
#[derive(Debug)]
pub struct CardTokenPage {
    pub submit_url: String,
}

/// What `url::Url::parse` makes of `text`: the URL written out again, or
/// nothing where `text` is no absolute URL.
pub uninterp spec fn parsed_url(text: Seq<char>) -> Option<Seq<char>>;

/// Parses `text` with `url::Url::parse` and writes the URL out again. What
/// comes of it depends on the text alone; the contract names it.
#[verifier::external_body]
fn parse_url(text: &str) -> (url: Option<String>)
    ensures
        url is Some <==> parsed_url(text@) is Some,
        url matches Some(written) ==> parsed_url(text@) == Some(written@),
{
    match url::Url::parse(text) {
        Ok(url) => Some(String::from(url)),
        Err(_) => None,
    }
}

/// The address of a page of the session `id`: `http://`, the host, a colon,
/// the port, the page's path, and the identifier.
pub open spec fn page_address(addr: Seq<char>, port: u16, path: Seq<char>, id: SessionId) -> Seq<
    char,
> {
    "http://"@ + addr + ":"@ + decimal_nat(port as nat) + path + id.text()
}

/// Writes out the address of a page of the session `id`.
pub fn page_address_string(addr: &str, port: u16, path: &str, id: SessionId) -> (address: String)
    ensures
        address@ == page_address(addr@, port, path@, id),
{
    let mut address = String::from_str("http://");
    address.append(addr);
    address.append(":");
    address.append(decimal_u64(port as u64).as_str());
    address.append(path);
    address.append(id.to_string().as_str());
    address
}

/// The session that an accepted request opens.
pub open spec fn payment_session(request: InitPaymentRequestView, store_card: CardNumber)
    -> SessionView {
    SessionView {
        kind: SessionKindView::Payment {
            amount: request.amount,
            success_url: request.success_url,
            fail_url: request.fail_url,
        },
        store_card,
        claimed: false,
    }
}

/// What becomes of a request to open a payment: the answer to the merchant
/// and, where a session was opened, its identifier.
#[derive(Debug)]
pub struct PaymentOpening {
    pub response: InitPaymentResponse,
    pub session: Option<SessionId>,
}

/// Handles a merchant's request to open a payment, given the identifier
/// drawn for the session. A request whose token does not match the secret
/// is refused. For one that does, a session is opened for the store, and the
/// merchant gets the address of its payment page, `/payment_page/` and the
/// identifier on the host `addr` and `port`. Should that address be no URL,
/// the session is withdrawn and the request refused.
pub fn open_payment(
    sessions: &mut InteractionSessions,
    preferred: SessionId,
    store_card: CardNumber,
    password: &str,
    addr: &str,
    port: u16,
    request: &InitPaymentRequest,
) -> (opening: PaymentOpening)
    ensures
        ({
            let id = SessionId(id_for(old(sessions)@, preferred.0));
            let page = parsed_url(page_address(addr@, port, "/payment_page/"@, id));
            if request@.token == expected_token(request@, password@) && page is Some {
                &&& final(sessions)@ == old(sessions)@.insert(
                    id.0,
                    payment_session(request@, store_card),
                )
                &&& !old(sessions)@.contains_key(id.0)
                &&& opening.session == Some(id)
                &&& opening.response.payment_url is Some
                &&& opening.response.payment_url->0@ == page->0
            } else {
                &&& final(sessions)@ == old(sessions)@
                &&& opening.session is None
                &&& opening.response.payment_url is None
            }
        }),
{
    if request.validate_token(password).is_err() {
        return PaymentOpening { response: InitPaymentResponse::operation_error(), session: None };
    }
    let kind = SessionKind::Payment {
        amount: request.amount(),
        success_url: request.success_url().clone(),
        fail_url: request.fail_url().clone(),
    };
    let id = sessions.register_session(preferred, kind, store_card);
    let address = page_address_string(addr, port, "/payment_page/", id);
    match parse_url(address.as_str()) {
        Some(url) => PaymentOpening {
            response: InitPaymentResponse::operation_success(url),
            session: Some(id),
        },
        None => {
            sessions.resolve_and_remove(id, OperationStatus::Fail);
            assert(final(sessions)@ =~= old(sessions)@);
            PaymentOpening { response: InitPaymentResponse::operation_error(), session: None }
        },
    }
}

/// Handles a merchant's request to open a payment: `open_payment` under a
/// session identifier drawn at random.
pub fn init_payment(
    sessions: &mut InteractionSessions,
    store_card: CardNumber,
    password: &str,
    addr: &str,
    port: u16,
    request: &InitPaymentRequest,
) -> (opening: PaymentOpening)
    ensures
        request@.token != expected_token(request@, password@) ==> opening.session is None,
        opening.session is None <==> opening.response.payment_url is None,
        opening.session is None ==> final(sessions)@ == old(sessions)@,
        opening.session matches Some(id) ==> {
            &&& !old(sessions)@.contains_key(id.0)
            &&& final(sessions)@ == old(sessions)@.insert(
                id.0,
                payment_session(request@, store_card),
            )
            &&& Some(opening.response.payment_url->0@) == parsed_url(
                page_address(addr@, port, "/payment_page/"@, id),
            )
        },
        exists|preferred: SessionId| #[trigger]
            opens_payment(
                old(sessions)@,
                final(sessions)@,
                preferred,
                store_card,
                password@,
                addr@,
                port,
                request@,
                opening,
            ),
{
    let preferred = SessionId(random_bits());
    let opening = open_payment(sessions, preferred, store_card, password, addr, port, request);
    assert(opens_payment(
        old(sessions)@,
        sessions@,
        preferred,
        store_card,
        password@,
        addr@,
        port,
        request@,
        opening,
    ));
    opening
}

/// Whether `opening`, with the registry going from `before` to `after`, is
/// what becomes of `request` where `preferred` is the identifier drawn for
/// its session. A request whose token matches the secret, and whose payment
/// page has an address that is a URL, opens the session under the identifier
/// that `id_for` gives and is answered with that address; any other request
/// opens nothing and is answered with no address.
pub open spec fn opens_payment(
    before: RegistryView,
    after: RegistryView,
    preferred: SessionId,
    store_card: CardNumber,
    password: Seq<char>,
    addr: Seq<char>,
    port: u16,
    request: InitPaymentRequestView,
    opening: PaymentOpening,
) -> bool {
    let id = SessionId(id_for(before, preferred.0));
    let page = parsed_url(page_address(addr, port, "/payment_page/"@, id));
    if request.token == expected_token(request, password) && page is Some {
        &&& after == before.insert(id.0, payment_session(request, store_card))
        &&& !before.contains_key(id.0)
        &&& opening.session == Some(id)
        &&& opening.response.payment_url is Some
        &&& opening.response.payment_url->0@ == page->0
    } else {
        &&& after == before
        &&& opening.session is None
        &&& opening.response.payment_url is None
    }
}

/// Whether the payment that `session` asks for goes through: the session is
/// one for a payment, the customer's card and secret are those of a live
/// account, the session was opened for this bank's store, and the ledger
/// accepts the transfer to the store.
pub open spec fn payment_accepted(
    bank: BankView,
    session: InteractionSessionView,
    card: CardNumber,
    password: Seq<char>,
) -> bool {
    &&& session.kind is Payment
    &&& bank.authorize(card, password) is Ok
    &&& bank.system_account.card == session.store_card
    &&& bank.transfer_outcome(card, bank.system_account.card, session.kind->amount) is Ok
}

/// The ledger after the payment that `session` asks for.
pub open spec fn after_payment(
    bank: BankView,
    session: InteractionSessionView,
    card: CardNumber,
    password: Seq<char>,
    timestamp: int,
) -> BankView {
    if payment_accepted(bank, session, card, password) {
        bank.with_transfer(
            bank.authorize(card, password)->Ok_0,
            bank.system_account,
            session.kind->amount,
            timestamp,
        )
    } else {
        bank
    }
}

/// Whether the card `text` can be registered under `session`: the session is
/// one for registering a card, the text is a card number, the session was
/// opened for this bank's store, and the card is that of a live account.
pub open spec fn registration_accepted(
    bank: BankView,
    session: InteractionSessionView,
    text: Seq<char>,
) -> bool {
    &&& session.kind is RegisterCardToken
    &&& is_card_text(text)
    &&& bank.system_account.card == session.store_card
    &&& bank.find(CardNumber::of_text(text)) is Ok
}

/// What the customer and the merchant get after a session has ended.
pub open spec fn conclusion(session: InteractionSessionView, accepted: bool, redirect: Redirect)
    -> bool {
    if accepted {
        &&& redirect.url@ == session.kind.success_url()
        &&& redirect.delivery == Delivery { session: session.id, outcome: OperationStatus::Success }
    } else {
        &&& redirect.url@ == session.kind.fail_url()
        &&& redirect.delivery == Delivery { session: session.id, outcome: OperationStatus::Fail }
    }
}

/// Resolves the claimed session `id` and says where the customer goes.
fn conclude(
    sessions: &mut InteractionSessions,
    id: SessionId,
    kind: &SessionKind,
    accepted: bool,
) -> (redirect: Redirect)
    requires
        old(sessions)@.contains_key(id.0),
    ensures
        final(sessions)@ == old(sessions)@.remove(id.0),
        conclusion(
            InteractionSessionView { id, kind: kind@, store_card: old(sessions)@[id.0].store_card },
            accepted,
            redirect,
        ),
{
    let outcome = if accepted {
        OperationStatus::Success
    } else {
        OperationStatus::Fail
    };
    let url = if accepted {
        kind.success_url().clone()
    } else {
        kind.fail_url().clone()
    };
    let delivery = match sessions.resolve_and_remove(id, outcome) {
        Some(delivery) => delivery,
        None => Delivery { session: id, outcome },
    };
    Redirect { url, delivery }
}

/// Handles the submission of a payment page at a given time. The session is
/// claimed, so of two submissions for one session only one gets this far;
/// then the customer is authorized, the session's store is held against the
/// bank's, and the amount is moved. Whether or not the payment goes through,
/// the session is resolved and the customer is sent on.
pub fn settle_payment(
    bank: &mut Bank,
    sessions: &mut InteractionSessions,
    payment_id: SessionId,
    creds: &Credentials,
    timestamp: i64,
) -> (outcome: Result<Redirect, SessionError>)
    ensures
        final(bank)@.wf(),
        outcome is Ok <==> claimable(old(sessions)@, payment_id.0),
        outcome is Err ==> {
            &&& outcome == Err::<Redirect, SessionError>(SessionError::SessionNotFound)
            &&& final(bank)@ == old(bank)@
            &&& final(sessions)@ == old(sessions)@
        },
        outcome matches Ok(redirect) ==> {
            let session = descriptor(old(sessions)@, payment_id.0);
            &&& final(sessions)@ == old(sessions)@.remove(payment_id.0)
            &&& conclusion(
                session,
                payment_accepted(old(bank)@, session, creds.card_number, creds.password@),
                redirect,
            )
            &&& final(bank)@ == after_payment(
                old(bank)@,
                session,
                creds.card_number,
                creds.password@,
                timestamp as int,
            )
        },
{
    proof {
        use_type_invariant(&*bank);
    }
    let session = match sessions.claim_session(payment_id) {
        Ok(session) => session,
        Err(e) => {
            return Err(e);
        },
    };
    let accepted = match session.session_type() {
        SessionKind::Payment { amount, .. } => {
            match bank.authorize_account(&creds.card_number, creds.password.as_str()) {
                Err(_) => false,
                Ok(account) => {
                    let store_account = bank.get_store_account();
                    if store_account.card() != session.store_card() {
                        false
                    } else {
                        bank.record_transaction(&account, &store_account, *amount, timestamp).is_ok()
                    }
                },
            }
        },
        SessionKind::RegisterCardToken { .. } => false,
    };
    Ok(conclude(sessions, payment_id, session.session_type(), accepted))
}

/// Handles the submission of a payment page now.
pub fn trigger_payment(
    bank: &mut Bank,
    sessions: &mut InteractionSessions,
    payment_id: SessionId,
    creds: &Credentials,
) -> (outcome: Result<Redirect, SessionError>)
    ensures
        final(bank)@.wf(),
        outcome is Ok <==> claimable(old(sessions)@, payment_id.0),
        outcome is Err ==> {
            &&& outcome == Err::<Redirect, SessionError>(SessionError::SessionNotFound)
            &&& final(bank)@ == old(bank)@
            &&& final(sessions)@ == old(sessions)@
        },
        outcome matches Ok(redirect) ==> {
            let session = descriptor(old(sessions)@, payment_id.0);
            &&& final(sessions)@ == old(sessions)@.remove(payment_id.0)
            &&& conclusion(
                session,
                payment_accepted(old(bank)@, session, creds.card_number, creds.password@),
                redirect,
            )
            &&& exists|timestamp: i64|
                final(bank)@ == #[trigger] after_payment(
                    old(bank)@,
                    session,
                    creds.card_number,
                    creds.password@,
                    timestamp as int,
                )
        },
{
    let now = unix_now();
    settle_payment(bank, sessions, payment_id, creds, now)
}

/// Handles the submission of the page for registering a card. The session
/// is claimed; then the text is read as a card number, the session's store is
/// held against the bank's, and the card is looked up. Whether or not the
/// card is accepted, the session is resolved and the customer is sent on.
pub fn trigger_card_token_registration(
    bank: &Bank,
    sessions: &mut InteractionSessions,
    id: SessionId,
    card_number: &str,
) -> (outcome: Result<Redirect, SessionError>)
    ensures
        outcome is Ok <==> claimable(old(sessions)@, id.0),
        outcome is Err ==> {
            &&& outcome == Err::<Redirect, SessionError>(SessionError::SessionNotFound)
            &&& final(sessions)@ == old(sessions)@
        },
        outcome matches Ok(redirect) ==> {
            let session = descriptor(old(sessions)@, id.0);
            &&& final(sessions)@ == old(sessions)@.remove(id.0)
            &&& conclusion(session, registration_accepted(bank@, session, card_number@), redirect)
        },
{
    let session = match sessions.claim_session(id) {
        Ok(session) => session,
        Err(e) => {
            return Err(e);
        },
    };
    let accepted = match session.session_type() {
        SessionKind::Payment { .. } => false,
        SessionKind::RegisterCardToken { .. } => {
            match CardNumber::parse(card_number) {
                Err(_) => false,
                Ok(card) => {
                    let store_account = bank.get_store_account();
                    if store_account.card() != session.store_card() {
                        false
                    } else {
                        bank.find_account(&card).is_ok()
                    }
                },
            }
        },
    };
    Ok(conclude(sessions, id, session.session_type(), accepted))
}

/// What the payment page of the session `payment_id` shows, given what came
/// of parsing the address to submit to.
pub fn payment_page_for(
    sessions: &InteractionSessions,
    payment_id: SessionId,
    submit_url: Option<String>,
) -> (page: Result<PaymentPage, PageError>)
    ensures
        page is Ok <==> submit_url is Some && claimable(sessions@, payment_id.0)
            && sessions@[payment_id.0].kind is Payment,
        page matches Ok(shown) ==> shown.amount == sessions@[payment_id.0].kind->amount
            && shown.submit_url == submit_url->0,
        page == Err::<PaymentPage, PageError>(PageError::Internal) <==> submit_url is None,
{
    let submit_url = match submit_url {
        Some(url) => url,
        None => {
            return Err(PageError::Internal);
        },
    };
    match sessions.find_session(payment_id) {
        Err(_) => Err(PageError::NotFound),
        Ok(session) => match session.session_type() {
            SessionKind::Payment { amount, .. } => Ok(PaymentPage { amount: *amount, submit_url }),
            SessionKind::RegisterCardToken { .. } => Err(PageError::NotFound),
        },
    }
}

/// What the payment page of the session `payment_id` shows. The page
/// submits to `/payment/` and the identifier on the host `addr` and `port`.
pub fn payment_html_page(
    sessions: &InteractionSessions,
    addr: &str,
    port: u16,
    payment_id: SessionId,
) -> (page: Result<PaymentPage, PageError>)
    ensures
        page is Ok <==> parsed_url(page_address(addr@, port, "/payment/"@, payment_id)) is Some
            && claimable(sessions@, payment_id.0) && sessions@[payment_id.0].kind is Payment,
        page matches Ok(shown) ==> shown.amount == sessions@[payment_id.0].kind->amount && Some(
            shown.submit_url@,
        ) == parsed_url(page_address(addr@, port, "/payment/"@, payment_id)),
        page == Err::<PaymentPage, PageError>(PageError::Internal) <==> parsed_url(
            page_address(addr@, port, "/payment/"@, payment_id),
        ) is None,
{
    let address = page_address_string(addr, port, "/payment/", payment_id);
    payment_page_for(sessions, payment_id, parse_url(address.as_str()))
}

/// What the page for registering a card under the session `id` shows, given
/// what came of parsing the address to submit to.
pub fn card_token_page_for(sessions: &InteractionSessions, id: SessionId, submit_url: Option<String>)
    -> (page: Result<CardTokenPage, PageError>)
    ensures
        page is Ok <==> submit_url is Some && claimable(sessions@, id.0)
            && sessions@[id.0].kind is RegisterCardToken,
        page matches Ok(shown) ==> shown.submit_url == submit_url->0,
        page == Err::<CardTokenPage, PageError>(PageError::Internal) <==> submit_url is None,
{
    let submit_url = match submit_url {
        Some(url) => url,
        None => {
            return Err(PageError::Internal);
        },
    };
    match sessions.find_session(id) {
        Err(_) => Err(PageError::NotFound),
        Ok(session) => match session.session_type() {
            SessionKind::RegisterCardToken { .. } => Ok(CardTokenPage { submit_url }),
            SessionKind::Payment { .. } => Err(PageError::NotFound),
        },
    }
}

/// What the page for registering a card under the session `id` shows. The
/// page submits to `/card_token/` and the identifier on the host `addr` and
/// `port`.
pub fn card_token_registration_html_page(
    sessions: &InteractionSessions,
    addr: &str,
    port: u16,
    id: SessionId,
) -> (page: Result<CardTokenPage, PageError>)
    ensures
        page is Ok <==> parsed_url(page_address(addr@, port, "/card_token/"@, id)) is Some
            && claimable(sessions@, id.0) && sessions@[id.0].kind is RegisterCardToken,
        page matches Ok(shown) ==> Some(shown.submit_url@) == parsed_url(
            page_address(addr@, port, "/card_token/"@, id),
        ),
        page == Err::<CardTokenPage, PageError>(PageError::Internal) <==> parsed_url(
            page_address(addr@, port, "/card_token/"@, id),
        ) is None,
{
    let address = page_address_string(addr, port, "/card_token/", id);
    card_token_page_for(sessions, id, parse_url(address.as_str()))
}

} // verus!
