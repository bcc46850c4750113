//! The "init payment" exchange between a merchant and the bank: the request
//! with its integrity token, the response, and the notification of how the
//! payment ended.

use crate::text::{decimal, decimal_i64, lemma_decimal_injective};
use crate::token::{
    differ_at, is_slot, joined_values, lemma_changed_part, lemma_lex_asymmetric, lemma_slot,
    lex_less, sha256_hex, token_of, FieldView, TokenError, TokenFields,
};
use vstd::prelude::*;

verus! {

/// How an operation ended.
#[derive(Clone, Copy, Debug, PartialEq, Eq, Structural)]
pub enum OperationStatus {
    Success,
    Fail,
}

/// The action by which a merchant opens a payment.
pub struct InitPayment;

impl InitPayment {
    /// The path under which the bank serves the action.
    pub fn url_path(&self) -> (path: &'static str)
        ensures
            path@ == "/api/InitPayment"@,
    {
        "/api/InitPayment"
    }
}

/// A request to open a payment, as contracts speak of it.
pub struct InitPaymentRequestView {
    pub notification_url: Seq<char>,
    pub success_url: Seq<char>,
    pub fail_url: Seq<char>,
    pub amount: int,
    pub token: Seq<char>,
}

/// The text that the token of a request is the digest of: the values in
/// ascending order of their field names, which are `amount`, `fail_url`,
/// `notification_url`, `password` and `success_url`.
pub open spec fn canonical_text(request: InitPaymentRequestView, password: Seq<char>) -> Seq<char> {
    decimal(request.amount) + request.fail_url + request.notification_url + password
        + request.success_url
}

/// The token that a genuine request with these values carries.
pub open spec fn expected_token(request: InitPaymentRequestView, password: Seq<char>) -> Seq<char> {
    sha256_hex(canonical_text(request, password))
}

/// The named values that go into the token of a request, names ascending.
pub open spec fn request_fields(request: InitPaymentRequestView, password: Seq<char>) -> Seq<
    FieldView,
> {
    seq![
        FieldView { name: "amount"@, value: decimal(request.amount) },
        FieldView { name: "fail_url"@, value: request.fail_url },
        FieldView { name: "notification_url"@, value: request.notification_url },
        FieldView { name: "password"@, value: password },
        FieldView { name: "success_url"@, value: request.success_url },
    ]
}

/// Joined, the fields of a request give its canonical text.
pub proof fn lemma_request_fields_joined(request: InitPaymentRequestView, password: Seq<char>)
    ensures
        joined_values(request_fields(request, password)) == canonical_text(request, password),
        token_of(request_fields(request, password)) == expected_token(request, password),
{
    let f5 = request_fields(request, password);
    let f4 = f5.drop_last();
    let f3 = f4.drop_last();
    let f2 = f3.drop_last();
    let f1 = f2.drop_last();
    let f0 = f1.drop_last();
    assert(joined_values(f0) =~= Seq::<char>::empty());
    assert(joined_values(f1) =~= decimal(request.amount));
    assert(joined_values(f2) =~= decimal(request.amount) + request.fail_url);
    assert(joined_values(f3) =~= decimal(request.amount) + request.fail_url
        + request.notification_url);
    assert(joined_values(f4) =~= decimal(request.amount) + request.fail_url
        + request.notification_url + password);
    assert(joined_values(f5) =~= canonical_text(request, password));
}

/// Whether two requests with their secrets differ in exactly one of the five
/// values that go into the token.
pub open spec fn single_change(
    a: InitPaymentRequestView,
    a_password: Seq<char>,
    b: InitPaymentRequestView,
    b_password: Seq<char>,
) -> bool {
    changed(a.amount != b.amount) + changed(a.fail_url != b.fail_url) + changed(
        a.notification_url != b.notification_url,
    ) + changed(a_password != b_password) + changed(a.success_url != b.success_url) == 1
}

/// One for a value that differs, nought for one that does not.
pub open spec fn changed(differs: bool) -> int {
    if differs {
        1
    } else {
        0
    }
}

/// A request in which one value was changed, or whose secret was changed,
/// has another canonical text.
pub proof fn lemma_single_change_alters_text(
    a: InitPaymentRequestView,
    a_password: Seq<char>,
    b: InitPaymentRequestView,
    b_password: Seq<char>,
)
    requires
        single_change(a, a_password, b, b_password),
    ensures
        canonical_text(a, a_password) != canonical_text(b, b_password),
{
    let none = Seq::<char>::empty();
    let d = decimal(a.amount);
    let left = canonical_text(a, a_password);
    let right = canonical_text(b, b_password);
    if a.amount != b.amount {
        if decimal(a.amount) == decimal(b.amount) {
            lemma_decimal_injective(a.amount, b.amount);
        }
        let rest = a.fail_url + a.notification_url + a_password + a.success_url;
        lemma_changed_part(none, decimal(a.amount), decimal(b.amount), rest);
        assert(left =~= none + decimal(a.amount) + rest);
        assert(right =~= none + decimal(b.amount) + rest);
    } else if a.fail_url != b.fail_url {
        let rest = a.notification_url + a_password + a.success_url;
        lemma_changed_part(d, a.fail_url, b.fail_url, rest);
        assert(left =~= d + a.fail_url + rest);
        assert(right =~= d + b.fail_url + rest);
    } else if a.notification_url != b.notification_url {
        let rest = a_password + a.success_url;
        lemma_changed_part(d + a.fail_url, a.notification_url, b.notification_url, rest);
        assert(left =~= d + a.fail_url + a.notification_url + rest);
        assert(right =~= d + a.fail_url + b.notification_url + rest);
    } else if a_password != b_password {
        let front = d + a.fail_url + a.notification_url;
        lemma_changed_part(front, a_password, b_password, a.success_url);
    } else {
        let front = d + a.fail_url + a.notification_url + a_password;
        lemma_changed_part(front, a.success_url, b.success_url, none);
        assert(left =~= front + a.success_url + none);
        assert(right =~= front + b.success_url + none);
    }
}

/// Tampering shows: where a genuine request has one value changed, or is
/// checked against a changed secret, its token no longer matches, unless the
/// digest of the changed text happens to be that of the genuine text.
pub proof fn lemma_tampering_detected(
    genuine: InitPaymentRequestView,
    password: Seq<char>,
    tampered: InitPaymentRequestView,
    tampered_password: Seq<char>,
)
    requires
        genuine.token == expected_token(genuine, password),
        tampered.token == genuine.token,
        single_change(genuine, password, tampered, tampered_password),
        sha256_hex(canonical_text(tampered, tampered_password)) != sha256_hex(
            canonical_text(genuine, password),
        ),
    ensures
        canonical_text(tampered, tampered_password) != canonical_text(genuine, password),
        tampered.token != expected_token(tampered, tampered_password),
{
    lemma_single_change_alters_text(genuine, password, tampered, tampered_password);
}

/// A request to open a payment. The three addresses are held as text.
#[derive(Debug)]
pub struct InitPaymentRequest {
    /// Where the merchant wants to hear how the payment ended.
    pub notification_url: String,
    /// Where the customer goes after a payment that went through.
    pub success_url: String,
    /// Where the customer goes after a payment that failed.
    pub fail_url: String,
    /// The amount to pay, in whole currency units.
    pub amount: i64,
    token: String,
}

impl View for InitPaymentRequest {
    type V = InitPaymentRequestView;

    closed spec fn view(&self) -> InitPaymentRequestView {
        InitPaymentRequestView {
            notification_url: self.notification_url@,
            success_url: self.success_url@,
            fail_url: self.fail_url@,
            amount: self.amount as int,
            token: self.token@,
        }
    }
}

impl Clone for InitPaymentRequest {
    fn clone(&self) -> (copy: Self)
        ensures
            copy@ == self@,
    {
        InitPaymentRequest {
            notification_url: self.notification_url.clone(),
            success_url: self.success_url.clone(),
            fail_url: self.fail_url.clone(),
            amount: self.amount,
            token: self.token.clone(),
        }
    }
}

/// The five field names stand in the order in which `request_fields` lists them.
proof fn lemma_field_names()
    ensures
        lex_less("amount"@, "fail_url"@),
        lex_less("amount"@, "notification_url"@),
        lex_less("amount"@, "password"@),
        lex_less("amount"@, "success_url"@),
        lex_less("fail_url"@, "notification_url"@),
        lex_less("fail_url"@, "password"@),
        lex_less("fail_url"@, "success_url"@),
        lex_less("notification_url"@, "password"@),
        lex_less("notification_url"@, "success_url"@),
        lex_less("password"@, "success_url"@),
{
    reveal_strlit("amount");
    reveal_strlit("fail_url");
    reveal_strlit("notification_url");
    reveal_strlit("password");
    reveal_strlit("success_url");
    assert(differ_at("amount"@, "fail_url"@, 0));
    assert(differ_at("amount"@, "notification_url"@, 0));
    assert(differ_at("amount"@, "password"@, 0));
    assert(differ_at("amount"@, "success_url"@, 0));
    assert(differ_at("fail_url"@, "notification_url"@, 0));
    assert(differ_at("fail_url"@, "password"@, 0));
    assert(differ_at("fail_url"@, "success_url"@, 0));
    assert(differ_at("notification_url"@, "password"@, 0));
    assert(differ_at("notification_url"@, "success_url"@, 0));
    assert(differ_at("password"@, "success_url"@, 0));
}

impl InitPaymentRequest {
    /// A request with the token that `cashbox_password` gives it.
    pub fn new(
        notification_url: String,
        success_url: String,
        fail_url: String,
        amount: i64,
        cashbox_password: &str,
    ) -> (request: Self)
        ensures
            request@.notification_url == notification_url@,
            request@.success_url == success_url@,
            request@.fail_url == fail_url@,
            request@.amount == amount,
            request@.token == expected_token(request@, cashbox_password@),
    {
        let mut request = InitPaymentRequest {
            notification_url,
            success_url,
            fail_url,
            amount,
            token: String::new(),
        };
        let token = request.generate_token(cashbox_password);
        request.token = token;
        request
    }

    /// A request as it came in, token and all.
    pub fn with_token(
        notification_url: String,
        success_url: String,
        fail_url: String,
        amount: i64,
        token: String,
    ) -> (request: Self)
        ensures
            request@ == (InitPaymentRequestView {
                notification_url: notification_url@,
                success_url: success_url@,
                fail_url: fail_url@,
                amount: amount as int,
                token: token@,
            }),
    {
        InitPaymentRequest { notification_url, success_url, fail_url, amount, token }
    }

    /// Where the merchant wants to hear how the payment ended.
    pub fn notification_url(&self) -> (url: &String)
        ensures
            url@ == self@.notification_url,
    {
        &self.notification_url
    }

    /// Where the customer goes after a payment that went through.
    pub fn success_url(&self) -> (url: &String)
        ensures
            url@ == self@.success_url,
    {
        &self.success_url
    }

    /// Where the customer goes after a payment that failed.
    pub fn fail_url(&self) -> (url: &String)
        ensures
            url@ == self@.fail_url,
    {
        &self.fail_url
    }

    /// The amount to pay, in whole currency units.
    pub fn amount(&self) -> (amount: i64)
        ensures
            amount == self@.amount,
    {
        self.amount
    }

    /// The token that came with the request.
    pub fn token(&self) -> (token: &String)
        ensures
            token@ == self@.token,
    {
        &self.token
    }

    /// The fields of the request and the secret, ordered for the token.
    pub fn token_fields(&self, cashbox_password: &str) -> (fields: TokenFields)
        ensures
            fields@ == request_fields(self@, cashbox_password@),
    {
        let ghost amount_text = decimal(self.amount as int);
        let ghost n = FieldView { name: "notification_url"@, value: self.notification_url@ };
        let ghost s = FieldView { name: "success_url"@, value: self.success_url@ };
        let ghost f = FieldView { name: "fail_url"@, value: self.fail_url@ };
        let ghost a = FieldView { name: "amount"@, value: amount_text };
        let ghost p = FieldView { name: "password"@, value: cashbox_password@ };
        proof {
            lemma_field_names();
            lemma_lex_asymmetric("amount"@, "fail_url"@);
            lemma_lex_asymmetric("amount"@, "notification_url"@);
            lemma_lex_asymmetric("amount"@, "password"@);
            lemma_lex_asymmetric("amount"@, "success_url"@);
            lemma_lex_asymmetric("fail_url"@, "notification_url"@);
            lemma_lex_asymmetric("fail_url"@, "password"@);
            lemma_lex_asymmetric("fail_url"@, "success_url"@);
            lemma_lex_asymmetric("notification_url"@, "password"@);
            lemma_lex_asymmetric("notification_url"@, "success_url"@);
            lemma_lex_asymmetric("password"@, "success_url"@);
        }
        let mut fields = TokenFields::new();
        proof {
            assert(is_slot(fields@, n.name, 0));
            lemma_slot(fields@, n.name, 0);
        }
        fields.insert("notification_url", self.notification_url.clone());
        assert(fields@ =~= seq![n]);
        proof {
            assert(is_slot(fields@, s.name, 1));
            lemma_slot(fields@, s.name, 1);
        }
        fields.insert("success_url", self.success_url.clone());
        assert(fields@ =~= seq![n, s]);
        proof {
            assert(is_slot(fields@, f.name, 0));
            lemma_slot(fields@, f.name, 0);
        }
        fields.insert("fail_url", self.fail_url.clone());
        assert(fields@ =~= seq![f, n, s]);
        proof {
            assert(is_slot(fields@, a.name, 0));
            lemma_slot(fields@, a.name, 0);
        }
        fields.insert("amount", decimal_i64(self.amount));
        assert(fields@ =~= seq![a, f, n, s]);
        proof {
            assert(is_slot(fields@, p.name, 3));
            lemma_slot(fields@, p.name, 3);
        }
        fields.insert("password", cashbox_password.to_owned());
        assert(fields@ =~= seq![a, f, n, p, s]);
        fields
    }

    /// The token over the request's fields and the secret.
    pub fn generate_token(&self, cashbox_password: &str) -> (token: String)
        ensures
            token@ == expected_token(self@, cashbox_password@),
    {
        let fields = self.token_fields(cashbox_password);
        proof {
            lemma_request_fields_joined(self@, cashbox_password@);
        }
        fields.token()
    }

    /// Whether the token that came with the request is `expected`.
    pub fn check_token(&self, expected: &String) -> (checked: Result<(), TokenError>)
        ensures
            checked is Ok <==> self@.token == expected@,
            checked is Err ==> checked == Err::<(), TokenError>(TokenError::TokenMismatch),
    {
        if self.token == *expected {
            Ok(())
        } else {
            Err(TokenError::TokenMismatch)
        }
    }

    /// Whether the token that came with the request is the token over its
    /// fields and the secret.
    pub fn validate_token(&self, password: &str) -> (checked: Result<(), TokenError>)
        ensures
            checked is Ok <==> self@.token == expected_token(self@, password@),
            checked is Err ==> checked == Err::<(), TokenError>(TokenError::TokenMismatch),
    {
        let expected = self.generate_token(password);
        self.check_token(&expected)
    }
}

/// The bank's answer to a request to open a payment.
#[derive(Debug)]
pub struct InitPaymentResponse {
    /// The hosted page on which the customer pays; absent where the request
    /// was refused.
    pub payment_url: Option<String>,
}

impl InitPaymentResponse {
    /// The answer to a request that was refused.
    pub fn err() -> (response: Self)
        ensures
            response.payment_url is None,
    {
        InitPaymentResponse { payment_url: None }
    }

    /// The answer to a request that was accepted.
    pub fn success(payment_url: String) -> (response: Self)
        ensures
            response.payment_url == Some(payment_url),
    {
        InitPaymentResponse { payment_url: Some(payment_url) }
    }

    /// The answer to an operation that failed.
    pub fn operation_error() -> (response: Self)
        ensures
            response.payment_url is None,
    {
        Self::err()
    }

    /// The answer to an operation that opened a session with the page
    /// `session_ui_url`.
    pub fn operation_success(session_ui_url: String) -> (response: Self)
        ensures
            response.payment_url == Some(session_ui_url),
    {
        Self::success(session_ui_url)
    }
}

/// What the merchant is told once a payment has ended.
#[derive(Clone, Copy, Debug, PartialEq, Eq, Structural)]
pub struct PaymentOperationNotification {
    pub operation_status: OperationStatus,
}

impl PaymentOperationNotification {
    /// The notification of a payment that failed.
    pub fn err() -> (notification: Self)
        ensures
            notification.operation_status == OperationStatus::Fail,
    {
        PaymentOperationNotification { operation_status: OperationStatus::Fail }
    }

    /// The notification of a payment that went through.
    pub fn success() -> (notification: Self)
        ensures
            notification.operation_status == OperationStatus::Success,
    {
        PaymentOperationNotification { operation_status: OperationStatus::Success }
    }
}

} // verus!
