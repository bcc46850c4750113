use acquisim::init_payment::{
    InitPayment, InitPaymentRequest, InitPaymentResponse, OperationStatus,
    PaymentOperationNotification,
};
use acquisim::text::{decimal_i64, decimal_u64, hex_string, numeral_string};
use acquisim::token::{compare_names, NameOrder, TokenError, TokenFields};

fn request(amount: i64, secret: &str) -> InitPaymentRequest {
    InitPaymentRequest::new(
        "https://notify.example/".to_string(),
        "https://ok.example/".to_string(),
        "https://fail.example/".to_string(),
        amount,
        secret,
    )
}

#[test]
fn the_token_is_the_digest_of_the_values_in_order_of_their_names() {
    // sha256("100https://fail.example/https://notify.example/secrethttps://ok.example/")
    let req = request(100, "secret");
    assert_eq!(
        req.token().as_str(),
        "7e562c23324f3603f5372cf059bcfd0352f8de1fefbf15bdbce5808b6cd744e2"
    );
    assert_eq!(req.generate_token("secret"), *req.token());
}

#[test]
fn a_negative_amount_goes_in_with_its_sign() {
    // sha256("-5fnpws")
    let req = InitPaymentRequest::new("n".to_string(), "s".to_string(), "f".to_string(), -5, "pw");
    assert_eq!(
        req.token().as_str(),
        "991dcbe957dcd350fed509e78dcad5d7167420abc956fd9edb993d187f893904"
    );
}

#[test]
fn a_fresh_request_validates() {
    for (amount, secret) in [(0, ""), (1, "p"), (i64::MAX, "long secret"), (i64::MIN, "s")] {
        assert_eq!(request(amount, secret).validate_token(secret), Ok(()));
    }
}

#[test]
fn a_changed_secret_fails() {
    assert_eq!(request(100, "secret").validate_token("Secret"), Err(TokenError::TokenMismatch));
    assert_eq!(request(100, "secret").validate_token(""), Err(TokenError::TokenMismatch));
}

#[test]
fn a_changed_field_fails() {
    let genuine = request(100, "secret");
    let token = genuine.token().clone();
    let with = |n: &str, s: &str, f: &str, amount: i64| {
        InitPaymentRequest::with_token(
            n.to_string(),
            s.to_string(),
            f.to_string(),
            amount,
            token.clone(),
        )
    };
    let n = "https://notify.example/";
    let s = "https://ok.example/";
    let f = "https://fail.example/";
    assert_eq!(with(n, s, f, 100).validate_token("secret"), Ok(()));
    assert_eq!(with(n, s, f, 101).validate_token("secret"), Err(TokenError::TokenMismatch));
    assert_eq!(with("https://x/", s, f, 100).validate_token("secret"), Err(TokenError::TokenMismatch));
    assert_eq!(with(n, "https://x/", f, 100).validate_token("secret"), Err(TokenError::TokenMismatch));
    assert_eq!(with(n, s, "https://x/", 100).validate_token("secret"), Err(TokenError::TokenMismatch));
}

#[test]
fn a_token_is_checked_against_what_is_expected() {
    let req = request(7, "secret");
    assert_eq!(req.check_token(&req.token().clone()), Ok(()));
    assert_eq!(req.check_token(&String::new()), Err(TokenError::TokenMismatch));
    assert_eq!(req.check_token(&"7e56".to_string()), Err(TokenError::TokenMismatch));
}

#[test]
fn the_getters_give_back_what_went_in() {
    let req = request(42, "secret");
    assert_eq!(req.amount(), 42);
    assert_eq!(req.amount, 42);
    assert_eq!(req.notification_url(), "https://notify.example/");
    assert_eq!(req.success_url(), "https://ok.example/");
    assert_eq!(req.fail_url(), "https://fail.example/");
    let copy = req.clone();
    assert_eq!(copy.token(), req.token());
    assert_eq!(copy.success_url, req.success_url);
}

#[test]
fn fields_are_joined_in_the_order_of_their_names_not_of_their_arrival() {
    let mut one = TokenFields::new();
    one.insert("b", "2".to_string());
    one.insert("a", "1".to_string());
    one.insert("c", "3".to_string());
    assert_eq!(one.joined(), "123");
    let mut other = TokenFields::new();
    other.insert("c", "3".to_string());
    other.insert("b", "2".to_string());
    other.insert("a", "1".to_string());
    assert_eq!(other.joined(), "123");
    assert_eq!(one.token(), other.token());
}

#[test]
fn a_name_put_in_twice_keeps_its_last_value() {
    let mut fields = TokenFields::new();
    fields.insert("name", "old".to_string());
    fields.insert("other", "x".to_string());
    fields.insert("name", "new".to_string());
    assert_eq!(fields.joined(), "newx");
}

#[test]
fn the_token_of_no_fields_is_the_digest_of_the_empty_text() {
    let fields = TokenFields::new();
    assert_eq!(fields.joined(), "");
    assert_eq!(
        fields.token(),
        "e3b0c44298fc1c149afbf4c8996fb92427ae41e4649b934ca495991b7852b855"
    );
}

#[test]
fn the_token_of_fields_is_the_digest_of_their_joined_values() {
    let mut fields = TokenFields::new();
    fields.insert("z", "c".to_string());
    fields.insert("x", "a".to_string());
    fields.insert("y", "b".to_string());
    let token = fields.token();
    assert_eq!(token, "ba7816bf8f01cfea414140de5dae2223b00361a396177a9cb410ff61f20015ad");
    assert_eq!(fields.validate(&token), Ok(()));
    assert_eq!(fields.validate(&"abc".to_string()), Err(TokenError::TokenMismatch));
}

#[test]
fn names_are_compared_as_strings_are() {
    let names = ["", "a", "ab", "abc", "b", "amount", "password", "é", "z", "Z", "fail_url"];
    for a in names {
        for b in names {
            let expected = match a.cmp(b) {
                std::cmp::Ordering::Less => NameOrder::Before,
                std::cmp::Ordering::Equal => NameOrder::Same,
                std::cmp::Ordering::Greater => NameOrder::After,
            };
            assert_eq!(compare_names(a, b), expected, "{a} against {b}");
        }
    }
}

#[test]
fn integers_are_written_as_the_standard_library_writes_them() {
    for v in [0i64, 1, 9, 10, 11, 99, 100, 12345, -1, -10, -12345, i64::MAX, i64::MIN] {
        assert_eq!(decimal_i64(v), v.to_string());
    }
    for v in [0u64, 7, 10, 65535, u64::MAX] {
        assert_eq!(decimal_u64(v), v.to_string());
    }
}

#[test]
fn numerals_of_a_fixed_length_are_padded_and_cut() {
    assert_eq!(numeral_string(42, 5), "00042");
    assert_eq!(numeral_string(123456, 3), "456");
    assert_eq!(numeral_string(7, 0), "");
    assert_eq!(hex_string(0xabc, 5), "00abc");
    assert_eq!(hex_string(0x1234_5678, 4), "5678");
    assert_eq!(hex_string(u128::MAX, 32), "f".repeat(32));
}

#[test]
fn the_action_is_served_under_its_path() {
    assert_eq!(InitPayment.url_path(), "/api/InitPayment");
}

#[test]
fn responses_carry_the_page_or_nothing() {
    assert_eq!(InitPaymentResponse::err().payment_url, None);
    assert_eq!(InitPaymentResponse::operation_error().payment_url, None);
    assert_eq!(
        InitPaymentResponse::success("http://bank/payment_page/1".to_string()).payment_url,
        Some("http://bank/payment_page/1".to_string())
    );
    assert_eq!(
        InitPaymentResponse::operation_success("http://bank/x".to_string()).payment_url,
        Some("http://bank/x".to_string())
    );
}

#[test]
fn notifications_carry_the_status() {
    assert_eq!(PaymentOperationNotification::err().operation_status, OperationStatus::Fail);
    assert_eq!(PaymentOperationNotification::success().operation_status, OperationStatus::Success);
    assert_ne!(PaymentOperationNotification::err(), PaymentOperationNotification::success());
}
