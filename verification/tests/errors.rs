use easy_scalping::error::{AppError, OrderRejection};

#[test]
fn only_a_want_of_cash_allows_another_purchase() {
    for message in ["주문가능금액이 부족합니다", "주문 가능 금액을 초과했습니다"] {
        assert!(OrderRejection::new(message).is_buying_power_shortfall());
    }

    for message in ["매매정지 종목입니다", "가격제한폭을 벗어났습니다", "EGW00201"] {
        assert!(!OrderRejection::new(message).is_buying_power_shortfall());
    }
}

#[test]
fn a_rejection_shows_the_brokers_code() {
    let rejection = OrderRejection::kis(Some("APBK1234".into()), "주문 불가");
    assert_eq!(rejection.code(), Some("APBK1234"));
    assert_eq!(rejection.message(), "주문 불가");
    assert_eq!(rejection.text(), "[APBK1234] 주문 불가");
}

#[test]
fn a_code_of_white_space_is_none() {
    let rejection = OrderRejection::kis(Some(" \t".into()), "주문 불가");
    assert_eq!(rejection.code(), None);
    assert_eq!(rejection.text(), "주문 불가");
    assert_eq!(rejection.copy(), rejection);
}

#[test]
fn every_error_is_shown_with_its_kind() {
    let cases = [
        (AppError::Http("x".into()), "네트워크 오류: x"),
        (AppError::Kis("x".into()), "KIS API 오류: x"),
        (AppError::Config("x".into()), "설정 오류: x"),
        (AppError::Io("x".into()), "입출력 오류: x"),
        (AppError::Parse("x".into()), "파싱 오류: x"),
    ];
    for (error, shown) in cases {
        assert_eq!(error.text(), shown);
        assert!(!error.is_confirmed_order_rejection());
        assert!(error.order_rejection().is_none());
    }
    let error = AppError::Order(OrderRejection::new("거부"));
    assert_eq!(error.text(), "주문 불가: 거부");
    assert!(error.is_confirmed_order_rejection());
    assert_eq!(error.order_rejection().unwrap().message(), "거부");
}

#[test]
fn a_text_is_a_rejection_without_a_code() {
    let owned = OrderRejection::from("주문 불가".to_string());
    let borrowed = OrderRejection::from("주문 불가");
    assert_eq!(owned, borrowed);
    assert_eq!(owned.code(), None);
    assert_eq!(owned.message(), "주문 불가");
}
