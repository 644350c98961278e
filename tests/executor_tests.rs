use hyperliquid_sdk_swift::decimal::Decimal;
use hyperliquid_sdk_swift::execute::{
    cancel_transport_failure, classify_cancel_ack, classify_order_ack, no_wallet_result,
    normalization_failure, transport_failure, CancelAck, FailureStage, OrderAck, OrderStatus,
};
use hyperliquid_sdk_swift::normalize::{Amount, NormalizationError};

#[test]
fn resting_order_reports_its_id() {
    let ack = OrderAck::Accepted { statuses: Some(vec![OrderStatus::Resting { oid: 12345 }]) };
    let r = classify_order_ack(&ack);
    assert!(r.success);
    assert_eq!(r.order_id, Some(12345));
    assert_eq!(r.filled_size, None);
    assert_eq!(r.avg_price, None);
    assert_eq!(r.message, "Order placed and resting in orderbook");
}

#[test]
fn filled_order_reports_size_and_price() {
    let ack = OrderAck::Accepted {
        statuses: Some(vec![
            OrderStatus::Filled { oid: 7, total_size: "0.01".to_string(), avg_price: "101000".to_string() },
            OrderStatus::Resting { oid: 8 },
        ]),
    };
    let r = classify_order_ack(&ack);
    assert!(r.success);
    assert_eq!(r.message, "Order filled successfully");
    assert_eq!(r.order_id, Some(7));
    assert_eq!(r.filled_size, Some("0.01".to_string()));
    assert_eq!(r.avg_price, Some("101000".to_string()));
}

#[test]
fn unknown_status_fails_with_its_tag() {
    let ack = OrderAck::Accepted { statuses: Some(vec![OrderStatus::Other { tag: "WaitingForFill".to_string() }]) };
    let r = classify_order_ack(&ack);
    assert!(!r.success);
    assert_eq!(r.message, "Unexpected order status: WaitingForFill");
    assert_eq!(r.order_id, None);
}

#[test]
fn missing_statuses_fail() {
    let r = classify_order_ack(&OrderAck::Accepted { statuses: Some(Vec::new()) });
    assert!(!r.success);
    assert_eq!(r.message, "No order status returned");
    let r = classify_order_ack(&OrderAck::Accepted { statuses: None });
    assert!(!r.success);
    assert_eq!(r.message, "No response data");
    assert_eq!(r.order_id, None);
}

#[test]
fn rejection_carries_the_reason() {
    let r = classify_order_ack(&OrderAck::Rejected { reason: "Insufficient margin".to_string() });
    assert!(!r.success);
    assert_eq!(r.message, "Insufficient margin");
    assert_eq!(r.order_id, None);
}

#[test]
fn cancellation_results_name_the_order() {
    let r = classify_cancel_ack(42, &CancelAck::Accepted);
    assert!(r.success);
    assert_eq!(r.message, "Order 42 cancelled successfully");
    assert_eq!(r.order_id, Some(42));
    let r = classify_cancel_ack(42, &CancelAck::Rejected { reason: "Order was never placed".to_string() });
    assert!(!r.success);
    assert_eq!(r.message, "Cancel failed: Order was never placed");
    assert_eq!(r.order_id, Some(42));
    let r = cancel_transport_failure(9, "timeout");
    assert!(!r.success);
    assert_eq!(r.message, "Failed to cancel order: timeout");
    assert_eq!(r.order_id, Some(9));
}

#[test]
fn failures_before_acknowledgement() {
    let r = transport_failure(FailureStage::PriceFetch, "timeout");
    assert_eq!(r.message, "Failed to get prices: timeout");
    assert!(!r.success);
    let r = transport_failure(FailureStage::Submission, "bad signature");
    assert_eq!(r.message, "Failed to place order: bad signature");
    assert_eq!(r.order_id, None);
}

#[test]
fn normalization_failures_as_results() {
    let r = normalization_failure(NormalizationError::OrderTooSmall { computed_size: Decimal { units: 0, scale: 5 } });
    assert!(!r.success);
    assert_eq!(r.message, "Order size too small: 0.00000");
    let invalid = |amount| normalization_failure(NormalizationError::InvalidNumericFormat { amount }).message;
    assert_eq!(invalid(Amount::Size), "Invalid size format");
    assert_eq!(invalid(Amount::Price), "Invalid price format");
    assert_eq!(invalid(Amount::Notional), "Invalid USDC amount format");
    assert_eq!(normalization_failure(NormalizationError::ReferencePriceUnavailable).message, "Reference price not found");
    assert_eq!(normalization_failure(NormalizationError::OutOfRange).message, "Amount out of range");
    assert_eq!(normalization_failure(NormalizationError::UnknownTimeInForce).message, "Unknown time in force");
}

#[test]
fn no_wallet_message() {
    let r = no_wallet_result();
    assert!(!r.success);
    assert!(r.message.starts_with("No wallet configured"));
    assert_eq!(r.order_id, None);
}
