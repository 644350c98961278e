use vstd::prelude::*;

use crate::decimal::{decimal_text, text_spec, Decimal};
use crate::normalize::{Amount, NormalizationError};

verus! {

/// What an order-affecting call reports back to its caller.
#[derive(Clone, Debug)]
pub struct SwapResult {
    pub success: bool,
    pub message: String,
    pub order_id: Option<u64>,
    pub filled_size: Option<String>,
    pub avg_price: Option<String>,
}

/// The exchange's status for one submitted order.
#[derive(Clone, Debug)]
pub enum OrderStatus {
    Filled { oid: u64, total_size: String, avg_price: String },
    Resting { oid: u64 },
    /// Any other status, by its tag.
    Other { tag: String },
}

/// The exchange's acknowledgement of an order placement.
#[derive(Clone, Debug)]
pub enum OrderAck {
    /// Accepted; `statuses` is `None` when the response carried no data.
    Accepted { statuses: Option<Vec<OrderStatus>> },
    Rejected { reason: String },
}

/// The exchange's acknowledgement of a cancellation.
#[derive(Clone, Debug)]
pub enum CancelAck {
    Accepted,
    Rejected { reason: String },
}

/// Where an order-affecting call failed before an acknowledgement came.
#[derive(Clone, Copy, Debug, PartialEq, Eq)]
pub enum FailureStage {
    PriceFetch,
    Submission,
    Cancellation,
}

pub open spec fn no_wallet_text() -> Seq<char> {
    "No wallet configured. Use new_with_wallet() constructor."@
}

/// The result of an order-affecting call on a session that cannot sign.
pub fn no_wallet_result() -> (r: SwapResult)
    ensures
        r.fails_with(no_wallet_text()),
{
    failure(String::from_str("No wallet configured. Use new_with_wallet() constructor."))
}

impl SwapResult {
    /// A failed result with this message and nothing else.
    pub open spec fn fails_with(&self, message: Seq<char>) -> bool {
        &&& !self.success
        &&& self.message@ == message
        &&& self.order_id is None
        &&& self.filled_size is None
        &&& self.avg_price is None
    }
}

/// A failed result carrying only `message`.
pub fn failure(message: String) -> (r: SwapResult)
    ensures
        r.fails_with(message@),
{
    SwapResult { success: false, message, order_id: None, filled_size: None, avg_price: None }
}

fn join(prefix: &str, detail: &str) -> (r: String)
    ensures
        r@ == prefix@ + detail@,
{
    let s = String::from_str(prefix);
    s.concat(detail)
}

/// The message for a failure before any acknowledgement.
pub open spec fn stage_prefix(stage: FailureStage) -> Seq<char> {
    match stage {
        FailureStage::PriceFetch => "Failed to get prices: "@,
        FailureStage::Submission => "Failed to place order: "@,
        FailureStage::Cancellation => "Failed to cancel order: "@,
    }
}

/// A transport or signing failure at `stage`, described by `detail`.
pub fn transport_failure(stage: FailureStage, detail: &str) -> (r: SwapResult)
    ensures
        r.fails_with(stage_prefix(stage) + detail@),
{
    let prefix = match stage {
        FailureStage::PriceFetch => "Failed to get prices: ",
        FailureStage::Submission => "Failed to place order: ",
        FailureStage::Cancellation => "Failed to cancel order: ",
    };
    failure(join(prefix, detail))
}

/// The message for an amount that does not read as a decimal.
pub open spec fn invalid_amount_text(amount: Amount) -> Seq<char> {
    match amount {
        Amount::Size => "Invalid size format"@,
        Amount::Price => "Invalid price format"@,
        Amount::Notional => "Invalid USDC amount format"@,
    }
}

/// The message for a normalization error.
pub open spec fn normalization_text(e: NormalizationError) -> Seq<char> {
    match e {
        NormalizationError::InvalidNumericFormat { amount } => invalid_amount_text(amount),
        NormalizationError::OrderTooSmall { computed_size } => "Order size too small: "@
            + text_spec(computed_size.units as nat, computed_size.scale as nat),
        NormalizationError::ReferencePriceUnavailable => "Reference price not found"@,
        NormalizationError::OutOfRange => "Amount out of range"@,
        NormalizationError::UnknownTimeInForce => "Unknown time in force"@,
    }
}

/// A normalization error reported as a failed result.
pub fn normalization_failure(e: NormalizationError) -> (r: SwapResult)
    requires
        e matches NormalizationError::OrderTooSmall { computed_size } ==> computed_size.wf(),
    ensures
        r.fails_with(normalization_text(e)),
{
    let msg = match e {
        NormalizationError::InvalidNumericFormat { amount } => match amount {
            Amount::Size => String::from_str("Invalid size format"),
            Amount::Price => String::from_str("Invalid price format"),
            Amount::Notional => String::from_str("Invalid USDC amount format"),
        },
        NormalizationError::OrderTooSmall { computed_size } => {
            let t = decimal_text(computed_size);
            join("Order size too small: ", t.as_str())
        },
        NormalizationError::ReferencePriceUnavailable => String::from_str(
            "Reference price not found",
        ),
        NormalizationError::OutOfRange => String::from_str("Amount out of range"),
        NormalizationError::UnknownTimeInForce => String::from_str("Unknown time in force"),
    };
    failure(msg)
}

/// What a classified acknowledgement amounts to.
pub open spec fn order_ack_outcome(ack: OrderAck) -> (bool, Seq<char>, Option<u64>, Option<
    Seq<char>,
>, Option<Seq<char>>) {
    match ack {
        OrderAck::Rejected { reason } => (false, reason@, None, None, None),
        OrderAck::Accepted { statuses: None } => (false, "No response data"@, None, None, None),
        OrderAck::Accepted { statuses: Some(v) } => if v@.len() == 0 {
            (false, "No order status returned"@, None, None, None)
        } else {
            match v@[0] {
                OrderStatus::Filled { oid, total_size, avg_price } => (
                    true,
                    "Order filled successfully"@,
                    Some(oid),
                    Some(total_size@),
                    Some(avg_price@),
                ),
                OrderStatus::Resting { oid } => (
                    true,
                    "Order placed and resting in orderbook"@,
                    Some(oid),
                    None,
                    None,
                ),
                OrderStatus::Other { tag } => (
                    false,
                    "Unexpected order status: "@ + tag@,
                    None,
                    None,
                    None,
                ),
            }
        },
    }
}

/// Whether `r` holds exactly the outcome `o`.
pub open spec fn result_is(
    r: SwapResult,
    o: (bool, Seq<char>, Option<u64>, Option<Seq<char>>, Option<Seq<char>>),
) -> bool {
    &&& r.success == o.0
    &&& r.message@ == o.1
    &&& r.order_id == o.2
    &&& (match r.filled_size {
        Some(s) => o.3 == Some(s@),
        None => o.3 is None,
    })
    &&& (match r.avg_price {
        Some(s) => o.4 == Some(s@),
        None => o.4 is None,
    })
}

/// Turns the exchange's acknowledgement of an order into a result: the first
/// status decides; a fill reports its id, size and average price, a resting
/// order its id; anything else fails.
pub fn classify_order_ack(ack: &OrderAck) -> (r: SwapResult)
    ensures
        result_is(r, order_ack_outcome(*ack)),
{
    match ack {
        OrderAck::Rejected { reason } => failure(reason.clone()),
        OrderAck::Accepted { statuses: None } => failure(String::from_str("No response data")),
        OrderAck::Accepted { statuses: Some(v) } => {
            if v.len() == 0 {
                failure(String::from_str("No order status returned"))
            } else {
                match &v[0] {
                    OrderStatus::Filled { oid, total_size, avg_price } => SwapResult {
                        success: true,
                        message: String::from_str("Order filled successfully"),
                        order_id: Some(*oid),
                        filled_size: Some(total_size.clone()),
                        avg_price: Some(avg_price.clone()),
                    },
                    OrderStatus::Resting { oid } => SwapResult {
                        success: true,
                        message: String::from_str("Order placed and resting in orderbook"),
                        order_id: Some(*oid),
                        filled_size: None,
                        avg_price: None,
                    },
                    OrderStatus::Other { tag } => failure(
                        join("Unexpected order status: ", tag.as_str()),
                    ),
                }
            }
        },
    }
}

/// The message for the cancellation of `order_id`.
pub open spec fn cancel_text(order_id: u64, ack: CancelAck) -> Seq<char> {
    match ack {
        CancelAck::Accepted => "Order "@ + text_spec(order_id as nat, 0) + " cancelled successfully"@,
        CancelAck::Rejected { reason } => "Cancel failed: "@ + reason@,
    }
}

/// Turns the exchange's acknowledgement of a cancellation into a result that
/// names the order either way.
pub fn classify_cancel_ack(order_id: u64, ack: &CancelAck) -> (r: SwapResult)
    ensures
        r.success == (ack is Accepted),
        r.message@ == cancel_text(order_id, *ack),
        r.order_id == Some(order_id),
        r.filled_size is None,
        r.avg_price is None,
{
    match ack {
        CancelAck::Accepted => {
            let id = decimal_text(Decimal { units: order_id, scale: 0 });
            let head = join("Order ", id.as_str());
            let msg = head.concat(" cancelled successfully");
            SwapResult {
                success: true,
                message: msg,
                order_id: Some(order_id),
                filled_size: None,
                avg_price: None,
            }
        },
        CancelAck::Rejected { reason } => SwapResult {
            success: false,
            message: join("Cancel failed: ", reason.as_str()),
            order_id: Some(order_id),
            filled_size: None,
            avg_price: None,
        },
    }
}

/// A cancellation that failed before any acknowledgement still names the
/// order.
pub fn cancel_transport_failure(order_id: u64, detail: &str) -> (r: SwapResult)
    ensures
        !r.success,
        r.message@ == stage_prefix(FailureStage::Cancellation) + detail@,
        r.order_id == Some(order_id),
        r.filled_size is None,
        r.avg_price is None,
{
    let mut r = transport_failure(FailureStage::Cancellation, detail);
    r.order_id = Some(order_id);
    r
}

} // verus!
