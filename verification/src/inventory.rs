//! Stock movement rules: the checks a sale or purchase must pass and
//! the new quantity each produces. Persistence of the result is the
//! caller's concern.

use vstd::prelude::*;

verus! {

/// Why a stock movement was refused.
#[derive(Clone, Copy, PartialEq, Eq, Structural, Debug)]
pub enum StockError {
    /// The requested quantity was zero or negative.
    NonPositiveQuantity,
    /// A sale asked for more units than are on hand.
    InsufficientStock,
}

/// The quantity on hand after selling `quantity` units from `stock`:
/// the quantity must be positive and covered by the stock, and the
/// stock shrinks by exactly that amount.
pub fn apply_sale(stock: i64, quantity: i64) -> (r: Result<i64, StockError>)
    ensures
        quantity <= 0 ==> r == Err::<i64, StockError>(StockError::NonPositiveQuantity),
        quantity > 0 && stock < quantity ==> r == Err::<i64, StockError>(
            StockError::InsufficientStock,
        ),
        quantity > 0 && stock >= quantity ==> r == Ok::<i64, StockError>((stock - quantity) as i64),
{
    if quantity <= 0 {
        Err(StockError::NonPositiveQuantity)
    } else if stock < quantity {
        Err(StockError::InsufficientStock)
    } else {
        Ok(stock - quantity)
    }
}

/// The quantity on hand after buying `quantity` units into `stock`:
/// the quantity must be positive, and the stock grows by exactly that
/// amount. The caller keeps the sum within range.
pub fn apply_purchase(stock: i64, quantity: i64) -> (r: Result<i64, StockError>)
    requires
        quantity <= 0 || stock + quantity <= i64::MAX,
    ensures
        quantity <= 0 ==> r == Err::<i64, StockError>(StockError::NonPositiveQuantity),
        quantity > 0 ==> r == Ok::<i64, StockError>((stock + quantity) as i64),
{
    if quantity <= 0 {
        Err(StockError::NonPositiveQuantity)
    } else {
        Ok(stock + quantity)
    }
}

} // verus!
