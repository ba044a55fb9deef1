use vstd::prelude::*;
use crate::orders::OrderCollectionError;
use crate::products::ProductCollectionError;

verus! {

/// The kind of answer a request gets; each failure kind falls in one of
/// the four failure categories.
#[derive(Clone, Copy, Debug, PartialEq, Eq, Structural)]
pub enum ResponseCategory {
    Success,
    BadInput,
    NotFound,
    Conflict,
    ServerError,
}

/// The HTTP status code of a category.
pub open spec fn category_status(c: ResponseCategory) -> u16 {
    match c {
        ResponseCategory::Success => 200,
        ResponseCategory::BadInput => 400,
        ResponseCategory::NotFound => 404,
        ResponseCategory::Conflict => 409,
        ResponseCategory::ServerError => 500,
    }
}

/// The category of an order failure: a missing order is not found; a store
/// that cannot take more is a server error; the rest, an update that
/// changes nothing among them, are bad input.
pub open spec fn order_error_class(e: OrderCollectionError) -> ResponseCategory {
    match e {
        OrderCollectionError::OneOfProductsNotFound => ResponseCategory::BadInput,
        OrderCollectionError::OrderNotFound => ResponseCategory::NotFound,
        OrderCollectionError::OrderNotModified => ResponseCategory::BadInput,
        OrderCollectionError::InvalidInput => ResponseCategory::BadInput,
        OrderCollectionError::TotalOverflow => ResponseCategory::BadInput,
        OrderCollectionError::StoreUnavailable => ResponseCategory::ServerError,
    }
}

/// The category of a catalog failure: a taken name conflicts; a missing
/// product is not found; a store that cannot take more is a server error;
/// a negative price and an update that changes nothing are bad input.
pub open spec fn product_error_class(e: ProductCollectionError) -> ResponseCategory {
    match e {
        ProductCollectionError::ProductNameExists => ResponseCategory::Conflict,
        ProductCollectionError::ProductNotFound => ResponseCategory::NotFound,
        ProductCollectionError::ProductNotModified => ResponseCategory::BadInput,
        ProductCollectionError::InvalidInput => ResponseCategory::BadInput,
        ProductCollectionError::StoreUnavailable => ResponseCategory::ServerError,
    }
}

/// The message that reports an order failure.
pub open spec fn order_error_text(e: OrderCollectionError) -> Seq<char> {
    match e {
        OrderCollectionError::OneOfProductsNotFound => "One of products not found."@,
        OrderCollectionError::OrderNotFound => "Order not found."@,
        OrderCollectionError::OrderNotModified => "Order not modified."@,
        OrderCollectionError::InvalidInput => "Invalid order."@,
        OrderCollectionError::TotalOverflow => "Total price out of range."@,
        OrderCollectionError::StoreUnavailable => "Order store unavailable."@,
    }
}

/// The message that reports a catalog failure.
pub open spec fn product_error_text(e: ProductCollectionError) -> Seq<char> {
    match e {
        ProductCollectionError::ProductNameExists => "Product name already exist."@,
        ProductCollectionError::ProductNotFound => "Product not found."@,
        ProductCollectionError::ProductNotModified => "Product not modified."@,
        ProductCollectionError::InvalidInput => "Invalid product."@,
        ProductCollectionError::StoreUnavailable => "Product store unavailable."@,
    }
}

impl ResponseCategory {
    /// The HTTP status code of this category.
    pub fn status_code(self) -> (r: u16)
        ensures
            r == category_status(self),
    {
        match self {
            ResponseCategory::Success => 200,
            ResponseCategory::BadInput => 400,
            ResponseCategory::NotFound => 404,
            ResponseCategory::Conflict => 409,
            ResponseCategory::ServerError => 500,
        }
    }
}

/// The category of an order failure.
pub fn order_error_category(e: OrderCollectionError) -> (r: ResponseCategory)
    ensures
        r == order_error_class(e),
{
    match e {
        OrderCollectionError::OneOfProductsNotFound => ResponseCategory::BadInput,
        OrderCollectionError::OrderNotFound => ResponseCategory::NotFound,
        OrderCollectionError::OrderNotModified => ResponseCategory::BadInput,
        OrderCollectionError::InvalidInput => ResponseCategory::BadInput,
        OrderCollectionError::TotalOverflow => ResponseCategory::BadInput,
        OrderCollectionError::StoreUnavailable => ResponseCategory::ServerError,
    }
}

/// The category of a catalog failure.
pub fn product_error_category(e: ProductCollectionError) -> (r: ResponseCategory)
    ensures
        r == product_error_class(e),
{
    match e {
        ProductCollectionError::ProductNameExists => ResponseCategory::Conflict,
        ProductCollectionError::ProductNotFound => ResponseCategory::NotFound,
        ProductCollectionError::ProductNotModified => ResponseCategory::BadInput,
        ProductCollectionError::InvalidInput => ResponseCategory::BadInput,
        ProductCollectionError::StoreUnavailable => ResponseCategory::ServerError,
    }
}

/// The message that reports an order failure.
pub fn order_error_message(e: OrderCollectionError) -> (r: String)
    ensures
        r@ == order_error_text(e),
{
    match e {
        OrderCollectionError::OneOfProductsNotFound => String::from_str("One of products not found."),
        OrderCollectionError::OrderNotFound => String::from_str("Order not found."),
        OrderCollectionError::OrderNotModified => String::from_str("Order not modified."),
        OrderCollectionError::InvalidInput => String::from_str("Invalid order."),
        OrderCollectionError::TotalOverflow => String::from_str("Total price out of range."),
        OrderCollectionError::StoreUnavailable => String::from_str("Order store unavailable."),
    }
}

/// The message that reports a catalog failure.
pub fn product_error_message(e: ProductCollectionError) -> (r: String)
    ensures
        r@ == product_error_text(e),
{
    match e {
        ProductCollectionError::ProductNameExists => String::from_str("Product name already exist."),
        ProductCollectionError::ProductNotFound => String::from_str("Product not found."),
        ProductCollectionError::ProductNotModified => String::from_str("Product not modified."),
        ProductCollectionError::InvalidInput => String::from_str("Invalid product."),
        ProductCollectionError::StoreUnavailable => String::from_str("Product store unavailable."),
    }
}

} // verus!
