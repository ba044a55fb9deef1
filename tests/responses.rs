use kitchen_manager::model::window_bounds;
use kitchen_manager::orders::OrderCollectionError;
use kitchen_manager::products::ProductCollectionError;
use kitchen_manager::responses::{
    order_error_category, order_error_message, product_error_category, product_error_message,
    ResponseCategory,
};

#[test]
fn category_status_codes() {
    assert_eq!(ResponseCategory::Success.status_code(), 200);
    assert_eq!(ResponseCategory::BadInput.status_code(), 400);
    assert_eq!(ResponseCategory::NotFound.status_code(), 404);
    assert_eq!(ResponseCategory::Conflict.status_code(), 409);
    assert_eq!(ResponseCategory::ServerError.status_code(), 500);
}

#[test]
fn order_errors_map_to_categories() {
    assert_eq!(order_error_category(OrderCollectionError::OneOfProductsNotFound), ResponseCategory::BadInput);
    assert_eq!(order_error_category(OrderCollectionError::OrderNotFound), ResponseCategory::NotFound);
    assert_eq!(order_error_category(OrderCollectionError::OrderNotModified), ResponseCategory::BadInput);
    assert_eq!(order_error_category(OrderCollectionError::InvalidInput), ResponseCategory::BadInput);
    assert_eq!(order_error_category(OrderCollectionError::TotalOverflow), ResponseCategory::BadInput);
    assert_eq!(order_error_category(OrderCollectionError::StoreUnavailable), ResponseCategory::ServerError);
}

#[test]
fn product_errors_map_to_categories() {
    assert_eq!(product_error_category(ProductCollectionError::ProductNameExists), ResponseCategory::Conflict);
    assert_eq!(product_error_category(ProductCollectionError::ProductNotFound), ResponseCategory::NotFound);
    assert_eq!(product_error_category(ProductCollectionError::ProductNotModified), ResponseCategory::BadInput);
    assert_eq!(product_error_category(ProductCollectionError::InvalidInput), ResponseCategory::BadInput);
    assert_eq!(product_error_category(ProductCollectionError::StoreUnavailable), ResponseCategory::ServerError);
}

#[test]
fn error_messages() {
    assert_eq!(order_error_message(OrderCollectionError::OneOfProductsNotFound), "One of products not found.");
    assert_eq!(order_error_message(OrderCollectionError::OrderNotFound), "Order not found.");
    assert_eq!(order_error_message(OrderCollectionError::OrderNotModified), "Order not modified.");
    assert_eq!(product_error_message(ProductCollectionError::ProductNameExists), "Product name already exist.");
    assert_eq!(product_error_message(ProductCollectionError::ProductNotFound), "Product not found.");
    assert_eq!(product_error_message(ProductCollectionError::ProductNotModified), "Product not modified.");
}

#[test]
fn listing_bounds() {
    assert_eq!(window_bounds(5, 0, 0), (0, 5));
    assert_eq!(window_bounds(5, 2, 2), (2, 4));
    assert_eq!(window_bounds(5, 2, -2), (2, 4));
    assert_eq!(window_bounds(5, 4, 9), (4, 5));
    assert_eq!(window_bounds(5, 7, 1), (5, 5));
    assert_eq!(window_bounds(0, 0, 0), (0, 0));
    assert_eq!(window_bounds(3, 0, i64::MIN), (0, 3));
}
