use kitchen_manager::aggregate::{forces_pending, price_order};
use kitchen_manager::database::Database;
use kitchen_manager::ids::record_id_text;
use kitchen_manager::model::{
    OrderCreateRequest, OrderStatus, OrderUpdateRequest, ProductCreateRequest, ProductKind, ProductView,
};
use kitchen_manager::orders::{OrderCollection, OrderCollectionError};
use kitchen_manager::products::ProductCollection;

fn add(c: &mut ProductCollection, name: &str, price: i64, kind: ProductKind) -> String {
    record_id_text(c.create(ProductCreateRequest { name: name.to_string(), price, kind }).unwrap())
}

fn line(id: &str, quantity: i32) -> ProductView {
    ProductView { id: id.to_string(), quantity }
}

fn order(lines: Vec<ProductView>) -> OrderCreateRequest {
    OrderCreateRequest { products: lines }
}

#[test]
fn ready_made_and_food_order_is_pending() {
    let mut c = ProductCollection::init();
    let a = add(&mut c, "A", 500, ProductKind::ReadyMade);
    let b = add(&mut c, "B", 300, ProductKind::Food);
    let mut o = OrderCollection::init();
    let id = o.create(order(vec![line(&a, 2), line(&b, 1)]), &c).unwrap();
    let got = o.get(&record_id_text(id)).unwrap();
    assert_eq!(got.total_price, 1300);
    assert_eq!(got.status, OrderStatus::Pending);
}

#[test]
fn ready_made_only_order_is_completed() {
    let mut c = ProductCollection::init();
    let a = add(&mut c, "A", 500, ProductKind::ReadyMade);
    let mut o = OrderCollection::init();
    let id = o.create(order(vec![line(&a, 3)]), &c).unwrap();
    let got = o.get(&record_id_text(id)).unwrap();
    assert_eq!(got.total_price, 1500);
    assert_eq!(got.status, OrderStatus::Completed);
}

#[test]
fn unknown_product_creates_no_order() {
    let mut c = ProductCollection::init();
    add(&mut c, "A", 500, ProductKind::ReadyMade);
    let mut o = OrderCollection::init();
    let r = o.create(order(vec![line(&record_id_text(77), 1)]), &c);
    assert_eq!(r, Err(OrderCollectionError::OneOfProductsNotFound));
    assert_eq!(o.len(), 0);
    assert!(o.list(0, 0).is_empty());
}

#[test]
fn unknown_product_reported_before_bad_quantity() {
    let mut c = ProductCollection::init();
    let a = add(&mut c, "A", 500, ProductKind::ReadyMade);
    let mut o = OrderCollection::init();
    let r = o.create(order(vec![line(&a, 0), line("bogus", 1)]), &c);
    assert_eq!(r, Err(OrderCollectionError::OneOfProductsNotFound));
    assert_eq!(o.len(), 0);
}

#[test]
fn total_is_sum_of_price_times_quantity() {
    let mut c = ProductCollection::init();
    let a = add(&mut c, "A", 250, ProductKind::ReadyMade);
    let b = add(&mut c, "B", 1199, ProductKind::Cocktail);
    let d = add(&mut c, "D", 75, ProductKind::Other);
    let items = vec![line(&a, 4), line(&b, 3), line(&d, 1), line(&a, 1)];
    assert_eq!(price_order(&items, &c), Ok((250 * 4 + 1199 * 3 + 75 + 250, OrderStatus::Pending)));
    let items = vec![line(&a, 4), line(&a, 1)];
    assert_eq!(price_order(&items, &c), Ok((1250, OrderStatus::Completed)));
}

#[test]
fn each_non_ready_made_kind_forces_pending() {
    assert!(forces_pending(ProductKind::Food));
    assert!(forces_pending(ProductKind::Cocktail));
    assert!(forces_pending(ProductKind::Other));
    assert!(!forces_pending(ProductKind::ReadyMade));
}

#[test]
fn empty_order_is_invalid() {
    let c = ProductCollection::init();
    let mut o = OrderCollection::init();
    assert_eq!(o.create(order(vec![]), &c), Err(OrderCollectionError::InvalidInput));
    assert_eq!(o.len(), 0);
}

#[test]
fn non_positive_quantity_is_invalid() {
    let mut c = ProductCollection::init();
    let a = add(&mut c, "A", 500, ProductKind::ReadyMade);
    let mut o = OrderCollection::init();
    assert_eq!(o.create(order(vec![line(&a, 0)]), &c), Err(OrderCollectionError::InvalidInput));
    assert_eq!(o.create(order(vec![line(&a, 1), line(&a, -2)]), &c), Err(OrderCollectionError::InvalidInput));
    assert_eq!(o.len(), 0);
}

#[test]
fn total_beyond_range_is_refused() {
    let mut c = ProductCollection::init();
    let a = add(&mut c, "A", i64::MAX / 2, ProductKind::Food);
    let mut o = OrderCollection::init();
    assert_eq!(o.create(order(vec![line(&a, 3)]), &c), Err(OrderCollectionError::TotalOverflow));
    assert_eq!(o.create(order(vec![line(&a, 2), line(&a, 1)]), &c), Err(OrderCollectionError::TotalOverflow));
    assert!(o.create(order(vec![line(&a, 2)]), &c).is_ok());
}

#[test]
fn created_order_is_fixed() {
    let mut c = ProductCollection::init();
    let a = add(&mut c, "A", 500, ProductKind::Food);
    let mut o = OrderCollection::init();
    let id = o.create_at(order(vec![line(&a, 2)]), &c, 1_000).unwrap();
    let text = record_id_text(id);
    let first = o.get(&text).unwrap();
    let second = o.get(&text).unwrap();
    assert_eq!(first.total_price, second.total_price);
    assert_eq!(first.status, second.status);
    assert_eq!(first.products.len(), second.products.len());
    assert_eq!(first.products[0].id, second.products[0].id);
    assert_eq!(first.products[0].quantity, 2);
    assert_eq!(first.created_at, 1_000);
    assert_eq!(first.updated_at, 1_000);
    c.update(&a, kitchen_manager::model::ProductUpdateRequest { name: None, price: Some(9_00), kind: None })
        .unwrap();
    assert_eq!(o.update_at(&text, OrderUpdateRequest { status: OrderStatus::Completed }, 2_000), Ok(1));
    let third = o.get(&text).unwrap();
    assert_eq!(third.total_price, 1000);
    assert_eq!(third.products[0].id, a);
    assert_eq!(third.created_at, 1_000);
}

#[test]
fn status_update_same_status_not_modified() {
    let mut c = ProductCollection::init();
    let a = add(&mut c, "A", 500, ProductKind::Food);
    let mut o = OrderCollection::init();
    let text = record_id_text(o.create_at(order(vec![line(&a, 1)]), &c, 10).unwrap());
    let r = o.update_at(&text, OrderUpdateRequest { status: OrderStatus::Pending }, 20);
    assert_eq!(r, Err(OrderCollectionError::OrderNotModified));
    assert_eq!(o.get(&text).unwrap().updated_at, 10);
}

#[test]
fn status_update_new_status_advances_stamp() {
    let mut c = ProductCollection::init();
    let a = add(&mut c, "A", 500, ProductKind::Food);
    let mut o = OrderCollection::init();
    let text = record_id_text(o.create_at(order(vec![line(&a, 1)]), &c, 10).unwrap());
    assert_eq!(o.update_at(&text, OrderUpdateRequest { status: OrderStatus::Completed }, 20), Ok(1));
    let got = o.get(&text).unwrap();
    assert_eq!(got.status, OrderStatus::Completed);
    assert_eq!(got.updated_at, 20);
    assert_eq!(o.update_at(&text, OrderUpdateRequest { status: OrderStatus::Cancelled }, 5), Ok(1));
    let got = o.get(&text).unwrap();
    assert_eq!(got.status, OrderStatus::Cancelled);
    assert_eq!(got.updated_at, 21);
    assert_eq!(got.created_at, 10);
}

#[test]
fn status_update_with_clock() {
    let mut c = ProductCollection::init();
    let a = add(&mut c, "A", 500, ProductKind::Food);
    let mut o = OrderCollection::init();
    let text = record_id_text(o.create(order(vec![line(&a, 1)]), &c).unwrap());
    let before = o.get(&text).unwrap();
    assert_eq!(before.created_at, before.updated_at);
    assert!(before.created_at > 1_600_000_000_000);
    assert_eq!(o.update(&text, OrderUpdateRequest { status: OrderStatus::Completed }), Ok(1));
    let after = o.get(&text).unwrap();
    assert!(after.updated_at > before.updated_at);
}

#[test]
fn status_update_unknown_order() {
    let mut o = OrderCollection::init();
    let r = o.update_at(&record_id_text(3), OrderUpdateRequest { status: OrderStatus::Completed }, 1);
    assert_eq!(r, Err(OrderCollectionError::OrderNotFound));
    assert_eq!(o.get("xyz").unwrap_err(), OrderCollectionError::OrderNotFound);
}

#[test]
fn delete_order() {
    let mut c = ProductCollection::init();
    let a = add(&mut c, "A", 500, ProductKind::Food);
    let mut o = OrderCollection::init();
    let first = record_id_text(o.create_at(order(vec![line(&a, 1)]), &c, 1).unwrap());
    let second = record_id_text(o.create_at(order(vec![line(&a, 2)]), &c, 2).unwrap());
    assert_eq!(o.delete(&first), Ok(1));
    assert_eq!(o.delete(&first), Err(OrderCollectionError::OrderNotFound));
    assert_eq!(o.len(), 1);
    assert_eq!(o.get(&second).unwrap().total_price, 1000);
}

#[test]
fn list_orders_in_insertion_order() {
    let mut c = ProductCollection::init();
    let a = add(&mut c, "A", 100, ProductKind::ReadyMade);
    let mut o = OrderCollection::init();
    for q in 1..=4 {
        o.create_at(order(vec![line(&a, q)]), &c, q as i64).unwrap();
    }
    let totals = |v: Vec<kitchen_manager::model::Order>| v.into_iter().map(|x| x.total_price).collect::<Vec<_>>();
    assert_eq!(totals(o.list(0, 0)), vec![100, 200, 300, 400]);
    assert_eq!(totals(o.list(1, 2)), vec![200, 300]);
    assert_eq!(totals(o.list(3, 0)), vec![400]);
    assert_eq!(totals(o.list(9, 0)), Vec::<i64>::new());
}

#[test]
fn database_creates_orders_against_its_catalog() {
    let mut db = Database::init();
    let a = add(&mut db.collection_products, "A", 500, ProductKind::ReadyMade);
    let id = db.create_order(order(vec![line(&a, 3)])).unwrap();
    let got = db.orders().get(&record_id_text(id)).unwrap();
    assert_eq!(got.total_price, 1500);
    assert_eq!(got.status, OrderStatus::Completed);
    assert_eq!(db.products().len(), 1);
    assert_eq!(db.create_order(order(vec![line("nope", 1)])), Err(OrderCollectionError::OneOfProductsNotFound));
    assert_eq!(db.orders().len(), 1);
}
