use kitchen_manager::ids::record_id_text;
use kitchen_manager::model::{ProductCreateRequest, ProductKind, ProductUpdateRequest};
use kitchen_manager::products::{ProductCollection, ProductCollectionError};

fn request(name: &str, price: i64, kind: ProductKind) -> ProductCreateRequest {
    ProductCreateRequest { name: name.to_string(), price, kind }
}

fn no_change() -> ProductUpdateRequest {
    ProductUpdateRequest { name: None, price: None, kind: None }
}

#[test]
fn create_assigns_fresh_ids() {
    let mut c = ProductCollection::init();
    let a = c.create(request("Soup", 450, ProductKind::Food)).unwrap();
    let b = c.create(request("Mojito", 800, ProductKind::Cocktail)).unwrap();
    assert_ne!(a, b);
    assert_eq!(c.len(), 2);
    let p = c.get(&record_id_text(b)).unwrap();
    assert_eq!(p.name, "Mojito");
    assert_eq!(p.price, 800);
    assert_eq!(p.kind, ProductKind::Cocktail);
    assert_eq!(p.id, b);
}

#[test]
fn duplicate_name_is_refused_without_overwrite() {
    let mut c = ProductCollection::init();
    let a = c.create(request("Soup", 450, ProductKind::Food)).unwrap();
    let r = c.create(request("Soup", 999, ProductKind::Other));
    assert_eq!(r, Err(ProductCollectionError::ProductNameExists));
    assert_eq!(c.len(), 1);
    let p = c.get(&record_id_text(a)).unwrap();
    assert_eq!(p.price, 450);
    assert_eq!(p.kind, ProductKind::Food);
}

#[test]
fn duplicate_name_wins_over_negative_price() {
    let mut c = ProductCollection::init();
    c.create(request("Soup", 450, ProductKind::Food)).unwrap();
    assert_eq!(
        c.create(request("Soup", -1, ProductKind::Food)),
        Err(ProductCollectionError::ProductNameExists)
    );
}

#[test]
fn negative_price_is_refused() {
    let mut c = ProductCollection::init();
    assert_eq!(
        c.create(request("Soup", -5, ProductKind::Food)),
        Err(ProductCollectionError::InvalidInput)
    );
    assert_eq!(c.len(), 0);
    assert!(c.create(request("Water", 0, ProductKind::ReadyMade)).is_ok());
}

#[test]
fn name_existence() {
    let mut c = ProductCollection::init();
    assert!(!c.is_name_exist(&"Soup".to_string()));
    c.create(request("Soup", 450, ProductKind::Food)).unwrap();
    assert!(c.is_name_exist(&"Soup".to_string()));
    assert!(!c.is_name_exist(&"soup".to_string()));
}

#[test]
fn get_unknown_product() {
    let mut c = ProductCollection::init();
    c.create(request("Soup", 450, ProductKind::Food)).unwrap();
    assert_eq!(c.get(&record_id_text(7)).unwrap_err(), ProductCollectionError::ProductNotFound);
    assert_eq!(c.get("not an id").unwrap_err(), ProductCollectionError::ProductNotFound);
}

#[test]
fn update_changes_given_fields() {
    let mut c = ProductCollection::init();
    let a = c.create(request("Soup", 450, ProductKind::Food)).unwrap();
    let id = record_id_text(a);
    let r = c.update(&id, ProductUpdateRequest { name: None, price: Some(500), kind: None });
    assert_eq!(r, Ok(1));
    let p = c.get(&id).unwrap();
    assert_eq!(p.name, "Soup");
    assert_eq!(p.price, 500);
    assert_eq!(p.kind, ProductKind::Food);
    let r = c.update(
        &id,
        ProductUpdateRequest { name: Some("Broth".to_string()), price: None, kind: Some(ProductKind::Other) },
    );
    assert_eq!(r, Ok(1));
    let p = c.get(&id).unwrap();
    assert_eq!(p.name, "Broth");
    assert_eq!(p.kind, ProductKind::Other);
}

#[test]
fn update_errors() {
    let mut c = ProductCollection::init();
    let a = c.create(request("Soup", 450, ProductKind::Food)).unwrap();
    c.create(request("Tea", 200, ProductKind::ReadyMade)).unwrap();
    let id = record_id_text(a);
    assert_eq!(c.update(&record_id_text(99), no_change()), Err(ProductCollectionError::ProductNotFound));
    assert_eq!(c.update(&id, no_change()), Err(ProductCollectionError::ProductNotModified));
    assert_eq!(
        c.update(&id, ProductUpdateRequest { name: Some("Soup".to_string()), price: Some(450), kind: None }),
        Err(ProductCollectionError::ProductNotModified)
    );
    assert_eq!(
        c.update(&id, ProductUpdateRequest { name: None, price: Some(-1), kind: None }),
        Err(ProductCollectionError::InvalidInput)
    );
    assert_eq!(
        c.update(&id, ProductUpdateRequest { name: Some("Tea".to_string()), price: None, kind: None }),
        Err(ProductCollectionError::ProductNameExists)
    );
    assert_eq!(c.get(&id).unwrap().name, "Soup");
}

#[test]
fn delete_product() {
    let mut c = ProductCollection::init();
    let a = c.create(request("Soup", 450, ProductKind::Food)).unwrap();
    let id = record_id_text(a);
    assert_eq!(c.delete(&id), Ok(1));
    assert_eq!(c.len(), 0);
    assert_eq!(c.delete(&id), Err(ProductCollectionError::ProductNotFound));
    let b = c.create(request("Soup", 450, ProductKind::Food)).unwrap();
    assert_ne!(a, b);
}

#[test]
fn list_products_window() {
    let mut c = ProductCollection::init();
    for (i, name) in ["A", "B", "C", "D", "E"].iter().enumerate() {
        c.create(request(name, i as i64 * 100, ProductKind::Food)).unwrap();
    }
    let names = |v: Vec<kitchen_manager::model::Product>| v.into_iter().map(|p| p.name).collect::<Vec<_>>();
    assert_eq!(names(c.list(0, 0)), vec!["A", "B", "C", "D", "E"]);
    assert_eq!(names(c.list(1, 2)), vec!["B", "C"]);
    assert_eq!(names(c.list(3, 10)), vec!["D", "E"]);
    assert_eq!(names(c.list(2, -2)), vec!["C", "D"]);
    assert_eq!(names(c.list(5, 0)), Vec::<String>::new());
    assert_eq!(names(c.list(u64::MAX, 1)), Vec::<String>::new());
    assert_eq!(names(c.list(4, i64::MIN)), vec!["E"]);
}
