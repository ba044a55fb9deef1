use vstd::prelude::*;
use crate::keyed::Keyed;

verus! {

/// Classification of a catalog product. Only ready-made products can be
/// handed over without preparation.
#[derive(Clone, Copy, Debug, PartialEq, Eq, Structural)]
pub enum ProductKind {
    Food,
    Cocktail,
    ReadyMade,
    Other,
}

/// Fulfilment state of an order.
#[derive(Clone, Copy, Debug, PartialEq, Eq, Structural)]
pub enum OrderStatus {
    Pending,
    Completed,
    Cancelled,
}

/// Mathematical model of a line item: the referenced product's id text and
/// the ordered quantity.
pub struct LineItemModel {
    pub product_id: Seq<char>,
    pub quantity: i32,
}

/// One line of an order: a product reference and a quantity.
#[derive(Debug)]
pub struct ProductView {
    pub id: String,
    pub quantity: i32,
}

impl View for ProductView {
    type V = LineItemModel;

    open spec fn view(&self) -> LineItemModel {
        LineItemModel { product_id: self.id@, quantity: self.quantity }
    }
}

impl ProductView {
    /// A copy of this line item.
    pub fn duplicate(&self) -> (r: ProductView)
        ensures
            r@ == self@,
    {
        ProductView { id: self.id.clone(), quantity: self.quantity }
    }
}

/// Mathematical model of a catalog product. Prices are in cents.
pub struct ProductModel {
    pub id: u64,
    pub name: Seq<char>,
    pub price: i64,
    pub kind: ProductKind,
}

/// A catalog entry. `id` is the serial the catalog assigned; `price` is in
/// cents.
#[derive(Debug)]
pub struct Product {
    pub id: u64,
    pub name: String,
    pub price: i64,
    pub kind: ProductKind,
}

impl View for Product {
    type V = ProductModel;

    open spec fn view(&self) -> ProductModel {
        ProductModel { id: self.id, name: self.name@, price: self.price, kind: self.kind }
    }
}

impl Keyed for Product {
    open spec fn key_spec(&self) -> u64 {
        self.id
    }

    fn key(&self) -> (r: u64) {
        self.id
    }
}

impl Product {
    /// A copy of this product.
    pub fn duplicate(&self) -> (r: Product)
        ensures
            r@ == self@,
    {
        Product { id: self.id, name: self.name.clone(), price: self.price, kind: self.kind }
    }
}

/// Mathematical model of an order.
pub struct OrderModel {
    pub id: u64,
    pub products: Seq<LineItemModel>,
    pub total_price: i64,
    pub status: OrderStatus,
    pub created_at: i64,
    pub updated_at: i64,
}

/// The models of a sequence of line items.
pub open spec fn line_item_models(items: Seq<ProductView>) -> Seq<LineItemModel> {
    items.map_values(|p: ProductView| p@)
}

/// A stored order. `total_price` is in cents; the two timestamps are
/// milliseconds since the Unix epoch.
#[derive(Debug)]
pub struct Order {
    pub id: u64,
    pub products: Vec<ProductView>,
    pub total_price: i64,
    pub status: OrderStatus,
    pub created_at: i64,
    pub updated_at: i64,
}

impl View for Order {
    type V = OrderModel;

    open spec fn view(&self) -> OrderModel {
        OrderModel {
            id: self.id,
            products: line_item_models(self.products@),
            total_price: self.total_price,
            status: self.status,
            created_at: self.created_at,
            updated_at: self.updated_at,
        }
    }
}

/// A copy of a list of line items.
pub fn duplicate_line_items(items: &Vec<ProductView>) -> (r: Vec<ProductView>)
    ensures
        line_item_models(r@) == line_item_models(items@),
{
    let mut r: Vec<ProductView> = Vec::new();
    let mut i: usize = 0;
    while i < items.len()
        invariant
            i <= items@.len(),
            r@.len() == i,
            forall|j: int| 0 <= j < i ==> (#[trigger] r@[j])@ == items@[j]@,
        decreases items@.len() - i,
    {
        r.push(items[i].duplicate());
        i += 1;
    }
    assert(line_item_models(r@) =~= line_item_models(items@));
    r
}

impl Keyed for Order {
    open spec fn key_spec(&self) -> u64 {
        self.id
    }

    fn key(&self) -> (r: u64) {
        self.id
    }
}

impl Order {
    /// A copy of this order.
    pub fn duplicate(&self) -> (r: Order)
        ensures
            r@ == self@,
    {
        Order {
            id: self.id,
            products: duplicate_line_items(&self.products),
            total_price: self.total_price,
            status: self.status,
            created_at: self.created_at,
            updated_at: self.updated_at,
        }
    }
}

/// Paging of a product listing. A missing offset is 0; a missing or zero
/// limit means no limit.
#[derive(Debug)]
pub struct ProductListQuery {
    pub offset: Option<u64>,
    pub limit: Option<i64>,
}

/// Paging of an order listing. A missing offset is 0; a missing or zero
/// limit means no limit.
#[derive(Debug)]
pub struct OrderListQuery {
    pub offset: Option<u64>,
    pub limit: Option<i64>,
}

/// The fields of a new catalog product; `price` is in cents.
#[derive(Debug)]
pub struct ProductCreateRequest {
    pub name: String,
    pub price: i64,
    pub kind: ProductKind,
}

/// The fields of a product to change; `None` leaves a field as it is.
#[derive(Debug)]
pub struct ProductUpdateRequest {
    pub name: Option<String>,
    pub price: Option<i64>,
    pub kind: Option<ProductKind>,
}

/// The line items of a new order.
#[derive(Debug)]
pub struct OrderCreateRequest {
    pub products: Vec<ProductView>,
}

/// The status an order is to take.
#[derive(Debug)]
pub struct OrderUpdateRequest {
    pub status: OrderStatus,
}

/// The bounds `(start, end)` of the records that a listing selects from
/// `len` records: skip `offset` of them, then take at most `|limit|`, or all
/// that are left where `limit` is zero.
pub open spec fn window_range(len: int, offset: u64, limit: i64) -> (int, int) {
    let start: int = if offset >= len { len } else { offset as int };
    let want: int = if limit < 0 { -limit } else { limit as int };
    let end: int = if limit == 0 || start + want >= len { len } else { start + want };
    (start, end)
}

/// The records that a listing with `offset` and `limit` returns.
pub open spec fn window<T>(s: Seq<T>, offset: u64, limit: i64) -> Seq<T> {
    let (start, end) = window_range(s.len() as int, offset, limit);
    s.subrange(start, end)
}

/// Computes `window_range`.
pub fn window_bounds(len: usize, offset: u64, limit: i64) -> (r: (usize, usize))
    ensures
        (r.0 as int, r.1 as int) == window_range(len as int, offset, limit),
        r.0 <= r.1 <= len,
{
    let start: usize = if offset >= len as u64 { len } else { offset as usize };
    let want: u64 = if limit < 0 {
        if limit == i64::MIN { 0x8000_0000_0000_0000u64 } else { (0 - limit) as u64 }
    } else {
        limit as u64
    };
    let rest: usize = len - start;
    let end: usize = if limit == 0 || want >= rest as u64 { len } else { start + want as usize };
    (start, end)
}

} // verus!
