use vstd::prelude::*;
use crate::keyed::{key_index, keys_of, last_position, lemma_key_index_bounds};
use crate::aggregate::{
    all_resolved, lemma_valid_order_pricing, order_pricing, order_total, price_order,
    quantities_positive,
};
use crate::products::resolve_product;
use crate::clock::now_millis;
use crate::ids::{id_of_text, parse_record_id};
use crate::model::{
    duplicate_line_items, line_item_models, window, window_bounds, LineItemModel, Order,
    OrderCreateRequest, OrderModel, OrderStatus, OrderUpdateRequest, ProductKind, ProductModel,
};
use crate::products::ProductCollection;

verus! {

/// Why an order operation did not take effect.
#[derive(Clone, Copy, Debug, PartialEq, Eq, Structural)]
pub enum OrderCollectionError {
    /// A line item refers to a product that does not exist.
    OneOfProductsNotFound,
    /// No order has the given id.
    OrderNotFound,
    /// The order was found, but already has the requested status.
    OrderNotModified,
    /// The request is malformed: no line items, or a quantity below one.
    InvalidInput,
    /// The total price does not fit in an `i64` number of cents.
    TotalOverflow,
    /// The order book cannot assign another id.
    StoreUnavailable,
}

/// The ids of a sequence of orders, in order.
pub open spec fn order_ids(s: Seq<OrderModel>) -> Seq<u64> {
    s.map_values(|x: OrderModel| x.id)
}

/// Position of the last order with serial `id` in `s`, or -1 if none has it.
pub open spec fn order_index(s: Seq<OrderModel>, id: u64) -> int {
    key_index(order_ids(s), id)
}

/// The order with serial `id`, if any.
pub open spec fn find_order(s: Seq<OrderModel>, id: u64) -> Option<OrderModel> {
    let i = order_index(s, id);
    if i >= 0 {
        Some(s[i])
    } else {
        None
    }
}

/// The order that an id text refers to, if any.
pub open spec fn resolve_order(s: Seq<OrderModel>, text: Seq<char>) -> Option<OrderModel> {
    match id_of_text(text) {
        Some(id) => find_order(s, id),
        None => None,
    }
}

/// Whether `after` is `before` with one new order, with id `id`, for these
/// line items, priced against `catalog` and stamped with `now`.
pub open spec fn order_added(
    before: Seq<OrderModel>,
    after: Seq<OrderModel>,
    items: Seq<LineItemModel>,
    catalog: Seq<ProductModel>,
    now: i64,
    id: u64,
) -> bool {
    &&& order_pricing(items, catalog) is Ok
    &&& find_order(before, id) is None
    &&& after == before.push(
        OrderModel {
            id,
            products: items,
            total_price: order_pricing(items, catalog)->Ok_0.0,
            status: order_pricing(items, catalog)->Ok_0.1,
            created_at: now,
            updated_at: now,
        },
    )
}

/// The update time an order takes when it changes at time `now`: `now`,
/// unless that is not later than the previous stamp `prev`, in which case
/// one millisecond past `prev` (where that fits), so that stamps advance.
pub open spec fn refreshed_stamp(prev: i64, now: i64) -> i64 {
    if now > prev {
        now
    } else if prev < i64::MAX {
        (prev + 1) as i64
    } else {
        prev
    }
}

/// `o` with a new status and update time.
pub open spec fn with_status(o: OrderModel, status: OrderStatus, now: i64) -> OrderModel {
    OrderModel {
        id: o.id,
        products: o.products,
        total_price: o.total_price,
        status,
        created_at: o.created_at,
        updated_at: refreshed_stamp(o.updated_at, now),
    }
}

/// What setting the status of the order that `req_id` names returns, and
/// the orders after it.
pub open spec fn order_update_outcome(
    s: Seq<OrderModel>,
    req_id: Seq<char>,
    status: OrderStatus,
    now: i64,
) -> (Result<u64, OrderCollectionError>, Seq<OrderModel>) {
    match resolve_order(s, req_id) {
        None => (Err(OrderCollectionError::OrderNotFound), s),
        Some(o) => if o.status == status {
            (Err(OrderCollectionError::OrderNotModified), s)
        } else {
            (Ok(1), s.update(order_index(s, o.id), with_status(o, status, now)))
        },
    }
}

/// What deleting the order that `req_id` names returns, and the orders
/// after it.
pub open spec fn order_delete_outcome(s: Seq<OrderModel>, req_id: Seq<char>) -> (
    Result<u64, OrderCollectionError>,
    Seq<OrderModel>,
) {
    match resolve_order(s, req_id) {
        None => (Err(OrderCollectionError::OrderNotFound), s),
        Some(o) => (Ok(1), s.remove(order_index(s, o.id))),
    }
}

/// Where `order_index` points, and that -1 means no order has the id.
pub proof fn lemma_order_index_bounds(s: Seq<OrderModel>, id: u64)
    ensures
        -1 <= order_index(s, id) < s.len(),
        order_index(s, id) >= 0 ==> s[order_index(s, id)].id == id,
        order_index(s, id) == -1 ==> forall|j: int| 0 <= j < s.len() ==> (#[trigger] s[j]).id != id,
{
    lemma_key_index_bounds(order_ids(s), id);
    if order_index(s, id) >= 0 {
        assert(order_ids(s)[order_index(s, id)] == s[order_index(s, id)].id);
    } else {
        assert forall|j: int| 0 <= j < s.len() implies (#[trigger] s[j]).id != id by {
            assert(order_ids(s)[j] == s[j].id);
        }
    }
}

/// The order book: orders in insertion order, with distinct ids.
pub struct OrderCollection {
    orders: Vec<Order>,
    next_id: u64,
}

impl View for OrderCollection {
    type V = Seq<OrderModel>;

    closed spec fn view(&self) -> Seq<OrderModel> {
        self.orders@.map_values(|o: Order| o@)
    }
}

impl OrderCollection {
    /// The order book's invariant: ids are unique and lie below the next one
    /// to be assigned.
    pub closed spec fn wf(&self) -> bool {
        &&& forall|i: int, j: int|
            0 <= i < j < self@.len() ==> #[trigger] self@[i].id != #[trigger] self@[j].id
        &&& forall|i: int| 0 <= i < self@.len() ==> (#[trigger] self@[i]).id < self.next_id
    }

    /// The id the next order added will get.
    pub closed spec fn next_serial(&self) -> u64 {
        self.next_id
    }

    /// Whether every id has been handed out, so that no order can be added.
    pub open spec fn exhausted(&self) -> bool {
        self.next_serial() == u64::MAX
    }

    /// An empty order book.
    pub fn init() -> (r: OrderCollection)
        ensures
            r.wf(),
            r@ == Seq::<OrderModel>::empty(),
            r.next_serial() == 0,
    {
        let r = OrderCollection { orders: Vec::new(), next_id: 0 };
        assert(r@ =~= Seq::<OrderModel>::empty());
        r
    }

    /// The number of orders.
    pub fn len(&self) -> (r: usize)
        ensures
            r == self@.len(),
    {
        self.orders.len()
    }

    /// Position of the order with serial `id`.
    fn position(&self, id: u64) -> (r: Option<usize>)
        ensures
            match r {
                Some(i) => i as int == order_index(self@, id) && i < self@.len(),
                None => order_index(self@, id) == -1,
            },
    {
        assert(keys_of(self.orders@) =~= order_ids(self@));
        last_position(&self.orders, id)
    }

    /// Creates an order for the line items of `content`, priced against the
    /// catalog, stamped with `now`, and returns its id. Nothing is stored
    /// when the order is refused.
    pub fn create_at(
        &mut self,
        content: OrderCreateRequest,
        collection_products: &ProductCollection,
        now: i64,
    ) -> (r: Result<u64, OrderCollectionError>)
        requires
            old(self).wf(),
            collection_products.wf(),
        ensures
            final(self).wf(),
            match order_pricing(line_item_models(content.products@), collection_products@) {
                Err(e) => r == Err::<u64, OrderCollectionError>(e),
                Ok(_) => if old(self).exhausted() {
                    r == Err::<u64, OrderCollectionError>(OrderCollectionError::StoreUnavailable)
                } else {
                    r is Ok
                },
            },
            r is Err ==> *final(self) == *old(self),
            r matches Ok(id) ==> id == old(self).next_serial() && final(self).next_serial() == id + 1,
            r matches Ok(id) ==> order_added(
                old(self)@,
                final(self)@,
                line_item_models(content.products@),
                collection_products@,
                now,
                id,
            ),
    {
        let (total_price, status) = match price_order(&content.products, collection_products) {
            Err(e) => return Err(e),
            Ok(v) => v,
        };
        if self.next_id == u64::MAX {
            return Err(OrderCollectionError::StoreUnavailable);
        }
        let id = self.next_id;
        proof {
            lemma_order_index_bounds(self@, id);
        }
        let ghost before = self@;
        let ghost items = line_item_models(content.products@);
        self.orders.push(
            Order {
                id,
                products: content.products,
                total_price,
                status,
                created_at: now,
                updated_at: now,
            },
        );
        self.next_id = id + 1;
        assert(self@ =~= before.push(
            OrderModel { id, products: items, total_price, status, created_at: now, updated_at: now },
        ));
        Ok(id)
    }

    /// Creates an order as `create_at` does, stamped with the current time.
    pub fn create(&mut self, content: OrderCreateRequest, collection_products: &ProductCollection) -> (r:
        Result<u64, OrderCollectionError>)
        requires
            old(self).wf(),
            collection_products.wf(),
        ensures
            final(self).wf(),
            match order_pricing(line_item_models(content.products@), collection_products@) {
                Err(e) => r == Err::<u64, OrderCollectionError>(e),
                Ok(_) => if old(self).exhausted() {
                    r == Err::<u64, OrderCollectionError>(OrderCollectionError::StoreUnavailable)
                } else {
                    r is Ok
                },
            },
            r is Err ==> *final(self) == *old(self),
            r matches Ok(id) ==> id == old(self).next_serial() && final(self).next_serial() == id + 1,
            r matches Ok(id) ==> exists|now: i64|
                order_added(
                    old(self)@,
                    final(self)@,
                    line_item_models(content.products@),
                    collection_products@,
                    now,
                    id,
                ),
    {
        let now = now_millis();
        self.create_at(content, collection_products, now)
    }

    /// The orders that the window `offset`, `limit` selects, in insertion
    /// order.
    pub fn list(&self, offset: u64, limit: i64) -> (r: Vec<Order>)
        ensures
            r@.map_values(|o: Order| o@) == window(self@, offset, limit),
    {
        let (start, end) = window_bounds(self.orders.len(), offset, limit);
        let mut r: Vec<Order> = Vec::new();
        let mut i: usize = start;
        while i < end
            invariant
                start <= i <= end <= self@.len(),
                self@.len() == self.orders@.len(),
                r@.len() == i - start,
                forall|j: int| 0 <= j < r@.len() ==> (#[trigger] r@[j])@ == self@[start + j],
            decreases end - i,
        {
            r.push(self.orders[i].duplicate());
            i += 1;
        }
        assert(r@.map_values(|o: Order| o@) =~= window(self@, offset, limit));
        r
    }

    /// The order that the id text `req_id` refers to.
    pub fn get(&self, req_id: &str) -> (r: Result<Order, OrderCollectionError>)
        ensures
            match resolve_order(self@, req_id@) {
                Some(o) => r matches Ok(q) && q@ == o,
                None => r == Err::<Order, OrderCollectionError>(OrderCollectionError::OrderNotFound),
            },
    {
        match parse_record_id(req_id) {
            None => Err(OrderCollectionError::OrderNotFound),
            Some(serial) => match self.position(serial) {
                None => Err(OrderCollectionError::OrderNotFound),
                Some(i) => {
                    assert(self@[i as int] == self.orders@[i as int]@);
                    Ok(self.orders[i].duplicate())
                },
            },
        }
    }

    /// Sets the status of the order that `req_id` names, refreshing its
    /// update time from `now`, and returns how many orders changed. An order
    /// that already has the status is reported as not modified.
    pub fn update_at(&mut self, req_id: &str, content: OrderUpdateRequest, now: i64) -> (r: Result<
        u64,
        OrderCollectionError,
    >)
        requires
            old(self).wf(),
        ensures
            final(self).wf(),
            (r, final(self)@) == order_update_outcome(old(self)@, req_id@, content.status, now),
            r is Err ==> *final(self) == *old(self),
            final(self).next_serial() == old(self).next_serial(),
    {
        let serial = match parse_record_id(req_id) {
            None => return Err(OrderCollectionError::OrderNotFound),
            Some(v) => v,
        };
        let i = match self.position(serial) {
            None => return Err(OrderCollectionError::OrderNotFound),
            Some(v) => v,
        };
        proof {
            lemma_order_index_bounds(self@, serial);
        }
        assert(self@[i as int] == self.orders@[i as int]@);
        if self.orders[i].status == content.status {
            return Err(OrderCollectionError::OrderNotModified);
        }
        let prev = self.orders[i].updated_at;
        let stamp: i64 = if now > prev {
            now
        } else if prev < i64::MAX {
            prev + 1
        } else {
            prev
        };
        let current = &self.orders[i];
        let changed = Order {
            id: current.id,
            products: duplicate_line_items(&current.products),
            total_price: current.total_price,
            status: content.status,
            created_at: current.created_at,
            updated_at: stamp,
        };
        let ghost before = self@;
        self.orders.set(i, changed);
        proof {
            assert(self@ =~= before.update(i as int, with_status(before[i as int], content.status, now)));
            assert forall|a: int, b: int| 0 <= a < b < self@.len() implies #[trigger] self@[a].id
                != #[trigger] self@[b].id by {
                assert(before[a].id != before[b].id);
            }
            assert forall|a: int| 0 <= a < self@.len() implies (#[trigger] self@[a]).id < self.next_id by {
                assert(before[a].id < self.next_id);
            }
        }
        Ok(1)
    }

    /// Sets the status as `update_at` does, at the current time.
    pub fn update(&mut self, req_id: &str, content: OrderUpdateRequest) -> (r: Result<
        u64,
        OrderCollectionError,
    >)
        requires
            old(self).wf(),
        ensures
            final(self).wf(),
            exists|now: i64|
                (r, final(self)@) == order_update_outcome(old(self)@, req_id@, content.status, now),
            r is Err ==> *final(self) == *old(self),
            final(self).next_serial() == old(self).next_serial(),
    {
        let now = now_millis();
        self.update_at(req_id, content, now)
    }

    /// Removes the order that `req_id` names, and returns how many orders
    /// were removed.
    pub fn delete(&mut self, req_id: &str) -> (r: Result<u64, OrderCollectionError>)
        requires
            old(self).wf(),
        ensures
            final(self).wf(),
            (r, final(self)@) == order_delete_outcome(old(self)@, req_id@),
            r is Err ==> *final(self) == *old(self),
            final(self).next_serial() == old(self).next_serial(),
    {
        let serial = match parse_record_id(req_id) {
            None => return Err(OrderCollectionError::OrderNotFound),
            Some(v) => v,
        };
        let i = match self.position(serial) {
            None => return Err(OrderCollectionError::OrderNotFound),
            Some(v) => v,
        };
        proof {
            lemma_order_index_bounds(self@, serial);
        }
        let ghost before = self@;
        self.orders.remove(i);
        proof {
            assert(self@ =~= before.remove(i as int));
            assert forall|a: int, b: int| 0 <= a < b < self@.len() implies #[trigger] self@[a].id
                != #[trigger] self@[b].id by {
                let a0 = if a < i { a } else { a + 1 };
                let b0 = if b < i { b } else { b + 1 };
                assert(self@[a] == before[a0] && self@[b] == before[b0]);
            }
            assert forall|a: int| 0 <= a < self@.len() implies (#[trigger] self@[a]).id < self.next_id by {
                let a0 = if a < i { a } else { a + 1 };
                assert(self@[a] == before[a0]);
            }
        }
        Ok(1)
    }

    /// What the invariant gives a caller: in a well-formed order book no two
    /// orders share an id, and every id lies below the next one to be
    /// assigned.
    pub proof fn lemma_invariant(&self)
        requires
            self.wf(),
        ensures
            forall|i: int, j: int|
                0 <= i < self@.len() && 0 <= j < self@.len() && i != j ==> #[trigger] self@[i].id
                    != #[trigger] self@[j].id,
            forall|i: int| 0 <= i < self@.len() ==> (#[trigger] self@[i]).id < self.next_serial(),
    {
        assert forall|i: int, j: int|
            0 <= i < self@.len() && 0 <= j < self@.len() && i != j implies #[trigger] self@[i].id
                != #[trigger] self@[j].id by {
            if j < i {
                assert(self@[j].id != self@[i].id);
            }
        }
    }
}

/// Replacing the order that `order_index` finds by one with the same id
/// leaves it where it was found.
proof fn lemma_order_index_update(s: Seq<OrderModel>, id: u64, x: OrderModel)
    requires
        order_index(s, id) >= 0,
        x.id == id,
    ensures
        order_index(s.update(order_index(s, id), x), id) == order_index(s, id),
{
    lemma_order_index_bounds(s, id);
    assert(order_ids(s.update(order_index(s, id), x)) =~= order_ids(s));
}

/// Creation fixes an order. The id it returns names, through its text, an
/// order with the requested line items, the total and status that pricing
/// gave, and the creation time as both stamps; after any status change, of
/// this order or another, a lookup still finds the same line items, total
/// and creation time.
pub proof fn lemma_order_fixed_at_creation(
    before: Seq<OrderModel>,
    after: Seq<OrderModel>,
    items: Seq<LineItemModel>,
    catalog: Seq<ProductModel>,
    now: i64,
    id: u64,
    text: Seq<char>,
    req_id: Seq<char>,
    status: OrderStatus,
    later: i64,
)
    requires
        order_added(before, after, items, catalog, now, id),
        id_of_text(text) == Some(id),
    ensures
        resolve_order(after, text) == Some(
            OrderModel {
                id,
                products: items,
                total_price: order_pricing(items, catalog)->Ok_0.0,
                status: order_pricing(items, catalog)->Ok_0.1,
                created_at: now,
                updated_at: now,
            },
        ),
        resolve_order(order_update_outcome(after, req_id, status, later).1, text) matches Some(o) && o.id
            == id && o.products == items && o.total_price == order_pricing(items, catalog)->Ok_0.0
            && o.created_at == now,
{
    assert(after.drop_last() =~= before);
    let s2 = order_update_outcome(after, req_id, status, later).1;
    match resolve_order(after, req_id) {
        None => {},
        Some(o) => {
            if o.status != status {
                lemma_order_index_bounds(after, id_of_text(req_id)->0);
                let k = order_index(after, o.id);
                assert(s2 == after.update(k, with_status(o, status, later)));
                assert(s2.len() == after.len());
                if k == after.len() - 1 {
                    assert(s2.last() == with_status(o, status, later));
                } else {
                    assert(s2[after.len() - 1] == after[after.len() - 1]);
                }
            }
        },
    }
}

/// Setting an order to the status it already has is refused as not
/// modified and changes nothing. Setting it to another status succeeds, and
/// a later lookup shows the new status, the same line items and total, and
/// an update time later than before (where a later one fits in an `i64`).
pub proof fn lemma_status_update(s: Seq<OrderModel>, req_id: Seq<char>, status: OrderStatus, now: i64)
    requires
        resolve_order(s, req_id) is Some,
    ensures
        ({
            let o = resolve_order(s, req_id)->0;
            let (r, after) = order_update_outcome(s, req_id, status, now);
            &&& o.status == status ==> r == Err::<u64, OrderCollectionError>(
                OrderCollectionError::OrderNotModified,
            ) && after == s
            &&& o.status != status ==> {
                &&& r == Ok::<u64, OrderCollectionError>(1)
                &&& resolve_order(after, req_id) matches Some(o2) && o2.status == status && o2.products
                    == o.products && o2.total_price == o.total_price && (o.updated_at < i64::MAX
                    ==> o2.updated_at > o.updated_at)
            }
        }),
{
    let o = resolve_order(s, req_id)->0;
    let id = id_of_text(req_id)->0;
    lemma_order_index_bounds(s, id);
    if o.status != status {
        lemma_order_index_update(s, id, with_status(o, status, now));
    }
}

/// The order a successful creation stores is priced at the sum of unit
/// price times quantity over its line items, all of which exist and have a
/// positive quantity; it is pending exactly when one of its products is not
/// ready-made, else completed, never cancelled; and its two stamps agree.
pub proof fn lemma_created_order_priced(
    before: Seq<OrderModel>,
    after: Seq<OrderModel>,
    items: Seq<LineItemModel>,
    catalog: Seq<ProductModel>,
    now: i64,
    id: u64,
)
    requires
        order_added(before, after, items, catalog, now, id),
    ensures
        items.len() > 0,
        all_resolved(items, catalog),
        quantities_positive(items),
        find_order(after, id) matches Some(o) && {
            &&& o.products == items
            &&& o.total_price == order_total(items, catalog)
            &&& (o.status == OrderStatus::Pending <==> exists|i: int|
                0 <= i < items.len() && (#[trigger] resolve_product(catalog, items[i].product_id))->0.kind
                    != ProductKind::ReadyMade)
            &&& o.status != OrderStatus::Cancelled
            &&& o.created_at == o.updated_at
        },
{
    lemma_valid_order_pricing(items, catalog);
    assert(after.drop_last() =~= before);
    lemma_order_index_bounds(after, id);
}

} // verus!
