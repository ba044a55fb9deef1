use vstd::prelude::*;
use crate::aggregate::order_pricing;
use crate::model::{line_item_models, OrderCreateRequest};
use crate::orders::{order_added, OrderCollection, OrderCollectionError};
use crate::products::ProductCollection;

verus! {

/// The stores of one process: the product catalog and the order book,
/// created together and handed to whatever serves requests.
pub struct Database {
    pub collection_products: ProductCollection,
    pub collection_orders: OrderCollection,
}

impl Database {
    /// Both stores are well formed.
    pub open spec fn wf(&self) -> bool {
        self.collection_products.wf() && self.collection_orders.wf()
    }

    /// Empty stores.
    pub fn init() -> (r: Database)
        ensures
            r.wf(),
            r.collection_products@.len() == 0,
            r.collection_orders@.len() == 0,
            r.collection_products.next_serial() == 0,
            r.collection_orders.next_serial() == 0,
    {
        Database { collection_products: ProductCollection::init(), collection_orders: OrderCollection::init() }
    }

    /// The order book.
    pub fn orders(&self) -> (r: &OrderCollection)
        ensures
            r == &self.collection_orders,
    {
        &self.collection_orders
    }

    /// The product catalog.
    pub fn products(&self) -> (r: &ProductCollection)
        ensures
            r == &self.collection_products,
    {
        &self.collection_products
    }

    /// Creates an order against this database's own catalog, stamped with
    /// the current time. The catalog is left as it is.
    pub fn create_order(&mut self, content: OrderCreateRequest) -> (r: Result<u64, OrderCollectionError>)
        requires
            old(self).wf(),
        ensures
            final(self).wf(),
            final(self).collection_products == old(self).collection_products,
            match order_pricing(line_item_models(content.products@), old(self).collection_products@) {
                Err(e) => r == Err::<u64, OrderCollectionError>(e),
                Ok(_) => if old(self).collection_orders.exhausted() {
                    r == Err::<u64, OrderCollectionError>(OrderCollectionError::StoreUnavailable)
                } else {
                    r is Ok
                },
            },
            r is Err ==> *final(self) == *old(self),
            r matches Ok(id) ==> id == old(self).collection_orders.next_serial()
                && final(self).collection_orders.next_serial() == id + 1,
            r matches Ok(id) ==> exists|now: i64|
                order_added(
                    old(self).collection_orders@,
                    final(self).collection_orders@,
                    line_item_models(content.products@),
                    old(self).collection_products@,
                    now,
                    id,
                ),
    {
        let ghost items = line_item_models(content.products@);
        let ghost before = self.collection_orders@;
        let r = self.collection_orders.create(content, &self.collection_products);
        proof {
            if r is Ok {
                let id = r->Ok_0;
                let now = choose|now: i64|
                    order_added(before, self.collection_orders@, items, self.collection_products@, now, id);
                assert(order_added(before, self.collection_orders@, items, self.collection_products@, now, id));
            }
        }
        r
    }
}

} // verus!
