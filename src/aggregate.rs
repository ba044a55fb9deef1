use vstd::prelude::*;
use crate::model::{line_item_models, LineItemModel, OrderStatus, ProductKind, ProductModel, ProductView};
use crate::orders::OrderCollectionError;
use crate::products::{
    lemma_product_index_bounds, resolve_product, ProductCollection,
};

verus! {

/// Whether a product of this kind keeps an order pending: every kind but
/// ready-made needs preparation.
pub open spec fn kind_forces_pending(kind: ProductKind) -> bool {
    kind != ProductKind::ReadyMade
}

/// Whether every line item refers to a product of the catalog.
pub open spec fn all_resolved(items: Seq<LineItemModel>, catalog: Seq<ProductModel>) -> bool {
    forall|i: int| 0 <= i < items.len() ==> (#[trigger] resolve_product(catalog, items[i].product_id)) is Some
}

/// Whether every quantity is positive.
pub open spec fn quantities_positive(items: Seq<LineItemModel>) -> bool {
    forall|i: int| 0 <= i < items.len() ==> (#[trigger] items[i]).quantity > 0
}

/// The unit price of the product an id text refers to.
pub open spec fn unit_price(catalog: Seq<ProductModel>, text: Seq<char>) -> int {
    match resolve_product(catalog, text) {
        Some(p) => p.price as int,
        None => 0,
    }
}

/// The sum over the line items of unit price times quantity.
pub open spec fn order_total(items: Seq<LineItemModel>, catalog: Seq<ProductModel>) -> int
    decreases items.len(),
{
    if items.len() == 0 {
        0
    } else {
        order_total(items.drop_last(), catalog) + unit_price(catalog, items.last().product_id)
            * items.last().quantity
    }
}

/// Whether the id text refers to a product that is not ready-made.
pub open spec fn refers_to_unprepared(catalog: Seq<ProductModel>, text: Seq<char>) -> bool {
    match resolve_product(catalog, text) {
        Some(p) => kind_forces_pending(p.kind),
        None => false,
    }
}

/// Whether some line item refers to a product that is not ready-made.
pub open spec fn needs_preparation(items: Seq<LineItemModel>, catalog: Seq<ProductModel>) -> bool {
    exists|i: int| 0 <= i < items.len() && #[trigger] refers_to_unprepared(catalog, items[i].product_id)
}

/// The status an order starts in: pending if any of its products needs
/// preparation, else completed.
pub open spec fn derived_status(items: Seq<LineItemModel>, catalog: Seq<ProductModel>) -> OrderStatus {
    if needs_preparation(items, catalog) {
        OrderStatus::Pending
    } else {
        OrderStatus::Completed
    }
}

/// The total and initial status of an order with these line items, or why
/// none can be made. An empty order is refused first, then a reference to
/// a product that does not exist, then a quantity below one, then a total
/// outside `i64`.
pub open spec fn order_pricing(items: Seq<LineItemModel>, catalog: Seq<ProductModel>) -> Result<
    (i64, OrderStatus),
    OrderCollectionError,
> {
    if items.len() == 0 {
        Err(OrderCollectionError::InvalidInput)
    } else if !all_resolved(items, catalog) {
        Err(OrderCollectionError::OneOfProductsNotFound)
    } else if !quantities_positive(items) {
        Err(OrderCollectionError::InvalidInput)
    } else if !(i64::MIN <= order_total(items, catalog) <= i64::MAX) {
        Err(OrderCollectionError::TotalOverflow)
    } else {
        Ok((order_total(items, catalog) as i64, derived_status(items, catalog)))
    }
}

/// Whether a product of this kind keeps an order pending.
pub fn forces_pending(kind: ProductKind) -> (r: bool)
    ensures
        r == kind_forces_pending(kind),
{
    match kind {
        ProductKind::Food => true,
        ProductKind::Cocktail => true,
        ProductKind::ReadyMade => false,
        ProductKind::Other => true,
    }
}

/// Totals over a prefix never exceed totals over a longer prefix, when every
/// term is a non-negative price times a positive quantity.
proof fn lemma_total_monotone(items: Seq<LineItemModel>, catalog: Seq<ProductModel>, k: int)
    requires
        0 <= k <= items.len(),
        quantities_positive(items),
        forall|j: int| 0 <= j < items.len() ==> unit_price(catalog, #[trigger] items[j].product_id) >= 0,
    ensures
        order_total(items.subrange(0, k), catalog) <= order_total(items, catalog),
    decreases items.len() - k,
{
    if k < items.len() {
        let next = items.subrange(0, k + 1);
        assert(next.drop_last() =~= items.subrange(0, k));
        let q = items[k].quantity as int;
        let u = unit_price(catalog, items[k].product_id);
        assert(u * q >= 0) by (nonlinear_arith)
            requires u >= 0, q > 0;
        lemma_total_monotone(items, catalog, k + 1);
    } else {
        assert(items.subrange(0, k) =~= items);
    }
}

/// Resolves every line item against the catalog and computes the order's
/// total price and initial status.
pub fn price_order(items: &Vec<ProductView>, catalog: &ProductCollection) -> (r: Result<
    (i64, OrderStatus),
    OrderCollectionError,
>)
    requires
        catalog.wf(),
    ensures
        r == order_pricing(line_item_models(items@), catalog@),
{
    let ghost m = line_item_models(items@);
    if items.len() == 0 {
        return Err(OrderCollectionError::InvalidInput);
    }
    // Resolve every reference before anything else is judged.
    let mut prices: Vec<i64> = Vec::new();
    let mut pending: Vec<bool> = Vec::new();
    let mut i: usize = 0;
    while i < items.len()
        invariant
            i <= items@.len(),
            m == line_item_models(items@),
            catalog.wf(),
            prices@.len() == i,
            pending@.len() == i,
            forall|j: int| 0 <= j < i ==> #[trigger] resolve_product(catalog@, m[j].product_id) is Some,
            forall|j: int|
                0 <= j < i ==> prices@[j] == (#[trigger] resolve_product(catalog@, m[j].product_id))->0.price
                    && pending@[j] == kind_forces_pending(resolve_product(catalog@, m[j].product_id)->0.kind),
        decreases items@.len() - i,
    {
        assert(m[i as int] == items@[i as int]@);
        match catalog.get(items[i].id.as_str()) {
            Ok(p) => {
                prices.push(p.price);
                pending.push(forces_pending(p.kind));
            },
            Err(_) => {
                assert(resolve_product(catalog@, m[i as int].product_id) is None);
                assert(!all_resolved(m, catalog@));
                return Err(OrderCollectionError::OneOfProductsNotFound);
            },
        }
        i += 1;
    }
    assert(all_resolved(m, catalog@));
    let mut k: usize = 0;
    while k < items.len()
        invariant
            k <= items@.len(),
            m == line_item_models(items@),
            all_resolved(m, catalog@),
            forall|j: int| 0 <= j < k ==> (#[trigger] m[j]).quantity > 0,
        decreases items@.len() - k,
    {
        assert(m[k as int] == items@[k as int]@);
        if items[k].quantity <= 0 {
            return Err(OrderCollectionError::InvalidInput);
        }
        k += 1;
    }
    assert(quantities_positive(m));
    proof {
        catalog.lemma_invariant();
        assert forall|j: int| 0 <= j < m.len() implies unit_price(catalog@, #[trigger] m[j].product_id) >= 0 by {
            let text = m[j].product_id;
            let id = crate::ids::id_of_text(text)->0;
            lemma_product_index_bounds(catalog@, id);
        }
    }
    let mut total: i64 = 0;
    let mut any_pending: bool = false;
    let mut t: usize = 0;
    while t < items.len()
        invariant
            t <= items@.len(),
            m == line_item_models(items@),
            prices@.len() == items@.len(),
            pending@.len() == items@.len(),
            all_resolved(m, catalog@),
            quantities_positive(m),
            forall|j: int| 0 <= j < m.len() ==> unit_price(catalog@, #[trigger] m[j].product_id) >= 0,
            forall|j: int|
                0 <= j < items@.len() ==> prices@[j] == (#[trigger] resolve_product(catalog@, m[j].product_id))->0.price
                    && pending@[j] == kind_forces_pending(resolve_product(catalog@, m[j].product_id)->0.kind),
            total as int == order_total(m.subrange(0, t as int), catalog@),
            total >= 0,
            any_pending == exists|j: int| 0 <= j < t && #[trigger] pending@[j],
        decreases items@.len() - t,
    {
        let ghost next = m.subrange(0, t as int + 1);
        assert(next.drop_last() =~= m.subrange(0, t as int));
        assert(m[t as int] == items@[t as int]@);
        assert(unit_price(catalog@, m[t as int].product_id) >= 0);
        assert(resolve_product(catalog@, m[t as int].product_id) is Some);
        let p = prices[t];
        let q = items[t].quantity;
        assert(0 <= p as int * q as int <= 0x4000_0000_0000_0000_0000_0000) by (nonlinear_arith)
            requires 0 <= p <= i64::MAX, 0 < q <= i32::MAX;
        let term: i128 = p as i128 * q as i128;
        let sum: i128 = total as i128 + term;
        if sum > i64::MAX as i128 {
            proof {
                lemma_total_monotone(m, catalog@, t as int + 1);
            }
            return Err(OrderCollectionError::TotalOverflow);
        }
        total = sum as i64;
        if pending[t] {
            any_pending = true;
        }
        t += 1;
    }
    assert(m.subrange(0, t as int) =~= m);
    proof {
        if any_pending {
            let j = choose|j: int| 0 <= j < t && #[trigger] pending@[j];
            assert(refers_to_unprepared(catalog@, m[j].product_id));
        } else {
            assert forall|j: int| 0 <= j < m.len() implies !#[trigger] refers_to_unprepared(
                catalog@,
                m[j].product_id,
            ) by {
                assert(!pending@[j]);
            }
        }
    }
    let status = if any_pending {
        OrderStatus::Pending
    } else {
        OrderStatus::Completed
    };
    Ok((total, status))
}

/// An order of positive quantities over products that all exist, whose total
/// fits, is priced at the sum of unit price times quantity, and is pending
/// exactly when one of its products is not ready-made, else completed.
pub proof fn lemma_valid_order_pricing(items: Seq<LineItemModel>, catalog: Seq<ProductModel>)
    requires
        items.len() > 0,
        all_resolved(items, catalog),
        quantities_positive(items),
        i64::MIN <= order_total(items, catalog) <= i64::MAX,
    ensures
        order_pricing(items, catalog) is Ok,
        order_pricing(items, catalog)->Ok_0.0 == order_total(items, catalog),
        order_pricing(items, catalog)->Ok_0.1 == OrderStatus::Pending <==> exists|i: int|
            0 <= i < items.len() && (#[trigger] resolve_product(catalog, items[i].product_id))->0.kind
                != ProductKind::ReadyMade,
        order_pricing(items, catalog)->Ok_0.1 != OrderStatus::Pending ==> order_pricing(items, catalog)->Ok_0.1
            == OrderStatus::Completed,
{
    if needs_preparation(items, catalog) {
        let i = choose|i: int| 0 <= i < items.len() && #[trigger] refers_to_unprepared(catalog, items[i].product_id);
        assert(resolve_product(catalog, items[i].product_id) is Some);
    } else {
        assert forall|i: int| 0 <= i < items.len() implies (#[trigger] resolve_product(catalog, items[i].product_id))->0.kind
            == ProductKind::ReadyMade by {
            assert(resolve_product(catalog, items[i].product_id) is Some);
            assert(!refers_to_unprepared(catalog, items[i].product_id));
        }
    }
}

/// An order that refers to a product missing from the catalog is refused
/// for that reason, whatever else is wrong with it.
pub proof fn lemma_unknown_product_refused(items: Seq<LineItemModel>, catalog: Seq<ProductModel>, i: int)
    requires
        0 <= i < items.len(),
        resolve_product(catalog, items[i].product_id) is None,
    ensures
        order_pricing(items, catalog) == Err::<(i64, OrderStatus), OrderCollectionError>(
            OrderCollectionError::OneOfProductsNotFound,
        ),
{
}

} // verus!
