use vstd::prelude::*;
use crate::keyed::{key_index, keys_of, last_position, lemma_key_index_bounds};
use crate::ids::{id_of_text, parse_record_id};
use crate::model::{
    window, window_bounds, Product, ProductCreateRequest, ProductKind, ProductModel,
    ProductUpdateRequest,
};

verus! {

/// Why a catalog operation did not take effect.
#[derive(Clone, Copy, Debug, PartialEq, Eq, Structural)]
pub enum ProductCollectionError {
    /// Another product already has the name.
    ProductNameExists,
    /// No product has the given id.
    ProductNotFound,
    /// The product was found, but the update changed none of its fields.
    ProductNotModified,
    /// The request is malformed: a negative price.
    InvalidInput,
    /// The catalog cannot assign another id.
    StoreUnavailable,
}

/// The ids of a sequence of products, in order.
pub open spec fn product_ids(s: Seq<ProductModel>) -> Seq<u64> {
    s.map_values(|x: ProductModel| x.id)
}

/// Position of the last product with serial `id` in `s`, or -1 if none has it.
pub open spec fn product_index(s: Seq<ProductModel>, id: u64) -> int {
    key_index(product_ids(s), id)
}

/// The product with serial `id`, if any.
pub open spec fn find_product(s: Seq<ProductModel>, id: u64) -> Option<ProductModel> {
    let i = product_index(s, id);
    if i >= 0 {
        Some(s[i])
    } else {
        None
    }
}

/// The product that an id text refers to, if any.
pub open spec fn resolve_product(s: Seq<ProductModel>, text: Seq<char>) -> Option<ProductModel> {
    match id_of_text(text) {
        Some(id) => find_product(s, id),
        None => None,
    }
}

/// Whether some product in `s` is called `name`.
pub open spec fn name_taken(s: Seq<ProductModel>, name: Seq<char>) -> bool {
    exists|i: int| 0 <= i < s.len() && (#[trigger] s[i]).name == name
}

/// Whether some product other than the one with serial `id` is called `name`.
pub open spec fn name_taken_by_other(s: Seq<ProductModel>, name: Seq<char>, id: u64) -> bool {
    exists|i: int| 0 <= i < s.len() && (#[trigger] s[i]).name == name && s[i].id != id
}

/// `p` with the fields that are given replaced.
pub open spec fn apply_product_update(
    p: ProductModel,
    name: Option<Seq<char>>,
    price: Option<i64>,
    kind: Option<ProductKind>,
) -> ProductModel {
    ProductModel {
        id: p.id,
        name: match name {
            Some(n) => n,
            None => p.name,
        },
        price: match price {
            Some(v) => v,
            None => p.price,
        },
        kind: match kind {
            Some(k) => k,
            None => p.kind,
        },
    }
}

/// The name an update request sets, if any.
pub open spec fn requested_name(content: ProductUpdateRequest) -> Option<Seq<char>> {
    match content.name {
        Some(n) => Some(n@),
        None => None,
    }
}

/// Why adding a product called `name` at `price` to catalog `s` is refused,
/// if it is: a name in use first, then a negative price, then a catalog
/// with no id left to assign.
pub open spec fn product_create_refusal(
    s: Seq<ProductModel>,
    name: Seq<char>,
    price: i64,
    exhausted: bool,
) -> Option<ProductCollectionError> {
    if name_taken(s, name) {
        Some(ProductCollectionError::ProductNameExists)
    } else if price < 0 {
        Some(ProductCollectionError::InvalidInput)
    } else if exhausted {
        Some(ProductCollectionError::StoreUnavailable)
    } else {
        None
    }
}

/// Adding a product under a name already in use is always refused as a
/// duplicate name, whatever its price and however full the catalog; the
/// catalog is then left as it was.
pub proof fn lemma_taken_name_refused(s: Seq<ProductModel>, name: Seq<char>, price: i64, exhausted: bool)
    requires
        name_taken(s, name),
    ensures
        product_create_refusal(s, name, price, exhausted) == Some(ProductCollectionError::ProductNameExists),
{
}

/// Whether an optional price is given and negative.
pub open spec fn negative_price(price: Option<i64>) -> bool {
    match price {
        Some(v) => v < 0,
        None => false,
    }
}

/// What updating the product that `req_id` names in catalog `s` returns,
/// and the catalog after it. A missing product is reported first, then a
/// negative price, then a name that another product has, then an update
/// that changes nothing.
pub open spec fn product_update_outcome(
    s: Seq<ProductModel>,
    req_id: Seq<char>,
    name: Option<Seq<char>>,
    price: Option<i64>,
    kind: Option<ProductKind>,
) -> (Result<u64, ProductCollectionError>, Seq<ProductModel>) {
    match resolve_product(s, req_id) {
        None => (Err(ProductCollectionError::ProductNotFound), s),
        Some(p) => {
            let q = apply_product_update(p, name, price, kind);
            if negative_price(price) {
                (Err(ProductCollectionError::InvalidInput), s)
            } else if name is Some && name_taken_by_other(s, name->0, p.id) {
                (Err(ProductCollectionError::ProductNameExists), s)
            } else if q == p {
                (Err(ProductCollectionError::ProductNotModified), s)
            } else {
                (Ok(1), s.update(product_index(s, p.id), q))
            }
        },
    }
}

/// What deleting the product that `req_id` names from catalog `s` returns,
/// and the catalog after it.
pub open spec fn product_delete_outcome(s: Seq<ProductModel>, req_id: Seq<char>) -> (
    Result<u64, ProductCollectionError>,
    Seq<ProductModel>,
) {
    match resolve_product(s, req_id) {
        None => (Err(ProductCollectionError::ProductNotFound), s),
        Some(p) => (Ok(1), s.remove(product_index(s, p.id))),
    }
}

/// Where `product_index` points, and that -1 means no product has the id.
pub proof fn lemma_product_index_bounds(s: Seq<ProductModel>, id: u64)
    ensures
        -1 <= product_index(s, id) < s.len(),
        product_index(s, id) >= 0 ==> s[product_index(s, id)].id == id,
        product_index(s, id) == -1 ==> forall|j: int| 0 <= j < s.len() ==> (#[trigger] s[j]).id != id,
{
    lemma_key_index_bounds(product_ids(s), id);
    if product_index(s, id) >= 0 {
        assert(product_ids(s)[product_index(s, id)] == s[product_index(s, id)].id);
    } else {
        assert forall|j: int| 0 <= j < s.len() implies (#[trigger] s[j]).id != id by {
            assert(product_ids(s)[j] == s[j].id);
        }
    }
}

/// The product catalog: products in insertion order, with distinct ids and
/// distinct names.
pub struct ProductCollection {
    products: Vec<Product>,
    next_id: u64,
}

impl View for ProductCollection {
    type V = Seq<ProductModel>;

    closed spec fn view(&self) -> Seq<ProductModel> {
        self.products@.map_values(|p: Product| p@)
    }
}

impl ProductCollection {
    /// The catalog's invariant: ids and names are unique, prices are not
    /// negative, and every id lies below the next one to be assigned.
    pub closed spec fn wf(&self) -> bool {
        &&& forall|i: int, j: int|
            0 <= i < j < self@.len() ==> #[trigger] self@[i].id != #[trigger] self@[j].id
                && self@[i].name != self@[j].name
        &&& forall|i: int| 0 <= i < self@.len() ==> (#[trigger] self@[i]).id < self.next_id
        &&& forall|i: int| 0 <= i < self@.len() ==> (#[trigger] self@[i]).price >= 0
    }

    /// The id the next product added will get.
    pub closed spec fn next_serial(&self) -> u64 {
        self.next_id
    }

    /// Whether every id has been handed out, so that no product can be added.
    pub open spec fn exhausted(&self) -> bool {
        self.next_serial() == u64::MAX
    }

    /// An empty catalog.
    pub fn init() -> (r: ProductCollection)
        ensures
            r.wf(),
            r@ == Seq::<ProductModel>::empty(),
            r.next_serial() == 0,
    {
        let r = ProductCollection { products: Vec::new(), next_id: 0 };
        assert(r@ =~= Seq::<ProductModel>::empty());
        r
    }

    /// The number of products.
    pub fn len(&self) -> (r: usize)
        ensures
            r == self@.len(),
    {
        self.products.len()
    }

    /// Position of the product with serial `id`.
    fn position(&self, id: u64) -> (r: Option<usize>)
        ensures
            match r {
                Some(i) => i as int == product_index(self@, id) && i < self@.len(),
                None => product_index(self@, id) == -1,
            },
    {
        assert(keys_of(self.products@) =~= product_ids(self@));
        last_position(&self.products, id)
    }

    /// Whether some product is called `name`.
    pub fn is_name_exist(&self, name: &String) -> (r: bool)
        ensures
            r == name_taken(self@, name@),
    {
        let mut i: usize = 0;
        while i < self.products.len()
            invariant
                i <= self@.len(),
                self@.len() == self.products@.len(),
                forall|j: int| 0 <= j < i ==> (#[trigger] self@[j]).name != name@,
            decreases self@.len() - i,
        {
            if self.products[i].name == *name {
                assert(self@[i as int] == self.products@[i as int]@);
                return true;
            }
            i += 1;
        }
        false
    }

    /// Adds a product and returns its id. A name already in use is refused
    /// first, then a negative price.
    pub fn create(&mut self, content: ProductCreateRequest) -> (r: Result<u64, ProductCollectionError>)
        requires
            old(self).wf(),
        ensures
            final(self).wf(),
            match product_create_refusal(old(self)@, content.name@, content.price, old(self).exhausted()) {
                Some(e) => r == Err::<u64, ProductCollectionError>(e) && *final(self) == *old(self),
                None => r matches Ok(id) && id == old(self).next_serial() && final(self).next_serial()
                    == id + 1 && find_product(old(self)@, id) is None && final(self)@
                    == old(self)@.push(
                    ProductModel { id, name: content.name@, price: content.price, kind: content.kind },
                ),
            },
    {
        if self.is_name_exist(&content.name) {
            return Err(ProductCollectionError::ProductNameExists);
        }
        if content.price < 0 {
            return Err(ProductCollectionError::InvalidInput);
        }
        if self.next_id == u64::MAX {
            return Err(ProductCollectionError::StoreUnavailable);
        }
        let id = self.next_id;
        proof {
            lemma_product_index_bounds(self@, id);
        }
        let ghost before = self@;
        self.products.push(Product { id, name: content.name, price: content.price, kind: content.kind });
        self.next_id = id + 1;
        assert(self@ =~= before.push(
            ProductModel { id, name: content.name@, price: content.price, kind: content.kind },
        ));
        Ok(id)
    }

    /// The products that the window `offset`, `limit` selects, in
    /// insertion order.
    pub fn list(&self, offset: u64, limit: i64) -> (r: Vec<Product>)
        ensures
            r@.map_values(|p: Product| p@) == window(self@, offset, limit),
    {
        let (start, end) = window_bounds(self.products.len(), offset, limit);
        let mut r: Vec<Product> = Vec::new();
        let mut i: usize = start;
        while i < end
            invariant
                start <= i <= end <= self@.len(),
                self@.len() == self.products@.len(),
                r@.len() == i - start,
                forall|j: int| 0 <= j < r@.len() ==> (#[trigger] r@[j])@ == self@[start + j],
            decreases end - i,
        {
            r.push(self.products[i].duplicate());
            i += 1;
        }
        assert(r@.map_values(|p: Product| p@) =~= window(self@, offset, limit));
        r
    }

    /// The product that the id text `id` refers to.
    pub fn get(&self, id: &str) -> (r: Result<Product, ProductCollectionError>)
        ensures
            match resolve_product(self@, id@) {
                Some(p) => r matches Ok(q) && q@ == p,
                None => r == Err::<Product, ProductCollectionError>(
                    ProductCollectionError::ProductNotFound,
                ),
            },
    {
        match parse_record_id(id) {
            None => Err(ProductCollectionError::ProductNotFound),
            Some(serial) => match self.position(serial) {
                None => Err(ProductCollectionError::ProductNotFound),
                Some(i) => {
                    assert(self@[i as int] == self.products@[i as int]@);
                    Ok(self.products[i].duplicate())
                },
            },
        }
    }

    /// Whether a product other than the one with serial `id` is called `name`.
    fn name_used_by_other(&self, name: &String, id: u64) -> (r: bool)
        ensures
            r == name_taken_by_other(self@, name@, id),
    {
        let mut i: usize = 0;
        while i < self.products.len()
            invariant
                i <= self@.len(),
                self@.len() == self.products@.len(),
                forall|j: int| 0 <= j < i ==> (#[trigger] self@[j]).name != name@ || self@[j].id == id,
            decreases self@.len() - i,
        {
            if self.products[i].id != id && self.products[i].name == *name {
                assert(self@[i as int] == self.products@[i as int]@);
                return true;
            }
            i += 1;
        }
        false
    }

    /// Changes the fields that `content` gives of the product that `req_id`
    /// names, and returns how many products changed.
    pub fn update(&mut self, req_id: &str, content: ProductUpdateRequest) -> (r: Result<
        u64,
        ProductCollectionError,
    >)
        requires
            old(self).wf(),
        ensures
            final(self).wf(),
            (r, final(self)@) == product_update_outcome(
                old(self)@,
                req_id@,
                requested_name(content),
                content.price,
                content.kind,
            ),
            r is Err ==> *final(self) == *old(self),
            final(self).next_serial() == old(self).next_serial(),
    {
        let serial = match parse_record_id(req_id) {
            None => return Err(ProductCollectionError::ProductNotFound),
            Some(v) => v,
        };
        let i = match self.position(serial) {
            None => return Err(ProductCollectionError::ProductNotFound),
            Some(v) => v,
        };
        proof {
            lemma_product_index_bounds(self@, serial);
        }
        assert(self@[i as int] == self.products@[i as int]@);
        match content.price {
            Some(v) => {
                if v < 0 {
                    return Err(ProductCollectionError::InvalidInput);
                }
            },
            None => {},
        }
        match &content.name {
            Some(n) => {
                if self.name_used_by_other(n, serial) {
                    return Err(ProductCollectionError::ProductNameExists);
                }
            },
            None => {},
        }
        let current = &self.products[i];
        let name = match content.name {
            Some(n) => n,
            None => current.name.clone(),
        };
        let price = match content.price {
            Some(v) => v,
            None => current.price,
        };
        let kind = match content.kind {
            Some(k) => k,
            None => current.kind,
        };
        if name == current.name && price == current.price && kind == current.kind {
            return Err(ProductCollectionError::ProductNotModified);
        }
        let ghost before = self@;
        self.products.set(i, Product { id: serial, name, price, kind });
        proof {
            let q = apply_product_update(before[i as int], requested_name(content), content.price, content.kind);
            assert(self@ =~= before.update(i as int, q));
            assert forall|a: int, b: int| 0 <= a < b < self@.len() implies #[trigger] self@[a].id
                != #[trigger] self@[b].id && self@[a].name != self@[b].name by {
                if a != i && b != i {
                    assert(self@[a] == before[a] && self@[b] == before[b]);
                } else if a == i {
                    assert(self@[b] == before[b]);
                    assert(before[a].id != before[b].id && before[a].name != before[b].name);
                } else {
                    assert(self@[a] == before[a]);
                    assert(before[a].id != before[b].id && before[a].name != before[b].name);
                }
            }
            assert forall|a: int| 0 <= a < self@.len() implies (#[trigger] self@[a]).id < self.next_id
                && self@[a].price >= 0 by {
                if a != i {
                    assert(self@[a] == before[a]);
                }
            }
        }
        Ok(1)
    }

    /// Removes the product that `req_id` names, and returns how many
    /// products were removed.
    pub fn delete(&mut self, req_id: &str) -> (r: Result<u64, ProductCollectionError>)
        requires
            old(self).wf(),
        ensures
            final(self).wf(),
            (r, final(self)@) == product_delete_outcome(old(self)@, req_id@),
            r is Err ==> *final(self) == *old(self),
            final(self).next_serial() == old(self).next_serial(),
    {
        let serial = match parse_record_id(req_id) {
            None => return Err(ProductCollectionError::ProductNotFound),
            Some(v) => v,
        };
        let i = match self.position(serial) {
            None => return Err(ProductCollectionError::ProductNotFound),
            Some(v) => v,
        };
        proof {
            lemma_product_index_bounds(self@, serial);
        }
        let ghost before = self@;
        self.products.remove(i);
        proof {
            assert(self@ =~= before.remove(i as int));
            assert forall|a: int, b: int| 0 <= a < b < self@.len() implies #[trigger] self@[a].id
                != #[trigger] self@[b].id && self@[a].name != self@[b].name by {
                let a0 = if a < i { a } else { a + 1 };
                let b0 = if b < i { b } else { b + 1 };
                assert(self@[a] == before[a0] && self@[b] == before[b0]);
            }
            assert forall|a: int| 0 <= a < self@.len() implies (#[trigger] self@[a]).id < self.next_id
                && self@[a].price >= 0 by {
                let a0 = if a < i { a } else { a + 1 };
                assert(self@[a] == before[a0]);
            }
        }
        Ok(1)
    }

    /// What the invariant gives a caller: in a well-formed catalog no two
    /// products share an id or a name, every id lies below the next one to be
    /// assigned, and no price is negative.
    pub proof fn lemma_invariant(&self)
        requires
            self.wf(),
        ensures
            forall|i: int, j: int|
                0 <= i < self@.len() && 0 <= j < self@.len() && i != j ==> #[trigger] self@[i].id
                    != #[trigger] self@[j].id && self@[i].name != self@[j].name,
            forall|i: int| 0 <= i < self@.len() ==> (#[trigger] self@[i]).id < self.next_serial(),
            forall|i: int| 0 <= i < self@.len() ==> (#[trigger] self@[i]).price >= 0,
    {
        assert forall|i: int, j: int|
            0 <= i < self@.len() && 0 <= j < self@.len() && i != j implies #[trigger] self@[i].id
                != #[trigger] self@[j].id && self@[i].name != self@[j].name by {
            if j < i {
                assert(self@[j].id != self@[i].id && self@[j].name != self@[i].name);
            }
        }
    }
}

} // verus!
