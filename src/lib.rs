//! Kitchen management core: a product catalog, an order book, and the
//! aggregation rules that turn a list of ordered products into a priced
//! order with a derived fulfilment status.

pub mod keyed;
pub mod model;
pub mod ids;
pub mod products;
pub mod aggregate;
pub mod orders;
pub mod clock;
pub mod database;
pub mod responses;
