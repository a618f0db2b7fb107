use vstd::prelude::*;

use crate::auth::{can_write, can_read, grants, Claims};
use crate::error::OrderError;
use crate::models::{CreateOrderDTO, MasterProduct, Order, OrderStatus, OrderWithItems, Product};
use crate::orders::{assembled, listed, order_placed, status_updated};
use crate::store::{has_product, product_added, product_updated, Store};

verus! {

// The operations as callers with claims reach them: the permission check
// comes first, and a denied caller gets `Forbidden` with the store
// untouched and nothing read from it.

impl Store {
    /// The orders of event `eid`, the most recent first, for a caller whose
    /// claims cover the event.
    pub fn list_orders_for(&self, claims: &Claims, eid: i64, status: Option<OrderStatus>) -> (r: Result<Vec<OrderWithItems>, OrderError>)
        requires
            self.wf(),
        ensures
            !grants(claims, eid) ==> r == Err::<Vec<OrderWithItems>, OrderError>(OrderError::Forbidden),
            grants(claims, eid) ==> r is Ok && assembled(listed(self.orders@, eid, status), self.items@, r->Ok_0@),
    {
        if !can_read(claims, eid) {
            return Err(OrderError::Forbidden);
        }
        Ok(self.list_orders(eid, status))
    }

    /// Places an order for event `eid` for a caller whose claims cover it.
    pub fn create_order_for(&mut self, claims: &Claims, eid: i64, order: &CreateOrderDTO, created_at: i64) -> (r: Result<OrderWithItems, OrderError>)
        requires
            old(self).wf(),
        ensures
            final(self).wf(),
            !grants(claims, eid) ==> r == Err::<OrderWithItems, OrderError>(OrderError::Forbidden)
                && *final(self) == *old(self),
            grants(claims, eid) ==> order_placed(*old(self), *final(self), eid, order.items@, created_at, r),
    {
        if !can_write(claims, eid) {
            return Err(OrderError::Forbidden);
        }
        self.create_order(eid, order, created_at)
    }

    /// Changes the status of order `oid` of event `eid` for a caller whose
    /// claims cover the event.
    pub fn update_status_for(&mut self, claims: &Claims, oid: i64, eid: i64, to: OrderStatus) -> (r: Result<Order, OrderError>)
        requires
            old(self).wf(),
        ensures
            final(self).wf(),
            !grants(claims, eid) ==> r == Err::<Order, OrderError>(OrderError::Forbidden)
                && *final(self) == *old(self),
            grants(claims, eid) ==> status_updated(*old(self), *final(self), oid, eid, to, r),
    {
        if !can_write(claims, eid) {
            return Err(OrderError::Forbidden);
        }
        self.update_status(oid, eid, to)
    }

    /// Stocks a master product at event `eid` for a caller whose claims
    /// cover the event. The caller has looked up whether the event exists
    /// and which master product has the requested code. Refusals come in
    /// this order: `Forbidden`, a missing event, an unknown code, then what
    /// `add_product_to_event` refuses.
    pub fn add_product_for(&mut self, claims: &Claims, eid: i64, event_exists: bool, master: Option<&MasterProduct>, price: Option<i64>, initial_stock: i64) -> (r: Result<Product, OrderError>)
        requires
            old(self).wf(),
        ensures
            final(self).wf(),
            !grants(claims, eid) ==> r == Err::<Product, OrderError>(OrderError::Forbidden)
                && *final(self) == *old(self),
            grants(claims, eid) && !event_exists ==> r == Err::<Product, OrderError>(
                OrderError::EventNotFound,
            ) && *final(self) == *old(self),
            grants(claims, eid) && event_exists && master is None ==> r == Err::<Product, OrderError>(
                OrderError::UnknownProductCode,
            ) && *final(self) == *old(self),
            grants(claims, eid) && event_exists && master is Some ==> product_added(
                *old(self),
                *final(self),
                eid,
                *master->Some_0,
                price,
                initial_stock,
                r,
            ),
    {
        if !can_write(claims, eid) {
            return Err(OrderError::Forbidden);
        }
        if !event_exists {
            return Err(OrderError::EventNotFound);
        }
        match master {
            None => Err(OrderError::UnknownProductCode),
            Some(m) => self.add_product_to_event(eid, m, price, initial_stock),
        }
    }

    /// Changes product `pid` for a caller whose claims cover the product's
    /// own event. An unknown product is `NotFound` whoever asks.
    pub fn update_product_for(&mut self, claims: &Claims, pid: i64, price: Option<i64>, initial_stock: Option<i64>) -> (r: Result<Product, OrderError>)
        requires
            old(self).wf(),
        ensures
            final(self).wf(),
            !has_product(old(self).products@, pid) ==> r == Err::<Product, OrderError>(
                OrderError::NotFound,
            ) && *final(self) == *old(self),
            has_product(old(self).products@, pid) ==> ({
                let ps = old(self).products@;
                let p = ps[choose|i: int| 0 <= i < ps.len() && ps[i].id == pid];
                &&& !grants(claims, p.event_id) ==> r == Err::<Product, OrderError>(
                    OrderError::Forbidden,
                ) && *final(self) == *old(self)
                &&& grants(claims, p.event_id) ==> product_updated(
                    *old(self),
                    *final(self),
                    pid,
                    price,
                    initial_stock,
                    r,
                )
            }),
    {
        let event_id = match self.product(pid) {
            None => {
                return Err(OrderError::NotFound);
            },
            Some(p) => p.event_id,
        };
        if !can_write(claims, event_id) {
            return Err(OrderError::Forbidden);
        }
        self.update_product(pid, price, initial_stock)
    }
}

} // verus!
