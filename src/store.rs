use vstd::prelude::*;

use crate::error::{same_error, OrderError};
use crate::models::{MasterProduct, Order, OrderItem, OrderStatus, Product};
use crate::orders::{returned, with_status};
use crate::text::copy_optional;

verus! {

/// What a reservation hands on: the product as it was priced and named.
#[derive(Debug)]
pub struct ReservedItem {
    pub product_id: i64,
    pub name: String,
    pub price: i64,
    pub image_url: Option<String>,
}

/// The inventory and order tables of the point of sale.
///
/// Every order and product operation keeps the invariant `wf`, and either
/// applies completely or, when it returns an error, leaves the store
/// untouched. `reserve` and `restore` are the stock ledger's steps inside
/// those operations; on their own they do not keep the invariant.
#[derive(Debug)]
pub struct Store {
    pub products: Vec<Product>,
    pub orders: Vec<Order>,
    pub items: Vec<OrderItem>,
    pub next_product_id: i64,
    pub next_order_id: i64,
    pub next_item_id: i64,
}

// ---------------------------------------------------------------------
// Products

/// Index `i` holds product `pid` of event `eid`.
pub open spec fn in_event(ps: Seq<Product>, pid: i64, eid: i64, i: int) -> bool {
    0 <= i < ps.len() && ps[i].id == pid && ps[i].event_id == eid
}

/// Event `eid` stocks product `pid`.
pub open spec fn stocks(ps: Seq<Product>, pid: i64, eid: i64) -> bool {
    exists|i: int| in_event(ps, pid, eid, i)
}

/// Product `pid` of event `eid`, where `stocks` holds.
pub open spec fn product_in(ps: Seq<Product>, pid: i64, eid: i64) -> Product {
    ps[choose|i: int| in_event(ps, pid, eid, i)]
}

/// Some product has id `pid`, whatever its event.
pub open spec fn has_product(ps: Seq<Product>, pid: i64) -> bool {
    exists|i: int| 0 <= i < ps.len() && ps[i].id == pid
}

pub open spec fn products_wf(ps: Seq<Product>) -> bool {
    forall|i: int| 0 <= i < ps.len() ==> #[trigger] ps[i].wf()
}

pub open spec fn unique_product_ids(ps: Seq<Product>) -> bool {
    forall|i: int, j: int| 0 <= i < ps.len() && 0 <= j < ps.len() && i != j ==> ps[i].id != ps[j].id
}

/// The product with its current stock replaced.
pub open spec fn with_stock(p: Product, stock: int) -> Product {
    Product { current_stock: stock as i64, ..p }
}

// ---------------------------------------------------------------------
// Order totals and units sold

/// Sum of the amounts of the lines of order `oid`.
pub open spec fn order_total(items: Seq<OrderItem>, oid: i64) -> int
    decreases items.len(),
{
    if items.len() == 0 {
        0
    } else {
        order_total(items.drop_last(), oid) + if items.last().order_id == oid {
            items.last().amount()
        } else {
            0
        }
    }
}

/// Order `oid` exists and is not cancelled.
pub open spec fn is_live(os: Seq<Order>, oid: i64) -> bool {
    exists|k: int| 0 <= k < os.len() && os[k].id == oid && os[k].status != OrderStatus::Cancelled
}

/// Units of product `pid` on the first `n` lines whose order is not
/// cancelled: the units that product has sold.
pub open spec fn committed(its: Seq<OrderItem>, os: Seq<Order>, pid: i64, n: int) -> int
    decreases n,
{
    if n <= 0 {
        0
    } else {
        committed(its, os, pid, n - 1) + if its[n - 1].product_id == pid && is_live(
            os,
            its[n - 1].order_id,
        ) {
            its[n - 1].quantity as int
        } else {
            0
        }
    }
}

// ---------------------------------------------------------------------
// Product management

/// Event `eid` already stocks master product `mid`.
pub open spec fn stocks_master(ps: Seq<Product>, eid: i64, mid: i64) -> bool {
    exists|i: int| 0 <= i < ps.len() && ps[i].event_id == eid && ps[i].master_product_id == mid
}

/// The product with its price, initial stock and current stock replaced.
pub open spec fn restocked(p: Product, price: i64, initial: int, current: int) -> Product {
    Product { price, initial_stock: initial as i64, current_stock: current as i64, ..p }
}

/// What stocking master product `master` at event `eid` does: refused on
/// a negative initial stock, on a master product the event already stocks,
/// or when no product id is left; otherwise the product is appended with
/// the given price, or else the catalogue's, whatever its sign.
pub open spec fn product_added(old: Store, new: Store, eid: i64, master: MasterProduct, price: Option<i64>, initial_stock: i64, r: Result<Product, OrderError>) -> bool {
    let ps = old.products@;
    let pr = match price {
        Some(v) => v,
        None => master.default_price,
    };
    if initial_stock < 0 {
        r == Err::<Product, OrderError>(OrderError::InvalidStock) && new == old
    } else if stocks_master(ps, eid, master.id) {
        r == Err::<Product, OrderError>(OrderError::Conflict) && new == old
    } else if old.next_product_id == i64::MAX {
        r == Err::<Product, OrderError>(OrderError::Storage) && new == old
    } else {
        let p = Product {
            id: old.next_product_id,
            event_id: eid,
            master_product_id: master.id,
            product_code: master.product_code,
            name: master.name,
            price: pr,
            initial_stock,
            current_stock: initial_stock,
            image_url: master.image_url,
            category: master.category,
        };
        &&& r == Ok::<Product, OrderError>(p)
        &&& new.products@ == ps.push(p)
        &&& new.orders == old.orders
        &&& new.items == old.items
        &&& new.next_product_id == old.next_product_id + 1
        &&& new.next_order_id == old.next_order_id
        &&& new.next_item_id == old.next_item_id
    }
}

/// What changing product `pid` does: refused when the store lacks it or
/// when the new initial stock is below the units already sold; otherwise the
/// price (whatever its sign) and the initial stock are replaced and the
/// current stock is the new initial stock less the units sold.
pub open spec fn product_updated(old: Store, new: Store, pid: i64, price: Option<i64>, initial_stock: Option<i64>, r: Result<Product, OrderError>) -> bool {
    let ps = old.products@;
    if !has_product(ps, pid) {
        r == Err::<Product, OrderError>(OrderError::NotFound) && new == old
    } else {
        let i = choose|i: int| 0 <= i < ps.len() && ps[i].id == pid;
        let p = ps[i];
        let pr = match price {
            Some(v) => v,
            None => p.price,
        };
        let init = match initial_stock {
            Some(v) => v,
            None => p.initial_stock,
        };
        if init < p.sold() {
            r == Err::<Product, OrderError>(OrderError::InvalidStock) && new == old
        } else {
            let q = restocked(p, pr, init as int, init - p.sold());
            &&& r == Ok::<Product, OrderError>(q)
            &&& new.products@ == ps.update(i, q)
            &&& new.orders == old.orders
            &&& new.items == old.items
            &&& new.next_product_id == old.next_product_id
            &&& new.next_order_id == old.next_order_id
            &&& new.next_item_id == old.next_item_id
        }
    }
}

// ---------------------------------------------------------------------
// Lemmas

pub(crate) proof fn lemma_committed_prefix(a: Seq<OrderItem>, b: Seq<OrderItem>, os: Seq<Order>, pid: i64, n: int)
    requires
        0 <= n <= a.len(),
        n <= b.len(),
        forall|j: int| 0 <= j < n ==> a[j] == b[j],
    ensures
        committed(a, os, pid, n) == committed(b, os, pid, n),
    decreases n,
{
    if n > 0 {
        lemma_committed_prefix(a, b, os, pid, n - 1);
    }
}

pub(crate) proof fn lemma_committed_nonneg(its: Seq<OrderItem>, os: Seq<Order>, pid: i64, n: int)
    requires
        0 <= n <= its.len(),
        forall|j: int| 0 <= j < its.len() ==> #[trigger] its[j].quantity > 0,
    ensures
        committed(its, os, pid, n) >= 0,
    decreases n,
{
    if n > 0 {
        lemma_committed_nonneg(its, os, pid, n - 1);
    }
}

pub(crate) proof fn lemma_committed_fresh_product(its: Seq<OrderItem>, os: Seq<Order>, pid: i64, n: int)
    requires
        0 <= n <= its.len(),
        forall|j: int| 0 <= j < n ==> #[trigger] its[j].product_id != pid,
    ensures
        committed(its, os, pid, n) == 0,
    decreases n,
{
    if n > 0 {
        lemma_committed_fresh_product(its, os, pid, n - 1);
    }
}

/// Appending an order that no line of the first `n` names changes nothing.
pub(crate) proof fn lemma_committed_push_order(its: Seq<OrderItem>, os: Seq<Order>, o: Order, pid: i64, n: int)
    requires
        0 <= n <= its.len(),
        forall|j: int| 0 <= j < n ==> #[trigger] its[j].order_id != o.id,
    ensures
        committed(its, os.push(o), pid, n) == committed(its, os, pid, n),
    decreases n,
{
    if n > 0 {
        lemma_committed_push_order(its, os, o, pid, n - 1);
        let x = its[n - 1].order_id;
        if is_live(os.push(o), x) {
            let k = choose|k: int|
                0 <= k < os.push(o).len() && os.push(o)[k].id == x && os.push(o)[k].status
                    != OrderStatus::Cancelled;
            assert(k < os.len());
            assert(os[k] == os.push(o)[k]);
        }
        if is_live(os, x) {
            let k = choose|k: int| 0 <= k < os.len() && os[k].id == x && os[k].status != OrderStatus::Cancelled;
            assert(os.push(o)[k] == os[k]);
        }
    }
}

/// Changing the status of the live order at index `k`: cancelling it takes
/// its lines out of what is committed, any other change leaves that alone.
pub(crate) proof fn lemma_committed_status(its: Seq<OrderItem>, os: Seq<Order>, k: int, to: OrderStatus, pid: i64, n: int)
    requires
        0 <= k < os.len(),
        0 <= n <= its.len(),
        os[k].status != OrderStatus::Cancelled,
        forall|a: int, b: int| 0 <= a < b < os.len() ==> os[a].id < os[b].id,
    ensures
        committed(its, os.update(k, with_status(os[k], to)), pid, n) == committed(its, os, pid, n)
            - if to == OrderStatus::Cancelled {
            returned(its, os[k].id, pid, n)
        } else {
            0
        },
    decreases n,
{
    if n > 0 {
        lemma_committed_status(its, os, k, to, pid, n - 1);
        let os2 = os.update(k, with_status(os[k], to));
        let x = its[n - 1].order_id;
        if x == os[k].id {
            assert(is_live(os, x));
            if to == OrderStatus::Cancelled {
                if is_live(os2, x) {
                    let c = choose|c: int| 0 <= c < os2.len() && os2[c].id == x && os2[c].status != OrderStatus::Cancelled;
                    if c < k {
                        assert(os[c].id < os[k].id);
                    } else if c > k {
                        assert(os[k].id < os[c].id);
                    }
                }
            } else {
                assert(os2[k].id == x);
                assert(is_live(os2, x));
            }
        } else {
            if is_live(os2, x) {
                let c = choose|c: int| 0 <= c < os2.len() && os2[c].id == x && os2[c].status != OrderStatus::Cancelled;
                assert(c != k);
                assert(os[c] == os2[c]);
            }
            if is_live(os, x) {
                let c = choose|c: int| 0 <= c < os.len() && os[c].id == x && os[c].status != OrderStatus::Cancelled;
                assert(c != k);
                assert(os[c] == os2[c]);
            }
        }
    }
}

/// With unique ids, the product found at index `i` is the one `product_in`
/// names.
pub proof fn lemma_product_index(ps: Seq<Product>, pid: i64, eid: i64, i: int)
    requires
        unique_product_ids(ps),
        in_event(ps, pid, eid, i),
    ensures
        stocks(ps, pid, eid),
        product_in(ps, pid, eid) == ps[i],
{
    let j = choose|j: int| in_event(ps, pid, eid, j);
    assert(in_event(ps, pid, eid, j));
}

impl Store {
    /// The store's invariant: stock stays between zero and the initial stock,
    /// the units a product has sold are those on the lines of its orders
    /// that are not cancelled, ids are unique, and every order's total is the
    /// sum of its lines.
    pub open spec fn wf(&self) -> bool {
        let ps = self.products@;
        let os = self.orders@;
        let its = self.items@;
        &&& 1 <= self.next_product_id
        &&& 1 <= self.next_order_id
        &&& 1 <= self.next_item_id
        &&& forall|i: int| 0 <= i < ps.len() ==> #[trigger] ps[i].wf() && 0 < ps[i].id < self.next_product_id
        &&& unique_product_ids(ps)
        &&& forall|k: int|
            0 <= k < os.len() ==> 0 < #[trigger] os[k].id < self.next_order_id
                && os[k].total_amount == order_total(its, os[k].id)
        &&& forall|k: int, l: int| 0 <= k < l < os.len() ==> os[k].id < os[l].id
        &&& forall|j: int|
            #![trigger its[j]]
            0 <= j < its.len() ==> its[j].order_id < self.next_order_id && its[j].id
                < self.next_item_id && its[j].quantity > 0 && has_product(ps, its[j].product_id)
        &&& forall|i: int|
            #![trigger ps[i]]
            0 <= i < ps.len() ==> ps[i].initial_stock - ps[i].current_stock == committed(
                its,
                os,
                ps[i].id,
                its.len() as int,
            )
    }

    /// An empty store.
    pub fn new() -> (r: Store)
        ensures
            r.wf(),
            r.products@.len() == 0,
            r.orders@.len() == 0,
            r.items@.len() == 0,
            r.next_product_id == 1,
            r.next_order_id == 1,
            r.next_item_id == 1,
    {
        Store {
            products: Vec::new(),
            orders: Vec::new(),
            items: Vec::new(),
            next_product_id: 1,
            next_order_id: 1,
            next_item_id: 1,
        }
    }

    /// Where product `pid` of event `eid` stands, if the event stocks it.
    pub(crate) fn find_product(&self, pid: i64, eid: i64) -> (r: Option<usize>)
        ensures
            match r {
                Some(i) => in_event(self.products@, pid, eid, i as int),
                None => !stocks(self.products@, pid, eid),
            },
    {
        let mut i: usize = 0;
        while i < self.products.len()
            invariant
                i <= self.products@.len(),
                forall|j: int| 0 <= j < i ==> !in_event(self.products@, pid, eid, j),
            decreases self.products@.len() - i,
        {
            if self.products[i].id == pid && self.products[i].event_id == eid {
                return Some(i);
            }
            i = i + 1;
        }
        None
    }

    /// Where product `pid` stands, whatever its event.
    pub(crate) fn find_product_id(&self, pid: i64) -> (r: Option<usize>)
        ensures
            match r {
                Some(i) => i < self.products@.len() && self.products@[i as int].id == pid,
                None => !has_product(self.products@, pid),
            },
    {
        let mut i: usize = 0;
        while i < self.products.len()
            invariant
                i <= self.products@.len(),
                forall|j: int| 0 <= j < i ==> self.products@[j].id != pid,
            decreases self.products@.len() - i,
        {
            if self.products[i].id == pid {
                return Some(i);
            }
            i = i + 1;
        }
        None
    }

    /// Sets the current stock of the product at index `i`.
    fn set_stock(&mut self, i: usize, stock: i64)
        requires
            i < old(self).products@.len(),
        ensures
            final(self).products@ == old(self).products@.update(
                i as int,
                with_stock(old(self).products@[i as int], stock as int),
            ),
            final(self).orders == old(self).orders,
            final(self).items == old(self).items,
            final(self).next_product_id == old(self).next_product_id,
            final(self).next_order_id == old(self).next_order_id,
            final(self).next_item_id == old(self).next_item_id,
    {
        let mut p = self.products.remove(i);
        p.current_stock = stock;
        self.products.insert(i, p);
        assert(self.products@ =~= old(self).products@.update(
            i as int,
            with_stock(old(self).products@[i as int], stock as int),
        ));
    }

    /// Takes `quantity` units of product `pid` of event `eid` out of stock.
    pub fn reserve(&mut self, pid: i64, eid: i64, quantity: i64) -> (r: Result<ReservedItem, OrderError>)
        requires
            unique_product_ids(old(self).products@),
            quantity > 0,
        ensures
            !stocks(old(self).products@, pid, eid) ==> r is Err && r->Err_0 == OrderError::NotFound,
            stocks(old(self).products@, pid, eid) ==> ({
                let p = product_in(old(self).products@, pid, eid);
                if p.current_stock < quantity {
                    r is Err && same_error(
                        r->Err_0,
                        OrderError::InsufficientStock { product_name: p.name },
                    )
                } else {
                    r is Ok
                }
            }),
            r is Err ==> *final(self) == *old(self),
            r is Ok ==> ({
                let ri = r->Ok_0;
                let p = product_in(old(self).products@, pid, eid);
                &&& ri.product_id == pid
                &&& ri.name == p.name
                &&& ri.price == p.price
                &&& ri.image_url == p.image_url
                &&& exists|i: int|
                    in_event(old(self).products@, pid, eid, i) && final(self).products@
                        == old(self).products@.update(i, with_stock(p, p.current_stock - quantity))
                &&& final(self).orders == old(self).orders
                &&& final(self).items == old(self).items
                &&& final(self).next_product_id == old(self).next_product_id
                &&& final(self).next_order_id == old(self).next_order_id
                &&& final(self).next_item_id == old(self).next_item_id
            }),
    {
        match self.find_product(pid, eid) {
            None => Err(OrderError::NotFound),
            Some(i) => {
                proof {
                    lemma_product_index(self.products@, pid, eid, i as int);
                }
                let stock = self.products[i].current_stock;
                if stock < quantity {
                    return Err(
                        OrderError::InsufficientStock { product_name: self.products[i].name.clone() },
                    );
                }
                let item = ReservedItem {
                    product_id: pid,
                    name: self.products[i].name.clone(),
                    price: self.products[i].price,
                    image_url: copy_optional(&self.products[i].image_url),
                };
                self.set_stock(i, stock - quantity);
                assert(in_event(old(self).products@, pid, eid, i as int));
                Ok(item)
            }
        }
    }

    /// Puts `quantity` units of product `pid` back into stock, without a
    /// check of its own: the caller gives back only units that were taken,
    /// so the stock cannot pass the initial stock.
    pub fn restore(&mut self, pid: i64, quantity: i64) -> (r: Result<(), OrderError>)
        requires
            unique_product_ids(old(self).products@),
            products_wf(old(self).products@),
            quantity > 0,
            forall|i: int|
                0 <= i < old(self).products@.len() && old(self).products@[i].id == pid
                    ==> old(self).products@[i].current_stock + quantity <= old(self).products@[i].initial_stock,
        ensures
            !has_product(old(self).products@, pid) ==> r == Err::<(), OrderError>(OrderError::NotFound)
                && *final(self) == *old(self),
            has_product(old(self).products@, pid) ==> ({
                let i = choose|i: int| 0 <= i < old(self).products@.len() && old(self).products@[i].id == pid;
                let p = old(self).products@[i];
                &&& r is Ok
                &&& final(self).products@ == old(self).products@.update(
                    i,
                    with_stock(p, p.current_stock + quantity),
                )
                &&& final(self).orders == old(self).orders
                &&& final(self).items == old(self).items
                &&& final(self).next_product_id == old(self).next_product_id
                &&& final(self).next_order_id == old(self).next_order_id
                &&& final(self).next_item_id == old(self).next_item_id
            }),
    {
        match self.find_product_id(pid) {
            None => Err(OrderError::NotFound),
            Some(i) => {
                let ghost c = choose|c: int| 0 <= c < self.products@.len() && self.products@[c].id == pid;
                assert(c == i);
                let stock = self.products[i].current_stock;
                self.set_stock(i, stock + quantity);
                Ok(())
            }
        }
    }

    /// Whether event `eid` already stocks master product `mid`.
    fn has_master(&self, eid: i64, mid: i64) -> (r: bool)
        ensures
            r == stocks_master(self.products@, eid, mid),
    {
        let mut i: usize = 0;
        while i < self.products.len()
            invariant
                i <= self.products@.len(),
                forall|q: int|
                    0 <= q < i ==> !(self.products@[q].event_id == eid
                        && self.products@[q].master_product_id == mid),
            decreases self.products@.len() - i,
        {
            if self.products[i].event_id == eid && self.products[i].master_product_id == mid {
                return true;
            }
            i = i + 1;
        }
        false
    }

    /// Stocks master product `master` at event `eid`, at the given price or
    /// else the catalogue's, with `initial_stock` units all still available.
    pub fn add_product_to_event(&mut self, eid: i64, master: &MasterProduct, price: Option<i64>, initial_stock: i64) -> (r: Result<Product, OrderError>)
        requires
            old(self).wf(),
        ensures
            final(self).wf(),
            product_added(*old(self), *final(self), eid, *master, price, initial_stock, r),
    {
        let pr = match price {
            Some(v) => v,
            None => master.default_price,
        };
        if initial_stock < 0 {
            return Err(OrderError::InvalidStock);
        }
        if self.has_master(eid, master.id) {
            return Err(OrderError::Conflict);
        }
        if self.next_product_id == i64::MAX {
            return Err(OrderError::Storage);
        }
        let p = Product {
            id: self.next_product_id,
            event_id: eid,
            master_product_id: master.id,
            product_code: master.product_code.clone(),
            name: master.name.clone(),
            price: pr,
            initial_stock,
            current_stock: initial_stock,
            image_url: copy_optional(&master.image_url),
            category: copy_optional(&master.category),
        };
        let out = p.copied();
        self.products.push(p);
        self.next_product_id = self.next_product_id + 1;
        proof {
            let ps = self.products@;
            let ps0 = old(self).products@;
            assert forall|q: int| 0 <= q < ps.len() implies #[trigger] ps[q].wf() && 0 < ps[q].id
                < self.next_product_id by {
                if q < ps0.len() {
                    assert(ps[q] == ps0[q]);
                    assert(ps0[q].wf());
                }
            }
            assert forall|a: int, b: int|
                0 <= a < ps.len() && 0 <= b < ps.len() && a != b implies ps[a].id != ps[b].id by {
                if a < ps0.len() {
                    assert(ps0[a].wf());
                }
                if b < ps0.len() {
                    assert(ps0[b].wf());
                }
            }
            let its = self.items@;
            let os = self.orders@;
            assert forall|j: int| 0 <= j < its.len() implies has_product(ps, #[trigger] its[j].product_id) by {
                assert(has_product(ps0, its[j].product_id));
                let c = choose|c: int| 0 <= c < ps0.len() && ps0[c].id == its[j].product_id;
                assert(ps[c] == ps0[c]);
            }
            let new_id = ps[ps0.len() as int].id;
            assert forall|j: int| 0 <= j < its.len() implies #[trigger] its[j].product_id != new_id by {
                assert(has_product(ps0, its[j].product_id));
                let c = choose|c: int| 0 <= c < ps0.len() && ps0[c].id == its[j].product_id;
                assert(ps0[c].wf());
            }
            lemma_committed_fresh_product(its, os, new_id, its.len() as int);
            assert forall|i: int| 0 <= i < ps.len() implies ps[i].initial_stock - ps[i].current_stock
                == committed(its, os, #[trigger] ps[i].id, its.len() as int) by {
                if i < ps0.len() {
                    assert(ps[i] == ps0[i]);
                }
            }
        }
        Ok(out)
    }

    /// Changes the price and the initial stock of product `pid`. The units
    /// already sold stay sold: the current stock becomes the new initial
    /// stock less what was sold, and an initial stock below that is refused.
    #[verifier::spinoff_prover]
    #[verifier::rlimit(30)]
    pub fn update_product(&mut self, pid: i64, price: Option<i64>, initial_stock: Option<i64>) -> (r: Result<Product, OrderError>)
        requires
            old(self).wf(),
        ensures
            final(self).wf(),
            product_updated(*old(self), *final(self), pid, price, initial_stock, r),
    {
        let i = match self.find_product_id(pid) {
            None => {
                return Err(OrderError::NotFound);
            },
            Some(i) => i,
        };
        proof {
            let c = choose|c: int| 0 <= c < self.products@.len() && self.products@[c].id == pid;
            assert(c == i);
            assert(self.products@[i as int].wf());
        }
        let pr = match price {
            Some(v) => v,
            None => self.products[i].price,
        };
        let init = match initial_stock {
            Some(v) => v,
            None => self.products[i].initial_stock,
        };
        let sold = self.products[i].initial_stock - self.products[i].current_stock;
        if init < sold {
            return Err(OrderError::InvalidStock);
        }
        let mut p = self.products.remove(i);
        p.price = pr;
        p.initial_stock = init;
        p.current_stock = init - sold;
        let out = p.copied();
        self.products.insert(i, p);
        proof {
            let ps = self.products@;
            let ps0 = old(self).products@;
            assert(ps =~= ps0.update(i as int, out));
            assert forall|q: int| 0 <= q < ps.len() implies #[trigger] ps[q].wf() && 0 < ps[q].id
                < self.next_product_id by {
                assert(ps0[q].wf());
            }
            assert forall|a: int, b: int|
                0 <= a < ps.len() && 0 <= b < ps.len() && a != b implies ps[a].id != ps[b].id by {
                assert(ps[a].id == ps0[a].id);
                assert(ps[b].id == ps0[b].id);
            }
            let its = self.items@;
            let os = self.orders@;
            assert forall|j: int| 0 <= j < its.len() implies has_product(ps, #[trigger] its[j].product_id) by {
                assert(has_product(ps0, its[j].product_id));
                let c = choose|c: int| 0 <= c < ps0.len() && ps0[c].id == its[j].product_id;
                assert(ps[c].id == ps0[c].id);
            }
            assert forall|q: int| 0 <= q < ps.len() implies ps[q].initial_stock - ps[q].current_stock
                == committed(its, os, #[trigger] ps[q].id, its.len() as int) by {
                assert(ps0[q].initial_stock - ps0[q].current_stock == committed(its, os, ps0[q].id, its.len() as int));
            }
            assert forall|j: int| #![trigger its[j]] 0 <= j < its.len() implies its[j].order_id < self.next_order_id
                && its[j].id < self.next_item_id && its[j].quantity > 0 && has_product(ps, its[j].product_id) by {
                assert(has_product(ps, its[j].product_id));
            }
            assert(self.wf());
        }
        Ok(out)
    }

    /// Product `pid`, if the store has it.
    pub fn product(&self, pid: i64) -> (r: Option<Product>)
        requires
            self.wf(),
        ensures
            r is Some <==> has_product(self.products@, pid),
            r is Some ==> r->Some_0 == self.products@[choose|i: int|
                0 <= i < self.products@.len() && self.products@[i].id == pid],
            r is Some ==> r->Some_0.id == pid,
    {
        match self.find_product_id(pid) {
            None => None,
            Some(i) => {
                let ghost c = choose|c: int| 0 <= c < self.products@.len() && self.products@[c].id == pid;
                proof {
                    assert(0 <= c < self.products@.len() && self.products@[c].id == pid);
                }
                assert(c == i);
                Some(self.products[i].copied())
            },
        }
    }
}

} // verus!
