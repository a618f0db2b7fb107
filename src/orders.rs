use vstd::prelude::*;

use crate::error::{same_error, OrderError};
use crate::models::{CreateOrderDTO, CreateOrderItemDTO, Order, OrderItem, OrderStatus, OrderWithItems, Product};
use crate::store::{
    committed, has_product, in_event, is_live, lemma_committed_nonneg,
    lemma_committed_prefix, lemma_committed_push_order, lemma_committed_status,
    lemma_product_index, order_total, product_in, stocks, with_stock, Store,
};
use crate::text::{optional_upload_url, upload_path};
use std::collections::HashMap;

verus! {

broadcast use vstd::std_specs::hash::group_hash_axioms;

// ---------------------------------------------------------------------
// Lines

/// Sum of the amounts of all the lines.
pub open spec fn lines_total(items: Seq<OrderItem>) -> int
    decreases items.len(),
{
    if items.len() == 0 {
        0
    } else {
        lines_total(items.drop_last()) + items.last().amount()
    }
}

/// The lines of order `oid`, in the order they were stored.
pub open spec fn items_of(items: Seq<OrderItem>, oid: i64) -> Seq<OrderItem>
    decreases items.len(),
{
    if items.len() == 0 {
        Seq::empty()
    } else if items.last().order_id == oid {
        items_of(items.drop_last(), oid).push(items.last())
    } else {
        items_of(items.drop_last(), oid)
    }
}

/// Units of product `pid` on the first `n` lines of order `oid`.
pub open spec fn returned(items: Seq<OrderItem>, oid: i64, pid: i64, n: int) -> int
    decreases n,
{
    if n <= 0 {
        0
    } else {
        returned(items, oid, pid, n - 1) + if items[n - 1].order_id == oid && items[n
            - 1].product_id == pid {
            items[n - 1].quantity as int
        } else {
            0
        }
    }
}

// ---------------------------------------------------------------------
// Placing an order

/// Units of product `pid` asked for by the first `k` requested lines.
pub open spec fn demand(reqs: Seq<CreateOrderItemDTO>, pid: i64, k: int) -> int
    decreases k,
{
    if k <= 0 {
        0
    } else {
        demand(reqs, pid, k - 1) + if reqs[k - 1].product_id == pid {
            reqs[k - 1].quantity as int
        } else {
            0
        }
    }
}

/// Amount of requested line `k` at the event's price.
pub open spec fn line_amount(ps: Seq<Product>, eid: i64, reqs: Seq<CreateOrderItemDTO>, k: int) -> int {
    product_in(ps, reqs[k].product_id, eid).price * reqs[k].quantity
}

/// Amount of the first `k` requested lines at the event's prices.
pub open spec fn subtotal(ps: Seq<Product>, eid: i64, reqs: Seq<CreateOrderItemDTO>, k: int) -> int
    decreases k,
{
    if k <= 0 {
        0
    } else {
        subtotal(ps, eid, reqs, k - 1) + line_amount(ps, eid, reqs, k - 1)
    }
}

pub open spec fn fits_i64(x: int) -> bool {
    i64::MIN <= x <= i64::MAX
}

/// Every running total of the order fits the amount type.
pub open spec fn total_fits(ps: Seq<Product>, eid: i64, reqs: Seq<CreateOrderItemDTO>) -> bool {
    forall|k: int| 0 < k <= reqs.len() ==> fits_i64(#[trigger] subtotal(ps, eid, reqs, k))
}

/// What goes wrong with requested line `k`, taking the lines before it as
/// reserved already.
pub open spec fn line_failure(ps: Seq<Product>, eid: i64, reqs: Seq<CreateOrderItemDTO>, k: int) -> Option<OrderError> {
    let pid = reqs[k].product_id;
    if !stocks(ps, pid, eid) {
        Some(OrderError::NotFound)
    } else if product_in(ps, pid, eid).current_stock < demand(reqs, pid, k + 1) {
        Some(OrderError::InsufficientStock { product_name: product_in(ps, pid, eid).name })
    } else {
        None
    }
}

/// Line `k` is the first requested line that fails.
pub open spec fn first_failure(ps: Seq<Product>, eid: i64, reqs: Seq<CreateOrderItemDTO>, k: int) -> bool {
    &&& 0 <= k < reqs.len()
    &&& line_failure(ps, eid, reqs, k) is Some
    &&& forall|j: int| 0 <= j < k ==> line_failure(ps, eid, reqs, j) is None
}

pub open spec fn quantities_positive(reqs: Seq<CreateOrderItemDTO>) -> bool {
    forall|j: int| 0 <= j < reqs.len() ==> reqs[j].quantity > 0
}

/// The store has ids left for one more order with `n` lines.
pub open spec fn ids_available(s: Store, n: int) -> bool {
    s.next_order_id < i64::MAX && s.next_item_id + n <= i64::MAX
}

/// An order with these lines can be placed.
pub open spec fn order_acceptable(s: Store, eid: i64, reqs: Seq<CreateOrderItemDTO>) -> bool {
    &&& reqs.len() > 0
    &&& quantities_positive(reqs)
    &&& lines_available(s.products@, eid, reqs)
    &&& total_fits(s.products@, eid, reqs)
    &&& ids_available(s, reqs.len() as int)
}

/// Every requested line names a product of the event with enough stock
/// left by the lines before it.
pub open spec fn lines_available(ps: Seq<Product>, eid: i64, reqs: Seq<CreateOrderItemDTO>) -> bool {
    forall|k: int| 0 <= k < reqs.len() ==> line_failure(ps, eid, reqs, k) is None
}

/// The error that refuses the order: an empty order, then a bad quantity,
/// then the first line without its product or its stock, then a total that
/// does not fit, then exhausted ids.
pub open spec fn order_refusal(s: Store, eid: i64, reqs: Seq<CreateOrderItemDTO>, e: OrderError) -> bool {
    if reqs.len() == 0 {
        e == OrderError::EmptyOrder
    } else if !quantities_positive(reqs) {
        e == OrderError::InvalidQuantity
    } else if !lines_available(s.products@, eid, reqs) {
        exists|k: int|
            first_failure(s.products@, eid, reqs, k) && same_error(
                e,
                line_failure(s.products@, eid, reqs, k)->Some_0,
            )
    } else if !total_fits(s.products@, eid, reqs) {
        e == OrderError::AmountOverflow
    } else {
        e == OrderError::Storage
    }
}

/// Line `it` records requested line `req` of order `oid`, taken from
/// product `p`.
pub open spec fn line_records(it: OrderItem, item_id: int, oid: i64, req: CreateOrderItemDTO, p: Product) -> bool {
    &&& it.id == item_id
    &&& it.order_id == oid
    &&& it.product_id == req.product_id
    &&& it.quantity == req.quantity
    &&& it.product_name == p.name
    &&& it.product_price == p.price
    &&& it.product_image_url.is_none() == p.image_url.is_none()
    &&& p.image_url.is_some() ==> it.product_image_url.unwrap()@ == upload_path(p.image_url.unwrap()@)
}

/// The store after a successful order, and the order returned.
pub open spec fn order_applied(old: Store, new: Store, eid: i64, reqs: Seq<CreateOrderItemDTO>, created_at: i64, o: OrderWithItems) -> bool {
    let n = reqs.len();
    let ps = old.products@;
    &&& o.order == (Order {
        id: old.next_order_id,
        event_id: eid,
        total_amount: subtotal(ps, eid, reqs, n as int) as i64,
        status: OrderStatus::Pending,
        created_at,
    })
    &&& o.order.total_amount == subtotal(ps, eid, reqs, n as int)
    &&& o.items@.len() == n
    &&& forall|k: int|
        0 <= k < n ==> line_records(
            #[trigger] o.items@[k],
            old.next_item_id + k,
            old.next_order_id,
            reqs[k],
            product_in(ps, reqs[k].product_id, eid),
        )
    &&& new.products@.len() == ps.len()
    &&& forall|i: int|
        0 <= i < ps.len() ==> 0 <= demand(reqs, #[trigger] ps[i].id, n as int) <= ps[i].current_stock
    &&& forall|i: int|
        0 <= i < ps.len() ==> #[trigger] new.products@[i] == with_stock(
            ps[i],
            ps[i].current_stock - demand(reqs, ps[i].id, n as int),
        )
    &&& new.orders@ == old.orders@.push(o.order)
    &&& new.items@ == old.items@ + o.items@
    &&& new.next_product_id == old.next_product_id
    &&& new.next_order_id == old.next_order_id + 1
    &&& new.next_item_id == old.next_item_id + n
}

/// What placing an order does: exactly when the order is acceptable it is
/// placed, and otherwise the store is unchanged and the error says why.
pub open spec fn order_placed(old: Store, new: Store, eid: i64, reqs: Seq<CreateOrderItemDTO>, created_at: i64, r: Result<OrderWithItems, OrderError>) -> bool {
    &&& (r is Ok <==> order_acceptable(old, eid, reqs))
    &&& match r {
        Ok(o) => order_applied(old, new, eid, reqs, created_at, o),
        Err(e) => new == old && order_refusal(old, eid, reqs, e),
    }
}

// ---------------------------------------------------------------------
// Status changes

/// Index `k` holds order `oid` of event `eid`.
pub open spec fn order_at(os: Seq<Order>, oid: i64, eid: i64, k: int) -> bool {
    0 <= k < os.len() && os[k].id == oid && os[k].event_id == eid
}

/// Event `eid` has order `oid`.
pub open spec fn has_order(os: Seq<Order>, oid: i64, eid: i64) -> bool {
    exists|k: int| order_at(os, oid, eid, k)
}

/// Order `oid` of event `eid`, where `has_order` holds.
pub open spec fn order_in(os: Seq<Order>, oid: i64, eid: i64) -> Order {
    os[choose|k: int| order_at(os, oid, eid, k)]
}

/// The life cycle: a pending order may be completed or cancelled, a
/// completed one cancelled, and a cancelled one nothing more. Setting the
/// status an order already has changes nothing.
pub open spec fn can_transition(from: OrderStatus, to: OrderStatus) -> bool {
    from == to || from == OrderStatus::Pending || (from == OrderStatus::Completed && to
        == OrderStatus::Cancelled)
}

/// The order with its status replaced.
pub open spec fn with_status(o: Order, status: OrderStatus) -> Order {
    Order { status, ..o }
}

/// Every line of order `oid` names a product, and giving the lines back
/// leaves no product above its initial stock.
pub open spec fn restitution_fits(s: Store, oid: i64) -> bool {
    let ps = s.products@;
    let its = s.items@;
    &&& forall|j: int|
        0 <= j < its.len() && #[trigger] its[j].order_id == oid ==> has_product(ps, its[j].product_id)
    &&& forall|i: int|
        0 <= i < ps.len() ==> #[trigger] ps[i].current_stock + returned(its, oid, ps[i].id, its.len() as int)
            <= ps[i].initial_stock
}

/// The products once the lines of order `oid` are given back.
pub open spec fn restituted(ps: Seq<Product>, its: Seq<OrderItem>, oid: i64, i: int) -> Product {
    with_stock(ps[i], ps[i].current_stock + returned(its, oid, ps[i].id, its.len() as int))
}

/// What changing the status of order `oid` of event `eid` to `to` does.
/// Cancelling gives every line's units back to its product; cancelling a
/// cancelled order changes nothing and returns the order as it is.
pub open spec fn status_updated(old: Store, new: Store, oid: i64, eid: i64, to: OrderStatus, r: Result<Order, OrderError>) -> bool {
    if !has_order(old.orders@, oid, eid) {
        new == old && r == Err::<Order, OrderError>(OrderError::NotFound)
    } else {
        let o = order_in(old.orders@, oid, eid);
        if !can_transition(o.status, to) {
            new == old && r == Err::<Order, OrderError>(OrderError::InvalidTransition)
        } else if o.status == to {
            new == old && r == Ok::<Order, OrderError>(o)
        } else {
            &&& r == Ok::<Order, OrderError>(with_status(o, to))
            &&& new.orders@.len() == old.orders@.len()
            &&& forall|k: int|
                0 <= k < old.orders@.len() ==> #[trigger] new.orders@[k] == if old.orders@[k].id
                    == oid {
                    with_status(old.orders@[k], to)
                } else {
                    old.orders@[k]
                }
            &&& new.items == old.items
            &&& new.products@.len() == old.products@.len()
            &&& forall|i: int|
                0 <= i < old.products@.len() ==> #[trigger] new.products@[i] == if to
                    == OrderStatus::Cancelled {
                    restituted(old.products@, old.items@, oid, i)
                } else {
                    old.products@[i]
                }
            &&& new.next_product_id == old.next_product_id
            &&& new.next_order_id == old.next_order_id
            &&& new.next_item_id == old.next_item_id
        }
    }
}

// ---------------------------------------------------------------------
// Listing

/// Order `o` belongs to event `eid` and has the status asked for, if any.
pub open spec fn selected(o: Order, eid: i64, status: Option<OrderStatus>) -> bool {
    o.event_id == eid && (status is None || o.status == status->Some_0)
}

/// The selected orders, the most recent first.
pub open spec fn listed(os: Seq<Order>, eid: i64, status: Option<OrderStatus>) -> Seq<Order>
    decreases os.len(),
{
    if os.len() == 0 {
        Seq::empty()
    } else if selected(os.last(), eid, status) {
        seq![os.last()] + listed(os.drop_last(), eid, status)
    } else {
        listed(os.drop_last(), eid, status)
    }
}

/// Each header of `os` with its lines out of `its`, in the order given.
pub open spec fn assembled(os: Seq<Order>, its: Seq<OrderItem>, r: Seq<OrderWithItems>) -> bool {
    &&& r.len() == os.len()
    &&& forall|q: int|
        0 <= q < os.len() ==> (#[trigger] r[q]).order == os[q] && r[q].items@ == items_of(
            its,
            os[q].id,
        )
}

// ---------------------------------------------------------------------
// Lemmas

pub(crate) proof fn lemma_returned_mono(its: Seq<OrderItem>, oid: i64, pid: i64, a: int, b: int)
    requires
        0 <= a <= b <= its.len(),
        forall|j: int| 0 <= j < its.len() ==> #[trigger] its[j].quantity > 0,
    ensures
        0 <= returned(its, oid, pid, a) <= returned(its, oid, pid, b),
    decreases b,
{
    if b > a {
        lemma_returned_mono(its, oid, pid, a, b - 1);
        assert(its[b - 1].quantity > 0);
    } else if a > 0 {
        lemma_returned_mono(its, oid, pid, a - 1, a - 1);
        assert(its[a - 1].quantity > 0);
    }
}

/// The lines of a live order appended after the first `m0` lines commit
/// what they ask for.
pub(crate) proof fn lemma_committed_lines(its: Seq<OrderItem>, os: Seq<Order>, m0: int, reqs: Seq<CreateOrderItemDTO>, lines: Seq<OrderItem>, ps: Seq<Product>, eid: i64, first: int, oid: i64, pid: i64, q: int)
    requires
        0 <= m0,
        0 <= q <= reqs.len(),
        lines.len() == reqs.len(),
        its.len() == m0 + lines.len(),
        is_live(os, oid),
        forall|j: int| 0 <= j < lines.len() ==> its[m0 + j] == lines[j],
        forall|j: int|
            0 <= j < reqs.len() ==> line_records(
                #[trigger] lines[j],
                first + j,
                oid,
                reqs[j],
                product_in(ps, reqs[j].product_id, eid),
            ),
    ensures
        committed(its, os, pid, m0 + q) == committed(its, os, pid, m0) + demand(reqs, pid, q),
    decreases q,
{
    if q > 0 {
        lemma_committed_lines(its, os, m0, reqs, lines, ps, eid, first, oid, pid, q - 1);
        assert(its[m0 + q - 1] == lines[q - 1]);
        assert(line_records(lines[q - 1], first + q - 1, oid, reqs[q - 1], product_in(ps, reqs[q - 1].product_id, eid)));
    }
}

/// The listing holds selected orders of the table, each once, with ids
/// strictly decreasing, and every selected order.
pub(crate) proof fn lemma_listed(os: Seq<Order>, eid: i64, status: Option<OrderStatus>)
    requires
        forall|a: int, b: int| 0 <= a < b < os.len() ==> os[a].id < os[b].id,
    ensures
        forall|q: int|
            0 <= q < listed(os, eid, status).len() ==> selected(
                #[trigger] listed(os, eid, status)[q],
                eid,
                status,
            ) && exists|k: int| 0 <= k < os.len() && os[k] == listed(os, eid, status)[q],
        forall|a: int, b: int|
            0 <= a < b < listed(os, eid, status).len() ==> #[trigger] listed(os, eid, status)[a].id
                > #[trigger] listed(os, eid, status)[b].id,
        forall|k: int|
            0 <= k < os.len() && selected(#[trigger] os[k], eid, status) ==> listed(
                os,
                eid,
                status,
            ).contains(os[k]),
    decreases os.len(),
{
    if os.len() > 0 {
        let d = os.drop_last();
        let n = os.len() - 1;
        lemma_listed(d, eid, status);
        let ld = listed(d, eid, status);
        let l = listed(os, eid, status);
        assert forall|q: int| 0 <= q < ld.len() implies exists|k: int| 0 <= k < n && os[k] == #[trigger] ld[q] by {
            let k = choose|k: int| 0 <= k < d.len() && d[k] == ld[q];
            assert(os[k] == d[k]);
        }
        if selected(os.last(), eid, status) {
            assert(l == seq![os[n]] + ld);
            assert forall|q: int| 0 <= q < l.len() implies selected(#[trigger] l[q], eid, status)
                && exists|k: int| 0 <= k < os.len() && os[k] == l[q] by {
                if q == 0 {
                    assert(os[n] == l[q]);
                } else {
                    assert(l[q] == ld[q - 1]);
                    let k = choose|k: int| 0 <= k < n && os[k] == ld[q - 1];
                    assert(os[k] == l[q]);
                }
            }
            assert forall|a: int, b: int| 0 <= a < b < l.len() implies #[trigger] l[a].id > #[trigger] l[b].id by {
                assert(l[b] == ld[b - 1]);
                let k = choose|k: int| 0 <= k < n && os[k] == ld[b - 1];
                if a == 0 {
                    assert(os[k].id < os[n].id);
                } else {
                    assert(l[a] == ld[a - 1]);
                    assert(ld[a - 1].id > ld[b - 1].id);
                }
            }
            assert forall|k: int| 0 <= k < os.len() && selected(#[trigger] os[k], eid, status) implies l.contains(os[k]) by {
                if k == n {
                    assert(l[0] == os[k]);
                } else {
                    assert(os[k] == d[k]);
                    assert(ld.contains(d[k]));
                    let q = choose|q: int| 0 <= q < ld.len() && ld[q] == d[k];
                    assert(l[q + 1] == os[k]);
                }
            }
        } else {
            assert(l == ld);
            assert forall|q: int| 0 <= q < l.len() implies selected(#[trigger] l[q], eid, status)
                && exists|k: int| 0 <= k < os.len() && os[k] == l[q] by {
                let k = choose|k: int| 0 <= k < n && os[k] == ld[q];
                assert(os[k] == l[q]);
            }
            assert forall|k: int| 0 <= k < os.len() && selected(#[trigger] os[k], eid, status) implies l.contains(os[k]) by {
                assert(k != n);
                assert(os[k] == d[k]);
            }
        }
    }
}

/// With increasing ids, the order found at index `k` is the one `order_in`
/// names, and no other index holds its id.
pub proof fn lemma_order_index(os: Seq<Order>, oid: i64, eid: i64, k: int)
    requires
        forall|a: int, b: int| 0 <= a < b < os.len() ==> os[a].id < os[b].id,
        order_at(os, oid, eid, k),
    ensures
        has_order(os, oid, eid),
        order_in(os, oid, eid) == os[k],
        forall|q: int| 0 <= q < os.len() && q != k ==> os[q].id != oid,
{
    let c = choose|c: int| order_at(os, oid, eid, c);
    assert(order_at(os, oid, eid, c));
    assert forall|q: int| 0 <= q < os.len() && q != k implies os[q].id != oid by {
        if q < k {
            assert(os[q].id < os[k].id);
        } else {
            assert(os[k].id < os[q].id);
        }
    }
}

pub(crate) proof fn lemma_demand_nonneg(reqs: Seq<CreateOrderItemDTO>, pid: i64, k: int)
    requires
        quantities_positive(reqs),
        k <= reqs.len(),
    ensures
        demand(reqs, pid, k) >= 0,
    decreases k,
{
    if k > 0 {
        lemma_demand_nonneg(reqs, pid, k - 1);
    }
}

proof fn lemma_order_total_fresh(items: Seq<OrderItem>, oid: i64)
    requires
        forall|j: int| 0 <= j < items.len() ==> items[j].order_id < oid,
    ensures
        order_total(items, oid) == 0,
        items_of(items, oid) == Seq::<OrderItem>::empty(),
    decreases items.len(),
{
    if items.len() > 0 {
        lemma_order_total_fresh(items.drop_last(), oid);
    }
}

proof fn lemma_order_total_push(items: Seq<OrderItem>, it: OrderItem, oid: i64)
    ensures
        order_total(items.push(it), oid) == order_total(items, oid) + if it.order_id == oid {
            it.amount()
        } else {
            0
        },
        items_of(items.push(it), oid) == if it.order_id == oid {
            items_of(items, oid).push(it)
        } else {
            items_of(items, oid)
        },
{
    assert(items.push(it).drop_last() =~= items);
}

/// Whether every requested quantity is positive.
fn all_positive(reqs: &Vec<CreateOrderItemDTO>) -> (r: bool)
    ensures
        r == quantities_positive(reqs@),
{
    let mut j: usize = 0;
    while j < reqs.len()
        invariant
            j <= reqs@.len(),
            forall|q: int| 0 <= q < j ==> reqs@[q].quantity > 0,
        decreases reqs@.len() - j,
    {
        if reqs[j].quantity <= 0 {
            return false;
        }
        j = j + 1;
    }
    true
}

impl Store {
    /// Checks every requested line against the stock that the lines before
    /// it leave. Changes nothing.
    fn check_lines(&self, eid: i64, reqs: &Vec<CreateOrderItemDTO>) -> (r: Result<(), OrderError>)
        requires
            self.wf(),
            quantities_positive(reqs@),
        ensures
            r is Ok <==> lines_available(self.products@, eid, reqs@),
            r is Ok ==> forall|i: int|
                0 <= i < self.products@.len() ==> self.products@[i].current_stock - demand(
                    reqs@,
                    self.products@[i].id,
                    reqs@.len() as int,
                ) >= 0,
            r is Err ==> exists|k: int|
                first_failure(self.products@, eid, reqs@, k) && same_error(
                    r->Err_0,
                    line_failure(self.products@, eid, reqs@, k)->Some_0,
                ),
    {
        let ghost ps = self.products@;
        let n = reqs.len();
        let mut remaining: Vec<i64> = Vec::new();
        let mut i: usize = 0;
        while i < self.products.len()
            invariant
                i <= ps.len(),
                ps == self.products@,
                remaining@.len() == i,
                forall|q: int| 0 <= q < i ==> remaining@[q] == ps[q].current_stock,
            decreases ps.len() - i,
        {
            remaining.push(self.products[i].current_stock);
            i = i + 1;
        }
        assert forall|q: int| 0 <= q < ps.len() implies #[trigger] remaining@[q] == ps[q].current_stock
            - demand(reqs@, ps[q].id, 0) && remaining@[q] >= 0 by {
            assert(ps[q].wf());
        }
        let mut k: usize = 0;
        while k < n
            invariant
                self.wf(),
                ps == self.products@,
                n == reqs@.len(),
                quantities_positive(reqs@),
                k <= n,
                remaining@.len() == ps.len(),
                forall|q: int|
                    0 <= q < ps.len() ==> #[trigger] remaining@[q] == ps[q].current_stock - demand(
                        reqs@,
                        ps[q].id,
                        k as int,
                    ) && remaining@[q] >= 0,
                forall|j: int| 0 <= j < k ==> line_failure(ps, eid, reqs@, j) is None,
            decreases n - k,
        {
            let req = reqs[k];
            let pid = req.product_id;
            assert(req.quantity > 0);
            match self.find_product(pid, eid) {
                None => {
                    assert(line_failure(ps, eid, reqs@, k as int) == Some(OrderError::NotFound));
                    assert(first_failure(ps, eid, reqs@, k as int));
                    return Err(OrderError::NotFound);
                },
                Some(i) => {
                    proof {
                        lemma_product_index(ps, pid, eid, i as int);
                    }
                    assert(demand(reqs@, pid, k + 1) == demand(reqs@, pid, k as int) + req.quantity);
                    if remaining[i] < req.quantity {
                        let e = OrderError::InsufficientStock { product_name: self.products[i].name.clone() };
                        assert(first_failure(ps, eid, reqs@, k as int));
                        return Err(e);
                    }
                    let left = remaining[i] - req.quantity;
                    remaining.set(i, left);
                    assert(line_failure(ps, eid, reqs@, k as int) is None);
                    assert forall|q: int| 0 <= q < ps.len() implies #[trigger] remaining@[q]
                        == ps[q].current_stock - demand(reqs@, ps[q].id, k + 1) && remaining@[q]
                        >= 0 by {
                        if q != i {
                            assert(ps[q].id != ps[i as int].id);
                        }
                    }
                },
            }
            k = k + 1;
        }
        assert forall|q: int| 0 <= q < ps.len() implies ps[q].current_stock - demand(reqs@, ps[q].id, n as int)
            >= 0 by {
            assert(remaining@[q] >= 0);
        }
        Ok(())
    }

    /// The order's total, when every line amount and running total fits.
    fn price_total(&self, eid: i64, reqs: &Vec<CreateOrderItemDTO>) -> (r: Option<i64>)
        requires
            self.wf(),
            forall|k: int| 0 <= k < reqs@.len() ==> stocks(self.products@, #[trigger] reqs@[k].product_id, eid),
        ensures
            r is Some <==> total_fits(self.products@, eid, reqs@),
            r is Some ==> r->Some_0 == subtotal(self.products@, eid, reqs@, reqs@.len() as int),
    {
        let ghost ps = self.products@;
        let n = reqs.len();
        let mut total: i64 = 0;
        let mut k: usize = 0;
        while k < n
            invariant
                self.wf(),
                ps == self.products@,
                n == reqs@.len(),
                forall|k: int| 0 <= k < reqs@.len() ==> stocks(ps, #[trigger] reqs@[k].product_id, eid),
                k <= n,
                total == subtotal(ps, eid, reqs@, k as int),
                forall|j: int| 0 < j <= k ==> fits_i64(#[trigger] subtotal(ps, eid, reqs@, j)),
            decreases n - k,
        {
            let req = reqs[k];
            let pid = req.product_id;
            assert(stocks(ps, reqs@[k as int].product_id, eid));
            let i = match self.find_product(pid, eid) {
                Some(i) => i,
                None => {
                    return None;
                },
            };
            proof {
                lemma_product_index(ps, pid, eid, i as int);
            }
            let price = self.products[i].price;
            let qty = req.quantity;
            assert(line_amount(ps, eid, reqs@, k as int) == price * qty);
            assert(-0x4000_0000_0000_0000_0000_0000_0000_0000 <= price * qty <= 0x4000_0000_0000_0000_0000_0000_0000_0000)
                by (nonlinear_arith)
                requires
                    i64::MIN <= price <= i64::MAX,
                    i64::MIN <= qty <= i64::MAX,
            ;
            let line: i128 = (price as i128) * (qty as i128);
            let sum: i128 = total as i128 + line;
            assert(subtotal(ps, eid, reqs@, k + 1) == sum);
            if sum < i64::MIN as i128 || sum > i64::MAX as i128 {
                return None;
            }
            total = sum as i64;
            k = k + 1;
        }
        Some(total)
    }

    /// Places an order for event `eid`: every requested line is checked
    /// against the stock, in the order given, and then the stock is taken,
    /// the order is recorded as pending with a total that is the sum of its
    /// lines, and each line records the product's name, price and image as
    /// they are now. When any check fails nothing changes.
    pub fn create_order(&mut self, eid: i64, order: &CreateOrderDTO, created_at: i64) -> (r: Result<OrderWithItems, OrderError>)
        requires
            old(self).wf(),
        ensures
            final(self).wf(),
            order_placed(*old(self), *final(self), eid, order.items@, created_at, r),
    {
        let reqs = &order.items;
        let n = reqs.len();
        if n == 0 {
            return Err(OrderError::EmptyOrder);
        }
        if !all_positive(reqs) {
            return Err(OrderError::InvalidQuantity);
        }
        match self.check_lines(eid, reqs) {
            Ok(()) => {},
            Err(e) => {
                return Err(e);
            },
        }
        proof {
            assert forall|k: int| 0 <= k < reqs@.len() implies stocks(self.products@, #[trigger] reqs@[k].product_id, eid) by {
                assert(line_failure(self.products@, eid, reqs@, k) is None);
            }
        }
        let total = match self.price_total(eid, reqs) {
            Some(t) => t,
            None => {
                return Err(OrderError::AmountOverflow);
            },
        };
        if self.next_order_id == i64::MAX || n as u64 > (i64::MAX - self.next_item_id) as u64 {
            return Err(OrderError::Storage);
        }
        let ghost ps0 = self.products@;
        let oid = self.next_order_id;
        let first_item = self.next_item_id;
        proof {
            lemma_order_total_fresh(self.items@, oid);
        }
        let mut lines: Vec<OrderItem> = Vec::new();
        let mut k: usize = 0;
        while k < n
            invariant
                n == reqs@.len(),
                k <= n,
                order_acceptable(*old(self), eid, reqs@),
                old(self).wf(),
                ps0 == old(self).products@,
                total == subtotal(ps0, eid, reqs@, n as int),
                forall|i: int|
                    0 <= i < ps0.len() ==> ps0[i].current_stock - demand(reqs@, ps0[i].id, n as int)
                        >= 0,
                oid == old(self).next_order_id,
                first_item == old(self).next_item_id,
                self.products@.len() == ps0.len(),
                forall|i: int|
                    0 <= i < ps0.len() ==> #[trigger] self.products@[i] == with_stock(
                        ps0[i],
                        ps0[i].current_stock - demand(reqs@, ps0[i].id, k as int),
                    ),
                self.orders == old(self).orders,
                self.items@ == old(self).items@ + lines@,
                lines@.len() == k,
                forall|q: int|
                    0 <= q < k ==> line_records(
                        #[trigger] lines@[q],
                        first_item + q,
                        oid,
                        reqs@[q],
                        product_in(ps0, reqs@[q].product_id, eid),
                    ),
                self.next_product_id == old(self).next_product_id,
                self.next_order_id == oid,
                self.next_item_id == first_item,
                order_total(self.items@, oid) == subtotal(ps0, eid, reqs@, k as int),
                forall|q: int|
                    0 <= q < old(self).orders@.len() ==> order_total(
                        self.items@,
                        #[trigger] old(self).orders@[q].id,
                    ) == order_total(old(self).items@, old(self).orders@[q].id),
            decreases n - k,
        {
            let req = reqs[k];
            let pid = req.product_id;
            let ghost before = self.products@;
            proof {
                assert(line_failure(ps0, eid, reqs@, k as int) is None);
                let i = choose|i: int| in_event(ps0, pid, eid, i);
                assert(in_event(before, pid, eid, i));
                assert forall|a: int, b: int|
                    0 <= a < before.len() && 0 <= b < before.len() && a != b implies before[a].id
                    != before[b].id by {
                    assert(before[a] == with_stock(ps0[a], ps0[a].current_stock - demand(reqs@, ps0[a].id, k as int)));
                    assert(before[b] == with_stock(ps0[b], ps0[b].current_stock - demand(reqs@, ps0[b].id, k as int)));
                }
                lemma_product_index(before, pid, eid, i);
                lemma_product_index(ps0, pid, eid, i);
                assert(ps0[i].wf());
                lemma_demand_nonneg(reqs@, pid, k as int);
                assert(demand(reqs@, pid, k + 1) == demand(reqs@, pid, k as int) + req.quantity);
                assert(ps0[i].current_stock >= demand(reqs@, pid, k + 1));
                assert(before[i] == with_stock(ps0[i], ps0[i].current_stock - demand(reqs@, pid, k as int)));
            }
            let ri = match self.reserve(pid, eid, req.quantity) {
                Ok(ri) => ri,
                Err(e) => {
                    return Err(e);
                },
            };
            let ghost i = choose|i: int| in_event(ps0, pid, eid, i);
            proof {
                let i2 = choose|i2: int|
                    in_event(before, pid, eid, i2) && self.products@ == before.update(
                        i2,
                        with_stock(product_in(before, pid, eid), product_in(before, pid, eid).current_stock - req.quantity),
                    );
                assert(i2 == i);
                assert forall|q: int| 0 <= q < ps0.len() implies #[trigger] self.products@[q]
                    == with_stock(ps0[q], ps0[q].current_stock - demand(reqs@, ps0[q].id, k + 1)) by {
                    if q != i {
                        assert(ps0[q].id != pid);
                    }
                }
            }
            let item = OrderItem {
                id: first_item + k as i64,
                order_id: oid,
                product_id: pid,
                product_name: ri.name,
                product_price: ri.price,
                quantity: req.quantity,
                product_image_url: optional_upload_url(&ri.image_url),
            };
            proof {
                lemma_order_total_push(self.items@, item, oid);
                assert forall|q: int| 0 <= q < old(self).orders@.len() implies order_total(
                    self.items@.push(item),
                    #[trigger] old(self).orders@[q].id,
                ) == order_total(old(self).items@, old(self).orders@[q].id) by {
                    lemma_order_total_push(self.items@, item, old(self).orders@[q].id);
                }
                assert(subtotal(ps0, eid, reqs@, k + 1) == subtotal(ps0, eid, reqs@, k as int)
                    + product_in(ps0, pid, eid).price * req.quantity);
            }
            self.items.push(item.copied());
            lines.push(item);
            assert(self.items@ =~= old(self).items@ + lines@);
            k = k + 1;
        }
        let header = Order {
            id: oid,
            event_id: eid,
            total_amount: total,
            status: OrderStatus::Pending,
            created_at,
        };
        self.orders.push(header);
        self.next_order_id = oid + 1;
        self.next_item_id = first_item + n as i64;
        proof {
            let ps = self.products@;
            assert forall|i: int| 0 <= i < ps.len() implies #[trigger] ps[i].wf() && 0 < ps[i].id < self.next_product_id by {
                assert(ps0[i].wf());
                lemma_demand_nonneg(reqs@, ps0[i].id, n as int);
            }
            assert forall|i: int| 0 <= i < ps0.len() implies 0 <= demand(reqs@, #[trigger] ps0[i].id, n as int) <= ps0[i].current_stock by {
                lemma_demand_nonneg(reqs@, ps0[i].id, n as int);
            }
            assert forall|a: int, b: int|
                0 <= a < ps.len() && 0 <= b < ps.len() && a != b implies ps[a].id != ps[b].id by {
                assert(ps[a] == with_stock(ps0[a], ps0[a].current_stock - demand(reqs@, ps0[a].id, n as int)));
                assert(ps[b] == with_stock(ps0[b], ps0[b].current_stock - demand(reqs@, ps0[b].id, n as int)));
            }
            let os = self.orders@;
            assert forall|q: int| 0 <= q < os.len() implies 0 < #[trigger] os[q].id < self.next_order_id
                && os[q].total_amount == order_total(self.items@, os[q].id) by {
                if q < os.len() - 1 {
                    assert(os[q] == old(self).orders@[q]);
                }
            }
            let its = self.items@;
            let its0 = old(self).items@;
            let os0 = old(self).orders@;
            let m0 = its0.len() as int;
            assert forall|j: int| 0 <= j < its.len() implies #[trigger] its[j].order_id < self.next_order_id
                && its[j].id < self.next_item_id && its[j].quantity > 0 && has_product(ps, its[j].product_id) by {
                if j >= m0 {
                    let q = j - m0;
                    assert(its[j] == lines@[q]);
                    assert(line_records(lines@[q], first_item + q, oid, reqs@[q], product_in(ps0, reqs@[q].product_id, eid)));
                    assert(line_failure(ps0, eid, reqs@, q) is None);
                    let c = choose|c: int| in_event(ps0, reqs@[q].product_id, eid, c);
                    assert(ps[c] == with_stock(ps0[c], ps0[c].current_stock - demand(reqs@, ps0[c].id, n as int)));
                } else {
                    assert(its[j] == its0[j]);
                    assert(has_product(ps0, its0[j].product_id));
                    let c = choose|c: int| 0 <= c < ps0.len() && ps0[c].id == its0[j].product_id;
                    assert(ps[c] == with_stock(ps0[c], ps0[c].current_stock - demand(reqs@, ps0[c].id, n as int)));
                }
            }
            assert(os[os.len() - 1] == header);
            assert(is_live(os, oid));
            assert forall|j: int| 0 <= j < lines@.len() implies its[m0 + j] == lines@[j] by {}
            assert forall|j: int| 0 <= j < m0 implies #[trigger] its0[j].order_id != header.id by {
                assert(its0[j].order_id < oid);
            }
            assert forall|i: int| 0 <= i < ps.len() implies ps[i].initial_stock - ps[i].current_stock
                == committed(its, os, #[trigger] ps[i].id, its.len() as int) by {
                let pid = ps0[i].id;
                assert(ps[i] == with_stock(ps0[i], ps0[i].current_stock - demand(reqs@, pid, n as int)));
                lemma_demand_nonneg(reqs@, pid, n as int);
                lemma_committed_lines(its, os, m0, reqs@, lines@, ps0, eid, first_item as int, oid, pid, n as int);
                lemma_committed_prefix(its, its0, os, pid, m0);
                lemma_committed_push_order(its0, os0, header, pid, m0);
                assert(os == os0.push(header));
                assert(ps0[i].initial_stock - ps0[i].current_stock == committed(its0, os0, pid, m0));
            }
        }
        Ok(OrderWithItems { order: header, items: lines })
    }
}

impl Store {
    /// Where order `oid` of event `eid` stands, if the event has it.
    fn find_order(&self, oid: i64, eid: i64) -> (r: Option<usize>)
        ensures
            match r {
                Some(k) => order_at(self.orders@, oid, eid, k as int),
                None => !has_order(self.orders@, oid, eid),
            },
    {
        let mut k: usize = 0;
        while k < self.orders.len()
            invariant
                k <= self.orders@.len(),
                forall|q: int| 0 <= q < k ==> !order_at(self.orders@, oid, eid, q),
            decreases self.orders@.len() - k,
        {
            if self.orders[k].id == oid && self.orders[k].event_id == eid {
                return Some(k);
            }
            k = k + 1;
        }
        None
    }

    /// Gives the units of every line of order `oid` back to their products.
    fn restitute(&mut self, oid: i64)
        requires
            old(self).wf(),
            restitution_fits(*old(self), oid),
        ensures
            final(self).products@.len() == old(self).products@.len(),
            forall|i: int|
                0 <= i < old(self).products@.len() ==> #[trigger] final(self).products@[i]
                    == restituted(old(self).products@, old(self).items@, oid, i),
            final(self).orders == old(self).orders,
            final(self).items == old(self).items,
            final(self).next_product_id == old(self).next_product_id,
            final(self).next_order_id == old(self).next_order_id,
            final(self).next_item_id == old(self).next_item_id,
    {
        let ghost ps0 = self.products@;
        let ghost its = self.items@;
        let n = self.items.len();
        proof {
            assert forall|q: int| 0 <= q < its.len() implies #[trigger] its[q].quantity > 0 by {}
        }
        let mut j: usize = 0;
        while j < n
            invariant
                old(self).wf(),
                restitution_fits(*old(self), oid),
                ps0 == old(self).products@,
                its == old(self).items@,
                n == its.len(),
                j <= n,
                forall|q: int| 0 <= q < its.len() ==> #[trigger] its[q].quantity > 0,
                self.products@.len() == ps0.len(),
                forall|i: int|
                    0 <= i < ps0.len() ==> #[trigger] self.products@[i] == with_stock(
                        ps0[i],
                        ps0[i].current_stock + returned(its, oid, ps0[i].id, j as int),
                    ),
                self.orders == old(self).orders,
                self.items == old(self).items,
                self.next_product_id == old(self).next_product_id,
                self.next_order_id == old(self).next_order_id,
                self.next_item_id == old(self).next_item_id,
            decreases n - j,
        {
            let ghost before = self.products@;
            proof {
                assert forall|a: int, b: int|
                    0 <= a < before.len() && 0 <= b < before.len() && a != b implies before[a].id
                    != before[b].id by {
                    assert(before[a] == with_stock(ps0[a], ps0[a].current_stock + returned(its, oid, ps0[a].id, j as int)));
                    assert(before[b] == with_stock(ps0[b], ps0[b].current_stock + returned(its, oid, ps0[b].id, j as int)));
                }
                assert forall|i: int| 0 <= i < before.len() implies #[trigger] before[i].wf() by {
                    assert(ps0[i].wf());
                    lemma_returned_mono(its, oid, ps0[i].id, j as int, n as int);
                    assert(ps0[i].current_stock + returned(its, oid, ps0[i].id, its.len() as int) <= ps0[i].initial_stock);
                }
            }
            if self.items[j].order_id == oid {
                let pid = self.items[j].product_id;
                let qty = self.items[j].quantity;
                let ghost i = choose|i: int| 0 <= i < ps0.len() && ps0[i].id == pid;
                proof {
                    assert(its[j as int].order_id == oid);
                    assert(has_product(ps0, pid));
                    assert(before[i].id == pid);
                    let c = choose|c: int| 0 <= c < before.len() && before[c].id == pid;
                    assert(c == i);
                    lemma_returned_mono(its, oid, pid, j + 1, n as int);
                    lemma_returned_mono(its, oid, pid, j as int, n as int);
                    assert(ps0[i].wf());
                    assert(returned(its, oid, pid, j + 1) == returned(its, oid, pid, j as int) + qty);
                    assert(before[i].current_stock == ps0[i].current_stock + returned(its, oid, pid, j as int));
                    assert(ps0[i].current_stock + returned(its, oid, ps0[i].id, its.len() as int) <= ps0[i].initial_stock);
                }
                let res = self.restore(pid, qty);
                proof {
                    assert(res is Ok);
                    assert forall|q: int| 0 <= q < ps0.len() implies #[trigger] self.products@[q]
                        == with_stock(ps0[q], ps0[q].current_stock + returned(its, oid, ps0[q].id, j + 1)) by {
                        if q != i {
                            assert(ps0[q].id != pid);
                        }
                    }
                }
            } else {
                assert forall|q: int| 0 <= q < ps0.len() implies #[trigger] self.products@[q]
                    == with_stock(ps0[q], ps0[q].current_stock + returned(its, oid, ps0[q].id, j + 1)) by {}
            }
            j = j + 1;
        }
    }

    /// Changes the status of order `oid` of event `eid`. Cancelling a
    /// pending or completed order gives its units back to stock; cancelling
    /// a cancelled order changes nothing and returns it as it is.
    pub fn update_status(&mut self, oid: i64, eid: i64, to: OrderStatus) -> (r: Result<Order, OrderError>)
        requires
            old(self).wf(),
        ensures
            final(self).wf(),
            status_updated(*old(self), *final(self), oid, eid, to, r),
    {
        let k = match self.find_order(oid, eid) {
            None => {
                return Err(OrderError::NotFound);
            },
            Some(k) => k,
        };
        proof {
            lemma_order_index(self.orders@, oid, eid, k as int);
        }
        let o = self.orders[k];
        let allowed = o.status == to || o.status == OrderStatus::Pending || (o.status
            == OrderStatus::Completed && to == OrderStatus::Cancelled);
        if !allowed {
            return Err(OrderError::InvalidTransition);
        }
        if o.status == to {
            return Ok(o);
        }
        let ghost os2 = self.orders@.update(k as int, with_status(o, to));
        proof {
            let its = self.items@;
            let ps = self.products@;
            assert forall|i: int| 0 <= i < ps.len() implies #[trigger] committed(its, os2, ps[i].id, its.len() as int)
                == committed(its, self.orders@, ps[i].id, its.len() as int) - if to == OrderStatus::Cancelled {
                returned(its, oid, ps[i].id, its.len() as int)
            } else {
                0
            } by {
                lemma_committed_status(its, self.orders@, k as int, to, ps[i].id, its.len() as int);
            }
            if to == OrderStatus::Cancelled {
                assert forall|q: int| 0 <= q < its.len() implies #[trigger] its[q].quantity > 0 by {}
                assert forall|i: int| 0 <= i < ps.len() implies #[trigger] ps[i].current_stock + returned(its, oid, ps[i].id, its.len() as int)
                    <= ps[i].initial_stock by {
                    lemma_committed_nonneg(its, os2, ps[i].id, its.len() as int);
                    assert(ps[i].initial_stock - ps[i].current_stock == committed(its, self.orders@, ps[i].id, its.len() as int));
                }
                assert forall|j: int| 0 <= j < its.len() && #[trigger] its[j].order_id == oid implies has_product(ps, its[j].product_id) by {}
                assert(restitution_fits(*self, oid));
            }
            assert(to == OrderStatus::Cancelled ==> restitution_fits(*old(self), oid));
        }
        if to == OrderStatus::Cancelled {
            self.restitute(oid);
        }
        let changed = Order {
            id: o.id,
            event_id: o.event_id,
            total_amount: o.total_amount,
            status: to,
            created_at: o.created_at,
        };
        self.orders.set(k, changed);
        proof {
            let ps = self.products@;
            let ps0 = old(self).products@;
            if to == OrderStatus::Cancelled {
                assert forall|i: int| 0 <= i < ps.len() implies #[trigger] ps[i].wf() && 0 < ps[i].id
                    < self.next_product_id by {
                    assert(ps0[i].wf());
                    assert forall|q: int| 0 <= q < old(self).items@.len() implies #[trigger] old(self).items@[q].quantity > 0 by {}
                    lemma_returned_mono(old(self).items@, oid, ps0[i].id, 0, old(self).items@.len() as int);
                    assert(ps[i] == restituted(ps0, old(self).items@, oid, i));
                }
                assert forall|a: int, b: int|
                    0 <= a < ps.len() && 0 <= b < ps.len() && a != b implies ps[a].id != ps[b].id by {
                    assert(ps[a] == restituted(ps0, old(self).items@, oid, a));
                    assert(ps[b] == restituted(ps0, old(self).items@, oid, b));
                }
            }
            assert(self.orders@ == os2);
            let its = self.items@;
            assert forall|i: int| 0 <= i < ps.len() implies ps[i].initial_stock - ps[i].current_stock
                == committed(its, os2, #[trigger] ps[i].id, its.len() as int) by {
                assert(ps0[i].initial_stock - ps0[i].current_stock == committed(its, old(self).orders@, ps0[i].id, its.len() as int));
                assert(committed(its, os2, ps0[i].id, its.len() as int)
                    == committed(its, old(self).orders@, ps0[i].id, its.len() as int) - if to == OrderStatus::Cancelled {
                    returned(its, oid, ps0[i].id, its.len() as int)
                } else {
                    0
                });
                if to == OrderStatus::Cancelled {
                    assert(ps[i] == restituted(ps0, old(self).items@, oid, i));
                    assert(ps0[i].current_stock + returned(its, oid, ps0[i].id, its.len() as int) <= ps0[i].initial_stock);
                    assert forall|q: int| 0 <= q < its.len() implies #[trigger] its[q].quantity > 0 by {}
                    lemma_returned_mono(its, oid, ps0[i].id, 0, its.len() as int);
                }
            }
            assert forall|j: int| 0 <= j < its.len() implies has_product(ps, #[trigger] its[j].product_id) by {
                assert(has_product(ps0, its[j].product_id));
                let c = choose|c: int| 0 <= c < ps0.len() && ps0[c].id == its[j].product_id;
                if to == OrderStatus::Cancelled {
                    assert(ps[c] == restituted(ps0, old(self).items@, oid, c));
                }
            }
            assert forall|q: int| 0 <= q < old(self).orders@.len() implies #[trigger] self.orders@[q]
                == if old(self).orders@[q].id == oid {
                with_status(old(self).orders@[q], to)
            } else {
                old(self).orders@[q]
            } by {}
        }
        Ok(changed)
    }
}

impl Store {
    /// The orders of event `eid`, with the given status if one is given,
    /// the most recent first.
    fn select_orders(&self, eid: i64, status: Option<OrderStatus>) -> (r: Vec<Order>)
        ensures
            r@ == listed(self.orders@, eid, status),
    {
        let ghost os = self.orders@;
        let mut r: Vec<Order> = Vec::new();
        let mut k: usize = self.orders.len();
        assert(os.take(k as int) =~= os);
        while k > 0
            invariant
                os == self.orders@,
                k <= os.len(),
                r@ + listed(os.take(k as int), eid, status) == listed(os, eid, status),
            decreases k,
        {
            let o = self.orders[k - 1];
            proof {
                assert(os.take(k as int).drop_last() =~= os.take(k - 1));
                assert(os.take(k as int).last() == o);
            }
            let keep = o.event_id == eid && match status {
                None => true,
                Some(st) => o.status == st,
            };
            if keep {
                assert(r@.push(o) + listed(os.take(k - 1), eid, status) =~= r@ + listed(os.take(k as int), eid, status));
                r.push(o);
            }
            k = k - 1;
        }
        assert(os.take(0) =~= Seq::<Order>::empty());
        assert(r@ + Seq::<Order>::empty() =~= r@);
        r
    }

    /// The orders of event `eid` with their lines, the most recent first,
    /// keeping only those with the given status if one is given.
    pub fn list_orders(&self, eid: i64, status: Option<OrderStatus>) -> (r: Vec<OrderWithItems>)
        requires
            self.wf(),
        ensures
            assembled(listed(self.orders@, eid, status), self.items@, r@),
    {
        let headers = self.select_orders(eid, status);
        proof {
            lemma_listed(self.orders@, eid, status);
            assert forall|a: int, b: int| 0 <= a < b < headers@.len() implies headers@[a].id != headers@[b].id by {
                assert(headers@[a].id > headers@[b].id);
            }
        }
        assemble(&headers, &self.items)
    }
}

/// Groups a batch of lines by the order they belong to, keeping their
/// order within each group.
fn group_lines(items: &Vec<OrderItem>) -> (r: HashMap<i64, Vec<OrderItem>>)
    ensures
        forall|oid: i64| #[trigger] r@.contains_key(oid) ==> r@[oid]@ == items_of(items@, oid),
        forall|oid: i64| !#[trigger] r@.contains_key(oid) ==> items_of(items@, oid) == Seq::<OrderItem>::empty(),
{
    let ghost its = items@;
    let mut groups: HashMap<i64, Vec<OrderItem>> = HashMap::new();
    let mut j: usize = 0;
    while j < items.len()
        invariant
            its == items@,
            j <= its.len(),
            forall|oid: i64|
                #[trigger] groups@.contains_key(oid) ==> groups@[oid]@ == items_of(its.take(j as int), oid),
            forall|oid: i64|
                !#[trigger] groups@.contains_key(oid) ==> items_of(its.take(j as int), oid) == Seq::<OrderItem>::empty(),
        decreases its.len() - j,
    {
        let it = items[j].copied();
        let oid = it.order_id;
        proof {
            assert(its.take(j + 1).drop_last() =~= its.take(j as int));
            assert(its.take(j + 1).last() == it);
        }
        let mut group = match groups.remove(&oid) {
            Some(g) => g,
            None => Vec::new(),
        };
        assert(group@ == items_of(its.take(j as int), oid));
        group.push(it);
        groups.insert(oid, group);
        j = j + 1;
    }
    assert(its.take(its.len() as int) =~= its);
    groups
}

/// Attaches to each order header its lines, taken from one batch of lines
/// that may hold the lines of many orders: the batch is grouped by order id
/// once, and each header takes its group. An order with no lines gets an
/// empty list.
pub fn assemble(orders: &Vec<Order>, items: &Vec<OrderItem>) -> (r: Vec<OrderWithItems>)
    requires
        forall|a: int, b: int| 0 <= a < b < orders@.len() ==> orders@[a].id != orders@[b].id,
    ensures
        assembled(orders@, items@, r@),
{
    let mut groups = group_lines(items);
    let mut r: Vec<OrderWithItems> = Vec::new();
    let mut k: usize = 0;
    while k < orders.len()
        invariant
            k <= orders@.len(),
            forall|a: int, b: int| 0 <= a < b < orders@.len() ==> orders@[a].id != orders@[b].id,
            forall|q: int|
                k <= q < orders@.len() ==> (groups@.contains_key(#[trigger] orders@[q].id)
                    ==> groups@[orders@[q].id]@ == items_of(items@, orders@[q].id)) && (
                !groups@.contains_key(orders@[q].id) ==> items_of(items@, orders@[q].id)
                    == Seq::<OrderItem>::empty()),
            r@.len() == k,
            forall|q: int|
                0 <= q < k ==> (#[trigger] r@[q]).order == orders@[q] && r@[q].items@ == items_of(
                    items@,
                    orders@[q].id,
                ),
        decreases orders@.len() - k,
    {
        let o = orders[k];
        let lines = match groups.remove(&o.id) {
            Some(g) => g,
            None => Vec::new(),
        };
        assert(lines@ == items_of(items@, o.id));
        r.push(OrderWithItems { order: o, items: lines });
        proof {
            assert forall|q: int| k + 1 <= q < orders@.len() implies (groups@.contains_key(#[trigger] orders@[q].id)
                ==> groups@[orders@[q].id]@ == items_of(items@, orders@[q].id)) && (
                !groups@.contains_key(orders@[q].id) ==> items_of(items@, orders@[q].id)
                    == Seq::<OrderItem>::empty()) by {
                assert(orders@[q].id != orders@[k as int].id);
            }
        }
        k = k + 1;
    }
    r
}

} // verus!
