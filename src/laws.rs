use vstd::prelude::*;

use crate::models::{CreateOrderItemDTO, Order, OrderItem, OrderStatus, OrderWithItems, Product};
use crate::error::{same_error, OrderError};
use crate::orders::{
    demand, first_failure, fits_i64, ids_available, lemma_order_index, line_failure, line_records,
    listed, lines_total, order_acceptable, order_at, order_placed, quantities_positive,
    returned, selected, status_updated, subtotal, lemma_listed,
};
use crate::store::{
    committed, in_event, lemma_product_index, order_total, product_in, stocks,
    with_stock, Store,
};

verus! {

/// In every well-formed store, and so after every operation, each product's
/// current stock lies between zero and its initial stock.
pub proof fn stock_stays_within_bounds(s: Store)
    requires
        s.wf(),
    ensures
        forall|i: int|
            0 <= i < s.products@.len() ==> 0 <= #[trigger] s.products@[i].current_stock
                <= s.products@[i].initial_stock,
{
    assert forall|i: int| 0 <= i < s.products@.len() implies 0 <= #[trigger] s.products@[i].current_stock
        <= s.products@[i].initial_stock by {
        assert(s.products@[i].wf());
    }
}

/// In every well-formed store, and so after every operation, the units a
/// product has sold (initial less current stock) are exactly the units on
/// the lines of its orders that are not cancelled.
pub proof fn sold_units_are_on_open_orders(s: Store)
    requires
        s.wf(),
    ensures
        forall|i: int|
            0 <= i < s.products@.len() ==> (#[trigger] s.products@[i]).initial_stock
                - s.products@[i].current_stock == committed(
                s.items@,
                s.orders@,
                s.products@[i].id,
                s.items@.len() as int,
            ),
{
}

/// In every well-formed store each order's total is the sum of unit price
/// times quantity over its lines.
pub proof fn totals_match_lines(s: Store)
    requires
        s.wf(),
    ensures
        forall|k: int|
            0 <= k < s.orders@.len() ==> (#[trigger] s.orders@[k]).total_amount == order_total(
                s.items@,
                s.orders@[k].id,
            ),
{
}

proof fn lemma_lines_subtotal(lines: Seq<OrderItem>, ps: Seq<Product>, eid: i64, reqs: Seq<CreateOrderItemDTO>, first: int, oid: i64, k: int)
    requires
        lines.len() == reqs.len(),
        0 <= k <= reqs.len(),
        forall|q: int|
            0 <= q < reqs.len() ==> line_records(
                #[trigger] lines[q],
                first + q,
                oid,
                reqs[q],
                product_in(ps, reqs[q].product_id, eid),
            ),
    ensures
        lines_total(lines.take(k)) == subtotal(ps, eid, reqs, k),
    decreases k,
{
    if k > 0 {
        lemma_lines_subtotal(lines, ps, eid, reqs, first, oid, k - 1);
        assert(lines.take(k).drop_last() =~= lines.take(k - 1));
        assert(line_records(lines[k - 1], first + k - 1, oid, reqs[k - 1], product_in(ps, reqs[k - 1].product_id, eid)));
    }
}

/// A placed order's total is the sum of unit price times quantity over the
/// lines it was returned with.
pub proof fn placed_total_matches_lines(s0: Store, s1: Store, eid: i64, reqs: Seq<CreateOrderItemDTO>, created_at: i64, o: OrderWithItems)
    requires
        order_placed(s0, s1, eid, reqs, created_at, Ok(o)),
    ensures
        o.order.total_amount == lines_total(o.items@),
{
    lemma_lines_subtotal(o.items@, s0.products@, eid, reqs, s0.next_item_id as int, s0.next_order_id, reqs.len() as int);
    assert(o.items@.take(reqs.len() as int) =~= o.items@);
}

/// Cancelling an order that is cancelled already changes nothing and
/// returns the order as it stands; a second cancellation after a successful
/// one changes nothing and returns what the first returned.
pub proof fn cancelling_again_changes_nothing(s0: Store, s1: Store, s2: Store, oid: i64, eid: i64, r1: Result<Order, OrderError>, r2: Result<Order, OrderError>)
    requires
        s0.wf(),
        s1.wf(),
        status_updated(s0, s1, oid, eid, OrderStatus::Cancelled, r1),
        r1 is Ok,
        status_updated(s1, s2, oid, eid, OrderStatus::Cancelled, r2),
    ensures
        s2 == s1,
        r2 == r1,
        r1->Ok_0.status == OrderStatus::Cancelled,
{
    let k = choose|k: int| order_at(s0.orders@, oid, eid, k);
    lemma_order_index(s0.orders@, oid, eid, k);
    assert(order_at(s1.orders@, oid, eid, k));
    lemma_order_index(s1.orders@, oid, eid, k);
}

/// Placing an order and then cancelling it gives every product back
/// exactly the state it had before the order.
pub proof fn cancel_restores_stock(s0: Store, s1: Store, s2: Store, eid: i64, reqs: Seq<CreateOrderItemDTO>, created_at: i64, o: OrderWithItems, r: Result<Order, OrderError>)
    requires
        s0.wf(),
        s1.wf(),
        order_placed(s0, s1, eid, reqs, created_at, Ok(o)),
        status_updated(s1, s2, o.order.id, eid, OrderStatus::Cancelled, r),
    ensures
        r is Ok,
        r->Ok_0.status == OrderStatus::Cancelled,
        s2.products@ == s0.products@,
{
    let oid = o.order.id;
    let n0 = s0.orders@.len() as int;
    assert(order_at(s1.orders@, oid, eid, n0));
    lemma_order_index(s1.orders@, oid, eid, n0);
    let its = s1.items@;
    let m0 = s0.items@.len() as int;
    assert forall|j: int| 0 <= j < m0 implies #[trigger] its[j].order_id != oid by {
        assert(its[j] == s0.items@[j]);
        assert(s0.items@[j].order_id < s0.next_order_id);
    }
    let ps0 = s0.products@;
    let ps1 = s1.products@;
    let n = reqs.len() as int;
    assert forall|j: int| 0 <= j < o.items@.len() implies its[m0 + j] == o.items@[j] by {}
    assert(its.len() == m0 + n);
    assert forall|i: int| 0 <= i < ps0.len() implies #[trigger] s2.products@[i] == ps0[i] by {
        assert(ps1[i] == with_stock(ps0[i], ps0[i].current_stock - demand(reqs, ps0[i].id, n)));
        lemma_returned_placed(its, m0, reqs, o.items@, ps0, eid, s0.next_item_id as int, oid, ps0[i].id, n);
        assert(ps1[i].wf());
    }
    assert(s2.products@ =~= ps0);
}

proof fn lemma_returned_placed(its: Seq<OrderItem>, m0: int, reqs: Seq<CreateOrderItemDTO>, lines: Seq<OrderItem>, ps: Seq<Product>, eid: i64, first: int, oid: i64, pid: i64, q: int)
    requires
        0 <= m0,
        0 <= q <= reqs.len(),
        lines.len() == reqs.len(),
        its.len() == m0 + lines.len(),
        forall|j: int| 0 <= j < m0 ==> #[trigger] its[j].order_id != oid,
        forall|j: int| 0 <= j < lines.len() ==> its[m0 + j] == lines[j],
        forall|j: int|
            0 <= j < reqs.len() ==> line_records(
                #[trigger] lines[j],
                first + j,
                oid,
                reqs[j],
                product_in(ps, reqs[j].product_id, eid),
            ),
    ensures
        returned(its, oid, pid, m0 + q) == demand(reqs, pid, q),
    decreases q,
{
    if q > 0 {
        lemma_returned_placed(its, m0, reqs, lines, ps, eid, first, oid, pid, q - 1);
        assert(its[m0 + q - 1] == lines[q - 1]);
        assert(line_records(lines[q - 1], first + q - 1, oid, reqs[q - 1], product_in(ps, reqs[q - 1].product_id, eid)));
    } else {
        lemma_returned_fresh(its, oid, pid, m0);
    }
}

proof fn lemma_returned_fresh(its: Seq<OrderItem>, oid: i64, pid: i64, m: int)
    requires
        0 <= m <= its.len(),
        forall|j: int| 0 <= j < m ==> #[trigger] its[j].order_id != oid,
    ensures
        returned(its, oid, pid, m) == 0,
    decreases m,
{
    if m > 0 {
        lemma_returned_fresh(its, oid, pid, m - 1);
    }
}

/// When the second line of a two-line order lacks stock, the order fails
/// with `InsufficientStock` naming that product, and the store is left
/// exactly as it was: the first line's reservation is gone and no order or
/// line is recorded.
pub proof fn failed_order_leaves_no_trace(s0: Store, s1: Store, eid: i64, p1: i64, q1: i64, p2: i64, q2: i64, created_at: i64, r: Result<OrderWithItems, OrderError>)
    requires
        s0.wf(),
        p1 != p2,
        stocks(s0.products@, p1, eid),
        stocks(s0.products@, p2, eid),
        0 < q1 <= product_in(s0.products@, p1, eid).current_stock,
        0 < q2,
        product_in(s0.products@, p2, eid).current_stock < q2,
        order_placed(
            s0,
            s1,
            eid,
            seq![
                CreateOrderItemDTO { product_id: p1, quantity: q1 },
                CreateOrderItemDTO { product_id: p2, quantity: q2 },
            ],
            created_at,
            r,
        ),
    ensures
        r is Err,
        same_error(
            r->Err_0,
            OrderError::InsufficientStock { product_name: product_in(s0.products@, p2, eid).name },
        ),
        s1 == s0,
{
    let reqs = seq![
        CreateOrderItemDTO { product_id: p1, quantity: q1 },
        CreateOrderItemDTO { product_id: p2, quantity: q2 },
    ];
    let ps = s0.products@;
    assert(reqs[0].product_id == p1 && reqs[0].quantity == q1);
    assert(reqs[1].product_id == p2 && reqs[1].quantity == q2);
    assert(demand(reqs, p1, 0) == 0);
    assert(demand(reqs, p1, 1) == q1);
    assert(demand(reqs, p2, 0) == 0);
    assert(demand(reqs, p2, 1) == 0);
    assert(demand(reqs, p2, 2) == q2);
    assert(line_failure(ps, eid, reqs, 0) is None);
    assert(line_failure(ps, eid, reqs, 1) is Some);
    assert(quantities_positive(reqs));
    assert(first_failure(ps, eid, reqs, 1));
    assert(!order_acceptable(s0, eid, reqs));
    let k = choose|k: int|
        first_failure(ps, eid, reqs, k) && same_error(
            r->Err_0,
            line_failure(ps, eid, reqs, k)->Some_0,
        );
    assert(k == 1);
}

/// Two orders, one after the other, each for the last unit of a product:
/// the first is placed and records one line for the product, the second
/// fails with `InsufficientStock` naming it, and the stock ends at zero,
/// never below. The store needs ids left for one more order.
pub proof fn last_unit_sold_once(s0: Store, s1: Store, s2: Store, eid: i64, pid: i64, t1: i64, t2: i64, r1: Result<OrderWithItems, OrderError>, r2: Result<OrderWithItems, OrderError>)
    requires
        s0.wf(),
        s1.wf(),
        stocks(s0.products@, pid, eid),
        product_in(s0.products@, pid, eid).current_stock == 1,
        ids_available(s0, 1),
        order_placed(s0, s1, eid, seq![CreateOrderItemDTO { product_id: pid, quantity: 1 }], t1, r1),
        order_placed(s1, s2, eid, seq![CreateOrderItemDTO { product_id: pid, quantity: 1 }], t2, r2),
    ensures
        r1 is Ok,
        r1->Ok_0.items@.len() == 1,
        r1->Ok_0.items@[0].product_id == pid,
        s2.orders@ == s0.orders@.push(r1->Ok_0.order),
        s2.items@ == s0.items@ + r1->Ok_0.items@,
        r2 is Err,
        same_error(
            r2->Err_0,
            OrderError::InsufficientStock { product_name: product_in(s0.products@, pid, eid).name },
        ),
        stocks(s2.products@, pid, eid),
        product_in(s2.products@, pid, eid).current_stock == 0,
{
    let reqs = seq![CreateOrderItemDTO { product_id: pid, quantity: 1 }];
    let ps0 = s0.products@;
    let i = choose|i: int| in_event(ps0, pid, eid, i);
    lemma_product_index(ps0, pid, eid, i);
    assert(reqs[0] == CreateOrderItemDTO { product_id: pid, quantity: 1 });
    assert(demand(reqs, pid, 0) == 0);
    assert(demand(reqs, pid, 1) == 1);
    assert(subtotal(ps0, eid, reqs, 0) == 0);
    assert(subtotal(ps0, eid, reqs, 1) == ps0[i].price);
    assert(fits_i64(subtotal(ps0, eid, reqs, 1)));
    assert(line_failure(ps0, eid, reqs, 0) is None);
    assert(quantities_positive(reqs));
    assert(order_acceptable(s0, eid, reqs));
    let o = r1->Ok_0;
    assert(line_records(o.items@[0], s0.next_item_id as int, s0.next_order_id, reqs[0], product_in(ps0, pid, eid)));
    let ps1 = s1.products@;
    assert(ps1[i] == with_stock(ps0[i], ps0[i].current_stock - demand(reqs, ps0[i].id, 1)));
    assert(in_event(ps1, pid, eid, i));
    lemma_product_index(ps1, pid, eid, i);
    assert(line_failure(ps1, eid, reqs, 0) is Some);
    assert(first_failure(ps1, eid, reqs, 0));
    assert(!order_acceptable(s1, eid, reqs));
    let k = choose|k: int|
        first_failure(ps1, eid, reqs, k) && same_error(
            r2->Err_0,
            line_failure(ps1, eid, reqs, k)->Some_0,
        );
    assert(k == 0);
    assert(s2 == s1);
}

/// Listing the orders of an event gives exactly the orders of that event
/// with the requested status, if one is requested, each once and the most
/// recent (highest id) first.
pub proof fn listing_is_most_recent_first(s: Store, eid: i64, status: Option<OrderStatus>)
    requires
        s.wf(),
    ensures
        forall|q: int|
            0 <= q < listed(s.orders@, eid, status).len() ==> selected(
                #[trigger] listed(s.orders@, eid, status)[q],
                eid,
                status,
            ) && s.orders@.contains(listed(s.orders@, eid, status)[q]),
        forall|a: int, b: int|
            0 <= a < b < listed(s.orders@, eid, status).len() ==> #[trigger] listed(
                s.orders@,
                eid,
                status,
            )[a].id > #[trigger] listed(s.orders@, eid, status)[b].id,
        forall|k: int|
            0 <= k < s.orders@.len() && selected(#[trigger] s.orders@[k], eid, status) ==> listed(
                s.orders@,
                eid,
                status,
            ).contains(s.orders@[k]),
{
    lemma_listed(s.orders@, eid, status);
    let l = listed(s.orders@, eid, status);
    assert forall|q: int| 0 <= q < l.len() implies s.orders@.contains(l[q]) by {
        let k = choose|k: int| 0 <= k < s.orders@.len() && s.orders@[k] == l[q];
    }
}

} // verus!
