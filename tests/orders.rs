use booth_pos::models::{CreateOrderDTO, CreateOrderItemDTO, MasterProduct, OrderStatus};
use booth_pos::error::{ErrorKind, OrderError};
use booth_pos::orders::assemble;
use booth_pos::store::Store;

fn master(id: i64, code: &str, name: &str, price: i64, image: Option<&str>) -> MasterProduct {
    MasterProduct {
        id,
        product_code: code.to_string(),
        name: name.to_string(),
        default_price: price,
        image_url: image.map(|s| s.to_string()),
        category: None,
        is_active: true,
    }
}

fn order_of(lines: &[(i64, i64)]) -> CreateOrderDTO {
    CreateOrderDTO {
        items: lines
            .iter()
            .map(|&(product_id, quantity)| CreateOrderItemDTO { product_id, quantity })
            .collect(),
    }
}

fn stock(store: &Store, pid: i64) -> i64 {
    store.product(pid).unwrap().current_stock
}

/// A store with event 1 stocking "Poster" (price 500, stock 10) and
/// "Badge" (price 250, stock 4), and event 2 stocking "Poster" (stock 3).
fn sample() -> (Store, i64, i64, i64) {
    let mut s = Store::new();
    let poster = s
        .add_product_to_event(1, &master(11, "P-01", "Poster", 500, Some("posters/a.png")), None, 10)
        .unwrap();
    let badge = s
        .add_product_to_event(1, &master(12, "B-01", "Badge", 300, None), Some(250), 4)
        .unwrap();
    let other = s
        .add_product_to_event(2, &master(11, "P-01", "Poster", 500, None), None, 3)
        .unwrap();
    (s, poster.id, badge.id, other.id)
}

#[test]
fn order_then_cancel_twice_scenario() {
    let mut s = Store::new();
    let p = s
        .add_product_to_event(7, &master(1, "P", "Product P", 500, None), None, 10)
        .unwrap();
    assert_eq!(p.current_stock, 10);
    assert_eq!(p.initial_stock, 10);
    let placed = s.create_order(7, &order_of(&[(p.id, 3)]), 1_700_000_000).unwrap();
    assert_eq!(placed.order.total_amount, 1500);
    assert_eq!(placed.order.status, OrderStatus::Pending);
    assert_eq!(stock(&s, p.id), 7);

    let first = s.update_status(placed.order.id, 7, OrderStatus::Cancelled).unwrap();
    assert_eq!(first.status, OrderStatus::Cancelled);
    assert_eq!(stock(&s, p.id), 10);

    let second = s.update_status(placed.order.id, 7, OrderStatus::Cancelled).unwrap();
    assert_eq!(second, first);
    assert_eq!(stock(&s, p.id), 10);
}

#[test]
fn stock_stays_within_bounds_through_operations() {
    let (mut s, poster, badge, _) = sample();
    let a = s.create_order(1, &order_of(&[(poster, 4), (badge, 4)]), 0).unwrap();
    let b = s.create_order(1, &order_of(&[(poster, 6)]), 0).unwrap();
    let sold_on_open_lines = |s: &Store, pid: i64| -> i64 {
        s.items
            .iter()
            .filter(|i| i.product_id == pid)
            .filter(|i| s.orders.iter().any(|o| o.id == i.order_id && o.status != OrderStatus::Cancelled))
            .map(|i| i.quantity)
            .sum()
    };
    for p in &s.products {
        assert_eq!(p.initial_stock - p.current_stock, sold_on_open_lines(&s, p.id));
    }
    assert!(s.create_order(1, &order_of(&[(poster, 1)]), 0).is_err());
    s.update_status(a.order.id, 1, OrderStatus::Completed).unwrap();
    s.update_status(a.order.id, 1, OrderStatus::Cancelled).unwrap();
    s.update_status(b.order.id, 1, OrderStatus::Cancelled).unwrap();
    for p in &s.products {
        assert!(0 <= p.current_stock && p.current_stock <= p.initial_stock);
    }
    assert_eq!(stock(&s, poster), 10);
    assert_eq!(stock(&s, badge), 4);
}

#[test]
fn total_is_sum_of_lines() {
    let (mut s, poster, badge, _) = sample();
    let o = s.create_order(1, &order_of(&[(poster, 2), (badge, 3)]), 0).unwrap();
    let sum: i64 = o.items.iter().map(|i| i.product_price * i.quantity).sum();
    assert_eq!(o.order.total_amount, sum);
    assert_eq!(o.order.total_amount, 2 * 500 + 3 * 250);
    assert_eq!(s.orders[0].total_amount, 1750);
}

#[test]
fn cancelling_pending_order_restores_previous_stock() {
    let (mut s, poster, badge, _) = sample();
    let before: Vec<i64> = s.products.iter().map(|p| p.current_stock).collect();
    let o = s.create_order(1, &order_of(&[(badge, 1), (poster, 5), (badge, 2)]), 0).unwrap();
    assert_eq!(stock(&s, badge), 1);
    assert_eq!(stock(&s, poster), 5);
    s.update_status(o.order.id, 1, OrderStatus::Cancelled).unwrap();
    let after: Vec<i64> = s.products.iter().map(|p| p.current_stock).collect();
    assert_eq!(before, after);
}

#[test]
fn cancelling_completed_order_restores_stock() {
    let (mut s, poster, _, _) = sample();
    let o = s.create_order(1, &order_of(&[(poster, 2)]), 0).unwrap();
    let done = s.update_status(o.order.id, 1, OrderStatus::Completed).unwrap();
    assert_eq!(done.status, OrderStatus::Completed);
    assert_eq!(stock(&s, poster), 8);
    s.update_status(o.order.id, 1, OrderStatus::Cancelled).unwrap();
    assert_eq!(stock(&s, poster), 10);
}

#[test]
fn second_line_short_leaves_store_untouched() {
    let (mut s, poster, badge, _) = sample();
    let r = s.create_order(1, &order_of(&[(poster, 2), (badge, 5)]), 0);
    match r {
        Err(OrderError::InsufficientStock { product_name }) => assert_eq!(product_name, "Badge"),
        other => panic!("unexpected {:?}", other),
    }
    assert_eq!(stock(&s, poster), 10);
    assert_eq!(stock(&s, badge), 4);
    assert!(s.orders.is_empty());
    assert!(s.items.is_empty());
}

#[test]
fn last_unit_is_sold_once() {
    let mut s = Store::new();
    let p = s
        .add_product_to_event(1, &master(1, "L", "Last", 100, None), None, 1)
        .unwrap();
    let first = s.create_order(1, &order_of(&[(p.id, 1)]), 0);
    let second = s.create_order(1, &order_of(&[(p.id, 1)]), 0);
    assert!(first.is_ok());
    assert!(matches!(second, Err(OrderError::InsufficientStock { .. })));
    assert_eq!(stock(&s, p.id), 0);
    assert_eq!(s.orders.len(), 1);
}

#[test]
fn repeated_product_counts_cumulatively() {
    let (mut s, _, badge, _) = sample();
    let r = s.create_order(1, &order_of(&[(badge, 3), (badge, 2)]), 0);
    assert!(matches!(r, Err(OrderError::InsufficientStock { .. })));
    assert_eq!(stock(&s, badge), 4);
    let o = s.create_order(1, &order_of(&[(badge, 3), (badge, 1)]), 0).unwrap();
    assert_eq!(o.items.len(), 2);
    assert_eq!(stock(&s, badge), 0);
}

#[test]
fn empty_order_is_refused() {
    let (mut s, _, _, _) = sample();
    let r = s.create_order(1, &order_of(&[]), 0);
    assert!(matches!(r, Err(OrderError::EmptyOrder)));
    assert_eq!(r.unwrap_err().kind(), ErrorKind::Validation);
}

#[test]
fn non_positive_quantity_is_refused() {
    let (mut s, poster, badge, _) = sample();
    let r = s.create_order(1, &order_of(&[(poster, 1), (badge, 0)]), 0);
    assert!(matches!(r, Err(OrderError::InvalidQuantity)));
    let r = s.create_order(1, &order_of(&[(poster, -2)]), 0);
    assert!(matches!(r, Err(OrderError::InvalidQuantity)));
    assert_eq!(stock(&s, poster), 10);
}

#[test]
fn product_of_another_event_is_not_found() {
    let (mut s, poster, _, other) = sample();
    let r = s.create_order(1, &order_of(&[(poster, 1), (other, 1)]), 0);
    assert!(matches!(r, Err(OrderError::NotFound)));
    let r = s.create_order(1, &order_of(&[(999, 1)]), 0);
    assert!(matches!(r, Err(OrderError::NotFound)));
    assert_eq!(r.unwrap_err().kind(), ErrorKind::NotFound);
    assert_eq!(stock(&s, poster), 10);
}

#[test]
fn first_failing_line_decides_the_error() {
    let (mut s, poster, badge, _) = sample();
    let r = s.create_order(1, &order_of(&[(poster, 11), (999, 1), (badge, 9)]), 0);
    match r {
        Err(OrderError::InsufficientStock { product_name }) => assert_eq!(product_name, "Poster"),
        other => panic!("unexpected {:?}", other),
    }
    let r = s.create_order(1, &order_of(&[(999, 1), (poster, 11)]), 0);
    assert!(matches!(r, Err(OrderError::NotFound)));
}

#[test]
fn oversized_total_is_refused() {
    let mut s = Store::new();
    let p = s
        .add_product_to_event(1, &master(1, "X", "Gold", i64::MAX / 2 + 1, None), None, 5)
        .unwrap();
    let r = s.create_order(1, &order_of(&[(p.id, 1), (p.id, 1)]), 0);
    assert!(matches!(r, Err(OrderError::AmountOverflow)));
    let r = s.create_order(1, &order_of(&[(p.id, 2)]), 0);
    assert!(matches!(r, Err(OrderError::AmountOverflow)));
    assert_eq!(stock(&s, p.id), 5);
    let ok = s.create_order(1, &order_of(&[(p.id, 1)]), 0).unwrap();
    assert_eq!(ok.order.total_amount, i64::MAX / 2 + 1);
}

#[test]
fn lines_snapshot_name_price_and_image() {
    let (mut s, poster, badge, _) = sample();
    let o = s.create_order(1, &order_of(&[(poster, 1), (badge, 2)]), 42).unwrap();
    assert_eq!(o.order.created_at, 42);
    assert_eq!(o.order.event_id, 1);
    let a = &o.items[0];
    assert_eq!(a.product_id, poster);
    assert_eq!(a.product_name, "Poster");
    assert_eq!(a.product_price, 500);
    assert_eq!(a.quantity, 1);
    assert_eq!(a.order_id, o.order.id);
    assert_eq!(a.product_image_url.as_deref(), Some("/static/uploads/posters/a.png"));
    assert_eq!(o.items[1].product_image_url, None);
    assert_eq!(o.items[1].product_price, 250);
    assert_ne!(o.items[0].id, o.items[1].id);

    s.update_product(poster, Some(900), None).unwrap();
    let listed = s.list_orders(1, None);
    assert_eq!(listed[0].items[0].product_price, 500);
    assert_eq!(listed[0].items[0].product_name, "Poster");
}

#[test]
fn status_changes_follow_the_life_cycle() {
    let (mut s, poster, _, _) = sample();
    let o = s.create_order(1, &order_of(&[(poster, 1)]), 0).unwrap();
    let same = s.update_status(o.order.id, 1, OrderStatus::Pending).unwrap();
    assert_eq!(same, o.order);
    s.update_status(o.order.id, 1, OrderStatus::Completed).unwrap();
    let back = s.update_status(o.order.id, 1, OrderStatus::Pending);
    assert!(matches!(back, Err(OrderError::InvalidTransition)));
    s.update_status(o.order.id, 1, OrderStatus::Cancelled).unwrap();
    let revive = s.update_status(o.order.id, 1, OrderStatus::Completed);
    assert!(matches!(revive, Err(OrderError::InvalidTransition)));
    assert_eq!(stock(&s, poster), 10);
}

#[test]
fn order_of_another_event_is_not_found() {
    let (mut s, poster, _, _) = sample();
    let o = s.create_order(1, &order_of(&[(poster, 2)]), 0).unwrap();
    let r = s.update_status(o.order.id, 2, OrderStatus::Cancelled);
    assert!(matches!(r, Err(OrderError::NotFound)));
    let r = s.update_status(o.order.id + 100, 1, OrderStatus::Completed);
    assert!(matches!(r, Err(OrderError::NotFound)));
    assert_eq!(stock(&s, poster), 8);
    assert_eq!(s.orders[0].status, OrderStatus::Pending);
}

#[test]
fn restock_keeps_units_sold() {
    let (mut s, poster, _, _) = sample();
    s.create_order(1, &order_of(&[(poster, 6)]), 0).unwrap();
    let p = s.update_product(poster, None, Some(20)).unwrap();
    assert_eq!(p.initial_stock, 20);
    assert_eq!(p.current_stock, 14);
    assert_eq!(p.price, 500);
    let r = s.update_product(poster, None, Some(5));
    assert!(matches!(r, Err(OrderError::InvalidStock)));
    let p = s.update_product(poster, Some(-1), None).unwrap();
    assert_eq!((p.price, p.initial_stock, p.current_stock), (-1, 20, 14));
    let r = s.update_product(4242, Some(1), None);
    assert!(matches!(r, Err(OrderError::NotFound)));
    let p = s.update_product(poster, Some(650), Some(6)).unwrap();
    assert_eq!((p.price, p.initial_stock, p.current_stock), (650, 6, 0));
}

#[test]
fn adding_products_checks_its_inputs() {
    let (mut s, _, _, _) = sample();
    let r = s.add_product_to_event(1, &master(11, "P-01", "Poster", 500, None), None, 5);
    assert!(matches!(r, Err(OrderError::Conflict)));
    assert_eq!(r.unwrap_err().kind(), ErrorKind::Conflict);
    let r = s.add_product_to_event(3, &master(13, "C", "Card", 100, None), None, -1);
    assert!(matches!(r, Err(OrderError::InvalidStock)));
    let p = s
        .add_product_to_event(3, &master(13, "C", "Card", -100, Some("c.png")), Some(80), 2)
        .unwrap();
    assert_eq!((p.price, p.initial_stock, p.current_stock), (80, 2, 2));
    let q = s.add_product_to_event(4, &master(14, "D", "Discount", -100, None), None, 1).unwrap();
    assert_eq!(q.price, -100);
    assert_eq!(p.product_code, "C");
    assert_eq!(p.image_url.as_deref(), Some("c.png"));
    assert_eq!(s.products.len(), 5);
}

#[test]
fn listing_is_most_recent_first_and_filtered() {
    let (mut s, poster, badge, other) = sample();
    let a = s.create_order(1, &order_of(&[(poster, 1)]), 0).unwrap();
    let b = s.create_order(2, &order_of(&[(other, 1)]), 0).unwrap();
    let c = s.create_order(1, &order_of(&[(badge, 1), (poster, 2)]), 0).unwrap();
    s.update_status(a.order.id, 1, OrderStatus::Completed).unwrap();

    let all = s.list_orders(1, None);
    let ids: Vec<i64> = all.iter().map(|o| o.order.id).collect();
    assert_eq!(ids, vec![c.order.id, a.order.id]);
    assert_eq!(all[0].items.len(), 2);
    assert_eq!(all[0].items[0].product_id, badge);
    assert_eq!(all[0].items[1].product_id, poster);
    assert_eq!(all[1].items.len(), 1);

    let done = s.list_orders(1, Some(OrderStatus::Completed));
    assert_eq!(done.len(), 1);
    assert_eq!(done[0].order.id, a.order.id);

    let second = s.list_orders(2, None);
    assert_eq!(second.len(), 1);
    assert_eq!(second[0].order.id, b.order.id);
    assert!(s.list_orders(9, None).is_empty());
}

#[test]
fn assembling_gives_unmatched_orders_no_lines() {
    let (mut s, poster, _, _) = sample();
    let a = s.create_order(1, &order_of(&[(poster, 1)]), 0).unwrap();
    let mut headers = s.orders.clone();
    let mut ghost_order = a.order;
    ghost_order.id = 77;
    headers.push(ghost_order);
    let out = assemble(&headers, &s.items);
    assert_eq!(out.len(), 2);
    assert_eq!(out[0].items.len(), 1);
    assert!(out[1].items.is_empty());
}

#[test]
fn errors_carry_kind_and_message() {
    let e = OrderError::InsufficientStock { product_name: "Poster".to_string() };
    assert_eq!(e.kind(), ErrorKind::InsufficientStock);
    assert_eq!(e.message(), "Insufficient stock for product: Poster");
    assert_eq!(OrderError::Storage.kind(), ErrorKind::Storage);
    assert_eq!(OrderError::InvalidTransition.kind(), ErrorKind::Validation);
    assert_eq!(OrderError::EmptyOrder.message(), "Order must have items");
}

#[test]
fn ledger_reserve_and_restore() {
    let (mut s, poster, _, other) = sample();
    let r = s.reserve(poster, 1, 4).unwrap();
    assert_eq!((r.product_id, r.price), (poster, 500));
    assert_eq!(r.name, "Poster");
    assert_eq!(stock(&s, poster), 6);
    assert!(matches!(s.reserve(poster, 1, 7), Err(OrderError::InsufficientStock { .. })));
    assert!(matches!(s.reserve(other, 1, 1), Err(OrderError::NotFound)));
    s.restore(poster, 4).unwrap();
    assert_eq!(stock(&s, poster), 10);
    assert!(matches!(s.restore(555, 1), Err(OrderError::NotFound)));
}

#[test]
fn negative_prices_count_in_the_total() {
    let mut s = Store::new();
    let item = s.add_product_to_event(1, &master(1, "I", "Item", 700, None), None, 5).unwrap();
    let coupon = s.add_product_to_event(1, &master(2, "C", "Coupon", -200, None), None, 5).unwrap();
    let o = s.create_order(1, &order_of(&[(item.id, 2), (coupon.id, 1)]), 0).unwrap();
    assert_eq!(o.order.total_amount, 1200);
    let low = s.add_product_to_event(1, &master(3, "L", "Low", i64::MIN / 2 - 1, None), None, 5).unwrap();
    let r = s.create_order(1, &order_of(&[(low.id, 2)]), 0);
    assert!(matches!(r, Err(OrderError::AmountOverflow)));
    assert_eq!(stock(&s, low.id), 5);
}

#[test]
fn stock_shortage_is_reported_before_exhausted_ids() {
    let (mut s, poster, badge, _) = sample();
    s.next_order_id = i64::MAX;
    let r = s.create_order(1, &order_of(&[(poster, 2), (badge, 5)]), 0);
    match r {
        Err(OrderError::InsufficientStock { product_name }) => assert_eq!(product_name, "Badge"),
        other => panic!("unexpected {:?}", other),
    }
    let r = s.create_order(1, &order_of(&[(poster, 2)]), 0);
    assert!(matches!(r, Err(OrderError::Storage)));
    assert_eq!(stock(&s, poster), 10);
}
