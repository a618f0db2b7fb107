use booth_pos::auth::Claims;
use booth_pos::error::{ErrorKind, OrderError};
use booth_pos::models::{CreateOrderDTO, CreateOrderItemDTO, MasterProduct, OrderStatus};
use booth_pos::store::Store;

fn claims(role: &str, access: &str, event_id: Option<i64>) -> Claims {
    Claims {
        sub: role.to_string(),
        role: role.to_string(),
        access: access.to_string(),
        event_id,
        exp: 0,
    }
}

fn master(id: i64, code: &str, price: i64) -> MasterProduct {
    MasterProduct {
        id,
        product_code: code.to_string(),
        name: code.to_string(),
        default_price: price,
        image_url: None,
        category: None,
        is_active: true,
    }
}

fn order_of(lines: &[(i64, i64)]) -> CreateOrderDTO {
    CreateOrderDTO {
        items: lines
            .iter()
            .map(|&(product_id, quantity)| CreateOrderItemDTO { product_id, quantity })
            .collect(),
    }
}

/// Event 5 stocks product A (stock 4) and event 7 stocks product B (stock 2)
/// with one pending order for one unit of B.
fn setup() -> (Store, i64, i64, i64) {
    let admin = claims("admin", "all", None);
    let mut s = Store::new();
    let a = s.add_product_for(&admin, 5, true, Some(&master(1, "A", 100)), None, 4).unwrap();
    let b = s.add_product_for(&admin, 7, true, Some(&master(2, "B", 300)), None, 2).unwrap();
    let o = s.create_order_for(&admin, 7, &order_of(&[(b.id, 1)]), 0).unwrap();
    (s, a.id, b.id, o.order.id)
}

#[test]
fn vendor_of_event_five_listing_event_seven_is_forbidden() {
    let (s, _, _, _) = setup();
    let vendor = claims("vendor", "event", Some(5));
    let r = s.list_orders_for(&vendor, 7, None);
    assert!(matches!(r, Err(OrderError::Forbidden)));
    assert_eq!(r.unwrap_err().kind(), ErrorKind::Forbidden);
    assert!(matches!(s.list_orders_for(&vendor, 99, None), Err(OrderError::Forbidden)));
    assert!(s.list_orders_for(&vendor, 5, None).unwrap().is_empty());
    assert_eq!(s.list_orders_for(&claims("vendor", "all", None), 7, None).unwrap().len(), 1);
}

#[test]
fn denied_status_change_restores_nothing() {
    let (mut s, _, b, oid) = setup();
    let vendor = claims("vendor", "event", Some(5));
    let r = s.update_status_for(&vendor, oid, 7, OrderStatus::Cancelled);
    assert!(matches!(r, Err(OrderError::Forbidden)));
    assert_eq!(s.product(b).unwrap().current_stock, 1);
    assert_eq!(s.orders[0].status, OrderStatus::Pending);
    let own = claims("vendor", "event", Some(7));
    let done = s.update_status_for(&own, oid, 7, OrderStatus::Cancelled).unwrap();
    assert_eq!(done.status, OrderStatus::Cancelled);
    assert_eq!(s.product(b).unwrap().current_stock, 2);
}

#[test]
fn denied_order_placement_changes_nothing() {
    let (mut s, a, _, _) = setup();
    let r = s.create_order_for(&claims("vendor", "event", Some(7)), 5, &order_of(&[(a, 1)]), 0);
    assert!(matches!(r, Err(OrderError::Forbidden)));
    assert_eq!(s.product(a).unwrap().current_stock, 4);
    assert_eq!(s.orders.len(), 1);
}

#[test]
fn adding_a_product_checks_in_order() {
    let (mut s, _, _, _) = setup();
    let other = claims("vendor", "event", Some(7));
    let r = s.add_product_for(&other, 5, false, None, None, 1);
    assert!(matches!(r, Err(OrderError::Forbidden)));
    let own = claims("vendor", "event", Some(5));
    let r = s.add_product_for(&own, 5, false, None, None, 1);
    assert!(matches!(r, Err(OrderError::EventNotFound)));
    assert_eq!(r.unwrap_err().message(), "Event not found");
    let r = s.add_product_for(&own, 5, true, None, None, 1);
    assert!(matches!(r, Err(OrderError::UnknownProductCode)));
    assert_eq!(r.unwrap_err().kind(), ErrorKind::NotFound);
    let r = s.add_product_for(&own, 5, true, Some(&master(1, "A", 100)), None, 1);
    assert!(matches!(r, Err(OrderError::Conflict)));
    let p = s.add_product_for(&own, 5, true, Some(&master(3, "C", 50)), Some(-5), 3).unwrap();
    assert_eq!((p.event_id, p.price, p.initial_stock, p.current_stock), (5, -5, 3, 3));
    assert_eq!(s.products.len(), 3);
}

#[test]
fn product_update_is_judged_on_its_own_event() {
    let (mut s, a, b, _) = setup();
    let vendor5 = claims("vendor", "event", Some(5));
    assert!(matches!(s.update_product_for(&vendor5, 999, Some(1), None), Err(OrderError::NotFound)));
    assert!(matches!(s.update_product_for(&vendor5, b, Some(1), None), Err(OrderError::Forbidden)));
    assert_eq!(s.product(b).unwrap().price, 300);
    let p = s.update_product_for(&claims("vendor", "event", Some(7)), b, Some(350), Some(6)).unwrap();
    assert_eq!((p.price, p.initial_stock, p.current_stock), (350, 6, 5));
    let q = s.update_product_for(&vendor5, a, None, Some(10)).unwrap();
    assert_eq!((q.initial_stock, q.current_stock), (10, 10));
}

#[test]
fn unknown_access_scope_is_denied_even_with_matching_event() {
    let (s, _, _, _) = setup();
    let odd = claims("vendor", "booth", Some(7));
    assert!(matches!(s.list_orders_for(&odd, 7, None), Err(OrderError::Forbidden)));
}
