use booth_pos::auth::{can_read, can_write, check_read_permission, check_write_permission, AdminOnly, AuthError, Claims};
use booth_pos::models::{Event, EventResponse, OrderStatus};
use booth_pos::text::{same_text, upload_url};

fn claims(role: &str, access: &str, event_id: Option<i64>) -> Claims {
    Claims {
        sub: role.to_string(),
        role: role.to_string(),
        access: access.to_string(),
        event_id,
        exp: 0,
    }
}

#[test]
fn vendor_of_other_event_is_forbidden() {
    let c = claims("vendor", "event", Some(5));
    assert_eq!(check_read_permission(&c, 7), Err(AuthError::Forbidden));
    assert_eq!(check_write_permission(&c, 7), Err(AuthError::Forbidden));
    assert_eq!(check_read_permission(&c, 5), Ok(()));
}

#[test]
fn admin_and_all_access_vendor_may_touch_any_event() {
    assert!(can_read(&claims("admin", "all", None), 3));
    assert!(can_write(&claims("admin", "event", Some(1)), 3));
    assert!(can_read(&claims("vendor", "all", None), 3));
    assert!(!can_read(&claims("vendor", "event", None), 3));
    assert!(!can_read(&claims("guest", "all", None), 3));
    assert!(!can_write(&claims("Admin", "all", None), 3));
    assert!(can_read(&claims("vendor", "event", Some(3)), 3));
    assert!(!can_read(&claims("vendor", "booth", Some(3)), 3));
}

#[test]
fn only_admin_claims_pass_the_admin_guard() {
    assert!(AdminOnly::from_claims(claims("admin", "all", None)).is_ok());
    assert!(matches!(
        AdminOnly::from_claims(claims("vendor", "all", None)),
        Err(AuthError::Forbidden)
    ));
}

#[test]
fn status_names_round_trip() {
    for st in [OrderStatus::Pending, OrderStatus::Completed, OrderStatus::Cancelled] {
        assert_eq!(OrderStatus::parse(st.as_str()), Some(st));
    }
    assert_eq!(OrderStatus::parse("cancelled"), Some(OrderStatus::Cancelled));
    assert_eq!(OrderStatus::parse("done"), None);
    assert_eq!(OrderStatus::parse(""), None);
}

#[test]
fn event_qr_code_path_becomes_url() {
    let e = Event {
        id: 1,
        name: "Expo".to_string(),
        event_date: "2024-05-01".to_string(),
        location: None,
        status: "upcoming".to_string(),
        vendor_password: None,
        payment_qr_code_path: Some("events/qr.jpg".to_string()),
    };
    let r = EventResponse::from_model(e);
    assert_eq!(r.qrcode_url.as_deref(), Some("/static/uploads/events/qr.jpg"));
    assert_eq!(r.base.id, 1);
    let bare = Event {
        id: 2,
        name: "Fair".to_string(),
        event_date: "2024-06-01".to_string(),
        location: Some("Hall".to_string()),
        status: "upcoming".to_string(),
        vendor_password: None,
        payment_qr_code_path: None,
    };
    assert_eq!(EventResponse::from_model(bare).qrcode_url, None);
}

#[test]
fn text_helpers() {
    assert!(same_text("abc", "abc"));
    assert!(!same_text("abc", "abd"));
    assert!(!same_text("abc", "ab"));
    assert_eq!(upload_url("x/y.png"), "/static/uploads/x/y.png");
}
