use booth_pos::auth::{
    grant_for, is_default_admin_password, login, verify_password, AuthError, Grant, PasswordMatches,
    StoredPasswords,
};

fn hashed(pw: &str) -> String {
    bcrypt::hash(pw, 4).unwrap()
}

fn none() -> PasswordMatches {
    PasswordMatches { admin: false, vendor: false, event: false }
}

#[test]
fn password_verification_uses_the_hash() {
    let h = hashed("s3cret");
    assert!(verify_password("s3cret", &h));
    assert!(!verify_password("s3cret!", &h));
    assert!(!verify_password("s3cret", "not-a-hash"));
    assert!(!verify_password("s3cret", &h.replace("$2b$", "$9z$")));
}

#[test]
fn grant_rules() {
    assert_eq!(grant_for("admin", None, false, PasswordMatches { admin: true, ..none() }), Ok(Grant::Admin));
    assert_eq!(
        grant_for("admin", None, false, PasswordMatches { vendor: true, event: true, ..none() }),
        Err(AuthError::WrongCredentials)
    );
    assert_eq!(grant_for("vendor", Some(3), true, PasswordMatches { admin: true, ..none() }), Ok(Grant::VendorAll));
    assert_eq!(grant_for("vendor", None, false, PasswordMatches { vendor: true, ..none() }), Ok(Grant::VendorAll));
    assert_eq!(
        grant_for("vendor", Some(3), true, PasswordMatches { event: true, ..none() }),
        Ok(Grant::VendorEvent(3))
    );
    assert_eq!(
        grant_for("vendor", Some(3), false, PasswordMatches { event: true, ..none() }),
        Err(AuthError::WrongCredentials)
    );
    assert_eq!(
        grant_for("vendor", None, true, PasswordMatches { event: true, ..none() }),
        Err(AuthError::WrongCredentials)
    );
    assert_eq!(
        grant_for("guest", None, true, PasswordMatches { admin: true, vendor: true, event: true }),
        Err(AuthError::WrongCredentials)
    );
}

#[test]
fn grant_exposes_claim_fields() {
    assert_eq!((Grant::Admin.role(), Grant::Admin.access(), Grant::Admin.event_id()), ("admin", "all", None));
    assert_eq!(Grant::VendorAll.role(), "vendor");
    assert_eq!(Grant::VendorAll.access(), "all");
    let g = Grant::VendorEvent(9);
    assert_eq!((g.role(), g.access(), g.event_id()), ("vendor", "event", Some(9)));
}

#[test]
fn login_against_stored_hashes() {
    let stored = StoredPasswords {
        admin: Some(hashed("boss")),
        vendor: None,
        event: Some(Some(hashed("booth9"))),
    };
    assert_eq!(login("admin", "boss", None, &stored), Ok(Grant::Admin));
    assert_eq!(login("admin", "booth9", None, &stored), Err(AuthError::WrongCredentials));
    assert_eq!(login("vendor", "boss", Some(9), &stored), Ok(Grant::VendorAll));
    assert_eq!(login("vendor", "booth9", Some(9), &stored), Ok(Grant::VendorEvent(9)));
    assert_eq!(login("vendor", "wrong", Some(9), &stored), Err(AuthError::WrongCredentials));
    let missing_event = StoredPasswords { admin: None, vendor: Some(hashed("v")), event: None };
    assert_eq!(login("vendor", "v", Some(4), &missing_event), Ok(Grant::VendorAll));
    assert_eq!(login("vendor", "booth9", Some(4), &missing_event), Err(AuthError::WrongCredentials));
}

#[test]
fn default_admin_password_detection() {
    assert!(is_default_admin_password(&Some(hashed("admin123"))));
    assert!(!is_default_admin_password(&Some(hashed("changed"))));
    assert!(!is_default_admin_password(&None));
}
