use vstd::prelude::*;

use crate::text::same_text;

verus! {

/// Why a request could not be authenticated or authorised.
#[derive(Debug, Clone, Copy, PartialEq, Eq, Structural)]
pub enum AuthError {
    WrongCredentials,
    TokenCreation,
    InvalidToken,
    Forbidden,
}

/// The already-validated identity that comes with a request.
///
/// `role` is `"admin"` or `"vendor"`, `access` is `"all"` or `"event"`, and
/// `event_id` is the event a vendor is bound to when `access` is `"event"`.
#[derive(Debug)]
pub struct Claims {
    pub sub: String,
    pub role: String,
    pub access: String,
    pub event_id: Option<i64>,
    pub exp: usize,
}

/// Claims whose role was checked to be the administrator's.
pub struct AdminOnly(pub Claims);

pub open spec fn is_admin(c: &Claims) -> bool {
    c.role@ == "admin"@
}

/// Whether the claims grant access to the given event: an administrator
/// always, a vendor with access to all events always, a vendor bound to one
/// event only for that event, and nobody else.
pub open spec fn grants(c: &Claims, event_id: i64) -> bool {
    is_admin(c) || (c.role@ == "vendor"@ && (c.access@ == "all"@ || (c.access@ == "event"@
        && c.event_id == Some(event_id))))
}

/// Decides whether the claims may read the event's data.
pub fn can_read(claims: &Claims, event_id: i64) -> (r: bool)
    ensures
        r == grants(claims, event_id),
{
    if same_text(claims.role.as_str(), "admin") {
        return true;
    }
    if !same_text(claims.role.as_str(), "vendor") {
        return false;
    }
    if same_text(claims.access.as_str(), "all") {
        return true;
    }
    if !same_text(claims.access.as_str(), "event") {
        return false;
    }
    match claims.event_id {
        Some(bound) => bound == event_id,
        None => false,
    }
}

/// Decides whether the claims may change the event's data; the policy is
/// the same as for reading.
pub fn can_write(claims: &Claims, event_id: i64) -> (r: bool)
    ensures
        r == grants(claims, event_id),
{
    can_read(claims, event_id)
}

/// Read access to an event, reporting a denial as `Forbidden`.
pub fn check_read_permission(claims: &Claims, event_id: i64) -> (r: Result<(), AuthError>)
    ensures
        r is Ok <==> grants(claims, event_id),
        r is Err ==> r == Err::<(), AuthError>(AuthError::Forbidden),
{
    if can_read(claims, event_id) {
        Ok(())
    } else {
        Err(AuthError::Forbidden)
    }
}

/// Write access to an event, reporting a denial as `Forbidden`.
pub fn check_write_permission(claims: &Claims, event_id: i64) -> (r: Result<(), AuthError>)
    ensures
        r is Ok <==> grants(claims, event_id),
        r is Err ==> r == Err::<(), AuthError>(AuthError::Forbidden),
{
    if can_write(claims, event_id) {
        Ok(())
    } else {
        Err(AuthError::Forbidden)
    }
}

impl AdminOnly {
    /// Accepts the claims only when their role is the administrator's.
    pub fn from_claims(claims: Claims) -> (r: Result<AdminOnly, AuthError>)
        ensures
            match r {
                Ok(a) => a.0 == claims && is_admin(&claims),
                Err(e) => e == AuthError::Forbidden && !is_admin(&claims),
            },
    {
        if same_text(claims.role.as_str(), "admin") {
            Ok(AdminOnly(claims))
        } else {
            Err(AuthError::Forbidden)
        }
    }
}

/// Whether `password` matches the bcrypt hash `hash`; a malformed hash
/// matches no password.
pub uninterp spec fn bcrypt_matches(password: Seq<char>, hash: Seq<char>) -> bool;

/// Relies on `bcrypt::verify`: it recomputes the hash of the password with
/// the cost and salt read from `hash` and compares; the answer depends on the
/// two strings alone. Its error (a malformed hash) counts as no match.
#[verifier::external_body]
pub fn verify_password(password: &str, hash: &str) -> (r: bool)
    ensures
        r == bcrypt_matches(password@, hash@),
{
    bcrypt::verify(password, hash).unwrap_or(false)
}

/// The access a successful login grants.
#[derive(Debug, Clone, Copy, PartialEq, Eq, Structural)]
pub enum Grant {
    /// The administrator: every event.
    Admin,
    /// A vendor with access to every event.
    VendorAll,
    /// A vendor bound to one event.
    VendorEvent(i64),
}

impl Grant {
    pub fn role(&self) -> (r: &'static str)
        ensures
            r@ == (if *self == Grant::Admin {
                "admin"@
            } else {
                "vendor"@
            }),
    {
        match self {
            Grant::Admin => "admin",
            _ => "vendor",
        }
    }

    pub fn access(&self) -> (r: &'static str)
        ensures
            r@ == (if *self is VendorEvent {
                "event"@
            } else {
                "all"@
            }),
    {
        match self {
            Grant::VendorEvent(_) => "event",
            _ => "all",
        }
    }

    pub fn event_id(&self) -> (r: Option<i64>)
        ensures
            r == (match *self {
                Grant::VendorEvent(e) => Some(e),
                _ => None,
            }),
    {
        match self {
            Grant::VendorEvent(e) => Some(*e),
            _ => None,
        }
    }
}

/// Which stored password hashes the submitted password matched.
#[derive(Debug, Clone, Copy, PartialEq, Eq, Structural)]
pub struct PasswordMatches {
    /// The administrator's password.
    pub admin: bool,
    /// The shared vendor password.
    pub vendor: bool,
    /// The vendor password of the requested event.
    pub event: bool,
}

/// The login rules: the administrator logs in with the administrator's
/// password; a vendor with the administrator's or the shared vendor password
/// gets every event, and otherwise with the requested event's own password
/// gets that event alone.
pub open spec fn login_rule(role: Seq<char>, event_id: Option<i64>, event_known: bool, m: PasswordMatches) -> Option<Grant> {
    if role == "admin"@ {
        if m.admin {
            Some(Grant::Admin)
        } else {
            None
        }
    } else if role == "vendor"@ {
        if m.admin || m.vendor {
            Some(Grant::VendorAll)
        } else if event_id is Some && event_known && m.event {
            Some(Grant::VendorEvent(event_id->Some_0))
        } else {
            None
        }
    } else {
        None
    }
}

/// Decides a login from what the password matched.
pub fn grant_for(role: &str, event_id: Option<i64>, event_known: bool, m: PasswordMatches) -> (r: Result<Grant, AuthError>)
    ensures
        r == (match login_rule(role@, event_id, event_known, m) {
            Some(g) => Ok(g),
            None => Err(AuthError::WrongCredentials),
        }),
{
    if same_text(role, "admin") {
        if m.admin {
            Ok(Grant::Admin)
        } else {
            Err(AuthError::WrongCredentials)
        }
    } else if same_text(role, "vendor") {
        if m.admin || m.vendor {
            Ok(Grant::VendorAll)
        } else {
            match event_id {
                Some(e) => {
                    if event_known && m.event {
                        Ok(Grant::VendorEvent(e))
                    } else {
                        Err(AuthError::WrongCredentials)
                    }
                },
                None => Err(AuthError::WrongCredentials),
            }
        }
    } else {
        Err(AuthError::WrongCredentials)
    }
}

/// Whether the password matches a stored hash, where one is stored.
pub fn matches_stored(password: &str, hash: &Option<String>) -> (r: bool)
    ensures
        r == (hash is Some && bcrypt_matches(password@, hash->Some_0@)),
{
    match hash {
        Some(h) => verify_password(password, h.as_str()),
        None => false,
    }
}

/// The passwords a login is checked against: the administrator's, the
/// shared vendor password, and, for the requested event, `None` when the
/// event does not exist and `Some(None)` when it has no vendor password.
pub struct StoredPasswords {
    pub admin: Option<String>,
    pub vendor: Option<String>,
    pub event: Option<Option<String>>,
}

/// Decides a login attempt against the stored password hashes.
pub fn login(role: &str, password: &str, event_id: Option<i64>, stored: &StoredPasswords) -> (r: Result<Grant, AuthError>)
    ensures
        r == (match login_rule(
            role@,
            event_id,
            stored.event is Some,
            PasswordMatches {
                admin: stored.admin is Some && bcrypt_matches(password@, stored.admin->Some_0@),
                vendor: stored.vendor is Some && bcrypt_matches(password@, stored.vendor->Some_0@),
                event: stored.event is Some && stored.event->Some_0 is Some && bcrypt_matches(
                    password@,
                    stored.event->Some_0->Some_0@,
                ),
            },
        ) {
            Some(g) => Ok(g),
            None => Err(AuthError::WrongCredentials),
        }),
{
    let admin = matches_stored(password, &stored.admin);
    let vendor = matches_stored(password, &stored.vendor);
    let event = match &stored.event {
        Some(h) => matches_stored(password, h),
        None => false,
    };
    let event_known = match &stored.event {
        Some(_) => true,
        None => false,
    };
    grant_for(role, event_id, event_known, PasswordMatches { admin, vendor, event })
}

/// Whether the stored administrator password is still the factory default.
pub fn is_default_admin_password(admin_hash: &Option<String>) -> (r: bool)
    ensures
        r == (admin_hash is Some && bcrypt_matches("admin123"@, admin_hash->Some_0@)),
{
    matches_stored("admin123", admin_hash)
}

} // verus!
