use vstd::prelude::*;

verus! {

/// Why an inventory or order operation was refused. Every refusal leaves the
/// store as it was.
#[derive(Debug)]
pub enum OrderError {
    /// An order without lines.
    EmptyOrder,
    /// A requested quantity that is not positive.
    InvalidQuantity,
    /// A stock level below zero or below what was already sold.
    InvalidStock,
    /// A status change that the order life cycle does not allow.
    InvalidTransition,
    /// An order total that does not fit the amount type.
    AmountOverflow,
    /// The product or order is absent, or absent from the requested event.
    NotFound,
    /// The event does not exist.
    EventNotFound,
    /// No product of the master catalogue has the given code.
    UnknownProductCode,
    /// The caller's claims do not cover the event.
    Forbidden,
    /// Not enough units left of the named product.
    InsufficientStock { product_name: String },
    /// The product is already stocked at this event.
    Conflict,
    /// The store has no ids left for the new rows.
    Storage,
}

impl OrderError {
    /// The error's class.
    pub fn kind(&self) -> (r: ErrorKind)
        ensures
            r == kind_of(*self),
    {
        match self {
            OrderError::NotFound => ErrorKind::NotFound,
            OrderError::EventNotFound => ErrorKind::NotFound,
            OrderError::UnknownProductCode => ErrorKind::NotFound,
            OrderError::Forbidden => ErrorKind::Forbidden,
            OrderError::InsufficientStock { .. } => ErrorKind::InsufficientStock,
            OrderError::Conflict => ErrorKind::Conflict,
            OrderError::Storage => ErrorKind::Storage,
            _ => ErrorKind::Validation,
        }
    }

    /// A human-readable explanation; a stock shortage names the product.
    pub fn message(&self) -> (r: String)
        ensures
            r@ == error_message(*self),
    {
        match self {
            OrderError::EmptyOrder => String::from_str("Order must have items"),
            OrderError::InvalidQuantity => String::from_str("Quantity must be positive"),
            OrderError::InvalidStock => String::from_str("Initial stock must not be negative nor below the quantity already sold"),
            OrderError::InvalidTransition => String::from_str("Status change not allowed"),
            OrderError::AmountOverflow => String::from_str("Order total too large"),
            OrderError::NotFound => String::from_str("Not found"),
            OrderError::EventNotFound => String::from_str("Event not found"),
            OrderError::UnknownProductCode => String::from_str("Product code not found in master catalog"),
            OrderError::Forbidden => String::from_str("Access denied"),
            OrderError::Conflict => String::from_str("Product already in this event"),
            OrderError::Storage => String::from_str("Storage error"),
            OrderError::InsufficientStock { product_name } => {
                let mut m = String::from_str("Insufficient stock for product: ");
                m.append(product_name.as_str());
                m
            },
        }
    }
}

/// The stable, machine-checkable class of an error.
#[derive(Debug, Clone, Copy, PartialEq, Eq, Structural)]
pub enum ErrorKind {
    Validation,
    NotFound,
    InsufficientStock,
    Forbidden,
    Conflict,
    Storage,
}

pub open spec fn kind_of(e: OrderError) -> ErrorKind {
    match e {
        OrderError::NotFound => ErrorKind::NotFound,
        OrderError::EventNotFound => ErrorKind::NotFound,
        OrderError::UnknownProductCode => ErrorKind::NotFound,
        OrderError::Forbidden => ErrorKind::Forbidden,
        OrderError::InsufficientStock { .. } => ErrorKind::InsufficientStock,
        OrderError::Conflict => ErrorKind::Conflict,
        OrderError::Storage => ErrorKind::Storage,
        _ => ErrorKind::Validation,
    }
}

/// The human-readable explanation of an error; a stock shortage names the
/// product.
pub open spec fn error_message(e: OrderError) -> Seq<char> {
    match e {
        OrderError::EmptyOrder => "Order must have items"@,
        OrderError::InvalidQuantity => "Quantity must be positive"@,
        OrderError::InvalidStock => "Initial stock must not be negative nor below the quantity already sold"@,
        OrderError::InvalidTransition => "Status change not allowed"@,
        OrderError::AmountOverflow => "Order total too large"@,
        OrderError::NotFound => "Not found"@,
        OrderError::EventNotFound => "Event not found"@,
        OrderError::UnknownProductCode => "Product code not found in master catalog"@,
        OrderError::Forbidden => "Access denied"@,
        OrderError::Conflict => "Product already in this event"@,
        OrderError::Storage => "Storage error"@,
        OrderError::InsufficientStock { product_name } => "Insufficient stock for product: "@
            + product_name@,
    }
}

/// Two errors of the same variant, with the same product name where they
/// carry one.
pub open spec fn same_error(a: OrderError, b: OrderError) -> bool {
    match a {
        OrderError::InsufficientStock { product_name: x } => match b {
            OrderError::InsufficientStock { product_name: y } => x@ == y@,
            _ => false,
        },
        _ => a == b,
    }
}

} // verus!
