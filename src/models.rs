use vstd::prelude::*;

use crate::text::{copy_optional, optional_upload_url, same_text, upload_path};

verus! {

/// Where an order stands.
#[derive(Debug, Clone, Copy, PartialEq, Eq, Structural)]
pub enum OrderStatus {
    Pending,
    Completed,
    Cancelled,
}

pub open spec fn status_name(s: OrderStatus) -> Seq<char> {
    match s {
        OrderStatus::Pending => "pending"@,
        OrderStatus::Completed => "completed"@,
        OrderStatus::Cancelled => "cancelled"@,
    }
}

/// The status that a name denotes, if any.
pub open spec fn status_named(name: Seq<char>) -> Option<OrderStatus> {
    if name == "pending"@ {
        Some(OrderStatus::Pending)
    } else if name == "completed"@ {
        Some(OrderStatus::Completed)
    } else if name == "cancelled"@ {
        Some(OrderStatus::Cancelled)
    } else {
        None
    }
}

impl OrderStatus {
    /// Reads a status from its name.
    pub fn parse(name: &str) -> (r: Option<OrderStatus>)
        ensures
            r == status_named(name@),
    {
        if same_text(name, "pending") {
            Some(OrderStatus::Pending)
        } else if same_text(name, "completed") {
            Some(OrderStatus::Completed)
        } else if same_text(name, "cancelled") {
            Some(OrderStatus::Cancelled)
        } else {
            None
        }
    }

    /// The status's name.
    pub fn as_str(&self) -> (r: &'static str)
        ensures
            r@ == status_name(*self),
    {
        match self {
            OrderStatus::Pending => "pending",
            OrderStatus::Completed => "completed",
            OrderStatus::Cancelled => "cancelled",
        }
    }
}

/// A product of the event-independent master catalogue. The default price
/// is in whole cents.
#[derive(Debug)]
pub struct MasterProduct {
    pub id: i64,
    pub product_code: String,
    pub name: String,
    pub default_price: i64,
    pub image_url: Option<String>,
    pub category: Option<String>,
    pub is_active: bool,
}

/// A product of the master catalogue stocked at one event.
///
/// Prices are whole cents. `initial_stock` is the quantity the event started
/// with and `current_stock` what is left of it.
#[derive(Debug)]
pub struct Product {
    pub id: i64,
    pub event_id: i64,
    pub master_product_id: i64,
    pub product_code: String,
    pub name: String,
    pub price: i64,
    pub initial_stock: i64,
    pub current_stock: i64,
    pub image_url: Option<String>,
    pub category: Option<String>,
}

impl Product {
    pub open spec fn wf(&self) -> bool {
        0 <= self.current_stock <= self.initial_stock
    }

    /// How many units have been sold.
    pub open spec fn sold(&self) -> int {
        self.initial_stock - self.current_stock
    }

    /// An identical copy.
    pub fn copied(&self) -> (r: Product)
        ensures
            r == *self,
    {
        Product {
            id: self.id,
            event_id: self.event_id,
            master_product_id: self.master_product_id,
            product_code: self.product_code.clone(),
            name: self.name.clone(),
            price: self.price,
            initial_stock: self.initial_stock,
            current_stock: self.current_stock,
            image_url: copy_optional(&self.image_url),
            category: copy_optional(&self.category),
        }
    }
}

/// An order header. `total_amount` is in cents.
#[derive(Debug, Clone, Copy, PartialEq, Eq, Structural)]
pub struct Order {
    pub id: i64,
    pub event_id: i64,
    pub total_amount: i64,
    pub status: OrderStatus,
    /// Creation time, in seconds since the Unix epoch.
    pub created_at: i64,
}

/// One line of an order: the product's name, price and image as they were
/// when the order was placed, and the quantity bought.
#[derive(Debug)]
pub struct OrderItem {
    pub id: i64,
    pub order_id: i64,
    pub product_id: i64,
    pub product_name: String,
    pub product_price: i64,
    pub quantity: i64,
    pub product_image_url: Option<String>,
}

impl OrderItem {
    /// The amount the line adds to its order's total.
    pub open spec fn amount(&self) -> int {
        self.product_price * self.quantity
    }

    /// An identical copy.
    pub fn copied(&self) -> (r: OrderItem)
        ensures
            r == *self,
    {
        OrderItem {
            id: self.id,
            order_id: self.order_id,
            product_id: self.product_id,
            product_name: self.product_name.clone(),
            product_price: self.product_price,
            quantity: self.quantity,
            product_image_url: copy_optional(&self.product_image_url),
        }
    }
}

/// An order together with its lines.
#[derive(Debug)]
pub struct OrderWithItems {
    pub order: Order,
    pub items: Vec<OrderItem>,
}

/// One requested line of a new order.
#[derive(Debug, Clone, Copy, PartialEq, Eq, Structural)]
pub struct CreateOrderItemDTO {
    pub product_id: i64,
    pub quantity: i64,
}

/// A request for a new order.
#[derive(Debug)]
pub struct CreateOrderDTO {
    pub items: Vec<CreateOrderItemDTO>,
}

/// An event (a convention or fair) that vendors sell at.
#[derive(Debug)]
pub struct Event {
    pub id: i64,
    pub name: String,
    pub event_date: String,
    pub location: Option<String>,
    pub status: String,
    pub vendor_password: Option<String>,
    pub payment_qr_code_path: Option<String>,
}

/// An event as it is shown to clients, with the URL of its payment QR code.
#[derive(Debug)]
pub struct EventResponse {
    pub base: Event,
    pub qrcode_url: Option<String>,
}

impl EventResponse {
    /// Resolves the stored QR code path into the URL that serves it.
    pub fn from_model(event: Event) -> (r: EventResponse)
        ensures
            r.base == event,
            r.qrcode_url.is_none() == event.payment_qr_code_path.is_none(),
            event.payment_qr_code_path.is_some() ==> r.qrcode_url.unwrap()@ == upload_path(
                event.payment_qr_code_path.unwrap()@,
            ),
    {
        let qrcode_url = optional_upload_url(&event.payment_qr_code_path);
        EventResponse { base: event, qrcode_url }
    }
}

} // verus!
