//! A small example domain — an order-processing service — used as analysis
//! subject matter in demonstrations and tests of the engine.

use vstd::prelude::*;
use vstd::string::StringExecFns;
use std::collections::HashMap;

verus! {

/// Greets someone by name.
pub fn greet(name: &str) -> (r: String)
    ensures
        r@ == "Hello, "@ + name@ + "!"@,
{
    String::from_str("Hello, ").concat(name).concat("!")
}

/// The Fibonacci numbers.
pub open spec fn fib(n: nat) -> nat
    decreases n,
{
    if n == 0 {
        0
    } else if n == 1 {
        1
    } else {
        fib((n - 1) as nat) + fib((n - 2) as nat)
    }
}

/// The Fibonacci numbers never decrease.
pub proof fn lemma_fib_monotonic(i: nat, j: nat)
    requires
        i <= j,
    ensures
        fib(i) <= fib(j),
    decreases j,
{
    if i < j && j >= 2 {
        lemma_fib_monotonic(i, (j - 1) as nat);
    }
}

/// Computes the `n`-th Fibonacci number.
pub fn fibonacci(n: u64) -> (r: u64)
    requires
        fib(n as nat) <= u64::MAX,
    ensures
        r == fib(n as nat),
{
    if n == 0 {
        return 0;
    }
    let mut a: u64 = 0;
    let mut b: u64 = 1;
    let mut i: u64 = 1;
    while i < n
        invariant
            1 <= i <= n,
            a == fib((i - 1) as nat),
            b == fib(i as nat),
            fib(n as nat) <= u64::MAX,
        decreases n - i,
    {
        proof {
            lemma_fib_monotonic((i + 1) as nat, n as nat);
        }
        let temp = a + b;
        a = b;
        b = temp;
        i = i + 1;
    }
    b
}

/// What a product is.
#[derive(Clone, Copy, Debug, PartialEq, Eq, Structural)]
pub enum ProductCategory {
    Electronics,
    Books,
    Clothing,
    Home,
    Hazmat,
}

/// A card a customer pays with.
#[derive(Clone, Debug)]
pub struct CreditCard {
    pub number: String,
    pub expiry: String,
    pub cvv: String,
    pub name: String,
}

/// A PayPal account a customer pays with.
#[derive(Clone, Debug)]
pub struct PayPalAccount {
    pub email: String,
}

/// A bank account a customer pays from.
#[derive(Clone, Debug)]
pub struct BankDetails {
    pub account_number: String,
    pub routing_number: String,
    pub bank_name: String,
}

/// A wallet a customer pays from.
#[derive(Clone, Debug)]
pub struct CryptoWallet {
    pub address: String,
    pub currency: String,
}

/// How an order is paid.
#[derive(Clone, Debug)]
pub enum PaymentMethod {
    CreditCard(CreditCard),
    PayPal(PayPalAccount),
    BankTransfer(BankDetails),
    Cryptocurrency(CryptoWallet),
}

/// Where an order ships to.
#[derive(Clone, Debug)]
pub struct Address {
    pub street: String,
    pub city: String,
    pub state: String,
    pub zip: String,
    pub country: String,
}

/// How valued a customer is.
#[derive(Clone, Copy, Debug, PartialEq, Eq, Structural)]
pub enum CustomerTier {
    Basic,
    Premium,
    Enterprise,
}

/// Where an order stands.
#[derive(Clone, Copy, Debug, PartialEq, Eq, Structural)]
pub enum OrderStatus {
    Pending,
    Processing,
    Shipped,
    Delivered,
    Cancelled,
    Refunded,
}

/// Why order processing rejected its input.
#[derive(Clone, Copy, Debug, PartialEq, Eq, Structural)]
pub enum ProcessingError {
    InvalidAmount,
    MissingEmail,
}

/// A customer of the example shop.
pub struct Customer {
    pub email: String,
    pub premium: bool,
    pub satisfaction: Option<u8>,
}

impl Customer {
    /// Whether the customer has a premium account.
    pub fn is_premium(&self) -> (r: bool)
        ensures
            r == self.premium,
    {
        self.premium
    }

    /// The customer's satisfaction rating, when one was given.
    pub fn satisfaction_rating(&self) -> (r: Option<u8>)
        ensures
            r == self.satisfaction,
    {
        self.satisfaction
    }
}

/// Tallies of processed orders, one counter per category.
pub struct OrderSummary {
    pub processing_orders: u64,
    pub shipped_orders: u64,
    pub delivered_orders: u64,
    pub cancelled_orders: u64,
    pub refunded_orders: u64,
    pub express_shipments: u64,
    pub high_value_items: u64,
    pub medium_value_items: u64,
    pub low_value_items: u64,
    pub book_orders: u64,
    pub other_orders: u64,
    pub satisfied_customers: u64,
    pub neutral_customers: u64,
    pub unsatisfied_customers: u64,
    pub unrated_customers: u64,
    pub quality_issues: u64,
    pub delivery_issues: u64,
    pub other_issues: u64,
}

impl OrderSummary {
    /// A summary with every counter at zero.
    pub fn new() -> (r: Self)
        ensures
            r.processing_orders == 0,
            r.shipped_orders == 0,
            r.delivered_orders == 0,
            r.cancelled_orders == 0,
            r.refunded_orders == 0,
            r.express_shipments == 0,
            r.high_value_items == 0,
            r.medium_value_items == 0,
            r.low_value_items == 0,
            r.book_orders == 0,
            r.other_orders == 0,
            r.satisfied_customers == 0,
            r.neutral_customers == 0,
            r.unsatisfied_customers == 0,
            r.unrated_customers == 0,
            r.quality_issues == 0,
            r.delivery_issues == 0,
            r.other_issues == 0,
    {
        OrderSummary {
            processing_orders: 0,
            shipped_orders: 0,
            delivered_orders: 0,
            cancelled_orders: 0,
            refunded_orders: 0,
            express_shipments: 0,
            high_value_items: 0,
            medium_value_items: 0,
            low_value_items: 0,
            book_orders: 0,
            other_orders: 0,
            satisfied_customers: 0,
            neutral_customers: 0,
            unsatisfied_customers: 0,
            unrated_customers: 0,
            quality_issues: 0,
            delivery_issues: 0,
            other_issues: 0,
        }
    }

    /// Counts one order in processing.
    pub fn add_processing_order(&mut self)
        requires
            old(self).processing_orders < u64::MAX,
        ensures
            *final(self) == (OrderSummary {
                processing_orders: (old(self).processing_orders + 1) as u64,
                ..*old(self)
            }),
    {
        self.processing_orders = self.processing_orders + 1;
    }

    /// Counts one shipped order.
    pub fn add_shipped_order(&mut self)
        requires
            old(self).shipped_orders < u64::MAX,
        ensures
            *final(self) == (OrderSummary {
                shipped_orders: (old(self).shipped_orders + 1) as u64,
                ..*old(self)
            }),
    {
        self.shipped_orders = self.shipped_orders + 1;
    }

    /// Counts one delivered order.
    pub fn add_delivered_order(&mut self)
        requires
            old(self).delivered_orders < u64::MAX,
        ensures
            *final(self) == (OrderSummary {
                delivered_orders: (old(self).delivered_orders + 1) as u64,
                ..*old(self)
            }),
    {
        self.delivered_orders = self.delivered_orders + 1;
    }

    /// Counts one cancelled order.
    pub fn add_cancelled_order(&mut self)
        requires
            old(self).cancelled_orders < u64::MAX,
        ensures
            *final(self) == (OrderSummary {
                cancelled_orders: (old(self).cancelled_orders + 1) as u64,
                ..*old(self)
            }),
    {
        self.cancelled_orders = self.cancelled_orders + 1;
    }

    /// Counts one refunded order.
    pub fn add_refunded_order(&mut self)
        requires
            old(self).refunded_orders < u64::MAX,
        ensures
            *final(self) == (OrderSummary {
                refunded_orders: (old(self).refunded_orders + 1) as u64,
                ..*old(self)
            }),
    {
        self.refunded_orders = self.refunded_orders + 1;
    }

    /// Counts one express shipment.
    pub fn add_express_shipment(&mut self)
        requires
            old(self).express_shipments < u64::MAX,
        ensures
            *final(self) == (OrderSummary {
                express_shipments: (old(self).express_shipments + 1) as u64,
                ..*old(self)
            }),
    {
        self.express_shipments = self.express_shipments + 1;
    }

    /// Counts one high-value item.
    pub fn add_high_value_item(&mut self)
        requires
            old(self).high_value_items < u64::MAX,
        ensures
            *final(self) == (OrderSummary {
                high_value_items: (old(self).high_value_items + 1) as u64,
                ..*old(self)
            }),
    {
        self.high_value_items = self.high_value_items + 1;
    }

    /// Counts one medium-value item.
    pub fn add_medium_value_item(&mut self)
        requires
            old(self).medium_value_items < u64::MAX,
        ensures
            *final(self) == (OrderSummary {
                medium_value_items: (old(self).medium_value_items + 1) as u64,
                ..*old(self)
            }),
    {
        self.medium_value_items = self.medium_value_items + 1;
    }

    /// Counts one low-value item.
    pub fn add_low_value_item(&mut self)
        requires
            old(self).low_value_items < u64::MAX,
        ensures
            *final(self) == (OrderSummary {
                low_value_items: (old(self).low_value_items + 1) as u64,
                ..*old(self)
            }),
    {
        self.low_value_items = self.low_value_items + 1;
    }

    /// Counts one book order.
    pub fn add_book_order(&mut self)
        requires
            old(self).book_orders < u64::MAX,
        ensures
            *final(self) == (OrderSummary {
                book_orders: (old(self).book_orders + 1) as u64,
                ..*old(self)
            }),
    {
        self.book_orders = self.book_orders + 1;
    }

    /// Counts one order of any other kind.
    pub fn add_other_order(&mut self)
        requires
            old(self).other_orders < u64::MAX,
        ensures
            *final(self) == (OrderSummary {
                other_orders: (old(self).other_orders + 1) as u64,
                ..*old(self)
            }),
    {
        self.other_orders = self.other_orders + 1;
    }

    /// Counts one satisfied customer.
    pub fn add_satisfied_customer(&mut self)
        requires
            old(self).satisfied_customers < u64::MAX,
        ensures
            *final(self) == (OrderSummary {
                satisfied_customers: (old(self).satisfied_customers + 1) as u64,
                ..*old(self)
            }),
    {
        self.satisfied_customers = self.satisfied_customers + 1;
    }

    /// Counts one neutral customer.
    pub fn add_neutral_customer(&mut self)
        requires
            old(self).neutral_customers < u64::MAX,
        ensures
            *final(self) == (OrderSummary {
                neutral_customers: (old(self).neutral_customers + 1) as u64,
                ..*old(self)
            }),
    {
        self.neutral_customers = self.neutral_customers + 1;
    }

    /// Counts one unsatisfied customer.
    pub fn add_unsatisfied_customer(&mut self)
        requires
            old(self).unsatisfied_customers < u64::MAX,
        ensures
            *final(self) == (OrderSummary {
                unsatisfied_customers: (old(self).unsatisfied_customers + 1) as u64,
                ..*old(self)
            }),
    {
        self.unsatisfied_customers = self.unsatisfied_customers + 1;
    }

    /// Counts one customer without a rating.
    pub fn add_unrated_customer(&mut self)
        requires
            old(self).unrated_customers < u64::MAX,
        ensures
            *final(self) == (OrderSummary {
                unrated_customers: (old(self).unrated_customers + 1) as u64,
                ..*old(self)
            }),
    {
        self.unrated_customers = self.unrated_customers + 1;
    }

    /// Counts one refund over product quality.
    pub fn add_quality_issue(&mut self)
        requires
            old(self).quality_issues < u64::MAX,
        ensures
            *final(self) == (OrderSummary {
                quality_issues: (old(self).quality_issues + 1) as u64,
                ..*old(self)
            }),
    {
        self.quality_issues = self.quality_issues + 1;
    }

    /// Counts one refund over delivery problems.
    pub fn add_delivery_issue(&mut self)
        requires
            old(self).delivery_issues < u64::MAX,
        ensures
            *final(self) == (OrderSummary {
                delivery_issues: (old(self).delivery_issues + 1) as u64,
                ..*old(self)
            }),
    {
        self.delivery_issues = self.delivery_issues + 1;
    }

    /// Counts one refund over anything else.
    pub fn add_other_issue(&mut self)
        requires
            old(self).other_issues < u64::MAX,
        ensures
            *final(self) == (OrderSummary {
                other_issues: (old(self).other_issues + 1) as u64,
                ..*old(self)
            }),
    {
        self.other_issues = self.other_issues + 1;
    }
}

/// The role a user of the example service holds.
#[derive(Clone, Copy, Debug, PartialEq, Eq, Structural)]
pub enum UserRole {
    Admin,
    Moderator,
    User,
    Guest,
}

/// One user of the example service.
pub struct User {
    pub id: u64,
    pub name: String,
    pub email: String,
    pub role: UserRole,
    pub metadata: Vec<(String, String)>,
}

/// How the example service processes user records.
pub struct ProcessingOptions {
    pub fallback_parsing: bool,
    pub truncate_long_fields: bool,
    pub strict_validation: bool,
    pub unknown_roles_as_guest: bool,
    pub fix_constraint_violations: bool,
}

/// Why the example service rejected a user record.
pub enum UserError {
    InvalidInput(String),
    ParseError(String),
    InvalidFormat(String),
    UnknownFormat,
    EmptyField(String),
    FieldTooLong(String),
    InvalidCharacters(String),
    TooManyInvalidCharacters,
    UnknownRole(String),
    ConstraintViolation,
}

/// The example user-management service.
pub struct UserService {
    pub users: HashMap<u64, User>,
    pub cache: HashMap<String, String>,
}

impl UserService {
    /// A service with no users and an empty cache.
    pub fn new() -> (r: Self)
        ensures
            r.users@ == Map::<u64, User>::empty(),
            r.cache@ == Map::<String, String>::empty(),
    {
        UserService { users: HashMap::new(), cache: HashMap::new() }
    }
}

} // verus!
