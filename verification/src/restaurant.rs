//! A breakfast menu: customers pick their toast, the kitchen picks the
//! fruit.

use vstd::prelude::*;

verus! {

/// A breakfast order; the fruit is chosen by the kitchen and cannot be
/// changed from outside.
#[derive(Debug)]
pub struct Breakfast {
    pub toast: String,
    seasonal_fruit: String,
}

impl Breakfast {
    /// The fruit that came with the order.
    pub closed spec fn spec_fruit(&self) -> Seq<char> {
        self.seasonal_fruit@
    }

    /// The chosen toast.
    pub closed spec fn spec_toast(&self) -> Seq<char> {
        self.toast@
    }

    /// The summer breakfast: the customer's toast with peaches.
    pub fn summer(toast: &str) -> (r: Breakfast)
        ensures
            r.spec_toast() == toast@,
            r.spec_fruit() == "peaches"@,
    {
        Breakfast {
            toast: String::from_str(toast),
            seasonal_fruit: String::from_str("peaches"),
        }
    }
}

/// A starter.
#[derive(Debug)]
pub enum Appetizer {
    Soup,
    Salad,
}

} // verus!
