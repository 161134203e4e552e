use vstd::prelude::*;

verus! {

/// Puts a party on the waiting list; the list itself is not modelled.
pub fn add_to_waitlist() {
}

/// A breakfast order: the toast is chosen, the fruit comes with the season.
pub struct Breakfast {
    pub toast: String,
    seasonal_fruit: String,
}

pub enum Appetizer {
    Soup,
    Salad,
}

impl Breakfast {
    /// The fruit that comes with the order.
    pub closed spec fn fruit(&self) -> Seq<char> {
        self.seasonal_fruit@
    }

    /// The toast that was chosen.
    pub closed spec fn toast_view(&self) -> Seq<char> {
        self.toast@
    }

    /// A summer breakfast with the given toast, served with peaches.
    pub fn summer(toast: &str) -> (b: Breakfast)
        ensures
            b.toast_view() == toast@,
            b.fruit() == "peaches"@,
    {
        Breakfast { toast: toast.to_owned(), seasonal_fruit: "peaches".to_owned() }
    }

    pub fn seasonal_fruit(&self) -> (r: &str)
        ensures
            r@ == self.fruit(),
    {
        self.seasonal_fruit.as_str()
    }
}

} // verus!
