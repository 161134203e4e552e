use vstd::prelude::*;

verus! {

#[derive(Clone, Copy, Debug, PartialEq, Eq, Structural)]
pub struct Rectangle {
    pub width: u32,
    pub height: u32,
}

impl Rectangle {
    pub fn area(&self) -> (r: u32)
        requires
            self.width * self.height <= u32::MAX,
        ensures
            r == self.width * self.height,
    {
        self.width * self.height
    }

    /// Whether `other` fits strictly inside this rectangle.
    pub fn can_hold(&self, other: &Rectangle) -> (r: bool)
        ensures
            r == (self.width > other.width && self.height > other.height),
    {
        self.width > other.width && self.height > other.height
    }
}

pub struct User {
    pub active: bool,
    pub username: String,
    pub email: String,
    pub sign_in_count: u64,
}

/// A new, active user who has signed in once.
pub fn build_user(email: String, username: String) -> (u: User)
    ensures
        u.active,
        u.email == email,
        u.username == username,
        u.sign_in_count == 1,
{
    User { active: true, email, username, sign_in_count: 1 }
}

/// Adds two numbers.
pub fn add(a: i32, b: i32) -> (r: i32)
    requires
        i32::MIN <= a + b <= i32::MAX,
    ensures
        r == a + b,
{
    a + b
}

/// A guess between 1 and 100.
pub struct Guess {
    value: i32,
}

impl Guess {
    pub closed spec fn view_value(&self) -> i32 {
        self.value
    }

    pub fn new(value: i32) -> (g: Guess)
        requires
            1 <= value <= 100,
        ensures
            g.view_value() == value,
    {
        Guess { value }
    }

    pub fn value(&self) -> (r: i32)
        ensures
            r == self.view_value(),
    {
        self.value
    }
}

} // verus!
