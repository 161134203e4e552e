use vstd::prelude::*;
use vstd::string::StringSliceAdditionalSpecFns;

verus! {

/// The largest number of a non-empty list.
pub fn largest(list: &[i32]) -> (r: i32)
    requires
        list@.len() > 0,
    ensures
        list@.contains(r),
        forall|i: int| 0 <= i < list@.len() ==> list@[i] <= r,
{
    let mut best_at: usize = 0;
    let mut i: usize = 1;
    while i < list.len()
        invariant
            1 <= i <= list@.len(),
            best_at < i,
            forall|j: int| 0 <= j < i ==> list@[j] <= list@[best_at as int],
        decreases list@.len() - i,
    {
        if list[i] > list[best_at] {
            best_at = i;
        }
        i = i + 1;
    }
    assert(list@[best_at as int] == list@[best_at as int]);
    list[best_at]
}

pub struct Point<T> {
    pub x: T,
    pub y: T,
}

impl<T> Point<T> {
    pub fn x(&self) -> (r: &T)
        ensures
            *r == self.x,
    {
        &self.x
    }
}

pub struct Pair<T> {
    pub x: T,
    pub y: T,
}

impl<T> Pair<T> {
    pub fn new(x: T, y: T) -> (p: Self)
        ensures
            p.x == x,
            p.y == y,
    {
        Pair { x, y }
    }
}

/// The longer of two strings by length in bytes; `y` when they are as long.
pub fn longest<'a>(x: &'a str, y: &'a str) -> (r: &'a str)
    ensures
        r == if x.spec_bytes().len() as usize > y.spec_bytes().len() as usize {
            x
        } else {
            y
        },
{
    if x.len() > y.len() {
        x
    } else {
        y
    }
}

pub struct ImportantExcerpt<'a> {
    pub part: &'a str,
}

impl<'a> ImportantExcerpt<'a> {
    pub fn level(&self) -> (r: i32)
        ensures
            r == 3,
    {
        3
    }
}

} // verus!
