use vstd::prelude::*;
use vstd::string::StringExecFns;

use crate::text::{decimal, push_decimal};

verus! {

/// Something a screen can draw: `draw` returns the text that shows it.
pub trait Draw {
    spec fn picture(&self) -> Seq<char>;

    fn draw(&self) -> (r: String)
        ensures
            r@ == self.picture(),
    ;
}

/// A screen of components of one kind, drawn in order.
pub struct Screen<T: Draw> {
    pub components: Vec<T>,
}

pub struct Button {
    pub width: u32,
    pub height: u32,
    pub label: String,
}

impl<T: Draw> Screen<T> {
    /// Draws every component, in order.
    pub fn run(&self) -> (r: Vec<String>)
        ensures
            r@.len() == self.components@.len(),
            forall|i: int| 0 <= i < r@.len() ==> (#[trigger] r@[i])@ == self.components@[i].picture(),
    {
        let mut out: Vec<String> = Vec::new();
        let mut i: usize = 0;
        while i < self.components.len()
            invariant
                i <= self.components@.len(),
                out@.len() == i,
                forall|j: int| 0 <= j < i ==> (#[trigger] out@[j])@ == self.components@[j].picture(),
            decreases self.components@.len() - i,
        {
            out.push(self.components[i].draw());
            i = i + 1;
        }
        out
    }
}

impl Draw for Button {
    /// `Drawing a button: <label> (<width>x<height>)`.
    open spec fn picture(&self) -> Seq<char> {
        "Drawing a button: "@ + self.label@ + " ("@ + decimal(self.width as nat) + "x"@ + decimal(
            self.height as nat,
        ) + ")"@
    }

    fn draw(&self) -> (r: String) {
        let mut s = String::from_str("Drawing a button: ");
        s.append(self.label.as_str());
        s.append(" (");
        push_decimal(&mut s, self.width);
        s.append("x");
        push_decimal(&mut s, self.height);
        s.append(")");
        assert(s@ =~= self.picture());
        s
    }
}

} // verus!
