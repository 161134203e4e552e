use vstd::prelude::*;

verus! {

#[derive(Clone, Copy, Debug, PartialEq, Eq, Structural)]
pub enum ShirtColor {
    Red,
    Blue,
}

pub struct Inventory {
    pub shirts: Vec<ShirtColor>,
}

/// How many of the first `k` shirts have colour `c`.
pub open spec fn count(s: Seq<ShirtColor>, c: ShirtColor, k: int) -> int
    decreases k,
{
    if k <= 0 {
        0
    } else {
        count(s, c, k - 1) + if s[k - 1] == c {
            1int
        } else {
            0
        }
    }
}

impl Inventory {
    /// Red when more red shirts than blue ones are in stock, else blue.
    pub open spec fn most_stocked_spec(&self) -> ShirtColor {
        let s = self.shirts@;
        if count(s, ShirtColor::Red, s.len() as int) > count(s, ShirtColor::Blue, s.len() as int) {
            ShirtColor::Red
        } else {
            ShirtColor::Blue
        }
    }

    /// The preferred colour, or the most stocked one without a preference.
    pub fn giveaway(&self, user_preference: Option<ShirtColor>) -> (r: ShirtColor)
        ensures
            r == match user_preference {
                Some(c) => c,
                None => self.most_stocked_spec(),
            },
    {
        match user_preference {
            Some(c) => c,
            None => self.most_stocked(),
        }
    }

    pub fn most_stocked(&self) -> (r: ShirtColor)
        ensures
            r == self.most_stocked_spec(),
    {
        let mut num_red: usize = 0;
        let mut num_blue: usize = 0;
        let mut i: usize = 0;
        while i < self.shirts.len()
            invariant
                i <= self.shirts@.len(),
                num_red == count(self.shirts@, ShirtColor::Red, i as int),
                num_blue == count(self.shirts@, ShirtColor::Blue, i as int),
                num_red + num_blue == i,
            decreases self.shirts@.len() - i,
        {
            match self.shirts[i] {
                ShirtColor::Red => num_red += 1,
                ShirtColor::Blue => num_blue += 1,
            }
            i = i + 1;
        }
        if num_red > num_blue {
            ShirtColor::Red
        } else {
            ShirtColor::Blue
        }
    }
}

} // verus!
