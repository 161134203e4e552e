use vstd::prelude::*;
use vstd::string::StringExecFns;

verus! {

/// A fresh `"hello"`.
pub fn gives_ownership() -> (s: String)
    ensures
        s@ == "hello"@,
{
    String::from_str("hello")
}

/// The length of `s` in bytes.
pub fn calculate_length(s: &String) -> (n: usize)
    ensures
        n == vstd::utf8::encode_utf8(s@).len() as usize,
{
    s.as_str().len()
}

/// Appends `" [changed]"`.
pub fn change(s: &mut String)
    ensures
        final(s)@ == old(s)@ + " [changed]"@,
{
    s.append(" [changed]");
}

/// Index of the first space in `s`, or its length.
pub open spec fn word_end(s: Seq<char>, i: int) -> int
    decreases s.len() - i,
{
    if i >= s.len() {
        s.len() as int
    } else if s[i] == ' ' {
        i
    } else {
        word_end(s, i + 1)
    }
}

/// The text of `s` before its first space, or all of `s`.
pub fn first_word(s: &str) -> (r: &str)
    ensures
        r@ == s@.subrange(0, word_end(s@, 0)),
{
    let n = s.unicode_len();
    let mut i: usize = 0;
    while i < n
        invariant
            n == s@.len(),
            i <= n,
            word_end(s@, 0) == word_end(s@, i as int),
        decreases n - i,
    {
        if s.get_char(i) == ' ' {
            return s.substring_char(0, i);
        }
        i = i + 1;
    }
    s.substring_char(0, n)
}

} // verus!
