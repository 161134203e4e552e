use vstd::prelude::*;
use vstd::string::StringExecFns;

verus! {

/// Something with a one-line summary.
pub trait Summary {
    spec fn summary(&self) -> Seq<char>;

    fn summarize(&self) -> (r: String)
        ensures
            r@ == self.summary(),
    ;
}

pub struct NewsArticle {
    pub headline: String,
    pub location: String,
    pub author: String,
    pub content: String,
}

pub struct SocialPost {
    pub username: String,
    pub content: String,
    pub reply: bool,
    pub repost: bool,
}

impl Summary for NewsArticle {
    /// `<headline>, by <author> (<location>)`.
    open spec fn summary(&self) -> Seq<char> {
        self.headline@ + ", by "@ + self.author@ + " ("@ + self.location@ + ")"@
    }

    fn summarize(&self) -> (r: String) {
        let mut s = String::from_str(self.headline.as_str());
        s.append(", by ");
        s.append(self.author.as_str());
        s.append(" (");
        s.append(self.location.as_str());
        s.append(")");
        s
    }
}

impl Summary for SocialPost {
    /// `<username>: <content>`.
    open spec fn summary(&self) -> Seq<char> {
        self.username@ + ": "@ + self.content@
    }

    fn summarize(&self) -> (r: String) {
        let mut s = String::from_str(self.username.as_str());
        s.append(": ");
        s.append(self.content.as_str());
        s
    }
}

} // verus!
