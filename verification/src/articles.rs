//! Small content types: articles, tweets, pairs, excerpts, and two string
//! helpers.

use vstd::prelude::*;
use vstd::std_specs::cmp::PartialOrdSpec;

verus! {

/// A short human-readable account of a value.
pub trait Summary {
    /// The text that [`Summary::summarize`] returns.
    spec fn spec_summary(&self) -> Seq<char>;

    fn summarize(&self) -> (r: String)
        ensures
            r@ == self.spec_summary(),
    ;
}

/// A news article.
pub struct NewsArticle {
    pub headline: String,
    pub location: String,
    pub author: String,
    pub content: String,
}

impl Summary for NewsArticle {
    open spec fn spec_summary(&self) -> Seq<char> {
        self.headline@ + ", by "@ + self.author@ + " ("@ + self.location@ + ")"@
    }

    fn summarize(&self) -> (r: String) {
        let mut r = self.headline.clone();
        r.append(", by ");
        r.append(self.author.as_str());
        r.append(" (");
        r.append(self.location.as_str());
        r.append(")");
        r
    }
}

impl NewsArticle {
    /// An article with the given fields.
    pub fn new(headline: &str, location: &str, author: &str, content: &str) -> (r: Self)
        ensures
            r.headline@ == headline@,
            r.location@ == location@,
            r.author@ == author@,
            r.content@ == content@,
    {
        Self {
            headline: String::from_str(headline),
            location: String::from_str(location),
            author: String::from_str(author),
            content: String::from_str(content),
        }
    }
}

/// A tweet.
pub struct Tweet {
    pub username: String,
    pub content: String,
    pub reply: bool,
    pub retweet: bool,
}

impl Summary for Tweet {
    open spec fn spec_summary(&self) -> Seq<char> {
        self.username@ + ": "@ + self.content@
    }

    fn summarize(&self) -> (r: String) {
        let mut r = self.username.clone();
        r.append(": ");
        r.append(self.content.as_str());
        r
    }
}

impl Tweet {
    /// A tweet with the given fields.
    pub fn new(username: &str, content: &str, reply: bool, retweet: bool) -> (r: Self)
        ensures
            r.username@ == username@,
            r.content@ == content@,
            r.reply == reply,
            r.retweet == retweet,
    {
        Self { username: String::from_str(username), content: String::from_str(content), reply, retweet }
    }
}

/// Two values of one type.
pub struct Pair<T> {
    x: T,
    y: T,
}

impl<T> Pair<T> {
    /// The first component.
    pub closed spec fn spec_x(&self) -> T {
        self.x
    }

    /// The second component.
    pub closed spec fn spec_y(&self) -> T {
        self.y
    }

    /// The pair of `x` and `y`.
    pub fn new(x: T, y: T) -> (r: Self)
        ensures
            r.spec_x() == x,
            r.spec_y() == y,
    {
        Self { x, y }
    }
}

/// A part of a longer text.
pub struct ImportantExcerpt<'a> {
    pub part: &'a str,
}

/// Hands its argument back unchanged; a bound-syntax demonstration.
pub fn some_function<T, U>(x: T) -> (r: T) where T: core::fmt::Display + Clone, U: Clone + core::fmt::Debug
    ensures
        r == x,
{
    x
}

/// Always one; a bound-syntax demonstration.
pub fn some_function1<T: core::fmt::Display + Clone>(x: T) -> (r: i32)
    ensures
        r == 1,
{
    1
}

/// Strictly-greater is transitive across the elements of `s`.
pub open spec fn gt_transitive<T: PartialOrd>(s: Seq<T>) -> bool {
    forall|a: int, b: int, c: int|
        0 <= a < s.len() && 0 <= b < s.len() && 0 <= c < s.len()
            && s[a].partial_cmp_spec(&s[b]) == Some(core::cmp::Ordering::Greater)
            && s[b].partial_cmp_spec(&s[c]) == Some(core::cmp::Ordering::Greater) ==> s[a].partial_cmp_spec(
            &s[c],
        ) == Some(core::cmp::Ordering::Greater)
}

/// Strictly-greater never relates an element of `s` to itself.
pub open spec fn gt_irreflexive<T: PartialOrd>(s: Seq<T>) -> bool {
    forall|a: int|
        0 <= a < s.len() ==> (#[trigger] s[a]).partial_cmp_spec(&s[a]) != Some(
            core::cmp::Ordering::Greater,
        )
}

/// Some element of the non-empty slice; when the type's comparison follows
/// its specification and behaves as an order on these elements, no element
/// is strictly greater than it.
pub fn largest_item<T: PartialOrd>(list: &[T]) -> (r: &T)
    requires
        list@.len() > 0,
    ensures
        exists|i: int| 0 <= i < list@.len() && *r == list@[i],
        T::obeys_partial_cmp_spec() && gt_transitive(list@) && gt_irreflexive(list@)
            ==> forall|j: int|
            0 <= j < list@.len() ==> (#[trigger] list@[j]).partial_cmp_spec(r) != Some(
                core::cmp::Ordering::Greater,
            ),
{
    let mut best: usize = 0;
    let mut idx: usize = 1;
    while idx < list.len()
        invariant
            best < idx,
            idx <= list@.len(),
            list@.len() > 0,
            T::obeys_partial_cmp_spec() && gt_transitive(list@) && gt_irreflexive(list@)
                ==> forall|j: int|
                0 <= j < idx ==> (#[trigger] list@[j]).partial_cmp_spec(&list@[best as int])
                    != Some(core::cmp::Ordering::Greater),
        decreases list@.len() - idx,
    {
        let is_gt = list[idx].gt(&list[best]);
        let ghost prev = best as int;
        if is_gt {
            best = idx;
        }
        proof {
            if T::obeys_partial_cmp_spec() && gt_transitive(list@) && gt_irreflexive(list@) {
                assert forall|j: int| 0 <= j < idx + 1 implies (#[trigger] list@[j]).partial_cmp_spec(
                    &list@[best as int],
                ) != Some(core::cmp::Ordering::Greater) by {
                    if is_gt {
                        if j < idx && list@[j].partial_cmp_spec(&list@[idx as int]) == Some(
                            core::cmp::Ordering::Greater,
                        ) {
                            assert(list@[idx as int].partial_cmp_spec(&list@[prev]) == Some(
                                core::cmp::Ordering::Greater,
                            ));
                            assert(list@[j].partial_cmp_spec(&list@[prev]) != Some(
                                core::cmp::Ordering::Greater,
                            ));
                            assert(false);
                        }
                    }
                }
            }
        }
        idx = idx + 1;
    }
    &list[best]
}

/// The longer of two strings by byte length, the second on a tie.
pub fn longest<'a>(x: &'a str, y: &'a str) -> (r: &'a str)
    ensures
        r@ == if x.len() > y.len() {
            x@
        } else {
            y@
        },
{
    if x.len() > y.len() {
        x
    } else {
        y
    }
}

} // verus!
