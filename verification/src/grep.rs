//! Line search: the lines of a text that contain a query, case-sensitively
//! or case-insensitively.

use vstd::prelude::*;

use crate::text::lines_of;
use crate::text::split_lines;

verus! {

/// `needle` occurs as a contiguous run inside `hay`.
pub open spec fn spec_contains(hay: Seq<char>, needle: Seq<char>) -> bool {
    exists|i: int|
        0 <= i <= hay.len() - needle.len() && #[trigger] hay.subrange(i, i + needle.len())
            == needle
}

/// Relies on `str::contains`: true exactly when the needle matches a
/// sub-slice of the haystack.
#[verifier::external_body]
fn str_contains(hay: &str, needle: &str) -> (r: bool)
    ensures
        r == spec_contains(hay@, needle@),
{
    hay.contains(needle)
}

/// The lowercase form of a string, depending on its characters alone; the
/// full case-folding table is left unstated and only named here.
pub uninterp spec fn lowered(s: Seq<char>) -> Seq<char>;

/// Relies on `str::to_lowercase`: the result is the lowercase mapping of
/// the input, a function of the characters alone.
#[verifier::external_body]
fn to_lowercase(s: &str) -> (r: String)
    ensures
        r@ == lowered(s@),
{
    s.to_lowercase()
}

/// Filtering past one more element keeps it exactly when it satisfies the
/// predicate.
proof fn lemma_filter_push(s: Seq<Seq<char>>, pred: spec_fn(Seq<char>) -> bool, x: Seq<char>)
    ensures
        s.push(x).filter(pred) == (if pred(x) {
            s.filter(pred).push(x)
        } else {
            s.filter(pred)
        }),
{
    reveal(Seq::filter);
    assert(s.push(x).drop_last() =~~= s);
    assert(s.push(x).last() == x);
}

/// The lines of `contents` that contain `query`, in order.
pub fn search<'a>(query: &str, contents: &'a str) -> (r: Vec<&'a str>)
    ensures
        r.deep_view() == lines_of(contents@).filter(
            |l: Seq<char>| spec_contains(l, query@),
        ),
{
    let lines = split_lines(contents);
    let ghost lv = lines.deep_view();
    let ghost pred = |l: Seq<char>| spec_contains(l, query@);
    let mut r: Vec<&'a str> = Vec::new();
    let mut i: usize = 0;
    proof {
        assert(lv.take(0) =~~= Seq::<Seq<char>>::empty());
        reveal(Seq::filter);
        assert(r.deep_view() =~~= lv.take(0).filter(pred));
    }
    while i < lines.len()
        invariant
            i <= lines@.len(),
            lv == lines.deep_view(),
            r.deep_view() == lv.take(i as int).filter(pred),
            pred == (|l: Seq<char>| spec_contains(l, query@)),
        decreases lines@.len() - i,
    {
        let line = lines[i];
        proof {
            assert(line@ == lv[i as int]);
            assert(lv.take(i as int + 1) =~~= lv.take(i as int).push(lv[i as int]));
            lemma_filter_push(lv.take(i as int), pred, lv[i as int]);
        }
        if str_contains(line, query) {
            let ghost old_dv = r.deep_view();
            r.push(line);
            proof {
                assert(r.deep_view() =~~= old_dv.push(line@));
            }
        }
        i = i + 1;
    }
    proof {
        assert(lv.take(lines@.len() as int) =~~= lv);
    }
    r
}

/// The lines of `contents` that contain `query` ignoring case, in order.
pub fn search_case_insensitive<'a>(query: &str, contents: &'a str) -> (r: Vec<&'a str>)
    ensures
        r.deep_view() == lines_of(contents@).filter(
            |l: Seq<char>| spec_contains(lowered(l), lowered(query@)),
        ),
{
    let q = to_lowercase(query);
    let lines = split_lines(contents);
    let ghost lv = lines.deep_view();
    let ghost pred = |l: Seq<char>| spec_contains(lowered(l), lowered(query@));
    let mut r: Vec<&'a str> = Vec::new();
    let mut i: usize = 0;
    proof {
        assert(lv.take(0) =~~= Seq::<Seq<char>>::empty());
        reveal(Seq::filter);
        assert(r.deep_view() =~~= lv.take(0).filter(pred));
    }
    while i < lines.len()
        invariant
            i <= lines@.len(),
            lv == lines.deep_view(),
            q@ == lowered(query@),
            r.deep_view() == lv.take(i as int).filter(pred),
            pred == (|l: Seq<char>| spec_contains(lowered(l), lowered(query@))),
        decreases lines@.len() - i,
    {
        let line = lines[i];
        proof {
            assert(line@ == lv[i as int]);
            assert(lv.take(i as int + 1) =~~= lv.take(i as int).push(lv[i as int]));
            lemma_filter_push(lv.take(i as int), pred, lv[i as int]);
        }
        let lo = to_lowercase(line);
        if str_contains(lo.as_str(), q.as_str()) {
            let ghost old_dv = r.deep_view();
            r.push(line);
            proof {
                assert(r.deep_view() =~~= old_dv.push(line@));
            }
        }
        i = i + 1;
    }
    proof {
        assert(lv.take(lines@.len() as int) =~~= lv);
    }
    r
}

/// The search configuration: a query, a file name, and the case mode.
pub struct Config {
    pub query: String,
    pub filename: String,
    pub case_insensitive: bool,
}

impl Config {
    /// Builds a configuration from an argument list and the case mode; the
    /// list must name a query and a file.
    pub fn new(args: &Vec<String>, case_insensitive: bool) -> (r: Result<Config, &'static str>)
        ensures
            args@.len() < 3 ==> (r matches Err(e) && e@ == "Not enough arguments"@),
            args@.len() >= 3 ==> (r matches Ok(c) && c.query@ == args@[1]@ && c.filename@
                == args@[2]@ && c.case_insensitive == case_insensitive),
    {
        if args.len() < 3 {
            return Err("Not enough arguments");
        }
        Ok(
            Config {
                query: args[1].clone(),
                filename: args[2].clone(),
                case_insensitive,
            },
        )
    }
}

} // verus!
