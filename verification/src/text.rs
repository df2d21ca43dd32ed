//! Verified text utilities shared by the command parser and the string
//! transducers: whitespace predicates, trimming, whitespace tokenization,
//! and line splitting.

use vstd::prelude::*;

verus! {

/// The five ASCII whitespace characters (space, tab, line feed, form feed,
/// carriage return), exactly the set that whitespace tokenization splits on.
pub open spec fn is_ascii_ws(c: char) -> bool {
    c == ' ' || c == '\t' || c == '\n' || c == '\r' || c == '\u{000C}'
}

/// Whether a character beyond ASCII has the Unicode `White_Space` property;
/// that part of the character table is left unstated and only named here.
pub uninterp spec fn non_ascii_white_space(c: char) -> bool;

/// Whether `c` has the Unicode `White_Space` property. Within ASCII it
/// holds of exactly the five ASCII whitespace characters and the vertical
/// tab; beyond ASCII it is only named.
pub open spec fn white_space(c: char) -> bool {
    if (c as u32) < 128 {
        is_ascii_ws(c) || c == '\u{000B}'
    } else {
        non_ascii_white_space(c)
    }
}

/// Relies on `char::is_whitespace`: true exactly when `c` has the Unicode
/// `White_Space` property, a function of the character alone.
#[verifier::external_body]
fn is_white_space(c: char) -> (r: bool)
    ensures
        r == white_space(c),
        (c as u32) >= 128 ==> r == non_ascii_white_space(c),
{
    c.is_whitespace()
}

/// Executable form of [`is_ascii_ws`].
pub fn is_ascii_ws_char(c: char) -> (r: bool)
    ensures
        r == is_ascii_ws(c),
{
    c == ' ' || c == '\t' || c == '\n' || c == '\r' || c == '\u{000C}'
}

/// `s` without its leading run of Unicode whitespace.
pub open spec fn trim_start_of(s: Seq<char>) -> Seq<char>
    decreases s.len(),
{
    if s.len() == 0 {
        s
    } else if white_space(s[0]) {
        trim_start_of(s.drop_first())
    } else {
        s
    }
}

/// `s` without its trailing run of Unicode whitespace.
pub open spec fn trim_end_of(s: Seq<char>) -> Seq<char>
    decreases s.len(),
{
    if s.len() == 0 {
        s
    } else if white_space(s.last()) {
        trim_end_of(s.drop_last())
    } else {
        s
    }
}

/// `s` without leading and trailing Unicode whitespace.
pub open spec fn trim_of(s: Seq<char>) -> Seq<char> {
    trim_end_of(trim_start_of(s))
}

/// Strips leading and trailing Unicode whitespace, returning a slice of `s`.
pub fn trim<'a>(s: &'a str) -> (r: &'a str)
    ensures
        r@ == trim_of(s@),
{
    let n = s.unicode_len();
    proof {
        assert(s@.subrange(0, n as int) =~= s@);
    }
    let mut start: usize = 0;
    while start < n && is_white_space(s.get_char(start))
        invariant
            start <= n,
            n == s@.len(),
            trim_start_of(s@) == trim_start_of(s@.subrange(start as int, n as int)),
        decreases n - start,
    {
        proof {
            assert(s@.subrange(start as int, n as int).drop_first() =~= s@.subrange(
                start as int + 1,
                n as int,
            ));
        }
        start = start + 1;
    }
    proof {
        assert(trim_start_of(s@) == s@.subrange(start as int, n as int));
    }
    let mut end: usize = n;
    while end > start && is_white_space(s.get_char(end - 1))
        invariant
            start <= end <= n,
            n == s@.len(),
            trim_start_of(s@) == s@.subrange(start as int, n as int),
            trim_end_of(s@.subrange(start as int, n as int)) == trim_end_of(
                s@.subrange(start as int, end as int),
            ),
        decreases end,
    {
        proof {
            assert(s@.subrange(start as int, end as int).drop_last() =~= s@.subrange(
                start as int,
                end as int - 1,
            ));
        }
        end = end - 1;
    }
    proof {
        assert(trim_of(s@) == s@.subrange(start as int, end as int));
    }
    s.substring_char(start, end)
}

/// The whitespace tokens of `s`, given a partial token `cur` already read:
/// ASCII whitespace ends the current token, every other character extends it,
/// and empty tokens are never produced.
pub open spec fn tokens_acc(s: Seq<char>, cur: Seq<char>) -> Seq<Seq<char>>
    decreases s.len(),
{
    if s.len() == 0 {
        if cur.len() == 0 {
            Seq::empty()
        } else {
            seq![cur]
        }
    } else if is_ascii_ws(s[0]) {
        (if cur.len() == 0 {
            Seq::empty()
        } else {
            seq![cur]
        }) + tokens_acc(s.drop_first(), Seq::empty())
    } else {
        tokens_acc(s.drop_first(), cur.push(s[0]))
    }
}

/// The maximal runs of non-ASCII-whitespace characters of `s`, in order.
pub open spec fn tokens_of(s: Seq<char>) -> Seq<Seq<char>> {
    tokens_acc(s, Seq::empty())
}

/// Splits `s` into its whitespace tokens.
pub fn split_tokens(s: &str) -> (toks: Vec<String>)
    ensures
        toks.deep_view() == tokens_of(s@),
{
    let n = s.unicode_len();
    let mut toks: Vec<String> = Vec::new();
    let mut cur = String::new();
    let mut i: usize = 0;
    proof {
        assert(s@.skip(0) =~= s@);
        assert(toks.deep_view() =~~= Seq::<Seq<char>>::empty());
        assert(Seq::<Seq<char>>::empty() + tokens_acc(s@, Seq::empty()) =~~= tokens_acc(
            s@,
            Seq::empty(),
        ));
    }
    while i < n
        invariant
            i <= n,
            n == s@.len(),
            tokens_of(s@) == toks.deep_view() + tokens_acc(s@.skip(i as int), cur@),
        decreases n - i,
    {
        let c = s.get_char(i);
        proof {
            assert(s@.skip(i as int).drop_first() =~= s@.skip(i as int + 1));
            assert(s@.skip(i as int)[0] == s@[i as int]);
        }
        if is_ascii_ws_char(c) {
            if !cur.as_str().is_empty() {
                let ghost old_dv = toks.deep_view();
                let ghost cv = cur@;
                toks.push(cur);
                cur = String::new();
                proof {
                    assert(tokens_acc(s@.skip(i as int), cv) == seq![cv] + tokens_acc(
                        s@.skip(i as int + 1),
                        Seq::empty(),
                    ));
                    assert(toks.deep_view() =~~= old_dv.push(cv));
                    assert(old_dv + (seq![cv] + tokens_acc(s@.skip(i as int + 1), Seq::empty()))
                        =~~= old_dv.push(cv) + tokens_acc(s@.skip(i as int + 1), Seq::empty()));
                }
            } else {
                proof {
                    assert(cur@ =~= Seq::<char>::empty());
                    assert(Seq::<Seq<char>>::empty() + tokens_acc(s@.skip(i as int + 1), cur@)
                        =~~= tokens_acc(s@.skip(i as int + 1), cur@));
                    assert(tokens_acc(s@.skip(i as int), cur@) == tokens_acc(
                        s@.skip(i as int + 1),
                        cur@,
                    ));
                }
            }
        } else {
            let ghost cv = cur@;
            push_char(&mut cur, c);
            proof {
                assert(tokens_acc(s@.skip(i as int), cv) == tokens_acc(
                    s@.skip(i as int + 1),
                    cv.push(s@[i as int]),
                ));
            }
        }
        i = i + 1;
    }
    proof {
        assert(s@.skip(n as int) =~= Seq::<char>::empty());
    }
    if !cur.as_str().is_empty() {
        let ghost old_dv = toks.deep_view();
        let ghost cv = cur@;
        toks.push(cur);
        proof {
            assert(toks.deep_view() =~~= old_dv.push(cv));
            assert(old_dv + seq![cv] =~~= old_dv.push(cv));
        }
    } else {
        proof {
            assert(toks.deep_view() + Seq::<Seq<char>>::empty() =~~= toks.deep_view());
        }
    }
    toks
}

/// Relies on `String::push`: appends one character at the end.
#[verifier::external_body]
pub(crate) fn push_char(s: &mut String, c: char)
    ensures
        final(s)@ == old(s)@.push(c),
{
    s.push(c);
}

/// `w` without a single trailing carriage return, if it has one.
pub open spec fn strip_cr(w: Seq<char>) -> Seq<char> {
    if w.len() > 0 && w.last() == '\r' {
        w.drop_last()
    } else {
        w
    }
}

/// The lines of `s`, given a partial line `cur` already read: a line feed
/// ends the current line (dropping a carriage return just before it), and a
/// final line needs no terminator.
pub open spec fn lines_acc(s: Seq<char>, cur: Seq<char>) -> Seq<Seq<char>>
    decreases s.len(),
{
    if s.len() == 0 {
        if cur.len() == 0 {
            Seq::empty()
        } else {
            seq![cur]
        }
    } else if s[0] == '\n' {
        seq![strip_cr(cur)] + lines_acc(s.drop_first(), Seq::empty())
    } else {
        lines_acc(s.drop_first(), cur.push(s[0]))
    }
}

/// The lines of `s`, split at line feeds or carriage-return line feeds.
pub open spec fn lines_of(s: Seq<char>) -> Seq<Seq<char>> {
    lines_acc(s, Seq::empty())
}

/// Splits `s` into its lines, each borrowed from `s`.
pub fn split_lines<'a>(s: &'a str) -> (lines: Vec<&'a str>)
    ensures
        lines.deep_view() == lines_of(s@),
{
    let n = s.unicode_len();
    let mut lines: Vec<&'a str> = Vec::new();
    let mut start: usize = 0;
    let mut i: usize = 0;
    proof {
        assert(s@.skip(0) =~= s@);
        assert(s@.subrange(0, 0).len() == 0);
        assert(s@.subrange(0, 0) =~= Seq::<char>::empty());
        assert(lines.deep_view() =~~= Seq::<Seq<char>>::empty());
        assert(Seq::<Seq<char>>::empty() + lines_acc(s@, Seq::empty()) =~~= lines_acc(
            s@,
            Seq::empty(),
        ));
    }
    while i < n
        invariant
            start <= i <= n,
            n == s@.len(),
            lines_of(s@) == lines.deep_view() + lines_acc(
                s@.skip(i as int),
                s@.subrange(start as int, i as int),
            ),
        decreases n - i,
    {
        let c = s.get_char(i);
        proof {
            assert(s@.skip(i as int).drop_first() =~= s@.skip(i as int + 1));
            assert(s@.skip(i as int)[0] == s@[i as int]);
        }
        if c == '\n' {
            let line_end = if i > start && s.get_char(i - 1) == '\r' {
                i - 1
            } else {
                i
            };
            let line = s.substring_char(start, line_end);
            let ghost old_dv = lines.deep_view();
            lines.push(line);
            proof {
                let curv = s@.subrange(start as int, i as int);
                if line_end < i {
                    assert(curv.last() == s@[i as int - 1]);
                    assert(curv.drop_last() =~= s@.subrange(start as int, i as int - 1));
                } else {
                    if i > start {
                        assert(curv.last() == s@[i as int - 1]);
                    }
                }
                assert(strip_cr(curv) =~= s@.subrange(start as int, line_end as int));
                assert(lines_acc(s@.skip(i as int), curv) == seq![strip_cr(curv)] + lines_acc(
                    s@.skip(i as int + 1),
                    Seq::empty(),
                ));
                assert(lines.deep_view() =~~= old_dv.push(line@));
                assert(old_dv + (seq![line@] + lines_acc(s@.skip(i as int + 1), Seq::empty()))
                    =~~= old_dv.push(line@) + lines_acc(s@.skip(i as int + 1), Seq::empty()));
                assert(s@.subrange(i as int + 1, i as int + 1) =~= Seq::<char>::empty());
            }
            start = i + 1;
        } else {
            proof {
                let curv = s@.subrange(start as int, i as int);
                assert(curv.push(s@[i as int]) =~= s@.subrange(start as int, i as int + 1));
                assert(lines_acc(s@.skip(i as int), curv) == lines_acc(
                    s@.skip(i as int + 1),
                    curv.push(s@[i as int]),
                ));
            }
        }
        i = i + 1;
    }
    proof {
        assert(s@.skip(n as int) =~= Seq::<char>::empty());
    }
    if start < n {
        let line = s.substring_char(start, n);
        let ghost old_dv = lines.deep_view();
        lines.push(line);
        proof {
            assert(lines.deep_view() =~~= old_dv.push(line@));
            assert(old_dv + seq![line@] =~~= old_dv.push(line@));
        }
    } else {
        proof {
            assert(s@.subrange(start as int, n as int).len() == 0);
            assert(lines.deep_view() + Seq::<Seq<char>>::empty() =~~= lines.deep_view());
        }
    }
    lines
}

} // verus!
