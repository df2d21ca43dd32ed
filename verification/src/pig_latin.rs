//! The pig-latin transducer: each word of the input is rewritten and the
//! words are joined with single spaces.

use vstd::prelude::*;

use crate::text::push_char;
use crate::text::split_tokens;
use crate::text::tokens_of;
use crate::text::trim;
use crate::text::trim_of;

verus! {

/// The five lowercase vowels.
pub open spec fn is_vowel(c: char) -> bool {
    c == 'a' || c == 'e' || c == 'i' || c == 'o' || c == 'u'
}

/// One word in pig latin: a word starting with a vowel gains `-hay`; any
/// other word loses its first character, which returns before a final `ay`.
pub open spec fn pig_word(w: Seq<char>) -> Seq<char> {
    if w.len() == 0 {
        w
    } else if is_vowel(w[0]) {
        w + "-hay"@
    } else {
        w.subrange(1, w.len() as int) + "-"@ + seq![w[0]] + "ay"@
    }
}

/// Words joined by single spaces.
pub open spec fn pig_join(ws: Seq<Seq<char>>) -> Seq<char>
    decreases ws.len(),
{
    if ws.len() == 0 {
        Seq::empty()
    } else if ws.len() == 1 {
        ws[0]
    } else {
        ws[0] + " "@ + pig_join(ws.drop_first())
    }
}

/// Joining one more word appends a space and the word, except to nothing.
proof fn lemma_pig_join_push(ws: Seq<Seq<char>>, w: Seq<char>)
    ensures
        pig_join(ws.push(w)) == if ws.len() == 0 {
            w
        } else {
            pig_join(ws) + " "@ + w
        },
    decreases ws.len(),
{
    let t = ws.push(w);
    if ws.len() == 0 {
        assert(t[0] == w);
    } else if ws.len() == 1 {
        assert(t[0] == ws[0]);
        assert(t.drop_first() =~~= seq![w]);
        assert(pig_join(seq![w]) == w);
    } else {
        assert(t[0] == ws[0]);
        assert(t.drop_first() =~~= ws.drop_first().push(w));
        lemma_pig_join_push(ws.drop_first(), w);
        assert(ws[0] + " "@ + (pig_join(ws.drop_first()) + " "@ + w) =~~= (ws[0] + " "@
            + pig_join(ws.drop_first())) + " "@ + w);
    }
}

/// Rewrites each whitespace-separated word of `s` into pig latin and joins
/// the words with single spaces.
pub fn pig_latin(s: &str) -> (r: String)
    ensures
        r@ == pig_join(tokens_of(trim_of(s@)).map_values(|w: Seq<char>| pig_word(w))),
{
    let toks = split_tokens(trim(s));
    let ghost mapped = tokens_of(trim_of(s@)).map_values(|w: Seq<char>| pig_word(w));
    let mut r = String::new();
    let mut i: usize = 0;
    proof {
        assert(mapped.take(0) =~~= Seq::<Seq<char>>::empty());
        assert(r@ == pig_join(mapped.take(0)));
    }
    while i < toks.len()
        invariant
            i <= toks@.len(),
            toks.deep_view() == tokens_of(trim_of(s@)),
            mapped == tokens_of(trim_of(s@)).map_values(|w: Seq<char>| pig_word(w)),
            mapped.len() == toks@.len(),
            r@ == pig_join(mapped.take(i as int)),
        decreases toks@.len() - i,
    {
        let ghost prev = r@;
        let ghost sep: Seq<char> = if i > 0 {
            " "@
        } else {
            Seq::empty()
        };
        if i > 0 {
            r.append(" ");
        }
        let ghost wv = toks.deep_view()[i as int];
        proof {
            assert(wv == toks@[i as int]@);
            assert(mapped[i as int] == pig_word(wv));
        }
        let wn = toks[i].as_str().unicode_len();
        if wn > 0 {
            let c = toks[i].as_str().get_char(0);
            proof {
                assert(c == wv[0]);
            }
            if c == 'a' || c == 'e' || c == 'i' || c == 'o' || c == 'u' {
                r.append(toks[i].as_str());
                r.append("-hay");
                proof {
                    assert(r@ =~~= prev + sep + pig_word(wv));
                }
            } else {
                let rest = toks[i].as_str().substring_char(1, wn);
                r.append(rest);
                r.append("-");
                push_char(&mut r, c);
                r.append("ay");
                proof {
                    assert(r@ =~~= prev + sep + pig_word(wv));
                }
            }
        } else {
            proof {
                assert(pig_word(wv).len() == 0);
                assert(r@ =~~= prev + sep + pig_word(wv));
            }
        }
        proof {
            lemma_pig_join_push(mapped.take(i as int), mapped[i as int]);
            assert(mapped.take(i as int + 1) =~~= mapped.take(i as int).push(mapped[i as int]));
            if i == 0 {
                assert(prev + sep + pig_word(wv) =~~= pig_word(wv));
            }
            assert(r@ == pig_join(mapped.take(i as int + 1)));
        }
        i = i + 1;
    }
    proof {
        assert(mapped.take(mapped.len() as int) =~~= mapped);
    }
    r
}

} // verus!
