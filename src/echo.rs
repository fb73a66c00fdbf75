//! The text that echo prints.

use vstd::prelude::*;
use vstd::string::StringExecFns;
use crate::text::views;

verus! {

/// `tokens` joined by single spaces.
pub open spec fn joined(tokens: Seq<Seq<char>>) -> Seq<char>
    decreases tokens.len(),
{
    if tokens.len() == 0 {
        Seq::empty()
    } else if tokens.len() == 1 {
        tokens[0]
    } else {
        joined(tokens.drop_last()) + seq![' '] + tokens.last()
    }
}

/// What echo prints for `tokens`: the tokens joined by single spaces,
/// followed by a newline unless `omit_newline`.
pub open spec fn echo_text(tokens: Seq<Seq<char>>, omit_newline: bool) -> Seq<char> {
    if omit_newline {
        joined(tokens)
    } else {
        joined(tokens).push('\n')
    }
}

/// The text to print for `tokens`.
pub fn echo(tokens: &Vec<String>, omit_newline: bool) -> (r: String)
    ensures
        r@ == echo_text(views(tokens@), omit_newline),
{
    let mut r = String::new();
    let mut i: usize = 0;
    while i < tokens.len()
        invariant
            i <= tokens@.len(),
            r@ == joined(views(tokens@.subrange(0, i as int))),
        decreases tokens.len() - i,
    {
        let ghost before = views(tokens@.subrange(0, i as int));
        let ghost after = views(tokens@.subrange(0, i + 1));
        assert(after.drop_last() =~= before);
        if i > 0 {
            proof {
                reveal_strlit(" ");
            }
            r.append(" ");
        }
        r.append(tokens[i].as_str());
        assert(r@ =~= joined(after));
        i = i + 1;
    }
    assert(tokens@.subrange(0, i as int) =~= tokens@);
    if !omit_newline {
        proof {
            reveal_strlit("\n");
        }
        r.append("\n");
    }
    assert(r@ =~= echo_text(views(tokens@), omit_newline));
    r
}

/// Suppressing the newline drops exactly the final newline and nothing else.
pub proof fn lemma_echo_suppress_newline(tokens: Seq<Seq<char>>)
    ensures
        echo_text(tokens, false) == echo_text(tokens, true).push('\n'),
        echo_text(tokens, true) == echo_text(tokens, false).drop_last(),
{
    assert(echo_text(tokens, false).drop_last() =~= echo_text(tokens, true));
}

} // verus!
