//! Matrix tokens. A token for the variable `VAR` is written
//! `${{VAR}}`, with any amount of whitespace allowed on either side of the
//! name inside the braces. Expanding a text replaces every token, read
//! from left to right, by the value, which is copied as it is.

use crate::text::{has_at, is_space, is_whitespace, matches_at};
use vstd::prelude::*;
use vstd::string::StringExecFns;

verus! {

/// The opening of a token.
pub open spec fn opening() -> Seq<char> {
    seq!['$', '{', '{']
}

/// The closing of a token.
pub open spec fn closing() -> Seq<char> {
    seq!['}', '}']
}

/// The first index at or after `i` that does not hold whitespace.
pub open spec fn space_run(text: Seq<char>, i: int) -> int
    decreases text.len() - i,
{
    if 0 <= i < text.len() && is_whitespace(text[i]) {
        space_run(text, i + 1)
    } else {
        i
    }
}

/// Where a token ends whose name starts at `p`: the name, then
/// whitespace, then the closing.
pub open spec fn end_from(text: Seq<char>, var: Seq<char>, p: int) -> Option<int> {
    if has_at(text, p, var) {
        let q = space_run(text, p + var.len());
        if has_at(text, q, closing()) {
            Some(q + 2)
        } else {
            None
        }
    } else {
        None
    }
}

/// The end of a token whose name starts somewhere in `lo..=p`; the
/// rightmost such start is taken.
pub open spec fn end_upto(text: Seq<char>, var: Seq<char>, lo: int, p: int) -> Option<int>
    decreases p - lo + 1,
{
    if p < lo {
        None
    } else {
        match end_from(text, var, p) {
            Some(e) => Some(e),
            None => end_upto(text, var, lo, p - 1),
        }
    }
}

/// The end of the token for `var` that starts at `i`, if one does.
pub open spec fn token_end(text: Seq<char>, var: Seq<char>, i: int) -> Option<int> {
    if has_at(text, i, opening()) {
        end_upto(text, var, i + 3, space_run(text, i + 3))
    } else {
        None
    }
}

/// Whether `text[i..end]` reads as a token for `var`: the opening,
/// whitespace up to `p`, the name, whitespace up to `q`, the closing.
pub open spec fn is_token(
    text: Seq<char>,
    var: Seq<char>,
    i: int,
    p: int,
    q: int,
    end: int,
) -> bool {
    &&& has_at(text, i, opening())
    &&& i + 3 <= p
    &&& forall|k: int| i + 3 <= k < p ==> is_whitespace(#[trigger] text[k])
    &&& has_at(text, p, var)
    &&& p + var.len() <= q
    &&& forall|k: int| p + var.len() <= k < q ==> is_whitespace(#[trigger] text[k])
    &&& has_at(text, q, closing())
    &&& end == q + 2
}

/// `text[i..]` with every token for `var` replaced by `value`.
pub open spec fn expanded_from(text: Seq<char>, var: Seq<char>, value: Seq<char>, i: int) -> Seq<
    char,
>
    decreases text.len() - i,
{
    if i < 0 || i >= text.len() {
        Seq::empty()
    } else {
        match token_end(text, var, i) {
            Some(e) => if i < e <= text.len() {
                value + expanded_from(text, var, value, e)
            } else {
                Seq::empty()
            },
            None => seq![text[i]] + expanded_from(text, var, value, i + 1),
        }
    }
}

/// `text` with every token for `var` replaced by `value`.
pub open spec fn expanded(text: Seq<char>, var: Seq<char>, value: Seq<char>) -> Seq<char> {
    expanded_from(text, var, value, 0)
}

/// `space_run` stops inside the text, at or after its start, and everything
/// it passes is whitespace.
pub proof fn lemma_space_run(text: Seq<char>, i: int)
    requires
        0 <= i <= text.len(),
    ensures
        i <= space_run(text, i) <= text.len(),
        forall|k: int| i <= k < space_run(text, i) ==> is_whitespace(#[trigger] text[k]),
        space_run(text, i) < text.len() ==> !is_whitespace(text[space_run(text, i)]),
    decreases text.len() - i,
{
    if i < text.len() && is_whitespace(text[i]) {
        lemma_space_run(text, i + 1);
    }
}

/// A run of whitespace that ends before a non-whitespace character ends
/// where `space_run` says.
pub proof fn lemma_space_run_unique(text: Seq<char>, i: int, q: int)
    requires
        0 <= i <= q < text.len(),
        forall|k: int| i <= k < q ==> is_whitespace(#[trigger] text[k]),
        !is_whitespace(text[q]),
    ensures
        space_run(text, i) == q,
    decreases q - i,
{
    if i < q {
        lemma_space_run_unique(text, i + 1, q);
    }
}

/// Whatever `end_upto` finds is the end of a token whose name starts
/// in the range it searched.
pub proof fn lemma_end_upto_sound(text: Seq<char>, var: Seq<char>, lo: int, p: int)
    requires
        end_upto(text, var, lo, p) is Some,
    ensures
        exists|s: int| lo <= s <= p && end_from(text, var, s) == end_upto(text, var, lo, p),
    decreases p - lo + 1,
{
    if p >= lo {
        if end_from(text, var, p) is Some {
            assert(end_from(text, var, p) == end_upto(text, var, lo, p));
        } else {
            lemma_end_upto_sound(text, var, lo, p - 1);
            let s = choose|s: int|
                lo <= s <= p - 1 && end_from(text, var, s) == end_upto(text, var, lo, p - 1);
            assert(lo <= s <= p && end_from(text, var, s) == end_upto(text, var, lo, p));
        }
    }
}

/// If a name that starts at `s` in the searched range leads to an end, then
/// `end_upto` finds an end.
pub proof fn lemma_end_upto_complete(text: Seq<char>, var: Seq<char>, lo: int, p: int, s: int)
    requires
        lo <= s <= p,
        end_from(text, var, s) is Some,
    ensures
        end_upto(text, var, lo, p) is Some,
    decreases p - lo + 1,
{
    if end_from(text, var, p) is None {
        lemma_end_upto_complete(text, var, lo, p - 1, s);
    }
}

/// A token is found at `i` exactly when the text reads as one there.
pub proof fn lemma_token_found_iff(text: Seq<char>, var: Seq<char>, i: int)
    ensures
        token_end(text, var, i) is Some <==> exists|p: int, q: int, end: int|
            is_token(text, var, i, p, q, end),
        token_end(text, var, i) matches Some(e) ==> exists|p: int, q: int|
            is_token(text, var, i, p, q, e),
{
    if has_at(text, i, opening()) {
        lemma_space_run(text, i + 3);
        let top = space_run(text, i + 3);
        if token_end(text, var, i) is Some {
            lemma_end_upto_sound(text, var, i + 3, top);
            let p = choose|s: int|
                i + 3 <= s <= top && end_from(text, var, s) == end_upto(text, var, i + 3, top);
            let q = space_run(text, p + var.len());
            lemma_space_run(text, p + var.len());
            let e = token_end(text, var, i)->0;
            assert(is_token(text, var, i, p, q, e));
        }
        if exists|p: int, q: int, end: int| is_token(text, var, i, p, q, end) {
            let (p, q, end) = choose|p: int, q: int, end: int|
                is_token(text, var, i, p, q, end);
            assert(text[q] == text.subrange(q, q + 2)[0]);
            lemma_space_run_unique(text, p + var.len(), q);
            assert(end_from(text, var, p) is Some);
            if p > i + 3 {
                // The whitespace before the name is part of the run after the opening.
                assert(p <= top) by {
                    if top < p {
                        assert(is_whitespace(text[top]));
                    }
                }
            }
            lemma_end_upto_complete(text, var, i + 3, top, p);
        }
    }
}

/// A text that holds no `$` is left as it is.
pub proof fn lemma_expanded_without_dollar(
    text: Seq<char>,
    var: Seq<char>,
    value: Seq<char>,
    i: int,
)
    requires
        0 <= i <= text.len(),
        forall|k: int| 0 <= k < text.len() ==> text[k] != '$',
    ensures
        expanded_from(text, var, value, i) == text.subrange(i, text.len() as int),
    decreases text.len() - i,
{
    if i < text.len() {
        if has_at(text, i, opening()) {
            assert(text.subrange(i, i + 3)[0] == text[i]);
        }
        lemma_expanded_without_dollar(text, var, value, i + 1);
        assert(seq![text[i]] + text.subrange(i + 1, text.len() as int) =~= text.subrange(
            i,
            text.len() as int,
        ));
    } else {
        assert(text.subrange(i, text.len() as int) =~= Seq::<char>::empty());
    }
}

/// The index of the first character at or after `i` that is not whitespace.
fn skip_spaces(text: &Vec<char>, i: usize) -> (j: usize)
    requires
        i <= text.len(),
    ensures
        j == space_run(text@, i as int),
        i <= j <= text.len(),
{
    let mut j: usize = i;
    while j < text.len() && is_space(text[j])
        invariant
            i <= j <= text.len(),
            space_run(text@, j as int) == space_run(text@, i as int),
        decreases text.len() - j,
    {
        j += 1;
    }
    j
}

/// Where the token ends whose name starts at `p`, if one does.
fn find_end_from(text: &Vec<char>, var: &Vec<char>, p: usize) -> (out: Option<usize>)
    requires
        p <= text.len(),
    ensures
        out is Some == end_from(text@, var@, p as int) is Some,
        out matches Some(e) ==> end_from(text@, var@, p as int) == Some(e as int) && p + 2 <= e
            <= text.len(),
{
    if !matches_at(text, p, var) {
        return None;
    }
    let q = skip_spaces(text, p + var.len());
    if text.len() - q >= 2 && text[q] == '}' && text[q + 1] == '}' {
        assert(text@.subrange(q as int, q + 2) =~= closing());
        Some(q + 2)
    } else {
        proof {
            if has_at(text@, q as int, closing()) {
                let window = text@.subrange(q as int, q + 2);
                assert(window[0] == text[q as int]);
                assert(window[1] == text[q + 1]);
            }
        }
        None
    }
}

/// The end of the token for `var` that starts at `i`, if one does.
pub fn find_token(text: &Vec<char>, var: &Vec<char>, i: usize) -> (out: Option<usize>)
    requires
        i < text.len(),
    ensures
        out is Some == token_end(text@, var@, i as int) is Some,
        out matches Some(e) ==> token_end(text@, var@, i as int) == Some(e as int) && i + 5
            <= e <= text.len(),
{
    if !(text.len() - i >= 3 && text[i] == '$' && text[i + 1] == '{' && text[i + 2] == '{') {
        proof {
            if has_at(text@, i as int, opening()) {
                let window = text@.subrange(i as int, i + 3);
                assert(window[0] == text[i as int]);
                assert(window[1] == text[i + 1]);
                assert(window[2] == text[i + 2]);
            }
        }
        return None;
    }
    assert(text@.subrange(i as int, i + 3) =~= opening());
    let top = skip_spaces(text, i + 3);
    let mut p: usize = top;
    loop
        invariant
            i + 3 <= p <= top <= text.len(),
            top == space_run(text@, i + 3),
            has_at(text@, i as int, opening()),
            end_upto(text@, var@, i + 3, p as int) == end_upto(text@, var@, i + 3, top as int),
        decreases p,
    {
        let found = find_end_from(text, var, p);
        if found.is_some() {
            return found;
        }
        assert(end_upto(text@, var@, i + 3, p as int) == end_upto(text@, var@, i + 3, p - 1));
        if p == i + 3 {
            assert(end_upto(text@, var@, i + 3, i + 2) is None);
            return None;
        }
        p -= 1;
    }
}

/// Replaces every token for `var` in `text` by `value`.
pub fn expand(text: &str, var: &str, value: &str) -> (out: String)
    ensures
        out@ == expanded(text@, var@, value@),
{
    let chars = crate::text::to_chars(text);
    let name = crate::text::to_chars(var);
    let mut out = String::new();
    let mut i: usize = 0;
    while i < chars.len()
        invariant
            i <= chars.len(),
            chars@ == text@,
            name@ == var@,
            out@ + expanded_from(text@, var@, value@, i as int) == expanded(text@, var@, value@),
        decreases chars.len() - i,
    {
        match find_token(&chars, &name, i) {
            Some(e) => {
                assert((out@ + value@) + expanded_from(text@, var@, value@, e as int) =~= out@ + (
                value@ + expanded_from(text@, var@, value@, e as int)));
                out.append(value);
                i = e;
            },
            None => {
                assert(out@.push(chars[i as int]) + expanded_from(text@, var@, value@, i + 1)
                    =~= out@ + (seq![text@[i as int]] + expanded_from(
                    text@,
                    var@,
                    value@,
                    i + 1,
                )));
                crate::text::push_char(&mut out, chars[i]);
                i += 1;
            },
        }
    }
    assert(out@ + Seq::<char>::empty() =~= out@);
    out
}

} // verus!
