//! Counting the occurrences of a character in a text.
use vstd::prelude::*;

verus! {

/// How often `c` occurs in `text`.
pub open spec fn count(text: Seq<char>, c: char) -> nat
    decreases text.len(),
{
    if text.len() == 0 {
        0
    } else {
        count(text.drop_last(), c) + if text.last() == c {
            1nat
        } else {
            0nat
        }
    }
}

/// Counts add up over concatenation.
pub proof fn lemma_count_concat(first: Seq<char>, second: Seq<char>, c: char)
    ensures
        count(first + second, c) == count(first, c) + count(second, c),
    decreases second.len(),
{
    if second.len() == 0 {
        assert(first + second =~= first);
    } else {
        assert((first + second).drop_last() =~= first + second.drop_last());
        lemma_count_concat(first, second.drop_last(), c);
    }
}

/// One character more counts if it is `c`.
pub proof fn lemma_count_push(text: Seq<char>, last: char, c: char)
    ensures
        count(text.push(last), c) == count(text, c) + if last == c {
            1nat
        } else {
            0nat
        },
{
    assert(text.push(last).drop_last() =~= text);
}

/// A text in which `c` stands nowhere holds it zero times.
pub proof fn lemma_count_absent(text: Seq<char>, c: char)
    requires
        forall|i: int| 0 <= i < text.len() ==> text[i] != c,
    ensures
        count(text, c) == 0,
    decreases text.len(),
{
    if text.len() > 0 {
        lemma_count_absent(text.drop_last(), c);
    }
}

/// A text in which `c` stands at one place only holds it once.
pub proof fn lemma_count_once(text: Seq<char>, c: char, at: int)
    requires
        0 <= at < text.len(),
        forall|i: int| 0 <= i < text.len() ==> (text[i] == c <==> i == at),
    ensures
        count(text, c) == 1,
    decreases text.len(),
{
    if at == text.len() - 1 {
        lemma_count_absent(text.drop_last(), c);
    } else {
        lemma_count_once(text.drop_last(), c, at);
    }
}

/// The text holds no brace.
pub open spec fn braceless(text: Seq<char>) -> bool {
    count(text, '{') == 0 && count(text, '}') == 0
}

/// One if `c` is `brace`, zero if not.
pub open spec fn one_if(c: char, brace: char) -> nat {
    if c == brace {
        1
    } else {
        0
    }
}

} // verus!
