//! Texts as vectors of characters, and back.

use vstd::prelude::*;

verus! {

/// `String::push` appends the character to the end of the string and leaves the rest as it
/// was.
pub assume_specification[ std::string::String::push ](s: &mut std::string::String, c: char)
    ensures
        final(s)@ == old(s)@.push(c),
;

/// The characters of `text`, in order, in a vector that can be indexed in constant time.
pub fn chars_of(text: &str) -> (out: Vec<char>)
    ensures
        out@ == text@,
{
    let mut out: Vec<char> = Vec::new();
    for c in it: text.chars()
        invariant
            out@ == it.seq().take(it.index() as int),
    {
        out.push(c);
    }
    out
}

/// The characters of `chars` from `from` up to, not including, `to`, as a string.
pub fn text_of(chars: &Vec<char>, from: usize, to: usize) -> (out: String)
    requires
        from <= to <= chars.len(),
    ensures
        out@ == chars@.subrange(from as int, to as int),
{
    let mut out = String::new();
    let mut at: usize = from;
    while at < to
        invariant
            from <= at <= to <= chars.len(),
            out@ == chars@.subrange(from as int, at as int),
        decreases to - at,
    {
        out.push(chars[at]);
        at += 1;
        assert(chars@.subrange(from as int, at as int) == chars@.subrange(
            from as int,
            at - 1,
        ).push(chars@[at - 1]));
    }
    assert(chars@.subrange(from as int, from as int) == Seq::<char>::empty());
    out
}

} // verus!
