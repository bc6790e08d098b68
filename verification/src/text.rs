//! Moving between text and its characters.

use vstd::prelude::*;

verus! {

/// `String::push` appends the character to the end of the string and leaves
/// what was there before in place.
pub assume_specification[ std::string::String::push ](s: &mut std::string::String, ch: char)
    ensures
        final(s)@ == old(s)@.push(ch),
;

/// The characters of `s`, in order.
pub fn chars_of(s: &str) -> (chars: Vec<char>)
    ensures
        chars@ == s@,
{
    let mut chars: Vec<char> = Vec::new();
    for c in it: s.chars()
        invariant
            chars@ == it.seq().take(it.index() as int),
            it.seq() == s@,
    {
        chars.push(c);
    }
    chars
}

/// The text made of `chars`, in order.
pub fn text_of(chars: &Vec<char>) -> (text: String)
    ensures
        text@ == chars@,
{
    let mut text = String::new();
    let mut i: usize = 0;
    while i < chars.len()
        invariant
            i <= chars.len(),
            text@ == chars@.take(i as int),
        decreases chars.len() - i,
    {
        text.push(chars[i]);
        i += 1;
    }
    text
}

/// The characters of `chars` from `from` up to, not including, `to`.
pub fn slice_of(chars: &Vec<char>, from: usize, to: usize) -> (part: Vec<char>)
    requires
        from <= to <= chars.len(),
    ensures
        part@ == chars@.subrange(from as int, to as int),
{
    let mut part: Vec<char> = Vec::new();
    let mut i: usize = from;
    while i < to
        invariant
            from <= i <= to <= chars.len(),
            part@ == chars@.subrange(from as int, i as int),
        decreases to - i,
    {
        part.push(chars[i]);
        i += 1;
    }
    part
}

/// Whether `chars` spells exactly `word`.
pub fn spells(chars: &Vec<char>, word: &str) -> (same: bool)
    ensures
        same == (chars@ == word@),
{
    let mut n: usize = 0;
    let mut same = true;
    for c in it: word.chars()
        invariant
            it.seq() == word@,
            same ==> n == it.index() && n <= chars.len() && chars@.take(n as int) == word@.take(
                n as int,
            ),
            !same ==> chars@ != word@,
    {
        if same {
            if n < chars.len() && chars[n] == c {
                assert(chars@.take(n + 1) =~= chars@.take(n as int).push(chars@[n as int]));
                assert(word@.take(n + 1) =~= word@.take(n as int).push(word@[n as int]));
                n += 1;
            } else {
                same = false;
                assert(chars@ != word@) by {
                    if chars@ == word@ {
                        assert(chars@.len() == word@.len());
                    }
                }
            }
        }
    }
    proof {
        if same {
            assert(word@.take(n as int) =~= word@);
            if n == chars.len() {
                assert(chars@.take(n as int) =~= chars@);
            }
        }
    }
    same && n == chars.len()
}

} // verus!
