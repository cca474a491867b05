//! Joining pieces of text with a separator, and what is done to the joined
//! text afterwards.

use vstd::prelude::*;
use vstd::string::*;

verus! {

/// `String::push` of std appends one character to the end of the string.
pub assume_specification[ String::push ](s: &mut String, c: char)
    ensures
        final(s)@ == old(s)@.push(c),
;

/// The lowercase form that std gives for a text.
pub uninterp spec fn lowercase_of(s: Seq<char>) -> Seq<char>;

/// `str::to_lowercase` of std returns the lowercase equivalent of the text as
/// Unicode defines it; the result depends on the text alone and is known here
/// only by its name.
pub assume_specification[ str::to_lowercase ](s: &str) -> (r: String)
    ensures
        r@ == lowercase_of(s@),
;

/// The characters of each string of a sequence.
pub open spec fn texts(parts: Seq<String>) -> Seq<Seq<char>> {
    parts.map_values(|s: String| s@)
}

/// The parts in order, with one separator between each two neighbours.
pub open spec fn joined(parts: Seq<Seq<char>>, sep: char) -> Seq<char>
    decreases parts.len(),
{
    if parts.len() == 0 {
        Seq::empty()
    } else if parts.len() == 1 {
        parts[0]
    } else {
        joined(parts.drop_last(), sep).push(sep) + parts.last()
    }
}

/// The text with every run of neighbouring separators reduced to one
/// separator: a separator that stands directly behind another is left out.
pub open spec fn collapsed(s: Seq<char>, sep: char) -> Seq<char>
    decreases s.len(),
{
    if s.len() == 0 {
        s
    } else {
        let before = collapsed(s.drop_last(), sep);
        if s.len() >= 2 && s[s.len() - 2] == sep && s.last() == sep {
            before
        } else {
            before.push(s.last())
        }
    }
}

/// The pieces of a text between its separators: one more piece than the text
/// has separators, some of them possibly empty.
pub open spec fn split(s: Seq<char>, sep: char) -> Seq<Seq<char>>
    decreases s.len(),
{
    if s.len() == 0 {
        seq![Seq::empty()]
    } else {
        let before = split(s.drop_last(), sep);
        if s.last() == sep {
            before.push(Seq::empty())
        } else {
            before.drop_last().push(before.last().push(s.last()))
        }
    }
}

/// Whether the characters at `i` and after it are both the separator.
pub open spec fn doubled_at(s: Seq<char>, sep: char, i: int) -> bool {
    0 <= i && i + 1 < s.len() && s[i] == sep && s[i + 1] == sep
}

/// Whether two neighbouring characters of the text are both the separator.
pub open spec fn has_doubled(s: Seq<char>, sep: char) -> bool {
    exists|i: int| doubled_at(s, sep, i)
}

/// Joins the parts with one separator between each two neighbours.
pub fn join(parts: &Vec<String>, sep: char) -> (out: String)
    ensures
        out@ == joined(texts(parts@), sep),
{
    let ghost all = texts(parts@);
    let mut out = String::new();
    let mut i: usize = 0;
    while i < parts.len()
        invariant
            i <= parts.len(),
            all == texts(parts@),
            out@ == joined(all.take(i as int), sep),
        decreases parts.len() - i,
    {
        if i > 0 {
            out.push(sep);
        }
        out.append(parts[i].as_str());
        proof {
            let now = all.take(i + 1);
            assert(now.drop_last() =~= all.take(i as int));
            assert(now.last() == parts@[i as int]@);
            if i == 0 {
                assert(out@ =~= now[0]);
            }
        }
        i += 1;
    }
    proof {
        assert(all.take(i as int) =~= all);
    }
    out
}

/// Reduces every run of neighbouring separators to one separator.
pub fn collapse(s: &str, sep: char) -> (out: String)
    ensures
        out@ == collapsed(s@, sep),
{
    let mut out = String::new();
    // Whether the character read last was a separator.
    let mut behind_separator = false;
    proof {
        assert(s@.take(0) =~= Seq::<char>::empty());
    }
    for c in it: s.chars()
        invariant
            it.seq() == s@,
            out@ == collapsed(s@.take(it.index() as int), sep),
            behind_separator == (it.index() > 0 && s@[it.index() - 1] == sep),
    {
        proof {
            let now = s@.take(it.index() + 1);
            assert(now.drop_last() =~= s@.take(it.index() as int));
            assert(now.last() == c);
            if it.index() > 0 {
                assert(now[now.len() - 2] == s@[it.index() - 1]);
            }
        }
        if !(behind_separator && c == sep) {
            out.push(c);
        }
        behind_separator = c == sep;
    }
    proof {
        assert(s@.take(s@.len() as int) =~= s@);
    }
    out
}

} // verus!
