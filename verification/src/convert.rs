//! The conversions: a text in, one joined string or an array of tokens out.

use crate::buffer::{carry, PinyinArray, PinyinStr};
use crate::laws::{
    all_pieces_filled, law_collapsing_leaves_no_doubled_separator, law_no_piece_is_empty,
};
use crate::render::Mode;
use crate::segment::{piece_texts, pieces, pieces_of, segment, Policy, Token};
use crate::table::all_looked_up;
use crate::text::{collapse, collapsed, has_doubled, join, joined, lowercase_of, texts};
use vstd::prelude::*;
use vstd::string::*;

verus! {

/// The policy with the given fields.
pub open spec fn policy_of(ignore_unknown: bool, merge_unknown: bool, slug: Option<char>) -> Policy {
    Policy { ignore_unknown, merge_unknown, slug }
}

/// What a policy holds of a slug: the separator where the text is made for
/// one.
pub open spec fn slug_with(slug: bool, separator: char) -> Option<char> {
    if slug {
        Some(separator)
    } else {
        None
    }
}

/// The joined form of a text with one reading per character: its pieces
/// with the separator between each two neighbours, and every run of
/// neighbouring separators then reduced to one.
pub open spec fn convert_text(
    text: Seq<char>,
    ignore_unknown: bool,
    separator: char,
    merge_unknown: bool,
    mode: Mode,
    slug: bool,
) -> Seq<char> {
    let policy = policy_of(ignore_unknown, merge_unknown, slug_with(slug, separator));
    collapsed(joined(piece_texts(pieces_of(text, false, mode, policy)), separator), separator)
}

/// The joined form of a text with all readings of each character: its
/// pieces with the separator between each two neighbours.
pub open spec fn convert_multi_text(
    text: Seq<char>,
    ignore_unknown: bool,
    separator: char,
    merge_unknown: bool,
    mode: Mode,
) -> Seq<char> {
    let policy = policy_of(ignore_unknown, merge_unknown, None);
    joined(piece_texts(pieces_of(text, true, mode, policy)), separator)
}

/// The text of each token, in order.
pub fn token_texts(tokens: Vec<Token>) -> (out: Vec<String>)
    ensures
        texts(out@) == piece_texts(pieces(tokens@)),
{
    let mut out: Vec<String> = Vec::new();
    for token in it: tokens
        invariant
            it.seq() == tokens@,
            out.len() == it.index(),
            forall|j: int| 0 <= j < out.len() ==> (#[trigger] out[j])@ == tokens[j]@.text(),
    {
        out.push(token.into_text());
    }
    proof {
        assert(texts(out@) =~= piece_texts(pieces(tokens@)));
    }
    out
}

/// Converts a text to one string, with the first reading of each character
/// that has one.
///
/// A character without a reading is left out with `is_ignore_unknown_char`.
/// Otherwise, with `is_slug`, such characters are gathered into runs in which
/// a whitespace character becomes the separator and anything but whitespace
/// or an ASCII letter or digit is dropped; without it they are gathered into
/// runs as they are with `not_split_unknown_char`, and stand each by itself
/// without. The pieces are joined by the separator, and every run of
/// neighbouring separators in the result is reduced to one, so that the
/// result never holds two separators in a row. Every character of the text
/// is looked up on the way, which shows what `all_looked_up` says of the
/// table.
pub fn to_convert(
    text: &str,
    is_ignore_unknown_char: bool,
    separator: char,
    not_split_unknown_char: bool,
    mode: Mode,
    is_slug: bool,
) -> (out: String)
    ensures
        out@ == convert_text(
            text@,
            is_ignore_unknown_char,
            separator,
            not_split_unknown_char,
            mode,
            is_slug,
        ),
        !has_doubled(out@, separator),
        all_looked_up(text@, false),
{
    let policy = Policy {
        ignore_unknown: is_ignore_unknown_char,
        merge_unknown: not_split_unknown_char,
        slug: if is_slug {
            Some(separator)
        } else {
            None
        },
    };
    let parts = token_texts(segment(text, false, mode, policy));
    let whole = join(&parts, separator);
    proof {
        law_collapsing_leaves_no_doubled_separator(whole@, separator);
    }
    collapse(whole.as_str(), separator)
}

/// Converts a text to one string, with all readings of each character that
/// has one, a colon between each two of them.
///
/// A character without a reading is left out with `is_ignore_unknown_char`;
/// otherwise such characters are gathered into runs with
/// `not_split_unknown_char`, and stand each by itself without. The pieces are
/// joined by the separator.
pub fn to_convert_multi(
    text: &str,
    is_ignore_unknown_char: bool,
    separator: char,
    not_split_unknown_char: bool,
    mode: Mode,
) -> (out: String)
    ensures
        out@ == convert_multi_text(
            text@,
            is_ignore_unknown_char,
            separator,
            not_split_unknown_char,
            mode,
        ),
        all_looked_up(text@, true),
{
    let policy = Policy {
        ignore_unknown: is_ignore_unknown_char,
        merge_unknown: not_split_unknown_char,
        slug: None,
    };
    let parts = token_texts(segment(text, true, mode, policy));
    join(&parts, separator)
}

/// Converts a text to its tokens, each in a buffer of its own that is
/// tagged 1 where the token is a conversion and 0 where it is literal.
///
/// With `is_multi` a converted token holds all readings of its character, a
/// colon between each two of them, and else the first. A character without
/// a reading is left out with `is_ignore_unknown_char`; otherwise such
/// characters are gathered into runs with `not_split_unknown_char`, and
/// stand each by itself without.
pub fn to_convert_array(
    text: &str,
    is_ignore_unknown_char: bool,
    is_multi: bool,
    not_split_unknown_char: bool,
    mode: Mode,
) -> (out: Vec<PinyinStr>)
    ensures
        carry(
            out@,
            pieces_of(
                text@,
                is_multi,
                mode,
                policy_of(is_ignore_unknown_char, not_split_unknown_char, None),
            ),
        ),
        forall|i: int| 0 <= i < out@.len() ==> (#[trigger] out@[i]).len > 0,
        all_looked_up(text@, is_multi),
{
    let policy = Policy {
        ignore_unknown: is_ignore_unknown_char,
        merge_unknown: not_split_unknown_char,
        slug: None,
    };
    let tokens = segment(text, is_multi, mode, policy);
    proof {
        law_no_piece_is_empty(text@, is_multi, mode, policy);
        assert(all_pieces_filled(pieces(tokens@)));
    }
    let mut out: Vec<PinyinStr> = Vec::new();
    for token in it: tokens
        invariant
            it.seq() == tokens@,
            out.len() == it.index(),
            all_pieces_filled(pieces(tokens@)),
            forall|j: int| 0 <= j < out.len() ==> (#[trigger] out[j]).carries(tokens[j]@),
            forall|j: int| 0 <= j < out.len() ==> (#[trigger] out[j]).len > 0,
    {
        proof {
            assert(pieces(tokens@)[it.index() as int] == token@);
        }
        let tag = token.tag();
        out.push(PinyinStr::from_string(token.into_text(), tag));
    }
    out
}

/// The joined form of a text as `to_pinyin` gives it. With `multi` every
/// reading is shown and the slug's treatment of characters without a reading
/// is not applied. With `slug` the result is put into lower case in either
/// form; an empty result has nothing to put into lower case and stays as it
/// is.
pub open spec fn pinyin_text(
    text: Seq<char>,
    ignore_unknown: bool,
    multi: bool,
    separator: char,
    merge_unknown: bool,
    mode: Mode,
    slug: bool,
) -> Seq<char> {
    let whole = if multi {
        convert_multi_text(text, ignore_unknown, separator, merge_unknown, mode)
    } else {
        convert_text(text, ignore_unknown, separator, merge_unknown, mode, slug)
    };
    if slug && whole.len() > 0 {
        lowercase_of(whole)
    } else {
        whole
    }
}

/// Converts a text to one string in an owned buffer, which the caller
/// releases with `free_pointer`. Each flag is set by the number 1 and clear
/// by any other; the separator is the character with the given code.
///
/// With `is_multi` the text is converted as by `to_convert_multi`, and else
/// as by `to_convert`. With `is_slug` the result is then put into lower
/// case. The buffer has the tag 0: it holds no single token.
pub fn to_pinyin(
    text: &str,
    is_ignore_unknown_char: i32,
    is_multi: i32,
    separator: u8,
    not_split_unknown_char: i32,
    mode: Mode,
    is_slug: i32,
) -> (out: PinyinStr)
    ensures
        out.holds(
            pinyin_text(
                text@,
                is_ignore_unknown_char == 1,
                is_multi == 1,
                separator as char,
                not_split_unknown_char == 1,
                mode,
                is_slug == 1,
            ),
            0,
        ),
        out.wf(),
        all_looked_up(text@, is_multi == 1),
{
    let mut pinyin_str = if is_multi == 1 {
        to_convert_multi(
            text,
            is_ignore_unknown_char == 1,
            separator as char,
            not_split_unknown_char == 1,
            mode,
        )
    } else {
        to_convert(
            text,
            is_ignore_unknown_char == 1,
            separator as char,
            not_split_unknown_char == 1,
            mode,
            is_slug == 1,
        )
    };
    if is_slug == 1 && !pinyin_str.as_str().is_empty() {
        pinyin_str = pinyin_str.as_str().to_lowercase();
    }
    PinyinStr::from_string(pinyin_str, 0)
}

/// Converts a text to an array of its tokens, which the caller releases
/// with `free_array`. Each flag is set by the number 1 and clear by any
/// other.
pub fn to_pinyin_array(
    text: &str,
    is_ignore_unknown_char: i32,
    is_multi: i32,
    not_split_unknown_char: i32,
    mode: Mode,
) -> (out: PinyinArray)
    ensures
        out.carries(
            pieces_of(
                text@,
                is_multi == 1,
                mode,
                policy_of(is_ignore_unknown_char == 1, not_split_unknown_char == 1, None),
            ),
        ),
        out.wf(),
        forall|i: int| 0 <= i < out.array@.len() ==> (#[trigger] out.array@[i]).len > 0,
        all_looked_up(text@, is_multi == 1),
{
    let vec = to_convert_array(
        text,
        is_ignore_unknown_char == 1,
        is_multi == 1,
        not_split_unknown_char == 1,
        mode,
    );
    PinyinArray::from_vec(vec)
}

} // verus!
