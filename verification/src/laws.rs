//! What holds of every conversion.

use crate::convert::{convert_text, pinyin_text, policy_of, slug_with};
use crate::render::Mode;
use crate::render::rendering;
use crate::segment::{
    converted_text, is_ascii_alphanumeric, piece_texts, pieces_of, renderings, walk_of, Piece,
    Policy,
};
use crate::table::{all_looked_up, looked_up, readings_of};
use crate::text::{collapsed, doubled_at, has_doubled, joined, split};
use vstd::prelude::*;

verus! {

/// The characters of a text that have a reading, in the order of the text.
pub open spec fn known_only(text: Seq<char>, multi: bool, mode: Mode) -> Seq<char> {
    text.filter(|c: char| converted_text(c, multi, mode) is Some)
}

/// Whether every piece is a conversion.
pub open spec fn all_converted(ps: Seq<Piece>) -> bool {
    forall|i: int| 0 <= i < ps.len() ==> (#[trigger] ps[i]) is Converted
}

proof fn lemma_walk_ignoring(text: Seq<char>, multi: bool, mode: Mode, policy: Policy, other: Policy)
    requires
        policy.ignore_unknown,
    ensures
        walk_of(text, multi, mode, policy) == walk_of(
            known_only(text, multi, mode),
            multi,
            mode,
            other,
        ),
        walk_of(text, multi, mode, policy).run == Seq::<char>::empty(),
        all_converted(walk_of(text, multi, mode, policy).done),
    decreases text.len(),
{
    reveal(Seq::filter);
    if text.len() > 0 {
        let init = text.drop_last();
        let c = text.last();
        lemma_walk_ignoring(init, multi, mode, policy, other);
        if converted_text(c, multi, mode) is Some {
            let kept = known_only(text, multi, mode);
            assert(kept == known_only(init, multi, mode).push(c));
            assert(kept.drop_last() =~= known_only(init, multi, mode));
            assert(kept.last() == c);
        }
    }
}

/// With `ignore_unknown`, a character without a reading leaves no trace:
/// every piece is a conversion, and the pieces are those of the text with
/// such characters taken out, under whatever policy. The same holds of the
/// joined texts, which are made of the pieces.
pub proof fn law_ignored_characters_leave_no_trace(
    text: Seq<char>,
    multi: bool,
    mode: Mode,
    policy: Policy,
    other: Policy,
)
    requires
        policy.ignore_unknown,
    ensures
        all_converted(pieces_of(text, multi, mode, policy)),
        pieces_of(text, multi, mode, policy) == pieces_of(
            known_only(text, multi, mode),
            multi,
            mode,
            other,
        ),
{
    lemma_walk_ignoring(text, multi, mode, policy, other);
}

/// With `ignore_unknown`, the joined text is that of the text with the
/// characters without a reading taken out, whatever the other text is
/// converted with in their regard.
pub proof fn law_ignored_characters_leave_joined_text(
    text: Seq<char>,
    multi: bool,
    separator: char,
    merge_unknown: bool,
    mode: Mode,
    slug: bool,
    other_ignore: bool,
    other_merge: bool,
)
    ensures
        pinyin_text(text, true, multi, separator, merge_unknown, mode, slug) == pinyin_text(
            known_only(text, multi, mode),
            other_ignore,
            multi,
            separator,
            other_merge,
            mode,
            slug,
        ),
{
    lemma_walk_ignoring(
        text,
        multi,
        mode,
        policy_of(true, merge_unknown, slug_with(slug && !multi, separator)),
        policy_of(other_ignore, other_merge, slug_with(slug && !multi, separator)),
    );
}

/// Whether every character of a text is an ASCII letter or digit or the
/// separator.
pub open spec fn slug_safe(t: Seq<char>, separator: char) -> bool {
    forall|j: int| 0 <= j < t.len() ==> is_ascii_alphanumeric(#[trigger] t[j]) || t[j] == separator
}

/// Whether every literal piece is made of ASCII letters, digits and the
/// separator alone.
pub open spec fn literals_slug_safe(ps: Seq<Piece>, separator: char) -> bool {
    forall|i: int|
        0 <= i < ps.len() && (#[trigger] ps[i]) is Literal ==> slug_safe(ps[i].text(), separator)
}

proof fn lemma_walk_slug(text: Seq<char>, multi: bool, mode: Mode, policy: Policy, separator: char)
    requires
        policy.slug == Some(separator),
    ensures
        literals_slug_safe(walk_of(text, multi, mode, policy).done, separator),
        slug_safe(walk_of(text, multi, mode, policy).run, separator),
    decreases text.len(),
{
    if text.len() > 0 {
        lemma_walk_slug(text.drop_last(), multi, mode, policy, separator);
    }
}

/// In a conversion for a slug, whatever of the characters without a reading
/// reaches the output is an ASCII letter, an ASCII digit or the separator:
/// the literal pieces hold nothing else.
pub proof fn law_slug_literals_are_letters_digits_separators(
    text: Seq<char>,
    multi: bool,
    mode: Mode,
    policy: Policy,
    separator: char,
)
    requires
        policy.slug == Some(separator),
    ensures
        literals_slug_safe(pieces_of(text, multi, mode, policy), separator),
{
    lemma_walk_slug(text, multi, mode, policy, separator);
}

/// Whether a character occurs in one of the parts.
pub open spec fn occurs_in(parts: Seq<Seq<char>>, c: char) -> bool {
    exists|i: int| 0 <= i < parts.len() && (#[trigger] parts[i]).contains(c)
}

/// Whether a character occurs in a converted piece.
pub open spec fn in_a_conversion(ps: Seq<Piece>, c: char) -> bool {
    exists|i: int| 0 <= i < ps.len() && (#[trigger] ps[i]) is Converted && ps[i].text().contains(c)
}

proof fn lemma_joined_chars(parts: Seq<Seq<char>>, separator: char)
    ensures
        forall|k: int|
            0 <= k < joined(parts, separator).len() ==> (#[trigger] joined(parts, separator)[k])
                == separator || occurs_in(parts, joined(parts, separator)[k]),
    decreases parts.len(),
{
    let whole = joined(parts, separator);
    if parts.len() == 1 {
        assert forall|k: int| 0 <= k < whole.len() implies occurs_in(parts, #[trigger] whole[k]) by {
            assert(parts[0].contains(whole[k]));
        }
    } else if parts.len() > 1 {
        let init = parts.drop_last();
        let head = joined(init, separator);
        lemma_joined_chars(init, separator);
        assert forall|k: int| 0 <= k < whole.len() implies (#[trigger] whole[k]) == separator
            || occurs_in(parts, whole[k]) by {
            if k < head.len() {
                assert(whole[k] == head[k]);
                if head[k] != separator {
                    let i = choose|i: int| 0 <= i < init.len() && (#[trigger] init[i]).contains(head[k]);
                    assert(parts[i] == init[i]);
                }
            } else if k > head.len() {
                assert(whole[k] == parts.last()[k - head.len() - 1]);
                assert(parts[parts.len() - 1].contains(whole[k]));
            }
        }
    }
}

proof fn lemma_collapsed_chars(s: Seq<char>, separator: char)
    ensures
        forall|k: int|
            0 <= k < collapsed(s, separator).len() ==> s.contains(
                #[trigger] collapsed(s, separator)[k],
            ),
    decreases s.len(),
{
    let out = collapsed(s, separator);
    if s.len() > 0 {
        let init = s.drop_last();
        let before = collapsed(init, separator);
        lemma_collapsed_chars(init, separator);
        assert forall|k: int| 0 <= k < out.len() implies s.contains(#[trigger] out[k]) by {
            if k < before.len() {
                assert(out[k] == before[k]);
                let j = choose|j: int| 0 <= j < init.len() && init[j] == before[k];
                assert(s[j] == out[k]);
            } else {
                assert(s[s.len() - 1] == out[k]);
            }
        }
    }
}

/// The joined text of a conversion for a slug, before it is put into lower
/// case, is made of separators, of ASCII letters and digits, and of what the
/// readings of its characters are written with: nothing else of a character
/// without a reading reaches it.
pub proof fn law_slug_text_is_separators_letters_digits_and_readings(
    text: Seq<char>,
    ignore_unknown: bool,
    separator: char,
    merge_unknown: bool,
    mode: Mode,
)
    ensures
        ({
            let out = convert_text(text, ignore_unknown, separator, merge_unknown, mode, true);
            let ps = pieces_of(
                text,
                false,
                mode,
                policy_of(ignore_unknown, merge_unknown, Some(separator)),
            );
            forall|k: int|
                0 <= k < out.len() ==> (#[trigger] out[k]) == separator || is_ascii_alphanumeric(
                    out[k],
                ) || in_a_conversion(ps, out[k])
        }),
{
    let policy = policy_of(ignore_unknown, merge_unknown, Some(separator));
    let ps = pieces_of(text, false, mode, policy);
    let parts = piece_texts(ps);
    let whole = joined(parts, separator);
    let out = collapsed(whole, separator);
    lemma_walk_slug(text, false, mode, policy, separator);
    lemma_joined_chars(parts, separator);
    lemma_collapsed_chars(whole, separator);
    assert forall|k: int| 0 <= k < out.len() implies (#[trigger] out[k]) == separator
        || is_ascii_alphanumeric(out[k]) || in_a_conversion(ps, out[k]) by {
        let c = out[k];
        let j = choose|j: int| 0 <= j < whole.len() && whole[j] == c;
        if c != separator {
            let i = choose|i: int| 0 <= i < parts.len() && (#[trigger] parts[i]).contains(c);
            assert(parts[i] == ps[i].text());
            if ps[i] is Literal {
                let m = choose|m: int| 0 <= m < parts[i].len() && parts[i][m] == c;
                assert(slug_safe(ps[i].text(), separator));
            }
        }
    }
}

proof fn lemma_collapsed_last(s: Seq<char>, separator: char)
    requires
        s.len() > 0,
    ensures
        collapsed(s, separator).len() > 0,
        collapsed(s, separator).last() == s.last(),
    decreases s.len(),
{
    if s.len() >= 2 {
        lemma_collapsed_last(s.drop_last(), separator);
    }
}

/// Collapsing leaves no two neighbouring separators, whatever the text.
pub proof fn law_collapsing_leaves_no_doubled_separator(s: Seq<char>, separator: char)
    ensures
        !has_doubled(collapsed(s, separator), separator),
    decreases s.len(),
{
    let out = collapsed(s, separator);
    if s.len() > 0 {
        let init = s.drop_last();
        let before = collapsed(init, separator);
        law_collapsing_leaves_no_doubled_separator(init, separator);
        if init.len() > 0 {
            lemma_collapsed_last(init, separator);
        }
        if has_doubled(out, separator) {
            let k = choose|k: int| doubled_at(out, separator, k);
            if k + 1 < before.len() {
                assert(doubled_at(before, separator, k));
            } else {
                assert(before.last() == init.last());
                assert(init.last() == s[s.len() - 2]);
            }
            assert(false);
        }
    }
}

/// Collapsing changes nothing in a text without two neighbouring
/// separators.
pub proof fn law_collapsing_keeps_a_text_without_doubled_separator(s: Seq<char>, separator: char)
    requires
        !has_doubled(s, separator),
    ensures
        collapsed(s, separator) == s,
    decreases s.len(),
{
    if s.len() > 0 {
        let init = s.drop_last();
        if has_doubled(init, separator) {
            let k = choose|k: int| doubled_at(init, separator, k);
            assert(doubled_at(s, separator, k));
        }
        law_collapsing_keeps_a_text_without_doubled_separator(init, separator);
        if s.len() >= 2 && s[s.len() - 2] == separator && s.last() == separator {
            assert(doubled_at(s, separator, s.len() - 2));
        }
        assert(init.push(s.last()) =~= s);
    }
}

/// The joined text with one reading per character never holds two
/// neighbouring separators, for a slug or not, before it is put into lower
/// case.
pub proof fn law_joined_text_never_doubles_the_separator(
    text: Seq<char>,
    ignore_unknown: bool,
    separator: char,
    merge_unknown: bool,
    mode: Mode,
    slug: bool,
)
    ensures
        !has_doubled(
            convert_text(text, ignore_unknown, separator, merge_unknown, mode, slug),
            separator,
        ),
{
    let policy = policy_of(ignore_unknown, merge_unknown, slug_with(slug, separator));
    law_collapsing_leaves_no_doubled_separator(
        joined(piece_texts(pieces_of(text, false, mode, policy)), separator),
        separator,
    );
}

/// Whether no character of a text is the separator.
pub open spec fn free_of(t: Seq<char>, separator: char) -> bool {
    forall|j: int| 0 <= j < t.len() ==> #[trigger] t[j] != separator
}

/// Whether no part holds the separator.
pub open spec fn all_free_of(parts: Seq<Seq<char>>, separator: char) -> bool {
    forall|i: int| 0 <= i < parts.len() ==> free_of(#[trigger] parts[i], separator)
}

/// Whether every part but the first and the last holds something.
pub open spec fn inner_filled(parts: Seq<Seq<char>>) -> bool {
    forall|i: int| 0 < i < parts.len() - 1 ==> (#[trigger] parts[i]).len() > 0
}

proof fn lemma_split_some(s: Seq<char>, separator: char)
    ensures
        split(s, separator).len() >= 1,
    decreases s.len(),
{
    if s.len() > 0 {
        lemma_split_some(s.drop_last(), separator);
    }
}

proof fn lemma_split_append(s: Seq<char>, t: Seq<char>, separator: char)
    requires
        free_of(t, separator),
    ensures
        split(s + t, separator) == split(s, separator).drop_last().push(
            split(s, separator).last() + t,
        ),
    decreases t.len(),
{
    let cut = split(s, separator);
    lemma_split_some(s, separator);
    if t.len() == 0 {
        assert(s + t =~= s);
        assert(cut.last() + t =~= cut.last());
        assert(cut.drop_last().push(cut.last()) =~= cut);
    } else {
        let shorter = t.drop_last();
        assert(free_of(shorter, separator)) by {
            assert forall|j: int| 0 <= j < shorter.len() implies #[trigger] shorter[j]
                != separator by {
                assert(shorter[j] == t[j]);
            }
        }
        lemma_split_append(s, shorter, separator);
        assert((s + t).drop_last() =~= s + shorter);
        assert((s + t).last() == t[t.len() - 1]);
        let before = split(s + shorter, separator);
        assert(before.drop_last() =~= cut.drop_last());
        assert((cut.last() + shorter).push(t.last()) =~= cut.last() + t);
    }
}

proof fn lemma_split_joined(parts: Seq<Seq<char>>, separator: char)
    requires
        parts.len() > 0,
        all_free_of(parts, separator),
    ensures
        split(joined(parts, separator), separator) == parts,
    decreases parts.len(),
{
    let nothing = Seq::<char>::empty();
    if parts.len() == 1 {
        lemma_split_append(nothing, parts[0], separator);
        assert(nothing + parts[0] =~= parts[0]);
        assert(split(nothing, separator) =~= seq![nothing]);
        assert(seq![nothing].drop_last().push(parts[0]) =~= parts);
    } else {
        let init = parts.drop_last();
        let last = parts.last();
        assert(all_free_of(init, separator)) by {
            assert forall|i: int| 0 <= i < init.len() implies free_of(
                #[trigger] init[i],
                separator,
            ) by {
                assert(init[i] == parts[i]);
            }
        }
        lemma_split_joined(init, separator);
        let head = joined(init, separator).push(separator);
        assert(head.drop_last() =~= joined(init, separator));
        assert(split(head, separator) == init.push(nothing));
        lemma_split_append(head, last, separator);
        assert(init.push(nothing).drop_last() =~= init);
        assert(nothing + last =~= last);
        assert(init.push(last) =~= parts);
    }
}

proof fn lemma_joined_not_doubled(parts: Seq<Seq<char>>, separator: char)
    requires
        all_free_of(parts, separator),
        inner_filled(parts),
    ensures
        !has_doubled(joined(parts, separator), separator),
    decreases parts.len(),
{
    let whole = joined(parts, separator);
    if parts.len() == 0 {
    } else if parts.len() == 1 {
        assert(free_of(parts[0], separator));
    } else {
        let init = parts.drop_last();
        let last = parts.last();
        let head = joined(init, separator);
        assert(free_of(last, separator));
        assert(all_free_of(init, separator) && inner_filled(init)) by {
            assert forall|i: int| 0 <= i < init.len() implies free_of(
                #[trigger] init[i],
                separator,
            ) by {
                assert(init[i] == parts[i]);
            }
            assert forall|i: int| 0 < i < init.len() - 1 implies (#[trigger] init[i]).len()
                > 0 by {
                assert(init[i] == parts[i]);
            }
        }
        lemma_joined_not_doubled(init, separator);
        assert(whole == head.push(separator) + last);
        if has_doubled(whole, separator) {
            let k = choose|k: int| doubled_at(whole, separator, k);
            if k + 1 < head.len() {
                assert(doubled_at(head, separator, k));
            } else if k + 1 == head.len() {
                // The part before the last ends the text before the last separator.
                assert(head.last() == separator);
                assert(free_of(init.last(), separator));
                if init.len() == 1 {
                    assert(head == init[0]);
                } else {
                    let before = init.last();
                    assert(before == parts[parts.len() - 2]);
                    assert(before.len() > 0);
                    assert(head == joined(init.drop_last(), separator).push(separator) + before);
                    assert(head.last() == before.last());
                }
                assert(false);
            } else if k == head.len() {
                assert(whole[k + 1] == last[0]);
                assert(false);
            } else {
                assert(whole[k] == last[k - head.len() - 1]);
                assert(false);
            }
        }
    }
}

/// The joined text cut at its separators gives the texts of the pieces, in
/// order, where the pieces allow it: where the text is not made for a slug,
/// no piece holds the separator and, in the form with one reading per
/// character, no piece but the first or the last is empty. A text without
/// pieces gives the empty joined text.
pub proof fn law_joined_text_splits_where_the_pieces_allow(
    text: Seq<char>,
    ignore_unknown: bool,
    multi: bool,
    separator: char,
    merge_unknown: bool,
    mode: Mode,
)
    requires
        all_free_of(
            piece_texts(
                pieces_of(text, multi, mode, policy_of(ignore_unknown, merge_unknown, None)),
            ),
            separator,
        ),
        !multi ==> inner_filled(
            piece_texts(
                pieces_of(text, multi, mode, policy_of(ignore_unknown, merge_unknown, None)),
            ),
        ),
    ensures
        ({
            let ps = pieces_of(
                text,
                multi,
                mode,
                policy_of(ignore_unknown, merge_unknown, None),
            );
            let whole = pinyin_text(
                text,
                ignore_unknown,
                multi,
                separator,
                merge_unknown,
                mode,
                false,
            );
            if ps.len() == 0 {
                whole == Seq::<char>::empty()
            } else {
                split(whole, separator) == piece_texts(ps)
            }
        }),
{
    let policy = policy_of(ignore_unknown, merge_unknown, None);
    let parts = piece_texts(pieces_of(text, multi, mode, policy));
    if !multi {
        lemma_joined_not_doubled(parts, separator);
        law_collapsing_keeps_a_text_without_doubled_separator(joined(parts, separator), separator);
    }
    if parts.len() > 0 {
        lemma_split_joined(parts, separator);
    }
}

/// Whether every piece holds at least one character.
pub open spec fn all_pieces_filled(ps: Seq<Piece>) -> bool {
    forall|i: int| 0 <= i < ps.len() ==> (#[trigger] ps[i]).text().len() > 0
}

/// Whether no piece holds the separator.
pub open spec fn all_pieces_free_of(ps: Seq<Piece>, separator: char) -> bool {
    forall|i: int| 0 <= i < ps.len() ==> free_of((#[trigger] ps[i]).text(), separator)
}

/// Whether the separator stands apart from what the text is made into: it
/// is in nothing that a character with a reading is written as, and, unless
/// characters without a reading are left out, it is no such character.
pub open spec fn separator_apart(
    text: Seq<char>,
    ignore_unknown: bool,
    multi: bool,
    separator: char,
    mode: Mode,
) -> bool {
    forall|i: int|
        0 <= i < text.len() ==> match converted_text(#[trigger] text[i], multi, mode) {
            Some(rendered) => free_of(rendered, separator),
            None => ignore_unknown || text[i] != separator,
        }
}

proof fn lemma_last_part_fills(parts: Seq<Seq<char>>, separator: char)
    requires
        parts.len() >= 1,
        parts.last().len() > 0,
    ensures
        joined(parts, separator).len() > 0,
{
}

/// What a character with a reading is written as is never empty, once the
/// character was looked up.
pub proof fn law_a_conversion_is_never_empty(c: char, multi: bool, mode: Mode)
    requires
        looked_up(c, multi),
    ensures
        match converted_text(c, multi, mode) {
            Some(rendered) => rendered.len() > 0,
            None => true,
        },
{
    if multi {
        if let Some(list) = readings_of(c) {
            let written = renderings(list, mode);
            assert(written.last() == rendering(list.last(), mode));
            lemma_last_part_fills(written, ':');
        }
    }
}

proof fn lemma_looked_up_before(text: Seq<char>, multi: bool)
    requires
        text.len() > 0,
        all_looked_up(text, multi),
    ensures
        all_looked_up(text.drop_last(), multi),
        looked_up(text.last(), multi),
{
    let init = text.drop_last();
    assert forall|i: int| 0 <= i < init.len() implies looked_up(#[trigger] init[i], multi) by {
        assert(init[i] == text[i]);
    }
    assert(text.last() == text[text.len() - 1]);
}

proof fn lemma_walk_filled(text: Seq<char>, multi: bool, mode: Mode, policy: Policy)
    requires
        all_looked_up(text, multi),
    ensures
        all_pieces_filled(walk_of(text, multi, mode, policy).done),
    decreases text.len(),
{
    if text.len() > 0 {
        lemma_looked_up_before(text, multi);
        lemma_walk_filled(text.drop_last(), multi, mode, policy);
        law_a_conversion_is_never_empty(text.last(), multi, mode);
    }
}

/// No piece of a text is empty, once its characters were looked up.
pub proof fn law_no_piece_is_empty(text: Seq<char>, multi: bool, mode: Mode, policy: Policy)
    requires
        all_looked_up(text, multi),
    ensures
        all_pieces_filled(pieces_of(text, multi, mode, policy)),
{
    lemma_walk_filled(text, multi, mode, policy);
}

proof fn lemma_walk_apart(
    text: Seq<char>,
    ignore_unknown: bool,
    multi: bool,
    separator: char,
    merge_unknown: bool,
    mode: Mode,
)
    requires
        separator_apart(text, ignore_unknown, multi, separator, mode),
    ensures
        all_pieces_free_of(
            walk_of(text, multi, mode, policy_of(ignore_unknown, merge_unknown, None)).done,
            separator,
        ),
        free_of(
            walk_of(text, multi, mode, policy_of(ignore_unknown, merge_unknown, None)).run,
            separator,
        ),
    decreases text.len(),
{
    if text.len() > 0 {
        let init = text.drop_last();
        assert(separator_apart(init, ignore_unknown, multi, separator, mode)) by {
            assert forall|i: int| 0 <= i < init.len() implies match converted_text(
                #[trigger] init[i],
                multi,
                mode,
            ) {
                Some(rendered) => free_of(rendered, separator),
                None => ignore_unknown || init[i] != separator,
            } by {
                assert(init[i] == text[i]);
            }
        }
        lemma_walk_apart(init, ignore_unknown, multi, separator, merge_unknown, mode);
        assert(text.last() == text[text.len() - 1]);
    }
}

/// No piece of a text holds the separator where the separator stands apart.
pub proof fn law_no_piece_holds_a_separator_that_stands_apart(
    text: Seq<char>,
    ignore_unknown: bool,
    multi: bool,
    separator: char,
    merge_unknown: bool,
    mode: Mode,
)
    requires
        separator_apart(text, ignore_unknown, multi, separator, mode),
    ensures
        all_pieces_free_of(
            pieces_of(text, multi, mode, policy_of(ignore_unknown, merge_unknown, None)),
            separator,
        ),
{
    lemma_walk_apart(text, ignore_unknown, multi, separator, merge_unknown, mode);
}

/// The joined text and the array hold the same tokens. Where the text is not
/// made for a slug, its characters were looked up and the separator stands
/// apart, the joined text cut at its separators gives the texts of the
/// pieces, in order and number; a text without pieces gives the empty joined
/// text.
pub proof fn law_joined_text_splits_into_the_tokens(
    text: Seq<char>,
    ignore_unknown: bool,
    multi: bool,
    separator: char,
    merge_unknown: bool,
    mode: Mode,
)
    requires
        all_looked_up(text, multi),
        separator_apart(text, ignore_unknown, multi, separator, mode),
    ensures
        ({
            let ps = pieces_of(
                text,
                multi,
                mode,
                policy_of(ignore_unknown, merge_unknown, None),
            );
            let whole = pinyin_text(
                text,
                ignore_unknown,
                multi,
                separator,
                merge_unknown,
                mode,
                false,
            );
            if ps.len() == 0 {
                whole == Seq::<char>::empty()
            } else {
                split(whole, separator) == piece_texts(ps)
            }
        }),
{
    let policy = policy_of(ignore_unknown, merge_unknown, None);
    law_no_piece_is_empty(text, multi, mode, policy);
    law_no_piece_holds_a_separator_that_stands_apart(
        text,
        ignore_unknown,
        multi,
        separator,
        merge_unknown,
        mode,
    );
    law_joined_text_splits_where_the_pieces_allow(
        text,
        ignore_unknown,
        multi,
        separator,
        merge_unknown,
        mode,
    );
}

/// Whether every character of a text that has readings has one reading
/// alone.
pub open spec fn one_reading_each(text: Seq<char>) -> bool {
    forall|i: int|
        0 <= i < text.len() ==> match readings_of(#[trigger] text[i]) {
            Some(list) => list.len() == 1,
            None => true,
        }
}

proof fn lemma_one_reading(c: char, mode: Mode)
    requires
        looked_up(c, true),
        readings_of(c) matches Some(list) ==> list.len() == 1,
    ensures
        converted_text(c, true, mode) == converted_text(c, false, mode),
{
    if let Some(list) = readings_of(c) {
        assert(renderings(list, mode)[0] == rendering(list[0], mode));
    }
}

/// Where every character has one reading at most, showing all readings
/// gives the pieces that showing the first gives.
pub proof fn law_one_reading_each_makes_the_forms_equal(text: Seq<char>, mode: Mode, policy: Policy)
    requires
        all_looked_up(text, true),
        one_reading_each(text),
    ensures
        walk_of(text, true, mode, policy) == walk_of(text, false, mode, policy),
        pieces_of(text, true, mode, policy) == pieces_of(text, false, mode, policy),
    decreases text.len(),
{
    if text.len() > 0 {
        let init = text.drop_last();
        lemma_looked_up_before(text, true);
        assert(one_reading_each(init)) by {
            assert forall|i: int| 0 <= i < init.len() implies match readings_of(#[trigger] init[i]) {
                Some(list) => list.len() == 1,
                None => true,
            } by {
                assert(init[i] == text[i]);
            }
        }
        law_one_reading_each_makes_the_forms_equal(init, mode, policy);
        assert(text.last() == text[text.len() - 1]);
        lemma_one_reading(text.last(), mode);
    }
}

/// Whether two sequences of pieces have the same shape: as many pieces,
/// conversions at the same places, and the same literal pieces.
pub open spec fn same_shape(a: Seq<Piece>, b: Seq<Piece>) -> bool {
    &&& a.len() == b.len()
    &&& forall|i: int|
        0 <= i < a.len() ==> {
            &&& (#[trigger] a[i]).tag() == b[i].tag()
            &&& a[i] is Literal ==> a[i] == b[i]
        }
}

proof fn lemma_walk_shape(text: Seq<char>, mode: Mode, policy: Policy)
    requires
        all_looked_up(text, true),
    ensures
        same_shape(walk_of(text, true, mode, policy).done, walk_of(text, false, mode, policy).done),
        walk_of(text, true, mode, policy).run == walk_of(text, false, mode, policy).run,
    decreases text.len(),
{
    if text.len() > 0 {
        lemma_looked_up_before(text, true);
        lemma_walk_shape(text.drop_last(), mode, policy);
    }
}

/// Showing all readings or the first gives pieces of the same shape: as
/// many of them, conversions at the same places, and the same literal
/// pieces.
pub proof fn law_all_readings_keep_the_shape(text: Seq<char>, mode: Mode, policy: Policy)
    requires
        all_looked_up(text, true),
    ensures
        same_shape(pieces_of(text, true, mode, policy), pieces_of(text, false, mode, policy)),
{
    lemma_walk_shape(text, mode, policy);
}

/// An empty text gives no piece and an empty joined text, under every
/// policy and in every mode.
pub proof fn law_empty_text_gives_nothing(
    ignore_unknown: bool,
    multi: bool,
    separator: char,
    merge_unknown: bool,
    mode: Mode,
    slug: bool,
    policy: Policy,
)
    ensures
        pieces_of(Seq::empty(), multi, mode, policy) == Seq::<Piece>::empty(),
        pinyin_text(Seq::empty(), ignore_unknown, multi, separator, merge_unknown, mode, slug)
            == Seq::<char>::empty(),
{
    let nothing = Seq::<char>::empty();
    let single = policy_of(ignore_unknown, merge_unknown, slug_with(slug, separator));
    let every = policy_of(ignore_unknown, merge_unknown, None);
    assert(pieces_of(nothing, multi, mode, policy) =~= Seq::<Piece>::empty());
    assert(piece_texts(pieces_of(nothing, false, mode, single)) =~= Seq::<Seq<char>>::empty());
    assert(piece_texts(pieces_of(nothing, true, mode, every)) =~= Seq::<Seq<char>>::empty());
    assert(joined(Seq::<Seq<char>>::empty(), separator) =~= nothing);
    assert(collapsed(nothing, separator) =~= nothing);
}

} // verus!
