//! The table of readings, which the `pinyin` crate holds. What it says of a
//! character is believed here, not proved.

use crate::render::{Candidate, Forms};
use pinyin::{ToPinyin, ToPinyinMulti};
use vstd::prelude::*;

verus! {

/// The reading that the table gives first for a character; `None` for a
/// character that the table does not know.
pub uninterp spec fn first_reading_of(c: char) -> Option<Forms>;

/// Every reading that the table gives for a character, in the table's order;
/// `None` for a character that the table does not know.
pub uninterp spec fn readings_of(c: char) -> Option<Seq<Forms>>;

/// The forms of each reading of a list.
pub open spec fn all_forms(list: Seq<Candidate>) -> Seq<Forms> {
    list.map_values(|p: Candidate| p@)
}

/// Whether every form of a reading holds at least one character.
pub open spec fn filled(forms: Forms) -> bool {
    &&& forms.plain.len() > 0
    &&& forms.tone.len() > 0
    &&& forms.tone_num.len() > 0
    &&& forms.tone_num_end.len() > 0
    &&& forms.letter.len() > 0
}

/// Whether every reading of a list is filled.
pub open spec fn all_filled(list: Seq<Forms>) -> bool {
    forall|i: int| 0 <= i < list.len() ==> filled(#[trigger] list[i])
}

/// What the lookup of the first reading shows of the table at a character:
/// a first reading has no empty form.
pub open spec fn first_reading_filled(c: char) -> bool {
    match first_reading_of(c) {
        Some(forms) => filled(forms),
        None => true,
    }
}

/// What the lookup of all readings shows of the table at a character: it
/// has readings exactly where it has a first reading, the readings are
/// never none at all and begin with the first reading, and none has an empty
/// form.
pub open spec fn readings_agree(c: char) -> bool {
    match readings_of(c) {
        Some(list) => list.len() >= 1 && first_reading_of(c) == Some(list[0]) && all_filled(list),
        None => first_reading_of(c) is None,
    }
}

/// What a lookup shows of the table at a character: with `multi` the lookup
/// of all readings, and else that of the first.
pub open spec fn looked_up(c: char, multi: bool) -> bool {
    if multi {
        readings_agree(c)
    } else {
        first_reading_filled(c)
    }
}

/// Whether every character of a text was looked up.
pub open spec fn all_looked_up(text: Seq<char>, multi: bool) -> bool {
    forall|i: int| 0 <= i < text.len() ==> looked_up(#[trigger] text[i], multi)
}

/// `ToPinyin::to_pinyin` on a `char`: a lookup in a table that is built into
/// the crate and never changes, so the result depends on the character
/// alone. The forms of a reading that was found are read off through the
/// accessors of `Pinyin`: `plain`, `with_tone`, `with_tone_num`,
/// `with_tone_num_end` and `first_letter`. The last one takes the first
/// character of the plain form.
///
/// Believed: the call returns; what it returns is what `first_reading_of`
/// names for the character; and no form of a reading is empty, which is so
/// of every reading in the data that the table is built from.
#[verifier::external_body]
pub(crate) fn first_reading(c: char) -> (r: Option<Candidate>)
    ensures
        match r {
            Some(p) => first_reading_of(c) == Some(p@) && filled(p@),
            None => first_reading_of(c) is None,
        },
{
    c.to_pinyin().map(|p| Candidate {
        plain: p.plain(),
        tone: p.with_tone(),
        tone_num: p.with_tone_num(),
        tone_num_end: p.with_tone_num_end(),
        letter: p.first_letter(),
    })
}

/// `ToPinyinMulti::to_pinyin_multi` on a `char`: a lookup in the same table,
/// which yields all readings of the character in the table's order. The
/// forms of each reading are read off through the accessors of `Pinyin`, as
/// in `first_reading`.
///
/// Believed: the call returns; what it returns is what `readings_of` names
/// for the character; it finds readings exactly where `to_pinyin` finds
/// one, by the same test on the same table entry; the list holds at least
/// one reading and begins with the one that `to_pinyin` finds; and no form
/// of a reading is empty.
#[verifier::external_body]
pub(crate) fn readings(c: char) -> (r: Option<Vec<Candidate>>)
    ensures
        match r {
            Some(list) => {
                &&& readings_of(c) == Some(all_forms(list@))
                &&& list@.len() >= 1
                &&& first_reading_of(c) == Some(list@[0]@)
                &&& all_filled(all_forms(list@))
            },
            None => readings_of(c) is None && first_reading_of(c) is None,
        },
{
    c.to_pinyin_multi().map(|m| m.into_iter().map(|p| Candidate {
        plain: p.plain(),
        tone: p.with_tone(),
        tone_num: p.with_tone_num(),
        tone_num_end: p.with_tone_num_end(),
        letter: p.first_letter(),
    }).collect())
}

} // verus!
