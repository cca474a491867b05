//! Readings and the ways of writing them.

use vstd::prelude::*;

verus! {

/// The way a reading is written.
#[derive(Copy, Clone, Debug, PartialEq, Eq, Structural)]
pub enum Mode {
    /// Without tone marks: `zhong`.
    Plain,
    /// With tone marks: `zhōng`.
    Tone,
    /// The first letter of the plain form: `z`.
    Letter,
    /// With the tone as a digit after the vowel that carries it: `zho1ng`.
    ToneNum,
    /// With the tone as a digit at the end: `zhong1`.
    ToneNumEnd,
}

impl Mode {
    /// The number that stands for this mode at a foreign boundary.
    pub open spec fn code_of(self) -> u8 {
        match self {
            Mode::Plain => 1,
            Mode::Tone => 2,
            Mode::Letter => 3,
            Mode::ToneNum => 4,
            Mode::ToneNumEnd => 5,
        }
    }

    /// The number that stands for this mode at a foreign boundary.
    pub fn code(self) -> (n: u8)
        ensures
            n == self.code_of(),
    {
        match self {
            Mode::Plain => 1,
            Mode::Tone => 2,
            Mode::Letter => 3,
            Mode::ToneNum => 4,
            Mode::ToneNumEnd => 5,
        }
    }

    /// The mode that `n` stands for; `None` when `n` stands for no mode.
    pub fn from_code(n: u8) -> (m: Option<Mode>)
        ensures
            match m {
                Some(mode) => mode.code_of() == n,
                None => n == 0 || n > 5,
            },
    {
        if n == 1 {
            Some(Mode::Plain)
        } else if n == 2 {
            Some(Mode::Tone)
        } else if n == 3 {
            Some(Mode::Letter)
        } else if n == 4 {
            Some(Mode::ToneNum)
        } else if n == 5 {
            Some(Mode::ToneNumEnd)
        } else {
            None
        }
    }
}

/// One reading of a character, in each of its written forms.
#[derive(Copy, Clone, Debug, PartialEq, Eq)]
pub struct Candidate {
    pub plain: &'static str,
    pub tone: &'static str,
    pub tone_num: &'static str,
    pub tone_num_end: &'static str,
    pub letter: &'static str,
}

/// The written forms of one reading, as sequences of characters.
pub struct Forms {
    pub plain: Seq<char>,
    pub tone: Seq<char>,
    pub tone_num: Seq<char>,
    pub tone_num_end: Seq<char>,
    pub letter: Seq<char>,
}

impl View for Candidate {
    type V = Forms;

    open spec fn view(&self) -> Forms {
        Forms {
            plain: self.plain@,
            tone: self.tone@,
            tone_num: self.tone_num@,
            tone_num_end: self.tone_num_end@,
            letter: self.letter@,
        }
    }
}

/// The form of a reading that a mode asks for.
pub open spec fn rendering(forms: Forms, mode: Mode) -> Seq<char> {
    match mode {
        Mode::Plain => forms.plain,
        Mode::Tone => forms.tone,
        Mode::Letter => forms.letter,
        Mode::ToneNum => forms.tone_num,
        Mode::ToneNumEnd => forms.tone_num_end,
    }
}

/// Writes a reading in the given mode.
pub fn match_mode(py: Candidate, mode: Mode) -> (s: String)
    ensures
        s@ == rendering(py@, mode),
{
    match mode {
        Mode::Plain => py.plain.to_owned(),
        Mode::Tone => py.tone.to_owned(),
        Mode::Letter => py.letter.to_owned(),
        Mode::ToneNum => py.tone_num.to_owned(),
        Mode::ToneNumEnd => py.tone_num_end.to_owned(),
    }
}

} // verus!
