//! The walk over a text: each character either has a reading and becomes a
//! converted token, or has none and is handled as the policy says.

use crate::render::{match_mode, rendering, Candidate, Forms, Mode};
use crate::table::{
    all_forms, all_looked_up, first_reading, first_reading_of, looked_up, readings, readings_of,
};
use crate::text::{join, joined, texts};
use vstd::prelude::*;
use vstd::string::*;

verus! {

/// One unit of output.
#[derive(Debug, PartialEq, Eq)]
pub enum Token {
    /// The romanization of one character.
    Converted(String),
    /// Characters without a reading, passed through.
    Literal(String),
}

/// A token, its text taken as a sequence of characters.
pub enum Piece {
    Converted(Seq<char>),
    Literal(Seq<char>),
}

impl Piece {
    /// The text of the piece.
    pub open spec fn text(self) -> Seq<char> {
        match self {
            Piece::Converted(t) => t,
            Piece::Literal(t) => t,
        }
    }

    /// 1 for a converted piece, 0 for a literal one.
    pub open spec fn tag(self) -> u8 {
        match self {
            Piece::Converted(_) => 1,
            Piece::Literal(_) => 0,
        }
    }
}

impl View for Token {
    type V = Piece;

    open spec fn view(&self) -> Piece {
        match self {
            Token::Converted(s) => Piece::Converted(s@),
            Token::Literal(s) => Piece::Literal(s@),
        }
    }
}

impl Token {
    /// 1 for a converted token, 0 for a literal one.
    pub fn tag(&self) -> (t: u8)
        ensures
            t == self@.tag(),
    {
        match self {
            Token::Converted(_) => 1,
            Token::Literal(_) => 0,
        }
    }

    /// The text of the token.
    pub fn into_text(self) -> (s: String)
        ensures
            s@ == self@.text(),
    {
        match self {
            Token::Converted(s) => s,
            Token::Literal(s) => s,
        }
    }
}

/// The pieces that a sequence of tokens stands for.
pub open spec fn pieces(tokens: Seq<Token>) -> Seq<Piece> {
    tokens.map_values(|t: Token| t@)
}

/// The text of each piece.
pub open spec fn piece_texts(ps: Seq<Piece>) -> Seq<Seq<char>> {
    ps.map_values(|p: Piece| p.text())
}

/// What is done with a character that has no reading.
#[derive(Copy, Clone, Debug, PartialEq, Eq)]
pub struct Policy {
    /// Leave such characters out altogether. This is asked first: where it
    /// is set, the other two fields are not looked at.
    pub ignore_unknown: bool,
    /// Gather neighbouring such characters into one literal token, instead
    /// of making a token of each.
    pub merge_unknown: bool,
    /// With a separator here, the output is meant for a slug: such
    /// characters are always gathered, a whitespace character among them
    /// becomes the separator, and what is neither whitespace nor an ASCII
    /// letter or digit is dropped.
    pub slug: Option<char>,
}

/// Whether a character is whitespace, as Unicode lists it: the space, the
/// tab and the other controls that break a line, the no-break spaces, and
/// the spaces of fixed width.
pub open spec fn is_whitespace(c: char) -> bool {
    ||| '\u{9}' <= c && c <= '\u{d}'
    ||| c == ' '
    ||| c == '\u{85}'
    ||| c == '\u{a0}'
    ||| c == '\u{1680}'
    ||| '\u{2000}' <= c && c <= '\u{200a}'
    ||| c == '\u{2028}'
    ||| c == '\u{2029}'
    ||| c == '\u{202f}'
    ||| c == '\u{205f}'
    ||| c == '\u{3000}'
}

/// Whether a character is whitespace.
pub fn whitespace(c: char) -> (b: bool)
    ensures
        b == is_whitespace(c),
{
    ('\u{9}' <= c && c <= '\u{d}') || c == ' ' || c == '\u{85}' || c == '\u{a0}' || c == '\u{1680}'
        || ('\u{2000}' <= c && c <= '\u{200a}') || c == '\u{2028}' || c == '\u{2029}' || c
        == '\u{202f}' || c == '\u{205f}' || c == '\u{3000}'
}

/// Whether a character is an ASCII letter or digit.
pub open spec fn is_ascii_alphanumeric(c: char) -> bool {
    ('0' <= c && c <= '9') || ('A' <= c && c <= 'Z') || ('a' <= c && c <= 'z')
}

/// Whether a character is an ASCII letter or digit.
pub fn ascii_alphanumeric(c: char) -> (b: bool)
    ensures
        b == is_ascii_alphanumeric(c),
{
    ('0' <= c && c <= '9') || ('A' <= c && c <= 'Z') || ('a' <= c && c <= 'z')
}

/// The state of a walk: the pieces that are finished, and the run of
/// characters without a reading that is still open.
pub struct Walk {
    pub done: Seq<Piece>,
    pub run: Seq<char>,
}

impl Walk {
    /// The state before the first character.
    pub open spec fn start() -> Walk {
        Walk { done: Seq::empty(), run: Seq::empty() }
    }

    /// The state with the open run, if there is one, closed into a literal
    /// piece.
    pub open spec fn flush(self) -> Walk {
        if self.run.len() > 0 {
            Walk { done: self.done.push(Piece::Literal(self.run)), run: Seq::empty() }
        } else {
            self
        }
    }

    /// The state after a character with a reading, written as `rendered`:
    /// the open run is closed, then the character's piece follows.
    pub open spec fn after_known(self, rendered: Seq<char>) -> Walk {
        Walk { done: self.flush().done.push(Piece::Converted(rendered)), run: Seq::empty() }
    }

    /// The state after a character without a reading.
    pub open spec fn after_unknown(self, c: char, policy: Policy) -> Walk {
        if policy.ignore_unknown {
            self
        } else if let Some(sep) = policy.slug {
            if is_whitespace(c) {
                Walk { done: self.done, run: self.run.push(sep) }
            } else if is_ascii_alphanumeric(c) {
                Walk { done: self.done, run: self.run.push(c) }
            } else {
                self
            }
        } else if policy.merge_unknown {
            Walk { done: self.done, run: self.run.push(c) }
        } else {
            Walk { done: self.done.push(Piece::Literal(seq![c])), run: self.run }
        }
    }
}

/// A walk in progress.
pub struct Segmenter {
    /// The tokens that are finished.
    pub tokens: Vec<Token>,
    /// The open run of characters without a reading.
    pub unknown: String,
}

impl View for Segmenter {
    type V = Walk;

    open spec fn view(&self) -> Walk {
        Walk { done: pieces(self.tokens@), run: self.unknown@ }
    }
}

impl Segmenter {
    /// A walk that has seen no character yet.
    pub fn new() -> (walk: Segmenter)
        ensures
            walk@ == Walk::start(),
    {
        let walk = Segmenter { tokens: Vec::new(), unknown: String::new() };
        proof {
            assert(walk@.done =~= Seq::empty());
        }
        walk
    }

    /// Closes the open run, if there is one, into a literal token.
    pub fn flush(&mut self)
        ensures
            final(self)@ == old(self)@.flush(),
    {
        if !self.unknown.as_str().is_empty() {
            let mut run = String::new();
            std::mem::swap(&mut run, &mut self.unknown);
            self.tokens.push(Token::Literal(run));
            proof {
                assert(final(self)@.done =~= old(self)@.flush().done);
            }
        }
    }

    /// Takes a character with a reading, written as `rendered`.
    pub fn known(&mut self, rendered: String)
        ensures
            final(self)@ == old(self)@.after_known(rendered@),
    {
        self.flush();
        let ghost closed = self@;
        self.tokens.push(Token::Converted(rendered));
        proof {
            assert(closed.run =~= Seq::empty());
            assert(final(self)@.done =~= closed.done.push(Piece::Converted(rendered@)));
        }
    }

    /// Takes a character without a reading.
    pub fn unknown(&mut self, c: char, policy: Policy)
        ensures
            final(self)@ == old(self)@.after_unknown(c, policy),
    {
        if policy.ignore_unknown {
            return ;
        }
        match policy.slug {
            Some(sep) => {
                if whitespace(c) {
                    self.unknown.push(sep);
                } else if ascii_alphanumeric(c) {
                    self.unknown.push(c);
                }
            },
            None => {
                if policy.merge_unknown {
                    self.unknown.push(c);
                } else {
                    let mut one = String::new();
                    one.push(c);
                    self.tokens.push(Token::Literal(one));
                    proof {
                        assert(final(self)@.done =~= old(self)@.done.push(Piece::Literal(seq![c])));
                    }
                }
            },
        }
    }

    /// Ends the walk: closes the open run and hands out the tokens.
    pub fn finish(self) -> (tokens: Vec<Token>)
        ensures
            pieces(tokens@) == self@.flush().done,
    {
        let mut walk = self;
        walk.flush();
        walk.tokens
    }
}

/// The written form of each reading of a list.
pub open spec fn renderings(list: Seq<Forms>, mode: Mode) -> Seq<Seq<char>> {
    list.map_values(|forms: Forms| rendering(forms, mode))
}

/// Writes every reading of a list in the given mode, with a colon between
/// each two neighbours.
pub fn render_all(list: &Vec<Candidate>, mode: Mode) -> (s: String)
    ensures
        s@ == joined(renderings(all_forms(list@), mode), ':'),
{
    let mut written: Vec<String> = Vec::new();
    let mut i: usize = 0;
    while i < list.len()
        invariant
            i <= list.len(),
            written.len() == i,
            forall|j: int| 0 <= j < i ==> (#[trigger] written[j])@ == rendering(list[j]@, mode),
        decreases list.len() - i,
    {
        written.push(match_mode(list[i], mode));
        i += 1;
    }
    proof {
        assert(texts(written@) =~= renderings(all_forms(list@), mode));
    }
    join(&written, ':')
}

/// The text of the converted piece that a character gives: its first
/// reading, or with `multi` all its readings with a colon between each two
/// neighbours; `None` for a character that the table does not know.
pub open spec fn converted_text(c: char, multi: bool, mode: Mode) -> Option<Seq<char>> {
    if multi {
        match readings_of(c) {
            Some(list) => Some(joined(renderings(list, mode), ':')),
            None => None,
        }
    } else {
        match first_reading_of(c) {
            Some(forms) => Some(rendering(forms, mode)),
            None => None,
        }
    }
}

/// What an optional string holds.
pub open spec fn text_of(s: Option<String>) -> Option<Seq<char>> {
    match s {
        Some(s) => Some(s@),
        None => None,
    }
}

/// Looks a character up and writes what was found. The lookup also shows
/// what `looked_up` says of the table at the character.
pub fn romanize(c: char, multi: bool, mode: Mode) -> (s: Option<String>)
    ensures
        text_of(s) == converted_text(c, multi, mode),
        looked_up(c, multi),
{
    if multi {
        match readings(c) {
            Some(list) => Some(render_all(&list, mode)),
            None => None,
        }
    } else {
        match first_reading(c) {
            Some(py) => Some(match_mode(py, mode)),
            None => None,
        }
    }
}

/// The state of the walk after the last character of `text`.
pub open spec fn walk_of(text: Seq<char>, multi: bool, mode: Mode, policy: Policy) -> Walk
    decreases text.len(),
{
    if text.len() == 0 {
        Walk::start()
    } else {
        let before = walk_of(text.drop_last(), multi, mode, policy);
        match converted_text(text.last(), multi, mode) {
            Some(rendered) => before.after_known(rendered),
            None => before.after_unknown(text.last(), policy),
        }
    }
}

/// The pieces that a text is cut into.
pub open spec fn pieces_of(text: Seq<char>, multi: bool, mode: Mode, policy: Policy) -> Seq<Piece> {
    walk_of(text, multi, mode, policy).flush().done
}

/// Cuts a text into tokens, in the order of the text. Every character of
/// the text is looked up on the way.
pub fn segment(text: &str, multi: bool, mode: Mode, policy: Policy) -> (tokens: Vec<Token>)
    ensures
        pieces(tokens@) == pieces_of(text@, multi, mode, policy),
        all_looked_up(text@, multi),
{
    let mut walk = Segmenter::new();
    proof {
        assert(text@.take(0) =~= Seq::<char>::empty());
    }
    for c in it: text.chars()
        invariant
            it.seq() == text@,
            walk@ == walk_of(text@.take(it.index() as int), multi, mode, policy),
            all_looked_up(text@.take(it.index() as int), multi),
    {
        proof {
            let now = text@.take(it.index() + 1);
            assert(now.drop_last() =~= text@.take(it.index() as int));
            assert(now.last() == c);
        }
        match romanize(c, multi, mode) {
            Some(rendered) => walk.known(rendered),
            None => walk.unknown(c, policy),
        }
    }
    proof {
        assert(text@.take(text@.len() as int) =~= text@);
    }
    walk.finish()
}

} // verus!
