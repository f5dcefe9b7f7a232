//! The parser: reads a line once, left to right, with one character of
//! lookahead, and computes what the grammar's machine says.

use crate::grammar::{tokenize, Machine, State};
use crate::laws::{lemma_finish_well_formed, lemma_run_reads_all};
use std::str::Chars;
use vstd::prelude::*;
use vstd::std_specs::iter::IteratorSpec;

verus! {

/// The lookahead slot as a piece of input: the character it holds, if any.
pub open spec fn held(slot: Option<char>) -> Seq<char> {
    match slot {
        Some(c) => seq![c],
        None => Seq::empty(),
    }
}

/// A parser over one line of input.
pub struct Parser<'a> {
    /// Parsed arguments
    args: Vec<String>,
    /// Current argument
    current: String,
    /// Current state of the parser
    state: State,
    /// The characters of the input that have not been taken yet
    chars: Chars<'a>,
    /// A character taken from `chars` to look at and not yet read
    lookahead: Option<char>,
    /// The input not yet read: the lookahead, then what `chars` will yield
    unread: Ghost<Seq<char>>,
}

impl<'a> View for Parser<'a> {
    type V = Machine;

    closed spec fn view(&self) -> Machine {
        Machine {
            state: self.state,
            args: self.args.deep_view(),
            current: self.current@,
            rest: self.unread@,
        }
    }
}

impl<'a> Parser<'a> {
    /// The parser has taken nothing of `input` yet: its iterator is the one
    /// that `input.chars()` gives, and it has looked at no character ahead.
    pub closed spec fn holds_input(&self, input: &str) -> bool {
        &&& self.chars == vstd::string::spec_iter(input)
        &&& self.lookahead is None
        &&& self.unread@ == input@
    }

    /// A parser that has read nothing of `input` yet: it holds no argument,
    /// has accumulated nothing, stands outside quotes, and will yield the
    /// characters of `input` from the first on.
    pub fn new(input: &'a str) -> (parser: Self)
        ensures
            parser@ == Machine::start(input@),
            parser@.well_formed(),
            parser.holds_input(input),
    {
        let chars = input.chars();
        let parser = Parser {
            args: Vec::new(),
            current: String::new(),
            state: State::Normal,
            chars,
            lookahead: None,
            unread: Ghost(input@),
        };
        assert(parser.args.deep_view() =~= Seq::<Seq<char>>::empty());
        parser
    }

    /// Reads all of `input` and returns the parser that holds its arguments,
    /// in the order of the input and none of them empty.
    pub fn parse(input: &'a str) -> (parser: Self)
        ensures
            parser@ == Machine::start(input@).finish(),
            parser@.args == tokenize(input@),
            parser@.rest.len() == 0,
            parser@.well_formed(),
    {
        proof {
            lemma_run_reads_all(Machine::start(input@));
            lemma_finish_well_formed(Machine::start(input@));
        }
        let mut parser = Self::new(input);
        assert(held(parser.lookahead) + parser.chars.remaining() =~= input@);
        loop
            invariant
                parser@.run() == Machine::start(input@).run(),
                parser.unread@ == held(parser.lookahead) + parser.chars.remaining(),
            ensures
                parser@ == Machine::start(input@).run(),
            decreases parser@.rest.len(),
        {
            let ghost before = parser@;
            match parser.take() {
                None => {
                    break ;
                },
                Some(c) => {
                    match parser.state {
                        State::Normal => parser.handle_normal(c),
                        State::InSingleQuote => parser.handle_in_single_quote(c),
                        State::InDoubleQuote => parser.handle_in_double_quotes(c),
                    }
                    assert(parser@ == before.step());
                },
            }
        }
        if !parser.current.as_str().is_empty() {
            parser.complete();
        }
        parser
    }

    /// The arguments parsed so far.
    pub fn get_args(&self) -> (args: &Vec<String>)
        ensures
            args.deep_view() == self@.args,
    {
        &self.args
    }

    /// Takes the next character of the input: the one looked at before, if
    /// there is one, else the next that `chars` yields.
    fn take(&mut self) -> (next: Option<char>)
        requires
            old(self).unread@ == held(old(self).lookahead) + old(self).chars.remaining(),
        ensures
            final(self).unread@ == held(final(self).lookahead) + final(self).chars.remaining(),
            match next {
                None => old(self)@.rest.len() == 0 && final(self)@ == old(self)@,
                Some(c) => old(self)@.rest.len() > 0 && c == old(self)@.rest[0] && final(self)@
                    == old(self)@.advance(),
            },
    {
        let next = match self.lookahead {
            Some(c) => {
                self.lookahead = None;
                Some(c)
            },
            None => self.chars.next(),
        };
        proof {
            if next is Some {
                self.unread@ = self.unread@.drop_first();
            }
            assert(self.unread@ =~= held(self.lookahead) + self.chars.remaining());
        }
        next
    }

    /// Looks at the next character of the input without reading it.
    fn peek(&mut self) -> (next: Option<char>)
        requires
            old(self).unread@ == held(old(self).lookahead) + old(self).chars.remaining(),
        ensures
            final(self).unread@ == held(final(self).lookahead) + final(self).chars.remaining(),
            final(self)@ == old(self)@,
            next == if old(self)@.rest.len() > 0 {
                Some(old(self)@.rest[0])
            } else {
                None
            },
    {
        if self.lookahead.is_none() {
            self.lookahead = self.chars.next();
            assert(self.unread@ =~= held(self.lookahead) + self.chars.remaining());
        }
        self.lookahead
    }

    /// Adds the accumulated argument to the arguments and leaves it in place.
    fn complete(&mut self)
        ensures
            final(self)@ == (Machine { args: old(self)@.args.push(old(self)@.current), ..old(self)@ }),
            final(self).chars == old(self).chars,
            final(self).lookahead == old(self).lookahead,
            final(self).unread == old(self).unread,
    {
        self.args.push(self.current.clone());
        assert(self.args.deep_view() =~= old(self).args.deep_view().push(old(self).current@));
    }

    /// Reads `c` outside quotes.
    fn handle_normal(&mut self, c: char)
        ensures
            final(self)@ == old(self)@.read_normal(c),
            final(self).chars == old(self).chars,
            final(self).lookahead == old(self).lookahead,
            final(self).unread == old(self).unread,
    {
        if c == '\'' {
            self.state = State::InSingleQuote;
        } else if c == '"' {
            self.state = State::InDoubleQuote;
        } else if c == ' ' {
            if !self.current.as_str().is_empty() {
                self.complete();
                self.current = String::new();
            }
            assert(self.current@ =~= Seq::<char>::empty());
        } else {
            self.current.push(c);
        }
    }

    /// Reads `c` inside single quotes.
    fn handle_in_single_quote(&mut self, c: char)
        ensures
            final(self)@ == old(self)@.read_single(c),
            final(self).chars == old(self).chars,
            final(self).lookahead == old(self).lookahead,
            final(self).unread == old(self).unread,
    {
        if c == '\'' {
            self.state = State::Normal;
        } else {
            self.current.push(c);
        }
    }

    /// Reads `c` inside double quotes; after a backslash it looks at the
    /// character that follows and takes it if it is a `"` or a `\`.
    fn handle_in_double_quotes(&mut self, c: char)
        requires
            old(self).unread@ == held(old(self).lookahead) + old(self).chars.remaining(),
        ensures
            final(self).unread@ == held(final(self).lookahead) + final(self).chars.remaining(),
            final(self)@ == old(self)@.read_double(c),
    {
        if c == '"' {
            self.state = State::Normal;
        } else if c == '\\' {
            match self.peek() {
                Some(next) => {
                    if next == '"' || next == '\\' {
                        let _ = self.take();
                        self.current.push(next);
                    }
                },
                None => {},
            }
        } else {
            self.current.push(c);
        }
    }
}

} // verus!
