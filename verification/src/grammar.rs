//! The grammar of a command line, as a machine over sequences of characters.

use vstd::prelude::*;

verus! {

/// The quoting context in which the next character is read.
#[derive(Clone, Copy, Debug)]
pub enum State {
    Normal,
    InSingleQuote,
    InDoubleQuote,
}

/// The arguments so far, with the accumulated one added if it holds anything.
pub open spec fn flush(args: Seq<Seq<char>>, current: Seq<char>) -> Seq<Seq<char>> {
    if current.len() > 0 {
        args.push(current)
    } else {
        args
    }
}

/// A scan in progress: the quoting context, the arguments completed so far,
/// the argument being accumulated, and the input not yet read.
pub struct Machine {
    pub state: State,
    pub args: Seq<Seq<char>>,
    pub current: Seq<char>,
    pub rest: Seq<char>,
}

impl Machine {
    /// The machine before anything of `input` has been read.
    pub open spec fn start(input: Seq<char>) -> Machine {
        Machine { state: State::Normal, args: Seq::empty(), current: Seq::empty(), rest: input }
    }

    /// No completed argument is empty.
    pub open spec fn well_formed(self) -> bool {
        forall|i: int| 0 <= i < self.args.len() ==> (#[trigger] self.args[i]).len() > 0
    }

    /// Reading `c` outside quotes: a quote opens, a space ends the
    /// accumulated argument if there is one, anything else is content.
    pub open spec fn read_normal(self, c: char) -> Machine {
        if c == '\'' {
            Machine { state: State::InSingleQuote, ..self }
        } else if c == '"' {
            Machine { state: State::InDoubleQuote, ..self }
        } else if c == ' ' {
            Machine { args: flush(self.args, self.current), current: Seq::empty(), ..self }
        } else {
            Machine { current: self.current.push(c), ..self }
        }
    }

    /// Reading `c` inside single quotes: only the closing quote is special.
    pub open spec fn read_single(self, c: char) -> Machine {
        if c == '\'' {
            Machine { state: State::Normal, ..self }
        } else {
            Machine { current: self.current.push(c), ..self }
        }
    }

    /// Reading `c` inside double quotes. A backslash is dropped; if a `"` or
    /// a `\` follows it, that character is read with it and becomes content.
    pub open spec fn read_double(self, c: char) -> Machine {
        if c == '"' {
            Machine { state: State::Normal, ..self }
        } else if c == '\\' {
            if self.rest.len() > 0 && (self.rest[0] == '"' || self.rest[0] == '\\') {
                Machine {
                    current: self.current.push(self.rest[0]),
                    rest: self.rest.drop_first(),
                    ..self
                }
            } else {
                self
            }
        } else {
            Machine { current: self.current.push(c), ..self }
        }
    }

    /// Reading `c`, which has already been taken off `rest`.
    pub open spec fn read(self, c: char) -> Machine {
        match self.state {
            State::Normal => self.read_normal(c),
            State::InSingleQuote => self.read_single(c),
            State::InDoubleQuote => self.read_double(c),
        }
    }

    /// The input without its first character.
    pub open spec fn advance(self) -> Machine {
        Machine { rest: self.rest.drop_first(), ..self }
    }

    /// One transition: takes the first unread character and reads it.
    pub open spec fn step(self) -> Machine
        recommends
            self.rest.len() > 0,
    {
        self.advance().read(self.rest[0])
    }

    /// The machine once all input has been read.
    pub open spec fn run(self) -> Machine
        decreases self.rest.len(),
    {
        if self.rest.len() == 0 {
            self
        } else {
            self.step().run()
        }
    }

    /// The machine at the end of the input, with the accumulated argument
    /// added to the arguments if it holds anything. An open quote is not an
    /// error: what was read within it is content.
    pub open spec fn finish(self) -> Machine {
        let end = self.run();
        Machine { args: flush(end.args, end.current), ..end }
    }
}

/// The arguments of a command line.
pub open spec fn tokenize(input: Seq<char>) -> Seq<Seq<char>> {
    Machine::start(input).finish().args
}

} // verus!
