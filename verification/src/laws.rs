//! Laws of the grammar, proved of the machine that defines it.

use crate::grammar::{flush, tokenize, Machine, State};
use vstd::prelude::*;

verus! {

/// No character of `s` is a quote of either kind.
pub open spec fn unquoted(s: Seq<char>) -> bool {
    forall|i: int| 0 <= i < s.len() ==> s[i] != '\'' && s[i] != '"'
}

/// No character of `s` is a space or a quote of either kind.
pub open spec fn plain(s: Seq<char>) -> bool {
    forall|i: int| 0 <= i < s.len() ==> s[i] != ' ' && s[i] != '\'' && s[i] != '"'
}

/// A word: at least one character, none of them a space or a quote.
pub open spec fn is_word(w: Seq<char>) -> bool {
    w.len() > 0 && plain(w)
}

/// Every element of `words` is a word.
pub open spec fn all_words(words: Seq<Seq<char>>) -> bool {
    forall|i: int| 0 <= i < words.len() ==> is_word(#[trigger] words[i])
}

/// A run of `n` spaces.
pub open spec fn spaces(n: nat) -> Seq<char> {
    Seq::new(n, |i: int| ' ')
}

/// The words with one space between each two neighbours.
pub open spec fn join(words: Seq<Seq<char>>) -> Seq<char>
    decreases words.len(),
{
    if words.len() == 0 {
        Seq::empty()
    } else if words.len() == 1 {
        words[0]
    } else {
        words[0] + seq![' '] + join(words.drop_first())
    }
}

/// How one character is written inside double quotes.
pub open spec fn escape(c: char) -> Seq<char> {
    if c == '"' || c == '\\' {
        seq!['\\', c]
    } else {
        seq![c]
    }
}

/// How a text is written inside double quotes: a backslash goes before each
/// `"` and each `\`.
pub open spec fn escaped(text: Seq<char>) -> Seq<char>
    decreases text.len(),
{
    if text.len() == 0 {
        Seq::empty()
    } else {
        escape(text[0]) + escaped(text.drop_first())
    }
}

/// Outside quotes, characters that are neither spaces nor quotes are added to
/// the accumulated argument one after the other.
pub proof fn lemma_reads_plain(m: Machine, w: Seq<char>, post: Seq<char>)
    requires
        m.state is Normal,
        m.rest == w + post,
        plain(w),
    ensures
        m.run() == (Machine { current: m.current + w, rest: post, ..m }).run(),
    decreases w.len(),
{
    if w.len() == 0 {
        assert(w + post =~= post);
        assert(m.current + w =~= m.current);
    } else {
        let next = m.step();
        assert(m.rest[0] == w[0]);
        assert(next.rest =~= w.drop_first() + post);
        lemma_reads_plain(next, w.drop_first(), post);
        assert(next.current + w.drop_first() =~= m.current + w);
    }
}

/// Outside quotes, a run of one or more spaces ends the accumulated argument
/// and leaves nothing else behind.
pub proof fn lemma_reads_spaces(m: Machine, n: nat, post: Seq<char>)
    requires
        m.state is Normal,
        n >= 1,
        m.rest == spaces(n) + post,
    ensures
        m.run() == (Machine {
            args: flush(m.args, m.current),
            current: Seq::empty(),
            rest: post,
            ..m
        }).run(),
    decreases n,
{
    let next = m.step();
    assert(m.rest[0] == ' ');
    assert(next.rest =~= spaces((n - 1) as nat) + post);
    if n == 1 {
        assert(next.rest =~= post);
    } else {
        lemma_reads_spaces(next, (n - 1) as nat, post);
    }
}

/// Inside single quotes everything up to the closing quote is content.
pub proof fn lemma_reads_single_quoted(m: Machine, body: Seq<char>, post: Seq<char>)
    requires
        m.state is InSingleQuote,
        m.rest == body + seq!['\''] + post,
        forall|i: int| 0 <= i < body.len() ==> body[i] != '\'',
    ensures
        m.run() == (Machine {
            state: State::Normal,
            current: m.current + body,
            rest: post,
            ..m
        }).run(),
    decreases body.len(),
{
    let next = m.step();
    if body.len() == 0 {
        assert(m.rest[0] == '\'');
        assert(next.rest =~= post);
        assert(m.current + body =~= m.current);
    } else {
        assert(m.rest[0] == body[0]);
        assert(next.rest =~= body.drop_first() + seq!['\''] + post);
        lemma_reads_single_quoted(next, body.drop_first(), post);
        assert(next.current + body.drop_first() =~= m.current + body);
    }
}

/// Inside double quotes, a text written with its escapes is read back as the
/// text.
pub proof fn lemma_reads_escaped(m: Machine, text: Seq<char>, post: Seq<char>)
    requires
        m.state is InDoubleQuote,
        m.rest == escaped(text) + post,
    ensures
        m.run() == (Machine { current: m.current + text, rest: post, ..m }).run(),
    decreases text.len(),
{
    if text.len() == 0 {
        assert(escaped(text) + post =~= post);
        assert(m.current + text =~= m.current);
    } else {
        let c = text[0];
        let tail = text.drop_first();
        let next = m.step();
        assert(m.rest =~= escape(c) + (escaped(tail) + post));
        if c == '"' || c == '\\' {
            assert(m.rest[0] == '\\');
            assert(m.rest[1] == c);
            assert(m.advance().rest[0] == c);
            assert(next.rest =~= escaped(tail) + post);
        } else {
            assert(m.rest[0] == c);
            assert(next.rest =~= escaped(tail) + post);
        }
        assert(next.current == m.current.push(c));
        lemma_reads_escaped(next, tail, post);
        assert(next.current + tail =~= m.current + text);
    }
}

/// Words joined by single spaces, read outside quotes with nothing
/// accumulated, are added to the arguments in their order.
pub proof fn lemma_reads_joined(m: Machine, words: Seq<Seq<char>>)
    requires
        m.state is Normal,
        m.current.len() == 0,
        m.rest == join(words),
        all_words(words),
    ensures
        m.finish().args == m.args + words,
    decreases words.len(),
{
    if words.len() == 0 {
        assert(m.args + words =~= m.args);
    } else {
        let w = words[0];
        let tail = words.drop_first();
        assert(is_word(w));
        assert(m.current + w =~= w);
        if words.len() == 1 {
            assert(m.rest =~= w + Seq::<char>::empty());
            lemma_reads_plain(m, w, Seq::empty());
            assert(m.args.push(w) =~= m.args + words);
        } else {
            let post = seq![' '] + join(tail);
            assert(m.rest =~= w + post);
            lemma_reads_plain(m, w, post);
            let at_space = Machine { current: w, rest: post, ..m };
            let next = at_space.step();
            assert(next.rest =~= join(tail));
            assert(all_words(tail)) by {
                assert forall|i: int| 0 <= i < tail.len() implies is_word(#[trigger] tail[i]) by {
                    assert(tail[i] == words[i + 1]);
                }
            }
            lemma_reads_joined(next, tail);
            assert(m.args.push(w) + tail =~= m.args + words);
        }
    }
}

/// A line of words with single spaces between them, and none before or
/// after, has exactly those words as its arguments.
pub proof fn lemma_single_spaced_words(words: Seq<Seq<char>>)
    requires
        all_words(words),
    ensures
        tokenize(join(words)) == words,
{
    lemma_reads_joined(Machine::start(join(words)), words);
    assert(Seq::<Seq<char>>::empty() + words =~= words);
}

/// Read in context `state`, `text` ends outside quotes and with no backslash
/// left waiting for the character after it.
pub open spec fn closes(state: State, text: Seq<char>) -> bool
    decreases text.len(),
{
    if text.len() == 0 {
        state is Normal
    } else {
        let c = text[0];
        let tail = text.drop_first();
        match state {
            State::Normal => if c == '\'' {
                closes(State::InSingleQuote, tail)
            } else if c == '"' {
                closes(State::InDoubleQuote, tail)
            } else {
                closes(State::Normal, tail)
            },
            State::InSingleQuote => if c == '\'' {
                closes(State::Normal, tail)
            } else {
                closes(State::InSingleQuote, tail)
            },
            State::InDoubleQuote => if c == '"' {
                closes(State::Normal, tail)
            } else if c == '\\' && tail.len() > 0 && (tail[0] == '"' || tail[0] == '\\') {
                closes(State::InDoubleQuote, tail.drop_first())
            } else {
                closes(State::InDoubleQuote, tail)
            },
        }
    }
}

/// Every quote that `text` opens it also closes.
pub open spec fn quotes_closed(text: Seq<char>) -> bool {
    closes(State::Normal, text)
}

/// Text without quotes leaves no quote open.
pub proof fn lemma_unquoted_closes(text: Seq<char>)
    requires
        unquoted(text),
    ensures
        quotes_closed(text),
    decreases text.len(),
{
    if text.len() > 0 {
        let tail = text.drop_first();
        assert(text[0] != '\'' && text[0] != '"');
        assert(unquoted(tail)) by {
            assert forall|i: int| 0 <= i < tail.len() implies tail[i] != '\'' && tail[i] != '"' by {
                assert(tail[i] == text[i + 1]);
            }
        }
        lemma_unquoted_closes(tail);
    }
}

/// After text that closes its quotes, a run of spaces reads as one space
/// does, whatever the machine held before and whatever follows.
pub proof fn lemma_reads_space_run(m: Machine, pre: Seq<char>, n: nat, post: Seq<char>)
    requires
        closes(m.state, pre),
        n >= 1,
        m.rest == pre + spaces(n) + post,
    ensures
        m.run() == (Machine { rest: pre + seq![' '] + post, ..m }).run(),
    decreases pre.len(),
{
    let single = Machine { rest: pre + seq![' '] + post, ..m };
    if pre.len() == 0 {
        assert(m.rest =~= spaces(n) + post);
        assert(single.rest =~= spaces(1) + post);
        lemma_reads_spaces(m, n, post);
        lemma_reads_spaces(single, 1, post);
    } else {
        let c = pre[0];
        let tail = pre.drop_first();
        let next = m.step();
        assert(m.rest[0] == c);
        assert(single.rest[0] == c);
        assert(m.advance().rest =~= tail + spaces(n) + post);
        assert(single.advance().rest =~= tail + seq![' '] + post);
        if m.state is InDoubleQuote && c == '\\' {
            if tail.len() == 0 {
                assert(m.advance().rest[0] == ' ');
                assert(single.advance().rest[0] == ' ');
                assert(!closes(State::InDoubleQuote, tail));
            } else {
                assert(m.advance().rest[0] == tail[0]);
                assert(single.advance().rest[0] == tail[0]);
                if tail[0] == '"' || tail[0] == '\\' {
                    let after = tail.drop_first();
                    assert(next.rest =~= after + spaces(n) + post);
                    assert(single.step().rest =~= after + seq![' '] + post);
                    lemma_reads_space_run(next, after, n, post);
                    assert(single.step() == (Machine { rest: after + seq![' '] + post, ..next }));
                } else {
                    lemma_reads_space_run(next, tail, n, post);
                    assert(single.step() == (Machine { rest: tail + seq![' '] + post, ..next }));
                }
            }
        } else {
            assert(next.rest == m.advance().rest);
            lemma_reads_space_run(next, tail, n, post);
            assert(single.step() == (Machine { rest: tail + seq![' '] + post, ..next }));
        }
    }
}

/// A run of one or more spaces after text that closes its quotes gives the
/// same arguments as a single space in its place.
pub proof fn lemma_space_run_collapses(pre: Seq<char>, n: nat, post: Seq<char>)
    requires
        quotes_closed(pre),
        n >= 1,
    ensures
        tokenize(pre + spaces(n) + post) == tokenize(pre + seq![' '] + post),
{
    lemma_reads_space_run(Machine::start(pre + spaces(n) + post), pre, n, post);
}

/// Inside single quotes a character other than the quote is content as it
/// stands, be it a space, a backslash or a double quote, and nothing else
/// changes; the quote itself closes, adds nothing and ends no argument.
pub proof fn lemma_single_quote_step(m: Machine, c: char)
    requires
        m.state is InSingleQuote,
    ensures
        m.read(c).args == m.args,
        m.read(c).rest == m.rest,
        c == '\'' ==> m.read(c).state is Normal && m.read(c).current == m.current,
        c != '\'' ==> m.read(c).state is InSingleQuote && m.read(c).current == m.current.push(c),
{
}

/// Inside double quotes the quote closes, adds nothing and ends no argument;
/// a backslash before a `"` or a `\` is dropped and takes that character as
/// content; a backslash before anything else, or at the end, is dropped and
/// takes nothing; any other character is content as it stands.
pub proof fn lemma_double_quote_step(m: Machine, c: char)
    requires
        m.state is InDoubleQuote,
    ensures
        m.read(c).args == m.args,
        c == '"' ==> m.read(c).state is Normal && m.read(c).current == m.current && m.read(c).rest
            == m.rest,
        c == '\\' && m.rest.len() > 0 && (m.rest[0] == '"' || m.rest[0] == '\\') ==> m.read(
            c,
        ).state is InDoubleQuote && m.read(c).current == m.current.push(m.rest[0]) && m.read(
            c,
        ).rest == m.rest.drop_first(),
        c == '\\' && !(m.rest.len() > 0 && (m.rest[0] == '"' || m.rest[0] == '\\')) ==> m.read(c)
            == m,
        c != '"' && c != '\\' ==> m.read(c).state is InDoubleQuote && m.read(c).current
            == m.current.push(c) && m.read(c).rest == m.rest,
{
}

/// Wherever it stands outside quotes, text between single quotes that holds
/// no single quote is added as it is to the argument being accumulated: it
/// ends no argument and starts none.
pub proof fn lemma_reads_single_quotes(m: Machine, body: Seq<char>, post: Seq<char>)
    requires
        m.state is Normal,
        m.rest == seq!['\''] + body + seq!['\''] + post,
        forall|i: int| 0 <= i < body.len() ==> body[i] != '\'',
    ensures
        m.run() == (Machine { current: m.current + body, rest: post, ..m }).run(),
{
    let next = m.step();
    assert(m.rest[0] == '\'');
    assert(next.rest =~= body + seq!['\''] + post);
    lemma_reads_single_quoted(next, body, post);
}

/// Wherever it stands outside quotes, a text written between double quotes
/// with a backslash before each `"` and each `\` is added, as the text, to
/// the argument being accumulated.
pub proof fn lemma_reads_double_quotes(m: Machine, text: Seq<char>, post: Seq<char>)
    requires
        m.state is Normal,
        m.rest == seq!['"'] + escaped(text) + seq!['"'] + post,
    ensures
        m.run() == (Machine { current: m.current + text, rest: post, ..m }).run(),
{
    let next = m.step();
    assert(m.rest[0] == '"');
    assert(next.rest =~= escaped(text) + (seq!['"'] + post));
    lemma_reads_escaped(next, text, seq!['"'] + post);
    let closing = Machine { current: m.current + text, rest: seq!['"'] + post, ..next };
    assert(closing.rest[0] == '"');
    assert(closing.step().rest =~= post);
}

/// Text between single quotes that holds no single quote is one argument,
/// spaces included, unless it is empty: then there is no argument.
pub proof fn lemma_single_quoted_verbatim(body: Seq<char>)
    requires
        forall|i: int| 0 <= i < body.len() ==> body[i] != '\'',
    ensures
        tokenize(seq!['\''] + body + seq!['\'']) == flush(Seq::empty(), body),
{
    let m = Machine::start(seq!['\''] + body + seq!['\'']);
    assert(m.rest =~= seq!['\''] + body + seq!['\''] + Seq::<char>::empty());
    lemma_reads_single_quotes(m, body, Seq::empty());
    assert(m.current + body =~= body);
}

/// Any text, written between double quotes with a backslash before each `"`
/// and each `\`, is one argument and equal to the text, unless it is empty:
/// then there is no argument.
pub proof fn lemma_double_quoted_unescapes(text: Seq<char>)
    ensures
        tokenize(seq!['"'] + escaped(text) + seq!['"']) == flush(Seq::empty(), text),
{
    let m = Machine::start(seq!['"'] + escaped(text) + seq!['"']);
    assert(m.rest =~= seq!['"'] + escaped(text) + seq!['"'] + Seq::<char>::empty());
    lemma_reads_double_quotes(m, text, Seq::empty());
    assert(m.current + text =~= text);
}

/// A scan reads its input to the end.
pub proof fn lemma_run_reads_all(m: Machine)
    ensures
        m.run().rest.len() == 0,
        m.finish().rest.len() == 0,
    decreases m.rest.len(),
{
    if m.rest.len() > 0 {
        lemma_run_reads_all(m.step());
    }
}

/// From any point of a scan on, no argument is added that is empty.
pub proof fn lemma_finish_well_formed(m: Machine)
    requires
        m.well_formed(),
    ensures
        m.run().well_formed(),
        m.finish().well_formed(),
    decreases m.rest.len(),
{
    if m.rest.len() > 0 {
        lemma_finish_well_formed(m.step());
    }
}

/// No argument of a line is empty.
pub proof fn lemma_tokens_nonempty(input: Seq<char>)
    ensures
        forall|i: int| 0 <= i < tokenize(input).len() ==> (#[trigger] tokenize(input)[i]).len() > 0,
{
    lemma_finish_well_formed(Machine::start(input));
}

/// Read outside quotes from a machine that holds only words, unquoted input
/// gives only words.
pub proof fn lemma_unquoted_gives_words(m: Machine)
    requires
        m.state is Normal,
        all_words(m.args),
        plain(m.current),
        unquoted(m.rest),
    ensures
        all_words(m.finish().args),
    decreases m.rest.len(),
{
    if m.rest.len() > 0 {
        let next = m.step();
        assert(m.rest[0] != '\'' && m.rest[0] != '"');
        assert(unquoted(next.rest)) by {
            assert forall|i: int| 0 <= i < next.rest.len() implies next.rest[i] != '\''
                && next.rest[i] != '"' by {
                assert(next.rest[i] == m.rest[i + 1]);
            }
        }
        lemma_unquoted_gives_words(next);
    }
}

/// Where no argument of a line holds a space or a quote, the arguments
/// joined by single spaces and read again are the same arguments.
pub proof fn lemma_rejoined_arguments_reparse(input: Seq<char>)
    requires
        forall|i: int| 0 <= i < tokenize(input).len() ==> plain(#[trigger] tokenize(input)[i]),
    ensures
        tokenize(join(tokenize(input))) == tokenize(input),
{
    lemma_tokens_nonempty(input);
    lemma_single_spaced_words(tokenize(input));
}

/// The arguments of a line without quotes are words, and joined by single
/// spaces and read again they are the same arguments.
pub proof fn lemma_unquoted_line_reparses(input: Seq<char>)
    requires
        unquoted(input),
    ensures
        all_words(tokenize(input)),
        tokenize(join(tokenize(input))) == tokenize(input),
{
    lemma_unquoted_gives_words(Machine::start(input));
    lemma_single_spaced_words(tokenize(input));
}

} // verus!
