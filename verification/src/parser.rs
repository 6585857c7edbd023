//! The command-line parser.
//!
//! Grammar, over the characters of one line:
//!
//! ```text
//! pipeline     := command (pipe-sep command)*
//! pipe-sep     := ws* '|' ws*
//! command      := arg+
//! arg          := (unquoted-arg | quoted-arg) ws*
//! unquoted-arg := (char not in {whitespace, quote, pipe})+
//! quoted-arg   := quote (char not quote)* quote
//! ws           := whitespace character
//! ```
//!
//! The whole line must be consumed; malformed input (unterminated quote,
//! stray pipe, empty command) is rejected, never silently truncated. The two
//! argument forms are disambiguated by the first character: a quote forces
//! the quoted form, anything else the unquoted form. A quoted argument never
//! concatenates with adjacent text: two adjacent tokens need whitespace
//! between them.
//!
//! The grammar is stated by the `spec_*` functions below; [`parse`] is
//! proved to return exactly what they describe, for every line.

use vstd::prelude::*;

use crate::ast::Command;
use crate::ast::Pipeline;

verus! {

/// Why a line was rejected.
#[derive(Debug, Clone, Copy, PartialEq, Eq, Structural)]
pub enum ParseError {
    /// An argument had to begin at some position, but the line ended, a pipe
    /// character appeared, or (at the start of the line) whitespace did.
    ExpectedArgument,
    /// An opening quote has no matching closing quote before the line ends.
    UnterminatedQuote,
    /// Two adjacent argument tokens have no whitespace between them, as in a
    /// quoted argument abutting unquoted text.
    MissingSeparator,
}

/// The whitespace characters that separate arguments: the characters with
/// the Unicode `White_Space` property.
pub open spec fn is_space(c: char) -> bool {
    ||| c == '\u{0009}'
    ||| c == '\u{000A}'
    ||| c == '\u{000B}'
    ||| c == '\u{000C}'
    ||| c == '\u{000D}'
    ||| c == ' '
    ||| c == '\u{0085}'
    ||| c == '\u{00A0}'
    ||| c == '\u{1680}'
    ||| c == '\u{2000}'
    ||| c == '\u{2001}'
    ||| c == '\u{2002}'
    ||| c == '\u{2003}'
    ||| c == '\u{2004}'
    ||| c == '\u{2005}'
    ||| c == '\u{2006}'
    ||| c == '\u{2007}'
    ||| c == '\u{2008}'
    ||| c == '\u{2009}'
    ||| c == '\u{200A}'
    ||| c == '\u{2028}'
    ||| c == '\u{2029}'
    ||| c == '\u{202F}'
    ||| c == '\u{205F}'
    ||| c == '\u{3000}'
}

/// A character that may stand in an unquoted argument: anything but
/// whitespace, the quote and the pipe.
pub open spec fn is_word_char(c: char) -> bool {
    !is_space(c) && c != '\'' && c != '|'
}

pub fn space_char(c: char) -> (r: bool)
    ensures
        r == is_space(c),
{
    c == '\u{0009}' || c == '\u{000A}' || c == '\u{000B}' || c == '\u{000C}' || c == '\u{000D}'
        || c == ' ' || c == '\u{0085}' || c == '\u{00A0}' || c == '\u{1680}' || c == '\u{2000}'
        || c == '\u{2001}' || c == '\u{2002}' || c == '\u{2003}' || c == '\u{2004}'
        || c == '\u{2005}' || c == '\u{2006}' || c == '\u{2007}' || c == '\u{2008}'
        || c == '\u{2009}' || c == '\u{200A}' || c == '\u{2028}' || c == '\u{2029}'
        || c == '\u{202F}' || c == '\u{205F}' || c == '\u{3000}'
}

pub fn word_char(c: char) -> (r: bool)
    ensures
        r == is_word_char(c),
{
    !space_char(c) && c != '\'' && c != '|'
}

/// Where the run of unquoted-argument characters that starts at `i` ends.
pub open spec fn word_end(s: Seq<char>, i: int) -> int
    recommends
        0 <= i <= s.len(),
    decreases s.len() - i,
{
    if i < s.len() && is_word_char(s[i]) {
        word_end(s, i + 1)
    } else {
        i
    }
}

/// Where the run of whitespace that starts at `i` ends.
pub open spec fn ws_end(s: Seq<char>, i: int) -> int
    recommends
        0 <= i <= s.len(),
    decreases s.len() - i,
{
    if i < s.len() && is_space(s[i]) {
        ws_end(s, i + 1)
    } else {
        i
    }
}

/// The position of the first quote at or after `i`, or the length of the
/// line when there is none.
pub open spec fn close_quote(s: Seq<char>, i: int) -> int
    recommends
        0 <= i <= s.len(),
    decreases s.len() - i,
{
    if i >= s.len() {
        s.len() as int
    } else if s[i] == '\'' {
        i
    } else {
        close_quote(s, i + 1)
    }
}

pub proof fn lemma_word_end(s: Seq<char>, i: int)
    requires
        0 <= i <= s.len(),
    ensures
        i <= word_end(s, i) <= s.len(),
    decreases s.len() - i,
{
    if i < s.len() && is_word_char(s[i]) {
        lemma_word_end(s, i + 1);
    }
}

pub proof fn lemma_ws_end(s: Seq<char>, i: int)
    requires
        0 <= i <= s.len(),
    ensures
        i <= ws_end(s, i) <= s.len(),
    decreases s.len() - i,
{
    if i < s.len() && is_space(s[i]) {
        lemma_ws_end(s, i + 1);
    }
}

pub proof fn lemma_close_quote(s: Seq<char>, i: int)
    requires
        0 <= i <= s.len(),
    ensures
        i <= close_quote(s, i) <= s.len(),
        close_quote(s, i) < s.len() ==> s[close_quote(s, i)] == '\'',
    decreases s.len() - i,
{
    if i < s.len() && s[i] != '\'' {
        lemma_close_quote(s, i + 1);
    }
}

/// One argument token beginning exactly at `i`: a quote opens a quoted
/// argument running to the next quote; an unquoted-argument character opens
/// an unquoted argument running as far as such characters do; anything else
/// (end of line, whitespace, a pipe) means no argument can begin here.
/// Yields the argument's characters and the position just past the token.
pub open spec fn spec_token(s: Seq<char>, i: int) -> Result<(Seq<char>, int), ParseError>
    recommends
        0 <= i <= s.len(),
{
    if i < s.len() && s[i] == '\'' {
        let j = close_quote(s, i + 1);
        if j < s.len() {
            Ok((s.subrange(i + 1, j), j + 1))
        } else {
            Err(ParseError::UnterminatedQuote)
        }
    } else if i < s.len() && is_word_char(s[i]) {
        Ok((s.subrange(i, word_end(s, i)), word_end(s, i)))
    } else {
        Err(ParseError::ExpectedArgument)
    }
}

pub proof fn lemma_token_bounds(s: Seq<char>, i: int)
    requires
        0 <= i <= s.len(),
    ensures
        match spec_token(s, i) {
            Ok((a, j)) => i < j <= s.len(),
            Err(_) => true,
        },
{
    if i < s.len() && s[i] == '\'' {
        lemma_close_quote(s, i + 1);
    } else if i < s.len() && is_word_char(s[i]) {
        lemma_word_end(s, i + 1);
    }
}

/// A command beginning exactly at `i`: one or more argument tokens, each
/// followed by optional whitespace, with whitespace required between two
/// adjacent tokens. A command ends at the end of the line or in front of a
/// pipe character; yields the arguments and that end position.
pub open spec fn spec_command(s: Seq<char>, i: int) -> Result<(Seq<Seq<char>>, int), ParseError>
    decreases s.len() - i,
    when 0 <= i <= s.len()
    via spec_command_decreases
{
    match spec_token(s, i) {
        Err(e) => Err(e),
        Ok((a, j)) => {
            let k = ws_end(s, j);
            if k == s.len() || s[k] == '|' {
                Ok((seq![a], k))
            } else if k == j {
                Err(ParseError::MissingSeparator)
            } else {
                match spec_command(s, k) {
                    Err(e) => Err(e),
                    Ok((rest, end)) => Ok((seq![a].add(rest), end)),
                }
            }
        },
    }
}

#[via_fn]
proof fn spec_command_decreases(s: Seq<char>, i: int) {
    match spec_token(s, i) {
        Ok((a, j)) => {
            lemma_token_bounds(s, i);
            lemma_ws_end(s, j);
        },
        Err(_) => {},
    }
}

pub proof fn lemma_command_bounds(s: Seq<char>, i: int)
    requires
        0 <= i <= s.len(),
    ensures
        match spec_command(s, i) {
            Ok((args, j)) => {
                &&& i < j <= s.len()
                &&& j == s.len() || s[j] == '|'
                &&& args.len() >= 1
            },
            Err(_) => true,
        },
    decreases s.len() - i,
{
    match spec_token(s, i) {
        Ok((a, j)) => {
            lemma_token_bounds(s, i);
            lemma_ws_end(s, j);
            let k = ws_end(s, j);
            if !(k == s.len() || s[k] == '|') && k != j {
                lemma_command_bounds(s, k);
            }
        },
        Err(_) => {},
    }
}

/// A pipeline beginning exactly at `i`: one or more commands separated by
/// pipe characters, each pipe optionally followed by whitespace (whitespace
/// in front of a pipe belongs to the command before it). The rest of the
/// line must be consumed entirely.
pub open spec fn spec_pipeline(s: Seq<char>, i: int) -> Result<Seq<Seq<Seq<char>>>, ParseError>
    decreases s.len() - i,
    when 0 <= i <= s.len()
    via spec_pipeline_decreases
{
    match spec_command(s, i) {
        Err(e) => Err(e),
        Ok((cmd, j)) => {
            if j == s.len() {
                Ok(seq![cmd])
            } else {
                match spec_pipeline(s, ws_end(s, j + 1)) {
                    Err(e) => Err(e),
                    Ok(rest) => Ok(seq![cmd].add(rest)),
                }
            }
        },
    }
}

#[via_fn]
proof fn spec_pipeline_decreases(s: Seq<char>, i: int) {
    match spec_command(s, i) {
        Ok((cmd, j)) => {
            lemma_command_bounds(s, i);
            if j < s.len() {
                lemma_ws_end(s, j + 1);
            }
        },
        Err(_) => {},
    }
}

/// What parsing a whole line yields: the commands of its pipeline, each a
/// sequence of arguments, each argument a sequence of characters — or the
/// reason the line is malformed.
pub open spec fn spec_parse(s: Seq<char>) -> Result<Seq<Seq<Seq<char>>>, ParseError> {
    spec_pipeline(s, 0)
}

fn scan_word(line: &str, n: usize, i: usize) -> (j: usize)
    requires
        n == line@.len(),
        i <= n,
    ensures
        j == word_end(line@, i as int),
        i <= j <= n,
{
    let mut j = i;
    while j < n && word_char(line.get_char(j))
        invariant
            n == line@.len(),
            i <= j <= n,
            word_end(line@, i as int) == word_end(line@, j as int),
        decreases n - j,
    {
        j = j + 1;
    }
    j
}

fn scan_ws(line: &str, n: usize, i: usize) -> (j: usize)
    requires
        n == line@.len(),
        i <= n,
    ensures
        j == ws_end(line@, i as int),
        i <= j <= n,
{
    let mut j = i;
    while j < n && space_char(line.get_char(j))
        invariant
            n == line@.len(),
            i <= j <= n,
            ws_end(line@, i as int) == ws_end(line@, j as int),
        decreases n - j,
    {
        j = j + 1;
    }
    j
}

fn scan_close_quote(line: &str, n: usize, i: usize) -> (j: usize)
    requires
        n == line@.len(),
        i <= n,
    ensures
        j == close_quote(line@, i as int),
        i <= j <= n,
{
    let mut j = i;
    while j < n && line.get_char(j) != '\''
        invariant
            n == line@.len(),
            i <= j <= n,
            close_quote(line@, i as int) == close_quote(line@, j as int),
        decreases n - j,
    {
        j = j + 1;
    }
    j
}

fn parse_token(line: &str, n: usize, i: usize) -> (r: Result<(String, usize), ParseError>)
    requires
        n == line@.len(),
        i <= n,
    ensures
        match r {
            Ok((a, j)) => {
                &&& spec_token(line@, i as int) == Ok::<(Seq<char>, int), ParseError>((a@, j as int))
                &&& i < j <= n
            },
            Err(e) => spec_token(line@, i as int) == Err::<(Seq<char>, int), ParseError>(e),
        },
{
    if i < n && line.get_char(i) == '\'' {
        let j = scan_close_quote(line, n, i + 1);
        if j < n {
            let content = line.substring_char(i + 1, j);
            Ok((String::from_str(content), j + 1))
        } else {
            Err(ParseError::UnterminatedQuote)
        }
    } else if i < n && word_char(line.get_char(i)) {
        let j = scan_word(line, n, i);
        proof {
            lemma_word_end(line@, i + 1);
        }
        let content = line.substring_char(i, j);
        Ok((String::from_str(content), j))
    } else {
        Err(ParseError::ExpectedArgument)
    }
}

fn parse_command(line: &str, n: usize, i: usize) -> (r: Result<(Vec<String>, usize), ParseError>)
    requires
        n == line@.len(),
        i <= n,
    ensures
        match r {
            Ok((args, j)) => {
                &&& spec_command(line@, i as int) == Ok::<(Seq<Seq<char>>, int), ParseError>(
                    (args.deep_view(), j as int),
                )
                &&& i < j <= n
                &&& args.len() >= 1
            },
            Err(e) => spec_command(line@, i as int) == Err::<(Seq<Seq<char>>, int), ParseError>(e),
        },
    decreases n - i,
{
    let (a, j) = match parse_token(line, n, i) {
        Ok(t) => t,
        Err(e) => {
            return Err(e);
        },
    };
    let ghost a_view = a@;
    let k = scan_ws(line, n, j);
    if k == n || line.get_char(k) == '|' {
        let mut args: Vec<String> = Vec::new();
        args.push(a);
        proof {
            assert(args.deep_view() =~~= seq![a_view]);
        }
        Ok((args, k))
    } else if k == j {
        Err(ParseError::MissingSeparator)
    } else {
        match parse_command(line, n, k) {
            Err(e) => Err(e),
            Ok((rest, end)) => {
                let ghost rest_view = rest.deep_view();
                let mut args = rest;
                args.insert(0, a);
                proof {
                    assert(args.deep_view() =~~= seq![a_view].add(rest_view));
                }
                Ok((args, end))
            },
        }
    }
}

fn parse_pipeline(line: &str, n: usize, i: usize) -> (r: Result<Vec<Command>, ParseError>)
    requires
        n == line@.len(),
        i <= n,
    ensures
        match r {
            Ok(cmds) => {
                &&& spec_pipeline(line@, i as int) == Ok::<Seq<Seq<Seq<char>>>, ParseError>(
                    cmds.deep_view(),
                )
                &&& cmds.len() >= 1
                &&& forall|m: int| 0 <= m < cmds.len() ==> cmds[m].wf()
            },
            Err(e) => spec_pipeline(line@, i as int) == Err::<Seq<Seq<Seq<char>>>, ParseError>(e),
        },
    decreases n - i,
{
    let (args, j) = match parse_command(line, n, i) {
        Ok(t) => t,
        Err(e) => {
            return Err(e);
        },
    };
    let cmd = Command { args };
    let ghost cmd_view = cmd.deep_view();
    if j == n {
        let mut cmds: Vec<Command> = Vec::new();
        cmds.push(cmd);
        proof {
            assert(cmds.deep_view() =~~= seq![cmd_view]);
        }
        Ok(cmds)
    } else {
        let k = scan_ws(line, n, j + 1);
        match parse_pipeline(line, n, k) {
            Err(e) => Err(e),
            Ok(rest) => {
                let ghost rest_view = rest.deep_view();
                let mut cmds = rest;
                cmds.insert(0, cmd);
                proof {
                    assert(cmds.deep_view() =~~= seq![cmd_view].add(rest_view));
                }
                Ok(cmds)
            },
        }
    }
}

/// Parse one line into a pipeline of commands.
///
/// The result is exactly what the grammar says: `Ok` with the pipeline's
/// structure precisely when [`spec_parse`] accepts the line's characters,
/// and the matching [`ParseError`] on every malformed line. A parsed
/// pipeline is well formed: it has at least one command, and every command
/// has at least one argument.
pub fn parse(line: &str) -> (r: Result<Pipeline, ParseError>)
    ensures
        match r {
            Ok(p) => {
                &&& spec_parse(line@) == Ok::<Seq<Seq<Seq<char>>>, ParseError>(p@)
                &&& p.wf()
            },
            Err(e) => spec_parse(line@) == Err::<Seq<Seq<Seq<char>>>, ParseError>(e),
        },
{
    let n = line.unicode_len();
    match parse_pipeline(line, n, 0) {
        Ok(cmds) => Ok(Pipeline { cmds }),
        Err(e) => Err(e),
    }
}

/// Parsing is deterministic: two pipelines parsed from the same line are
/// structurally equal.
pub proof fn lemma_parse_deterministic(s: Seq<char>, p1: Pipeline, p2: Pipeline)
    requires
        spec_parse(s) == Ok::<Seq<Seq<Seq<char>>>, ParseError>(p1@),
        spec_parse(s) == Ok::<Seq<Seq<Seq<char>>>, ParseError>(p2@),
    ensures
        p1@ == p2@,
{
}

/// A line without a pipe character is a single-command line: it parses
/// exactly when one command covers the whole line, to the pipeline of that
/// one command with its arguments in order.
pub proof fn lemma_single_command(s: Seq<char>)
    requires
        forall|k: int| 0 <= k < s.len() ==> s[k] != '|',
    ensures
        match spec_command(s, 0) {
            Ok((args, j)) => spec_parse(s) == Ok::<Seq<Seq<Seq<char>>>, ParseError>(seq![args]),
            Err(e) => spec_parse(s) == Err::<Seq<Seq<Seq<char>>>, ParseError>(e),
        },
{
    lemma_command_bounds(s, 0);
}

/// Pipe splitting: when the first command of a line ends before the line
/// does, it ends exactly in front of a pipe character, and the line parses
/// as that command followed by the parse of what comes after the pipe (and
/// after any whitespace around it, which is immaterial: the command itself
/// consumed the whitespace in front of the pipe).
pub proof fn lemma_pipe_split(s: Seq<char>)
    requires
        spec_command(s, 0) is Ok,
    ensures
        match spec_command(s, 0) {
            Ok((args, j)) => {
                &&& 0 < j <= s.len()
                &&& j < s.len() ==> {
                    &&& s[j] == '|'
                    &&& spec_parse(s) == (match spec_pipeline(s, ws_end(s, j + 1)) {
                        Ok(rest) => Ok::<Seq<Seq<Seq<char>>>, ParseError>(seq![args].add(rest)),
                        Err(e) => Err::<Seq<Seq<Seq<char>>>, ParseError>(e),
                    })
                }
            },
            Err(_) => true,
        },
{
    lemma_command_bounds(s, 0);
    match spec_command(s, 0) {
        Ok((args, j)) => {
            if j < s.len() {
                lemma_ws_end(s, j + 1);
            }
        },
        Err(_) => {},
    }
}

pub proof fn lemma_close_quote_finds(s: Seq<char>, i: int, j: int)
    requires
        0 <= i <= j < s.len(),
        forall|k: int| i <= k < j ==> s[k] != '\'',
        s[j] == '\'',
    ensures
        close_quote(s, i) == j,
    decreases j - i,
{
    if i < j {
        lemma_close_quote_finds(s, i + 1, j);
    }
}

/// Quoting round-trip: a line that is exactly one quoted argument parses to
/// a pipeline of one command with one argument holding precisely the
/// characters between the quotes — the quotes stripped, and everything
/// inside them, whitespace and pipe characters included, kept literally.
pub proof fn lemma_quoted_round_trip(w: Seq<char>)
    requires
        forall|k: int| 0 <= k < w.len() ==> w[k] != '\'',
    ensures
        spec_parse(seq!['\''].add(w).add(seq!['\''])) == Ok::<Seq<Seq<Seq<char>>>, ParseError>(
            seq![seq![w]],
        ),
{
    let s = seq!['\''].add(w).add(seq!['\'']);
    assert(s.len() == w.len() + 2);
    assert(s[0] == '\'');
    assert(s[w.len() as int + 1] == '\'');
    assert forall|k: int| 1 <= k < w.len() + 1 implies s[k] != '\'' by {
        assert(s[k] == w[k - 1]);
    }
    lemma_close_quote_finds(s, 1, w.len() as int + 1);
    assert(s.subrange(1, w.len() as int + 1) =~= w);
    assert(spec_token(s, 0) == Ok::<(Seq<char>, int), ParseError>((w, s.len() as int)));
    assert(ws_end(s, s.len() as int) == s.len());
    assert(spec_command(s, 0) == Ok::<(Seq<Seq<char>>, int), ParseError>((seq![w], s.len() as int)));
    assert(spec_pipeline(s, 0) == Ok::<Seq<Seq<Seq<char>>>, ParseError>(seq![seq![w]]));
}

/// A sequence of words joined by single spaces, the way a plain
/// single-command line is written.
pub open spec fn join_spaces(ws: Seq<Seq<char>>) -> Seq<char>
    decreases ws.len(),
{
    if ws.len() == 0 {
        Seq::empty()
    } else if ws.len() == 1 {
        ws[0]
    } else {
        ws[0].add(seq![' ']).add(join_spaces(ws.drop_first()))
    }
}

/// Every character of `w` may stand in an unquoted argument.
pub open spec fn all_word_chars(w: Seq<char>) -> bool {
    forall|k: int| 0 <= k < w.len() ==> is_word_char(w[k])
}

proof fn lemma_word_end_is(s: Seq<char>, i: int, l: int)
    requires
        0 <= i,
        0 <= l,
        i + l <= s.len(),
        forall|k: int| i <= k < i + l ==> is_word_char(s[k]),
        i + l == s.len() || !is_word_char(s[i + l]),
    ensures
        word_end(s, i) == i + l,
    decreases l,
{
    if l > 0 {
        lemma_word_end_is(s, i + 1, l - 1);
    }
}

proof fn lemma_words_command_at(s: Seq<char>, i: int, ws: Seq<Seq<char>>)
    requires
        0 <= i <= s.len(),
        ws.len() >= 1,
        forall|m: int| 0 <= m < ws.len() ==> ws[m].len() >= 1 && all_word_chars(ws[m]),
        s.subrange(i, s.len() as int) == join_spaces(ws),
    ensures
        spec_command(s, i) == Ok::<(Seq<Seq<char>>, int), ParseError>((ws, s.len() as int)),
    decreases ws.len(),
{
    let tail = s.subrange(i, s.len() as int);
    let l = ws[0].len() as int;
    if ws.len() == 1 {
        assert(tail.len() == l);
        assert forall|k: int| i <= k < i + l implies is_word_char(s[k]) by {
            assert(s[k] == tail[k - i]);
            assert(tail[k - i] == ws[0][k - i]);
        }
        lemma_word_end_is(s, i, l);
        assert(s.subrange(i, i + l) =~= ws[0]);
        assert(spec_command(s, i) == Ok::<(Seq<Seq<char>>, int), ParseError>(
            (seq![ws[0]], s.len() as int),
        ));
        assert(seq![ws[0]] =~= ws);
    } else {
        let rest = ws.drop_first();
        let jrest = join_spaces(rest);
        assert(tail == ws[0].add(seq![' ']).add(jrest));
        assert(tail.len() == l + 1 + jrest.len());
        assert forall|k: int| i <= k < i + l implies is_word_char(s[k]) by {
            assert(s[k] == tail[k - i]);
            assert(tail[k - i] == ws[0][k - i]);
        }
        assert(tail[l] == ' ');
        assert(s[i + l] == tail[l]);
        assert(!is_word_char(s[i + l]));
        lemma_word_end_is(s, i, l);
        assert(s.subrange(i, i + l) =~= ws[0]);
        assert(rest[0] == ws[1]);
        if rest.len() == 1 {
            assert(jrest == rest[0]);
        } else {
            assert(jrest == rest[0].add(seq![' ']).add(join_spaces(rest.drop_first())));
        }
        assert(jrest.len() >= rest[0].len());
        assert(jrest[0] == rest[0][0]);
        assert(s[i + l + 1] == tail[l + 1]);
        assert(tail[l + 1] == jrest[0]);
        assert(is_word_char(s[i + l + 1]));
        assert(ws_end(s, i + l + 1) == i + l + 1);
        assert(ws_end(s, i + l) == i + l + 1);
        assert(s.subrange(i + l + 1, s.len() as int) =~= jrest) by {
            assert forall|m: int| 0 <= m < s.len() - i - l - 1 implies s[i + l + 1 + m] == jrest[m]
            by {
                assert(s[i + l + 1 + m] == tail[l + 1 + m]);
            }
        }
        lemma_words_command_at(s, i + l + 1, rest);
        assert(seq![ws[0]].add(rest) =~= ws);
    }
}

/// A single-command line of one or more unquoted words joined by single
/// spaces parses to the pipeline of exactly one command whose arguments are
/// those words, in order.
pub proof fn lemma_words_round_trip(ws: Seq<Seq<char>>)
    requires
        ws.len() >= 1,
        forall|m: int| 0 <= m < ws.len() ==> ws[m].len() >= 1 && all_word_chars(ws[m]),
    ensures
        spec_parse(join_spaces(ws)) == Ok::<Seq<Seq<Seq<char>>>, ParseError>(seq![ws]),
{
    let s = join_spaces(ws);
    assert(s.subrange(0, s.len() as int) =~= s);
    lemma_words_command_at(s, 0, ws);
}

/// A sequence of words joined by copies of one separator.
pub open spec fn join_sep(ws: Seq<Seq<char>>, sep: Seq<char>) -> Seq<char>
    decreases ws.len(),
{
    if ws.len() == 0 {
        Seq::empty()
    } else if ws.len() == 1 {
        ws[0]
    } else {
        ws[0].add(sep).add(join_sep(ws.drop_first(), sep))
    }
}

/// Every character of `w` is whitespace.
pub open spec fn all_space_chars(w: Seq<char>) -> bool {
    forall|k: int| 0 <= k < w.len() ==> is_space(w[k])
}

proof fn lemma_ws_end_is(s: Seq<char>, i: int, l: int)
    requires
        0 <= i,
        0 <= l,
        i + l <= s.len(),
        forall|k: int| i <= k < i + l ==> is_space(s[k]),
        i + l == s.len() || !is_space(s[i + l]),
    ensures
        ws_end(s, i) == i + l,
    decreases l,
{
    if l > 0 {
        lemma_ws_end_is(s, i + 1, l - 1);
    }
}

proof fn lemma_pipes_at(s: Seq<char>, i: int, ws: Seq<Seq<char>>, pre: Seq<char>, post: Seq<char>)
    requires
        0 <= i <= s.len(),
        ws.len() >= 1,
        forall|m: int| 0 <= m < ws.len() ==> ws[m].len() >= 1 && all_word_chars(ws[m]),
        all_space_chars(pre),
        all_space_chars(post),
        s.subrange(i, s.len() as int) == join_sep(ws, pre.add(seq!['|']).add(post)),
    ensures
        spec_pipeline(s, i) == Ok::<Seq<Seq<Seq<char>>>, ParseError>(
            ws.map_values(|w: Seq<char>| seq![w]),
        ),
    decreases ws.len(),
{
    let tail = s.subrange(i, s.len() as int);
    let sep = pre.add(seq!['|']).add(post);
    let l = ws[0].len() as int;
    if ws.len() == 1 {
        assert(tail.len() == l);
        assert forall|k: int| i <= k < i + l implies is_word_char(s[k]) by {
            assert(s[k] == tail[k - i]);
            assert(tail[k - i] == ws[0][k - i]);
        }
        lemma_word_end_is(s, i, l);
        assert(s.subrange(i, i + l) =~= ws[0]);
        assert(spec_command(s, i) == Ok::<(Seq<Seq<char>>, int), ParseError>(
            (seq![ws[0]], s.len() as int),
        ));
        assert(spec_pipeline(s, i) == Ok::<Seq<Seq<Seq<char>>>, ParseError>(seq![seq![ws[0]]]));
        assert(seq![seq![ws[0]]] =~~= ws.map_values(|w: Seq<char>| seq![w]));
    } else {
        let rest = ws.drop_first();
        let jrest = join_sep(rest, sep);
        assert(tail == ws[0].add(sep).add(jrest));
        assert(sep.len() == pre.len() + 1 + post.len());
        assert(tail.len() == l + sep.len() + jrest.len());
        let jp = i + l + pre.len() as int;
        let k2 = jp + 1 + post.len() as int;
        assert forall|k: int| i <= k < i + l implies is_word_char(s[k]) by {
            assert(s[k] == tail[k - i]);
            assert(tail[k - i] == ws[0][k - i]);
        }
        assert forall|k: int| i + l <= k < jp implies is_space(s[k]) by {
            assert(s[k] == tail[k - i]);
            assert(tail[k - i] == sep[k - i - l]);
            assert(sep[k - i - l] == pre[k - i - l]);
        }
        assert(s[jp] == tail[jp - i]);
        assert(tail[jp - i] == sep[pre.len() as int]);
        assert(sep[pre.len() as int] == '|');
        assert(s[jp] == '|');
        if pre.len() == 0 {
            assert(!is_word_char(s[i + l]));
        } else {
            assert(is_space(s[i + l]));
            assert(!is_word_char(s[i + l]));
        }
        lemma_word_end_is(s, i, l);
        assert(s.subrange(i, i + l) =~= ws[0]);
        lemma_ws_end_is(s, i + l, pre.len() as int);
        assert(ws_end(s, i + l) == jp);
        assert(spec_command(s, i) == Ok::<(Seq<Seq<char>>, int), ParseError>((seq![ws[0]], jp)));
        // after the pipe: the whitespace of `post`, then the next word
        assert(rest[0] == ws[1]);
        if rest.len() == 1 {
            assert(jrest == rest[0]);
        } else {
            assert(jrest == rest[0].add(sep).add(join_sep(rest.drop_first(), sep)));
        }
        assert(jrest.len() >= rest[0].len());
        assert(jrest[0] == rest[0][0]);
        assert(s[k2] == tail[k2 - i]);
        assert(tail[k2 - i] == jrest[0]);
        assert(is_word_char(s[k2]));
        assert forall|k: int| jp + 1 <= k < k2 implies is_space(s[k]) by {
            assert(s[k] == tail[k - i]);
            assert(tail[k - i] == sep[k - i - l]);
            assert(sep[k - i - l] == post[k - i - l - pre.len() - 1]);
        }
        lemma_ws_end_is(s, jp + 1, post.len() as int);
        assert(ws_end(s, jp + 1) == k2);
        assert(s.subrange(k2, s.len() as int) =~= jrest) by {
            assert forall|m: int| 0 <= m < s.len() - k2 implies s[k2 + m] == jrest[m] by {
                assert(s[k2 + m] == tail[k2 - i + m]);
            }
        }
        lemma_pipes_at(s, k2, rest, pre, post);
        assert(spec_pipeline(s, i) == Ok::<Seq<Seq<Seq<char>>>, ParseError>(
            seq![seq![ws[0]]].add(rest.map_values(|w: Seq<char>| seq![w])),
        ));
        assert(seq![seq![ws[0]]].add(rest.map_values(|w: Seq<char>| seq![w])) =~~= ws.map_values(
            |w: Seq<char>| seq![w],
        ));
    }
}

/// Pipe splitting, in general: unquoted words joined by one separator of
/// the shape "optional whitespace, a pipe, optional whitespace" parse to
/// the pipeline with one single-argument command per word, in order — and
/// the result is the same whatever whitespace the separator carries, so a
/// line like `a|b` parses identically to `a | b`.
pub proof fn lemma_pipes_round_trip(ws: Seq<Seq<char>>, pre: Seq<char>, post: Seq<char>)
    requires
        ws.len() >= 1,
        forall|m: int| 0 <= m < ws.len() ==> ws[m].len() >= 1 && all_word_chars(ws[m]),
        all_space_chars(pre),
        all_space_chars(post),
    ensures
        spec_parse(join_sep(ws, pre.add(seq!['|']).add(post))) == Ok::<
            Seq<Seq<Seq<char>>>,
            ParseError,
        >(ws.map_values(|w: Seq<char>| seq![w])),
{
    let s = join_sep(ws, pre.add(seq!['|']).add(post));
    assert(s.subrange(0, s.len() as int) =~= s);
    lemma_pipes_at(s, 0, ws, pre, post);
}

} // verus!
