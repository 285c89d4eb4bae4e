//! The recursive-descent parser: scans notation source text into the
//! position-tagged value tree.
//!
//! The lexical rules live in the text-run scanner: escape pairs made of a
//! reserved character trailed by a backtick, doubled delimiters literalized
//! into text, the zero-width glue and comment marker, quoted and verbatim
//! segments, and raw text blocks. The grammar rules live in the functions
//! around it: compositions with the join operator, dictionaries, the three
//! table notations and patterns with chained arguments.

use vstd::prelude::*;
use crate::block::{normalize_block, BlockFlags};
use crate::error::{ParseError, ParseErrorKind};
use crate::chars::str_to_chars;
use crate::value::{DictionaryValue, Element, ParsedValue, PatternValue, Position, TableValue};
use crate::writer::inc_sat;

verus! {

/// A place in the source: the next character's index and its line and
/// column.
#[derive(Clone, Copy, PartialEq, Eq, Structural, Debug)]
struct Cursor {
    i: usize,
    line: usize,
    column: usize,
}

/// What construct the expression being parsed sits in; decides which
/// characters end it.
#[derive(Clone, Copy, PartialEq, Eq, Structural, Debug)]
enum Scope {
    Top,
    Brace,
    DictValue { braced: bool },
    SeqCell { bracketed: bool },
    TabCell { bracketed: bool },
    BulletCell { bracketed: bool },
}

pub open spec fn is_space_char(c: char) -> bool {
    c == ' ' || c == '\t' || c == '\n'
}

fn is_space(c: char) -> (r: bool)
    ensures
        r == is_space_char(c),
{
    c == ' ' || c == '\t' || c == '\n'
}

/// The reserved characters that a trailing backtick escapes.
pub open spec fn is_escapable_char(c: char) -> bool {
    ||| c == ':'
    ||| c == ';'
    ||| c == '|'
    ||| c == '~'
    ||| c == '`'
    ||| c == '\\'
    ||| c == '{'
    ||| c == '}'
    ||| c == '['
    ||| c == ']'
    ||| c == '<'
    ||| c == '>'
    ||| c == '#'
}

fn is_escapable(c: char) -> (r: bool)
    ensures
        r == is_escapable_char(c),
{
    c == ':' || c == ';' || c == '|' || c == '~' || c == '`' || c == '\\' || c == '{' || c == '}'
        || c == '[' || c == ']' || c == '<' || c == '>' || c == '#'
}

/// An ordinary character: one that a text run takes as itself.
pub open spec fn plain_char(c: char) -> bool {
    !is_space_char(c) && !is_escapable_char(c) && c != '"'
}

/// A source that is exactly one escape pair: a reserved character (or `n`)
/// trailed by a backtick.
pub open spec fn escape_pair_source(s: Seq<char>) -> bool {
    s.len() == 2 && (is_escapable_char(s[0]) || s[0] == 'n') && s[1] == '`'
}

/// A composition element holding exactly the given text.
pub open spec fn solid_text_element(e: Element, txt: Seq<char>) -> bool {
    e is Solid && e->Solid_0 is Text && e->Solid_0->Text_0@ == txt
}

/// The character an escape pair stands for: the reserved character itself,
/// or a line break for `n`.
pub open spec fn escape_pair_result(s: Seq<char>) -> Seq<char> {
    seq![
        if s[0] == 'n' {
            '\n'
        } else {
            s[0]
        },
    ]
}

/// The characters that end an expression in the given scope.
spec fn is_scope_end_char(scope: Scope, c: char) -> bool {
    match scope {
        Scope::Top => false,
        Scope::Brace => c == '}',
        Scope::DictValue { braced } => c == ';' || (braced && c == '}'),
        Scope::SeqCell { bracketed } => c == '|' || c == ';' || (bracketed && c == ']'),
        Scope::TabCell { bracketed } => c == '|' || (bracketed && c == ']'),
        Scope::BulletCell { bracketed } => c == '>' || c == '|' || (bracketed && c == ']'),
    }
}

fn is_scope_end(scope: Scope, c: char) -> (r: bool)
    ensures
        r == is_scope_end_char(scope, c),
{
    match scope {
        Scope::Top => false,
        Scope::Brace => c == '}',
        Scope::DictValue { braced } => c == ';' || (braced && c == '}'),
        Scope::SeqCell { bracketed } => c == '|' || c == ';' || (bracketed && c == ']'),
        Scope::TabCell { bracketed } => c == '|' || (bracketed && c == ']'),
        Scope::BulletCell { bracketed } => c == '>' || c == '|' || (bracketed && c == ']'),
    }
}

fn pos_at(cur: Cursor) -> (p: Position)
    ensures
        p.line == cur.line && p.column == cur.column,
{
    Position { line: cur.line, column: cur.column }
}

fn fail<T>(cur: Cursor, kind: ParseErrorKind) -> (r: Result<T, ParseError>)
    ensures
        r is Err,
{
    Err(ParseError { position: Position { line: cur.line, column: cur.column }, kind })
}

/// A vector never holds more elements than `usize` can count.
proof fn lemma_len_fits<T>(chars: &Vec<T>)
    ensures
        chars@.len() <= usize::MAX,
{
    broadcast use vstd::std_specs::vec::axiom_spec_len;

    assert(vstd::std_specs::vec::spec_vec_len(chars) == chars@.len());
}

fn advance(chars: &Vec<char>, cur: Cursor) -> (r: Cursor)
    requires
        cur.i < chars@.len(),
    ensures
        r.i == cur.i + 1,
{
    proof {
        lemma_len_fits(chars);
    }
    if chars[cur.i] == '\n' {
        Cursor { i: cur.i + 1, line: inc_sat(cur.line), column: 1 }
    } else {
        Cursor { i: cur.i + 1, line: cur.line, column: inc_sat(cur.column) }
    }
}

fn skip_ws(chars: &Vec<char>, cur0: Cursor) -> (r: Cursor)
    requires
        cur0.i <= chars@.len(),
    ensures
        cur0.i <= r.i <= chars@.len(),
        cur0.i < chars@.len() && !is_space_char(chars@[cur0.i as int]) ==> r == cur0,
{
    let mut cur = cur0;
    while cur.i < chars.len() && is_space(chars[cur.i])
        invariant
            cur0.i <= cur.i <= chars@.len(),
            cur0.i < chars@.len() && !is_space_char(chars@[cur0.i as int]) ==> cur == cur0,
        decreases chars@.len() - cur.i,
    {
        cur = advance(chars, cur);
    }
    cur
}

/// Whether the characters at `i` begin the chain operator `::` (and not an
/// escaped colon).
fn at_chain(chars: &Vec<char>, i: usize) -> (r: bool)
    requires
        i <= chars@.len(),
    ensures
        r == (i + 1 < chars@.len() && chars@[i as int] == ':' && chars@[i as int + 1] == ':'),
{
    proof {
        lemma_len_fits(chars);
    }
    i < chars.len() && i + 1 < chars.len() && chars[i] == ':' && chars[i + 1] == ':'
}

/// Whether the character at `i`, seen from inside a text run, continues the
/// run (so that preceding whitespace collapses to one space) rather than
/// ending the term.
fn continues_run(chars: &Vec<char>, i: usize) -> bool
    requires
        i <= chars@.len(),
{
    proof {
        lemma_len_fits(chars);
    }
    if i >= chars.len() {
        return false;
    }
    let c = chars[i];
    // An escape pair continues the run, whatever its head.
    if (is_escapable(c) || c == 'n') && i + 1 < chars.len() && chars[i + 1] == '`' {
        return true;
    }
    // Doubled delimiters are literal text.
    if (c == '<' || c == '>' || c == '|') && i + 1 < chars.len() && chars[i + 1] == c {
        return true;
    }
    // A raw text block is a text piece.
    if c == '<' && i + 1 < chars.len() && chars[i + 1] == '#' {
        return true;
    }
    if c == '"' || c == '\\' || c == '#' {
        return true;
    }
    if is_space(c) || is_escapable(c) {
        return false;
    }
    true
}

/// Parses the flags and content of a raw text block, whose opening `<#`
/// stands at the cursor, and returns the reformatted content.
fn parse_raw_block(chars: &Vec<char>, cur0: Cursor) -> (r: Result<(Vec<char>, Cursor), ParseError>)
    requires
        cur0.i + 1 < chars@.len(),
        chars@[cur0.i as int] == '<',
        chars@[cur0.i as int + 1] == '#',
    ensures
        r is Ok ==> cur0.i < r->Ok_0.1.i <= chars@.len(),
    decreases chars@.len() - cur0.i, 4int,
{
    let start = cur0;
    let mut cur = advance(chars, cur0);
    cur = advance(chars, cur);
    let mut flags = BlockFlags::plain();
    loop
        invariant
            cur0.i < cur.i <= chars@.len(),
        decreases chars@.len() - cur.i,
    {
        if cur.i >= chars.len() {
            return fail(start, ParseErrorKind::UnterminatedConstruct);
        }
        let c = chars[cur.i];
        if c == '>' {
            cur = advance(chars, cur);
            break;
        } else if c == ' ' {
            cur = advance(chars, cur);
        } else if c == 'r' {
            flags.exact = true;
            cur = advance(chars, cur);
        } else if c == 'f' {
            flags.clear_tail = true;
            cur = advance(chars, cur);
        } else if c == 'h' {
            flags.drop_head = true;
            cur = advance(chars, cur);
        } else if c == 'x' {
            flags.dedent = true;
            cur = advance(chars, cur);
        } else if c == 't' {
            flags.trim_tails = true;
            cur = advance(chars, cur);
        } else if c == 'l' {
            flags.strip_indent = true;
            cur = advance(chars, cur);
        } else if c == 'n' {
            flags.collapse_lines = true;
            cur = advance(chars, cur);
        } else {
            return fail(cur, ParseErrorKind::UnknownBlockFlag);
        }
    }
    let mut content: Vec<char> = Vec::new();
    loop
        invariant
            cur0.i < cur.i <= chars@.len(),
        decreases chars@.len() - cur.i,
    {
        if cur.i >= chars.len() {
            return fail(start, ParseErrorKind::UnterminatedConstruct);
        }
        if cur.i + 1 < chars.len() && cur.i + 2 < chars.len() && chars[cur.i] == '<'
            && chars[cur.i + 1] == '#' && chars[cur.i + 2] == '>' {
            cur = advance(chars, cur);
            cur = advance(chars, cur);
            cur = advance(chars, cur);
            break;
        }
        content.push(chars[cur.i]);
        cur = advance(chars, cur);
    }
    Ok((normalize_block(&content, flags), cur))
}

/// Scans one text run: words, escape pairs, literalized doubled
/// delimiters, glue and comments, quoted and verbatim segments, and raw
/// text blocks, with interior whitespace collapsed to single spaces. The
/// run ends before whatever cannot belong to it; trailing whitespace is
/// left unconsumed. The run may come out empty when it held only comments.
fn parse_text_run(chars: &Vec<char>, cur0: Cursor, scope: Scope, word_mode: bool) -> (r: Result<
    (Vec<char>, Cursor),
    ParseError,
>)
    requires
        cur0.i <= chars@.len(),
    ensures
        r is Ok ==> cur0.i <= r->Ok_0.1.i <= chars@.len(),
        cur0.i == 0 && !word_mode && chars@.len() == 1 && plain_char(chars@[0]) ==> r is Ok
            && r->Ok_0.0@ == chars@ && r->Ok_0.1.i == 1,
        cur0.i == 0 && !word_mode && escape_pair_source(chars@) ==> r is Ok && r->Ok_0.0@
            == escape_pair_result(chars@) && r->Ok_0.1.i == 2,
    decreases chars@.len() - cur0.i, 5int,
{
    let mut out: Vec<char> = Vec::new();
    let mut cur = cur0;
    loop
        invariant
            cur0.i <= cur.i <= chars@.len(),
            cur0.i == 0 && !word_mode && chars@.len() == 1 && plain_char(chars@[0]) ==> (cur.i
                == 0 && out@.len() == 0) || (cur.i == 1 && out@ == chars@),
            cur0.i == 0 && !word_mode && escape_pair_source(chars@) ==> (cur.i == 0
                && out@.len() == 0) || (cur.i == 2 && out@ == escape_pair_result(chars@)),
        ensures
            cur0.i <= cur.i <= chars@.len(),
            cur0.i == 0 && !word_mode && chars@.len() == 1 && plain_char(chars@[0]) ==> cur.i
                == 1 && out@ == chars@,
            cur0.i == 0 && !word_mode && escape_pair_source(chars@) ==> cur.i == 2 && out@
                == escape_pair_result(chars@),
        decreases chars@.len() - cur.i,
    {
        if cur.i >= chars.len() {
            break;
        }
        let c = chars[cur.i];
        // Interior whitespace: collapse to one space if the run goes on,
        // else leave it for the caller and end the run.
        if is_space(c) {
            if word_mode {
                break;
            }
            let after = skip_ws(chars, advance(chars, cur));
            if continues_run(chars, after.i) {
                out.push(' ');
                cur = after;
                continue;
            } else {
                break;
            }
        }
        // Escape pairs: a reserved character (or `n`) trailed by a
        // backtick yields the literal character (or a newline).
        if (is_escapable(c) || c == 'n') && cur.i + 1 < chars.len() && chars[cur.i + 1] == '`' {
            out.push(if c == 'n' {
                '\n'
            } else {
                c
            });
            cur = advance(chars, cur);
            cur = advance(chars, cur);
            proof {
                if cur0.i == 0 && !word_mode && escape_pair_source(chars@) {
                    assert(out@ =~= escape_pair_result(chars@));
                }
            }
            continue;
        }
        // A backtick that completes no escape pair.
        if c == '`' {
            return fail(cur, ParseErrorKind::IllegalEscape);
        }
        // Doubled or tripled delimiters are literalized into text.
        if (c == '<' || c == '>' || c == '|') && cur.i + 1 < chars.len() && chars[cur.i + 1] == c {
            let run_from = cur.i;
            out.push(c);
            cur = advance(chars, cur);
            while cur.i < chars.len() && chars[cur.i] == c
                invariant
                    run_from < cur.i <= chars@.len(),
                    cur0.i <= run_from,
                decreases chars@.len() - cur.i,
            {
                out.push(c);
                cur = advance(chars, cur);
            }
            continue;
        }
        // The glue and comment marker.
        if c == '#' {
            if cur.i + 1 >= chars.len() || is_space(chars[cur.i + 1]) {
                // A comment runs to the end of the line.
                let run_from = cur.i;
                cur = advance(chars, cur);
                while cur.i < chars.len() && chars[cur.i] != '\n'
                    invariant
                        run_from < cur.i <= chars@.len(),
                        cur0.i <= run_from,
                    decreases chars@.len() - cur.i,
                {
                    cur = advance(chars, cur);
                }
                continue;
            }
            let d = chars[cur.i + 1];
            let pair_ok = (is_escapable(d) || d == 'n') && cur.i + 2 < chars.len() && chars[cur.i
                + 2] == '`';
            let double_ok = (d == '<' || d == '>' || d == '|') && cur.i + 2 < chars.len()
                && chars[cur.i + 2] == d;
            if pair_ok || double_ok || d == '#' || d == '"' || !is_escapable(d) {
                // Glue: the marker vanishes and the neighbours merge.
                cur = advance(chars, cur);
                continue;
            }
            return fail(cur, ParseErrorKind::IllegalHash);
        }
        // A quoted segment is taken exactly.
        if c == '"' {
            let qstart = cur;
            cur = advance(chars, cur);
            loop
                invariant
                    qstart.i < cur.i <= chars@.len(),
                    cur0.i <= qstart.i,
                    !(cur0.i == 0 && !word_mode && chars@.len() == 1 && plain_char(chars@[0])),
                    !(cur0.i == 0 && !word_mode && escape_pair_source(chars@)),
                decreases chars@.len() - cur.i,
            {
                if cur.i >= chars.len() {
                    return fail(qstart, ParseErrorKind::UnterminatedConstruct);
                }
                let q = chars[cur.i];
                if q == '"' {
                    cur = advance(chars, cur);
                    break;
                }
                out.push(q);
                cur = advance(chars, cur);
            }
            continue;
        }
        // A verbatim segment between backslashes is taken exactly; a raw
        // line break inside it is an error.
        if c == '\\' {
            let vstart = cur;
            cur = advance(chars, cur);
            loop
                invariant
                    vstart.i < cur.i <= chars@.len(),
                    cur0.i <= vstart.i,
                    !(cur0.i == 0 && !word_mode && chars@.len() == 1 && plain_char(chars@[0])),
                    !(cur0.i == 0 && !word_mode && escape_pair_source(chars@)),
                decreases chars@.len() - cur.i,
            {
                if cur.i >= chars.len() {
                    return fail(vstart, ParseErrorKind::UnterminatedConstruct);
                }
                let q = chars[cur.i];
                if q == '\\' {
                    cur = advance(chars, cur);
                    break;
                }
                if q == '\n' {
                    return fail(cur, ParseErrorKind::LineBreakInVerbatim);
                }
                out.push(q);
                cur = advance(chars, cur);
            }
            continue;
        }
        // A raw text block is a text piece, merged exactly.
        if c == '<' && cur.i + 1 < chars.len() && chars[cur.i + 1] == '#' {
            match parse_raw_block(chars, cur) {
                Ok((mut piece, cur2)) => {
                    let m = piece.len();
                    let mut k: usize = 0;
                    while k < m
                        invariant
                            k <= m,
                            m == piece@.len(),
                        decreases m - k,
                    {
                        out.push(piece[k]);
                        k = k + 1;
                    }
                    cur = cur2;
                    continue;
                },
                Err(e) => {
                    return Err(e);
                },
            }
        }
        // In an argument word, a colon introduces the next argument.
        if word_mode && c == ':' {
            break;
        }
        // Any single reserved character ends the run; the caller decides
        // whether it is legal there.
        if is_escapable(c) {
            break;
        }
        // An ordinary character; a trailing backtick after it would be an
        // illegal escape.
        if cur.i + 1 < chars.len() && chars[cur.i + 1] == '`' {
            return fail(cur, ParseErrorKind::IllegalEscape);
        }
        out.push(c);
        cur = advance(chars, cur);
        proof {
            if cur0.i == 0 && !word_mode && chars@.len() == 1 && plain_char(chars@[0]) {
                assert(out@ =~= chars@);
            }
        }
    }
    Ok((out, cur))
}

/// Parses a bare tag `<name>` without arguments; used where a pattern
/// stands as an explicit argument.
fn parse_bare_tag(chars: &Vec<char>, cur0: Cursor) -> (r: Result<
    (Vec<char>, Position, Cursor),
    ParseError,
>)
    requires
        cur0.i < chars@.len(),
        chars@[cur0.i as int] == '<',
    ensures
        r is Ok ==> cur0.i < r->Ok_0.2.i <= chars@.len(),
    decreases chars@.len() - cur0.i, 2int,
{
    let start = cur0;
    let at = pos_at(cur0);
    let mut cur = advance(chars, cur0);
    let mut name: Vec<char> = Vec::new();
    loop
        invariant
            cur0.i < cur.i <= chars@.len(),
        decreases chars@.len() - cur.i,
    {
        if cur.i >= chars.len() {
            return fail(start, ParseErrorKind::UnterminatedConstruct);
        }
        let c = chars[cur.i];
        if c == '>' {
            cur = advance(chars, cur);
            break;
        }
        if is_space(c) || c == '`' || (is_escapable(c) && c != '>') {
            return fail(cur, ParseErrorKind::UnexpectedToken);
        }
        name.push(c);
        cur = advance(chars, cur);
    }
    if name.len() == 0 {
        return fail(start, ParseErrorKind::UnexpectedToken);
    }
    Ok((name, at, cur))
}

/// Parses a table in brackets: `[` content `]`.
fn parse_table_term(chars: &Vec<char>, cur0: Cursor) -> (r: Result<
    (ParsedValue, Cursor),
    ParseError,
>)
    requires
        cur0.i < chars@.len(),
        chars@[cur0.i as int] == '[',
    ensures
        r is Ok ==> cur0.i < r->Ok_0.1.i <= chars@.len(),
    decreases chars@.len() - cur0.i, 5int,
{
    let start = cur0;
    let at = pos_at(cur0);
    let cur1 = advance(chars, cur0);
    match parse_table_content(chars, cur1, true) {
        Ok((t, cur2)) => {
            if cur2.i >= chars.len() || chars[cur2.i] != ']' {
                return fail(start, ParseErrorKind::UnterminatedConstruct);
            }
            Ok((ParsedValue::Table(t, at), advance(chars, cur2)))
        },
        Err(e) => Err(e),
    }
}

/// Parses a pattern `<name>` with its explicit arguments `:arg` and a
/// chained final argument after a colon followed by whitespace.
fn parse_pattern(chars: &Vec<char>, cur0: Cursor, scope: Scope) -> (r: Result<
    (ParsedValue, Cursor),
    ParseError,
>)
    requires
        cur0.i < chars@.len(),
        chars@[cur0.i as int] == '<',
    ensures
        r is Ok ==> cur0.i < r->Ok_0.1.i <= chars@.len(),
    decreases chars@.len() - cur0.i, 5int,
{
    let (name, at, cur1) = match parse_bare_tag(chars, cur0) {
        Ok(x) => x,
        Err(e) => {
            return Err(e);
        },
    };
    let mut arguments: Vec<ParsedValue> = Vec::new();
    let mut cur = cur1;
    loop
        invariant
            cur0.i < cur.i <= chars@.len(),
        decreases chars@.len() - cur.i,
    {
        if cur.i >= chars.len() || chars[cur.i] != ':' {
            break;
        }
        if cur.i + 1 >= chars.len() || is_space(chars[cur.i + 1]) {
            // The chain operator: the rest of the enclosing expression
            // becomes the final argument.
            cur = advance(chars, cur);
            cur = skip_ws(chars, cur);
            match parse_expression(chars, cur, scope) {
                Ok((v, cur2)) => {
                    arguments.push(v);
                    cur = cur2;
                },
                Err(e) => {
                    return Err(e);
                },
            }
            break;
        }
        if chars[cur.i + 1] == ':' || chars[cur.i + 1] == '`' {
            break;
        }
        cur = advance(chars, cur);
        // One explicit argument term.
        let c = chars[cur.i];
        if c == '~' && !(cur.i + 1 < chars.len() && chars[cur.i + 1] == '`') {
            arguments.push(ParsedValue::Nil(pos_at(cur)));
            cur = advance(chars, cur);
        } else if c == '{' {
            match parse_braced(chars, cur) {
                Ok((v, cur2)) => {
                    arguments.push(v);
                    cur = cur2;
                },
                Err(e) => {
                    return Err(e);
                },
            }
        } else if c == '[' {
            match parse_table_term(chars, cur) {
                Ok((v, cur2)) => {
                    arguments.push(v);
                    cur = cur2;
                },
                Err(e) => {
                    return Err(e);
                },
            }
        } else if c == '<' && !(cur.i + 1 < chars.len() && (chars[cur.i + 1] == '#' || chars[cur.i
            + 1] == '<' || chars[cur.i + 1] == '`')) {
            match parse_bare_tag(chars, cur) {
                Ok((nm, tat, cur2)) => {
                    arguments.push(ParsedValue::Pattern(
                        PatternValue { name: nm, arguments: Vec::new() },
                        tat,
                    ));
                    cur = cur2;
                },
                Err(e) => {
                    return Err(e);
                },
            }
        } else {
            let at2 = pos_at(cur);
            match parse_text_run(chars, cur, scope, true) {
                Ok((txt, cur2)) => {
                    if txt.len() == 0 {
                        arguments.push(ParsedValue::Nil(at2));
                    } else {
                        arguments.push(ParsedValue::Text(txt, at2));
                    }
                    if cur2.i == cur.i {
                        break;
                    }
                    cur = cur2;
                },
                Err(e) => {
                    return Err(e);
                },
            }
        }
    }
    Ok((ParsedValue::Pattern(PatternValue { name, arguments }, at), cur))
}

/// Parses one composition segment: terms separated by whitespace, with the
/// join operator suppressing separation and merging adjacent bare text
/// runs. Returns the single value itself when the segment holds exactly
/// one, and nil when it holds none.
fn parse_segment(chars: &Vec<char>, cur0: Cursor, scope: Scope) -> (r: Result<
    (ParsedValue, Cursor),
    ParseError,
>)
    requires
        cur0.i <= chars@.len(),
    ensures
        r is Ok ==> cur0.i <= r->Ok_0.1.i <= chars@.len(),
        chars@.len() == 0 ==> r is Ok && r->Ok_0.0 is Nil,
        cur0.i == 0 && chars@.len() == 1 && plain_char(chars@[0]) ==> r is Ok && r->Ok_0.0
            is Text && r->Ok_0.0->Text_0@ == chars@ && r->Ok_0.1.i == 1,
        cur0.i == 0 && escape_pair_source(chars@) ==> r is Ok && r->Ok_0.0 is Text
            && r->Ok_0.0->Text_0@ == escape_pair_result(chars@) && r->Ok_0.1.i == 2,
    decreases chars@.len() - cur0.i, 8int,
{
    let mut cur = skip_ws(chars, cur0);
    let comp_at = pos_at(cur);
    let mut elements: Vec<Element> = Vec::new();
    let mut sep_ws = false;
    let mut sep_join = false;
    let mut last_bare = false;
    loop
        invariant
            cur0.i <= cur.i <= chars@.len(),
            chars@.len() == 0 ==> elements@.len() == 0,
            cur0.i == 0 && chars@.len() == 1 && plain_char(chars@[0]) ==> (cur.i == 0
                && elements@.len() == 0) || (cur.i == 1 && elements@.len() == 1
                && solid_text_element(elements@[0], chars@)),
            cur0.i == 0 && escape_pair_source(chars@) ==> (cur.i == 0 && elements@.len() == 0)
                || (cur.i == 2 && elements@.len() == 1 && solid_text_element(
                elements@[0],
                escape_pair_result(chars@),
            )),
        ensures
            cur0.i <= cur.i <= chars@.len(),
            chars@.len() == 0 ==> elements@.len() == 0,
            cur0.i == 0 && chars@.len() == 1 && plain_char(chars@[0]) ==> cur.i == 1
                && elements@.len() == 1 && solid_text_element(elements@[0], chars@),
            cur0.i == 0 && escape_pair_source(chars@) ==> cur.i == 2 && elements@.len() == 1
                && solid_text_element(elements@[0], escape_pair_result(chars@)),
        decreases chars@.len() - cur.i,
    {
        let prev_i = cur.i;
        let wcur = skip_ws(chars, cur);
        if wcur.i > cur.i && elements.len() > 0 {
            sep_ws = true;
        }
        cur = wcur;
        if cur.i >= chars.len() {
            break;
        }
        let c = chars[cur.i];
        let pair = (is_escapable(c) || c == 'n') && cur.i + 1 < chars.len() && chars[cur.i + 1]
            == '`';
        let double = (c == '<' || c == '>' || c == '|') && cur.i + 1 < chars.len() && chars[cur.i
            + 1] == c;
        let rawblock = c == '<' && cur.i + 1 < chars.len() && chars[cur.i + 1] == '#';
        if !pair && !double {
            if is_scope_end(scope, c) {
                break;
            }
            if c == ':' && cur.i + 1 < chars.len() && chars[cur.i + 1] == ':' {
                break;
            }
        }
        if !pair && c == '~' {
            cur = advance(chars, cur);
            sep_join = true;
            continue;
        }
        let mut term: ParsedValue;
        let mut bare = false;
        if !pair && !double && !rawblock && c == '{' {
            match parse_braced(chars, cur) {
                Ok((v, cur2)) => {
                    term = v;
                    cur = cur2;
                },
                Err(e) => {
                    return Err(e);
                },
            }
        } else if !pair && !double && !rawblock && c == '[' {
            match parse_table_term(chars, cur) {
                Ok((v, cur2)) => {
                    term = v;
                    cur = cur2;
                },
                Err(e) => {
                    return Err(e);
                },
            }
        } else if !pair && !double && !rawblock && c == '<' {
            match parse_pattern(chars, cur, scope) {
                Ok((v, cur2)) => {
                    term = v;
                    cur = cur2;
                },
                Err(e) => {
                    return Err(e);
                },
            }
        } else if !pair && !double && (c == ':' || c == ';' || c == '}' || c == ']' || c == '>'
            || c == '|') {
            return fail(cur, ParseErrorKind::UnexpectedToken);
        } else {
            // A text run.
            let at2 = pos_at(cur);
            match parse_text_run(chars, cur, scope, false) {
                Ok((txt, cur2)) => {
                    if cur2.i == cur.i {
                        break;
                    }
                    cur = cur2;
                    if txt.len() == 0 {
                        // Only comments: nothing to add.
                        continue;
                    }
                    term = ParsedValue::Text(txt, at2);
                    bare = true;
                },
                Err(e) => {
                    return Err(e);
                },
            }
        }
        // Add the term, separating, joining or merging as recorded.
        if elements.len() == 0 {
            elements.push(Element::Solid(term));
        } else if sep_join && bare && last_bare {
            let prev = elements.pop().unwrap();
            match (prev, term) {
                (Element::Solid(ParsedValue::Text(mut ptxt, ppos)), ParsedValue::Text(
                    ntxt,
                    _,
                )) => {
                    let m = ntxt.len();
                    let mut k: usize = 0;
                    while k < m
                        invariant
                            k <= m,
                            m == ntxt@.len(),
                        decreases m - k,
                    {
                        ptxt.push(ntxt[k]);
                        k = k + 1;
                    }
                    elements.push(Element::Solid(ParsedValue::Text(ptxt, ppos)));
                },
                (p, t) => {
                    elements.push(p);
                    elements.push(Element::Solid(t));
                },
            }
        } else if sep_join {
            elements.push(Element::Solid(term));
        } else if sep_ws {
            elements.push(Element::Space);
            elements.push(Element::Solid(term));
        } else {
            elements.push(Element::Solid(term));
        }
        last_bare = bare;
        sep_ws = false;
        sep_join = false;
        // Every term consumes input; a pass that consumed none ends the
        // segment.
        if cur.i <= prev_i {
            break;
        }
    }
    if elements.len() == 0 {
        Ok((ParsedValue::Nil(comp_at), cur))
    } else if elements.len() == 1 {
        let only = elements.pop().unwrap();
        match only {
            Element::Solid(v) => Ok((v, cur)),
            Element::Space => Ok((ParsedValue::Nil(comp_at), cur)),
        }
    } else {
        Ok((ParsedValue::Composition(elements, comp_at), cur))
    }
}

/// Parses a full expression: a segment, possibly extended by the chain
/// operator, which applies a bare pattern to the chained segments as its
/// arguments.
fn parse_expression(chars: &Vec<char>, cur0: Cursor, scope: Scope) -> (r: Result<
    (ParsedValue, Cursor),
    ParseError,
>)
    requires
        cur0.i <= chars@.len(),
    ensures
        r is Ok ==> cur0.i <= r->Ok_0.1.i <= chars@.len(),
        chars@.len() == 0 ==> r is Ok && r->Ok_0.0 is Nil,
        cur0.i == 0 && chars@.len() == 1 && plain_char(chars@[0]) ==> r is Ok && r->Ok_0.0
            is Text && r->Ok_0.0->Text_0@ == chars@ && r->Ok_0.1.i == 1,
        cur0.i == 0 && escape_pair_source(chars@) ==> r is Ok && r->Ok_0.0 is Text
            && r->Ok_0.0->Text_0@ == escape_pair_result(chars@) && r->Ok_0.1.i == 2,
    decreases chars@.len() - cur0.i, 9int,
{
    let (first, cur1) = match parse_segment(chars, cur0, scope) {
        Ok(x) => x,
        Err(e) => {
            return Err(e);
        },
    };
    let mut cur = cur1;
    if !at_chain(chars, cur.i) {
        return Ok((first, cur));
    }
    match first {
        ParsedValue::Pattern(p, at) => {
            if p.arguments.len() > 0 {
                return fail(cur, ParseErrorKind::UnexpectedToken);
            }
            let mut arguments: Vec<ParsedValue> = Vec::new();
            loop
                invariant
                    cur0.i <= cur.i <= chars@.len(),
                decreases chars@.len() - cur.i,
            {
                if !at_chain(chars, cur.i) {
                    break;
                }
                cur = advance(chars, cur);
                cur = advance(chars, cur);
                match parse_segment(chars, cur, scope) {
                    Ok((seg, cur2)) => {
                        arguments.push(seg);
                        cur = cur2;
                    },
                    Err(e) => {
                        return Err(e);
                    },
                }
            }
            Ok((ParsedValue::Pattern(PatternValue { name: p.name, arguments }, at), cur))
        },
        _ => fail(cur, ParseErrorKind::UnexpectedToken),
    }
}

/// Whether brace content reads as a dictionary: a key reaches a colon
/// before any structural character does.
fn looks_like_dictionary(chars: &Vec<char>, j0: usize) -> bool
    requires
        j0 <= chars@.len(),
{
    let mut j = j0;
    while j < chars.len()
        invariant
            j <= chars@.len(),
        decreases chars@.len() - j,
    {
        let c = chars[j];
        if c == ':' {
            if j + 1 < chars.len() && chars[j + 1] == '`' {
                j = j + 2;
                continue;
            }
            if j + 1 < chars.len() && chars[j + 1] == ':' {
                return false;
            }
            return true;
        }
        if (is_escapable(c) || c == 'n') && j + 1 < chars.len() && chars[j + 1] == '`' {
            j = j + 2;
            continue;
        }
        if c == '"' || c == '`' || is_escapable(c) {
            return false;
        }
        j = j + 1;
    }
    false
}

fn vecs_eq(a: &Vec<char>, b: &Vec<char>) -> (r: bool)
    ensures
        r == (a@ == b@),
{
    let n = a.len();
    if b.len() != n {
        return false;
    }
    let mut i: usize = 0;
    while i < n
        invariant
            i <= n,
            n == a@.len(),
            n == b@.len(),
            forall|k: int| 0 <= k < i ==> a@[k] == b@[k],
        decreases n - i,
    {
        if a[i] != b[i] {
            return false;
        }
        i = i + 1;
    }
    proof {
        assert(a@ =~= b@);
    }
    true
}

fn contains_key(entries: &Vec<(Vec<char>, ParsedValue)>, key: &Vec<char>) -> (r: bool)
    ensures
        r == exists|k: int| 0 <= k < entries@.len() && entries@[k].0@ == key@,
{
    let n = entries.len();
    let mut i: usize = 0;
    while i < n
        invariant
            i <= n,
            n == entries@.len(),
            forall|k: int| 0 <= k < i ==> entries@[k].0@ != key@,
        decreases n - i,
    {
        if vecs_eq(&entries[i].0, key) {
            return true;
        }
        i = i + 1;
    }
    false
}

/// Parses ordered `key: value` entries separated by `;`, with an optional
/// trailing `;`; keys must be unique.
fn parse_dictionary_entries(chars: &Vec<char>, cur0: Cursor, braced: bool) -> (r: Result<
    (DictionaryValue, Cursor),
    ParseError,
>)
    requires
        cur0.i <= chars@.len(),
    ensures
        r is Ok ==> cur0.i <= r->Ok_0.1.i <= chars@.len(),
        r is Ok && !braced && chars@.len() == 0 ==> r->Ok_0.0.entries_spec().len() == 0,
        !braced && chars@.len() == 0 ==> r is Ok,
    decreases chars@.len() - cur0.i, 9int,
{
    let mut entries: Vec<(Vec<char>, ParsedValue)> = Vec::new();
    let mut cur = cur0;
    loop
        invariant
            cur0.i <= cur.i <= chars@.len(),
            chars@.len() == 0 ==> entries@.len() == 0,
            forall|a: int, b: int|
                0 <= a < b < entries@.len() ==> entries@[a].0@ != entries@[b].0@,
        decreases chars@.len() - cur.i,
    {
        let prev_i = cur.i;
        cur = skip_ws(chars, cur);
        if cur.i >= chars.len() {
            if braced {
                return fail(cur, ParseErrorKind::UnterminatedConstruct);
            }
            break;
        }
        if braced && chars[cur.i] == '}' {
            break;
        }
        let kstart = cur;
        let (key, cur2) = match parse_text_run(chars, cur, Scope::Top, true) {
            Ok(x) => x,
            Err(e) => {
                return Err(e);
            },
        };
        cur = cur2;
        if key.len() == 0 {
            return fail(kstart, ParseErrorKind::UnexpectedToken);
        }
        cur = skip_ws(chars, cur);
        if cur.i >= chars.len() || chars[cur.i] != ':' {
            return fail(cur, ParseErrorKind::UnexpectedToken);
        }
        cur = advance(chars, cur);
        let (v, cur3) = match parse_expression(chars, cur, Scope::DictValue { braced }) {
            Ok(x) => x,
            Err(e) => {
                return Err(e);
            },
        };
        cur = cur3;
        if contains_key(&entries, &key) {
            return fail(kstart, ParseErrorKind::DuplicateKey);
        }
        entries.push((key, v));
        if cur.i < chars.len() && chars[cur.i] == ';' {
            cur = advance(chars, cur);
            // Every entry consumes input; a pass that consumed none is
            // malformed.
            if cur.i <= prev_i {
                return fail(cur, ParseErrorKind::UnexpectedToken);
            }
            continue;
        }
        if braced && cur.i < chars.len() && chars[cur.i] == '}' {
            break;
        }
        if cur.i >= chars.len() {
            if braced {
                return fail(cur, ParseErrorKind::UnterminatedConstruct);
            }
            break;
        }
        return fail(cur, ParseErrorKind::UnexpectedToken);
    }
    Ok((DictionaryValue::new(entries), cur))
}

/// Parses brace content: an empty or keyed dictionary, or a grouped
/// expression.
fn parse_braced(chars: &Vec<char>, cur0: Cursor) -> (r: Result<(ParsedValue, Cursor), ParseError>)
    requires
        cur0.i < chars@.len(),
        chars@[cur0.i as int] == '{',
    ensures
        r is Ok ==> cur0.i < r->Ok_0.1.i <= chars@.len(),
    decreases chars@.len() - cur0.i, 5int,
{
    let start = cur0;
    let at = pos_at(cur0);
    let cur1 = advance(chars, cur0);
    let after = skip_ws(chars, cur1);
    if after.i < chars.len() && chars[after.i] == '}' {
        return Ok((
            ParsedValue::Dictionary(DictionaryValue::new(Vec::new()), at),
            advance(chars, after),
        ));
    }
    if looks_like_dictionary(chars, cur1.i) {
        match parse_dictionary_entries(chars, cur1, true) {
            Ok((d, cur2)) => {
                if cur2.i >= chars.len() || chars[cur2.i] != '}' {
                    return fail(start, ParseErrorKind::UnterminatedConstruct);
                }
                Ok((ParsedValue::Dictionary(d, at), advance(chars, cur2)))
            },
            Err(e) => Err(e),
        }
    } else {
        match parse_expression(chars, cur1, Scope::Brace) {
            Ok((v, cur2)) => {
                if cur2.i >= chars.len() || chars[cur2.i] != '}' {
                    return fail(start, ParseErrorKind::UnterminatedConstruct);
                }
                Ok((v, advance(chars, cur2)))
            },
            Err(e) => Err(e),
        }
    }
}

/// Parses table content in any of the three notations, chosen by the first
/// significant character: a framing bar begins tabular notation, a bullet
/// begins bullet notation, anything else sequential notation.
fn parse_table_content(chars: &Vec<char>, cur0: Cursor, bracketed: bool) -> (r: Result<
    (TableValue, Cursor),
    ParseError,
>)
    requires
        cur0.i <= chars@.len(),
    ensures
        r is Ok ==> cur0.i <= r->Ok_0.1.i <= chars@.len(),
        chars@.len() == 0 ==> r is Ok && r->Ok_0.0.rows_spec() == 0
            && r->Ok_0.0.columns_spec() == 0 && r->Ok_0.0.cells_spec().len() == 0,
        r is Ok && cur0.i == 0 && !bracketed && chars@.len() > 0 && !is_space_char(chars@[0])
            ==> r->Ok_0.0.rows_spec() >= 1,
    decreases chars@.len() - cur0.i, 12int,
{
    let cur = skip_ws(chars, cur0);
    if cur.i >= chars.len() || (bracketed && chars[cur.i] == ']') {
        return Ok((TableValue::new(0, 0, Vec::new()), cur));
    }
    let c = chars[cur.i];
    let pair = (is_escapable(c) || c == 'n') && cur.i + 1 < chars.len() && chars[cur.i + 1] == '`';
    let double = (c == '<' || c == '>' || c == '|') && cur.i + 1 < chars.len() && chars[cur.i + 1]
        == c;
    if c == '|' && !pair && !double {
        parse_tabular(chars, cur, bracketed)
    } else if c == '>' && !pair && !double {
        parse_bullet(chars, cur, bracketed)
    } else {
        parse_sequential(chars, cur, bracketed)
    }
}

/// Sequential notation: cells separated by `|`, rows by `;`, an optional
/// trailing `;`, and every row with the same cell count.
fn parse_sequential(chars: &Vec<char>, cur0: Cursor, bracketed: bool) -> (r: Result<
    (TableValue, Cursor),
    ParseError,
>)
    requires
        cur0.i <= chars@.len(),
    ensures
        r is Ok ==> cur0.i <= r->Ok_0.1.i <= chars@.len(),
        r is Ok && cur0.i < chars@.len() && !is_space_char(chars@[cur0.i as int]) && !(
        bracketed && chars@[cur0.i as int] == ']') ==> r->Ok_0.0.rows_spec() >= 1,
    decreases chars@.len() - cur0.i, 11int,
{
    let mut cells: Vec<ParsedValue> = Vec::new();
    let mut rows: usize = 0;
    let mut cols: usize = 0;
    let mut cur = cur0;
    loop
        invariant_except_break
            rows == 0 ==> cur == cur0,
        invariant
            cur0.i <= cur.i <= chars@.len(),
            cells@.len() == rows * cols,
            rows == 0 ==> cols == 0 && cells@.len() == 0,
            rows > 0 ==> cols >= 1,
            rows <= cells@.len(),
        ensures
            cur0.i <= cur.i <= chars@.len(),
            cells@.len() == rows * cols,
            rows == 0 ==> cols == 0 && cells@.len() == 0,
            rows > 0 ==> cols >= 1,
            cur0.i < chars@.len() && !is_space_char(chars@[cur0.i as int]) && !(bracketed
                && chars@[cur0.i as int] == ']') ==> rows >= 1,
        decreases chars@.len() - cur.i,
    {
        let prev_i = cur.i;
        cur = skip_ws(chars, cur);
        if cur.i >= chars.len() || (bracketed && chars[cur.i] == ']') {
            break;
        }
        let mut row_cells: usize = 0;
        loop
            invariant
                cur0.i <= cur.i <= chars@.len(),
                cells@.len() == rows * cols + row_cells,
                row_cells <= cells@.len(),
            decreases chars@.len() - cur.i,
        {
            cur = skip_ws(chars, cur);
            if cur.i >= chars.len() || chars[cur.i] == '|' || chars[cur.i] == ';' || (bracketed
                && chars[cur.i] == ']') {
                return fail(cur, ParseErrorKind::BlankTableCell);
            }
            let cprev = cur.i;
            match parse_expression(chars, cur, Scope::SeqCell { bracketed }) {
                Ok((v, cur2)) => {
                    if cur2.i == cprev {
                        return fail(cur, ParseErrorKind::BlankTableCell);
                    }
                    cur = cur2;
                    cells.push(v);
                    proof {
                        lemma_len_fits(&cells);
                    }
                    row_cells = row_cells + 1;
                },
                Err(e) => {
                    return Err(e);
                },
            }
            if cur.i < chars.len() && chars[cur.i] == '|' {
                cur = advance(chars, cur);
                continue;
            }
            break;
        }
        if row_cells == 0 {
            return fail(cur, ParseErrorKind::BlankTableCell);
        }
        if rows == 0 {
            cols = row_cells;
        } else if row_cells != cols {
            return fail(cur, ParseErrorKind::RaggedTable);
        }
        proof {
            lemma_len_fits(&cells);
            assert((rows + 1) * cols == rows * cols + cols) by (nonlinear_arith);
            assert(rows + 1 <= (rows + 1) * cols) by (nonlinear_arith)
                requires
                    cols >= 1,
            ;
        }
        rows = rows + 1;
        if cur.i < chars.len() && chars[cur.i] == ';' {
            cur = advance(chars, cur);
            if cur.i <= prev_i {
                return fail(cur, ParseErrorKind::UnexpectedToken);
            }
            continue;
        }
        if cur.i >= chars.len() || (bracketed && chars[cur.i] == ']') {
            break;
        }
        return fail(cur, ParseErrorKind::UnexpectedToken);
    }
    Ok((TableValue::new(rows, cols, cells), cur))
}

/// Tabular notation: each row framed by a leading and trailing `|`, rows
/// separated by whitespace, and every row with the same cell count.
fn parse_tabular(chars: &Vec<char>, cur0: Cursor, bracketed: bool) -> (r: Result<
    (TableValue, Cursor),
    ParseError,
>)
    requires
        cur0.i < chars@.len(),
        chars@[cur0.i as int] == '|',
    ensures
        r is Ok ==> cur0.i <= r->Ok_0.1.i <= chars@.len(),
        r is Ok ==> r->Ok_0.0.rows_spec() >= 1,
    decreases chars@.len() - cur0.i, 11int,
{
    let mut cells: Vec<ParsedValue> = Vec::new();
    let mut rows: usize = 0;
    let mut cols: usize = 0;
    let mut cur = cur0;
    loop
        invariant_except_break
            cur.i < chars@.len() && chars@[cur.i as int] == '|',
        invariant
            cur0.i <= cur.i <= chars@.len(),
            cells@.len() == rows * cols,
            rows == 0 ==> cols == 0 && cells@.len() == 0,
            rows > 0 ==> cols >= 1,
            rows <= cells@.len() + 1,
        ensures
            cur0.i <= cur.i <= chars@.len(),
            cells@.len() == rows * cols,
            rows >= 1,
            cols >= 1,
        decreases chars@.len() - cur.i,
    {
        let row_start = cur;
        cur = advance(chars, cur);
        let mut row_cells: usize = 0;
        loop
            invariant
                cur0.i <= row_start.i < cur.i <= chars@.len(),
                cells@.len() == rows * cols + row_cells,
                row_cells <= cells@.len(),
            decreases chars@.len() - cur.i,
        {
            if cur.i >= chars.len() || is_space(chars[cur.i]) || (bracketed && chars[cur.i]
                == ']') {
                // The bar just consumed closed this row.
                break;
            }
            if chars[cur.i] == '|' {
                return fail(cur, ParseErrorKind::BlankTableCell);
            }
            let cprev = cur.i;
            match parse_expression(chars, cur, Scope::TabCell { bracketed }) {
                Ok((v, cur2)) => {
                    if cur2.i == cprev {
                        return fail(cur, ParseErrorKind::BlankTableCell);
                    }
                    cur = cur2;
                    cells.push(v);
                    proof {
                        lemma_len_fits(&cells);
                    }
                    row_cells = row_cells + 1;
                },
                Err(e) => {
                    return Err(e);
                },
            }
            if cur.i >= chars.len() || chars[cur.i] != '|' {
                return fail(row_start, ParseErrorKind::UnterminatedConstruct);
            }
            cur = advance(chars, cur);
        }
        if row_cells == 0 {
            return fail(row_start, ParseErrorKind::RaggedTable);
        }
        if rows == 0 {
            cols = row_cells;
        } else if row_cells != cols {
            return fail(cur, ParseErrorKind::RaggedTable);
        }
        proof {
            lemma_len_fits(&cells);
            assert((rows + 1) * cols == rows * cols + cols) by (nonlinear_arith);
            assert(rows + 1 <= (rows + 1) * cols) by (nonlinear_arith)
                requires
                    cols >= 1,
            ;
        }
        rows = rows + 1;
        cur = skip_ws(chars, cur);
        if cur.i >= chars.len() || (bracketed && chars[cur.i] == ']') {
            break;
        }
        if chars[cur.i] != '|' {
            return fail(cur, ParseErrorKind::UnexpectedToken);
        }
    }
    Ok((TableValue::new(rows, cols, cells), cur))
}

/// Bullet notation: `>` opens a row, `|` opens a column within the open
/// row, and every row must have the same cell count.
fn parse_bullet(chars: &Vec<char>, cur0: Cursor, bracketed: bool) -> (r: Result<
    (TableValue, Cursor),
    ParseError,
>)
    requires
        cur0.i < chars@.len(),
        chars@[cur0.i as int] == '>',
        !(cur0.i + 1 < chars@.len() && chars@[cur0.i as int + 1] == '`'),
        !(cur0.i + 1 < chars@.len() && chars@[cur0.i as int + 1] == '>'),
    ensures
        r is Ok ==> cur0.i <= r->Ok_0.1.i <= chars@.len(),
        r is Ok ==> r->Ok_0.0.rows_spec() >= 1,
    decreases chars@.len() - cur0.i, 11int,
{
    let mut cells: Vec<ParsedValue> = Vec::new();
    let mut rows: usize = 0;
    let mut cols: usize = 0;
    let mut row_cells: usize = 0;
    let mut row_open = false;
    let mut cur = cur0;
    loop
        invariant_except_break
            row_open || cur == cur0,
        invariant
            cur0.i < chars@.len(),
            chars@[cur0.i as int] == '>',
            cur0.i <= cur.i <= chars@.len(),
            cells@.len() == rows * cols + row_cells,
            rows == 0 ==> cols == 0,
            rows > 0 ==> cols >= 1,
            !row_open ==> row_cells == 0,
            row_cells <= cells@.len(),
            rows <= cells@.len(),
        ensures
            cur0.i <= cur.i <= chars@.len(),
            cells@.len() == rows * cols + row_cells,
            rows == 0 ==> cols == 0,
            rows > 0 ==> cols >= 1,
            !row_open ==> row_cells == 0,
            row_open,
        decreases chars@.len() - cur.i,
    {
        let prev_i = cur.i;
        cur = skip_ws(chars, cur);
        if cur.i >= chars.len() || (bracketed && chars[cur.i] == ']') {
            break;
        }
        let c = chars[cur.i];
        let pair = (is_escapable(c) || c == 'n') && cur.i + 1 < chars.len() && chars[cur.i + 1]
            == '`';
        let double = (c == '<' || c == '>' || c == '|') && cur.i + 1 < chars.len() && chars[cur.i
            + 1] == c;
        if c == '>' && !pair && !double {
            if row_open && row_cells == 0 {
                return fail(cur, ParseErrorKind::BlankTableCell);
            }
            if row_open {
                if rows == 0 {
                    cols = row_cells;
                } else if row_cells != cols {
                    return fail(cur, ParseErrorKind::RaggedTable);
                }
                proof {
                    lemma_len_fits(&cells);
                    assert((rows + 1) * cols == rows * cols + cols) by (nonlinear_arith);
                    assert(rows + 1 <= (rows + 1) * cols) by (nonlinear_arith)
                        requires
                            cols >= 1,
                    ;
                }
                rows = rows + 1;
            }
            row_open = true;
            row_cells = 0;
            cur = advance(chars, cur);
            continue;
        }
        if c == '|' && !pair && !double {
            if !row_open || row_cells == 0 {
                return fail(cur, ParseErrorKind::BlankTableCell);
            }
            cur = advance(chars, cur);
            cur = skip_ws(chars, cur);
            if cur.i >= chars.len() || (bracketed && chars[cur.i] == ']') {
                return fail(cur, ParseErrorKind::BlankTableCell);
            }
            let d = chars[cur.i];
            let dpair = (is_escapable(d) || d == 'n') && cur.i + 1 < chars.len() && chars[cur.i
                + 1] == '`';
            let ddouble = (d == '<' || d == '>' || d == '|') && cur.i + 1 < chars.len()
                && chars[cur.i + 1] == d;
            if (d == '>' || d == '|') && !dpair && !ddouble {
                return fail(cur, ParseErrorKind::BlankTableCell);
            }
            let cprev = cur.i;
            match parse_expression(chars, cur, Scope::BulletCell { bracketed }) {
                Ok((v, cur2)) => {
                    if cur2.i == cprev {
                        return fail(cur, ParseErrorKind::BlankTableCell);
                    }
                    cur = cur2;
                    cells.push(v);
                    proof {
                        lemma_len_fits(&cells);
                    }
                    row_cells = row_cells + 1;
                },
                Err(e) => {
                    return Err(e);
                },
            }
            continue;
        }
        if !row_open || row_cells > 0 {
            return fail(cur, ParseErrorKind::UnexpectedToken);
        }
        let cprev = cur.i;
        match parse_expression(chars, cur, Scope::BulletCell { bracketed }) {
            Ok((v, cur2)) => {
                if cur2.i == cprev {
                    return fail(cur, ParseErrorKind::BlankTableCell);
                }
                cur = cur2;
                cells.push(v);
                row_cells = row_cells + 1;
            },
            Err(e) => {
                return Err(e);
            },
        }
        // Every cell consumes input; a pass that consumed none is
        // malformed.
        if cur.i <= prev_i {
            return fail(cur, ParseErrorKind::UnexpectedToken);
        }
    }
    if row_open {
        if row_cells == 0 {
            return fail(cur, ParseErrorKind::BlankTableCell);
        }
        if rows == 0 {
            cols = row_cells;
        } else if row_cells != cols {
            return fail(cur, ParseErrorKind::RaggedTable);
        }
        proof {
            lemma_len_fits(&cells);
            assert((rows + 1) * cols == rows * cols + cols) by (nonlinear_arith);
            assert(rows + 1 <= (rows + 1) * cols) by (nonlinear_arith)
                requires
                    cols >= 1,
            ;
        }
        rows = rows + 1;
    }
    Ok((TableValue::new(rows, cols, cells), cur))
}

/// Parses one complete expression from source text into a value tree,
/// reporting a position-tagged error on malformed input.
pub fn parse_expression_str(source: &str) -> (r: Result<ParsedValue, ParseError>)
    ensures
        source@.len() == 0 ==> r is Ok && r->Ok_0 is Nil,
        source@.len() == 1 && plain_char(source@[0]) ==> r is Ok && r->Ok_0 is Text
            && r->Ok_0->Text_0@ == source@,
        escape_pair_source(source@) ==> r is Ok && r->Ok_0 is Text && r->Ok_0->Text_0@
            == escape_pair_result(source@),
{
    let chars = str_to_chars(source);
    let cur = Cursor { i: 0, line: 1, column: 1 };
    match parse_expression(&chars, cur, Scope::Top) {
        Ok((v, cur2)) => {
            let end = skip_ws(&chars, cur2);
            if end.i < chars.len() {
                return fail(end, ParseErrorKind::UnexpectedToken);
            }
            Ok(v)
        },
        Err(e) => Err(e),
    }
}

/// Parses source text as dictionary entries (without surrounding braces),
/// reporting a position-tagged error on malformed input. Keys of a parsed
/// dictionary are unique, and empty source parses to the empty dictionary.
pub fn parse_dictionary_str(source: &str) -> (r: Result<DictionaryValue, ParseError>)
    ensures
        source@.len() == 0 ==> r is Ok && r->Ok_0.entries_spec().len() == 0,
        r is Ok ==> forall|i: int, j: int|
            0 <= i < j < r->Ok_0.entries_spec().len() ==> r->Ok_0.entries_spec()[i].0@
                != r->Ok_0.entries_spec()[j].0@,
{
    let chars = str_to_chars(source);
    let cur = Cursor { i: 0, line: 1, column: 1 };
    match parse_dictionary_entries(&chars, cur, false) {
        Ok((d, cur2)) => {
            let end = skip_ws(&chars, cur2);
            if end.i < chars.len() {
                return fail(end, ParseErrorKind::UnexpectedToken);
            }
            let _count = d.len();
            Ok(d)
        },
        Err(e) => Err(e),
    }
}

/// Parses source text as table content (without surrounding brackets) in
/// any of the three notations, reporting a position-tagged error on
/// malformed input.
pub fn parse_table_str(source: &str) -> (r: Result<TableValue, ParseError>)
    ensures
        r is Ok ==> r->Ok_0.cells_spec().len() == r->Ok_0.rows_spec() * r->Ok_0.columns_spec(),
        r is Ok ==> (r->Ok_0.rows_spec() == 0 <==> r->Ok_0.columns_spec() == 0),
        source@.len() == 0 ==> r is Ok && r->Ok_0.rows_spec() == 0 && r->Ok_0.columns_spec()
            == 0,
        r is Ok && source@.len() > 0 && !is_space_char(source@[0]) ==> r->Ok_0.rows_spec()
            >= 1,
{
    let chars = str_to_chars(source);
    let cur = Cursor { i: 0, line: 1, column: 1 };
    match parse_table_content(&chars, cur, false) {
        Ok((t, cur2)) => {
            let end = skip_ws(&chars, cur2);
            if end.i < chars.len() {
                return fail(end, ParseErrorKind::UnexpectedToken);
            }
            let _total = t.len();
            let _rows = t.rows();
            let _columns = t.columns();
            Ok(t)
        },
        Err(e) => Err(e),
    }
}

} // verus!
