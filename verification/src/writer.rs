//! The transcoder: walks a parsed value tree and emits output-language
//! markup, keeping output line numbers aligned with source line numbers.
//!
//! Every emission step is modelled by a spec function over [`WriterView`];
//! each executable method is proved to realize its model exactly, so
//! transcoding is a mathematical function of the input tree.

use vstd::prelude::*;
use vstd::string::{StrSliceExecFns, StringExecFns};
use crate::chars::{chars_eq_str, string_from_chars};
use crate::error::{PreprocessorError, PreprocessorErrorView};
use crate::value::{Element, ParsedValue, PatternValue, Position, TableValue};

verus! {

broadcast use vstd::seq::axiom_seq_index_decreases, vstd::seq::axiom_seq_subrange_decreases, vstd::std_specs::vec::axiom_vec_decreases_to_view;

/// How the writer decides where to break lines: never, at a fixed margin, or
/// by mirroring the source's line numbers (the default).
#[derive(Clone, Copy, PartialEq, Eq, Structural, Debug)]
pub enum BreakMode {
    Never,
    Margin(usize),
    Mirror,
}

/// The class of the token the writer emitted last.
#[derive(Clone, Copy, PartialEq, Eq, Structural, Debug)]
pub enum LastType {
    Newline,
    Whitespace,
    Glyph,
    Caret,
    Underscore,
    Command,
}

/// The emission state: accumulated output, current column, break mode, the
/// class of the last emitted token, and the last source line accounted for.
pub struct Writer {
    output: Vec<char>,
    column: usize,
    break_mode: BreakMode,
    last_type: LastType,
    line: usize,
}

/// The mathematical shadow of [`Writer`].
#[verifier::ext_equal]
pub struct WriterView {
    pub output: Seq<char>,
    pub column: usize,
    pub break_mode: BreakMode,
    pub last_type: LastType,
    pub line: usize,
}

impl View for Writer {
    type V = WriterView;

    closed spec fn view(&self) -> WriterView {
        WriterView {
            output: self.output@,
            column: self.column,
            break_mode: self.break_mode,
            last_type: self.last_type,
            line: self.line,
        }
    }
}

/// The characters the writer treats as whitespace on input: the Unicode
/// white-space characters.
pub open spec fn is_ws_char(c: char) -> bool {
    ||| c == '\u{0009}'
    ||| c == '\u{000A}'
    ||| c == '\u{000B}'
    ||| c == '\u{000C}'
    ||| c == '\u{000D}'
    ||| c == ' '
    ||| c == '\u{0085}'
    ||| c == '\u{00A0}'
    ||| c == '\u{1680}'
    ||| c == '\u{2000}'
    ||| c == '\u{2001}'
    ||| c == '\u{2002}'
    ||| c == '\u{2003}'
    ||| c == '\u{2004}'
    ||| c == '\u{2005}'
    ||| c == '\u{2006}'
    ||| c == '\u{2007}'
    ||| c == '\u{2008}'
    ||| c == '\u{2009}'
    ||| c == '\u{200A}'
    ||| c == '\u{2028}'
    ||| c == '\u{2029}'
    ||| c == '\u{202F}'
    ||| c == '\u{205F}'
    ||| c == '\u{3000}'
}

fn is_ws(c: char) -> (r: bool)
    ensures
        r == is_ws_char(c),
{
    c == '\u{0009}' || c == '\u{000A}' || c == '\u{000B}' || c == '\u{000C}' || c
        == '\u{000D}' || c == ' ' || c == '\u{0085}' || c == '\u{00A0}' || c == '\u{1680}' || c
        == '\u{2000}' || c == '\u{2001}' || c == '\u{2002}' || c == '\u{2003}' || c
        == '\u{2004}' || c == '\u{2005}' || c == '\u{2006}' || c == '\u{2007}' || c
        == '\u{2008}' || c == '\u{2009}' || c == '\u{200A}' || c == '\u{2028}' || c
        == '\u{2029}' || c == '\u{202F}' || c == '\u{205F}' || c == '\u{3000}'
}

/// A counter step that stops at the largest representable value instead of
/// wrapping.
pub open spec fn spec_inc(x: usize) -> usize {
    if x < usize::MAX {
        (x + 1) as usize
    } else {
        x
    }
}

pub(crate) fn inc_sat(x: usize) -> (r: usize)
    ensures
        r == spec_inc(x),
{
    if x < usize::MAX {
        x + 1
    } else {
        x
    }
}

/// What one character does to the emission state: whitespace is collapsed,
/// swallowed after a caret or underscore, and preceded by an empty group
/// after a bare command; `^` and `_` record their own token class; any other
/// character is emitted literally.
pub open spec fn spec_push(w: WriterView, c: char) -> WriterView {
    if is_ws_char(c) {
        if w.last_type == LastType::Command {
            WriterView { output: w.output + seq!['{', '}', ' '], last_type: LastType::Whitespace, ..w }
        } else if w.last_type == LastType::Caret || w.last_type == LastType::Underscore {
            w
        } else if w.last_type == LastType::Whitespace || w.last_type == LastType::Newline {
            w
        } else {
            WriterView {
                output: w.output + seq![' '],
                last_type: LastType::Whitespace,
                column: spec_inc(w.column),
                ..w
            }
        }
    } else if c == '^' {
        WriterView {
            output: w.output + seq!['^'],
            last_type: LastType::Caret,
            column: spec_inc(w.column),
            ..w
        }
    } else if c == '_' {
        WriterView {
            output: w.output + seq!['_'],
            last_type: LastType::Underscore,
            column: spec_inc(w.column),
            ..w
        }
    } else {
        WriterView {
            output: w.output + seq![c],
            last_type: LastType::Glyph,
            column: spec_inc(w.column),
            ..w
        }
    }
}

/// One character of a text run: the three characters that are syntactically
/// significant in the output language's plain-text context are
/// backslash-escaped; everything else goes through [`spec_push`].
pub open spec fn spec_norm_char(w: WriterView, c: char) -> WriterView {
    if c == '$' || c == '%' || c == '&' {
        WriterView {
            output: w.output + seq!['\\', c],
            last_type: LastType::Glyph,
            column: spec_inc(spec_inc(w.column)),
            ..w
        }
    } else {
        spec_push(w, c)
    }
}

/// A whole text run, character by character.
pub open spec fn spec_norm_push(w: WriterView, s: Seq<char>) -> WriterView
    decreases s.len(),
{
    if s.len() == 0 {
        w
    } else {
        spec_norm_push(spec_norm_char(w, s[0]), s.drop_first())
    }
}

proof fn lemma_norm_push_snoc(w: WriterView, s: Seq<char>, c: char)
    ensures
        spec_norm_push(w, s.push(c)) == spec_norm_char(spec_norm_push(w, s), c),
    decreases s.len(),
{
    if s.len() == 0 {
        assert(s.push(c)[0] == c);
        assert(s.push(c).drop_first() =~= s);
        assert(spec_norm_push(w, s.push(c)) == spec_norm_push(spec_norm_char(w, c), s));
        assert(spec_norm_push(spec_norm_char(w, c), s) == spec_norm_char(w, c));
        assert(spec_norm_push(w, s) == w);
    } else {
        assert(s.push(c)[0] == s[0]);
        assert(s.push(c).drop_first() =~= s.drop_first().push(c));
        lemma_norm_push_snoc(spec_norm_char(w, s[0]), s.drop_first(), c);
        assert(spec_norm_push(w, s.push(c)) == spec_norm_push(
            spec_norm_char(w, s[0]),
            s.drop_first().push(c),
        ));
        assert(spec_norm_push(w, s) == spec_norm_push(spec_norm_char(w, s[0]), s.drop_first()));
    }
}

/// The commented-newline padding used to catch the output line counter up
/// with the source line.
pub open spec fn pct_pad(n: nat) -> Seq<char>
    decreases n,
{
    if n == 0 {
        Seq::empty()
    } else {
        pct_pad((n - 1) as nat) + seq!['%', '\n']
    }
}

/// The break opportunity taken before emitting a value that begins at
/// `at`. In `Never` mode nothing happens. In `Margin` mode a newline is
/// emitted once the column exceeds the margin. In `Mirror` mode, when the
/// value's source line lies ahead of the writer's line counter, one newline
/// is emitted (in commented form if a newline was just emitted, to avoid an
/// accidental paragraph break) and commented newlines pad the counter up to
/// the source line, so output lines track source lines one-to-one.
pub open spec fn spec_break(w: WriterView, at: Position) -> WriterView {
    match w.break_mode {
        BreakMode::Never => w,
        BreakMode::Margin(margin) => {
            if margin < w.column && !(w.last_type == LastType::Newline) {
                WriterView {
                    output: w.output + seq!['\n'],
                    line: spec_inc(w.line),
                    last_type: LastType::Newline,
                    column: 1,
                    ..w
                }
            } else {
                w
            }
        },
        BreakMode::Mirror => {
            if w.line < at.line {
                let first: Seq<char> = if w.last_type == LastType::Newline {
                    seq!['%', '\n']
                } else {
                    seq!['\n']
                };
                WriterView {
                    output: w.output + first + pct_pad((at.line - w.line - 1) as nat),
                    line: at.line,
                    last_type: LastType::Newline,
                    column: 1,
                    ..w
                }
            } else {
                w
            }
        },
    }
}

/// The separating space owed after a bare command name.
pub open spec fn spec_separate(w: WriterView) -> WriterView {
    if w.last_type == LastType::Command {
        WriterView {
            output: w.output + seq![' '],
            last_type: LastType::Whitespace,
            column: spec_inc(w.column),
            ..w
        }
    } else {
        w
    }
}

/// The outcome of one modelled emission step: the state reached, and the
/// error that aborted the walk, if one did. On an error the state is the
/// state at the abort.
#[verifier::ext_equal]
pub struct WOut {
    pub w: WriterView,
    pub err: Option<PreprocessorErrorView>,
}

pub open spec fn w_ok(w: WriterView) -> WOut {
    WOut { w, err: None }
}

pub open spec fn w_err(w: WriterView, e: PreprocessorErrorView) -> WOut {
    WOut { w, err: Some(e) }
}

pub open spec fn ends_in(s: Seq<char>, c: char) -> bool {
    s.len() > 0 && s[s.len() - 1] == c
}

/// What emitting one value does to the writer: the model of the tree
/// traversal. Dictionaries always fail; a table goes through the grid
/// emitter; a composition walks its elements; a pattern goes through macro
/// dispatch.
pub open spec fn spec_write_value(w: WriterView, v: ParsedValue) -> WOut
    decreases v, 10int,
{
    match v {
        ParsedValue::Nil(at) => w_ok(spec_push(spec_push(spec_break(w, at), '{'), '}')),
        ParsedValue::Text(t, at) => {
            let w1 = spec_push(spec_break(w, at), '{');
            w_ok(spec_push(spec_norm_push(w1, t@), '}'))
        },
        ParsedValue::Dictionary(_, at) => w_err(w, PreprocessorErrorView::IllegalDictionary(at)),
        ParsedValue::Table(tb, at) => spec_write_tabulation(spec_break(w, at), tb, at),
        ParsedValue::Composition(elems, at) => spec_write_elements(
            spec_break(w, at),
            elems@,
            at,
        ),
        ParsedValue::Pattern(p, at) => spec_write_macro(spec_break(w, at), p, at),
    }
}

/// The element walk of a composition, aborting on the first error.
pub open spec fn spec_write_elements(w: WriterView, elems: Seq<Element>, at: Position) -> WOut
    decreases elems, 30int,
{
    if elems.len() == 0 {
        w_ok(w)
    } else {
        let step = spec_write_element(w, elems[0], at);
        if step.err is Some {
            step
        } else {
            spec_write_elements(step.w, elems.subrange(1, elems.len() as int), at)
        }
    }
}

/// One composition element. A separator emits one space. A nested text run
/// directly after a caret or underscore is wrapped in its own group;
/// otherwise it is emitted bare, after the space owed to a preceding bare
/// command. A nested composition is wrapped in its own group.
pub open spec fn spec_write_element(w: WriterView, e: Element, at: Position) -> WOut
    decreases e, 20int,
{
    match e {
        Element::Space => w_ok(spec_push(spec_break(w, at), ' ')),
        Element::Solid(sv) => match sv {
            ParsedValue::Nil(sat) => w_ok(spec_push(spec_push(spec_break(w, sat), '{'), '}')),
            ParsedValue::Text(t, sat) => {
                let w1 = spec_break(w, sat);
                if w1.last_type == LastType::Caret || w1.last_type == LastType::Underscore {
                    w_ok(spec_push(spec_norm_push(spec_push(w1, '{'), t@), '}'))
                } else {
                    w_ok(spec_norm_push(spec_separate(w1), t@))
                }
            },
            ParsedValue::Dictionary(_, sat) => w_err(
                w,
                PreprocessorErrorView::IllegalDictionary(sat),
            ),
            ParsedValue::Table(tb, sat) => spec_write_tabulation(spec_break(w, sat), tb, sat),
            ParsedValue::Composition(_, sat) => {
                let w1 = spec_push(spec_break(w, sat), '{');
                let o = spec_write_value(w1, sv);
                if o.err is Some {
                    o
                } else {
                    w_ok(spec_push(o.w, '}'))
                }
            },
            ParsedValue::Pattern(p, sat) => spec_write_macro(spec_break(w, sat), p, sat),
        },
    }
}

/// The grid emitter: cells of one row are joined by the column separator
/// and every row is terminated by the row-break marker. A zero-column table
/// is rejected.
pub open spec fn spec_write_tabulation(w: WriterView, t: TableValue, at: Position) -> WOut
    decreases t, 30int,
    via spec_write_tabulation_decreases
{
    if t.columns_spec() == 0 {
        w_err(w, PreprocessorErrorView::ZeroTable(at))
    } else {
        spec_write_rows(w, t.cells_spec(), t.columns_spec() as int)
    }
}

#[via_fn]
proof fn spec_write_tabulation_decreases(w: WriterView, t: TableValue, at: Position) {
    t.cells_height();
}

/// The remaining cells of a grid, a row at a time.
pub open spec fn spec_write_rows(w: WriterView, remaining: Seq<ParsedValue>, cols: int) -> WOut
    decreases remaining, 30int,
{
    if remaining.len() == 0 || cols <= 0 {
        w_ok(w)
    } else {
        let take_n: int = if cols < remaining.len() {
            cols
        } else {
            remaining.len() as int
        };
        let o1 = spec_write_value(w, remaining[0]);
        let o2 = if o1.err is Some {
            o1
        } else {
            spec_write_row_rest(o1.w, remaining.subrange(1, take_n))
        };
        if o2.err is Some {
            o2
        } else {
            let w3 = spec_push(spec_push(o2.w, '\\'), '\\');
            spec_write_rows(w3, remaining.subrange(take_n, remaining.len() as int), cols)
        }
    }
}

/// The cells of one row after the first, each preceded by the column
/// separator.
pub open spec fn spec_write_row_rest(w: WriterView, rest: Seq<ParsedValue>) -> WOut
    decreases rest, 20int,
{
    if rest.len() == 0 {
        w_ok(w)
    } else {
        let o = spec_write_value(spec_push(w, '&'), rest[0]);
        if o.err is Some {
            o
        } else {
            spec_write_row_rest(o.w, rest.subrange(1, rest.len() as int))
        }
    }
}

/// Macro dispatch. Names ending in `!` are built-in directives, of which
/// only the definition and raw-passthrough directives exist; `$` wraps its
/// single argument in math delimiters; `p` and `n` are paragraph- and
/// line-break shorthands; anything else is an ordinary command, whose name
/// ending in an apostrophe makes its first argument an optional argument in
/// square brackets.
pub open spec fn spec_write_macro(w: WriterView, p: PatternValue, at: Position) -> WOut
    decreases p, 30int,
{
    let name = p.name@;
    let args = p.arguments@;
    if ends_in(name, '!') {
        if name == "def!"@ {
            if args.len() != 3 {
                w_err(
                    w,
                    PreprocessorErrorView::MacroError(at, "def! must take 3 arguments."@),
                )
            } else {
                match args[0] {
                    ParsedValue::Pattern(tag, _) => {
                        let w1 = WriterView {
                            output: w.output + "\\newcommand"@ + seq!['\\'] + tag.name@ + seq![
                                '[',
                            ],
                            ..w
                        };
                        let o1 = spec_write_value(w1, args[1]);
                        if o1.err is Some {
                            o1
                        } else {
                            let w2 = WriterView { output: o1.w.output + seq![']', '{'], ..o1.w };
                            let o2 = spec_write_value(w2, args[2]);
                            if o2.err is Some {
                                o2
                            } else {
                                w_ok(
                                    WriterView {
                                        output: o2.w.output + seq!['}'],
                                        last_type: LastType::Glyph,
                                        ..o2.w
                                    },
                                )
                            }
                        }
                    },
                    _ => w_err(
                        w,
                        PreprocessorErrorView::MacroError(
                            at,
                            "def! must take a pattern as its first argument."@,
                        ),
                    ),
                }
            }
        } else if name == "raw!"@ {
            if args.len() != 1 {
                w_err(
                    w,
                    PreprocessorErrorView::MacroError(at, "raw! must take 1 text argument."@),
                )
            } else {
                match args[0] {
                    ParsedValue::Text(t, _) => w_ok(WriterView { output: w.output + t@, ..w }),
                    _ => w_err(
                        w,
                        PreprocessorErrorView::MacroError(
                            at,
                            "raw! must take 1 text argument."@,
                        ),
                    ),
                }
            }
        } else {
            w_err(
                w,
                PreprocessorErrorView::MacroError(at, "Unknown macro "@ + name + "."@),
            )
        }
    } else if name == "$"@ {
        if args.len() == 0 {
            w_err(w, PreprocessorErrorView::MacroError(at, "$ must take 1 argument."@))
        } else {
            let o = spec_write_value(spec_push(w, '$'), args[0]);
            if o.err is Some {
                o
            } else {
                w_ok(spec_push(o.w, '$'))
            }
        }
    } else if name == "p"@ {
        w_ok(spec_norm_push(w, "{\\par}"@))
    } else if name == "n"@ {
        w_ok(spec_norm_push(w, "\\\\"@))
    } else {
        if ends_in(name, '\'') {
            let base = name.take(name.len() - 1);
            let w1 = spec_norm_push(spec_push(w, '\\'), base);
            if args.len() == 0 {
                w_err(w1, PreprocessorErrorView::MissingOptionalArgument(at))
            } else {
                let o1 = spec_write_opt_arg(w1, args[0]);
                if o1.err is Some {
                    o1
                } else {
                    spec_write_args(o1.w, args.subrange(1, args.len() as int))
                }
            }
        } else {
            let w1 = spec_norm_push(spec_push(w, '\\'), name);
            let w2 = if args.len() == 0 {
                WriterView { last_type: LastType::Command, ..w1 }
            } else {
                w1
            };
            spec_write_args(w2, args)
        }
    }
}

/// The optional argument of an apostrophe command, rendered in square
/// brackets.
pub open spec fn spec_write_opt_arg(w: WriterView, a: ParsedValue) -> WOut
    decreases a, 20int,
{
    match a {
        ParsedValue::Nil(aat) => w_ok(spec_norm_push(spec_break(w, aat), "[]"@)),
        ParsedValue::Text(t, aat) => {
            let w1 = spec_push(spec_break(w, aat), '[');
            w_ok(spec_push(spec_norm_push(w1, t@), ']'))
        },
        ParsedValue::Dictionary(_, aat) => w_err(
            w,
            PreprocessorErrorView::IllegalDictionary(aat),
        ),
        ParsedValue::Table(_, aat) => w_err(w, PreprocessorErrorView::IllegalTable(aat)),
        ParsedValue::Composition(_, aat) => {
            let w1 = spec_push(spec_break(w, aat), '[');
            let o = spec_write_value(w1, a);
            if o.err is Some {
                o
            } else {
                w_ok(spec_push(o.w, ']'))
            }
        },
        ParsedValue::Pattern(p2, aat) => {
            let w1 = spec_push(spec_break(w, aat), '[');
            let o = spec_write_macro(w1, p2, aat);
            if o.err is Some {
                o
            } else {
                w_ok(spec_push(o.w, ']'))
            }
        },
    }
}

/// One positional argument of a command, rendered in its own group.
pub open spec fn spec_write_gen_arg(w: WriterView, a: ParsedValue) -> WOut
    decreases a, 20int,
{
    match a {
        ParsedValue::Nil(aat) => w_ok(spec_norm_push(spec_break(w, aat), "{}"@)),
        ParsedValue::Text(t, aat) => {
            let w1 = spec_push(spec_break(w, aat), '{');
            w_ok(spec_push(spec_norm_push(w1, t@), '}'))
        },
        ParsedValue::Dictionary(_, aat) => w_err(
            w,
            PreprocessorErrorView::IllegalDictionary(aat),
        ),
        ParsedValue::Table(_, aat) => w_err(w, PreprocessorErrorView::IllegalTable(aat)),
        ParsedValue::Composition(_, aat) => {
            let w1 = spec_push(spec_break(w, aat), '{');
            let o = spec_write_value(w1, a);
            if o.err is Some {
                o
            } else {
                w_ok(spec_push(o.w, '}'))
            }
        },
        ParsedValue::Pattern(p2, aat) => {
            let w1 = spec_push(spec_break(w, aat), '{');
            let o = spec_write_macro(w1, p2, aat);
            if o.err is Some {
                o
            } else {
                w_ok(spec_push(o.w, '}'))
            }
        },
    }
}

/// The positional arguments of a command, in order, aborting on the first
/// error.
pub open spec fn spec_write_args(w: WriterView, rest: Seq<ParsedValue>) -> WOut
    decreases rest, 30int,
{
    if rest.len() == 0 {
        w_ok(w)
    } else {
        let o = spec_write_gen_arg(w, rest[0]);
        if o.err is Some {
            o
        } else {
            spec_write_args(o.w, rest.subrange(1, rest.len() as int))
        }
    }
}

/// The state a transcoding run starts from.
pub open spec fn initial_writer() -> WriterView {
    WriterView {
        output: Seq::empty(),
        column: 1,
        break_mode: BreakMode::Mirror,
        last_type: LastType::Whitespace,
        line: 1,
    }
}

/// The whole transcoding of a tree, as a mathematical function.
pub open spec fn spec_transcode(v: ParsedValue) -> WOut {
    spec_write_value(initial_writer(), v)
}

impl Writer {
    fn push(&mut self, c: char)
        ensures
            final(self)@ == spec_push(old(self)@, c),
    {
        if is_ws(c) {
            if self.last_type == LastType::Command {
                self.output.push('{');
                self.output.push('}');
                self.output.push(' ');
                self.last_type = LastType::Whitespace;
                proof {
                    assert(self@.output =~= old(self)@.output + seq!['{', '}', ' ']);
                    assert(self@ =~= spec_push(old(self)@, c));
                }
            } else if self.last_type == LastType::Caret || self.last_type == LastType::Underscore {
            } else if self.last_type == LastType::Whitespace || self.last_type == LastType::Newline {
            } else {
                self.output.push(' ');
                self.last_type = LastType::Whitespace;
                self.column = inc_sat(self.column);
                proof {
                    assert(self@.output =~= old(self)@.output + seq![' ']);
                    assert(self@ =~= spec_push(old(self)@, c));
                }
            }
        } else if c == '^' {
            self.output.push('^');
            self.last_type = LastType::Caret;
            self.column = inc_sat(self.column);
            proof {
                assert(self@.output =~= old(self)@.output + seq!['^']);
                assert(self@ =~= spec_push(old(self)@, c));
            }
        } else if c == '_' {
            self.output.push('_');
            self.last_type = LastType::Underscore;
            self.column = inc_sat(self.column);
            proof {
                assert(self@.output =~= old(self)@.output + seq!['_']);
                assert(self@ =~= spec_push(old(self)@, c));
            }
        } else {
            self.output.push(c);
            self.last_type = LastType::Glyph;
            self.column = inc_sat(self.column);
            proof {
                assert(self@.output =~= old(self)@.output + seq![c]);
                assert(self@ =~= spec_push(old(self)@, c));
            }
        }
    }

    fn norm_char(&mut self, c: char)
        ensures
            final(self)@ == spec_norm_char(old(self)@, c),
    {
        if c == '$' || c == '%' || c == '&' {
            self.output.push('\\');
            self.output.push(c);
            self.last_type = LastType::Glyph;
            self.column = inc_sat(inc_sat(self.column));
            proof {
                assert(self@.output =~= old(self)@.output + seq!['\\', c]);
                assert(self@ =~= spec_norm_char(old(self)@, c));
            }
        } else {
            self.push(c);
        }
    }

    /// Emits a text run given as a string slice, escaping the output
    /// language's reserved plain-text characters.
    fn normalize_and_push_str(&mut self, text: &str)
        ensures
            final(self)@ == spec_norm_push(old(self)@, text@),
    {
        let n = text.unicode_len();
        let mut i: usize = 0;
        while i < n
            invariant
                i <= n,
                n == text@.len(),
                self@ == spec_norm_push(old(self)@, text@.take(i as int)),
            decreases n - i,
        {
            let c = text.get_char(i);
            self.norm_char(c);
            proof {
                assert(text@.take(i + 1 as int) =~= text@.take(i as int).push(text@[i as int]));
                lemma_norm_push_snoc(old(self)@, text@.take(i as int), text@[i as int]);
            }
            i = i + 1;
        }
        proof {
            assert(text@.take(n as int) =~= text@);
        }
    }

    /// Emits a text run given as characters, escaping the output language's
    /// reserved plain-text characters.
    fn normalize_and_push_text(&mut self, text: &Vec<char>)
        ensures
            final(self)@ == spec_norm_push(old(self)@, text@),
    {
        let n = text.len();
        let mut i: usize = 0;
        while i < n
            invariant
                i <= n,
                n == text@.len(),
                self@ == spec_norm_push(old(self)@, text@.take(i as int)),
            decreases n - i,
        {
            let c = text[i];
            self.norm_char(c);
            proof {
                assert(text@.take(i + 1 as int) =~= text@.take(i as int).push(text@[i as int]));
                lemma_norm_push_snoc(old(self)@, text@.take(i as int), text@[i as int]);
            }
            i = i + 1;
        }
        proof {
            assert(text@.take(n as int) =~= text@);
        }
    }

    /// Reacts to the position of a value about to be emitted.
    fn break_opportunity(&mut self, at: Position)
        ensures
            final(self)@ == spec_break(old(self)@, at),
    {
        let at_line = at.line;
        match self.break_mode {
            BreakMode::Never => {},
            BreakMode::Margin(margin) => {
                if margin < self.column {
                    if !matches!(self.last_type, LastType::Newline) {
                        self.output.push('\n');
                        self.line = inc_sat(self.line);
                        self.last_type = LastType::Newline;
                        self.column = 1;
                        proof {
                            assert(self@.output =~= old(self)@.output + seq!['\n']);
                            assert(self@ =~= spec_break(old(self)@, at));
                        }
                    }
                }
            },
            BreakMode::Mirror => {
                if self.line < at_line {
                    if matches!(self.last_type, LastType::Newline) {
                        self.output.push('%');
                        self.output.push('\n');
                    } else {
                        self.output.push('\n');
                    }
                    self.line = self.line + 1;
                    self.last_type = LastType::Newline;
                    self.column = 1;
                    let ghost first: Seq<char> = if old(self)@.last_type == LastType::Newline {
                        seq!['%', '\n']
                    } else {
                        seq!['\n']
                    };
                    proof {
                        assert(self@.output =~= old(self)@.output + first + pct_pad(0));
                    }
                    while self.line < at_line
                        invariant
                            old(self)@.line < at_line,
                            old(self)@.line < self.line <= at_line,
                            self.column == 1,
                            self.last_type == LastType::Newline,
                            self.break_mode == old(self)@.break_mode,
                            self@.output =~= old(self)@.output + first + pct_pad(
                                (self.line - old(self)@.line - 1) as nat,
                            ),
                        decreases at_line - self.line,
                    {
                        self.output.push('%');
                        self.output.push('\n');
                        self.line = self.line + 1;
                        proof {
                            assert(pct_pad((self.line - old(self)@.line - 1) as nat) =~= pct_pad(
                                (self.line - old(self)@.line - 2) as nat,
                            ) + seq!['%', '\n']);
                            assert(self@.output =~= old(self)@.output + first + pct_pad(
                                (self.line - old(self)@.line - 1) as nat,
                            ));
                        }
                    }
                    proof {
                        assert(self@ =~= spec_break(old(self)@, at));
                    }
                }
            },
        }
    }

    /// Emits the first `n` characters of a text run, escaping the output
    /// language's reserved plain-text characters.
    fn normalize_and_push_text_prefix(&mut self, text: &Vec<char>, n: usize)
        requires
            n <= text@.len(),
        ensures
            final(self)@ == spec_norm_push(old(self)@, text@.take(n as int)),
    {
        let mut i: usize = 0;
        while i < n
            invariant
                i <= n,
                n <= text@.len(),
                self@ == spec_norm_push(old(self)@, text@.take(i as int)),
            decreases n - i,
        {
            let c = text[i];
            self.norm_char(c);
            proof {
                assert(text@.take(i + 1 as int) =~= text@.take(i as int).push(text@[i as int]));
                lemma_norm_push_snoc(old(self)@, text@.take(i as int), text@[i as int]);
            }
            i = i + 1;
        }
    }

    /// Appends one character to the output directly, bypassing token-class,
    /// column and line tracking.
    fn append_char(&mut self, c: char)
        ensures
            final(self)@ == (WriterView { output: old(self)@.output + seq![c], ..old(self)@ }),
    {
        self.output.push(c);
        proof {
            assert(self@ =~= (WriterView { output: old(self)@.output + seq![c], ..old(self)@ }));
        }
    }

    /// Appends a literal to the output directly, bypassing token-class,
    /// column and line tracking.
    fn append_literal(&mut self, s: &str)
        ensures
            final(self)@ == (WriterView { output: old(self)@.output + s@, ..old(self)@ }),
    {
        let n = s.unicode_len();
        let mut i: usize = 0;
        while i < n
            invariant
                i <= n,
                n == s@.len(),
                self@ == (WriterView { output: old(self)@.output + s@.take(i as int), ..old(self)@ }),
            decreases n - i,
        {
            self.output.push(s.get_char(i));
            i = i + 1;
            proof {
                assert(self@.output =~= old(self)@.output + s@.take(i as int));
                assert(self@ =~= (WriterView {
                    output: old(self)@.output + s@.take(i as int),
                    ..old(self)@
                }));
            }
        }
        proof {
            assert(s@.take(n as int) =~= s@);
        }
    }

    /// Appends characters to the output directly, bypassing token-class,
    /// column and line tracking.
    fn append_chars(&mut self, text: &Vec<char>)
        ensures
            final(self)@ == (WriterView { output: old(self)@.output + text@, ..old(self)@ }),
    {
        let n = text.len();
        let mut i: usize = 0;
        while i < n
            invariant
                i <= n,
                n == text@.len(),
                self@ == (WriterView { output: old(self)@.output + text@.take(i as int), ..old(self)@ }),
            decreases n - i,
        {
            self.output.push(text[i]);
            i = i + 1;
            proof {
                assert(self@.output =~= old(self)@.output + text@.take(i as int));
                assert(self@ =~= (WriterView {
                    output: old(self)@.output + text@.take(i as int),
                    ..old(self)@
                }));
            }
        }
        proof {
            assert(text@.take(n as int) =~= text@);
        }
    }

    /// If a bare command name was last written, inserts the space owed.
    fn separate_command_opportunity(&mut self)
        ensures
            final(self)@ == spec_separate(old(self)@),
    {
        if self.last_type == LastType::Command {
            self.output.push(' ');
            self.last_type = LastType::Whitespace;
            self.column = inc_sat(self.column);
            proof {
                assert(self@.output =~= old(self)@.output + seq![' ']);
                assert(self@ =~= spec_separate(old(self)@));
            }
        }
    }

    /// Emits one value, realizing [`spec_write_value`] exactly.
    fn write_inner(&mut self, value: &ParsedValue) -> (r: Result<(), PreprocessorError>)
        ensures
            ({
                let o = spec_write_value(old(self)@, *value);
                &&& final(self)@ == o.w
                &&& (r is Ok <==> o.err is None)
                &&& (r is Err ==> o.err == Some(r->Err_0@))
            }),
        decreases *value, 10int,
    {
        match value {
            ParsedValue::Nil(at) => {
                self.break_opportunity(*at);
                self.push('{');
                self.push('}');
                Ok(())
            },
            ParsedValue::Text(text, at) => {
                self.break_opportunity(*at);
                self.push('{');
                self.normalize_and_push_text(text);
                self.push('}');
                Ok(())
            },
            ParsedValue::Dictionary(_, at) => Err(PreprocessorError::IllegalDictionary(*at)),
            ParsedValue::Table(table, at) => {
                self.break_opportunity(*at);
                self.write_tabulation(table, *at)
            },
            ParsedValue::Composition(elements, at) => {
                self.break_opportunity(*at);
                let ghost w1 = self@;
                let ghost total = spec_write_elements(w1, elements@, *at);
                let n = elements.len();
                let mut i: usize = 0;
                proof {
                    assert(elements@.subrange(0, elements@.len() as int) =~= elements@);
                }
                while i < n
                    invariant
                        i <= n,
                        n == elements@.len(),
                        total == spec_write_elements(
                            self@,
                            elements@.subrange(i as int, n as int),
                            *at,
                        ),
                        value is Composition,
                        elements == value->Composition_0,
                        at == value->Composition_1,
                        total == spec_write_value(old(self)@, *value),
                    decreases n - i,
                {
                    proof {
                        assert(elements@.subrange(i as int, n as int)[0] == elements@[i as int]);
                        assert(decreases_to!(*value => *elements));
                    }
                    let res = self.write_element(&elements[i], *at);
                    proof {
                        assert(elements@.subrange(i as int, n as int).subrange(
                            1,
                            (n - i) as int,
                        ) =~= elements@.subrange(i + 1 as int, n as int));
                    }
                    if let Err(e2) = res {
                        return Err(e2);
                    }
                    i = i + 1;
                }
                proof {
                    assert(elements@.subrange(n as int, n as int).len() == 0);
                }
                Ok(())
            },
            ParsedValue::Pattern(pattern, at) => {
                self.break_opportunity(*at);
                self.write_macro(pattern, *at)
            },
        }
    }

    /// Emits one composition element, realizing [`spec_write_element`].
    fn write_element(&mut self, element: &Element, at: Position) -> (r: Result<
        (),
        PreprocessorError,
    >)
        ensures
            ({
                let o = spec_write_element(old(self)@, *element, at);
                &&& final(self)@ == o.w
                &&& (r is Ok <==> o.err is None)
                &&& (r is Err ==> o.err == Some(r->Err_0@))
            }),
        decreases *element, 20int,
    {
        match element {
            Element::Space => {
                self.break_opportunity(at);
                self.push(' ');
                Ok(())
            },
            Element::Solid(solid) => match solid {
                ParsedValue::Nil(sat) => {
                    self.break_opportunity(*sat);
                    self.push('{');
                    self.push('}');
                    Ok(())
                },
                ParsedValue::Text(text, sat) => {
                    self.break_opportunity(*sat);
                    if self.last_type == LastType::Caret || self.last_type
                        == LastType::Underscore {
                        self.push('{');
                        self.normalize_and_push_text(text);
                        self.push('}');
                    } else {
                        self.separate_command_opportunity();
                        self.normalize_and_push_text(text);
                    }
                    Ok(())
                },
                ParsedValue::Dictionary(_, sat) => Err(
                    PreprocessorError::IllegalDictionary(*sat),
                ),
                ParsedValue::Table(table, sat) => {
                    self.break_opportunity(*sat);
                    self.write_tabulation(table, *sat)
                },
                ParsedValue::Composition(_, sat) => {
                    self.break_opportunity(*sat);
                    self.push('{');
                    let res = self.write_inner(solid);
                    if let Err(e) = res {
                        return Err(e);
                    }
                    self.push('}');
                    Ok(())
                },
                ParsedValue::Pattern(pattern, sat) => {
                    self.break_opportunity(*sat);
                    self.write_macro(pattern, *sat)
                },
            },
        }
    }

    /// Emits the cells of one row after the first, realizing
    /// [`spec_write_row_rest`] on the cell range `from..until`.
    fn write_row_cells(&mut self, table: &TableValue, from: usize, until: usize) -> (r: Result<
        (),
        PreprocessorError,
    >)
        requires
            from <= until,
            until <= table.cells_spec().len(),
        ensures
            ({
                let o = spec_write_row_rest(
                    old(self)@,
                    table.cells_spec().subrange(from as int, until as int),
                );
                &&& final(self)@ == o.w
                &&& (r is Ok <==> o.err is None)
                &&& (r is Err ==> o.err == Some(r->Err_0@))
            }),
        decreases *table, 25int,
    {
        let ghost cells = table.cells_spec();
        let ghost target = spec_write_row_rest(
            old(self)@,
            cells.subrange(from as int, until as int),
        );
        let mut c: usize = from;
        while c < until
            invariant
                from <= c <= until,
                until <= cells.len(),
                cells == table.cells_spec(),
                target == spec_write_row_rest(
                    old(self)@,
                    cells.subrange(from as int, until as int),
                ),
                target == spec_write_row_rest(self@, cells.subrange(c as int, until as int)),
            decreases until - c,
        {
            let ghost pre = self@;
            self.push('&');
            proof {
                assert(cells.subrange(c as int, until as int)[0] == cells[c as int]);
                table.cells_height();
            }
            let res = self.write_inner(table.cell(c));
            proof {
                assert(cells.subrange(c as int, until as int).subrange(
                    1,
                    (until - c) as int,
                ) =~= cells.subrange(c + 1 as int, until as int));
                assert(target == spec_write_row_rest(
                    pre,
                    cells.subrange(c as int, until as int),
                ));
                let o0 = spec_write_value(spec_push(pre, '&'), cells[c as int]);
                if o0.err is Some {
                    assert(target == o0);
                } else {
                    assert(target == spec_write_row_rest(
                        o0.w,
                        cells.subrange(c + 1 as int, until as int),
                    ));
                }
            }
            if let Err(e) = res {
                return Err(e);
            }
            c = c + 1;
        }
        proof {
            assert(cells.subrange(until as int, until as int).len() == 0);
        }
        Ok(())
    }

    /// Emits a table as a grid, realizing [`spec_write_tabulation`].
    fn write_tabulation(&mut self, table: &TableValue, at: Position) -> (r: Result<
        (),
        PreprocessorError,
    >)
        ensures
            ({
                let o = spec_write_tabulation(old(self)@, *table, at);
                &&& final(self)@ == o.w
                &&& (r is Ok <==> o.err is None)
                &&& (r is Err ==> o.err == Some(r->Err_0@))
            }),
        decreases *table, 30int,
    {
        let columns = table.columns();
        if columns == 0 {
            return Err(PreprocessorError::ZeroTable(at));
        }
        let total_len = table.len();
        let rows = table.rows();
        let ghost cells = table.cells_spec();
        let ghost target = spec_write_rows(old(self)@, cells, columns as int);
        let mut rowi: usize = 0;
        let mut s: usize = 0;
        proof {
            assert(cells.subrange(0, cells.len() as int) =~= cells);
        }
        while rowi < rows
            invariant
                rowi <= rows,
                s == rowi * columns,
                columns >= 1,
                total_len == cells.len(),
                total_len == rows * columns,
                cells == table.cells_spec(),
                s <= total_len,
                columns == table.columns_spec(),
                target == spec_write_rows(old(self)@, cells, columns as int),
                target == spec_write_tabulation(old(self)@, *table, at),
                target == spec_write_rows(
                    self@,
                    cells.subrange(s as int, total_len as int),
                    columns as int,
                ),
            decreases rows - rowi,
        {
            proof {
                assert(s + columns <= total_len && s < total_len) by (nonlinear_arith)
                    requires
                        s == rowi * columns,
                        total_len == rows * columns,
                        rowi < rows,
                        columns >= 1,
                ;
                assert(cells.subrange(s as int, total_len as int)[0] == cells[s as int]);
                table.cells_height();
            }
            let ghost pre = self@;
            let ghost remaining = cells.subrange(s as int, total_len as int);
            let ghost o1 = spec_write_value(pre, cells[s as int]);
            let ghost o2 = if o1.err is Some {
                o1
            } else {
                spec_write_row_rest(o1.w, cells.subrange(s + 1 as int, (s + columns) as int))
            };
            let res = self.write_inner(table.cell(s));
            proof {
                assert(remaining.subrange(1, columns as int) =~= cells.subrange(
                    s + 1 as int,
                    (s + columns) as int,
                ));
                assert(remaining.subrange(columns as int, remaining.len() as int) =~= cells
                    .subrange((s + columns) as int, total_len as int));
                assert(target == spec_write_rows(pre, remaining, columns as int));
                if o1.err is Some {
                    assert(target == o1);
                }
            }
            if let Err(e) = res {
                return Err(e);
            }
            let res2 = self.write_row_cells(table, s + 1, s + columns);
            proof {
                if o2.err is Some {
                    assert(target == o2);
                } else {
                    assert(target == spec_write_rows(
                        spec_push(spec_push(o2.w, '\\'), '\\'),
                        cells.subrange((s + columns) as int, total_len as int),
                        columns as int,
                    ));
                }
            }
            if let Err(e) = res2 {
                return Err(e);
            }
            self.push('\\');
            self.push('\\');
            proof {
                assert((rowi + 1) * columns == rowi * columns + columns) by (nonlinear_arith);
            }
            s = s + columns;
            rowi = rowi + 1;
        }
        proof {
            assert(s == total_len) by (nonlinear_arith)
                requires
                    s == rowi * columns,
                    rowi == rows,
                    total_len == rows * columns,
            ;
            assert(cells.subrange(total_len as int, total_len as int).len() == 0);
        }
        Ok(())
    }

    /// Emits the positional arguments of a pattern from `start` on,
    /// realizing [`spec_write_args`].
    fn write_args(&mut self, pattern: &PatternValue, start: usize) -> (r: Result<
        (),
        PreprocessorError,
    >)
        requires
            start <= pattern.arguments@.len(),
        ensures
            ({
                let o = spec_write_args(
                    old(self)@,
                    pattern.arguments@.subrange(
                        start as int,
                        pattern.arguments@.len() as int,
                    ),
                );
                &&& final(self)@ == o.w
                &&& (r is Ok <==> o.err is None)
                &&& (r is Err ==> o.err == Some(r->Err_0@))
            }),
        decreases *pattern, 25int,
    {
        let n = pattern.arguments.len();
        let ghost args = pattern.arguments@;
        let ghost target = spec_write_args(old(self)@, args.subrange(start as int, n as int));
        let mut i: usize = start;
        while i < n
            invariant
                start <= i <= n,
                n == args.len(),
                args == pattern.arguments@,
                target == spec_write_args(old(self)@, args.subrange(start as int, n as int)),
                target == spec_write_args(self@, args.subrange(i as int, n as int)),
            decreases n - i,
        {
            proof {
                assert(args.subrange(i as int, n as int)[0] == args[i as int]);
            }
            let ghost pre = self@;
            let res = self.write_gen_arg(&pattern.arguments[i]);
            proof {
                assert(args.subrange(i as int, n as int).subrange(1, (n - i) as int)
                    =~= args.subrange(i + 1 as int, n as int));
                assert(target == spec_write_args(pre, args.subrange(i as int, n as int)));
                if spec_write_gen_arg(pre, args[i as int]).err is Some {
                    assert(target == spec_write_gen_arg(pre, args[i as int]));
                } else {
                    assert(target == spec_write_args(
                        spec_write_gen_arg(pre, args[i as int]).w,
                        args.subrange(i + 1 as int, n as int),
                    ));
                }
            }
            if let Err(e) = res {
                return Err(e);
            }
            i = i + 1;
        }
        proof {
            assert(args.subrange(n as int, n as int).len() == 0);
        }
        Ok(())
    }

    /// Emits the optional argument of an apostrophe command, realizing
    /// [`spec_write_opt_arg`].
    fn write_opt_arg(&mut self, a: &ParsedValue) -> (r: Result<(), PreprocessorError>)
        ensures
            ({
                let o = spec_write_opt_arg(old(self)@, *a);
                &&& final(self)@ == o.w
                &&& (r is Ok <==> o.err is None)
                &&& (r is Err ==> o.err == Some(r->Err_0@))
            }),
        decreases *a, 20int,
    {
        match a {
            ParsedValue::Nil(aat) => {
                self.break_opportunity(*aat);
                self.normalize_and_push_str("[]");
                Ok(())
            },
            ParsedValue::Text(text, aat) => {
                self.break_opportunity(*aat);
                self.push('[');
                self.normalize_and_push_text(text);
                self.push(']');
                Ok(())
            },
            ParsedValue::Dictionary(_, aat) => Err(PreprocessorError::IllegalDictionary(*aat)),
            ParsedValue::Table(_, aat) => Err(PreprocessorError::IllegalTable(*aat)),
            ParsedValue::Composition(_, aat) => {
                self.break_opportunity(*aat);
                self.push('[');
                let res = self.write_inner(a);
                if let Err(e) = res {
                    return Err(e);
                }
                self.push(']');
                Ok(())
            },
            ParsedValue::Pattern(p2, aat) => {
                self.break_opportunity(*aat);
                self.push('[');
                let res = self.write_macro(p2, *aat);
                if let Err(e) = res {
                    return Err(e);
                }
                self.push(']');
                Ok(())
            },
        }
    }

    /// Emits one positional argument of a command, realizing
    /// [`spec_write_gen_arg`].
    fn write_gen_arg(&mut self, a: &ParsedValue) -> (r: Result<(), PreprocessorError>)
        ensures
            ({
                let o = spec_write_gen_arg(old(self)@, *a);
                &&& final(self)@ == o.w
                &&& (r is Ok <==> o.err is None)
                &&& (r is Err ==> o.err == Some(r->Err_0@))
            }),
        decreases *a, 20int,
    {
        match a {
            ParsedValue::Nil(aat) => {
                self.break_opportunity(*aat);
                self.normalize_and_push_str("{}");
                Ok(())
            },
            ParsedValue::Text(text, aat) => {
                self.break_opportunity(*aat);
                self.push('{');
                self.normalize_and_push_text(text);
                self.push('}');
                Ok(())
            },
            ParsedValue::Dictionary(_, aat) => Err(PreprocessorError::IllegalDictionary(*aat)),
            ParsedValue::Table(_, aat) => Err(PreprocessorError::IllegalTable(*aat)),
            ParsedValue::Composition(_, aat) => {
                self.break_opportunity(*aat);
                self.push('{');
                let res = self.write_inner(a);
                if let Err(e) = res {
                    return Err(e);
                }
                self.push('}');
                Ok(())
            },
            ParsedValue::Pattern(p2, aat) => {
                self.break_opportunity(*aat);
                self.push('{');
                let res = self.write_macro(p2, *aat);
                if let Err(e) = res {
                    return Err(e);
                }
                self.push('}');
                Ok(())
            },
        }
    }

    /// Macro dispatch, realizing [`spec_write_macro`].
    #[verifier::rlimit(60)]
    fn write_macro(&mut self, pattern: &PatternValue, at: Position) -> (r: Result<
        (),
        PreprocessorError,
    >)
        ensures
            ({
                let o = spec_write_macro(old(self)@, *pattern, at);
                &&& final(self)@ == o.w
                &&& (r is Ok <==> o.err is None)
                &&& (r is Err ==> o.err == Some(r->Err_0@))
            }),
        decreases *pattern, 30int,
    {
        let nlen = pattern.name.len();
        let ends_bang = nlen > 0 && pattern.name[nlen - 1] == '!';
        if ends_bang {
            if chars_eq_str(&pattern.name, "def!") {
                if pattern.arguments.len() != 3 {
                    return Err(PreprocessorError::MacroError(
                        at,
                        "def! must take 3 arguments.".to_owned(),
                    ));
                }
                match &pattern.arguments[0] {
                    ParsedValue::Pattern(tag, _) => {
                        self.append_literal("\\newcommand");
                        self.append_char('\\');
                        self.append_chars(&tag.name);
                        self.append_char('[');
                        proof {
                            assert(self@.output =~= old(self)@.output + "\\newcommand"@ + seq![
                                '\\',
                            ] + tag.name@ + seq!['[']);
                            assert(self@ =~= (WriterView {
                                output: old(self)@.output + "\\newcommand"@ + seq!['\\']
                                    + tag.name@ + seq!['['],
                                ..old(self)@
                            }));
                        }
                        let res = self.write_inner(&pattern.arguments[1]);
                        if let Err(e) = res {
                            return Err(e);
                        }
                        self.append_char(']');
                        self.append_char('{');
                        let ghost o1 = spec_write_value(
                            (WriterView {
                                output: old(self)@.output + "\\newcommand"@ + seq!['\\']
                                    + tag.name@ + seq!['['],
                                ..old(self)@
                            }),
                            pattern.arguments@[1],
                        );
                        proof {
                            assert(self@ =~= (WriterView {
                                output: o1.w.output + seq![']', '{'],
                                ..o1.w
                            }));
                        }
                        let res2 = self.write_inner(&pattern.arguments[2]);
                        if let Err(e) = res2 {
                            return Err(e);
                        }
                        self.append_char('}');
                        self.last_type = LastType::Glyph;
                        proof {
                            let o2 = spec_write_value(
                                (WriterView { output: o1.w.output + seq![']', '{'], ..o1.w }),
                                pattern.arguments@[2],
                            );
                            assert(self@ =~= (WriterView {
                                output: o2.w.output + seq!['}'],
                                last_type: LastType::Glyph,
                                ..o2.w
                            }));
                        }
                        Ok(())
                    },
                    _ => Err(PreprocessorError::MacroError(
                        at,
                        "def! must take a pattern as its first argument.".to_owned(),
                    )),
                }
            } else if chars_eq_str(&pattern.name, "raw!") {
                if pattern.arguments.len() != 1 {
                    return Err(PreprocessorError::MacroError(
                        at,
                        "raw! must take 1 text argument.".to_owned(),
                    ));
                }
                match &pattern.arguments[0] {
                    ParsedValue::Text(text, _) => {
                        self.append_chars(text);
                        Ok(())
                    },
                    _ => Err(PreprocessorError::MacroError(
                        at,
                        "raw! must take 1 text argument.".to_owned(),
                    )),
                }
            } else {
                let name_string = string_from_chars(&pattern.name);
                let msg = "Unknown macro ".to_owned().concat(name_string.as_str()).concat(".");
                Err(PreprocessorError::MacroError(at, msg))
            }
        } else if chars_eq_str(&pattern.name, "$") {
            if pattern.arguments.len() == 0 {
                return Err(PreprocessorError::MacroError(
                    at,
                    "$ must take 1 argument.".to_owned(),
                ));
            }
            self.push('$');
            let res = self.write_inner(&pattern.arguments[0]);
            if let Err(e) = res {
                return Err(e);
            }
            self.push('$');
            Ok(())
        } else if chars_eq_str(&pattern.name, "p") {
            self.normalize_and_push_str("{\\par}");
            Ok(())
        } else if chars_eq_str(&pattern.name, "n") {
            self.normalize_and_push_str("\\\\");
            Ok(())
        } else {
            let ends_apostrophe = nlen > 0 && pattern.name[nlen - 1] == '\'';
            if ends_apostrophe {
                self.push('\\');
                self.normalize_and_push_text_prefix(&pattern.name, nlen - 1);
                if pattern.arguments.len() == 0 {
                    return Err(PreprocessorError::MissingOptionalArgument(at));
                }
                let res = self.write_opt_arg(&pattern.arguments[0]);
                if let Err(e) = res {
                    return Err(e);
                }
                self.write_args(pattern, 1)
            } else {
                self.push('\\');
                self.normalize_and_push_text(&pattern.name);
                if pattern.arguments.len() == 0 {
                    self.last_type = LastType::Command;
                }
                proof {
                    let w1 = spec_norm_push(spec_push(old(self)@, '\\'), pattern.name@);
                    if pattern.arguments@.len() == 0 {
                        assert(self@ =~= (WriterView { last_type: LastType::Command, ..w1 }));
                    }
                    assert(pattern.arguments@.subrange(0, pattern.arguments@.len() as int)
                        =~= pattern.arguments@);
                }
                self.write_args(pattern, 0)
            }
        }
    }
}

/// Transcodes a parsed value tree into output-language text, or fails with
/// a position-tagged error. The result realizes the mathematical model
/// [`spec_transcode`] exactly, so transcoding is deterministic: equal trees
/// always yield byte-identical output.
pub fn write_tex(structure: &ParsedValue) -> (r: Result<String, PreprocessorError>)
    ensures
        r is Ok <==> spec_transcode(*structure).err is None,
        r is Ok ==> r->Ok_0@ == spec_transcode(*structure).w.output,
        r is Err ==> spec_transcode(*structure).err == Some(r->Err_0@),
{
    let mut writer = Writer {
        output: Vec::new(),
        column: 1,
        break_mode: BreakMode::Mirror,
        last_type: LastType::Whitespace,
        line: 1,
    };
    proof {
        assert(writer@ =~= initial_writer());
    }
    match writer.write_inner(structure) {
        Ok(()) => Ok(string_from_chars(&writer.output)),
        Err(e) => Err(e),
    }
}

/// Whether the writer's traversal of `v` reaches a dictionary value.
/// Dictionaries under positions the writer never visits (the arguments of
/// the paragraph and line shorthands, of the raw passthrough, of an
/// unknown or misused directive, or of the name tag of a definition) do
/// not count.
pub open spec fn reaches_dictionary(v: ParsedValue) -> bool
    decreases v, 10int,
    via reaches_dictionary_decreases
{
    match v {
        ParsedValue::Nil(_) => false,
        ParsedValue::Text(_, _) => false,
        ParsedValue::Dictionary(_, _) => true,
        ParsedValue::Table(t, _) => seq_reaches_dictionary(t.cells_spec()),
        ParsedValue::Composition(elems, _) => elements_reach_dictionary(elems@),
        ParsedValue::Pattern(p, _) => pattern_reaches_dictionary(p),
    }
}

#[via_fn]
proof fn reaches_dictionary_decreases(v: ParsedValue) {
    match v {
        ParsedValue::Table(t, _) => {
            t.cells_height();
        },
        _ => {},
    }
}

pub open spec fn seq_reaches_dictionary(s: Seq<ParsedValue>) -> bool
    decreases s, 5int,
{
    exists|i: int| 0 <= i < s.len() && reaches_dictionary(#[trigger] s[i])
}

pub open spec fn elements_reach_dictionary(s: Seq<Element>) -> bool
    decreases s, 5int,
{
    exists|i: int|
        0 <= i < s.len() && match #[trigger] s[i] {
            Element::Solid(sv) => reaches_dictionary(sv),
            Element::Space => false,
        }
}

pub open spec fn pattern_reaches_dictionary(p: PatternValue) -> bool
    decreases p, 8int,
{
    let name = p.name@;
    let args = p.arguments@;
    if ends_in(name, '!') {
        if name == "def!"@ {
            args.len() == 3 && args[0] is Pattern && (reaches_dictionary(args[1])
                || reaches_dictionary(args[2]))
        } else {
            false
        }
    } else if name == "$"@ {
        args.len() >= 1 && reaches_dictionary(args[0])
    } else if name == "p"@ || name == "n"@ {
        false
    } else {
        seq_reaches_dictionary(args)
    }
}

proof fn lemma_dict_value(w: WriterView, v: ParsedValue)
    requires
        reaches_dictionary(v),
    ensures
        spec_write_value(w, v).err is Some,
    decreases v, 10int,
{
    match v {
        ParsedValue::Dictionary(_, _) => {},
        ParsedValue::Table(t, at) => {
            lemma_dict_tabulation(spec_break(w, at), t, at);
        },
        ParsedValue::Composition(elems, at) => {
            lemma_dict_elements(spec_break(w, at), elems@, at);
        },
        ParsedValue::Pattern(p, at) => {
            lemma_dict_macro(spec_break(w, at), p, at);
        },
        _ => {},
    }
}

proof fn lemma_dict_elements(w: WriterView, elems: Seq<Element>, at: Position)
    requires
        elements_reach_dictionary(elems),
    ensures
        spec_write_elements(w, elems, at).err is Some,
    decreases elems, 30int,
{
    let witness = choose|i: int|
        0 <= i < elems.len() && match #[trigger] elems[i] {
            Element::Solid(sv) => reaches_dictionary(sv),
            Element::Space => false,
        };
    let step = spec_write_element(w, elems[0], at);
    if witness == 0 {
        lemma_dict_element(w, elems[0], at);
    } else if step.err is None {
        let rest = elems.subrange(1, elems.len() as int);
        assert(rest[witness - 1] == elems[witness]);
        lemma_dict_elements(step.w, rest, at);
    }
}

proof fn lemma_dict_element(w: WriterView, e: Element, at: Position)
    requires
        match e {
            Element::Solid(sv) => reaches_dictionary(sv),
            Element::Space => false,
        },
    ensures
        spec_write_element(w, e, at).err is Some,
    decreases e, 20int,
{
    match e {
        Element::Solid(sv) => match sv {
            ParsedValue::Dictionary(_, _) => {},
            ParsedValue::Table(tb, sat) => {
                lemma_dict_tabulation(spec_break(w, sat), tb, sat);
            },
            ParsedValue::Composition(_, sat) => {
                let w1 = spec_push(spec_break(w, sat), '{');
                lemma_dict_value(w1, sv);
            },
            ParsedValue::Pattern(p, sat) => {
                lemma_dict_macro(spec_break(w, sat), p, sat);
            },
            _ => {},
        },
        Element::Space => {},
    }
}

proof fn lemma_dict_tabulation(w: WriterView, t: TableValue, at: Position)
    requires
        seq_reaches_dictionary(t.cells_spec()),
    ensures
        spec_write_tabulation(w, t, at).err is Some,
    decreases t, 30int,
{
    if t.columns_spec() != 0 {
        t.cells_height();
        lemma_dict_rows(w, t.cells_spec(), t.columns_spec() as int);
    }
}

proof fn lemma_dict_rows(w: WriterView, remaining: Seq<ParsedValue>, cols: int)
    requires
        seq_reaches_dictionary(remaining),
        cols >= 1,
    ensures
        spec_write_rows(w, remaining, cols).err is Some,
    decreases remaining, 30int,
{
    let witness = choose|i: int| 0 <= i < remaining.len() && reaches_dictionary(
        #[trigger] remaining[i],
    );
    let take_n: int = if cols < remaining.len() {
        cols
    } else {
        remaining.len() as int
    };
    let o1 = spec_write_value(w, remaining[0]);
    if witness == 0 {
        lemma_dict_value(w, remaining[0]);
    } else if o1.err is None {
        let row = remaining.subrange(1, take_n);
        let rest = remaining.subrange(take_n, remaining.len() as int);
        let o2 = spec_write_row_rest(o1.w, row);
        if witness < take_n {
            assert(row[witness - 1] == remaining[witness]);
            lemma_dict_row_rest(o1.w, row);
        } else if o2.err is None {
            assert(rest[witness - take_n] == remaining[witness]);
            let w3 = spec_push(spec_push(o2.w, '\\'), '\\');
            lemma_dict_rows(w3, rest, cols);
        }
    }
}

proof fn lemma_dict_row_rest(w: WriterView, rest: Seq<ParsedValue>)
    requires
        seq_reaches_dictionary(rest),
    ensures
        spec_write_row_rest(w, rest).err is Some,
    decreases rest, 20int,
{
    let witness = choose|i: int| 0 <= i < rest.len() && reaches_dictionary(#[trigger] rest[i]);
    let o = spec_write_value(spec_push(w, '&'), rest[0]);
    if witness == 0 {
        lemma_dict_value(spec_push(w, '&'), rest[0]);
    } else if o.err is None {
        let tail = rest.subrange(1, rest.len() as int);
        assert(tail[witness - 1] == rest[witness]);
        lemma_dict_row_rest(o.w, tail);
    }
}

proof fn lemma_dict_macro(w: WriterView, p: PatternValue, at: Position)
    requires
        pattern_reaches_dictionary(p),
    ensures
        spec_write_macro(w, p, at).err is Some,
    decreases p, 30int,
{
    let name = p.name@;
    let args = p.arguments@;
    if ends_in(name, '!') {
        if name == "def!"@ {
            let tag = args[0]->Pattern_0;
            let w1 = WriterView {
                output: w.output + "\\newcommand"@ + seq!['\\'] + tag.name@ + seq!['['],
                ..w
            };
            let o1 = spec_write_value(w1, args[1]);
            if reaches_dictionary(args[1]) {
                lemma_dict_value(w1, args[1]);
            } else if o1.err is None {
                let w2 = WriterView { output: o1.w.output + seq![']', '{'], ..o1.w };
                lemma_dict_value(w2, args[2]);
            }
        }
    } else if name == "$"@ {
        lemma_dict_value(spec_push(w, '$'), args[0]);
    } else if name == "p"@ || name == "n"@ {
    } else {
        let witness = choose|i: int| 0 <= i < args.len() && reaches_dictionary(
            #[trigger] args[i],
        );
        if ends_in(name, '\'') {
            let base = name.take(name.len() - 1);
            let w1 = spec_norm_push(spec_push(w, '\\'), base);
            if args.len() > 0 {
                let o1 = spec_write_opt_arg(w1, args[0]);
                if witness == 0 {
                    lemma_dict_opt_arg(w1, args[0]);
                } else if o1.err is None {
                    let rest = args.subrange(1, args.len() as int);
                    assert(rest[witness - 1] == args[witness]);
                    lemma_dict_args(o1.w, rest);
                }
            }
        } else {
            let w1 = spec_norm_push(spec_push(w, '\\'), name);
            let w2 = if args.len() == 0 {
                WriterView { last_type: LastType::Command, ..w1 }
            } else {
                w1
            };
            lemma_dict_args(w2, args);
        }
    }
}

proof fn lemma_dict_args(w: WriterView, rest: Seq<ParsedValue>)
    requires
        seq_reaches_dictionary(rest),
    ensures
        spec_write_args(w, rest).err is Some,
    decreases rest, 30int,
{
    let witness = choose|i: int| 0 <= i < rest.len() && reaches_dictionary(#[trigger] rest[i]);
    let o = spec_write_gen_arg(w, rest[0]);
    if witness == 0 {
        lemma_dict_gen_arg(w, rest[0]);
    } else if o.err is None {
        let tail = rest.subrange(1, rest.len() as int);
        assert(tail[witness - 1] == rest[witness]);
        lemma_dict_args(o.w, tail);
    }
}

proof fn lemma_dict_opt_arg(w: WriterView, a: ParsedValue)
    requires
        reaches_dictionary(a),
    ensures
        spec_write_opt_arg(w, a).err is Some,
    decreases a, 20int,
{
    match a {
        ParsedValue::Composition(_, aat) => {
            lemma_dict_value(spec_push(spec_break(w, aat), '['), a);
        },
        ParsedValue::Pattern(p2, aat) => {
            lemma_dict_macro(spec_push(spec_break(w, aat), '['), p2, aat);
        },
        _ => {},
    }
}

proof fn lemma_dict_gen_arg(w: WriterView, a: ParsedValue)
    requires
        reaches_dictionary(a),
    ensures
        spec_write_gen_arg(w, a).err is Some,
    decreases a, 20int,
{
    match a {
        ParsedValue::Composition(_, aat) => {
            lemma_dict_value(spec_push(spec_break(w, aat), '{'), a);
        },
        ParsedValue::Pattern(p2, aat) => {
            lemma_dict_macro(spec_push(spec_break(w, aat), '{'), p2, aat);
        },
        _ => {},
    }
}

/// A dictionary that the writer's traversal reaches always makes
/// transcoding fail: no tree holding a visited dictionary transcodes
/// successfully, whatever state the writer starts from.
pub proof fn lemma_dictionary_rejected(w: WriterView, v: ParsedValue)
    requires
        reaches_dictionary(v),
    ensures
        spec_write_value(w, v).err is Some,
        spec_transcode(v).err is Some,
{
    lemma_dict_value(w, v);
    lemma_dict_value(initial_writer(), v);
}

/// The number of line breaks in a piece of output.
pub open spec fn newline_count(s: Seq<char>) -> nat
    decreases s.len(),
{
    if s.len() == 0 {
        0
    } else {
        (if s[0] == '\n' {
            1nat
        } else {
            0nat
        }) + newline_count(s.drop_first())
    }
}

proof fn lemma_nl_append(a: Seq<char>, b: Seq<char>)
    ensures
        newline_count(a + b) == newline_count(a) + newline_count(b),
    decreases a.len(),
{
    if a.len() == 0 {
        assert(a + b =~= b);
    } else {
        assert((a + b)[0] == a[0]);
        assert((a + b).drop_first() =~= a.drop_first() + b);
        lemma_nl_append(a.drop_first(), b);
    }
}

proof fn lemma_nl_clean(s: Seq<char>)
    requires
        forall|i: int| 0 <= i < s.len() ==> s[i] != '\n',
    ensures
        newline_count(s) == 0,
    decreases s.len(),
{
    if s.len() > 0 {
        lemma_nl_clean(s.drop_first());
    }
}

proof fn lemma_nl_units()
    ensures
        newline_count(Seq::<char>::empty()) == 0,
        newline_count(seq!['\n']) == 1,
        newline_count(seq!['%', '\n']) == 1,
{
    assert(newline_count(Seq::<char>::empty()) == 0);
    assert(seq!['\n'].drop_first() =~= Seq::<char>::empty());
    assert(newline_count(seq!['\n']) == 1);
    assert(seq!['%', '\n'].drop_first() =~= seq!['\n']);
    assert(newline_count(seq!['%', '\n']) == 1 + newline_count(seq!['%', '\n'].drop_first()) - 1);
    assert(newline_count(seq!['%', '\n']) == 1);
}

proof fn lemma_nl_pad(n: nat)
    ensures
        newline_count(pct_pad(n)) == n,
    decreases n,
{
    if n > 0 {
        lemma_nl_pad((n - 1) as nat);
        lemma_nl_append(pct_pad((n - 1) as nat), seq!['%', '\n']);
        lemma_nl_units();
    }
}

/// In mirror mode, the output's line-break count always trails the
/// writer's line counter by exactly one.
pub open spec fn line_synced(w: WriterView) -> bool {
    &&& w.break_mode == BreakMode::Mirror
    &&& w.line >= 1
    &&& newline_count(w.output) == w.line - 1
}

proof fn lemma_sync_push(w: WriterView, c: char)
    requires
        line_synced(w),
    ensures
        line_synced(spec_push(w, c)),
{
    if is_ws_char(c) && w.last_type == LastType::Command {
        lemma_nl_append(w.output, seq!['{', '}', ' ']);
        lemma_nl_clean(seq!['{', '}', ' ']);
    } else if is_ws_char(c) {
        lemma_nl_append(w.output, seq![' ']);
        lemma_nl_clean(seq![' ']);
    } else if c == '^' {
        lemma_nl_append(w.output, seq!['^']);
        lemma_nl_clean(seq!['^']);
    } else if c == '_' {
        lemma_nl_append(w.output, seq!['_']);
        lemma_nl_clean(seq!['_']);
    } else {
        lemma_nl_append(w.output, seq![c]);
        lemma_nl_clean(seq![c]);
    }
}

proof fn lemma_sync_norm_char(w: WriterView, c: char)
    requires
        line_synced(w),
    ensures
        line_synced(spec_norm_char(w, c)),
{
    if c == '$' || c == '%' || c == '&' {
        lemma_nl_append(w.output, seq!['\\', c]);
        lemma_nl_clean(seq!['\\', c]);
    } else {
        lemma_sync_push(w, c);
    }
}

proof fn lemma_sync_norm_push(w: WriterView, s: Seq<char>)
    requires
        line_synced(w),
    ensures
        line_synced(spec_norm_push(w, s)),
    decreases s.len(),
{
    if s.len() > 0 {
        lemma_sync_norm_char(w, s[0]);
        lemma_sync_norm_push(spec_norm_char(w, s[0]), s.drop_first());
    }
}

proof fn lemma_sync_break(w: WriterView, at: Position)
    requires
        line_synced(w),
    ensures
        line_synced(spec_break(w, at)),
{
    if w.line < at.line {
        let first: Seq<char> = if w.last_type == LastType::Newline {
            seq!['%', '\n']
        } else {
            seq!['\n']
        };
        let pad = pct_pad((at.line - w.line - 1) as nat);
        lemma_nl_append(w.output, first);
        lemma_nl_append(w.output + first, pad);
        lemma_nl_pad((at.line - w.line - 1) as nat);
        lemma_nl_units();
        assert(newline_count(first) == 1);
        assert(w.output + first + pad =~= w.output + (first + pad));
        lemma_nl_append(first, pad);
    }
}

proof fn lemma_sync_separate(w: WriterView)
    requires
        line_synced(w),
    ensures
        line_synced(spec_separate(w)),
{
    if w.last_type == LastType::Command {
        lemma_nl_append(w.output, seq![' ']);
        lemma_nl_clean(seq![' ']);
    }
}

/// Whether a tree smuggles no raw line break past the emission rules: the
/// raw passthrough's text and every definition name are free of line
/// breaks. Everything else is emitted through the rules that collapse
/// line breaks, so line mirroring holds of such trees.
pub open spec fn line_faithful(v: ParsedValue) -> bool
    decreases v, 10int,
    via line_faithful_decreases
{
    match v {
        ParsedValue::Nil(_) => true,
        ParsedValue::Text(_, _) => true,
        ParsedValue::Dictionary(_, _) => true,
        ParsedValue::Table(t, _) => seq_line_faithful(t.cells_spec()),
        ParsedValue::Composition(elems, _) => elements_line_faithful(elems@),
        ParsedValue::Pattern(p, _) => pattern_line_faithful(p),
    }
}

#[via_fn]
proof fn line_faithful_decreases(v: ParsedValue) {
    match v {
        ParsedValue::Table(t, _) => {
            t.cells_height();
        },
        _ => {},
    }
}

pub open spec fn seq_line_faithful(s: Seq<ParsedValue>) -> bool
    decreases s, 5int,
{
    forall|i: int| 0 <= i < s.len() ==> line_faithful(#[trigger] s[i])
}

pub open spec fn elements_line_faithful(s: Seq<Element>) -> bool
    decreases s, 5int,
{
    forall|i: int|
        0 <= i < s.len() ==> match #[trigger] s[i] {
            Element::Solid(sv) => line_faithful(sv),
            Element::Space => true,
        }
}

pub open spec fn pattern_line_faithful(p: PatternValue) -> bool
    decreases p, 8int,
{
    let name = p.name@;
    let args = p.arguments@;
    if ends_in(name, '!') {
        if name == "def!"@ {
            (args.len() == 3 && args[0] is Pattern) ==> {
                &&& newline_count(args[0]->Pattern_0.name@) == 0
                &&& line_faithful(args[1])
                &&& line_faithful(args[2])
            }
        } else if name == "raw!"@ {
            (args.len() == 1 && args[0] is Text) ==> newline_count(args[0]->Text_0@) == 0
        } else {
            true
        }
    } else if name == "$"@ {
        args.len() >= 1 ==> line_faithful(args[0])
    } else if name == "p"@ || name == "n"@ {
        true
    } else {
        seq_line_faithful(args)
    }
}

proof fn lemma_sync_value(w: WriterView, v: ParsedValue)
    requires
        line_synced(w),
        line_faithful(v),
    ensures
        spec_write_value(w, v).err is None ==> line_synced(spec_write_value(w, v).w),
    decreases v, 10int,
{
    match v {
        ParsedValue::Nil(at) => {
            lemma_sync_break(w, at);
            lemma_sync_push(spec_break(w, at), '{');
            lemma_sync_push(spec_push(spec_break(w, at), '{'), '}');
        },
        ParsedValue::Text(t, at) => {
            lemma_sync_break(w, at);
            let w1 = spec_push(spec_break(w, at), '{');
            lemma_sync_push(spec_break(w, at), '{');
            lemma_sync_norm_push(w1, t@);
            lemma_sync_push(spec_norm_push(w1, t@), '}');
        },
        ParsedValue::Dictionary(_, _) => {},
        ParsedValue::Table(tb, at) => {
            lemma_sync_break(w, at);
            lemma_sync_tabulation(spec_break(w, at), tb, at);
        },
        ParsedValue::Composition(elems, at) => {
            lemma_sync_break(w, at);
            lemma_sync_elements(spec_break(w, at), elems@, at);
        },
        ParsedValue::Pattern(p, at) => {
            lemma_sync_break(w, at);
            lemma_sync_macro(spec_break(w, at), p, at);
        },
    }
}

proof fn lemma_sync_elements(w: WriterView, elems: Seq<Element>, at: Position)
    requires
        line_synced(w),
        elements_line_faithful(elems),
    ensures
        spec_write_elements(w, elems, at).err is None ==> line_synced(
            spec_write_elements(w, elems, at).w,
        ),
    decreases elems, 30int,
{
    if elems.len() > 0 {
        let step = spec_write_element(w, elems[0], at);
        lemma_sync_element(w, elems[0], at);
        if step.err is None {
            let rest = elems.subrange(1, elems.len() as int);
            assert(forall|i: int|
                0 <= i < rest.len() ==> #[trigger] rest[i] == elems[i + 1]);
            lemma_sync_elements(step.w, rest, at);
        }
    }
}

proof fn lemma_sync_element(w: WriterView, e: Element, at: Position)
    requires
        line_synced(w),
        match e {
            Element::Solid(sv) => line_faithful(sv),
            Element::Space => true,
        },
    ensures
        spec_write_element(w, e, at).err is None ==> line_synced(spec_write_element(w, e, at).w),
    decreases e, 20int,
{
    match e {
        Element::Space => {
            lemma_sync_break(w, at);
            lemma_sync_push(spec_break(w, at), ' ');
        },
        Element::Solid(sv) => match sv {
            ParsedValue::Nil(sat) => {
                lemma_sync_break(w, sat);
                lemma_sync_push(spec_break(w, sat), '{');
                lemma_sync_push(spec_push(spec_break(w, sat), '{'), '}');
            },
            ParsedValue::Text(t, sat) => {
                lemma_sync_break(w, sat);
                let w1 = spec_break(w, sat);
                if w1.last_type == LastType::Caret || w1.last_type == LastType::Underscore {
                    lemma_sync_push(w1, '{');
                    lemma_sync_norm_push(spec_push(w1, '{'), t@);
                    lemma_sync_push(spec_norm_push(spec_push(w1, '{'), t@), '}');
                } else {
                    lemma_sync_separate(w1);
                    lemma_sync_norm_push(spec_separate(w1), t@);
                }
            },
            ParsedValue::Dictionary(_, _) => {},
            ParsedValue::Table(tb, sat) => {
                lemma_sync_break(w, sat);
                lemma_sync_tabulation(spec_break(w, sat), tb, sat);
            },
            ParsedValue::Composition(_, sat) => {
                lemma_sync_break(w, sat);
                let w1 = spec_push(spec_break(w, sat), '{');
                lemma_sync_push(spec_break(w, sat), '{');
                lemma_sync_value(w1, sv);
                let o = spec_write_value(w1, sv);
                if o.err is None {
                    lemma_sync_push(o.w, '}');
                }
            },
            ParsedValue::Pattern(p, sat) => {
                lemma_sync_break(w, sat);
                lemma_sync_macro(spec_break(w, sat), p, sat);
            },
        },
    }
}

proof fn lemma_sync_tabulation(w: WriterView, t: TableValue, at: Position)
    requires
        line_synced(w),
        seq_line_faithful(t.cells_spec()),
    ensures
        spec_write_tabulation(w, t, at).err is None ==> line_synced(
            spec_write_tabulation(w, t, at).w,
        ),
    decreases t, 30int,
{
    if t.columns_spec() != 0 {
        t.cells_height();
        lemma_sync_rows(w, t.cells_spec(), t.columns_spec() as int);
    }
}

proof fn lemma_sync_rows(w: WriterView, remaining: Seq<ParsedValue>, cols: int)
    requires
        line_synced(w),
        seq_line_faithful(remaining),
    ensures
        spec_write_rows(w, remaining, cols).err is None ==> line_synced(
            spec_write_rows(w, remaining, cols).w,
        ),
    decreases remaining, 30int,
{
    if remaining.len() > 0 && cols > 0 {
        let take_n: int = if cols < remaining.len() {
            cols
        } else {
            remaining.len() as int
        };
        let o1 = spec_write_value(w, remaining[0]);
        lemma_sync_value(w, remaining[0]);
        if o1.err is None {
            let row = remaining.subrange(1, take_n);
            let rest = remaining.subrange(take_n, remaining.len() as int);
            assert(forall|i: int| 0 <= i < row.len() ==> #[trigger] row[i] == remaining[i + 1]);
            assert(forall|i: int|
                0 <= i < rest.len() ==> #[trigger] rest[i] == remaining[i + take_n]);
            let o2 = spec_write_row_rest(o1.w, row);
            lemma_sync_row_rest(o1.w, row);
            if o2.err is None {
                lemma_sync_push(o2.w, '\\');
                lemma_sync_push(spec_push(o2.w, '\\'), '\\');
                let w3 = spec_push(spec_push(o2.w, '\\'), '\\');
                lemma_sync_rows(w3, rest, cols);
            }
        }
    }
}

proof fn lemma_sync_row_rest(w: WriterView, rest: Seq<ParsedValue>)
    requires
        line_synced(w),
        seq_line_faithful(rest),
    ensures
        spec_write_row_rest(w, rest).err is None ==> line_synced(spec_write_row_rest(w, rest).w),
    decreases rest, 20int,
{
    if rest.len() > 0 {
        lemma_sync_push(w, '&');
        let o = spec_write_value(spec_push(w, '&'), rest[0]);
        lemma_sync_value(spec_push(w, '&'), rest[0]);
        if o.err is None {
            let tail = rest.subrange(1, rest.len() as int);
            assert(forall|i: int| 0 <= i < tail.len() ==> #[trigger] tail[i] == rest[i + 1]);
            lemma_sync_row_rest(o.w, tail);
        }
    }
}

#[verifier::rlimit(80)]
proof fn lemma_sync_macro(w: WriterView, p: PatternValue, at: Position)
    requires
        line_synced(w),
        pattern_line_faithful(p),
    ensures
        spec_write_macro(w, p, at).err is None ==> line_synced(spec_write_macro(w, p, at).w),
    decreases p, 30int,
{
    let name = p.name@;
    let args = p.arguments@;
    if ends_in(name, '!') {
        if name == "def!"@ && args.len() == 3 && args[0] is Pattern {
            let tag = args[0]->Pattern_0;
            let lit = "\\newcommand"@;
            let w1 = WriterView {
                output: w.output + lit + seq!['\\'] + tag.name@ + seq!['['],
                ..w
            };
            reveal_strlit("\\newcommand");
            assert(forall|i: int| 0 <= i < lit.len() ==> lit[i] != '\n');
            lemma_nl_clean(lit);
            lemma_nl_append(w.output, lit);
            lemma_nl_append(w.output + lit, seq!['\\']);
            lemma_nl_clean(seq!['\\']);
            lemma_nl_append(w.output + lit + seq!['\\'], tag.name@);
            lemma_nl_append(w.output + lit + seq!['\\'] + tag.name@, seq!['[']);
            lemma_nl_clean(seq!['[']);
            assert(line_synced(w1));
            let o1 = spec_write_value(w1, args[1]);
            lemma_sync_value(w1, args[1]);
            if o1.err is None {
                let w2 = WriterView { output: o1.w.output + seq![']', '{'], ..o1.w };
                lemma_nl_append(o1.w.output, seq![']', '{']);
                lemma_nl_clean(seq![']', '{']);
                let o2 = spec_write_value(w2, args[2]);
                lemma_sync_value(w2, args[2]);
                if o2.err is None {
                    lemma_nl_append(o2.w.output, seq!['}']);
                    lemma_nl_clean(seq!['}']);
                }
            }
        } else if name == "raw!"@ && args.len() == 1 && args[0] is Text {
            lemma_nl_append(w.output, args[0]->Text_0@);
        }
    } else if name == "$"@ {
        if args.len() >= 1 {
            lemma_sync_push(w, '$');
            let o = spec_write_value(spec_push(w, '$'), args[0]);
            lemma_sync_value(spec_push(w, '$'), args[0]);
            if o.err is None {
                lemma_sync_push(o.w, '$');
            }
        }
    } else if name == "p"@ {
        lemma_sync_norm_push(w, "{\\par}"@);
    } else if name == "n"@ {
        lemma_sync_norm_push(w, "\\\\"@);
    } else {
        if ends_in(name, '\'') {
            let base = name.take(name.len() - 1);
            lemma_sync_push(w, '\\');
            lemma_sync_norm_push(spec_push(w, '\\'), base);
            let w1 = spec_norm_push(spec_push(w, '\\'), base);
            if args.len() > 0 {
                let o1 = spec_write_opt_arg(w1, args[0]);
                lemma_sync_opt_arg(w1, args[0]);
                if o1.err is None {
                    let rest = args.subrange(1, args.len() as int);
                    assert(forall|i: int|
                        0 <= i < rest.len() ==> #[trigger] rest[i] == args[i + 1]);
                    lemma_sync_args(o1.w, rest);
                }
            }
        } else {
            lemma_sync_push(w, '\\');
            lemma_sync_norm_push(spec_push(w, '\\'), name);
            let w1 = spec_norm_push(spec_push(w, '\\'), name);
            let w2 = if args.len() == 0 {
                WriterView { last_type: LastType::Command, ..w1 }
            } else {
                w1
            };
            lemma_sync_args(w2, args);
        }
    }
}

proof fn lemma_sync_args(w: WriterView, rest: Seq<ParsedValue>)
    requires
        line_synced(w),
        seq_line_faithful(rest),
    ensures
        spec_write_args(w, rest).err is None ==> line_synced(spec_write_args(w, rest).w),
    decreases rest, 30int,
{
    if rest.len() > 0 {
        let o = spec_write_gen_arg(w, rest[0]);
        lemma_sync_gen_arg(w, rest[0]);
        if o.err is None {
            let tail = rest.subrange(1, rest.len() as int);
            assert(forall|i: int| 0 <= i < tail.len() ==> #[trigger] tail[i] == rest[i + 1]);
            lemma_sync_args(o.w, tail);
        }
    }
}

proof fn lemma_sync_opt_arg(w: WriterView, a: ParsedValue)
    requires
        line_synced(w),
        line_faithful(a),
    ensures
        spec_write_opt_arg(w, a).err is None ==> line_synced(spec_write_opt_arg(w, a).w),
    decreases a, 20int,
{
    match a {
        ParsedValue::Nil(aat) => {
            lemma_sync_break(w, aat);
            lemma_sync_norm_push(spec_break(w, aat), "[]"@);
        },
        ParsedValue::Text(t, aat) => {
            lemma_sync_break(w, aat);
            lemma_sync_push(spec_break(w, aat), '[');
            let w1 = spec_push(spec_break(w, aat), '[');
            lemma_sync_norm_push(w1, t@);
            lemma_sync_push(spec_norm_push(w1, t@), ']');
        },
        ParsedValue::Dictionary(_, _) => {},
        ParsedValue::Table(_, _) => {},
        ParsedValue::Composition(_, aat) => {
            lemma_sync_break(w, aat);
            lemma_sync_push(spec_break(w, aat), '[');
            let w1 = spec_push(spec_break(w, aat), '[');
            lemma_sync_value(w1, a);
            let o = spec_write_value(w1, a);
            if o.err is None {
                lemma_sync_push(o.w, ']');
            }
        },
        ParsedValue::Pattern(p2, aat) => {
            lemma_sync_break(w, aat);
            lemma_sync_push(spec_break(w, aat), '[');
            let w1 = spec_push(spec_break(w, aat), '[');
            lemma_sync_macro(w1, p2, aat);
            let o = spec_write_macro(w1, p2, aat);
            if o.err is None {
                lemma_sync_push(o.w, ']');
            }
        },
    }
}

proof fn lemma_sync_gen_arg(w: WriterView, a: ParsedValue)
    requires
        line_synced(w),
        line_faithful(a),
    ensures
        spec_write_gen_arg(w, a).err is None ==> line_synced(spec_write_gen_arg(w, a).w),
    decreases a, 20int,
{
    match a {
        ParsedValue::Nil(aat) => {
            lemma_sync_break(w, aat);
            lemma_sync_norm_push(spec_break(w, aat), "{}"@);
        },
        ParsedValue::Text(t, aat) => {
            lemma_sync_break(w, aat);
            lemma_sync_push(spec_break(w, aat), '{');
            let w1 = spec_push(spec_break(w, aat), '{');
            lemma_sync_norm_push(w1, t@);
            lemma_sync_push(spec_norm_push(w1, t@), '}');
        },
        ParsedValue::Dictionary(_, _) => {},
        ParsedValue::Table(_, _) => {},
        ParsedValue::Composition(_, aat) => {
            lemma_sync_break(w, aat);
            lemma_sync_push(spec_break(w, aat), '{');
            let w1 = spec_push(spec_break(w, aat), '{');
            lemma_sync_value(w1, a);
            let o = spec_write_value(w1, a);
            if o.err is None {
                lemma_sync_push(o.w, '}');
            }
        },
        ParsedValue::Pattern(p2, aat) => {
            lemma_sync_break(w, aat);
            lemma_sync_push(spec_break(w, aat), '{');
            let w1 = spec_push(spec_break(w, aat), '{');
            lemma_sync_macro(w1, p2, aat);
            let o = spec_write_macro(w1, p2, aat);
            if o.err is None {
                lemma_sync_push(o.w, '}');
            }
        },
    }
}

/// In the default mirror mode, line breaks in the output track source
/// lines one-to-one: whenever transcoding succeeds, the number of emitted
/// line breaks equals the writer's final line counter minus one, so the
/// nth break was emitted exactly when the writer caught up with source
/// line n + 1. This holds of every tree that smuggles no raw line break
/// past the emission rules (see [`line_faithful`]).
pub proof fn lemma_mirror_line_sync(v: ParsedValue)
    requires
        line_faithful(v),
    ensures
        spec_transcode(v).err is None ==> {
            &&& spec_transcode(v).w.line >= 1
            &&& newline_count(spec_transcode(v).w.output) == spec_transcode(v).w.line - 1
        },
{
    assert(newline_count(initial_writer().output) == 0);
    lemma_sync_value(initial_writer(), v);
}

/// Transcoding is deterministic: two results that both satisfy
/// [`write_tex`]'s contract for the same tree carry the same text, or the
/// same error.
pub proof fn lemma_transcode_deterministic(
    v: ParsedValue,
    r1: Result<String, PreprocessorError>,
    r2: Result<String, PreprocessorError>,
)
    requires
        r1 is Ok <==> spec_transcode(v).err is None,
        r1 is Ok ==> r1->Ok_0@ == spec_transcode(v).w.output,
        r1 is Err ==> spec_transcode(v).err == Some(r1->Err_0@),
        r2 is Ok <==> spec_transcode(v).err is None,
        r2 is Ok ==> r2->Ok_0@ == spec_transcode(v).w.output,
        r2 is Err ==> spec_transcode(v).err == Some(r2->Err_0@),
    ensures
        r1 is Ok <==> r2 is Ok,
        r1 is Ok ==> r1->Ok_0@ == r2->Ok_0@,
        r1 is Err ==> r1->Err_0@ == r2->Err_0@,
{
}

} // verus!
