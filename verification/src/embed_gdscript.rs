//! The token-stream walker and whitespace reconstruction engine.
//!
//! `EmbedGdscript` replays a token tree into exactly-formatted GDScript
//! text. Layout is reproduced from each token's source span: line breaks
//! and indentation relative to the column of the first token that starts
//! a new line (the baseline). A `'` punctuation tight against an
//! identifier splices a Rust variable: the pair is replaced by a mangled
//! placeholder name and recorded in the variable registry.

use vstd::prelude::*;

use crate::registry::Registry;
use crate::registry::registry_sorted;
use crate::registry::spec_insert;
use crate::text::char_repeat;
use crate::text::push_char;
use crate::text::push_repeat;
use crate::token::Delimiter;
use crate::token::Position;
use crate::token::Spacing;
use crate::token::Span;
use crate::token::Token;
use crate::token::spec_close_delim;
use crate::token::spec_open_delim;

verus! {

/// Why a reconstruction was abandoned. Each variant carries the span of
/// the token at which the walk stopped.
#[derive(Clone, Copy, PartialEq, Eq, Structural, Debug)]
pub enum EmbedError {
    /// A token starting a new line sits left of the baseline indentation.
    Indentation(Span),
    /// The splice marker is not followed by an identifier token.
    MalformedSplice(Span),
    /// A cursor column left the machine's integer range.
    CursorOverflow(Span),
}

/// The reconstruction state, abstractly: the text produced so far, the
/// baseline indentation once fixed, the registered captures, the cursor's
/// position in the original source, and whether splicing is disabled.
#[verifier::ext_equal]
pub ghost struct EmbedView {
    pub text: Seq<char>,
    pub first_indent: Option<usize>,
    pub vars: Seq<(Seq<char>, Seq<char>)>,
    pub line: int,
    pub column: int,
    pub compile_time: bool,
}

/// What aligning the cursor to `target` does: on a line advance, emit the
/// newlines, fix the baseline on first use, and indent relative to it —
/// failing when the target column sits left of the baseline; on the same
/// line, pad with spaces up to the target column; never move backwards.
pub open spec fn spec_reconcile(s: EmbedView, target: Position, span: Span) -> (
    EmbedView,
    Option<EmbedError>,
) {
    if target.line > s.line {
        let s1 = EmbedView {
            text: s.text + char_repeat('\n', (target.line - s.line) as nat),
            line: target.line as int,
            ..s
        };
        let b = match s.first_indent {
            Some(b) => b,
            None => target.column,
        };
        let s2 = EmbedView { first_indent: Some(b), ..s1 };
        if target.column < b {
            (s2, Some(EmbedError::Indentation(span)))
        } else {
            (
                EmbedView {
                    text: s2.text + char_repeat(' ', (target.column - b) as nat),
                    column: target.column as int,
                    ..s2
                },
                None,
            )
        }
    } else if target.line == s.line {
        if target.column > s.column {
            (
                EmbedView {
                    text: s.text + char_repeat(' ', (target.column - s.column) as nat),
                    column: target.column as int,
                    ..s
                },
                None,
            )
        } else {
            (s, None)
        }
    } else {
        (s, None)
    }
}

/// The column at which a group's closing delimiter starts: the group's
/// end column less the delimiter's width, saturating at zero.
pub open spec fn spec_close_start(span: Span, close_len: nat) -> Position {
    Position {
        line: span.end.line,
        column: if span.end.column >= close_len {
            (span.end.column - close_len) as usize
        } else {
            0
        },
    }
}

/// What walking a token sequence does to the reconstruction state: each
/// token is aligned to its span and emitted; groups recurse with the
/// closing delimiter re-aligned to the group's end; a tight `'` marker
/// followed by an identifier becomes the mangled capture name.
pub open spec fn spec_add(s: EmbedView, ts: Seq<Token>) -> (EmbedView, Option<EmbedError>)
    decreases ts,
{
    if ts.len() == 0 {
        (s, None)
    } else {
        let t = ts[0];
        let sp = t.spec_span();
        let r1 = spec_reconcile(s, sp.start, sp);
        let s1 = r1.0;
        if r1.1 is Some {
            r1
        } else {
            match t {
                Token::Group { delimiter, tokens, span } => {
                    let open = spec_open_delim(delimiter);
                    let close = spec_close_delim(delimiter);
                    if s1.column + open.len() > usize::MAX {
                        (s1, Some(EmbedError::CursorOverflow(span)))
                    } else {
                        let s2 = EmbedView {
                            text: s1.text + open,
                            column: s1.column + open.len(),
                            ..s1
                        };
                        let r3 = spec_add(s2, tokens@);
                        let s3 = r3.0;
                        if r3.1 is Some {
                            r3
                        } else {
                            let r4 = spec_reconcile(s3, spec_close_start(span, close.len()), span);
                            let s4 = r4.0;
                            if r4.1 is Some {
                                r4
                            } else if s4.column + close.len() > usize::MAX {
                                (s4, Some(EmbedError::CursorOverflow(span)))
                            } else {
                                let s5 = EmbedView {
                                    text: s4.text + close,
                                    column: s4.column + close.len(),
                                    ..s4
                                };
                                spec_add(s5, ts.subrange(1, ts.len() as int))
                            }
                        }
                    }
                },
                Token::Punct { ch, spacing, span } => {
                    if !s1.compile_time && ch == '\'' && spacing == Spacing::Joint {
                        if ts.len() < 2 || !(ts[1] is Ident) {
                            (s1, Some(EmbedError::MalformedSplice(span)))
                        } else {
                            let name = ts[1]->Ident_text;
                            let mangled = crate::mangle_prefix() + name@;
                            if s1.column + name@.len() + 1 > usize::MAX {
                                (s1, Some(EmbedError::CursorOverflow(span)))
                            } else {
                                let s2 = EmbedView {
                                    text: s1.text + mangled,
                                    column: s1.column + name@.len() + 1,
                                    vars: spec_insert(s1.vars, mangled, name@),
                                    ..s1
                                };
                                spec_add(s2, ts.subrange(2, ts.len() as int))
                            }
                        }
                    } else {
                        if s1.column + 1 > usize::MAX {
                            (s1, Some(EmbedError::CursorOverflow(span)))
                        } else {
                            let s2 = EmbedView {
                                text: s1.text.push(ch),
                                column: s1.column + 1,
                                ..s1
                            };
                            spec_add(s2, ts.subrange(1, ts.len() as int))
                        }
                    }
                },
                Token::Ident { text, span } => {
                    let s2 = EmbedView {
                        text: s1.text + text@,
                        line: span.end.line as int,
                        column: span.end.column as int,
                        ..s1
                    };
                    spec_add(s2, ts.subrange(1, ts.len() as int))
                },
                Token::Literal { text, span } => {
                    let s2 = EmbedView {
                        text: s1.text + text@,
                        line: span.end.line as int,
                        column: span.end.column as int,
                        ..s1
                    };
                    spec_add(s2, ts.subrange(1, ts.len() as int))
                },
            }
        }
    }
}

/// The width in columns of a group's opening delimiter.
fn open_delim_len(d: Delimiter) -> (r: usize)
    ensures
        r == spec_open_delim(d).len(),
{
    match d {
        Delimiter::Invisible => 0,
        _ => 1,
    }
}

/// The width in columns of a group's closing delimiter.
fn close_delim_len(d: Delimiter) -> (r: usize)
    ensures
        r == spec_close_delim(d).len(),
{
    match d {
        Delimiter::Invisible => 0,
        _ => 1,
    }
}

/// Emits the opening delimiter of `d`, if it has one.
fn push_open_delim(s: &mut String, d: Delimiter)
    ensures
        final(s)@ == old(s)@ + spec_open_delim(d),
{
    match d {
        Delimiter::Parenthesis => push_char(s, '('),
        Delimiter::Brace => push_char(s, '{'),
        Delimiter::Bracket => push_char(s, '['),
        Delimiter::Invisible => {},
    }
    proof {
        assert(s@ =~= old(s)@ + spec_open_delim(d));
    }
}

/// Emits the closing delimiter of `d`, if it has one.
fn push_close_delim(s: &mut String, d: Delimiter)
    ensures
        final(s)@ == old(s)@ + spec_close_delim(d),
{
    match d {
        Delimiter::Parenthesis => push_char(s, ')'),
        Delimiter::Brace => push_char(s, '}'),
        Delimiter::Bracket => push_char(s, ']'),
        Delimiter::Invisible => {},
    }
    proof {
        assert(s@ =~= old(s)@ + spec_close_delim(d));
    }
}

/// One reconstruction session: the text accumulated so far, the baseline
/// indentation once a token has started a new line, the captured
/// variables, the cursor's position in the original source, and the flag
/// that disables splicing for fully literal text.
pub struct EmbedGdscript {
    pub gdscript: String,
    pub first_indent: Option<usize>,
    pub variables: Registry,
    pub loc: Position,
    pub compile_time: bool,
}

impl View for EmbedGdscript {
    type V = EmbedView;

    open spec fn view(&self) -> EmbedView {
        EmbedView {
            text: self.gdscript@,
            first_indent: self.first_indent,
            vars: self.variables@,
            line: self.loc.line as int,
            column: self.loc.column as int,
            compile_time: self.compile_time,
        }
    }
}

impl EmbedGdscript {
    /// A fresh session: no text, no baseline yet, no captures, cursor at
    /// the very start of the source, splicing enabled.
    pub fn new() -> (r: EmbedGdscript)
        ensures
            r@ == (EmbedView {
                text: Seq::<char>::empty(),
                first_indent: None,
                vars: Seq::<(Seq<char>, Seq<char>)>::empty(),
                line: 1,
                column: 0,
                compile_time: false,
            }),
    {
        let r = EmbedGdscript {
            gdscript: String::new(),
            first_indent: None,
            variables: Registry::new(),
            loc: Position { line: 1, column: 0 },
            compile_time: false,
        };
        proof {
            assert(r@ =~= (EmbedView {
                text: Seq::<char>::empty(),
                first_indent: None,
                vars: Seq::<(Seq<char>, Seq<char>)>::empty(),
                line: 1,
                column: 0,
                compile_time: false,
            }));
        }
        r
    }

    /// The placeholder name a spliced identifier is emitted under: a
    /// fixed prefix followed by the identifier's own text.
    pub fn mangle_name(name: &String) -> (r: String)
        ensures
            r@ == crate::mangle_prefix() + name@,
    {
        let mut r = String::new();
        r.append("_RUST_");
        r.append(name.as_str());
        proof {
            reveal_strlit("_RUST_");
            assert(r@ =~= crate::mangle_prefix() + name@);
        }
        r
    }

    /// Walks a token sequence, appending its reconstructed text and
    /// registering its captures, exactly as `spec_add` describes.
    pub fn add(&mut self, input: &Vec<Token>) -> (r: Result<(), EmbedError>)
        requires
            registry_sorted(old(self)@.vars),
        ensures
            registry_sorted(final(self)@.vars),
            final(self)@ == spec_add(old(self)@, input@).0,
            r == if let Some(e) = spec_add(old(self)@, input@).1 {
                Err::<(), EmbedError>(e)
            } else {
                Ok::<(), EmbedError>(())
            },
        decreases input@,
    {
        let n = input.len();
        let mut i: usize = 0;
        proof {
            assert(input@.subrange(0, n as int) =~= input@);
        }
        while i < n
            invariant
                n == input@.len(),
                i <= n,
                registry_sorted(self@.vars),
                spec_add(old(self)@, input@) == spec_add(
                    self@,
                    input@.subrange(i as int, n as int),
                ),
            decreases n - i,
        {
            let ghost pre = self@;
            let ghost rest = input@.subrange(i as int, n as int);
            proof {
                assert(rest[0] == input@[i as int]);
            }
            let t = &input[i];
            let sp = t.span();
            let ghost r1 = spec_reconcile(pre, sp.start, sp);
            match self.add_whitespace(sp, sp.start) {
                Err(e) => {
                    proof {
                        assert(spec_add(pre, rest) == (self@, Some(e)));
                    }
                    return Err(e);
                },
                Ok(_) => {},
            }
            match t {
                Token::Group { delimiter, tokens, span } => {
                    let olen = open_delim_len(*delimiter);
                    let c1 = match self.loc.column.checked_add(olen) {
                        Some(c) => c,
                        None => {
                            proof {
                                assert(spec_add(pre, rest) == (
                                    self@,
                                    Some(EmbedError::CursorOverflow(*span)),
                                ));
                            }
                            return Err(EmbedError::CursorOverflow(*span));
                        },
                    };
                    push_open_delim(&mut self.gdscript, *delimiter);
                    self.loc.column = c1;
                    let ghost s2 = EmbedView {
                        text: r1.0.text + spec_open_delim(*delimiter),
                        column: r1.0.column + spec_open_delim(*delimiter).len(),
                        ..r1.0
                    };
                    proof {
                        assert(self@ =~= s2);
                        assert(decreases_to!(input@ => input@[i as int]));
                        assert(input@[i as int]->tokens == *tokens);
                        assert(decreases_to!(input@[i as int] => input@[i as int]->tokens));
                        assert(decreases_to!(input@[i as int]->tokens => tokens@));
                    }
                    let ghost r3 = spec_add(s2, tokens@);
                    match self.add(tokens) {
                        Err(e) => {
                            proof {
                                assert(spec_add(pre, rest) == (self@, Some(e)));
                            }
                            return Err(e);
                        },
                        Ok(_) => {},
                    }
                    let clen = close_delim_len(*delimiter);
                    let close_col: usize = if span.end.column >= clen {
                        span.end.column - clen
                    } else {
                        0
                    };
                    let ctarget = Position { line: span.end.line, column: close_col };
                    proof {
                        assert(ctarget == spec_close_start(
                            *span,
                            spec_close_delim(*delimiter).len(),
                        ));
                    }
                    let ghost r4 = spec_reconcile(r3.0, ctarget, *span);
                    match self.add_whitespace(*span, ctarget) {
                        Err(e) => {
                            proof {
                                assert(spec_add(pre, rest) == (self@, Some(e)));
                            }
                            return Err(e);
                        },
                        Ok(_) => {},
                    }
                    let c2 = match self.loc.column.checked_add(clen) {
                        Some(c) => c,
                        None => {
                            proof {
                                assert(spec_add(pre, rest) == (
                                    self@,
                                    Some(EmbedError::CursorOverflow(*span)),
                                ));
                            }
                            return Err(EmbedError::CursorOverflow(*span));
                        },
                    };
                    push_close_delim(&mut self.gdscript, *delimiter);
                    self.loc.column = c2;
                    let ghost s5 = EmbedView {
                        text: r4.0.text + spec_close_delim(*delimiter),
                        column: r4.0.column + spec_close_delim(*delimiter).len(),
                        ..r4.0
                    };
                    proof {
                        assert(self@ =~= s5);
                        assert(rest.subrange(1, rest.len() as int) =~= input@.subrange(
                            i + 1,
                            n as int,
                        ));
                        assert(spec_add(pre, rest) == spec_add(
                            self@,
                            input@.subrange(i + 1, n as int),
                        ));
                    }
                    i = i + 1;
                },
                Token::Punct { ch, spacing, span } => {
                    if !self.compile_time && *ch == '\'' && *spacing == Spacing::Joint {
                        if i + 1 >= n {
                            proof {
                                assert(rest.len() < 2);
                                assert(spec_add(pre, rest) == (
                                    self@,
                                    Some(EmbedError::MalformedSplice(*span)),
                                ));
                            }
                            return Err(EmbedError::MalformedSplice(*span));
                        }
                        proof {
                            assert(rest[1] == input@[i + 1]);
                        }
                        match &input[i + 1] {
                            Token::Ident { text: name, span: _ } => {
                                let mangled = Self::mangle_name(name);
                                let ident_len = name.as_str().unicode_len();
                                let c1 = match ident_len.checked_add(1) {
                                    Some(c) => c,
                                    None => {
                                        proof {
                                            assert(spec_add(pre, rest) == (
                                                self@,
                                                Some(EmbedError::CursorOverflow(*span)),
                                            ));
                                        }
                                        return Err(EmbedError::CursorOverflow(*span));
                                    },
                                };
                                let c2 = match self.loc.column.checked_add(c1) {
                                    Some(c) => c,
                                    None => {
                                        proof {
                                            assert(spec_add(pre, rest) == (
                                                self@,
                                                Some(EmbedError::CursorOverflow(*span)),
                                            ));
                                        }
                                        return Err(EmbedError::CursorOverflow(*span));
                                    },
                                };
                                self.gdscript.append(mangled.as_str());
                                self.loc.column = c2;
                                self.variables.insert(mangled, name.clone());
                                let ghost s2 = EmbedView {
                                    text: r1.0.text + (crate::mangle_prefix() + name@),
                                    column: r1.0.column + name@.len() + 1,
                                    vars: spec_insert(
                                        r1.0.vars,
                                        crate::mangle_prefix() + name@,
                                        name@,
                                    ),
                                    ..r1.0
                                };
                                proof {
                                    assert(self@ =~= s2);
                                    assert(rest.subrange(2, rest.len() as int) =~= input@.subrange(
                                        i + 2,
                                        n as int,
                                    ));
                                    assert(spec_add(pre, rest) == spec_add(
                                        self@,
                                        input@.subrange(i + 2, n as int),
                                    ));
                                }
                                i = i + 2;
                            },
                            _ => {
                                proof {
                                    assert(!(rest[1] is Ident));
                                    assert(spec_add(pre, rest) == (
                                        self@,
                                        Some(EmbedError::MalformedSplice(*span)),
                                    ));
                                }
                                return Err(EmbedError::MalformedSplice(*span));
                            },
                        }
                    } else {
                        let c1 = match self.loc.column.checked_add(1) {
                            Some(c) => c,
                            None => {
                                proof {
                                    assert(spec_add(pre, rest) == (
                                        self@,
                                        Some(EmbedError::CursorOverflow(*span)),
                                    ));
                                }
                                return Err(EmbedError::CursorOverflow(*span));
                            },
                        };
                        push_char(&mut self.gdscript, *ch);
                        self.loc.column = c1;
                        let ghost s2 = EmbedView {
                            text: r1.0.text.push(*ch),
                            column: r1.0.column + 1,
                            ..r1.0
                        };
                        proof {
                            assert(self@ =~= s2);
                            assert(rest.subrange(1, rest.len() as int) =~= input@.subrange(
                                i + 1,
                                n as int,
                            ));
                            assert(spec_add(pre, rest) == spec_add(
                                self@,
                                input@.subrange(i + 1, n as int),
                            ));
                        }
                        i = i + 1;
                    }
                },
                Token::Ident { text, span } => {
                    self.gdscript.append(text.as_str());
                    self.loc = span.end;
                    let ghost s2 = EmbedView {
                        text: r1.0.text + text@,
                        line: span.end.line as int,
                        column: span.end.column as int,
                        ..r1.0
                    };
                    proof {
                        assert(self@ =~= s2);
                        assert(rest.subrange(1, rest.len() as int) =~= input@.subrange(
                            i + 1,
                            n as int,
                        ));
                        assert(spec_add(pre, rest) == spec_add(
                            self@,
                            input@.subrange(i + 1, n as int),
                        ));
                    }
                    i = i + 1;
                },
                Token::Literal { text, span } => {
                    self.gdscript.append(text.as_str());
                    self.loc = span.end;
                    let ghost s2 = EmbedView {
                        text: r1.0.text + text@,
                        line: span.end.line as int,
                        column: span.end.column as int,
                        ..r1.0
                    };
                    proof {
                        assert(self@ =~= s2);
                        assert(rest.subrange(1, rest.len() as int) =~= input@.subrange(
                            i + 1,
                            n as int,
                        ));
                        assert(spec_add(pre, rest) == spec_add(
                            self@,
                            input@.subrange(i + 1, n as int),
                        ));
                    }
                    i = i + 1;
                },
            }
        }
        proof {
            assert(input@.subrange(n as int, n as int) =~= Seq::<Token>::empty());
        }
        Ok(())
    }

    /// Aligns the cursor to `target`, emitting the newlines and spaces
    /// `spec_reconcile` describes, and fails when a new line would be
    /// indented left of the baseline.
    fn add_whitespace(&mut self, span: Span, target: Position) -> (r: Result<(), EmbedError>)
        ensures
            final(self)@ == spec_reconcile(old(self)@, target, span).0,
            r == if let Some(e) = spec_reconcile(old(self)@, target, span).1 {
                Err::<(), EmbedError>(e)
            } else {
                Ok::<(), EmbedError>(())
            },
    {
        if target.line > self.loc.line {
            let dl = target.line - self.loc.line;
            push_repeat(&mut self.gdscript, '\n', dl);
            self.loc.line = target.line;
            let b: usize = match self.first_indent {
                Some(x) => x,
                None => target.column,
            };
            self.first_indent = Some(b);
            if target.column < b {
                proof {
                    assert(self@ =~= spec_reconcile(old(self)@, target, span).0);
                }
                return Err(EmbedError::Indentation(span));
            }
            push_repeat(&mut self.gdscript, ' ', target.column - b);
            self.loc.column = target.column;
            proof {
                assert(self@ =~= spec_reconcile(old(self)@, target, span).0);
            }
            Ok(())
        } else if target.line == self.loc.line {
            if target.column > self.loc.column {
                push_repeat(&mut self.gdscript, ' ', target.column - self.loc.column);
                self.loc.column = target.column;
            }
            proof {
                assert(self@ =~= spec_reconcile(old(self)@, target, span).0);
            }
            Ok(())
        } else {
            proof {
                assert(self@ =~= spec_reconcile(old(self)@, target, span).0);
            }
            Ok(())
        }
    }
}

} // verus!
