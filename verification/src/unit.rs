//! The output assembler: packages the reconstructed text, the
//! declaration block derived from the registry, and the baseline
//! indentation into one embedding unit, and prepares the final script
//! source a caller hands to the embedding runtime.

use vstd::prelude::*;

use crate::embed_gdscript::EmbedError;
use crate::embed_gdscript::EmbedGdscript;
use crate::embed_gdscript::EmbedView;
use crate::embed_gdscript::spec_add;
use crate::registry::Registry;
use crate::registry::registry_sorted;
use crate::text::char_repeat;
use crate::text::line_end;
use crate::text::push_char;
use crate::text::push_repeat;
use crate::token::Token;

verus! {

/// The state a fresh reconstruction session starts from.
pub open spec fn initial_view() -> EmbedView {
    EmbedView {
        text: Seq::<char>::empty(),
        first_indent: None,
        vars: Seq::<(Seq<char>, Seq<char>)>::empty(),
        line: 1,
        column: 0,
        compile_time: false,
    }
}

/// The declaration block derived from the registry: one `var` line per
/// entry, in registry order.
pub open spec fn spec_decls(vars: Seq<(Seq<char>, Seq<char>)>) -> Seq<char>
    decreases vars.len(),
{
    if vars.len() == 0 {
        Seq::empty()
    } else {
        "var "@ + vars[0].0 + seq!['\n'] + spec_decls(vars.subrange(1, vars.len() as int))
    }
}

/// Everything one macro invocation produces: the reconstructed GDScript,
/// the declaration block for the captured variables, the baseline
/// indentation, and the registry itself, whose entries drive the binding
/// of captured values.
#[derive(Debug)]
pub struct EmbeddingUnit {
    pub gdscript: String,
    pub extra_source: String,
    pub first_indent: usize,
    pub variables: Registry,
}

/// Builds the declaration block of a registry.
fn build_decls(vars: &Registry) -> (r: String)
    ensures
        r@ == spec_decls(vars@),
{
    let n = vars.entries.len();
    let mut out = String::new();
    let mut i: usize = 0;
    proof {
        assert(vars@.subrange(0, vars@.len() as int) =~= vars@);
        assert(out@ =~= Seq::<char>::empty());
    }
    while i < n
        invariant
            n == vars.entries@.len(),
            n == vars@.len(),
            i <= n,
            spec_decls(vars@) == out@ + spec_decls(vars@.subrange(i as int, n as int)),
        decreases n - i,
    {
        let ghost rest = vars@.subrange(i as int, n as int);
        proof {
            assert(rest[0] == vars@[i as int]);
            assert(vars@[i as int] == vars.entries@[i as int]@);
        }
        out.append("var ");
        out.append(vars.entries[i].mangled.as_str());
        push_char(&mut out, '\n');
        proof {
            assert(rest.subrange(1, rest.len() as int) =~= vars@.subrange(i + 1, n as int));
            assert(out@ =~= (out@ + Seq::<char>::empty()));
            assert(spec_decls(vars@) == out@ + spec_decls(vars@.subrange(i + 1, n as int)));
        }
        i = i + 1;
    }
    proof {
        assert(vars@.subrange(n as int, n as int) =~= Seq::<(Seq<char>, Seq<char>)>::empty());
        assert(out@ =~= (out@ + Seq::<char>::empty()));
    }
    out
}

/// Reconstructs one embedded block: walks the tokens from a fresh
/// session and assembles the embedding unit, or reports why the
/// reconstruction was abandoned.
pub fn gdscript_impl(input: &Vec<Token>) -> (r: Result<EmbeddingUnit, EmbedError>)
    ensures
        match r {
            Ok(u) => {
                &&& spec_add(initial_view(), input@).1 is None
                &&& u.gdscript@ == spec_add(initial_view(), input@).0.text
                &&& u.variables@ == spec_add(initial_view(), input@).0.vars
                &&& registry_sorted(u.variables@)
                &&& u.extra_source@ == spec_decls(spec_add(initial_view(), input@).0.vars)
                &&& u.first_indent == match spec_add(initial_view(), input@).0.first_indent {
                    Some(b) => b,
                    None => 0usize,
                }
            },
            Err(e) => spec_add(initial_view(), input@).1 == Some(e),
        },
{
    let mut x = EmbedGdscript::new();
    proof {
        assert(x@ == initial_view());
    }
    match x.add(input) {
        Err(e) => {
            return Err(e);
        },
        Ok(_) => {},
    }
    let extra_source = build_decls(&x.variables);
    let first_indent: usize = match x.first_indent {
        Some(b) => b,
        None => 0,
    };
    let EmbedGdscript { gdscript, variables, .. } = x;
    Ok(EmbeddingUnit { gdscript, extra_source, first_indent, variables })
}

/// `src` re-indented line by line: each line of `src` gets `ind` leading
/// spaces and a terminating newline.
pub open spec fn spec_indent_lines(src: Seq<char>, ind: nat) -> Seq<char>
    decreases src.len(),
{
    if src.len() == 0 {
        Seq::empty()
    } else {
        let e = line_end(src);
        char_repeat(' ', ind) + src.subrange(0, e as int) + seq!['\n'] + (if e >= src.len() {
            Seq::<char>::empty()
        } else {
            spec_indent_lines(src.subrange(e as int + 1, src.len() as int), ind)
        })
    }
}

/// Re-indents `src` as `spec_indent_lines` describes.
pub fn indent_lines(src: &String, ind: usize) -> (r: String)
    ensures
        r@ == spec_indent_lines(src@, ind as nat),
{
    let len = src.as_str().unicode_len();
    let mut out = String::new();
    let mut pos: usize = 0;
    proof {
        assert(src@.subrange(0, len as int) =~= src@);
        assert(out@ =~= Seq::<char>::empty());
    }
    while pos < len
        invariant
            len == src@.len(),
            pos <= len,
            spec_indent_lines(src@, ind as nat) == out@ + spec_indent_lines(
                src@.subrange(pos as int, len as int),
                ind as nat,
            ),
        decreases len - pos,
    {
        let ghost rest = src@.subrange(pos as int, len as int);
        let mut j = pos;
        while j < len && src.as_str().get_char(j) != '\n'
            invariant
                len == src@.len(),
                pos <= j <= len,
                forall|k: int| pos <= k < j ==> src@[k] != '\n',
            decreases len - j,
        {
            j = j + 1;
        }
        proof {
            crate::text::lemma_line_end(rest);
            assert forall|k: int| 0 <= k < j - pos implies rest[k] != '\n' by {
                assert(rest[k] == src@[pos + k]);
            }
            if line_end(rest) < (j - pos) as nat {
                assert(rest[line_end(rest) as int] == '\n');
                assert(false);
            }
            if line_end(rest) > (j - pos) as nat {
                assert(j < len);
                assert(rest[j - pos] == src@[j as int]);
                assert(false);
            }
            assert(line_end(rest) == (j - pos) as nat);
        }
        push_repeat(&mut out, ' ', ind);
        out.append(src.as_str().substring_char(pos, j));
        push_char(&mut out, '\n');
        proof {
            assert(src@.subrange(pos as int, j as int) =~= rest.subrange(0, (j - pos) as int));
        }
        if j < len {
            proof {
                assert(rest.subrange(j - pos + 1, rest.len() as int) =~= src@.subrange(
                    j + 1,
                    len as int,
                ));
                assert(out@ =~= (out@ + Seq::<char>::empty()));
                assert(spec_indent_lines(src@, ind as nat) == out@ + spec_indent_lines(
                    src@.subrange(j + 1, len as int),
                    ind as nat,
                ));
            }
            pos = j + 1;
        } else {
            proof {
                assert(line_end(rest) == rest.len());
                assert(out@ =~= (out@ + Seq::<char>::empty()));
                assert(src@.subrange(len as int, len as int) =~= Seq::<char>::empty());
                assert(spec_indent_lines(src@, ind as nat) == out@ + spec_indent_lines(
                    src@.subrange(len as int, len as int),
                    ind as nat,
                ));
            }
            pos = len;
        }
    }
    proof {
        assert(src@.subrange(len as int, len as int) =~= Seq::<char>::empty());
        assert(out@ =~= (out@ + Seq::<char>::empty()));
    }
    out
}

/// The full script for a unit whose text runs inside a generated
/// `run` function: a fixed header, the user text re-indented into the
/// function body, a separating newline, and the declaration block.
pub open spec fn spec_wrap_run(src: Seq<char>, extra: Seq<char>, ind: nat) -> Seq<char> {
    "extends Reference; func run():"@ + spec_indent_lines(src, ind) + seq!['\n'] + extra
}

/// The full script for a unit executed bare, without a wrapping
/// function: a fixed header, the user text as it stands, a separating
/// newline, and the declaration block.
pub open spec fn spec_wrap_bare(src: Seq<char>, extra: Seq<char>) -> Seq<char> {
    "extends Reference;"@ + src + seq!['\n'] + extra
}

/// Assembles the wrapped-function form of the script.
pub fn wrap_run(src: &String, extra: &String, ind: usize) -> (r: String)
    ensures
        r@ == spec_wrap_run(src@, extra@, ind as nat),
{
    let mut out = String::new();
    out.append("extends Reference; func run():");
    let body = indent_lines(src, ind);
    out.append(body.as_str());
    push_char(&mut out, '\n');
    out.append(extra.as_str());
    proof {
        assert(out@ =~= spec_wrap_run(src@, extra@, ind as nat));
    }
    out
}

/// Assembles the bare form of the script.
pub fn wrap_bare(src: &String, extra: &String) -> (r: String)
    ensures
        r@ == spec_wrap_bare(src@, extra@),
{
    let mut out = String::new();
    out.append("extends Reference;");
    out.append(src.as_str());
    push_char(&mut out, '\n');
    out.append(extra.as_str());
    proof {
        assert(out@ =~= spec_wrap_bare(src@, extra@));
    }
    out
}

/// How a value is built from an embedding unit: each implementor states
/// which final script source it prepares from the unit.
pub trait FromInlineGdscript: Sized {
    /// The script source this value carries.
    spec fn script_source(&self) -> Seq<char>;

    /// The script source this implementation prepares from a unit.
    spec fn prepared(unit: EmbeddingUnit) -> Seq<char>;

    /// Builds the value from the unit, preparing exactly the script
    /// source this implementation promises.
    fn from_gdscript_macro(unit: &EmbeddingUnit) -> (r: Self)
        ensures
            r.script_source() == Self::prepared(*unit),
    ;
}

/// The script of a unit whose text runs inside a generated function and
/// whose result is handed back to the caller.
pub struct RunScript {
    pub text: String,
}

impl FromInlineGdscript for RunScript {
    open spec fn script_source(&self) -> Seq<char> {
        self.text@
    }

    open spec fn prepared(unit: EmbeddingUnit) -> Seq<char> {
        spec_wrap_run(unit.gdscript@, unit.extra_source@, unit.first_indent as nat)
    }

    fn from_gdscript_macro(unit: &EmbeddingUnit) -> (r: Self) {
        RunScript { text: wrap_run(&unit.gdscript, &unit.extra_source, unit.first_indent) }
    }
}

/// The script of a unit executed bare, whose interpreter context stays
/// available to the caller.
pub struct BareScript {
    pub text: String,
}

impl FromInlineGdscript for BareScript {
    open spec fn script_source(&self) -> Seq<char> {
        self.text@
    }

    open spec fn prepared(unit: EmbeddingUnit) -> Seq<char> {
        spec_wrap_bare(unit.gdscript@, unit.extra_source@)
    }

    fn from_gdscript_macro(unit: &EmbeddingUnit) -> (r: Self) {
        BareScript { text: wrap_bare(&unit.gdscript, &unit.extra_source) }
    }
}

} // verus!
