use inline_gdscript::BareScript;
use inline_gdscript::FromInlineGdscript;
use inline_gdscript::Position;
use inline_gdscript::RunScript;
use inline_gdscript::Span;
use inline_gdscript::Token;
use inline_gdscript::gdscript_impl;
use inline_gdscript::indent_lines;
use inline_gdscript::wrap_bare;
use inline_gdscript::wrap_run;

fn ident(text: &str, line: usize, col: usize) -> Token {
    let w = text.chars().count();
    Token::Ident {
        text: String::from(text),
        span: Span {
            start: Position { line, column: col },
            end: Position { line, column: col + w },
        },
    }
}

#[test]
fn indent_lines_prefixes_every_line() {
    assert_eq!(indent_lines(&String::from("a\nb"), 2), "  a\n  b\n");
    assert_eq!(indent_lines(&String::from("a\nb\n"), 2), "  a\n  b\n");
    assert_eq!(indent_lines(&String::from(""), 3), "");
    assert_eq!(indent_lines(&String::from("\nx"), 1), " \n x\n");
}

#[test]
fn wrap_run_builds_function_body() {
    let s = wrap_run(&String::from("\nprint(c)"), &String::from("var _RUST_x\n"), 4);
    assert_eq!(
        s,
        "extends Reference; func run():    \n    print(c)\n\nvar _RUST_x\n"
    );
}

#[test]
fn wrap_bare_keeps_text_as_is() {
    let s = wrap_bare(&String::from("\nfunc f():\n\tpass"), &String::from(""));
    assert_eq!(s, "extends Reference;\nfunc f():\n\tpass\n");
}

#[test]
fn run_script_prepares_wrapped_source() {
    let tokens = vec![ident("a", 2, 4), ident("b", 3, 6)];
    let unit = gdscript_impl(&tokens).unwrap();
    assert_eq!(unit.gdscript, "\na\n  b");
    let run = RunScript::from_gdscript_macro(&unit);
    assert_eq!(
        run.text,
        "extends Reference; func run():    \n    a\n      b\n\n"
    );
}

#[test]
fn bare_script_prepares_unwrapped_source() {
    let tokens = vec![ident("a", 2, 4)];
    let unit = gdscript_impl(&tokens).unwrap();
    let bare = BareScript::from_gdscript_macro(&unit);
    assert_eq!(bare.text, "extends Reference;\na\n");
}
