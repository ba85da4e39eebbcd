use aic::ir::lex::{lex, Sym, K};
use aic::ir::program::{parse_program, valid_package_name};
use aic::ir::eval::evaluate_text;
use aic::ir::MinimalClass;

const M1: &str = "aic_version 0.1 app \"Hello\" package \"dev.aic.hello\" { activity MainActivity { on_create { let root = android.linear_layout(orientation: vertical) let message = android.text_view(text: \"Hello\") android.add_view(parent: root, child: message) android.set_content_view(root) } } }";
const M2: &str = "aic_version 0.1 app \"Compute\" package \"dev.aic.compute\" { fn sum(n: i32) -> i32 { var total: i32 = 0 for i in 0..n { if i % 2 == 0 { total = total + i } else { total = total + 1 } } return total } activity MainActivity { on_create { let result: i32 = sum(10) let root = android.linear_layout(orientation: vertical) let message = android.text_view(text: \"Result: \" + string(result)) android.add_view(parent: root, child: message) android.set_content_view(root) } } }";

#[test]
fn m1() {
    assert!(parse_program(M1).is_ok())
}

#[test]
fn m2() {
    assert_eq!(evaluate_text(&parse_program(M2).unwrap()).unwrap(), "Result: 25")
}

#[test]
fn precedence() {
    let p = parse_program(&M2.replace("sum(10)", "1 + 2 * 3")).unwrap();
    assert_eq!(evaluate_text(&p).unwrap(), "Result: 7")
}

#[test]
fn immutable() {
    assert_eq!(parse_program(&M2.replace("var total", "let total")).unwrap_err().code, "AIC1108")
}

#[test]
fn descriptor() {
    assert!(MinimalClass::new("Ldev/aic/X;").is_ok())
}

#[test]
fn rejects_type_and_symbol_errors_with_locations() {
    let type_error = parse_program(&M2.replace("var total: i32 = 0", "var total: bool = 0")).unwrap_err();
    assert_eq!(type_error.code, "AIC1116");
    assert!(type_error.location.is_some());
    let symbol_error = parse_program(&M2.replace("total = total + i", "total = missing + i")).unwrap_err();
    assert_eq!(symbol_error.code, "AIC1107");
}

#[test]
fn rejects_missing_return_and_static_zero_divisor() {
    assert_eq!(parse_program(&M2.replace(" return total", "")).unwrap_err().code, "AIC1104");
    assert_eq!(parse_program(&M2.replace("i % 2", "i % 0")).unwrap_err().code, "AIC1111");
}

#[test]
fn preserves_m1_view_diagnostics() {
    assert_eq!(parse_program(&M1.replace("child: message", "child: missing")).unwrap_err().code, "AIC1105");
    assert_eq!(parse_program(&M1.replace("android.set_content_view(root)", "")).unwrap_err().code, "AIC1106");
}

#[test]
fn rejects_invalid_packages() {
    assert_eq!(parse_program(&M1.replace("dev.aic.hello", "hello")).unwrap_err().code, "AIC1101");
    assert_eq!(parse_program(&M1.replace("dev.aic.hello", "Dev.aic")).unwrap_err().code, "AIC1101");
    assert_eq!(parse_program(&M1.replace("dev.aic.hello", "dev..aic")).unwrap_err().code, "AIC1101");
    assert!(valid_package_name("dev.aic_2.x"));
    assert!(!valid_package_name("dev.aic."));
    assert!(!valid_package_name("dev.2aic"));
}

#[test]
fn rejects_duplicate_content_view() {
    let twice = M1.replace("android.set_content_view(root)", "android.set_content_view(root) android.set_content_view(root)");
    assert_eq!(parse_program(&twice).unwrap_err().code, "AIC1107");
}

#[test]
fn rejects_recursive_functions() {
    let source = M2.replace("return total }", "return total + again(1) } fn again(k: i32) -> i32 { return sum(k) }");
    assert_eq!(parse_program(&source).unwrap_err().code, "AIC1119");
}

#[test]
fn rejects_duplicate_functions() {
    let source = M2.replace("activity MainActivity", "fn sum(k: i32) -> i32 { return k } activity MainActivity");
    assert_eq!(parse_program(&source).unwrap_err().code, "AIC1102");
}

#[test]
fn verified_program_keeps_the_source_parts() {
    let p = parse_program(M2).unwrap();
    assert_eq!(p.package, "dev.aic.compute");
    assert_eq!(p.label, "Compute");
    assert_eq!(p.functions.len(), 1);
    assert_eq!(p.functions[0].name, "sum");
    assert!(p.capabilities.is_empty());
}

#[test]
fn lexer_tokens_and_spans() {
    let t = lex("let x = 42 # note\n\"a\\n\" ->").unwrap();
    assert_eq!(t.len(), 7);
    assert!(matches!(&t[0].k, K::Word(w) if w == "let"));
    assert_eq!((t[0].s.start.line, t[0].s.start.column, t[0].s.end.column), (1, 1, 4));
    assert!(matches!(&t[1].k, K::Word(w) if w == "x"));
    assert!(matches!(t[2].k, K::Sym(Sym::Assign)));
    assert!(matches!(t[3].k, K::Int(42)));
    assert!(matches!(&t[4].k, K::Str(s) if s == "a\n"));
    assert_eq!((t[4].s.start.line, t[4].s.start.column, t[4].s.end.column), (2, 1, 6));
    assert!(matches!(t[5].k, K::Sym(Sym::Arrow)));
    assert!(matches!(t[6].k, K::Eof));
}

#[test]
fn lexer_errors() {
    assert_eq!(lex("2147483648").unwrap_err().code, "AIC1201");
    assert_eq!(lex("\"\\q\"").unwrap_err().code, "AIC1202");
    assert_eq!(lex("\"abc").unwrap_err().code, "AIC1203");
    assert_eq!(lex("@").unwrap_err().code, "AIC1204");
    assert!(lex("2147483647").is_ok());
}

#[test]
fn capabilities_must_match_their_use() {
    let unused = M2.replace("fn sum", "capability persistence.key_value fn sum");
    assert_eq!(parse_program(&unused).unwrap_err().code, "AIC1316");
    let undeclared = "aic_version 0.1 app \"x\" package \"dev.aic.x\" { preference theme: string = \"light\" activity MainActivity { on_create { let root = android.linear_layout(orientation: vertical) let label = android.text_view(text: preference.get(theme)) android.add_view(parent: root, child: label) android.set_content_view(root) } } }";
    assert_eq!(parse_program(undeclared).unwrap_err().code, "AIC1315");
    let declared = undeclared.replace("preference theme", "capability persistence.key_value preference theme");
    assert!(parse_program(&declared).is_ok());
}

#[test]
fn persistence_is_refused_inside_functions_and_after_returns() {
    let in_function = "aic_version 0.1 app \"x\" package \"dev.aic.x\" { capability persistence.key_value preference theme: string = \"light\" fn f() -> string { return preference.get(theme) } activity MainActivity { on_create { let root = android.linear_layout(orientation: vertical) let label = android.text_view(text: f() + preference.get(theme)) android.add_view(parent: root, child: label) android.set_content_view(root) } } }";
    let err = parse_program(in_function).unwrap_err();
    assert_eq!(err.code, "AIC1317");
    assert!(err.location.is_some());
    let unreachable = M2.replace("return total }", "return total return 0 }");
    assert_eq!(parse_program(&unreachable).unwrap_err().code, "AIC1105");
}

#[test]
fn rejects_bad_orientation_and_capability_declarations() {
    assert_eq!(parse_program(&M1.replace("vertical", "diagonal")).unwrap_err().code, "AIC1012");
    assert_eq!(
        parse_program(&M1.replace("{ activity", "{ capability persistence.key_value activity")).unwrap_err().code,
        "AIC1316"
    );
    assert_eq!(
        parse_program(&M1.replace("{ activity", "{ capability persistence.camera activity")).unwrap_err().code,
        "AIC1301"
    );
    assert_eq!(
        parse_program(&M1.replace(
            "{ activity",
            "{ capability persistence.key_value capability persistence.key_value activity"
        ))
        .unwrap_err()
        .code,
        "AIC1307"
    );
}

#[test]
fn lexing_errors_come_out_of_parse_program() {
    let d = parse_program("@").unwrap_err();
    assert_eq!(d.code, "AIC1204");
    assert_eq!(d.message, "unexpected character `@`");
}
