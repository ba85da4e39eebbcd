use aic::ir::eval::evaluate_text;
use aic::ir::program::parse_program;
use aic::ir::{BinaryOp, Capability, ExpressionKind, UnaryOp, Value};
use aic::opt::{analyze, fold_binary, fold_unary, optimize, optimize_with_report, CompilerOptions, OptimizationLevel};

const IR: &str = "aic_version 0.1 app \"x\" package \"dev.aic.x\" { fn used(x: i32) -> i32 { return x + 1 } fn transit(x: i32) -> i32 { return used(x) } fn unused() -> string { return \"dead\" + \" string\" } activity MainActivity { on_create { let root = android.linear_layout(orientation: vertical) let message = android.text_view(text: \"Result: \" + string(transit(1 + 2 * 3))) if false { android.set_text(view: message, text: \"unreachable\") } else { android.set_text(view: message, text: \"Result: \" + string(transit(7))) } android.add_view(parent: root, child: message) android.set_content_view(root) } } }";

#[test]
fn differential_reachability() {
    let p = parse_program(IR).unwrap();
    let (q, r) = optimize_with_report(p.clone(), CompilerOptions::default());
    assert_eq!(evaluate_text(&p).unwrap(), evaluate_text(&q).unwrap());
    assert_eq!(q.functions.iter().map(|f| f.name.as_str()).collect::<Vec<_>>(), ["used", "transit"]);
    assert_eq!(r.removed_functions(), 1);
    assert!(!format!("{q:?}").contains("unreachable"));
}

#[test]
fn o0_identity_and_deterministic_report() {
    let p = parse_program(IR).unwrap();
    let o = CompilerOptions { optimization_level: OptimizationLevel::Off };
    let (q, a) = optimize_with_report(p.clone(), o);
    let (_, b) = optimize_with_report(p.clone(), o);
    assert_eq!(p, q);
    assert_eq!(a, b);
    assert_eq!(a.removed_functions(), 0);
}

#[test]
fn folds_away_and_prunes_dead_persistence_resources() {
    let source = "aic_version 0.1 app \"x\" package \"dev.aic.x\" { capability persistence.key_value preference legacy: bool = false activity MainActivity { on_create { let root = android.linear_layout(orientation: vertical) if 1 + 1 == 3 { preference.set(legacy, true) } android.set_content_view(root) } } }";
    let p = parse_program(source).unwrap();
    let (q, report) = optimize_with_report(p, CompilerOptions::default());
    assert!(q.capabilities.is_empty());
    assert!(q.preferences.is_empty());
    assert_eq!(report.removed_resources(), 1);
}

#[test]
fn folding_agrees_with_evaluation() {
    let lit = |v: Value| ExpressionKind::Literal(v);
    assert_eq!(fold_binary(BinaryOp::Add, &lit(Value::I32(i32::MAX)), &lit(Value::I32(1))), Some(Value::I32(i32::MIN)));
    assert_eq!(fold_binary(BinaryOp::Divide, &lit(Value::I32(i32::MIN)), &lit(Value::I32(-1))), Some(Value::I32(i32::MIN)));
    assert_eq!(fold_binary(BinaryOp::Remainder, &lit(Value::I32(7)), &lit(Value::I32(0))), None);
    assert_eq!(fold_binary(BinaryOp::Equal, &lit(Value::String("a".into())), &lit(Value::String("a".into()))), Some(Value::Bool(true)));
    assert_eq!(fold_binary(BinaryOp::Add, &lit(Value::String("a".into())), &lit(Value::String("b".into()))), Some(Value::String("ab".into())));
    assert_eq!(fold_unary(UnaryOp::Negate, &lit(Value::I32(5))), Some(Value::I32(-5)));
    assert_eq!(fold_unary(UnaryOp::Not, &lit(Value::I32(5))), None);
}

#[test]
fn analysis_lists_reached_items_sorted() {
    let p = parse_program(IR).unwrap();
    let r = analyze(&p);
    assert_eq!(r.functions, vec!["string".to_string(), "transit".to_string(), "used".to_string()]);
    assert_eq!(r.views, vec!["message".to_string(), "root".to_string()]);
    assert!(r.capabilities.is_empty());
    let q = optimize(p, CompilerOptions::default());
    assert_eq!(q.functions.len(), 2);
}

#[test]
fn optimized_program_evaluates_alike() {
    let source = "aic_version 0.1 app \"x\" package \"dev.aic.x\" { fn twice(x: i32) -> i32 { if true { return x * 2 } else { return 0 } } fn dead() -> i32 { return 1 } activity MainActivity { on_create { let v: i32 = twice(2 + 3) let root = android.linear_layout(orientation: vertical) let message = android.text_view(text: \"v=\" + string(v)) android.add_view(parent: root, child: message) android.set_content_view(root) } } }";
    let p = parse_program(source).unwrap();
    let q = optimize(p.clone(), CompilerOptions::default());
    assert_eq!(evaluate_text(&p).unwrap(), "v=10");
    assert_eq!(evaluate_text(&q).unwrap(), "v=10");
    assert_eq!(q.functions.len(), 1);
    assert_eq!(q.functions[0].name, "twice");
}

#[test]
fn analysis_and_pruning_keep_exactly_the_used_resources() {
    let source = "aic_version 0.1 app \"x\" package \"dev.aic.x\" { capability persistence.key_value capability persistence.sqlite preference theme: string = \"light\" preference legacy: bool = false database notes version 1 { table note { id: i32 primary_key auto_increment title: string } table archive { id: i32 primary_key auto_increment } } activity MainActivity { on_create { let root = android.linear_layout(orientation: vertical) let label = android.text_view(text: preference.get(theme) + database.get(note, 1, title, \"none\")) android.add_view(parent: root, child: label) android.set_content_view(root) } } }";
    let p = parse_program(source).unwrap();
    let r = analyze(&p);
    assert_eq!(r.views, vec!["label".to_string(), "root".to_string()]);
    assert_eq!(r.preferences, vec!["theme".to_string()]);
    assert_eq!(r.tables, vec!["note".to_string()]);
    assert_eq!(r.columns, vec![("note".to_string(), vec!["title".to_string()])]);
    assert_eq!(r.capabilities, vec![Capability::KeyValue, Capability::Sqlite]);
    let (q, report) = optimize_with_report(p, CompilerOptions::default());
    assert_eq!(q.preferences.len(), 1);
    assert_eq!(q.preferences[0].name, "theme");
    let db = q.database.clone().unwrap();
    assert_eq!(db.tables.len(), 1);
    assert_eq!(db.tables[0].name, "note");
    assert_eq!(q.capabilities, vec![Capability::KeyValue, Capability::Sqlite]);
    assert_eq!(report.after, analyze(&q));
    assert_eq!(report.removed_resources(), 2);
}
