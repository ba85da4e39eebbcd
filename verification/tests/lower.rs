use aic::encoding::DexError;
use aic::ir::program::parse_program;
use aic::ir::{Column, SourceLocation, SourceSpan, Table, Type};
use aic::lower::{create_table_sql, lower_function, lower_function_typed, StringLowering};

fn strings() -> StringLowering {
    StringLowering {
        value_of_i32: 10,
        value_of_bool: 16,
        builder_type: 11,
        builder_init: 12,
        builder_append: 13,
        builder_to_string: 14,
        equals: 15,
        text_view_get_text: 17,
        object_to_string: 18,
        string_matches: 19,
        integer_parse_int: 20,
        context_get_string: 21,
    }
}

#[test]
fn boolean_and_branches_before_rhs_division() {
    let p = parse_program("aic_version 0.1 app \"x\" package \"dev.aic.x\" { fn safe(flag: bool, divisor: i32) -> bool { return flag && 10 / divisor > 1 } activity MainActivity { on_create { let value: bool = safe(false, 0) let root = android.linear_layout(orientation: vertical) let message = android.text_view(text: string(value)) android.add_view(parent: root, child: message) android.set_content_view(root) } } }").unwrap();
    let m = lower_function(&p.functions[0], &|_| Ok(0)).unwrap();
    let b = m.code.iter().position(|w| w & 255 == 0x38).unwrap();
    let d = m.code.iter().position(|w| w & 255 == 0x93).unwrap();
    assert!(b < d)
}

#[test]
fn lowers_runtime_string_conversion_concat_and_reference_return() {
    let source = "aic_version 0.1 app \"x\" package \"dev.aic.x\" { fn render(value: i32) -> string { return \"Value: \" + string(value) } activity MainActivity { on_create { let text: string = render(7) let root = android.linear_layout(orientation: vertical) let message = android.text_view(text: text) android.add_view(parent: root, child: message) android.set_content_view(root) } } }";
    let program = parse_program(source).unwrap();
    let method = lower_function_typed(
        &program.functions[0],
        &|_| Err(DexError::InvalidInput("unexpected user call")),
        &|value| {
            if value == "Value: " {
                Ok(3)
            } else {
                Err(DexError::InvalidInput("unknown string"))
            }
        },
        strings(),
    )
    .unwrap();
    assert!(method.code.iter().any(|word| word & 0xff == 0x1a));
    assert!(method.code.iter().any(|word| word & 0xff == 0x22));
    assert!(method.code.iter().any(|word| word & 0xff == 0x11));
}

#[test]
fn lowered_frame_has_sixteen_registers_and_parameter_ins() {
    let p = parse_program("aic_version 0.1 app \"x\" package \"dev.aic.x\" { fn add(a: i32, b: i32) -> i32 { return a + b } activity MainActivity { on_create { let v: i32 = add(1, 2) let root = android.linear_layout(orientation: vertical) let message = android.text_view(text: string(v)) android.add_view(parent: root, child: message) android.set_content_view(root) } } }").unwrap();
    let m = lower_function(&p.functions[0], &|_| Ok(0)).unwrap();
    assert_eq!(m.registers, 16);
    assert_eq!(m.ins, 2);
    assert!(!m.code.is_empty());
}

#[test]
fn more_than_five_parameters_are_rejected() {
    let p = parse_program("aic_version 0.1 app \"x\" package \"dev.aic.x\" { fn wide(a: i32, b: i32, c: i32, d: i32, e: i32, f: i32) -> i32 { return a } activity MainActivity { on_create { let v: i32 = wide(1, 2, 3, 4, 5, 6) let root = android.linear_layout(orientation: vertical) let message = android.text_view(text: string(v)) android.add_view(parent: root, child: message) android.set_content_view(root) } } }").unwrap();
    assert!(matches!(
        lower_function(&p.functions[0], &|_| Ok(0)),
        Err(DexError::InvalidInput("M2 function exceeds five parameters"))
    ));
}

#[test]
fn create_table_sql_lists_columns() {
    let at = SourceLocation { line: 1, column: 1 };
    let span = SourceSpan { start: at, end: at };
    let table = Table {
        name: "notes".to_string(),
        columns: vec![
            Column { name: "id".to_string(), ty: Type::I32, primary_key: true, auto_increment: true, span },
            Column { name: "body".to_string(), ty: Type::String, primary_key: false, auto_increment: false, span },
            Column { name: "done".to_string(), ty: Type::Bool, primary_key: false, auto_increment: false, span },
        ],
        span,
    };
    assert_eq!(
        create_table_sql(&table),
        "CREATE TABLE IF NOT EXISTS notes (id INTEGER PRIMARY KEY AUTOINCREMENT,body TEXT NOT NULL,done INTEGER NOT NULL)"
    );
}

#[test]
fn returning_a_small_constant_lowers_to_const_and_return() {
    let p = parse_program("aic_version 0.1 app \"x\" package \"dev.aic.x\" { fn seven() -> i32 { return 7 } activity MainActivity { on_create { let v: i32 = seven() let root = android.linear_layout(orientation: vertical) let message = android.text_view(text: string(v)) android.add_view(parent: root, child: message) android.set_content_view(root) } } }").unwrap();
    let m = lower_function(&p.functions[0], &|_| Ok(0)).unwrap();
    assert_eq!(m.code, vec![0x7012, 0x000f]);
}
