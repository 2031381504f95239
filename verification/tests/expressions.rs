use stylus::expressions::{calculate, calculate_bool, Ctx, Value};
use stylus::kmap::KeyMap;

fn int_result(expr: &str, ctx: &Ctx) -> i64 {
    match calculate(expr, ctx).unwrap() {
        Value::Int(i) => i,
        Value::Str(s) => panic!("expected an integer, got {:?}", s),
    }
}

fn str_result(expr: &str, ctx: &Ctx) -> String {
    match calculate(expr, ctx).unwrap() {
        Value::Str(s) => s,
        Value::Int(i) => panic!("expected a string, got {}", i),
    }
}

#[test]
fn test_expression_with_context() {
    let mut ctx: Ctx = KeyMap::new();
    ctx.insert("a".to_string(), Value::Int(2));
    ctx.insert("b".to_string(), Value::Int(3));
    ctx.insert("s".to_string(), Value::Str("x".to_string()));

    // 2 + 3 == 5 => 1
    assert_eq!(int_result("a + b == 5", &ctx), 1);

    // logical and/or and prefix not
    assert_eq!(int_result("(a and b) or not 0", &ctx), 1);

    // string concat
    assert_eq!(str_result("s + \"y\"", &ctx), "xy");
}

#[test]
fn test_precedence_python_like() {
    let mut ctx: Ctx = KeyMap::new();
    ctx.insert("a".to_string(), Value::Int(1));
    ctx.insert("b".to_string(), Value::Int(2));
    ctx.insert("c".to_string(), Value::Int(3));

    // and/or lower precedence than comparisons
    assert_eq!(int_result("a == 1 and b == 2 or c == 0", &ctx), 1);
    assert_eq!(int_result("a == 0 and b == 2 or c == 3", &ctx), 1);

    // not binds tighter than and/or but looser than comparisons
    assert_eq!(int_result("not a == 1", &ctx), 0);
    assert_eq!(int_result("not a == 0 and b == 2", &ctx), 1);
}

#[test]
fn test_coercions() {
    let mut ctx: Ctx = KeyMap::new();
    ctx.insert("n".to_string(), Value::Int(42));
    ctx.insert("t".to_string(), Value::Str("7".to_string()));

    assert_eq!(str_result("str(n)", &ctx), "42");
    assert_eq!(int_result("int(t) + 1", &ctx), 8);
    assert_eq!(str_result("str( int(\"5\") + 1 )", &ctx), "6");
}

#[test]
fn test_string_quotes_and_escapes() {
    let ctx: Ctx = KeyMap::new();

    assert_eq!(str_result(r#"'a' + "b""#, &ctx), "ab");
    assert_eq!(str_result(r#" '\"' "#, &ctx), "\"");
    assert_eq!(str_result(r#" '\'' "#, &ctx), "'");
    assert_eq!(str_result(r#" '\\' "#, &ctx), r"\");
    assert_eq!(str_result(r#" "\\" "#, &ctx), r"\");
}

#[test]
fn test_nested_expressions() {
    let mut ctx: Ctx = KeyMap::new();
    ctx.insert("ifDescr".to_string(), Value::Str("eth0".to_string()));
    let v = int_result(
        r#"
    (startswith(ifDescr, 'eth') and not contains(ifDescr, '.'))
      or contains(ifDescr, "10G Ethernet Adapter")
      or contains(ifDescr, "2.5GbE Controller")
      "#,
        &ctx,
    );
    assert_eq!(v, 1);
}

#[test]
fn test_division_by_zero_fails() {
    let ctx: Ctx = KeyMap::new();
    let err = calculate("1 / 0", &ctx).unwrap_err();
    assert_eq!(err.message(), "division by zero");
}

#[test]
fn test_unknown_identifier_fails() {
    let ctx: Ctx = KeyMap::new();
    let err = calculate("nosuchthing + 1", &ctx).unwrap_err();
    assert_eq!(err.message(), "unknown identifier: nosuchthing");
    assert!(!calculate_bool("nosuchthing", &ctx));
}

#[test]
fn test_exponent_edges() {
    let ctx: Ctx = KeyMap::new();
    assert_eq!(int_result("2 ^ 10", &ctx), 1024);
    assert_eq!(int_result("2 ^ 3 ^ 2", &ctx), 512);
    // a negative exponent fails the expression
    assert_eq!(
        calculate("2 ^ (0 - 1)", &ctx).unwrap_err().message(),
        "overflow"
    );
    // an overflowing power fails the expression
    assert_eq!(
        calculate("10 ^ 40", &ctx).unwrap_err().message(),
        "overflow"
    );
}

#[test]
fn test_truthiness() {
    let mut ctx: Ctx = KeyMap::new();
    ctx.insert("empty".to_string(), Value::Str(String::new()));
    ctx.insert("word".to_string(), Value::Str("hi".to_string()));
    assert!(!calculate_bool("empty", &ctx));
    assert!(calculate_bool("word", &ctx));
    assert!(!calculate_bool("0", &ctx));
    assert!(calculate_bool("7", &ctx));
}

#[test]
fn test_round_trip_str_int() {
    let ctx: Ctx = KeyMap::new();
    // str(int("N")) == "N" for a canonical integer literal
    assert_eq!(str_result("str(int(\"8081\"))", &ctx), "8081");
    // int(str(x)) == x
    assert_eq!(int_result("int(str(12345))", &ctx), 12345);
    assert_eq!(int_result("int(str(0 - 7))", &ctx), -7);
}

#[test]
fn test_referential_transparency_example() {
    let mut ctx: Ctx = KeyMap::new();
    ctx.insert("lost".to_string(), Value::Int(2));
    ctx.insert("count".to_string(), Value::Int(3));
    let a = int_result("lost == count", &ctx);
    let b = int_result("lost == count", &ctx);
    assert_eq!(a, b);
}
