use shakemyleg::compiler::compile;
use shakemyleg::error::SML_Result;
use shakemyleg::json::Json;
use shakemyleg::state_machine::StateMachine;
use shakemyleg::value::SCALE;

fn obj(entries: Vec<(&str, Json)>) -> Json {
    Json::Object(entries.into_iter().map(|(k, v)| (k.to_string(), v)).collect())
}

fn num(whole: i64) -> Json {
    Json::Number(whole * SCALE)
}

fn get_num(o: &Json, k: &str) -> i64 {
    match o.get(k) {
        Some(Json::Number(n)) => *n,
        other => panic!("expected a number under {k:?}, got {other:?}"),
    }
}

#[test]
fn test_compile_1() {
    let src = r#"
state A:
    when true:
        outputs.bar = inputs.bar+1
        changeto B
state B:
    when true:
        outputs.bar = inputs.bar + 1
        changeto A
"#;
    let mut sm = compile(src).unwrap();

    let i = obj(vec![("bar", num(0))]);
    let o = sm.run(i).unwrap().unwrap();
    assert_eq!(get_num(&o, "bar"), SCALE);
    assert_eq!(sm.current_state().unwrap(), "B".to_string());
}

#[test]
#[should_panic]
fn test_compile_parens_1() {
    let src = r#"
state A:
    when true:
        outputs.bar = (inputs.bar+1)*2
        changeto B
state B:
    when true:
        outputs.bar = (inputs.bar + 1
        changeto A
"#;
    let _ = compile(src).unwrap();
}

#[test]
#[should_panic]
fn test_compile_parens_2() {
    let src = r#"
state A:
    when true:
        outputs.bar = (inputs.bar+1)*2
        changeto B
state B:
    when true:
        outputs.bar = inputs.bar + 1)
        changeto A
"#;
    let _ = compile(src).unwrap();
}

#[test]
#[should_panic]
fn test_compile_quotes_1() {
    let src = r#"
state A:
    when true:
        outputs.bar = (inputs.bar+1)*2
        changeto B
state B:
    when true:
        outputs.bar = inputs.bar + 1
        outputs.foo = "foo bar baz
        changeto A
"#;
    let _ = compile(src).unwrap();
}

#[test]
fn test_compile_always_otherwise_1() {
    let src = r#"
state A:
    always:
        changeto B
state B:
    when false:
        changeto A
    otherwise:
        changeto A
"#;
    let _ = compile(src).unwrap();
}

#[test]
#[should_panic]
fn test_compile_always_otherwise_2() {
    let src = r#"
state A:
    always:
        changeto B
    otherwise:
        changeto A
state B:
    always:
        changeto A
"#;
    let _ = compile(src).unwrap();
}

#[test]
#[should_panic]
fn test_compile_always_otherwise_3() {
    let src = r#"
state A:
    otherwise:
        changeto B
    when true:
        changeto A
state B:
    always:
        changeto A
"#;
    let _ = compile(src).unwrap();
}

#[test]
fn test_compile_always_otherwise_4() {
    let src = r#"
state A:
    when false:
        changeto A
    otherwise:
        changeto B
state B:
    always:
        changeto A
"#;
    let _ = compile(src).unwrap();
}

#[test]
fn test_compile_end() {
    let src = r#"
state final:
    always:
        outputs.bar = 1
        end
"#;
    let mut sm = compile(src).unwrap();

    let i = obj(vec![("foo", Json::Array(vec![num(0)]))]);
    let o = sm.run(i).unwrap().unwrap();
    assert_eq!(get_num(&o, "bar"), SCALE);

    let i = obj(vec![("foo", Json::Array(vec![num(0)]))]);
    let rv: SML_Result<Option<Json>> = sm.run(i);
    assert!(matches!(rv, Ok(None)));
}

#[test]
fn test_compile_contains_1() {
    let src = r#"
state final:
    when inputs.foo ^= 0:
        outputs.bar = 1
    otherwise:
        outputs.bar = 0
"#;
    let mut sm = compile(src).unwrap();

    let i = obj(vec![("foo", Json::Array(vec![num(0), num(1), num(2), num(3)]))]);
    let o = sm.run(i).unwrap().unwrap();
    assert_eq!(get_num(&o, "bar"), SCALE);

    let i = obj(vec![("foo", Json::Array(vec![num(1), num(2), num(3)]))]);
    let o = sm.run(i).unwrap().unwrap();
    assert_eq!(get_num(&o, "bar"), 0);
}

#[test]
#[should_panic]
fn test_compile_contains_2() {
    let src = r#"
state final:
    when outputs.bar ^= 0:
        outputs.bar = 1
    otherwise:
        outputs.bar = 0
"#;
    let mut sm = compile(src).unwrap();

    let i = obj(vec![("foo", Json::Array(vec![num(0), num(1), num(2), num(3)]))]);
    let o = sm.run(i).unwrap().unwrap();
    assert_eq!(get_num(&o, "bar"), SCALE);
}

fn is_send_sync<T: Send + Sync>() {}

#[test]
fn test_send_sync() {
    is_send_sync::<StateMachine>();
}

#[test]
fn test_default() {
    let src = r#"
state final:
    when inputs.foo == 0:
        outputs.bar = 1
    when true:
        outputs.bar = 2
    otherwise:
        default
        outputs.bar = 3
"#;
    let mut sm = compile(src).unwrap();

    let i = obj(vec![("foo", num(1))]);
    let o = sm.run(i).unwrap().unwrap();
    assert_eq!(get_num(&o, "bar"), 2 * SCALE);

    let i = obj(vec![("foo", num(1))]);
    let o = sm.advance(i).unwrap().unwrap();
    assert_eq!(get_num(&o, "bar"), 3 * SCALE);
}
