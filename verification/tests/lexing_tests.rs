use shakemyleg::compiler::compile;
use shakemyleg::error::SML_Error;
use shakemyleg::json::Json;
use shakemyleg::value::SCALE;

fn obj(entries: Vec<(&str, Json)>) -> Json {
    Json::Object(entries.into_iter().map(|(k, v)| (k.to_string(), v)).collect())
}

fn get_str(o: &Json, k: &str) -> String {
    match o.get(k) {
        Some(Json::String(s)) => s.clone(),
        other => panic!("expected a string under {k:?}, got {other:?}"),
    }
}

#[test]
fn nested_quotes_make_one_token() {
    let src = r#"
state s:
    when true:
        outputs.a = "he said 'hi ho' twice"
"#;
    let mut sm = compile(src).unwrap();
    let o = sm.run(obj(vec![])).unwrap().unwrap();
    assert_eq!(get_str(&o, "a"), "he said 'hi ho' twice".to_string());
}

#[test]
fn a_lone_nested_quote_is_unterminated() {
    let src = r#"
state s:
    when true:
        outputs.a = "it's unpaired"
"#;
    assert!(matches!(compile(src), Err(SML_Error::SyntaxError(_))));
}

#[test]
fn backslash_escapes_a_quote() {
    let src = "
state s:
    when true:
        outputs.a = \"one \\\" two\"
";
    let mut sm = compile(src).unwrap();
    let o = sm.run(obj(vec![])).unwrap().unwrap();
    assert_eq!(get_str(&o, "a"), "one \" two".to_string());
}

#[test]
fn multi_character_operators_need_whitespace() {
    let src = r#"
state s:
    when true:
        outputs.a = 1==1
"#;
    assert!(matches!(compile(src), Err(SML_Error::SyntaxError(_))));
}

#[test]
fn single_character_symbols_need_no_whitespace() {
    let src = r#"
state s:
    when true:
        outputs.a = (1+2)*3
"#;
    let mut sm = compile(src).unwrap();
    let o = sm.run(obj(vec![])).unwrap().unwrap();
    assert_eq!(o.get("a"), Some(&Json::Number(9 * SCALE)));
}

#[test]
fn normally_is_a_sole_first_branch() {
    let src = r#"
state s:
    normally:
        outputs.a = 7
"#;
    let mut sm = compile(src).unwrap();
    let o = sm.run(obj(vec![])).unwrap().unwrap();
    assert_eq!(o.get("a"), Some(&Json::Number(7 * SCALE)));
}

#[test]
fn comments_do_not_disturb_indentation() {
    let src = r#"
# leading comment
state s:
# comment at the margin
    when true:
        # indented comment
        outputs.a = 1
"#;
    let mut sm = compile(src).unwrap();
    let o = sm.run(obj(vec![])).unwrap().unwrap();
    assert_eq!(o.get("a"), Some(&Json::Number(SCALE)));
}

#[test]
fn nested_list_literals() {
    let src = r#"
state s:
    when true:
        outputs.a = [[1, 2], [3]]
"#;
    let mut sm = compile(src).unwrap();
    let o = sm.run(obj(vec![])).unwrap().unwrap();
    assert_eq!(
        o.get("a"),
        Some(
            &Json::Array(
                vec![
                    Json::Array(vec![Json::Number(SCALE), Json::Number(2 * SCALE)]),
                    Json::Array(vec![Json::Number(3 * SCALE)]),
                ],
            ),
        )
    );
}

#[test]
fn empty_list_literal_is_rejected() {
    let src = r#"
state s:
    when true:
        outputs.a = []
"#;
    assert!(matches!(compile(src), Err(SML_Error::SyntaxError(_))));
}

#[test]
fn fractional_digits_past_the_sixth_are_dropped() {
    let src = r#"
state s:
    when true:
        outputs.a = 0.1234567
"#;
    let mut sm = compile(src).unwrap();
    let o = sm.run(obj(vec![])).unwrap().unwrap();
    assert_eq!(o.get("a"), Some(&Json::Number(123_456)));
}
