use shakemyleg::compiler::compile;
use shakemyleg::error::SML_Error;
use shakemyleg::json::Json;
use shakemyleg::value::SCALE;

fn obj(entries: Vec<(&str, Json)>) -> Json {
    Json::Object(entries.into_iter().map(|(k, v)| (k.to_string(), v)).collect())
}

fn num(whole: i64) -> Json {
    Json::Number(whole * SCALE)
}

fn get_num(o: &Json, k: &str) -> i64 {
    match o.get(k) {
        Some(Json::Number(n)) => *n,
        other => panic!("expected a number under {k:?}, got {other:?}"),
    }
}

#[test]
fn compile_starts_at_first_state() {
    let src = r#"
state alpha:
    when true:
        changeto beta
state beta:
    always:
        stay
"#;
    let sm = compile(src).unwrap();
    assert_eq!(sm.current_state().unwrap(), "alpha".to_string());
}

#[test]
fn stay_only_state_never_moves() {
    let src = r#"
state loopy:
    when true:
        outputs.bar = 1
        stay
"#;
    let mut sm = compile(src).unwrap();
    for _ in 0..5 {
        let _ = sm.run(obj(vec![("bar", num(0))])).unwrap().unwrap();
        assert_eq!(sm.current_state().unwrap(), "loopy".to_string());
    }
}

#[test]
fn ended_machine_absorbs() {
    let src = r#"
state once:
    always:
        globals.count = 1
        end
"#;
    let mut sm = compile(src).unwrap();
    let o = sm.run(obj(vec![])).unwrap();
    assert!(o.is_some());
    assert!(sm.current_state().is_none());
    let globals_after_end = sm.globals();

    for _ in 0..3 {
        assert!(matches!(sm.run(obj(vec![])), Ok(None)));
        assert!(matches!(sm.advance(obj(vec![])), Ok(None)));
        assert_eq!(sm.globals(), globals_after_end);
        assert!(sm.current_state().is_none());
    }
}

#[test]
fn default_head_runs_before_head_before_body() {
    let src = r#"
default head:
    outputs.x = 1
state only:
    head:
        outputs.y = outputs.x + 1
    when true:
        outputs.z = outputs.y + 1
"#;
    let mut sm = compile(src).unwrap();
    let o = sm.run(obj(vec![])).unwrap().unwrap();
    assert_eq!(get_num(&o, "x"), SCALE);
    assert_eq!(get_num(&o, "y"), 2 * SCALE);
    assert_eq!(get_num(&o, "z"), 3 * SCALE);
}

#[test]
fn only_first_true_branch_runs() {
    let src = r#"
state pick:
    when true:
        globals.first = 1
    when true:
        globals.second = 1
    when false:
        globals.third = 1
"#;
    let mut sm = compile(src).unwrap();
    let _ = sm.run(obj(vec![])).unwrap().unwrap();
    let g = sm.globals();
    assert_eq!(get_num(&g, "first"), SCALE);
    assert!(g.get("second").is_none());
    assert!(g.get("third").is_none());
}

#[test]
fn scenario_two_states_flip() {
    let src = r#"
state A:
    when true:
        outputs.bar = inputs.bar + 1
        changeto B
state B:
    when true:
        outputs.bar = inputs.bar + 1
        changeto A
"#;
    let mut sm = compile(src).unwrap();
    let o = sm.run(obj(vec![("bar", num(0))])).unwrap().unwrap();
    assert_eq!(get_num(&o, "bar"), SCALE);
    assert_eq!(sm.current_state().unwrap(), "B".to_string());
}

#[test]
fn scenario_contains_keyword() {
    let src = r#"
state final:
    when inputs.foo contains 0:
        outputs.bar = 1
    otherwise:
        outputs.bar = 0
"#;
    let mut sm = compile(src).unwrap();

    let i = obj(vec![("foo", Json::Array(vec![num(0), num(1), num(2), num(3)]))]);
    let o = sm.run(i).unwrap().unwrap();
    assert_eq!(get_num(&o, "bar"), SCALE);

    let i = obj(vec![("foo", Json::Array(vec![num(1), num(2), num(3)]))]);
    let o = sm.run(i).unwrap().unwrap();
    assert_eq!(get_num(&o, "bar"), 0);
}

#[test]
fn scenario_unterminated_quote_is_syntax_error() {
    let src = r#"
state broken:
    when true:
        outputs.foo = "never closed
"#;
    match compile(src) {
        Err(SML_Error::SyntaxError(msg)) => {
            assert!(msg.contains("quote"));
            assert!(msg.contains("line"));
        },
        other => panic!("expected a syntax error, got {other:?}"),
    }
}

#[test]
fn scenario_contains_on_non_list_is_bad_operation() {
    let src = r#"
state final:
    when outputs.bar contains 0:
        outputs.bar = 1
    otherwise:
        outputs.bar = 0
"#;
    let mut sm = compile(src).unwrap();
    // `outputs.bar` does not exist yet, so first make it a number.
    let src2 = r#"
state final:
    head:
        outputs.bar = 5
    when outputs.bar contains 0:
        outputs.bar = 1
    otherwise:
        outputs.bar = 0
"#;
    let mut sm2 = compile(src2).unwrap();
    let r = sm2.run(obj(vec![]));
    assert!(matches!(r, Err(SML_Error::BadOperation(_))));
    // With nothing written beforehand the read itself fails.
    let r = sm.run(obj(vec![]));
    assert!(matches!(r, Err(SML_Error::IdentifierNameError(_))));
}

#[test]
fn reading_missing_path_is_name_error() {
    let src = r#"
state s:
    when true:
        outputs.a = inputs.not.there
"#;
    let mut sm = compile(src).unwrap();
    let r = sm.run(obj(vec![]));
    assert!(matches!(r, Err(SML_Error::IdentifierNameError(_))));
}

#[test]
fn writing_inputs_is_rejected() {
    let src = r#"
state s:
    when true:
        inputs.a = 1
"#;
    let mut sm = compile(src).unwrap();
    let r = sm.run(obj(vec![]));
    assert!(matches!(r, Err(SML_Error::InputsWriteError)));
}

#[test]
fn changeto_unknown_state_is_error() {
    let src = r#"
state s:
    when true:
        changeto nowhere
"#;
    let mut sm = compile(src).unwrap();
    let r = sm.run(obj(vec![]));
    assert!(matches!(r, Err(SML_Error::NonexistantState(_))));
}

#[test]
fn reading_an_object_is_format_error() {
    let src = r#"
state s:
    when true:
        outputs.a = inputs.nested
"#;
    let mut sm = compile(src).unwrap();
    let i = obj(vec![("nested", obj(vec![("inner", num(1))]))]);
    let r = sm.run(i);
    assert!(matches!(r, Err(SML_Error::JsonFormatError(_))));
}

#[test]
fn empty_source_is_rejected() {
    assert!(matches!(compile(""), Err(SML_Error::SyntaxError(_))));
}

#[test]
fn fixed_point_literals_and_division() {
    let src = r#"
state s:
    when true:
        outputs.half = 3 / 2
        outputs.frac = 1.5
        outputs.prod = 1.5 * 2
        outputs.pow = 2 ^ 3
        outputs.diff = 1 - 2
"#;
    let mut sm = compile(src).unwrap();
    let o = sm.run(obj(vec![])).unwrap().unwrap();
    assert_eq!(get_num(&o, "half"), 1_500_000);
    assert_eq!(get_num(&o, "frac"), 1_500_000);
    assert_eq!(get_num(&o, "prod"), 3_000_000);
    assert_eq!(get_num(&o, "pow"), 8_000_000);
    assert_eq!(get_num(&o, "diff"), -1_000_000);
}

#[test]
fn division_by_zero_is_bad_operation() {
    let src = r#"
state s:
    when true:
        outputs.a = 1 / 0
"#;
    let mut sm = compile(src).unwrap();
    let r = sm.run(obj(vec![]));
    assert!(matches!(r, Err(SML_Error::BadOperation(_))));
}

#[test]
fn numeric_equality_tolerates_a_millionth_hundredth() {
    let src = r#"
state s:
    when inputs.a == 1:
        outputs.eq = 1
    otherwise:
        outputs.eq = 0
"#;
    let mut sm = compile(src).unwrap();

    let close = obj(vec![("a", Json::Number(1_000_009))]);
    let o = sm.run(close).unwrap().unwrap();
    assert_eq!(get_num(&o, "eq"), SCALE);

    let far = obj(vec![("a", Json::Number(1_000_010))]);
    let o = sm.run(far).unwrap().unwrap();
    assert_eq!(get_num(&o, "eq"), 0);
}

#[test]
fn globals_persist_and_reinit_replaces_them() {
    let src = r#"
state s:
    when true:
        globals.count = globals.count + 1
        outputs.count = globals.count
"#;
    let mut sm = compile(src).unwrap();
    sm.reinit(obj(vec![("count", num(0))])).unwrap();
    let o = sm.run(obj(vec![])).unwrap().unwrap();
    assert_eq!(get_num(&o, "count"), SCALE);
    let o = sm.run(obj(vec![])).unwrap().unwrap();
    assert_eq!(get_num(&o, "count"), 2 * SCALE);

    sm.reinit(obj(vec![("count", num(10))])).unwrap();
    let o = sm.run(obj(vec![])).unwrap().unwrap();
    assert_eq!(get_num(&o, "count"), 11 * SCALE);
}

#[test]
fn list_append_and_string_values() {
    let src = r#"
state acc:
    head:
        globals.things = globals.things + inputs.thing
        outputs.things = globals.things
    when globals.things contains "lastthing":
        end
"#;
    let mut sm = compile(src).unwrap();
    sm.reinit(obj(vec![("things", Json::Array(vec![]))])).unwrap();

    let i = obj(vec![("thing", Json::String("FirstThing".to_string()))]);
    let o = sm.run(i).unwrap().unwrap();
    assert_eq!(
        o.get("things"),
        Some(&Json::Array(vec![Json::String("FirstThing".to_string())]))
    );
    assert_eq!(sm.current_state().unwrap(), "acc".to_string());

    let i = obj(vec![("thing", Json::String("lastthing".to_string()))]);
    let o = sm.run(i).unwrap().unwrap();
    assert_eq!(
        o.get("things"),
        Some(
            &Json::Array(
                vec![
                    Json::String("FirstThing".to_string()),
                    Json::String("lastthing".to_string()),
                ],
            ),
        )
    );
    assert!(sm.current_state().is_none());
}

#[test]
fn negation_and_boolean_coercion() {
    let src = r#"
state s:
    when - inputs.flag:
        outputs.got = 1
    otherwise:
        outputs.got = 0
"#;
    let mut sm = compile(src).unwrap();
    let o = sm.run(obj(vec![("flag", Json::Bool(false))])).unwrap().unwrap();
    assert_eq!(get_num(&o, "got"), SCALE);
    let o = sm.run(obj(vec![("flag", Json::Bool(true))])).unwrap().unwrap();
    assert_eq!(get_num(&o, "got"), 0);
}

#[test]
fn no_branch_matches_means_stay_and_empty_outputs() {
    let src = r#"
state s:
    when false:
        outputs.a = 1
"#;
    let mut sm = compile(src).unwrap();
    let o = sm.run(obj(vec![])).unwrap().unwrap();
    assert!(o.is_empty());
    assert_eq!(sm.current_state().unwrap(), "s".to_string());
}

#[test]
fn advance_without_default_branch_is_error() {
    let src = r#"
state s:
    when true:
        outputs.a = 1
"#;
    let mut sm = compile(src).unwrap();
    let r = sm.advance(obj(vec![]));
    assert!(matches!(r, Err(SML_Error::CompilerError(_))));
}
