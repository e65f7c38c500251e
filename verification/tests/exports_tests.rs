use wasm_bridge::error::Error;
use wasm_bridge::exports::{pair_exports, store_results, ResultCountError};
use wasm_bridge::val::Val;

fn export(name: &str, is_function: bool) -> (String, bool) {
    (name.to_string(), is_function)
}

#[test]
fn exports_are_paired_with_their_post_return_functions() {
    let exports = vec![
        export("cabi_post_add", true),
        export("add", true),
        export("memory", false),
        export("sub", true),
        export("cabi_post_mul", false),
        export("mul", true),
        export("cabi_post_orphan", true),
    ];
    let pairs = pair_exports(&exports);
    assert_eq!(
        pairs,
        vec![
            ("add".to_string(), Some("cabi_post_add".to_string())),
            ("sub".to_string(), None),
            ("mul".to_string(), None),
        ]
    );
}

#[test]
fn no_exports_give_no_pairs() {
    assert!(pair_exports(&[]).is_empty());
    assert!(pair_exports(&[export("cabi_post_f", true)]).is_empty());
}

#[test]
fn results_are_stored_when_the_count_matches() {
    let mut results = vec![Val::I32(0), Val::I32(0)];
    assert_eq!(store_results(vec![Val::I32(4), Val::I64(-1)], &mut results), Ok(()));
    assert_eq!(results, vec![Val::I32(4), Val::I64(-1)]);
    let mut none: Vec<Val> = vec![];
    assert_eq!(store_results(vec![], &mut none), Ok(()));
}

#[test]
fn results_of_the_wrong_count_are_refused() {
    let mut results = vec![Val::I32(7)];
    assert_eq!(
        store_results(vec![Val::I32(1), Val::I32(2)], &mut results),
        Err(ResultCountError { expected: 1, returned: 2 })
    );
    assert_eq!(results, vec![Val::I32(7)]);
}

#[test]
fn error_messages_name_the_function_and_the_counts() {
    assert_eq!(
        Error::ExportedFnNotFound("add".to_string()).message(),
        "Exported fn `add` not found in the module"
    );
    assert_eq!(
        Error::IncorrectNumOfArgs("f".to_string(), 2, 10).message(),
        "Expected `f` to have 2 arguments, but it has 10 instead"
    );
    assert_eq!(
        Error::IncorrectNumOfArgs("g".to_string(), 0, 4294967295).message(),
        "Expected `g` to have 0 arguments, but it has 4294967295 instead"
    );
    assert_eq!(
        Error::InvalidWatText("bad".to_string()).message(),
        "Module bytes are valid text, but parsing it in wat format gave error: bad"
    );
}
