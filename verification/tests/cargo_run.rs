use cargo_core::cargo_run::{choose_run_target, RunCandidate, RunError};

fn cand(name: &str, is_lib: bool, is_bin: bool, is_example_lib: bool, selected: bool) -> RunCandidate {
    RunCandidate { pkg: 0, name: name.to_string(), is_lib, is_custom_build: false, is_bin, is_example_lib, selected }
}

#[test]
fn the_one_binary_is_run() {
    let cs = vec![cand("lib", true, false, false, false), cand("app", false, true, false, false)];
    assert_eq!(choose_run_target(&cs, false, false), Ok(Some(1)));
}

#[test]
fn run_errors() {
    let none = vec![cand("lib", true, false, false, false)];
    assert_eq!(choose_run_target(&none, false, false), Err(RunError::NoBinary));
    assert_eq!(choose_run_target(&none, true, false), Ok(None));
    let two = vec![cand("a", false, true, false, false), cand("b", false, true, false, false)];
    assert_eq!(
        choose_run_target(&two, false, true),
        Err(RunError::CannotDetermine { names: vec!["a".to_string(), "b".to_string()], nightly: true })
    );
    let named = vec![cand("a", false, true, false, true), cand("ex", false, false, false, true)];
    assert_eq!(choose_run_target(&named, true, false), Err(RunError::MultipleSpecified));
    let example = vec![cand("a", false, true, false, false), cand("ex", false, false, true, true)];
    assert_eq!(choose_run_target(&example, true, false), Err(RunError::ExampleIsLibrary("ex".to_string())));
}
