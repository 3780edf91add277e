//! 「含める」 and 「必要」: running module texts supplied by a module reader.

use std::cell::RefCell;
use std::collections::HashMap;
use std::rc::Rc;

use umor::{run_source, Interpreter, ModuleReader, RuntimeError, UmorError};

fn install_logging_display(interp: &mut Interpreter, log: Rc<RefCell<Vec<String>>>) {
    interp.register_native("表示", move |interp| {
        let value = interp.pop_value()?;
        let shown = interp.display_value(&value);
        log.borrow_mut().push(shown);
        Ok(())
    });
}

/// A reader over texts kept in memory, keyed by path.
struct MemoryReader {
    files: HashMap<String, String>,
}

impl ModuleReader for MemoryReader {
    fn read_module(&mut self, path: &str) -> Result<String, String> {
        match self.files.get(path) {
            Some(text) => Ok(text.clone()),
            None => Err(format!("no such file: {path}")),
        }
    }
}

fn with_files(interp: &mut Interpreter, files: &[(&str, &str)]) {
    let mut map = HashMap::new();
    for (path, text) in files {
        map.insert(path.to_string(), text.to_string());
    }
    interp.set_module_reader(Box::new(MemoryReader { files: map }));
}

const TEMP_PATH: &str = "/tmp/umor_module_test_0.umor";

#[test]
fn kakumeru_evaluates_the_file_unconditionally_every_time() {
    let mut interp = Interpreter::new();
    with_files(&mut interp, &[(TEMP_PATH, "「loaded」を　表示する。")]);
    let log = Rc::new(RefCell::new(Vec::new()));
    install_logging_display(&mut interp, log.clone());

    let src = format!("「{path}」を　含める。\n「{path}」を　含める。", path = TEMP_PATH);
    run_source(&mut interp, &src).expect("実行に失敗した");

    assert_eq!(*log.borrow(), vec!["loaded".to_string(), "loaded".to_string()]);
}

#[test]
fn hitsuyou_loads_only_once_for_the_same_path() {
    let mut interp = Interpreter::new();
    with_files(&mut interp, &[(TEMP_PATH, "「loaded」を　表示する。")]);
    let log = Rc::new(RefCell::new(Vec::new()));
    install_logging_display(&mut interp, log.clone());

    let src = format!("「{path}」が　必要。\n「{path}」が　必要。", path = TEMP_PATH);
    run_source(&mut interp, &src).expect("実行に失敗した");

    assert_eq!(*log.borrow(), vec!["loaded".to_string()]);
}

#[test]
fn hitsuyou_treats_dot_slash_prefix_as_the_same_path() {
    let name = "umor_module_test_1.umor";
    let mut interp = Interpreter::new();
    with_files(&mut interp, &[(name, "「loaded」を　表示する。")]);
    let log = Rc::new(RefCell::new(Vec::new()));
    install_logging_display(&mut interp, log.clone());

    let src = format!("「{name}」が　必要。\n「./{name}」が　必要。");
    run_source(&mut interp, &src).expect("実行に失敗した");

    assert_eq!(*log.borrow(), vec!["loaded".to_string()]);
}

#[test]
fn kakumeru_on_a_missing_file_is_a_runtime_error() {
    let mut interp = Interpreter::new();
    let missing_path = "/definitely/does/not/exist/umor_missing_module.umor";
    let src = format!("「{missing_path}」を　含める。");

    let err = run_source(&mut interp, &src).expect_err("存在しないファイルはエラーになるはず");
    match err {
        UmorError::Runtime(report) => match report.error {
            RuntimeError::ModuleReadError { path, .. } => assert_eq!(path, missing_path),
            other => panic!("expected ModuleReadError, got {other:?}"),
        },
        other => panic!("expected Runtime error, got {other:?}"),
    }
}

#[test]
fn kakumeru_propagates_runtime_errors_from_inside_the_loaded_file() {
    let mut interp = Interpreter::new();
    with_files(&mut interp, &[(TEMP_PATH, "ぞんざいするワード。")]);
    let src = format!("「{path}」を　含める。", path = TEMP_PATH);

    let err = run_source(&mut interp, &src).expect_err("読み込んだファイル内のエラーが伝播するはず");
    match err {
        UmorError::Runtime(report) => match report.error {
            RuntimeError::ModuleError { path, message } => {
                assert_eq!(path, TEMP_PATH);
                assert!(message.contains("未定義"), "got {message}");
            }
            other => panic!("expected ModuleError, got {other:?}"),
        },
        other => panic!("expected Runtime error, got {other:?}"),
    }
}

#[test]
fn kakumeru_shares_dictionary_and_variables_with_the_including_side() {
    let mut interp = Interpreter::new();
    with_files(&mut interp, &[(TEMP_PATH, "挨拶 とは\n    「こんにちは」を　表示する\nこと。")]);
    let log = Rc::new(RefCell::new(Vec::new()));
    install_logging_display(&mut interp, log.clone());

    let src = format!("「{path}」を　含める。\n\n挨拶。", path = TEMP_PATH);
    run_source(&mut interp, &src).expect("実行に失敗した");

    assert_eq!(*log.borrow(), vec!["こんにちは".to_string()]);
}

#[test]
fn hitsuyou_still_shares_state_when_it_actually_loads() {
    let mut interp = Interpreter::new();
    with_files(&mut interp, &[(TEMP_PATH, "挨拶 とは\n    「こんにちは」を　表示する\nこと。")]);
    let log = Rc::new(RefCell::new(Vec::new()));
    install_logging_display(&mut interp, log.clone());

    let src = format!("「{path}」が　必要。\n\n挨拶。", path = TEMP_PATH);
    run_source(&mut interp, &src).expect("実行に失敗した");

    assert_eq!(*log.borrow(), vec!["こんにちは".to_string()]);
}
