//! Behaviour of the interpreter on concrete programs: stack words,
//! arithmetic, rendering, errors, the dictionary, loops and file runs.

use std::cell::RefCell;
use std::rc::Rc;
use umor::{
    run_file_source, run_source, BufferSink, ExecutionOutcome, Interpreter, RuntimeError, UmorError, Value,
};

fn shown_lines(src: &str) -> Vec<String> {
    let sink = Rc::new(RefCell::new(BufferSink::new()));
    let mut interp = Interpreter::with_output(Box::new(sink.clone()));
    run_source(&mut interp, src).expect("run failed");
    let text = sink.borrow().contents().to_string();
    text.lines().map(|l| l.to_string()).collect()
}

fn runtime_error_of(src: &str) -> RuntimeError {
    let mut interp = Interpreter::new();
    match run_source(&mut interp, src) {
        Err(UmorError::Runtime(report)) => report.error,
        other => panic!("expected a run-time error, got {other:?}"),
    }
}

fn top_number(src: &str) -> i64 {
    let mut interp = Interpreter::new();
    run_source(&mut interp, src).expect("run failed");
    match interp.pop_value().unwrap() {
        Value::Number(n) => n,
        other => panic!("expected a number, got {other:?}"),
    }
}

#[test]
fn pushing_then_popping_gives_the_value_back() {
    let mut interp = Interpreter::new();
    interp.push_value(Value::Number(1));
    interp.push_value(Value::String("あ".to_string()));
    assert_eq!(interp.pop_value().unwrap(), Value::String("あ".to_string()));
    assert_eq!(interp.stack_len(), 1);
    assert_eq!(interp.pop_value().unwrap(), Value::Number(1));
    assert_eq!(interp.pop_value(), Err(RuntimeError::StackUnderflow));
}

#[test]
fn swapping_twice_restores_the_stack() {
    let mut interp = Interpreter::new();
    run_source(&mut interp, "1 2 交換 交換。").unwrap();
    assert_eq!(interp.pop_value().unwrap(), Value::Number(2));
    assert_eq!(interp.pop_value().unwrap(), Value::Number(1));
}

#[test]
fn over_copies_the_second_value() {
    let mut interp = Interpreter::new();
    run_source(&mut interp, "1 2 越え。").unwrap();
    assert_eq!(interp.stack_len(), 3);
    assert_eq!(interp.pop_value().unwrap(), Value::Number(1));
    assert_eq!(interp.pop_value().unwrap(), Value::Number(2));
    assert_eq!(interp.pop_value().unwrap(), Value::Number(1));
}

#[test]
fn arithmetic_wraps_and_rounds_toward_zero() {
    assert_eq!(top_number("9223372036854775807 1 加。"), i64::MIN);
    assert_eq!(top_number("7 2 割。"), 3);
    assert_eq!(top_number("-7 2 割。"), -3);
    assert_eq!(top_number("-7 2 余。"), -1);
    assert_eq!(top_number("-9223372036854775808 -1 割。"), i64::MIN);
    assert_eq!(top_number("-9223372036854775808 -1 余。"), 0);
    assert_eq!(top_number("6 7 掛。"), 42);
    assert_eq!(top_number("3 5 引。"), -2);
}

#[test]
fn values_are_rendered_for_display() {
    assert_eq!(
        shown_lines("1 2 大きい？ 表示。 空配列 10 追加 20 追加 表示。 -5 表示。"),
        vec!["偽".to_string(), "[10, 20]".to_string(), "-5".to_string()]
    );
    assert_eq!(
        shown_lines("X は 変数。\nX 表示。\n3を Xに 入れる。\nX 表示。"),
        vec!["変数「x」（未代入）".to_string(), "変数「x」（値: 3）".to_string()]
    );
}

#[test]
fn display_writes_exactly_one_line_per_call() {
    assert_eq!(shown_lines("「あ」 表示。"), vec!["あ".to_string()]);
}

#[test]
fn copies_of_an_array_share_its_elements() {
    assert_eq!(
        shown_lines("空配列 複製 5 追加 捨 表示。"),
        vec!["[5]".to_string()]
    );
}

#[test]
fn an_array_equals_itself_and_equal_contents() {
    assert_eq!(
        shown_lines("空配列 1 追加 複製 等しい？ 表示。 空配列 1 追加 空配列 1 追加 等しい？ 表示。 空配列 1 追加 空配列 2 追加 等しい？ 表示。"),
        vec!["真".to_string(), "真".to_string(), "偽".to_string()]
    );
}

#[test]
fn a_counted_loop_of_zero_rounds_does_nothing() {
    assert!(shown_lines("0 回数指定し\n    回数 表示する\n繰り返す。").is_empty());
    assert!(shown_lines("-3 回数指定し\n    回数 表示する\n繰り返す。").is_empty());
}

#[test]
fn character_literals_push_their_character() {
    assert_eq!(shown_lines("'A' 表示。"), vec!["A".to_string()]);
}

#[test]
fn each_error_variant_arises_where_expected() {
    assert_eq!(runtime_error_of("捨。"), RuntimeError::StackUnderflow);
    assert_eq!(
        runtime_error_of("「あ」 1 加。"),
        RuntimeError::TypeMismatch { expected: "数".to_string(), found: "文字列".to_string() }
    );
    assert_eq!(runtime_error_of("1 0 割。"), RuntimeError::DivisionByZero);
    assert_eq!(
        runtime_error_of("空配列 1 追加 3 番目。"),
        RuntimeError::IndexOutOfBounds { index: 3, length: 1 }
    );
    assert_eq!(
        runtime_error_of("X は 変数。\nX 読む。"),
        RuntimeError::UninitializedVariable("x".to_string())
    );
    assert_eq!(runtime_error_of("ほげ。"), RuntimeError::UndefinedWord("ほげ".to_string()));
    assert_eq!(runtime_error_of("打ち切り。"), RuntimeError::BreakOutsideLoop);
    assert_eq!(
        runtime_error_of("x は 定数値で 1 が 初期値。\n2 x 代入。"),
        RuntimeError::AssignToConstant("x".to_string())
    );
    assert_eq!(
        runtime_error_of("X は 変数。\nX 1 加。"),
        RuntimeError::TypeMismatch { expected: "数".to_string(), found: "変数参照".to_string() }
    );
    assert_eq!(
        runtime_error_of("X は 変数。\n1 X 等しい？。"),
        RuntimeError::TypeMismatch { expected: "具体的な値".to_string(), found: "変数参照「x」".to_string() }
    );
}

#[test]
fn exit_ends_a_run_normally_and_skips_the_rest() {
    let sink = Rc::new(RefCell::new(BufferSink::new()));
    let mut interp = Interpreter::with_output(Box::new(sink.clone()));
    let r = run_source(&mut interp, "「前」 表示。\n終了。\n「後」 表示。");
    assert_eq!(r.unwrap(), ExecutionOutcome::Exit);
    assert_eq!(sink.borrow().contents(), "前\n");
    let mut interp = Interpreter::new();
    assert_eq!(run_file_source(&mut interp, "さよなら。").unwrap(), ExecutionOutcome::Exit);
}

#[test]
fn a_redefinition_builds_on_the_definition_it_replaces() {
    assert_eq!(
        shown_lines("二倍 とは 2 掛 こと。\n二倍 とは 二倍 二倍 こと。\n3 二倍 表示。"),
        vec!["12".to_string()]
    );
}

#[test]
fn redefining_a_builtin_keeps_it_reachable_from_the_new_definition() {
    assert_eq!(
        shown_lines("加 とは 加 1 加 こと。\n1 2 加 表示。"),
        vec!["4".to_string()]
    );
}

#[test]
fn calls_leave_their_frames_even_on_error() {
    let mut interp = Interpreter::new();
    let err = run_source(&mut interp, "壊れる とは 1 0 割 こと。\n壊れる。").unwrap_err();
    match err {
        UmorError::Runtime(report) => {
            assert_eq!(report.error, RuntimeError::DivisionByZero);
            assert_eq!(report.word_trace, vec!["壊".to_string(), "割".to_string()]);
            assert!(report.stack_snapshot.is_empty());
        }
        other => panic!("expected a run-time error, got {other:?}"),
    }
    run_source(&mut interp, "X は 変数。\n5を Xに 入れる。").unwrap();
    run_source(&mut interp, "X 読む。").unwrap();
    assert_eq!(interp.pop_value().unwrap(), Value::Number(5));
}

#[test]
fn report_messages_show_the_stack() {
    let mut interp = Interpreter::new();
    let err = run_source(&mut interp, "1 「あ」 ほげ。").unwrap_err();
    assert_eq!(
        err.message(),
        "実行時エラー: 未定義のワードです: 「ほげ」\n  スタック: [1, あ]"
    );
}

#[test]
fn scope_errors_are_reported_one_per_line() {
    let mut interp = Interpreter::new();
    let src = "親処理 とは\n    子処理１ とは\n        カウンタ は 変数\n    子処理２ とは\n        カウンタを　読んで　表示する\n    本体 とは\n        子処理１\n        子処理２\nこと。";
    let err = run_file_source(&mut interp, src).unwrap_err();
    assert_eq!(
        err.message(),
        "スコープエラー: 変数「カウンタ」は「子処理2」の中では見えません（宣言されたスコープの外です）"
    );
}

#[test]
fn lex_and_parse_errors_are_reported() {
    let mut interp = Interpreter::new();
    let err = run_source(&mut interp, "/* 閉じない").unwrap_err();
    assert!(matches!(err, UmorError::Lex(_)));
    assert!(err.message().starts_with("字句解析エラー（1行目"));
    let err = run_source(&mut interp, "挨拶 とは 「やあ」 表示").unwrap_err();
    assert!(matches!(err, UmorError::Parse(_)));
    assert!(err.message().starts_with("構文エラー（"));
}

#[test]
fn a_native_word_runs_with_the_interpreter() {
    let mut interp = Interpreter::new();
    interp.register_native("十", |interp| {
        interp.push_value(Value::Number(10));
        Ok(())
    });
    run_source(&mut interp, "十 十 加。").unwrap();
    assert_eq!(interp.pop_value().unwrap(), Value::Number(20));
}

#[test]
fn display_value_renders_like_display() {
    let mut interp = Interpreter::new();
    assert_eq!(interp.display_value(&Value::Bool(true)), "真");
    assert_eq!(interp.display_value(&Value::Number(-12)), "-12");
    run_source(&mut interp, "空配列 空配列 「a」 追加 追加。").unwrap();
    let v = interp.pop_value().unwrap();
    assert_eq!(interp.display_value(&v), "[[a]]");
    assert_eq!(v.type_label(), "配列");
}

#[test]
fn a_checked_file_runs_like_a_source() {
    let src = "「開始」 表示。\n挨拶 とは 「やあ」 表示 こと。\n挨拶。\n1 2 加 表示。";
    let sink_a = Rc::new(RefCell::new(BufferSink::new()));
    let mut a = Interpreter::with_output(Box::new(sink_a.clone()));
    let ra = run_file_source(&mut a, src).unwrap();
    let sink_b = Rc::new(RefCell::new(BufferSink::new()));
    let mut b = Interpreter::with_output(Box::new(sink_b.clone()));
    let rb = run_source(&mut b, src).unwrap();
    assert_eq!(ra, rb);
    assert_eq!(sink_a.borrow().contents(), "開始\nやあ\n3\n");
    assert_eq!(sink_a.borrow().contents(), sink_b.borrow().contents());
}

#[test]
fn a_parse_error_in_a_file_runs_nothing_but_a_source_runs_up_to_it() {
    let src = "「前」 表示。\n挨拶 とは 「やあ」 表示";
    let sink_a = Rc::new(RefCell::new(BufferSink::new()));
    let mut a = Interpreter::with_output(Box::new(sink_a.clone()));
    assert!(matches!(run_file_source(&mut a, src), Err(UmorError::Parse(_))));
    assert_eq!(sink_a.borrow().contents(), "");
    let sink_b = Rc::new(RefCell::new(BufferSink::new()));
    let mut b = Interpreter::with_output(Box::new(sink_b.clone()));
    assert!(matches!(run_source(&mut b, src), Err(UmorError::Parse(_))));
    assert_eq!(sink_b.borrow().contents(), "前\n");
}

#[test]
fn equality_does_not_depend_on_operand_order() {
    assert_eq!(
        shown_lines("空配列 1 追加 「a」 等しい？ 表示。 「a」 空配列 1 追加 等しい？ 表示。 3 3 等しい？ 表示。"),
        vec!["偽".to_string(), "偽".to_string(), "真".to_string()]
    );
}

#[test]
fn the_counter_is_the_innermost_round_and_recurse_reruns_the_running_word() {
    assert_eq!(
        shown_lines("2 回数指定し\n    1 回数指定し\n        回数 表示\n    繰り返す\n    回数 表示\n繰り返す。"),
        vec!["0".to_string(), "0".to_string(), "0".to_string(), "1".to_string()]
    );
    assert_eq!(
        shown_lines("数える とは 複製 0 大きい？ ならば 複製 表示 1 引く 再帰 そうでなければ 捨 つぎに こと。\n3 数える。"),
        vec!["3".to_string(), "2".to_string(), "1".to_string()]
    );
}

#[test]
fn a_report_names_the_words_running_when_the_error_arose() {
    let mut interp = Interpreter::new();
    let src = "挨拶 とは\n    ぞんざいするワード\nこと。\n挨拶。";
    match run_source(&mut interp, src) {
        Err(UmorError::Runtime(r)) => {
            assert_eq!(r.error, RuntimeError::UndefinedWord("ぞんざいするワード".to_string()));
            assert_eq!(r.word_trace, vec!["挨拶".to_string()]);
            assert!(r.stack_snapshot.is_empty());
            assert_eq!(
                UmorError::Runtime(r).message(),
                "実行時エラー: 未定義のワードです: 「ぞんざいするワード」\n  実行中のワード: 挨拶\n  スタック: []"
            );
        }
        other => panic!("expected a run-time error, got {other:?}"),
    }
    let err = run_source(&mut interp, "ほげ。").unwrap_err();
    match err {
        UmorError::Runtime(r) => assert!(r.word_trace.is_empty()),
        other => panic!("expected a run-time error, got {other:?}"),
    }
}

#[test]
fn an_error_caught_by_a_loop_is_not_kept() {
    let mut interp = Interpreter::new();
    let src = "外 とは ここから 打ち切り 繰り返し ほげ こと。\n外。";
    match run_source(&mut interp, src) {
        Err(UmorError::Runtime(r)) => assert_eq!(r.word_trace, vec!["外".to_string()]),
        other => panic!("expected a run-time error, got {other:?}"),
    }
}
