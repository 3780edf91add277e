//! Run-time errors of the interpreter, and their report form.
use vstd::prelude::*;
use crate::text::{int_digits, nat_digits, push_int, push_str, push_usize, string_from_str};

verus! {

/// A run-time error.
#[derive(Debug, Clone, PartialEq, Eq)]
pub enum RuntimeError {
    /// A word call that matched no variable, local word or dictionary word.
    UndefinedWord(String),
    /// A pop from an empty stack.
    StackUnderflow,
    /// A stack value of another type than the word needs.
    TypeMismatch { expected: String, found: String },
    /// Division or remainder by zero.
    DivisionByZero,
    /// An array index out of range.
    IndexOutOfBounds { index: i64, length: usize },
    /// A read of a variable that was never assigned.
    UninitializedVariable(String),
    /// The normal end of execution asked for by 「終了」 or 「さよなら」; turned
    /// into `ExecutionOutcome::Exit` by `process_top_level_item`.
    Exit,
    /// The signal of 「打ち切り」, caught by the innermost loop.
    Break,
    /// 「打ち切り」 reached outside of any loop.
    BreakOutsideLoop,
    /// A 「代入」 to a constant (「定数値」).
    AssignToConstant(String),
    /// A module (「含める」/「必要」) that could not be read.
    ModuleReadError { path: String, message: String },
    /// An error raised while running a module.
    ModuleError { path: String, message: String },
    /// The evaluation ran out of its step budget.
    StepLimitExceeded,
}

/// Plain-value model of [`RuntimeError`].
pub enum SErr {
    UndefinedWord(Seq<char>),
    StackUnderflow,
    TypeMismatch { expected: Seq<char>, found: Seq<char> },
    DivisionByZero,
    IndexOutOfBounds { index: i64, length: nat },
    UninitializedVariable(Seq<char>),
    Exit,
    Break,
    BreakOutsideLoop,
    AssignToConstant(Seq<char>),
    ModuleReadError { path: Seq<char>, message: Seq<char> },
    ModuleError { path: Seq<char>, message: Seq<char> },
    StepLimitExceeded,
}

impl View for RuntimeError {
    type V = SErr;

    open spec fn view(&self) -> SErr {
        match self {
            RuntimeError::UndefinedWord(n) => SErr::UndefinedWord(n@),
            RuntimeError::StackUnderflow => SErr::StackUnderflow,
            RuntimeError::TypeMismatch { expected, found } => SErr::TypeMismatch { expected: expected@, found: found@ },
            RuntimeError::DivisionByZero => SErr::DivisionByZero,
            RuntimeError::IndexOutOfBounds { index, length } => SErr::IndexOutOfBounds { index: *index, length: *length as nat },
            RuntimeError::UninitializedVariable(n) => SErr::UninitializedVariable(n@),
            RuntimeError::Exit => SErr::Exit,
            RuntimeError::Break => SErr::Break,
            RuntimeError::BreakOutsideLoop => SErr::BreakOutsideLoop,
            RuntimeError::AssignToConstant(n) => SErr::AssignToConstant(n@),
            RuntimeError::ModuleReadError { path, message } => SErr::ModuleReadError { path: path@, message: message@ },
            RuntimeError::ModuleError { path, message } => SErr::ModuleError { path: path@, message: message@ },
            RuntimeError::StepLimitExceeded => SErr::StepLimitExceeded,
        }
    }
}

/// The human-readable text of an error.
pub open spec fn err_message(e: SErr) -> Seq<char> {
    match e {
        SErr::UndefinedWord(n) => "未定義のワードです: 「"@ + n + "」"@,
        SErr::StackUnderflow => "スタックの要素が不足しています"@,
        SErr::TypeMismatch { expected, found } => "型が一致しません（期待: 「"@ + expected + "」, 実際: 「"@ + found + "」）"@,
        SErr::DivisionByZero => "0で除算しようとしました"@,
        SErr::IndexOutOfBounds { index, length } => "添字が範囲外です（添字: "@ + int_digits(index as int) + ", 配列の長さ: "@ + nat_digits(length) + "）"@,
        SErr::UninitializedVariable(n) => "変数「"@ + n + "」はまだ値が代入されていません"@,
        SErr::Exit => "実行を終了します"@,
        SErr::Break => "「打ち切り」でループを抜けます"@,
        SErr::BreakOutsideLoop => "「打ち切り」はループの中でしか使えません"@,
        SErr::AssignToConstant(n) => "定数値「"@ + n + "」には代入できません"@,
        SErr::ModuleReadError { path, message } => "モジュール「"@ + path + "」を読み込めません: "@ + message,
        SErr::ModuleError { path, message } => "モジュール「"@ + path + "」の実行中にエラーが起きました: "@ + message,
        SErr::StepLimitExceeded => "実行ステップ数の上限に達しました"@,
    }
}

impl RuntimeError {
    /// The human-readable text of this error.
    pub fn message(&self) -> (r: String)
        ensures
            r@ == err_message(self@),
    {
        match self {
            RuntimeError::UndefinedWord(n) => {
                let mut s = string_from_str("未定義のワードです: 「");
                push_str(&mut s, n.as_str());
                push_str(&mut s, "」");
                s
            },
            RuntimeError::StackUnderflow => string_from_str("スタックの要素が不足しています"),
            RuntimeError::TypeMismatch { expected, found } => {
                let mut s = string_from_str("型が一致しません（期待: 「");
                push_str(&mut s, expected.as_str());
                push_str(&mut s, "」, 実際: 「");
                push_str(&mut s, found.as_str());
                push_str(&mut s, "」）");
                s
            },
            RuntimeError::DivisionByZero => string_from_str("0で除算しようとしました"),
            RuntimeError::IndexOutOfBounds { index, length } => {
                let mut s = string_from_str("添字が範囲外です（添字: ");
                push_int(&mut s, *index);
                push_str(&mut s, ", 配列の長さ: ");
                push_usize(&mut s, *length);
                push_str(&mut s, "）");
                s
            },
            RuntimeError::UninitializedVariable(n) => {
                let mut s = string_from_str("変数「");
                push_str(&mut s, n.as_str());
                push_str(&mut s, "」はまだ値が代入されていません");
                s
            },
            RuntimeError::Exit => string_from_str("実行を終了します"),
            RuntimeError::Break => string_from_str("「打ち切り」でループを抜けます"),
            RuntimeError::BreakOutsideLoop => string_from_str("「打ち切り」はループの中でしか使えません"),
            RuntimeError::AssignToConstant(n) => {
                let mut s = string_from_str("定数値「");
                push_str(&mut s, n.as_str());
                push_str(&mut s, "」には代入できません");
                s
            },
            RuntimeError::ModuleReadError { path, message } => {
                let mut s = string_from_str("モジュール「");
                push_str(&mut s, path.as_str());
                push_str(&mut s, "」を読み込めません: ");
                push_str(&mut s, message.as_str());
                s
            },
            RuntimeError::ModuleError { path, message } => {
                let mut s = string_from_str("モジュール「");
                push_str(&mut s, path.as_str());
                push_str(&mut s, "」の実行中にエラーが起きました: ");
                push_str(&mut s, message.as_str());
                s
            },
            RuntimeError::StepLimitExceeded => string_from_str("実行ステップ数の上限に達しました"),
        }
    }

    /// A copy of this error.
    pub fn copied(&self) -> (r: RuntimeError)
        ensures
            r@ == self@,
    {
        match self {
            RuntimeError::UndefinedWord(n) => RuntimeError::UndefinedWord(string_from_str(n.as_str())),
            RuntimeError::StackUnderflow => RuntimeError::StackUnderflow,
            RuntimeError::TypeMismatch { expected, found } => RuntimeError::TypeMismatch {
                expected: string_from_str(expected.as_str()),
                found: string_from_str(found.as_str()),
            },
            RuntimeError::DivisionByZero => RuntimeError::DivisionByZero,
            RuntimeError::IndexOutOfBounds { index, length } => RuntimeError::IndexOutOfBounds { index: *index, length: *length },
            RuntimeError::UninitializedVariable(n) => RuntimeError::UninitializedVariable(string_from_str(n.as_str())),
            RuntimeError::Exit => RuntimeError::Exit,
            RuntimeError::Break => RuntimeError::Break,
            RuntimeError::BreakOutsideLoop => RuntimeError::BreakOutsideLoop,
            RuntimeError::AssignToConstant(n) => RuntimeError::AssignToConstant(string_from_str(n.as_str())),
            RuntimeError::ModuleReadError { path, message } => RuntimeError::ModuleReadError {
                path: string_from_str(path.as_str()),
                message: string_from_str(message.as_str()),
            },
            RuntimeError::ModuleError { path, message } => RuntimeError::ModuleError {
                path: string_from_str(path.as_str()),
                message: string_from_str(message.as_str()),
            },
            RuntimeError::StepLimitExceeded => RuntimeError::StepLimitExceeded,
        }
    }
}

/// A [`RuntimeError`] with the context in which it arose: the words being
/// run (outermost first) and the stack rendered as text.
#[derive(Debug, Clone)]
pub struct RuntimeErrorReport {
    pub error: RuntimeError,
    /// The words being run when the error arose, outermost first.
    pub word_trace: Vec<String>,
    /// The stack when the error arose, bottom first, each value rendered.
    pub stack_snapshot: Vec<String>,
}

/// `parts` joined with `sep` between neighbours.
pub open spec fn join(parts: Seq<Seq<char>>, sep: Seq<char>) -> Seq<char>
    decreases parts.len(),
{
    if parts.len() == 0 {
        seq![]
    } else if parts.len() == 1 {
        parts[0]
    } else {
        join(parts.drop_last(), sep) + sep + parts.last()
    }
}

pub open spec fn strings_view(v: Seq<String>) -> Seq<Seq<char>> {
    v.map_values(|s: String| s@)
}

/// The text of a report: the error, then the word trace when there is one,
/// then the stack.
pub open spec fn report_message(e: SErr, trace: Seq<Seq<char>>, stack: Seq<Seq<char>>) -> Seq<char> {
    "実行時エラー: "@ + err_message(e)
        + (if trace.len() > 0 { "\n  実行中のワード: "@ + join(trace, " → "@) } else { seq![] })
        + "\n  スタック: ["@ + join(stack, ", "@) + "]"@
}

/// Appends `parts` joined with `sep` to `out`.
pub fn push_joined(out: &mut String, parts: &Vec<String>, sep: &str)
    ensures
        final(out)@ == old(out)@ + join(strings_view(parts@), sep@),
{
    let ghost o = out@;
    let ghost p = strings_view(parts@);
    let mut i: usize = 0;
    while i < parts.len()
        invariant
            i <= parts@.len(),
            p == strings_view(parts@),
            out@ == o + join(p.take(i as int), sep@),
        decreases parts@.len() - i,
    {
        if i > 0 {
            push_str(out, sep);
        }
        push_str(out, parts[i].as_str());
        proof {
            let t = p.take(i as int + 1);
            assert(t.drop_last() =~= p.take(i as int));
            assert(t.last() == parts@[i as int]@);
            if i == 0 {
                assert(t.len() == 1);
                assert(p.take(0) =~= Seq::<Seq<char>>::empty());
                assert(out@ =~= o + join(t, sep@));
            } else {
                assert(out@ =~= o + join(t, sep@));
            }
        }
        i = i + 1;
    }
    proof {
        assert(p.take(parts@.len() as int) =~= p);
    }
}

impl RuntimeErrorReport {
    /// The human-readable text of this report.
    pub fn message(&self) -> (r: String)
        ensures
            r@ == report_message(self.error@, strings_view(self.word_trace@), strings_view(self.stack_snapshot@)),
    {
        let mut s = string_from_str("実行時エラー: ");
        let m = self.error.message();
        push_str(&mut s, m.as_str());
        let ghost s1 = s@;
        if self.word_trace.len() > 0 {
            push_str(&mut s, "\n  実行中のワード: ");
            push_joined(&mut s, &self.word_trace, " → ");
        }
        let ghost s2 = s@;
        proof {
            let trace = strings_view(self.word_trace@);
            assert(s2 == s1 + (if trace.len() > 0 { "\n  実行中のワード: "@ + join(trace, " → "@) } else { seq![] }));
        }
        push_str(&mut s, "\n  スタック: [");
        push_joined(&mut s, &self.stack_snapshot, ", ");
        push_str(&mut s, "]");
        s
    }
}

} // verus!
