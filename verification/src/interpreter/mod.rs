//! The tree-walking interpreter.
//!
//! It runs the trees built by the parser on a data stack.  Its behaviour is
//! the one defined by the spec functions of [`semantics`], over the model
//! [`IState`] of the interpreter; each operation states in its contract
//! which spec function it follows.
use vstd::prelude::*;
use std::rc::Rc;
use crate::parser::{Definition, SpecDef};
use crate::parser::ast::dv;

pub mod api;
pub mod error;
pub mod laws;
pub mod output;
pub mod semantics;
pub mod value;
mod builtins;
mod eval;
mod native;
mod store;

pub use error::{RuntimeError, RuntimeErrorReport, SErr};
pub use output::{BufferSink, ModuleReader, OutputSink, StdoutSink};
pub use value::{SVal, Value};
use native::NativeFn;
use value::vals;

verus! {

/// What processing one top-level item leads to.
#[derive(Debug, Clone, Copy, PartialEq, Eq, Structural)]
pub enum ExecutionOutcome {
    /// Go on with the next item.
    Continue,
    /// Stop: 「終了」 or 「さよなら」 was run.  Not an error.
    Exit,
}

/// The words the interpreter implements itself.
#[derive(Debug, Clone, Copy, PartialEq, Eq, Structural)]
pub enum Builtin {
    /// 「越え」: ( a b -- a b a ).
    Over,
    /// 「交換」, 「取替」: ( a b -- b a ).
    Swap,
    /// 「回転」: ( a b c -- b c a ).
    Rot,
    /// 「複製」: ( a -- a a ).
    Dup,
    /// 「捨」: ( a -- ).
    Drop,
    /// 「加」: ( a b -- a+b ), wrapping on overflow.
    Add,
    /// 「引」: ( a b -- a-b ), wrapping on overflow.
    Sub,
    /// 「掛」: ( a b -- a*b ), wrapping on overflow.
    Mul,
    /// 「割」: ( a b -- a/b ), rounding toward zero.
    Div,
    /// 「余」: ( a b -- a%b ), with the sign of `a`.
    Rem,
    /// 「等しい?」: ( a b -- a=b ).
    Equal,
    /// 「大きい?」: ( a b -- a>b ).
    Greater,
    /// 「小さい?」: ( a b -- a<b ).
    Less,
    /// 「かつ」: ( a b -- a∧b ).
    And,
    /// 「または」: ( a b -- a∨b ).
    Or,
    /// 「番目」: ( array i -- array[i] ).
    Index,
    /// 「入れる」: ( value var -- ), stores into the variable.
    Store,
    /// 「読む」: ( var -- value ); other values are left as they are.
    Load,
    /// 「表示」: ( a -- ), writes a line.
    Display,
    /// Particles and 「の」: no effect.
    NoOp,
    /// 「空配列」: ( -- array ).
    EmptyArray,
    /// 「追加」: ( array value -- array ), appends in place.
    Append,
    /// 「終了」, 「さよなら」: ends the run.
    Exit,
    /// 「含める」: ( path -- ), runs the module every time.
    Include,
    /// 「必要」: ( path -- ), runs the module once per path.
    Require,
}

/// One definition of a word in the dictionary.
pub enum WordDef {
    /// A closure of the embedding program (index into the closure table).
    Native(usize),
    /// A word the interpreter implements.
    Builtin(Builtin),
    /// A top-level definition (index into the definition store).
    User(usize),
    /// Another name for the word named here, resolved when called.
    Alias(String),
}

/// Plain-value model of [`WordDef`].
pub enum SWord {
    Native(usize),
    Builtin(Builtin),
    User(usize),
    Alias(Seq<char>),
}

/// A name bound in a scope frame.
#[derive(Debug, Clone, Copy, PartialEq, Eq, Structural)]
pub enum Binding {
    /// `X は 変数`: naming it pushes a reference to the slot.
    Var(usize),
    /// `X は 可変値で … が 初期値` (or 「定数値」): naming it pushes the value.
    Val { slot: usize, constant: bool },
}

/// Which definition a call runs.
#[derive(Debug, Clone, Copy, PartialEq, Eq, Structural)]
pub enum DefRef {
    /// A top-level definition.
    Top(usize),
    /// Local word `j` of top-level definition `t`.
    Local(usize, usize),
}

struct DictEntry {
    name: String,
    /// Every definition given to the name, oldest first; never shrinks.
    generations: Vec<WordDef>,
}

struct BindingEntry {
    name: String,
    binding: Binding,
}

/// One running call.
struct ActiveCall {
    name: String,
    def: DefRef,
    /// The top-level definition whose local words can be called by name.
    locals: Option<usize>,
    /// For a dictionary word: its name and its generation, so that a call
    /// of the same name in its body sees only older generations.
    self_ref: Option<(String, usize)>,
}

/// Plain-value model of a running call.
pub struct SCall {
    pub name: Seq<char>,
    pub def: DefRef,
    pub locals: Option<usize>,
    pub self_ref: Option<(Seq<char>, usize)>,
}

/// What the interpreter asked of the embedding program.
pub enum Ask {
    /// A run of closure `id`.
    Native { id: nat },
    /// The text of the module at `path`, asked of the module reader.
    Module { path: Seq<char> },
}

/// What the embedding program answered.
pub enum Reply {
    /// A closure's run: the state it left the interpreter in, and what it
    /// returned.
    Native { left: IState, result: Result<(), SErr> },
    /// A module reader's answer: the text, or why it could not be read.
    Module { text: Result<Seq<char>, Seq<char>> },
}

/// One question asked of the embedding program, with the state of the
/// interpreter when it was asked (the state a closure is handed), and the
/// answer.
pub struct Exchange {
    pub ask: Ask,
    pub handed: IState,
    pub reply: Reply,
}

/// The answers of the embedding program: the `k`-th question, asked in
/// state `h`, is answered by `o(k, h)`.
pub type Oracle = spec_fn(nat, IState) -> Reply;

/// Oracle `o` gives the answers of `log`.
pub open spec fn agrees(o: Oracle, log: Seq<Exchange>) -> bool {
    forall|k: int| 0 <= k < log.len() ==> o(k as nat, log[k].handed) == #[trigger] log[k].reply
}

/// `b` is `a` followed by more exchanges.
pub open spec fn grows(a: Seq<Exchange>, b: Seq<Exchange>) -> bool {
    a.len() <= b.len() && forall|k: int| 0 <= k < a.len() ==> b[k] == #[trigger] a[k]
}

pub proof fn grows_trans(a: Seq<Exchange>, b: Seq<Exchange>, c: Seq<Exchange>)
    requires
        grows(a, b),
        grows(b, c),
    ensures
        grows(a, c),
{
    assert forall|k: int| 0 <= k < a.len() implies c[k] == #[trigger] a[k] by {
        assert(b[k] == a[k]);
    }
}

pub proof fn grows_push(a: Seq<Exchange>, x: Exchange)
    ensures
        grows(a, a.push(x)),
{
    assert forall|k: int| 0 <= k < a.len() implies a.push(x)[k] == #[trigger] a[k] by {}
}

/// An oracle that gives the answers of a longer log gives those of a
/// shorter one it grew from.
pub proof fn agrees_with_earlier(o: Oracle, a: Seq<Exchange>, b: Seq<Exchange>)
    requires
        agrees(o, b),
        grows(a, b),
    ensures
        agrees(o, a),
{
    assert forall|k: int| 0 <= k < a.len() implies o(k as nat, a[k].handed) == #[trigger] a[k].reply by {
        assert(b[k] == a[k]);
    }
}

/// Plain-value model of the interpreter.
pub struct IState {
    /// The data stack, bottom first.
    pub stack: Seq<SVal>,
    /// The array store.
    pub arrays: Seq<Seq<SVal>>,
    /// The variable store; `None` is a variable never assigned.
    pub slots: Seq<Option<SVal>>,
    /// The dictionary: names with their generations.
    pub dict: Seq<(Seq<char>, Seq<SWord>)>,
    /// The stored top-level definitions.
    pub trees: Seq<SpecDef>,
    /// The scope frames, outermost (the global frame) first.
    pub scopes: Seq<Seq<(Seq<char>, Binding)>>,
    /// The running calls, outermost first.
    pub calls: Seq<SCall>,
    /// The counters of the running counted loops, outermost first.
    pub counters: Seq<i64>,
    /// The names of the words being run, outermost first.
    pub trace: Seq<Seq<char>>,
    /// The words that were running when the error being propagated arose,
    /// kept from the moment it left the innermost of them.
    pub failed_in: Option<Seq<Seq<char>>>,
    /// The number of registered closures.
    pub natives: nat,
    /// Every line written by 「表示」 so far.
    pub output: Seq<Seq<char>>,
    /// The output sink, when it keeps a record of the lines written to it,
    /// holds the lines it held when the interpreter was made followed by
    /// exactly those of `output`.
    pub sink_faithful: bool,
    /// Whether a module reader is installed.
    pub has_reader: bool,
    /// The paths loaded by 「必要」.
    pub loaded: Seq<Seq<char>>,
    /// Every question asked of the embedding program so far, with its
    /// answer.
    pub outside: Seq<Exchange>,
}

/// The interpreter.
pub struct Interpreter {
    stack: Vec<Value>,
    arrays: Vec<Vec<Value>>,
    slots: Vec<Option<Value>>,
    dictionary: Vec<DictEntry>,
    trees: Vec<Rc<Definition>>,
    scopes: Vec<Vec<BindingEntry>>,
    calls: Vec<ActiveCall>,
    counters: Vec<i64>,
    call_trace: Vec<String>,
    failed_in: Option<Vec<String>>,
    natives: Vec<NativeFn>,
    output: Box<dyn OutputSink>,
    output_log: Ghost<Seq<Seq<char>>>,
    sink_start: Ghost<Seq<Seq<char>>>,
    reader: Option<Box<dyn ModuleReader>>,
    loaded: Vec<String>,
    outside: Ghost<Seq<Exchange>>,
}

pub open spec fn word_view(w: WordDef) -> SWord {
    match w {
        WordDef::Native(i) => SWord::Native(i),
        WordDef::Builtin(b) => SWord::Builtin(b),
        WordDef::User(t) => SWord::User(t),
        WordDef::Alias(n) => SWord::Alias(n@),
    }
}

pub open spec fn opt_val(o: Option<Value>) -> Option<SVal> {
    match o {
        Some(v) => Some(v@),
        None => None,
    }
}

spec fn entry_view(e: DictEntry) -> (Seq<char>, Seq<SWord>) {
    (e.name@, e.generations@.map_values(|w: WordDef| word_view(w)))
}

spec fn frame_view(f: Vec<BindingEntry>) -> Seq<(Seq<char>, Binding)> {
    f@.map_values(|b: BindingEntry| (b.name@, b.binding))
}

spec fn call_view(c: ActiveCall) -> SCall {
    SCall {
        name: c.name@,
        def: c.def,
        locals: c.locals,
        self_ref: match c.self_ref {
            Some((n, g)) => Some((n@, g)),
            None => None,
        },
    }
}

impl View for Interpreter {
    type V = IState;

    closed spec fn view(&self) -> IState {
        IState {
            stack: vals(self.stack@),
            arrays: self.arrays@.map_values(|a: Vec<Value>| vals(a@)),
            slots: self.slots@.map_values(|o: Option<Value>| opt_val(o)),
            dict: self.dictionary@.map_values(|e: DictEntry| entry_view(e)),
            trees: self.trees@.map_values(|d: Rc<Definition>| dv(*d)),
            scopes: self.scopes@.map_values(|f: Vec<BindingEntry>| frame_view(f)),
            calls: self.calls@.map_values(|c: ActiveCall| call_view(c)),
            counters: self.counters@,
            trace: self.call_trace@.map_values(|s: String| s@),
            failed_in: match &self.failed_in {
                Some(v) => Some(v@.map_values(|s: String| s@)),
                None => None,
            },
            natives: self.natives@.len(),
            output: self.output_log@,
            sink_faithful: self.output.keeps_record() ==> self.output.lines_written() == self.sink_start@ + self.output_log@,
            has_reader: self.reader is Some,
            loaded: self.loaded@.map_values(|s: String| s@),
            outside: self.outside@,
        }
    }
}

} // verus!
