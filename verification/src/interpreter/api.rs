//! The interpreter's public interface.
use vstd::prelude::*;
use crate::parser::{Program, SpecDef, TopLevelItem};
use crate::parser::ast::{dv, dvs};
use crate::text::string_from_str;
use crate::tokenizer::{normalize_word, spec_normalize_word};
use super::{Builtin, ExecutionOutcome, IState, Interpreter, Oracle, SWord, WordDef, BindingEntry, agrees, grows};
use super::error::{RuntimeError, RuntimeErrorReport, strings_view};
use super::native::make_native;
use super::output::{ModuleReader, OutputSink, StdoutSink};
use super::semantics::{
    TopOutcome, failure_trace, fresh_run, load_def, push_val, register, render, render_all, sem_item, sem_item_with, sem_run_word, take,
    value_depth,
};
use super::store::{follows, rv};
use super::value::{SVal, Value};

verus! {

/// The model of a fresh interpreter, before its builtin words are
/// registered: everything empty but the global scope frame.
pub open spec fn bare_state(has_reader: bool) -> IState {
    IState {
        stack: seq![],
        arrays: seq![],
        slots: seq![],
        dict: seq![],
        trees: seq![],
        scopes: seq![seq![]],
        calls: seq![],
        counters: seq![],
        trace: seq![],
        failed_in: None,
        natives: 0,
        output: seq![],
        sink_faithful: true,
        has_reader,
        loaded: seq![],
        outside: seq![],
    }
}

/// Registers builtin `b` under the normal form of `raw`.
pub open spec fn reg(s: IState, raw: Seq<char>, b: Builtin) -> IState {
    register(s, spec_normalize_word(raw), SWord::Builtin(b))
}

/// The builtin words, in the order they are registered.
pub open spec fn with_builtins(s: IState) -> IState {
    let s = reg(s, "越え"@, Builtin::Over);
    let s = reg(s, "交換"@, Builtin::Swap);
    let s = reg(s, "回転"@, Builtin::Rot);
    let s = reg(s, "複製"@, Builtin::Dup);
    let s = reg(s, "取替"@, Builtin::Swap);
    let s = reg(s, "捨"@, Builtin::Drop);
    let s = reg(s, "加"@, Builtin::Add);
    let s = reg(s, "引"@, Builtin::Sub);
    let s = reg(s, "掛"@, Builtin::Mul);
    let s = reg(s, "割"@, Builtin::Div);
    let s = reg(s, "余"@, Builtin::Rem);
    let s = reg(s, "等しい?"@, Builtin::Equal);
    let s = reg(s, "大?"@, Builtin::Greater);
    let s = reg(s, "小?"@, Builtin::Less);
    let s = reg(s, "かつ"@, Builtin::And);
    let s = reg(s, "または"@, Builtin::Or);
    let s = reg(s, "番目"@, Builtin::Index);
    let s = reg(s, "入"@, Builtin::Store);
    let s = reg(s, "読"@, Builtin::Load);
    let s = reg(s, "表示"@, Builtin::Display);
    let s = reg(s, "の"@, Builtin::NoOp);
    let s = reg(s, "を"@, Builtin::NoOp);
    let s = reg(s, "に"@, Builtin::NoOp);
    let s = reg(s, "と"@, Builtin::NoOp);
    let s = reg(s, "で"@, Builtin::NoOp);
    let s = reg(s, "が"@, Builtin::NoOp);
    let s = reg(s, "へ"@, Builtin::NoOp);
    let s = reg(s, "も"@, Builtin::NoOp);
    let s = reg(s, "から"@, Builtin::NoOp);
    let s = reg(s, "まで"@, Builtin::NoOp);
    let s = reg(s, "や"@, Builtin::NoOp);
    let s = reg(s, "空配列"@, Builtin::EmptyArray);
    let s = reg(s, "追加"@, Builtin::Append);
    let s = reg(s, "終了"@, Builtin::Exit);
    let s = reg(s, "さよなら"@, Builtin::Exit);
    let s = reg(s, "含める"@, Builtin::Include);
    let s = reg(s, "必要"@, Builtin::Require);
    s
}

/// Loads each definition of `ds` in order.
pub open spec fn load_all(s: IState, ds: Seq<SpecDef>) -> IState
    decreases ds.len(),
{
    if ds.len() == 0 {
        s
    } else {
        load_def(load_all(s, ds.drop_last()), ds.last())
    }
}

/// An exact match between processing a top-level item and its model.
pub open spec fn top_follows(st: IState, r: Result<ExecutionOutcome, RuntimeError>, m: (IState, TopOutcome)) -> bool {
    m.1 is Unknown || (st == m.0 && match (r, m.1) {
        (Ok(ExecutionOutcome::Continue), TopOutcome::Continue) => true,
        (Ok(ExecutionOutcome::Exit), TopOutcome::Exit) => true,
        (Err(e), TopOutcome::Failed(se)) => e@ == se,
        _ => false,
    })
}

impl Interpreter {
    fn bare(output: Box<dyn OutputSink>) -> (r: Interpreter)
        ensures
            r@ == bare_state(false),
    {
        let mut scopes: Vec<Vec<BindingEntry>> = Vec::new();
        scopes.push(Vec::new());
        let mut r = Interpreter {
            stack: Vec::new(),
            arrays: Vec::new(),
            slots: Vec::new(),
            dictionary: Vec::new(),
            trees: Vec::new(),
            scopes,
            calls: Vec::new(),
            counters: Vec::new(),
            call_trace: Vec::new(),
            failed_in: None,
            natives: Vec::new(),
            output,
            output_log: Ghost(Seq::empty()),
            sink_start: Ghost(Seq::empty()),
            outside: Ghost(Seq::empty()),
            reader: None,
            loaded: Vec::new(),
        };
        proof {
            assert(super::frame_view(r.scopes@[0]) =~= Seq::<(Seq<char>, super::Binding)>::empty());
            assert(r@.scopes =~= seq![seq![]]);
            assert(r@.stack =~= Seq::<SVal>::empty());
            assert(r@.arrays =~= Seq::<Seq<SVal>>::empty());
            assert(r@.slots =~= Seq::<Option<SVal>>::empty());
            assert(r@.dict =~= Seq::<(Seq<char>, Seq<SWord>)>::empty());
            assert(r@.trees =~= Seq::<SpecDef>::empty());
            assert(r@.calls =~= Seq::<super::SCall>::empty());
            assert(r@.trace =~= Seq::<Seq<char>>::empty());
            assert(r@.loaded =~= Seq::<Seq<char>>::empty());
        }
        r.sink_start = Ghost(if r.output.keeps_record() { r.output.lines_written() } else { Seq::empty() });
        proof {
            assert(r.output_log@ =~= Seq::<Seq<char>>::empty());
            assert(r.sink_start@ + r.output_log@ =~= r.sink_start@);
        }
        r
    }

    fn register_builtin(&mut self, raw: &str, b: Builtin)
        ensures
            final(self)@ == reg(old(self)@, raw@, b),
    {
        let name = normalize_word(raw);
        self.register(name, WordDef::Builtin(b));
    }

    fn install_builtins(&mut self)
        ensures
            final(self)@ == with_builtins(old(self)@),
    {
        self.register_builtin("越え", Builtin::Over);
        self.register_builtin("交換", Builtin::Swap);
        self.register_builtin("回転", Builtin::Rot);
        self.register_builtin("複製", Builtin::Dup);
        self.register_builtin("取替", Builtin::Swap);
        self.register_builtin("捨", Builtin::Drop);
        self.register_builtin("加", Builtin::Add);
        self.register_builtin("引", Builtin::Sub);
        self.register_builtin("掛", Builtin::Mul);
        self.register_builtin("割", Builtin::Div);
        self.register_builtin("余", Builtin::Rem);
        self.register_builtin("等しい?", Builtin::Equal);
        self.register_builtin("大?", Builtin::Greater);
        self.register_builtin("小?", Builtin::Less);
        self.register_builtin("かつ", Builtin::And);
        self.register_builtin("または", Builtin::Or);
        self.register_builtin("番目", Builtin::Index);
        self.register_builtin("入", Builtin::Store);
        self.register_builtin("読", Builtin::Load);
        self.register_builtin("表示", Builtin::Display);
        self.register_builtin("の", Builtin::NoOp);
        self.register_builtin("を", Builtin::NoOp);
        self.register_builtin("に", Builtin::NoOp);
        self.register_builtin("と", Builtin::NoOp);
        self.register_builtin("で", Builtin::NoOp);
        self.register_builtin("が", Builtin::NoOp);
        self.register_builtin("へ", Builtin::NoOp);
        self.register_builtin("も", Builtin::NoOp);
        self.register_builtin("から", Builtin::NoOp);
        self.register_builtin("まで", Builtin::NoOp);
        self.register_builtin("や", Builtin::NoOp);
        self.register_builtin("空配列", Builtin::EmptyArray);
        self.register_builtin("追加", Builtin::Append);
        self.register_builtin("終了", Builtin::Exit);
        self.register_builtin("さよなら", Builtin::Exit);
        self.register_builtin("含める", Builtin::Include);
        self.register_builtin("必要", Builtin::Require);
    }

    /// An interpreter that writes to the standard output, with the builtin
    /// words registered and no module reader.
    pub fn new() -> (r: Interpreter)
        ensures
            r@ == with_builtins(bare_state(false)),
    {
        Interpreter::with_output(Box::new(StdoutSink))
    }

    /// An interpreter that writes to `output`, with the builtin words
    /// registered and no module reader.
    pub fn with_output(output: Box<dyn OutputSink>) -> (r: Interpreter)
        ensures
            r@ == with_builtins(bare_state(false)),
    {
        let mut r = Interpreter::bare(output);
        r.install_builtins();
        r
    }

    /// Installs the source of module texts for 「含める」 and 「必要」.
    pub fn set_module_reader(&mut self, reader: Box<dyn ModuleReader>)
        ensures
            final(self)@ == (IState { has_reader: true, ..old(self)@ }),
    {
        self.reader = Some(reader);
    }

    /// Registers closure `f` as the newest definition of the word named by
    /// the normal form of `name` (older definitions stay, see
    /// [`register`]).
    pub fn register_native<F: Fn(&mut Interpreter) -> Result<(), RuntimeError> + 'static>(&mut self, name: &str, f: F)
        ensures
            final(self)@ == register(
                IState { natives: old(self)@.natives + 1, ..old(self)@ },
                spec_normalize_word(name@),
                SWord::Native(old(self)@.natives as usize),
            ),
    {
        let id = self.natives.len();
        let ghost s0 = self@;
        self.natives.push(make_native(f));
        proof {
            assert(self@ == (IState { natives: s0.natives + 1, ..s0 }));
        }
        let n = normalize_word(name);
        self.register(n, WordDef::Native(id));
    }

    /// Stores and registers each definition of `program`, in order,
    /// without running anything.
    pub fn load_program(&mut self, program: &Program)
        ensures
            final(self)@ == load_all(old(self)@, dvs(program.definitions@)),
    {
        let ghost s0 = self@;
        let ghost ds = dvs(program.definitions@);
        let mut i: usize = 0;
        proof {
            assert(ds.take(0) =~= Seq::<SpecDef>::empty());
        }
        while i < program.definitions.len()
            invariant
                i <= program.definitions@.len(),
                ds == dvs(program.definitions@),
                self@ == load_all(s0, ds.take(i as int)),
            decreases program.definitions@.len() - i,
        {
            self.load_definition(&program.definitions[i]);
            proof {
                let t = ds.take(i as int + 1);
                assert(t.drop_last() =~= ds.take(i as int));
                assert(t.last() == dv(program.definitions@[i as int]));
            }
            i = i + 1;
        }
        proof {
            assert(ds.take(program.definitions@.len() as int) =~= ds);
        }
    }

    /// Runs the word `name` (see [`sem_run_word`]).
    pub fn run_word(&mut self, name: &str) -> (r: Result<(), RuntimeError>)
        ensures
            grows(old(self)@.outside, final(self)@.outside),
            forall|o: Oracle| #[trigger] agrees(o, final(self)@.outside)
                ==> follows(final(self)@, r, sem_run_word(old(self)@, name@, o)),
            !(r matches Err(RuntimeError::Break)),
    {
        let n = string_from_str(name);
        self.forget_failure();
        match self.dispatch(&n, u64::MAX) {
            Err(RuntimeError::Break) => Err(RuntimeError::BreakOutsideLoop),
            r => r,
        }
    }

    pub(crate) fn forget_failure(&mut self)
        ensures
            final(self)@ == fresh_run(old(self)@),
    {
        self.failed_in = None;
    }

    /// Processes one top-level item (see [`sem_item`]): a definition is
    /// stored and registered; an expression sequence is run, 「終了」 giving
    /// `Exit`.
    pub fn process_top_level_item(&mut self, item: &TopLevelItem) -> (r: Result<ExecutionOutcome, RuntimeError>)
        ensures
            grows(old(self)@.outside, final(self)@.outside),
            forall|o: Oracle| #[trigger] agrees(o, final(self)@.outside)
                ==> top_follows(final(self)@, r, sem_item(old(self)@, item@, o)),
            !(r matches Err(RuntimeError::Exit)),
            !(r matches Err(RuntimeError::Break)),
    {
        self.process_item_with(item, u64::MAX)
    }

    /// Processes one top-level item with budget `fuel` (see
    /// [`sem_item_with`]).
    pub(crate) fn process_item_with(&mut self, item: &TopLevelItem, fuel: u64) -> (r: Result<ExecutionOutcome, RuntimeError>)
        ensures
            grows(old(self)@.outside, final(self)@.outside),
            forall|o: Oracle| #[trigger] agrees(o, final(self)@.outside)
                ==> top_follows(final(self)@, r, sem_item_with(old(self)@, item@, fuel as nat, o)),
            !(r matches Err(RuntimeError::Exit)),
            !(r matches Err(RuntimeError::Break)),
        decreases fuel + 1, 0nat,
    {
        match item {
            TopLevelItem::Definition(d) => {
                self.load_definition(d);
                Ok(ExecutionOutcome::Continue)
            },
            TopLevelItem::Expr(es) => match {
                self.forget_failure();
                self.eval_exprs(es, fuel)
            } {
                Ok(()) => Ok(ExecutionOutcome::Continue),
                Err(RuntimeError::Exit) => Ok(ExecutionOutcome::Exit),
                Err(RuntimeError::Break) => Err(RuntimeError::BreakOutsideLoop),
                Err(e) => Err(e),
            },
        }
    }

    /// The error with the words being run and the stack, rendered.
    pub fn report(&self, error: RuntimeError) -> (r: RuntimeErrorReport)
        ensures
            r.error@ == error@,
            strings_view(r.word_trace@) == failure_trace(self@),
            strings_view(r.stack_snapshot@) == render_all(self@, self@.stack, value_depth(self@)),
    {
        let source: &Vec<String> = match &self.failed_in {
            Some(v) => v,
            None => &self.call_trace,
        };
        let ghost want = failure_trace(self@);
        proof {
            assert(want == source@.map_values(|x: String| x@));
        }
        let mut trace: Vec<String> = Vec::new();
        let mut i: usize = 0;
        while i < source.len()
            invariant
                i <= source@.len(),
                want == source@.map_values(|x: String| x@),
                strings_view(trace@) == want.take(i as int),
            decreases source@.len() - i,
        {
            let c = string_from_str(source[i].as_str());
            let ghost t0 = trace@;
            trace.push(c);
            proof {
                assert(strings_view(trace@) =~= strings_view(t0).push(c@));
                assert(want[i as int] == c@);
                assert(want.take(i as int + 1) =~= want.take(i as int).push(c@));
            }
            i = i + 1;
        }
        proof {
            assert(want.take(source@.len() as int) =~= want);
        }
        let depth = self.value_depth();
        let ghost want = render_all(self@, self@.stack, value_depth(self@));
        let mut snapshot: Vec<String> = Vec::new();
        let mut j: usize = 0;
        while j < self.stack.len()
            invariant
                j <= self.stack@.len(),
                depth == value_depth(self@),
                want == render_all(self@, self@.stack, value_depth(self@)),
                strings_view(snapshot@) == want.take(j as int),
            decreases self.stack@.len() - j,
        {
            let c = self.render(&self.stack[j], depth);
            let ghost t0 = snapshot@;
            snapshot.push(c);
            proof {
                assert(self@.stack[j as int] == self.stack@[j as int]@);
                assert(strings_view(snapshot@) =~= strings_view(t0).push(c@));
                assert(want.take(j as int + 1) =~= want.take(j as int).push(want[j as int]));
            }
            j = j + 1;
        }
        proof {
            assert(want.take(self.stack@.len() as int) =~= want);
        }
        RuntimeErrorReport { error, word_trace: trace, stack_snapshot: snapshot }
    }

    /// Pops the top of the stack; a variable reference is returned as it
    /// is, not resolved.
    pub fn pop_value(&mut self) -> (r: Result<Value, RuntimeError>)
        ensures
            final(self)@ == take(old(self)@).0,
            rv(r) == take(old(self)@).1,
    {
        self.take()
    }

    /// Pushes a value.
    pub fn push_value(&mut self, value: Value)
        ensures
            final(self)@ == push_val(old(self)@, value@),
    {
        self.stack_push(value);
    }

    /// The number of values on the stack.
    pub fn stack_len(&self) -> (r: usize)
        ensures
            r == self@.stack.len(),
    {
        self.stack.len()
    }

    /// The text 「表示」 shows for `value` (see [`render`]).
    pub fn display_value(&self, value: &Value) -> (r: String)
        ensures
            r@ == render(self@, value@, value_depth(self@)),
    {
        let d = self.value_depth();
        self.render(value, d)
    }
}

impl Default for Interpreter {
    /// The same as [`Interpreter::new`].
    fn default() -> (r: Interpreter)
        ensures
            r@ == with_builtins(bare_state(false)),
    {
        Interpreter::new()
    }
}

} // verus!
