//! Evaluation: expressions, word calls, calls of definitions, loops and
//! modules, each following the spec function of [`super::semantics`] it
//! names.
use vstd::prelude::*;
use std::rc::Rc;
use crate::parser::{Definition, Expr, TopLevelItem, parse_top_level_item};
use crate::parser::ast::{dv, dvs, ev, evs, copy_definition};
use crate::text::{push_char, str_chars, str_eq, string_from_str};
use crate::tokenizer::{toks_view, tokenize};
use crate::error::{SUmorError, UmorError};
use crate::runner::{report_of, run_follows, sem_module_text, sem_run_items_with, too_long};
use super::{
    Ask, Binding, Builtin, DefRef, Exchange, ExecutionOutcome, IState, Interpreter, Oracle, Reply, WordDef,
    agrees, agrees_with_earlier, grows, grows_push, grows_trans,
};
use super::error::{RuntimeError};
use super::native::{invoke_native, share_native};
use super::semantics::{
    sem_exprs, sem_expr, sem_dispatch, sem_call, sem_loop, sem_counted, module_step, asked, native_step,
    char_literal, def_of, pop_counter, sem_item_with, sem_module_reply, strip_dot_slash, take, take_number, Outcome, TopOutcome,
};
use super::store::{follows, rp};
use super::value::{Value};

verus! {

/// A second handle to a stored definition (std's `Rc::clone`): the same
/// definition.
#[verifier::external_body]
fn share_definition(d: &Rc<Definition>) -> (r: Rc<Definition>)
    ensures
        r == *d,
{
    Rc::clone(d)
}

/// The model of a module reader's reply.
pub open spec fn reply_view(r: Result<String, String>) -> Result<Seq<char>, Seq<char>> {
    match r {
        Ok(t) => Ok(t@),
        Err(m) => Err(m@),
    }
}

pub open spec fn sref(r: Option<(String, usize)>) -> Option<(Seq<char>, usize)> {
    match r {
        Some((n, g)) => Some((n@, g)),
        None => None,
    }
}

proof fn lemma_evs_skip(v: Seq<Expr>, i: int)
    requires
        0 <= i < v.len(),
    ensures
        evs(v).skip(i).len() > 0,
        evs(v).skip(i)[0] == ev(v[i]),
        evs(v).skip(i).drop_first() == evs(v).skip(i + 1),
{
    assert(evs(v).skip(i).drop_first() =~= evs(v).skip(i + 1));
}

fn copy_string(s: &String) -> (r: String)
    ensures
        r@ == s@,
{
    string_from_str(s.as_str())
}

impl Interpreter {
    /// Evaluates `es` in order (see [`sem_exprs`]).
    pub(crate) fn eval_exprs(&mut self, es: &Vec<Expr>, fuel: u64) -> (r: Result<(), RuntimeError>)
        ensures
            grows(old(self)@.outside, final(self)@.outside),
            forall|o: Oracle| #[trigger] agrees(o, final(self)@.outside)
                ==> follows(final(self)@, r, sem_exprs(old(self)@, evs(es@), fuel as nat, o)),
        decreases fuel, es@.len(),
    {
        let ghost s0 = self@;
        let mut i: usize = 0;
        proof {
            assert(evs(es@).skip(0) =~= evs(es@));
        }
        while i < es.len()
            invariant
                i <= es@.len(),
                s0 == old(self)@,
                grows(s0.outside, self@.outside),
                forall|o: Oracle| #[trigger] agrees(o, self@.outside) ==> (sem_exprs(s0, evs(es@), fuel as nat, o).1 is Unknown
                    || sem_exprs(s0, evs(es@), fuel as nat, o) == sem_exprs(self@, evs(es@).skip(i as int), fuel as nat, o)),
            decreases es@.len() - i,
        {
            proof {
                lemma_evs_skip(es@, i as int);
            }
            let ghost cur = self@;
            let r = self.eval_expr(&es[i], fuel);
            if let Err(e) = r {
                proof {
                    assert forall|o: Oracle| #[trigger] agrees(o, self@.outside)
                        implies follows(self@, Err::<(), RuntimeError>(e), sem_exprs(s0, evs(es@), fuel as nat, o)) by {
                        agrees_with_earlier(o, cur.outside, self@.outside);
                    }
                }
                return Err(e);
            }
            proof {
                assert forall|o: Oracle| #[trigger] agrees(o, self@.outside) implies (sem_exprs(s0, evs(es@), fuel as nat, o).1 is Unknown
                    || sem_exprs(s0, evs(es@), fuel as nat, o) == sem_exprs(self@, evs(es@).skip(i as int + 1), fuel as nat, o)) by {
                    agrees_with_earlier(o, cur.outside, self@.outside);
                }
            }
            i = i + 1;
        }
        proof {
            assert(evs(es@).skip(i as int).len() == 0);
        }
        Ok(())
    }

    /// Evaluates one expression (see [`sem_expr`]).
    pub(crate) fn eval_expr(&mut self, e: &Expr, fuel: u64) -> (r: Result<(), RuntimeError>)
        ensures
            grows(old(self)@.outside, final(self)@.outside),
            forall|o: Oracle| #[trigger] agrees(o, final(self)@.outside)
                ==> follows(final(self)@, r, sem_expr(old(self)@, ev(*e), fuel as nat, o)),
        decreases fuel, 0nat,
    {
        if fuel == 0 {
            return Err(RuntimeError::StepLimitExceeded);
        }
        let f = fuel - 1;
        match e {
            Expr::WordCall(name) => self.dispatch(name, f),
            Expr::NumberLiteral(n) => {
                self.stack_push(Value::Number(*n));
                Ok(())
            },
            Expr::StringLiteral(t) => {
                self.stack_push(Value::String(copy_string(t)));
                Ok(())
            },
            Expr::SelfRecurse => {
                if self.calls.len() == 0 {
                    return Err(RuntimeError::UndefinedWord(string_from_str("再帰")));
                }
                let last = self.calls.len() - 1;
                proof {
                    assert(self@.calls.last() == super::call_view(self.calls@[last as int]));
                }
                let name = copy_string(&self.calls[last].name);
                let def = self.calls[last].def;
                let locals = self.calls[last].locals;
                let self_ref = match &self.calls[last].self_ref {
                    Some((n, g)) => Some((copy_string(n), *g)),
                    None => None,
                };
                self.call(name, def, locals, self_ref, f)
            },
            Expr::IfElse { cond, then_branch, else_branch } => {
                match self.eval_exprs(cond, f) {
                    Err(e) => return Err(e),
                    Ok(()) => {},
                }
                let ghost mid = self@;
                let v = match self.take() {
                    Err(e) => return Err(e),
                    Ok(v) => v,
                };
                let r = match v {
                    Value::Bool(true) => self.eval_exprs(then_branch, f),
                    Value::Bool(false) => match else_branch {
                        Some(b) => self.eval_exprs(b, f),
                        None => Ok(()),
                    },
                    other => Err(RuntimeError::TypeMismatch { expected: string_from_str("真偽値"), found: string_from_str(other.type_label()) }),
                };
                proof {
                    assert forall|o: Oracle| #[trigger] agrees(o, self@.outside) implies agrees(o, mid.outside) by {
                        agrees_with_earlier(o, mid.outside, self@.outside);
                    }
                }
                r
            },
            Expr::Break => Err(RuntimeError::Break),
            Expr::InfiniteLoop { body } => self.run_loop(body, f),
            Expr::CountedLoop { body } => {
                let n = match self.take_number() {
                    Err(e) => return Err(e),
                    Ok(n) => n,
                };
                self.run_counted(body, n, f)
            },
            Expr::VariableDecl(name) => {
                let slot = self.alloc_slot(None);
                self.declare(copy_string(name), Binding::Var(slot));
                Ok(())
            },
            Expr::ValueDecl { name, is_constant, init_expr } => {
                match self.eval_exprs(init_expr, f) {
                    Err(e) => return Err(e),
                    Ok(()) => {},
                }
                let v = match self.take_concrete() {
                    Err(e) => return Err(e),
                    Ok(v) => v,
                };
                let slot = self.alloc_slot(Some(v));
                self.declare(copy_string(name), Binding::Val { slot, constant: *is_constant });
                Ok(())
            },
            Expr::Assign { name, value_expr } => {
                match self.eval_exprs(value_expr, f) {
                    Err(e) => return Err(e),
                    Ok(()) => {},
                }
                let slot = match self.lookup(name.as_str()) {
                    None => return Err(RuntimeError::UndefinedWord(copy_string(name))),
                    Some(Binding::Val { slot: _, constant: true }) => return Err(RuntimeError::AssignToConstant(copy_string(name))),
                    Some(Binding::Var(k)) => k,
                    Some(Binding::Val { slot, constant: _ }) => slot,
                };
                let v = match self.take_concrete() {
                    Err(e) => return Err(e),
                    Ok(v) => v,
                };
                self.store_slot(slot, v);
                Ok(())
            },
            Expr::AliasDecl { new_name, existing_name } => {
                self.register(copy_string(new_name), WordDef::Alias(copy_string(existing_name)));
                Ok(())
            },
        }
    }

    /// A call of `name` (see [`sem_dispatch`]).
    #[verifier::rlimit(60)]
    pub(crate) fn dispatch(&mut self, name: &String, fuel: u64) -> (r: Result<(), RuntimeError>)
        ensures
            grows(old(self)@.outside, final(self)@.outside),
            forall|o: Oracle| #[trigger] agrees(o, final(self)@.outside)
                ==> follows(final(self)@, r, sem_dispatch(old(self)@, name@, fuel as nat, o)),
        decreases fuel, 0nat,
    {
        if fuel == 0 {
            return Err(RuntimeError::StepLimitExceeded);
        }
        let f = fuel - 1;
        let chars = str_chars(name.as_str());
        if chars.len() == 3 && chars[0] == '\'' && chars[2] == '\'' {
            let mut c = String::new();
            push_char(&mut c, chars[1]);
            proof {
                assert(c@ =~= seq![name@[1]]);
            }
            self.stack_push(Value::String(c));
            return Ok(());
        }
        proof {
            assert(char_literal(name@) is None);
        }
        if str_eq(name.as_str(), "回数") && self.counters.len() > 0 {
            let i = self.counters[self.counters.len() - 1];
            self.stack_push(Value::Number(i));
            return Ok(());
        }
        match self.lookup(name.as_str()) {
            Some(Binding::Var(slot)) => {
                self.stack_push(Value::VarRef(slot, copy_string(name)));
                return Ok(());
            },
            Some(Binding::Val { slot, constant: _ }) => {
                if slot < self.slots.len() {
                    proof {
                        assert(self@.slots[slot as int] == super::opt_val(self.slots@[slot as int]));
                    }
                    match &self.slots[slot] {
                        Some(x) => {
                            let c = x.copied();
                            self.stack_push(c);
                            return Ok(());
                        },
                        None => {
                            return Err(RuntimeError::UninitializedVariable(copy_string(name)));
                        },
                    }
                }
                return Err(RuntimeError::UninitializedVariable(copy_string(name)));
            },
            None => {},
        }
        match self.current_local(name.as_str()) {
            Some((t, j)) => {
                return self.call(copy_string(name), DefRef::Local(t, j), Some(t), None, f);
            },
            None => {},
        }
        match self.resolve(name.as_str()) {
            None => Err(RuntimeError::UndefinedWord(copy_string(name))),
            Some((WordDef::Native(id), _)) => {
                if id < self.natives.len() {
                    self.run_native(name, id)
                } else {
                    Err(RuntimeError::UndefinedWord(copy_string(name)))
                }
            },
            Some((WordDef::Builtin(b), _)) => {
                let ghost s1 = IState { trace: self@.trace.push(name@), ..self@ };
                self.call_trace.push(copy_string(name));
                proof {
                    assert(self@.trace =~= s1.trace);
                }
                let r = if b == Builtin::Include || b == Builtin::Require {
                    self.module_builtin(b, f)
                } else {
                    self.run_builtin(b)
                };
                self.note_failure(&r);
                let ghost s2 = self@;
                if self.call_trace.len() > 0 {
                    self.call_trace.pop();
                    proof {
                        assert(self@.trace =~= s2.trace.drop_last());
                    }
                }
                r
            },
            Some((WordDef::User(t), g)) => {
                self.call(copy_string(name), DefRef::Top(t), Some(t), Some((copy_string(name), g)), f)
            },
            Some((WordDef::Alias(target), _)) => self.dispatch(&target, f),
        }
    }

    /// A call of the closure registered as `id` for the word `name` (see
    /// [`native_step`]): the closure is called with the name on the trace;
    /// whatever it did, the call and its answer are recorded, a failure is
    /// noted and the name popped.
    fn run_native(&mut self, name: &String, id: usize) -> (r: Result<(), RuntimeError>)
        requires
            id < old(self)@.natives,
        ensures
            grows(old(self)@.outside, final(self)@.outside),
            forall|o: Oracle| #[trigger] agrees(o, final(self)@.outside)
                ==> follows(final(self)@, r, native_step(old(self)@, name@, id as nat, o)),
    {
        let h = share_native(&self.natives[id]);
        let ghost s0 = self@;
        self.call_trace.push(copy_string(name));
        let ghost handed = self@;
        proof {
            assert(handed.trace =~= s0.trace.push(name@));
            assert(handed == (IState { trace: s0.trace.push(name@), ..s0 }));
        }
        let r = invoke_native(&h, self);
        let ghost left = self@;
        let ghost ex = Exchange {
            ask: Ask::Native { id: id as nat },
            handed,
            reply: Reply::Native { left, result: rp::<()>(r) },
        };
        self.outside = Ghost(s0.outside.push(ex));
        proof {
            assert(self@ == (IState { outside: s0.outside.push(ex), ..left }));
        }
        self.note_failure(&r);
        let ghost s2 = self@;
        if self.call_trace.len() > 0 {
            self.call_trace.pop();
            proof {
                assert(self@.trace =~= s2.trace.drop_last());
            }
        }
        proof {
            grows_push(s0.outside, ex);
            assert forall|o: Oracle| #[trigger] agrees(o, self@.outside)
                implies follows(self@, r, native_step(s0, name@, id as nat, o)) by {
                assert(self@.outside[s0.outside.len() as int] == ex);
                assert(o(s0.outside.len(), handed) == ex.reply);
            }
        }
        r
    }

    /// Runs definition `r` as a call named `name` (see [`sem_call`]).
    pub(crate) fn call(&mut self, name: String, r: DefRef, locals: Option<usize>, self_ref: Option<(String, usize)>, fuel: u64) -> (res: Result<(), RuntimeError>)
        ensures
            grows(old(self)@.outside, final(self)@.outside),
            forall|o: Oracle| #[trigger] agrees(o, final(self)@.outside)
                ==> follows(final(self)@, res, sem_call(old(self)@, name@, r, locals, sref(self_ref), fuel as nat, o)),
        decreases fuel, 0nat,
    {
        if fuel == 0 {
            return Err(RuntimeError::StepLimitExceeded);
        }
        let tree: Rc<Definition> = match r {
            DefRef::Top(t) => {
                if t >= self.trees.len() {
                    return Err(RuntimeError::UndefinedWord(name));
                }
                share_definition(&self.trees[t])
            },
            DefRef::Local(t, j) => {
                if t >= self.trees.len() {
                    return Err(RuntimeError::UndefinedWord(name));
                }
                if j >= self.trees[t].locals.len() {
                    proof {
                        assert(self@.trees[t as int] == dv(*self.trees@[t as int]));
                    }
                    return Err(RuntimeError::UndefinedWord(name));
                }
                share_definition(&self.trees[t])
            },
        };
        let d: &Definition = match r {
            DefRef::Top(_) => &*tree,
            DefRef::Local(_, j) => &tree.locals[j],
        };
        proof {
            match r {
                DefRef::Top(t) => {
                    assert(self@.trees[t as int] == dv(*self.trees@[t as int]));
                    assert(def_of(self@, r) == Some(dv(*d)));
                },
                DefRef::Local(t, j) => {
                    assert(self@.trees[t as int] == dv(*self.trees@[t as int]));
                    assert(dvs(tree.locals@)[j as int] == dv(tree.locals@[j as int]));
                    assert(def_of(self@, r) == Some(dv(*d)));
                },
            }
        }
        self.enter(name, r, d, locals, self_ref);
        let res = self.eval_exprs(&d.body, fuel - 1);
        self.note_failure(&res);
        self.leave();
        res
    }

    /// `ここから … 繰り返し` (see [`sem_loop`]).
    fn run_loop(&mut self, body: &Vec<Expr>, fuel: u64) -> (r: Result<(), RuntimeError>)
        ensures
            grows(old(self)@.outside, final(self)@.outside),
            forall|o: Oracle| #[trigger] agrees(o, final(self)@.outside)
                ==> follows(final(self)@, r, sem_loop(old(self)@, evs(body@), fuel as nat, o)),
        decreases fuel, 0nat,
    {
        let ghost s0 = self@;
        let mut f = fuel;
        loop
            invariant
                f <= fuel,
                s0 == old(self)@,
                grows(s0.outside, self@.outside),
                forall|o: Oracle| #[trigger] agrees(o, self@.outside) ==> (sem_loop(s0, evs(body@), fuel as nat, o).1 is Unknown
                    || sem_loop(s0, evs(body@), fuel as nat, o) == sem_loop(self@, evs(body@), f as nat, o)),
            decreases f,
        {
            if f == 0 {
                return Err(RuntimeError::StepLimitExceeded);
            }
            f = f - 1;
            let ghost cur = self@;
            let r = self.eval_exprs(body, f);
            proof {
                assert forall|o: Oracle| #[trigger] agrees(o, self@.outside) implies agrees(o, cur.outside) by {
                    agrees_with_earlier(o, cur.outside, self@.outside);
                }
            }
            match r {
                Ok(()) => {},
                Err(RuntimeError::Break) => {
                    return Ok(());
                },
                Err(e) => {
                    return Err(e);
                },
            }
        }
    }

    /// `n 回数指定し … 繰り返す` (see [`sem_counted`]).
    fn run_counted(&mut self, body: &Vec<Expr>, n: i64, fuel: u64) -> (r: Result<(), RuntimeError>)
        ensures
            grows(old(self)@.outside, final(self)@.outside),
            forall|o: Oracle| #[trigger] agrees(o, final(self)@.outside)
                ==> follows(final(self)@, r, sem_counted(old(self)@, evs(body@), 0, n, fuel as nat, o)),
        decreases fuel, 0nat,
    {
        let ghost s00 = self@;
        let mut i: i64 = 0;
        while i < n
            invariant
                0 <= i,
                s00 == old(self)@,
                grows(s00.outside, self@.outside),
                forall|o: Oracle| #[trigger] agrees(o, self@.outside) ==> (sem_counted(s00, evs(body@), 0, n, fuel as nat, o).1 is Unknown
                    || sem_counted(s00, evs(body@), 0, n, fuel as nat, o) == sem_counted(self@, evs(body@), i, n, fuel as nat, o)),
            decreases n - i,
        {
            if fuel == 0 {
                return Err(RuntimeError::StepLimitExceeded);
            }
            let ghost s0 = self@;
            self.counters.push(i);
            proof {
                assert(self@.counters =~= s0.counters.push(i));
                assert(self@ == (IState { counters: s0.counters.push(i), ..s0 }));
            }
            let res = self.eval_exprs(body, fuel - 1);
            let ghost s1 = self@;
            if self.counters.len() > 0 {
                self.counters.pop();
                proof {
                    assert(self@.counters =~= s1.counters.drop_last());
                }
            }
            proof {
                assert(self@ == pop_counter(s1));
                assert forall|o: Oracle| #[trigger] agrees(o, self@.outside) implies agrees(o, s0.outside) by {
                    agrees_with_earlier(o, s0.outside, self@.outside);
                }
            }
            match res {
                Ok(()) => {},
                Err(RuntimeError::Break) => {
                    return Ok(());
                },
                Err(e) => {
                    return Err(e);
                },
            }
            i = i + 1;
        }
        Ok(())
    }

    /// Whether 「必要」 already loaded `path`.
    fn is_loaded(&self, path: &String) -> (r: bool)
        ensures
            r == self@.loaded.contains(path@),
    {
        let mut i: usize = 0;
        while i < self.loaded.len()
            invariant
                i <= self.loaded@.len(),
                forall|j: int| 0 <= j < i ==> self@.loaded[j] != path@,
            decreases self.loaded@.len() - i,
        {
            proof {
                assert(self@.loaded[i as int] == self.loaded@[i as int]@);
            }
            if str_eq(self.loaded[i].as_str(), path.as_str()) {
                proof {
                    assert(self@.loaded[i as int] == path@);
                }
                return true;
            }
            i = i + 1;
        }
        false
    }

    /// 「含める」 and 「必要」 (see [`module_step`]): the path handed to the
    /// module reader and its answer are recorded.
    fn module_builtin(&mut self, b: Builtin, fuel: u64) -> (r: Result<(), RuntimeError>)
        requires
            b == Builtin::Include || b == Builtin::Require,
        ensures
            grows(old(self)@.outside, final(self)@.outside),
            forall|o: Oracle| #[trigger] agrees(o, final(self)@.outside)
                ==> follows(final(self)@, r, module_step(old(self)@, b, fuel as nat, o)),
        decreases fuel, 1nat,
    {
        let v = match self.take() {
            Err(e) => return Err(e),
            Ok(v) => v,
        };
        let ghost popped = self@;
        let p = match v {
            Value::String(p) => p,
            other => return Err(RuntimeError::TypeMismatch { expected: string_from_str("文字列"), found: string_from_str(other.type_label()) }),
        };
        let path = if b == Builtin::Require { strip_dot_slash_exec(&p) } else { p };
        if b == Builtin::Require && self.is_loaded(&path) {
            return Ok(());
        }
        let reply = match &mut self.reader {
            None => {
                return Err(RuntimeError::ModuleReadError {
                    path,
                    message: string_from_str("モジュールの読み込み先が設定されていません"),
                });
            },
            Some(rd) => rd.read_module(path.as_str()),
        };
        proof {
            // The reader's answer leaves the model state as it was after the pop.
            assert(self@ == popped);
        }
        let ghost ex = Exchange { ask: Ask::Module { path: path@ }, handed: popped, reply: Reply::Module { text: reply_view(reply) } };
        self.outside = Ghost(popped.outside.push(ex));
        let ghost s1 = self@;
        proof {
            assert(s1 == asked(popped, Ask::Module { path: path@ }, popped, ex.reply));
        }
        let res = self.finish_module(b, path, reply, fuel);
        proof {
            grows_push(popped.outside, ex);
            grows_trans(old(self)@.outside, s1.outside, self@.outside);
            assert forall|o: Oracle| #[trigger] agrees(o, self@.outside)
                implies follows(self@, res, module_step(old(self)@, b, fuel as nat, o)) by {
                agrees_with_earlier(o, s1.outside, self@.outside);
                assert(s1.outside[popped.outside.len() as int] == ex);
                assert(o(popped.outside.len(), popped) == ex.reply);
            }
        }
        res
    }

    /// What a module read leads to, given the reader's reply (see
    /// [`sem_module_reply`]).
    fn finish_module(&mut self, b: Builtin, path: String, reply: Result<String, String>, fuel: u64) -> (r: Result<(), RuntimeError>)
        ensures
            grows(old(self)@.outside, final(self)@.outside),
            forall|o: Oracle| #[trigger] agrees(o, final(self)@.outside)
                ==> follows(final(self)@, r, sem_module_reply(old(self)@, b, path@, reply_view(reply), fuel as nat, o)),
        decreases fuel, 0nat,
    {
        let text = match reply {
            Err(message) => return Err(RuntimeError::ModuleReadError { path, message }),
            Ok(t) => t,
        };
        if b == Builtin::Require {
            let ghost s0 = self@;
            self.loaded.push(copy_string(&path));
            proof {
                assert(self@.loaded =~= s0.loaded.push(path@));
                assert(self@ == (IState { loaded: s0.loaded.push(path@), ..s0 }));
            }
        }
        if fuel == 0 {
            return Err(RuntimeError::StepLimitExceeded);
        }
        match self.run_module_text(text.as_str(), fuel - 1) {
            Ok(ExecutionOutcome::Continue) => Ok(()),
            Ok(ExecutionOutcome::Exit) => Err(RuntimeError::Exit),
            Err(e) => {
                let message = e.message();
                let ghost s2 = self@;
                self.failed_in = None;
                proof {
                    assert(self@ == (IState { failed_in: None, ..s2 }));
                }
                Err(RuntimeError::ModuleError { path, message })
            },
        }
    }

    /// Processes one item of a module's text with budget `fuel`, reporting
    /// a run-time error with its context.
    fn module_item(&mut self, item: &TopLevelItem, fuel: u64) -> (r: Result<ExecutionOutcome, UmorError>)
        ensures
            grows(old(self)@.outside, final(self)@.outside),
            forall|o: Oracle| #[trigger] agrees(o, final(self)@.outside) ==> ({
                let (s1, out) = sem_item_with(old(self)@, item@, fuel as nat, o);
                out is Unknown || (final(self)@ == s1 && match (r, out) {
                    (Ok(ExecutionOutcome::Continue), TopOutcome::Continue) => true,
                    (Ok(ExecutionOutcome::Exit), TopOutcome::Exit) => true,
                    (Err(e), TopOutcome::Failed(se)) => e@ == SUmorError::Runtime(report_of(s1, se)),
                    _ => false,
                })
            }),
        decreases fuel + 1, 1nat,
    {
        match self.process_item_with(item, fuel) {
            Ok(o) => Ok(o),
            Err(e) => {
                let rep = self.report(e);
                Err(UmorError::Runtime(rep))
            },
        }
    }

    /// Runs the text of a module item by item, sharing this interpreter's
    /// state (see [`sem_module_text`]).
    fn run_module_text(&mut self, text: &str, fuel: u64) -> (r: Result<ExecutionOutcome, UmorError>)
        ensures
            grows(old(self)@.outside, final(self)@.outside),
            forall|o: Oracle| #[trigger] agrees(o, final(self)@.outside)
                ==> run_follows(final(self)@, r, sem_module_text(old(self)@, text@, fuel as nat, o)),
        decreases fuel, 2nat,
    {
        if text.unicode_len() == usize::MAX {
            return Err(UmorError::Lex(too_long()));
        }
        let tokens = match tokenize(text) {
            Ok(t) => t,
            Err(e) => return Err(UmorError::Lex(e)),
        };
        if tokens.len() > isize::MAX as usize {
            return Err(UmorError::Lex(too_long()));
        }
        if fuel == 0 {
            let rep = self.report(RuntimeError::StepLimitExceeded);
            return Err(UmorError::Runtime(rep));
        }
        let f = fuel - 1;
        let ghost t = toks_view(tokens@);
        let ghost st = self@;
        let mut pos: usize = 0;
        while pos < tokens.len()
            invariant
                pos <= tokens@.len(),
                tokens@.len() <= isize::MAX,
                t == toks_view(tokens@),
                t.len() == tokens@.len(),
                f == fuel - 1,
                st == old(self)@,
                forall|o: Oracle| sem_module_text(st, text@, fuel as nat, o) == #[trigger] sem_run_items_with(st, t, 0, f as nat, o),
                grows(st.outside, self@.outside),
                forall|o: Oracle| #[trigger] agrees(o, self@.outside) ==> (sem_module_text(st, text@, fuel as nat, o).1 is Unknown
                    || sem_module_text(st, text@, fuel as nat, o) == sem_run_items_with(self@, t, pos as int, f as nat, o)),
            decreases tokens@.len() - pos,
        {
            let ghost p0 = pos as int;
            let ghost s0 = self@;
            let item = match parse_top_level_item(&tokens, &mut pos) {
                Ok(item) => item,
                Err(e) => return Err(UmorError::Parse(e)),
            };
            let r = self.module_item(&item, f);
            proof {
                assert forall|o: Oracle| #[trigger] agrees(o, self@.outside) implies agrees(o, s0.outside) by {
                    agrees_with_earlier(o, s0.outside, self@.outside);
                }
            }
            match r {
                Ok(ExecutionOutcome::Continue) => {},
                Ok(ExecutionOutcome::Exit) => return Ok(ExecutionOutcome::Exit),
                Err(e) => return Err(e),
            }
        }
        Ok(ExecutionOutcome::Continue)
    }

    /// Stores a top-level definition and registers it under its name (see
    /// [`super::semantics::load_def`]).
    pub(crate) fn load_definition(&mut self, d: &Definition)
        ensures
            final(self)@ == super::semantics::load_def(old(self)@, dv(*d)),
    {
        let c = copy_definition(d);
        let t = self.trees.len();
        let name = copy_string(&d.name);
        let ghost s0 = self@;
        self.trees.push(Rc::new(c));
        proof {
            assert(self@.trees =~= s0.trees.push(dv(*d)));
            assert(self@ == (IState { trees: s0.trees.push(dv(*d)), ..s0 }));
        }
        self.register(name, WordDef::User(t));
    }
}

/// `p` without a leading `./` (see [`strip_dot_slash`]).
fn strip_dot_slash_exec(p: &String) -> (r: String)
    ensures
        r@ == strip_dot_slash(p@),
{
    let v = str_chars(p.as_str());
    if v.len() >= 2 && v[0] == '.' && v[1] == '/' {
        let mut s = String::new();
        let mut i: usize = 2;
        while i < v.len()
            invariant
                2 <= i <= v@.len(),
                v@ == p@,
                s@ == v@.subrange(2, i as int),
            decreases v@.len() - i,
        {
            push_char(&mut s, v[i]);
            i = i + 1;
            proof {
                assert(s@ =~= v@.subrange(2, i as int));
            }
        }
        s
    } else {
        copy_string(p)
    }
}

} // verus!
