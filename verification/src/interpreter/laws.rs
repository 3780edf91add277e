//! Properties of the interpreter's model that hold for every input: of the
//! stack words, the dictionary, top-level processing and file processing.
use vstd::prelude::*;
use crate::parser::{SpecDef, SpecExpr, SpecItem};
use super::{Binding, Builtin, IState, Oracle, Reply, SWord};
use super::error::SErr;
use super::{DefRef};
use super::semantics::{
    sem_exprs, sem_call, sem_loop, enter, leave, def_of, pop_counter, shrink, take_number,
    Outcome, TopOutcome, append_step, builtin_step, char_literal, counter_word, current_local,
    display_step, find_entry, load_step, store_step, gens, load_def, lookup, module_step, push_val, register, render,
    resolve, sem_counted, sem_dispatch, sem_expr, sem_item, sem_item_with, sem_module_reply, shuffle_step, strip_dot_slash, take,
    top_outcome, value_depth, values_equal, elems_equal,
};
use super::value::SVal;
use crate::runner::{sem_module_text, sem_run_items_with};
use crate::parser::grammar::top_level_item;
use crate::tokenizer::SpecToken;
use crate::tokenizer::scan::spec_tokenize;

verus! {

/// Popping right after pushing gives back the value pushed and the state
/// before the push.
pub proof fn push_then_pop(s: IState, v: SVal)
    ensures
        take(push_val(s, v)) == (s, Ok::<SVal, SErr>(v)),
{
    assert(push_val(s, v).stack.drop_last() =~= s.stack);
}

/// 「交換」 twice leaves the state as it was, whenever the stack holds at
/// least two values.
pub proof fn swap_twice_is_identity(s: IState)
    requires
        s.stack.len() >= 2,
    ensures
        shuffle_step(s, Builtin::Swap).1 == Outcome::Done,
        shuffle_step(shuffle_step(s, Builtin::Swap).0, Builtin::Swap) == (s, Outcome::Done),
{
    let n = s.stack.len();
    let s1 = shuffle_step(s, Builtin::Swap).0;
    assert(s1.stack =~= s.stack.take(n - 2).push(s.stack[n - 1]).push(s.stack[n - 2]));
    assert(shuffle_step(s1, Builtin::Swap).0.stack =~= s.stack);
}

/// 「複製」 leaves the top value twice: for an array, both copies name the
/// same array of the store.
pub proof fn dup_shares_the_value(s: IState)
    requires
        s.stack.len() >= 1,
    ensures
        shuffle_step(s, Builtin::Dup) == (push_val(s, s.stack.last()), Outcome::Done),
{
    assert(push_val(take(s).0, s.stack.last()).stack =~= s.stack);
}

/// Registering a definition for a name keeps every older definition of it
/// and makes the new one the newest; other names are untouched.
pub proof fn register_appends_a_generation(s: IState, name: Seq<char>, w: SWord, other: Seq<char>)
    requires
        other != name,
    ensures
        gens(register(s, name, w), name) == gens(s, name).push(w),
        gens(register(s, name, w), other) == gens(s, other),
{
    lemma_register_same(s, name, w);
    lemma_register_other(s, name, w, other);
}

proof fn lemma_register_same(s: IState, name: Seq<char>, w: SWord)
    ensures
        gens(register(s, name, w), name) == gens(s, name).push(w),
{
    let d = s.dict;
    super::store::lemma_find_entry(d, name, d.len());
    match find_entry(d, name, d.len()) {
        Some(i) => {
            let d2 = d.update(i as int, (name, d[i as int].1.push(w)));
            lemma_find_same_keys(d, d2, name, d.len());
        },
        None => {
            let d2 = d.push((name, seq![w]));
            assert(d2[d.len() as int].0 == name);
            assert(find_entry(d2, name, d2.len()) == Some(d.len()));
            assert(seq![w] =~= Seq::<SWord>::empty().push(w));
        },
    }
}

proof fn lemma_register_other(s: IState, name: Seq<char>, w: SWord, other: Seq<char>)
    requires
        other != name,
    ensures
        gens(register(s, name, w), other) == gens(s, other),
{
    let d = s.dict;
    super::store::lemma_find_entry(d, name, d.len());
    super::store::lemma_find_entry(d, other, d.len());
    match find_entry(d, name, d.len()) {
        Some(i) => {
            let d2 = d.update(i as int, (name, d[i as int].1.push(w)));
            lemma_find_same_keys(d, d2, other, d.len());
        },
        None => {
            let d2 = d.push((name, seq![w]));
            assert(d2[d.len() as int].0 == name);
            assert(find_entry(d2, other, d2.len()) == find_entry(d2, other, d.len()));
            lemma_find_prefix(d, d2, other, d.len());
        },
    }
}

/// Two dictionaries with the same names find the same entries.
proof fn lemma_find_same_keys(d: Seq<(Seq<char>, Seq<SWord>)>, d2: Seq<(Seq<char>, Seq<SWord>)>, name: Seq<char>, n: nat)
    requires
        d.len() == d2.len(),
        n <= d.len(),
        forall|i: int| 0 <= i < d.len() ==> #[trigger] d[i].0 == d2[i].0,
    ensures
        find_entry(d, name, n) == find_entry(d2, name, n),
    decreases n,
{
    if n > 0 {
        assert(d[n - 1].0 == d2[n - 1].0);
        lemma_find_same_keys(d, d2, name, (n - 1) as nat);
    }
}

/// Entries appended after the first `n` do not change what is found among them.
proof fn lemma_find_prefix(d: Seq<(Seq<char>, Seq<SWord>)>, d2: Seq<(Seq<char>, Seq<SWord>)>, name: Seq<char>, n: nat)
    requires
        n <= d.len() <= d2.len(),
        forall|i: int| 0 <= i < d.len() ==> #[trigger] d2[i] == d[i],
    ensures
        find_entry(d, name, n) == find_entry(d2, name, n),
    decreases n,
{
    if n > 0 {
        assert(d2[n - 1] == d[n - 1]);
        lemma_find_prefix(d, d2, name, (n - 1) as nat);
    }
}

/// A call from outside every definition reaches the newest definition of
/// the name.
pub proof fn newest_definition_wins(s: IState, name: Seq<char>)
    requires
        s.calls.len() == 0,
        gens(s, name).len() > 0,
    ensures
        resolve(s, name) == Some((gens(s, name).last(), (gens(s, name).len() - 1) as nat)),
{
}

/// Inside a running dictionary word of generation `g` named `name`, a call
/// of `name` reaches the generation before it: a redefinition can build
/// on the definition it replaces.
pub proof fn self_reference_sees_the_previous_definition(s: IState, name: Seq<char>, g: usize)
    requires
        s.calls.len() > 0,
        s.calls.last().self_ref == Some((name, g)),
        0 < g <= gens(s, name).len(),
    ensures
        resolve(s, name) == Some((gens(s, name)[g - 1], (g - 1) as nat)),
{
}

/// Loading a definition at top level makes it what its name reaches, as
/// the newest generation, stored at the end of the definition store.
pub proof fn loaded_definition_is_reached(s: IState, d: SpecDef)
    requires
        s.calls.len() == 0,
    ensures
        resolve(load_def(s, d), d.name) == Some((SWord::User(s.trees.len() as usize), gens(s, d.name).len())),
        load_def(s, d).trees == s.trees.push(d),
{
    let s1 = IState { trees: s.trees.push(d), ..s };
    lemma_register_same(s1, d.name, SWord::User(s.trees.len() as usize));
}

/// A top-level run never ends with the signals of 「終了」 or 「打ち切り」 as
/// errors: the first is a normal `Exit`, the second an error of its own.
pub proof fn top_level_runs_hide_signals(o: Outcome)
    ensures
        top_outcome(o) != TopOutcome::Failed(SErr::Exit),
        top_outcome(o) != TopOutcome::Failed(SErr::Break),
        o == Outcome::Failed(SErr::Exit) ==> top_outcome(o) == TopOutcome::Exit,
        o == Outcome::Failed(SErr::Break) ==> top_outcome(o) == TopOutcome::Failed(SErr::BreakOutsideLoop),
{
}

/// A definition at top level is stored and registered, not run: the stack,
/// the stores, the scopes, the running calls and the output stay as they
/// were.
pub proof fn definitions_are_not_run(s: IState, d: SpecDef, o: Oracle)
    ensures
        sem_item(s, SpecItem::Definition(d), o).1 == TopOutcome::Continue,
        sem_item(s, SpecItem::Definition(d), o).0.stack == s.stack,
        sem_item(s, SpecItem::Definition(d), o).0.arrays == s.arrays,
        sem_item(s, SpecItem::Definition(d), o).0.slots == s.slots,
        sem_item(s, SpecItem::Definition(d), o).0.scopes == s.scopes,
        sem_item(s, SpecItem::Definition(d), o).0.calls == s.calls,
        sem_item(s, SpecItem::Definition(d), o).0.output == s.output,
{
}

/// 「必要」 of a path it already loaded only pops the path.
pub proof fn require_loads_once(s: IState, p: Seq<char>, fuel: nat, o: Oracle)
    requires
        s.stack.len() > 0,
        s.stack.last() == SVal::Str(p),
        s.loaded.contains(strip_dot_slash(p)),
    ensures
        module_step(s, Builtin::Require, fuel, o) == (take(s).0, Outcome::Done),
{
}

/// 「表示」 pops one value and writes exactly one line, its rendering;
/// nothing else changes.
pub proof fn display_writes_one_line(s: IState)
    requires
        s.stack.len() > 0,
    ensures
        display_step(s).1 == Outcome::Done,
        display_step(s).0.output == s.output.push(render(take(s).0, s.stack.last(), value_depth(take(s).0))),
        display_step(s).0.stack == s.stack.drop_last(),
        display_step(s).0.arrays == s.arrays,
        display_step(s).0.slots == s.slots,
{
}

/// 「追加」 appends to the array in the store, in place: every copy of the
/// array value (they share its handle) sees the new element, and the
/// array value is pushed back.
pub proof fn append_is_shared(s: IState, h: nat, x: SVal)
    requires
        s.stack.len() >= 2,
        s.stack.last() == x,
        !(x is VarRef),
        s.stack[s.stack.len() - 2] == SVal::Array(h),
        h < s.arrays.len(),
    ensures
        append_step(s).1 == Outcome::Done,
        append_step(s).0.arrays == s.arrays.update(h as int, s.arrays[h as int].push(x)),
        append_step(s).0.stack == s.stack.drop_last().drop_last().push(SVal::Array(h)),
{
}

/// 「読む」 gives back what 「入れる」 stored: after storing `v` into a
/// variable, reading the variable pushes `v`.
pub proof fn load_gives_back_what_store_wrote(s: IState, v: SVal, slot: nat, name: Seq<char>)
    requires
        s.stack.len() >= 2,
        s.stack.last() == SVal::VarRef(slot, name),
        s.stack[s.stack.len() - 2] == v,
        !(v is VarRef),
        slot < s.slots.len(),
    ensures
        store_step(s).1 == Outcome::Done,
        load_step(push_val(store_step(s).0, SVal::VarRef(slot, name)))
            == (push_val(store_step(s).0, v), Outcome::Done),
{
    let s1 = store_step(s).0;
    assert(take(push_val(s1, SVal::VarRef(slot, name))).0.stack =~= s1.stack);
}

/// After a 「代入」 to a 「可変値」, naming it pushes the value assigned.
pub proof fn assignment_is_seen_by_the_next_read(s: IState, name: Seq<char>, slot: usize, v: SVal, fuel: nat, o: Oracle)
    requires
        char_literal(name) is None,
        name != counter_word() || s.counters.len() == 0,
        lookup(s, name) == Some(Binding::Val { slot, constant: false }),
        slot < s.slots.len(),
        s.stack.len() > 0,
        s.stack.last() == v,
        !(v is VarRef),
    ensures
        sem_expr(s, SpecExpr::Assign { name, value_expr: seq![] }, fuel + 1, o).1 == Outcome::Done,
        sem_dispatch(sem_expr(s, SpecExpr::Assign { name, value_expr: seq![] }, fuel + 1, o).0, name, fuel + 1, o)
            == (push_val(sem_expr(s, SpecExpr::Assign { name, value_expr: seq![] }, fuel + 1, o).0, v), Outcome::Done),
{
    assert(super::semantics::sem_exprs(s, seq![], fuel, o) == (s, Outcome::Done));
    let s1 = sem_expr(s, SpecExpr::Assign { name, value_expr: seq![] }, fuel + 1, o).0;
    assert(s1.scopes == s.scopes);
    assert(s1.slots[slot as int] == Some(v));
}

/// Every value other than an array handle that names no array equals
/// itself.
pub proof fn values_equal_is_reflexive(s: IState, v: SVal, depth: nat)
    requires
        v matches SVal::Array(h) ==> h < s.arrays.len(),
    ensures
        values_equal(s, v, v, depth),
{
}

/// 「等しい?」 does not depend on the order of its operands.
pub proof fn values_equal_is_symmetric(s: IState, a: SVal, b: SVal, depth: nat)
    ensures
        values_equal(s, a, b, depth) == values_equal(s, b, a, depth),
    decreases depth, 0nat,
{
    match (a, b) {
        (SVal::Array(h), SVal::Array(k)) => {
            if h < s.arrays.len() && k < s.arrays.len() && h != k && depth > 0
                && s.arrays[h as int].len() == s.arrays[k as int].len() {
                lemma_elems_equal_symmetric(s, s.arrays[h as int], s.arrays[k as int], s.arrays[h as int].len(), (depth - 1) as nat);
            }
        },
        _ => {},
    }
}

proof fn lemma_elems_equal_symmetric(s: IState, xs: Seq<SVal>, ys: Seq<SVal>, n: nat, depth: nat)
    ensures
        elems_equal(s, xs, ys, n, depth) == elems_equal(s, ys, xs, n, depth),
    decreases depth, n,
{
    if n > 0 && n <= xs.len() && n <= ys.len() {
        lemma_elems_equal_symmetric(s, xs, ys, (n - 1) as nat, depth);
        values_equal_is_symmetric(s, xs[n - 1], ys[n - 1], depth);
    }
}

/// A counted loop of zero or fewer rounds does nothing.
pub proof fn empty_counted_loop_does_nothing(s: IState, body: Seq<SpecExpr>, n: i64, fuel: nat, o: Oracle)
    requires
        n <= 0,
    ensures
        sem_counted(s, body, 0, n, fuel, o) == (s, Outcome::Done),
{
}

/// Naming a 「可変値」 or 「定数値」 pushes its value, not a reference to it.
pub proof fn value_binding_pushes_its_value(s: IState, name: Seq<char>, slot: usize, constant: bool, v: SVal, fuel: nat, o: Oracle)
    requires
        char_literal(name) is None,
        name != counter_word() || s.counters.len() == 0,
        lookup(s, name) == Some(Binding::Val { slot, constant }),
        slot < s.slots.len(),
        s.slots[slot as int] == Some(v),
    ensures
        sem_dispatch(s, name, fuel + 1, o) == (push_val(s, v), Outcome::Done),
{
}

/// A 「代入」 to a 「定数値」 fails with `AssignToConstant`, leaving the value
/// on the stack.
pub proof fn constants_cannot_be_assigned(s: IState, name: Seq<char>, slot: usize, fuel: nat, o: Oracle)
    requires
        lookup(s, name) == Some(Binding::Val { slot, constant: true }),
    ensures
        sem_expr(s, SpecExpr::Assign { name, value_expr: seq![] }, fuel + 1, o)
            == (s, Outcome::Failed(SErr::AssignToConstant(name))),
{
    assert(super::semantics::sem_exprs(s, seq![], fuel, o) == (s, Outcome::Done));
}

/// 「再帰」 runs again the definition being run (a local word itself, not
/// its parent), with the same local words and generation bound.
pub proof fn recurse_calls_the_running_definition(s: IState, fuel: nat, o: Oracle)
    requires
        s.calls.len() > 0,
    ensures
        sem_expr(s, SpecExpr::SelfRecurse, fuel + 1, o) == sem_call(
            s,
            s.calls.last().name,
            s.calls.last().def,
            s.calls.last().locals,
            s.calls.last().self_ref,
            fuel,
            o,
        ),
{
}

/// Inside counted loops, 「回数」 is the round of the innermost one.
pub proof fn counter_is_the_innermost_round(s: IState, fuel: nat, o: Oracle)
    requires
        s.counters.len() > 0,
    ensures
        sem_dispatch(s, counter_word(), fuel + 1, o) == (push_val(s, SVal::Number(s.counters.last())), Outcome::Done),
{
    assert(char_literal(counter_word()) is None) by {
        reveal_strlit("回数");
        assert(counter_word().len() == 2);
    }
}

/// A call of an alias is a call of the word it names, when nothing closer
/// (a variable, a local word) has the alias's name.
pub proof fn alias_calls_its_target(s: IState, name: Seq<char>, target: Seq<char>, g: nat, fuel: nat, o: Oracle)
    requires
        char_literal(name) is None,
        name != counter_word() || s.counters.len() == 0,
        lookup(s, name) is None,
        current_local(s, name) is None,
        resolve(s, name) == Some((SWord::Alias(target), g)),
    ensures
        sem_dispatch(s, name, fuel + 1, o) == sem_dispatch(s, target, fuel, o),
{
}

/// The parts of the state that evaluation must give back as it found
/// them: the running calls, the trace, the loop counters and the number of
/// scope frames.
pub open spec fn same_frames(a: IState, b: IState) -> bool {
    b.calls == a.calls && b.trace == a.trace && b.counters == a.counters && b.scopes.len() == a.scopes.len()
}

/// Every closure leaves the running calls, the trace, the loop counters
/// and the number of scope frames as they were when it was handed the
/// interpreter.
pub open spec fn closures_keep_frames(o: Oracle) -> bool {
    forall|k: nat, h: IState| #[trigger] o(k, h) is Native ==> same_frames(h, o(k, h)->left)
}

/// A builtin word changes neither the running calls, the trace, the loop
/// counters nor the scopes.
pub proof fn builtins_keep_frames(s: IState, b: Builtin)
    ensures
        builtin_step(s, b).0.calls == s.calls,
        builtin_step(s, b).0.trace == s.trace,
        builtin_step(s, b).0.counters == s.counters,
        builtin_step(s, b).0.scopes == s.scopes,
{
}

/// Evaluating a sequence of expressions, whatever it ends with, leaves the
/// running calls, the trace, the loop counters and the number of scope
/// frames as it found them: every call leaves its frame, every loop its
/// counter.  This holds when every closure that runs leaves them as it was
/// handed them; modules read on the way run in the same state and keep
/// them too.
pub proof fn evaluation_keeps_frames(s: IState, es: Seq<SpecExpr>, fuel: nat, o: Oracle)
    requires
        closures_keep_frames(o),
        s.scopes.len() > 0,
    ensures
        !(sem_exprs(s, es, fuel, o).1 is Unknown) ==> same_frames(s, sem_exprs(s, es, fuel, o).0),
    decreases fuel, 0nat, es.len(),
{
    if es.len() > 0 {
        let (s1, out) = sem_expr(s, es[0], fuel, o);
        lemma_expr_frames(s, es[0], fuel, o);
        if out is Done {
            evaluation_keeps_frames(s1, es.drop_first(), fuel, o);
        }
    }
}

proof fn lemma_expr_frames(s: IState, e: SpecExpr, fuel: nat, o: Oracle)
    requires
        closures_keep_frames(o),
        s.scopes.len() > 0,
    ensures
        !(sem_expr(s, e, fuel, o).1 is Unknown) ==> same_frames(s, sem_expr(s, e, fuel, o).0),
    decreases fuel, 0nat, 0nat,
{
    if fuel > 0 {
        let f = (fuel - 1) as nat;
        match e {
            SpecExpr::WordCall(name) => {
                lemma_dispatch_frames(s, name, f, o);
            },
            SpecExpr::SelfRecurse => {
                if s.calls.len() > 0 {
                    let c = s.calls.last();
                    lemma_call_frames(s, c.name, c.def, c.locals, c.self_ref, f, o);
                }
            },
            SpecExpr::IfElse { cond, then_branch, else_branch } => {
                evaluation_keeps_frames(s, cond, f, o);
                let (s1, o1) = sem_exprs(s, cond, f, o);
                if o1 is Done {
                    let (s2, r) = take(s1);
                    evaluation_keeps_frames(s2, then_branch, f, o);
                    match else_branch {
                        Some(b) => {
                            evaluation_keeps_frames(s2, b, f, o);
                        },
                        None => {},
                    }
                }
            },
            SpecExpr::InfiniteLoop { body } => {
                lemma_loop_frames(s, body, f, o);
            },
            SpecExpr::CountedLoop { body } => {
                let (s1, r) = take_number(s);
                match r {
                    Ok(n) => {
                        lemma_counted_frames(s1, body, 0, n, f, o);
                    },
                    Err(_) => {},
                }
            },
            SpecExpr::ValueDecl { name, is_constant, init_expr } => {
                evaluation_keeps_frames(s, init_expr, f, o);
            },
            SpecExpr::Assign { name, value_expr } => {
                evaluation_keeps_frames(s, value_expr, f, o);
            },
            _ => {},
        }
    }
}

proof fn lemma_dispatch_frames(s: IState, name: Seq<char>, fuel: nat, o: Oracle)
    requires
        closures_keep_frames(o),
        s.scopes.len() > 0,
    ensures
        !(sem_dispatch(s, name, fuel, o).1 is Unknown) ==> same_frames(s, sem_dispatch(s, name, fuel, o).0),
    decreases fuel, 0nat, 0nat,
{
    if fuel > 0 {
        let f = (fuel - 1) as nat;
        match current_local(s, name) {
            Some((t, j)) => {
                lemma_call_frames(s, name, DefRef::Local(t, j as usize), Some(t), None, f, o);
            },
            None => {},
        }
        match resolve(s, name) {
            Some((SWord::User(t), g)) => {
                lemma_call_frames(s, name, DefRef::Top(t), Some(t), Some((name, g as usize)), f, o);
            },
            Some((SWord::Alias(target), _)) => {
                lemma_dispatch_frames(s, target, f, o);
            },
            Some((SWord::Builtin(b), _)) => {
                let s1 = IState { trace: s.trace.push(name), ..s };
                builtins_keep_frames(s1, b);
                assert(shrink(s.trace.push(name)) =~= s.trace);
                if b == Builtin::Include || b == Builtin::Require {
                    lemma_module_step_frames(s1, b, f, o);
                } else {
                    assert(same_frames(s1, builtin_step(s1, b).0));
                }
            },
            Some((SWord::Native(id), _)) => {
                let h = IState { trace: s.trace.push(name), ..s };
                assert(shrink(s.trace.push(name)) =~= s.trace);
                if o(s.outside.len(), h) is Native {
                    assert(same_frames(h, o(s.outside.len(), h)->left));
                }
                let m = super::semantics::native_step(s, name, id as nat, o);
                assert(!(m.1 is Unknown) ==> same_frames(s, m.0));
            },
            _ => {},
        }
    }
}

/// A call of a definition leaves the running calls, the trace, the loop
/// counters and the number of scope frames as it found them, whatever its
/// body ended with, when every closure that runs leaves them as it was
/// handed them.
pub proof fn calls_restore_frames(s: IState, name: Seq<char>, r: DefRef, locals: Option<usize>, self_ref: Option<(Seq<char>, usize)>, fuel: nat, o: Oracle)
    requires
        closures_keep_frames(o),
        s.scopes.len() > 0,
    ensures
        !(sem_call(s, name, r, locals, self_ref, fuel, o).1 is Unknown) ==> same_frames(s, sem_call(s, name, r, locals, self_ref, fuel, o).0),
{
    lemma_call_frames(s, name, r, locals, self_ref, fuel, o);
}

proof fn lemma_call_frames(s: IState, name: Seq<char>, r: DefRef, locals: Option<usize>, self_ref: Option<(Seq<char>, usize)>, fuel: nat, o: Oracle)
    requires
        closures_keep_frames(o),
        s.scopes.len() > 0,
    ensures
        !(sem_call(s, name, r, locals, self_ref, fuel, o).1 is Unknown) ==> same_frames(s, sem_call(s, name, r, locals, self_ref, fuel, o).0),
    decreases fuel, 0nat, 0nat,
{
    if fuel > 0 {
        match def_of(s, r) {
            Some(d) => {
                let s1 = enter(s, name, r, d, locals, self_ref);
                evaluation_keeps_frames(s1, d.body, (fuel - 1) as nat, o);
                let s2 = sem_exprs(s1, d.body, (fuel - 1) as nat, o).0;
                if !(sem_exprs(s1, d.body, (fuel - 1) as nat, o).1 is Unknown) {
                    assert(leave(s2).calls =~= s.calls);
                    assert(leave(s2).trace =~= s.trace);
                }
            },
            None => {},
        }
    }
}

proof fn lemma_loop_frames(s: IState, body: Seq<SpecExpr>, fuel: nat, o: Oracle)
    requires
        closures_keep_frames(o),
        s.scopes.len() > 0,
    ensures
        !(sem_loop(s, body, fuel, o).1 is Unknown) ==> same_frames(s, sem_loop(s, body, fuel, o).0),
    decreases fuel, 0nat, 0nat,
{
    if fuel > 0 {
        evaluation_keeps_frames(s, body, (fuel - 1) as nat, o);
        let (s1, out) = sem_exprs(s, body, (fuel - 1) as nat, o);
        if out is Done {
            lemma_loop_frames(s1, body, (fuel - 1) as nat, o);
        }
    }
}

proof fn lemma_counted_frames(s: IState, body: Seq<SpecExpr>, i: i64, n: i64, fuel: nat, o: Oracle)
    requires
        closures_keep_frames(o),
        s.scopes.len() > 0,
    ensures
        !(sem_counted(s, body, i, n, fuel, o).1 is Unknown) ==> same_frames(s, sem_counted(s, body, i, n, fuel, o).0),
    decreases fuel, 0nat, (if i < n { (n - i) as nat } else { 0nat }),
{
    if i < n && fuel > 0 {
        let s0 = IState { counters: s.counters.push(i), ..s };
        evaluation_keeps_frames(s0, body, (fuel - 1) as nat, o);
        let (s1, out) = sem_exprs(s0, body, (fuel - 1) as nat, o);
        if !(out is Unknown) {
            assert(pop_counter(s1).counters =~= s.counters);
        }
        if out is Done {
            lemma_counted_frames(pop_counter(s1), body, (i + 1) as i64, n, fuel, o);
        }
    }
}

proof fn lemma_module_step_frames(s: IState, b: Builtin, fuel: nat, o: Oracle)
    requires
        closures_keep_frames(o),
        s.scopes.len() > 0,
    ensures
        !(module_step(s, b, fuel, o).1 is Unknown) ==> same_frames(s, module_step(s, b, fuel, o).0),
    decreases fuel, 2nat, 0nat,
{
    let (s1, rv) = take(s);
    if let Ok(SVal::Str(p)) = rv {
        let path = if b == Builtin::Require { strip_dot_slash(p) } else { p };
        if !(b == Builtin::Require && s1.loaded.contains(path)) && s1.has_reader {
            let reply = o(s1.outside.len(), s1);
            if let Reply::Module { text } = reply {
                let s2 = super::semantics::asked(s1, super::Ask::Module { path }, s1, reply);
                lemma_module_reply_frames(s2, b, path, text, fuel, o);
            }
        }
    }
}

proof fn lemma_module_reply_frames(s: IState, b: Builtin, path: Seq<char>, reply: Result<Seq<char>, Seq<char>>, fuel: nat, o: Oracle)
    requires
        closures_keep_frames(o),
        s.scopes.len() > 0,
    ensures
        !(sem_module_reply(s, b, path, reply, fuel, o).1 is Unknown)
            ==> same_frames(s, sem_module_reply(s, b, path, reply, fuel, o).0),
    decreases fuel, 1nat, 0nat,
{
    if let Ok(text) = reply {
        let s1 = if b == Builtin::Require { IState { loaded: s.loaded.push(path), ..s } } else { s };
        if fuel > 0 {
            lemma_module_text_frames(s1, text, (fuel - 1) as nat, o);
        }
    }
}

proof fn lemma_module_text_frames(s: IState, src: Seq<char>, fuel: nat, o: Oracle)
    requires
        closures_keep_frames(o),
        s.scopes.len() > 0,
    ensures
        !(sem_module_text(s, src, fuel, o).1 is Unknown) ==> same_frames(s, sem_module_text(s, src, fuel, o).0),
    decreases fuel, 3nat, 0nat,
{
    if src.len() < usize::MAX {
        if let Ok(t) = spec_tokenize(src) {
            if t.len() <= isize::MAX && fuel > 0 {
                lemma_run_items_frames(s, t, 0, (fuel - 1) as nat, o);
            }
        }
    }
}

proof fn lemma_run_items_frames(s: IState, t: Seq<SpecToken>, pos: int, fuel: nat, o: Oracle)
    requires
        closures_keep_frames(o),
        s.scopes.len() > 0,
    ensures
        !(sem_run_items_with(s, t, pos, fuel, o).1 is Unknown) ==> same_frames(s, sem_run_items_with(s, t, pos, fuel, o).0),
    decreases fuel, 2nat, t.len() - pos,
{
    if 0 <= pos < t.len() {
        if let Ok((item, p2)) = top_level_item(t, pos) {
            lemma_item_frames(s, item, fuel, o);
            let (s1, out) = sem_item_with(s, item, fuel, o);
            if out is Continue && pos < p2 <= t.len() {
                lemma_run_items_frames(s1, t, p2, fuel, o);
            }
        }
    }
}

proof fn lemma_item_frames(s: IState, item: SpecItem, fuel: nat, o: Oracle)
    requires
        closures_keep_frames(o),
        s.scopes.len() > 0,
    ensures
        !(sem_item_with(s, item, fuel, o).1 is Unknown) ==> same_frames(s, sem_item_with(s, item, fuel, o).0),
        sem_item_with(s, item, fuel, o).0.scopes.len() > 0 || sem_item_with(s, item, fuel, o).1 is Unknown,
    decreases fuel, 1nat, 0nat,
{
    match item {
        SpecItem::Definition(d) => {
            let s1 = IState { trees: s.trees.push(d), ..s };
            assert(register(s1, d.name, SWord::User(s.trees.len() as usize)).scopes == s.scopes);
        },
        SpecItem::Expr(es) => {
            evaluation_keeps_frames(super::semantics::fresh_run(s), es, fuel, o);
        },
    }
}

/// 「小?」 compares the two numbers on top of the stack, the deeper one
/// `a` against the top one `b`: both are popped and `真` is pushed exactly
/// when `a < b` as integers.  So no number is less than itself, and `a b
/// 小?` is `b a 大?`.
pub proof fn less_is_strictly_less(s: IState, a: i64, b: i64)
    requires
        s.stack.len() >= 2,
        s.stack[s.stack.len() - 2] == SVal::Number(a),
        s.stack[s.stack.len() - 1] == SVal::Number(b),
    ensures
        builtin_step(s, Builtin::Less).1 == Outcome::Done,
        builtin_step(s, Builtin::Less).0.stack
            == s.stack.subrange(0, s.stack.len() - 2).push(SVal::Bool((a as int) < (b as int))),
        a == b ==> builtin_step(s, Builtin::Less).0.stack.last() == SVal::Bool(false),
        builtin_step(s, Builtin::Less).0.stack.last()
            == builtin_step(super::semantics::with_stack(s, s.stack.subrange(0, s.stack.len() - 2).push(SVal::Number(b)).push(SVal::Number(a))), Builtin::Greater).0.stack.last(),
{
    let t = s.stack.subrange(0, s.stack.len() - 2);
    assert(s.stack.drop_last().drop_last() =~= t);
    assert(s.stack.drop_last().last() == SVal::Number(a));
    let s2 = super::semantics::with_stack(s, t.push(SVal::Number(b)).push(SVal::Number(a)));
    assert(s2.stack.drop_last().drop_last() =~= t);
    assert(s2.stack.drop_last().last() == SVal::Number(b));
}

/// 「打ち切り」 in a round of a counted loop ends the whole loop normally:
/// the state is the one that round left (its counter removed), and no
/// later round runs, so the loop does what the same loop limited to the
/// rounds up to that one does.
pub proof fn break_ends_counted_loop(s: IState, body: Seq<SpecExpr>, i: i64, n: i64, fuel: nat, o: Oracle)
    requires
        i < n,
        fuel > 0,
        sem_exprs(IState { counters: s.counters.push(i), ..s }, body, (fuel - 1) as nat, o).1 == Outcome::Failed(SErr::Break),
    ensures
        sem_counted(s, body, i, n, fuel, o)
            == (pop_counter(sem_exprs(IState { counters: s.counters.push(i), ..s }, body, (fuel - 1) as nat, o).0), Outcome::Done),
        i < i64::MAX ==> sem_counted(s, body, i, n, fuel, o) == sem_counted(s, body, i, (i + 1) as i64, fuel, o),
{
}

} // verus!
