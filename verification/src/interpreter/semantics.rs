//! The meaning of running a program, as spec functions over the model
//! [`IState`].
//!
//! Evaluation carries a step budget (`fuel`): each evaluation step spends
//! one unit, and running out is the error `StepLimitExceeded`.  The
//! interpreter starts each top-level run with the budget `u64::MAX`.
//! Where the embedding program decides what happens (a closure it
//! registered, or its module reader), the model takes the answer from an
//! oracle: the `k`-th question asked of the embedding program is answered
//! by `o(k)`.  Every question is recorded with its answer in the state, so
//! a run is the model's for any oracle that gives the recorded answers.
//! (`Unknown` stands for an oracle that answers a question of the other
//! kind.)
use vstd::prelude::*;
use crate::parser::{SpecDef, SpecExpr, SpecItem};
use crate::text::int_digits;
use super::{Binding, Builtin, DefRef, IState, Oracle, SCall, SWord};
use super::error::{SErr, join};
use super::value::{SVal, spec_type_label};

verus! {

/// How a step of evaluation ends.
pub enum Outcome {
    /// Normally.
    Done,
    /// With an error (or the `Exit`/`Break` signals).
    Failed(SErr),
    /// The oracle answered a question of the other kind.
    Unknown,
}

/// The budget of a top-level run.
pub open spec fn full_fuel() -> nat {
    u64::MAX as nat
}

pub open spec fn fails(s: IState, e: SErr) -> (IState, Outcome) {
    (s, Outcome::Failed(e))
}

pub open spec fn done(s: IState) -> (IState, Outcome) {
    (s, Outcome::Done)
}

// ---------------------------------------------------------------- stack

pub open spec fn with_stack(s: IState, st: Seq<SVal>) -> IState {
    IState { stack: st, ..s }
}

pub open spec fn push_val(s: IState, v: SVal) -> IState {
    with_stack(s, s.stack.push(v))
}

/// Pops the top of the stack.
pub open spec fn take(s: IState) -> (IState, Result<SVal, SErr>) {
    if s.stack.len() == 0 {
        (s, Err(SErr::StackUnderflow))
    } else {
        (with_stack(s, s.stack.drop_last()), Ok(s.stack.last()))
    }
}

pub open spec fn mismatch(expected: Seq<char>, v: SVal) -> SErr {
    SErr::TypeMismatch { expected, found: spec_type_label(v) }
}

/// Pops a number.
pub open spec fn take_number(s: IState) -> (IState, Result<i64, SErr>) {
    let (s1, r) = take(s);
    match r {
        Err(e) => (s1, Err(e)),
        Ok(SVal::Number(n)) => (s1, Ok(n)),
        Ok(v) => (s1, Err(mismatch("数"@, v))),
    }
}

/// Pops a truth value.
pub open spec fn take_bool(s: IState) -> (IState, Result<bool, SErr>) {
    let (s1, r) = take(s);
    match r {
        Err(e) => (s1, Err(e)),
        Ok(SVal::Bool(b)) => (s1, Ok(b)),
        Ok(v) => (s1, Err(mismatch("真偽値"@, v))),
    }
}

/// Pops an array handle.
pub open spec fn take_array(s: IState) -> (IState, Result<nat, SErr>) {
    let (s1, r) = take(s);
    match r {
        Err(e) => (s1, Err(e)),
        Ok(SVal::Array(h)) => (s1, Ok(h)),
        Ok(v) => (s1, Err(mismatch("配列"@, v))),
    }
}

/// The error for a variable reference where a value is needed.
pub open spec fn not_concrete(name: Seq<char>) -> SErr {
    SErr::TypeMismatch { expected: "具体的な値"@, found: "変数参照「"@ + name + "」"@ }
}

/// Pops a value that is not a variable reference.
pub open spec fn take_concrete(s: IState) -> (IState, Result<SVal, SErr>) {
    let (s1, r) = take(s);
    match r {
        Err(e) => (s1, Err(e)),
        Ok(SVal::VarRef(_, name)) => (s1, Err(not_concrete(name))),
        Ok(v) => (s1, Ok(v)),
    }
}

/// The error for an array handle that names no array.
pub open spec fn bad_array() -> SErr {
    SErr::TypeMismatch { expected: "配列"@, found: "無効な配列"@ }
}

// ---------------------------------------------------------------- stores

/// Stores `v` into variable slot `slot` (nothing when there is no such slot).
pub open spec fn store(s: IState, slot: nat, v: SVal) -> IState {
    if slot < s.slots.len() {
        IState { slots: s.slots.update(slot as int, Some(v)), ..s }
    } else {
        s
    }
}

/// A new slot holding `init`, at the end of the store.
pub open spec fn alloc_slot(s: IState, init: Option<SVal>) -> IState {
    IState { slots: s.slots.push(init), ..s }
}

/// Binds `name` in the innermost frame (a new frame when there is none).
pub open spec fn declare(s: IState, name: Seq<char>, b: Binding) -> IState {
    if s.scopes.len() == 0 {
        IState { scopes: seq![seq![(name, b)]], ..s }
    } else {
        IState { scopes: s.scopes.update(s.scopes.len() - 1, s.scopes.last().push((name, b))), ..s }
    }
}

/// The last binding of `name` among the first `n` entries of a frame.
pub open spec fn find_binding(f: Seq<(Seq<char>, Binding)>, name: Seq<char>, n: nat) -> Option<Binding>
    decreases n,
{
    if n == 0 || n > f.len() {
        None
    } else if f[n - 1].0 == name {
        Some(f[n - 1].1)
    } else {
        find_binding(f, name, (n - 1) as nat)
    }
}

/// The binding of `name` in the first `n` frames, innermost first.
pub open spec fn lookup_in(scopes: Seq<Seq<(Seq<char>, Binding)>>, name: Seq<char>, n: nat) -> Option<Binding>
    decreases n,
{
    if n == 0 || n > scopes.len() {
        None
    } else {
        match find_binding(scopes[n - 1], name, scopes[n - 1].len()) {
            Some(b) => Some(b),
            None => lookup_in(scopes, name, (n - 1) as nat),
        }
    }
}

/// The binding a name has where evaluation stands.
pub open spec fn lookup(s: IState, name: Seq<char>) -> Option<Binding> {
    lookup_in(s.scopes, name, s.scopes.len())
}

// ---------------------------------------------------------------- dictionary

/// The index of the last dictionary entry for `name` among the first `n`.
pub open spec fn find_entry(d: Seq<(Seq<char>, Seq<SWord>)>, name: Seq<char>, n: nat) -> Option<nat>
    decreases n,
{
    if n == 0 || n > d.len() {
        None
    } else if d[n - 1].0 == name {
        Some((n - 1) as nat)
    } else {
        find_entry(d, name, (n - 1) as nat)
    }
}

/// Every definition given to `name`, oldest first.
pub open spec fn gens(s: IState, name: Seq<char>) -> Seq<SWord> {
    match find_entry(s.dict, name, s.dict.len()) {
        Some(i) => s.dict[i as int].1,
        None => seq![],
    }
}

/// Adds definition `w` to `name` as its newest generation.
pub open spec fn register(s: IState, name: Seq<char>, w: SWord) -> IState {
    match find_entry(s.dict, name, s.dict.len()) {
        Some(i) => IState { dict: s.dict.update(i as int, (name, s.dict[i as int].1.push(w))), ..s },
        None => IState { dict: s.dict.push((name, seq![w])), ..s },
    }
}

/// Stores a top-level definition and registers it under its name.
pub open spec fn load_def(s: IState, d: SpecDef) -> IState {
    register(IState { trees: s.trees.push(d), ..s }, d.name, SWord::User(s.trees.len() as usize))
}

/// How many generations of `name` a call of `name` may see: all of them,
/// except inside a dictionary word of that name, which sees only the
/// generations older than itself.
pub open spec fn cutoff(s: IState, name: Seq<char>) -> nat {
    if s.calls.len() > 0 {
        match s.calls.last().self_ref {
            Some((n, g)) => if n == name { g as nat } else { gens(s, name).len() },
            None => gens(s, name).len(),
        }
    } else {
        gens(s, name).len()
    }
}

/// The definition a call of `name` reaches in the dictionary, with its
/// generation.
pub open spec fn resolve(s: IState, name: Seq<char>) -> Option<(SWord, nat)> {
    let c = cutoff(s, name);
    if 0 < c <= gens(s, name).len() {
        Some((gens(s, name)[c - 1], (c - 1) as nat))
    } else {
        None
    }
}

// ---------------------------------------------------------------- definitions

/// The index of the last definition named `name` among the first `n`.
pub open spec fn find_local(ds: Seq<SpecDef>, name: Seq<char>, n: nat) -> Option<nat>
    decreases n,
{
    if n == 0 || n > ds.len() {
        None
    } else if ds[n - 1].name == name {
        Some((n - 1) as nat)
    } else {
        find_local(ds, name, (n - 1) as nat)
    }
}

/// The local word `name` callable where evaluation stands.
pub open spec fn current_local(s: IState, name: Seq<char>) -> Option<(usize, nat)> {
    if s.calls.len() > 0 {
        match s.calls.last().locals {
            Some(t) => if t < s.trees.len() {
                match find_local(s.trees[t as int].locals, name, s.trees[t as int].locals.len()) {
                    Some(j) => Some((t, j)),
                    None => None,
                }
            } else {
                None
            },
            None => None,
        }
    } else {
        None
    }
}

/// The definition a call runs.
pub open spec fn def_of(s: IState, r: DefRef) -> Option<SpecDef> {
    match r {
        DefRef::Top(t) => if t < s.trees.len() { Some(s.trees[t as int]) } else { None },
        DefRef::Local(t, j) => if t < s.trees.len() && j < s.trees[t as int].locals.len() {
            Some(s.trees[t as int].locals[j as int])
        } else {
            None
        },
    }
}

/// The frame of a call of `d`: each of its variables bound to a new slot,
/// the first one at `base`.
pub open spec fn new_frame(vars: Seq<Seq<char>>, base: nat) -> Seq<(Seq<char>, Binding)> {
    Seq::new(vars.len(), |k: int| (vars[k], Binding::Var((base + k) as usize)))
}

/// Entering a call of `d`.
pub open spec fn enter(s: IState, name: Seq<char>, r: DefRef, d: SpecDef, locals: Option<usize>, self_ref: Option<(Seq<char>, usize)>) -> IState {
    IState {
        slots: s.slots + Seq::new(d.variables.len(), |k: int| None::<SVal>),
        scopes: s.scopes.push(new_frame(d.variables, s.slots.len())),
        trace: s.trace.push(name),
        calls: s.calls.push(SCall { name, def: r, locals, self_ref }),
        ..s
    }
}

pub open spec fn shrink<A>(q: Seq<A>) -> Seq<A> {
    if q.len() > 0 { q.drop_last() } else { q }
}

/// Before a running word is left with an error, the words running are
/// kept, unless an inner word already kept them.  「打ち切り」 is no error:
/// the loop that catches it goes on.
pub open spec fn note_failure(s: IState, o: Outcome) -> IState {
    match o {
        Outcome::Failed(e) => if e != SErr::Break && s.failed_in is None {
            IState { failed_in: Some(s.trace), ..s }
        } else {
            s
        },
        _ => s,
    }
}

/// Forgets the words kept from an earlier error, at the start of a run.
pub open spec fn fresh_run(s: IState) -> IState {
    IState { failed_in: None, ..s }
}

/// The words running when the error being reported arose: those kept when
/// it left them, else those running now.
pub open spec fn failure_trace(s: IState) -> Seq<Seq<char>> {
    match s.failed_in {
        Some(t) => t,
        None => s.trace,
    }
}

/// Leaving a call.
pub open spec fn leave(s: IState) -> IState {
    IState { calls: shrink(s.calls), trace: shrink(s.trace), scopes: shrink(s.scopes), ..s }
}

// ---------------------------------------------------------------- rendering

/// The text 「表示」 shows for a value.  Arrays nested deeper than `depth`
/// show as `[…]`.
pub open spec fn render(s: IState, v: SVal, depth: nat) -> Seq<char>
    decreases depth, 0nat,
{
    match v {
        SVal::Number(n) => int_digits(n as int),
        SVal::Bool(b) => if b { "真"@ } else { "偽"@ },
        SVal::Str(t) => t,
        SVal::Array(h) => if h < s.arrays.len() && depth > 0 {
            "["@ + join(render_all(s, s.arrays[h as int], (depth - 1) as nat), ", "@) + "]"@
        } else {
            "[…]"@
        },
        SVal::VarRef(slot, name) => "変数「"@ + name + "」"@ + if slot < s.slots.len() {
            match s.slots[slot as int] {
                Some(x) => if depth > 0 { "（値: "@ + render(s, x, (depth - 1) as nat) + "）"@ } else { "（値: …）"@ },
                None => "（未代入）"@,
            }
        } else {
            "（未代入）"@
        },
    }
}

pub open spec fn render_all(s: IState, xs: Seq<SVal>, depth: nat) -> Seq<Seq<char>>
    decreases depth, 1nat,
{
    Seq::new(xs.len(), |i: int| render(s, xs[i], depth))
}

/// The depth to which values are rendered and compared: one more than the
/// number of arrays (when that fits a `usize`), enough for every array of
/// the store when arrays do not contain themselves.
pub open spec fn value_depth(s: IState) -> nat {
    if s.arrays.len() < usize::MAX { s.arrays.len() + 1 } else { s.arrays.len() }
}

/// Whether two values are equal: numbers, truth values and strings by
/// value, arrays element by element (to `depth` levels).
pub open spec fn values_equal(s: IState, a: SVal, b: SVal, depth: nat) -> bool
    decreases depth, 0nat,
{
    match (a, b) {
        (SVal::Number(x), SVal::Number(y)) => x == y,
        (SVal::Bool(x), SVal::Bool(y)) => x == y,
        (SVal::Str(x), SVal::Str(y)) => x == y,
        (SVal::Array(h), SVal::Array(k)) => h < s.arrays.len() && k < s.arrays.len() && (h == k || (depth > 0
            && s.arrays[h as int].len() == s.arrays[k as int].len()
            && elems_equal(s, s.arrays[h as int], s.arrays[k as int], s.arrays[h as int].len(), (depth - 1) as nat))),
        (SVal::VarRef(p, n), SVal::VarRef(q, m)) => p == q && n == m,
        _ => false,
    }
}

/// Whether the first `n` elements of `xs` and `ys` are pairwise equal.
pub open spec fn elems_equal(s: IState, xs: Seq<SVal>, ys: Seq<SVal>, n: nat, depth: nat) -> bool
    decreases depth, n,
{
    if n == 0 {
        true
    } else if n > xs.len() || n > ys.len() {
        false
    } else {
        elems_equal(s, xs, ys, (n - 1) as nat, depth) && values_equal(s, xs[n - 1], ys[n - 1], depth)
    }
}

pub proof fn lemma_elems_equal_prefix(s: IState, xs: Seq<SVal>, ys: Seq<SVal>, m: nat, n: nat, depth: nat)
    requires
        m <= n,
        elems_equal(s, xs, ys, n, depth),
    ensures
        elems_equal(s, xs, ys, m, depth),
    decreases n,
{
    if m < n {
        lemma_elems_equal_prefix(s, xs, ys, m, (n - 1) as nat, depth);
    }
}

// ---------------------------------------------------------------- builtins

pub open spec fn int_div(a: i64, b: i64) -> i64 {
    match a.checked_div(b) {
        Some(q) => q,
        None => i64::MIN,
    }
}

pub open spec fn int_rem(a: i64, b: i64) -> i64 {
    match a.checked_rem(b) {
        Some(r) => r,
        None => 0,
    }
}

/// A word on two numbers.
pub open spec fn numeric(s: IState, f: spec_fn(i64, i64) -> Result<SVal, SErr>) -> (IState, Outcome) {
    let (s1, rb) = take_number(s);
    match rb {
        Err(e) => fails(s1, e),
        Ok(b) => {
            let (s2, ra) = take_number(s1);
            match ra {
                Err(e) => fails(s2, e),
                Ok(a) => match f(a, b) {
                    Ok(v) => done(push_val(s2, v)),
                    Err(e) => fails(s2, e),
                },
            }
        },
    }
}

/// A word on two truth values.
pub open spec fn logical(s: IState, f: spec_fn(bool, bool) -> bool) -> (IState, Outcome) {
    let (s1, rb) = take_bool(s);
    match rb {
        Err(e) => fails(s1, e),
        Ok(b) => {
            let (s2, ra) = take_bool(s1);
            match ra {
                Err(e) => fails(s2, e),
                Ok(a) => done(push_val(s2, SVal::Bool(f(a, b)))),
            }
        },
    }
}

/// 「越え」, 「交換」, 「回転」, 「複製」, 「捨」.
pub open spec fn shuffle_step(s: IState, b: Builtin) -> (IState, Outcome) {
    let (s1, r1) = take(s);
    match r1 {
        Err(e) => fails(s1, e),
        Ok(x) => match b {
            Builtin::Dup => done(push_val(push_val(s1, x), x)),
            Builtin::Drop => done(s1),
            _ => {
                let (s2, r2) = take(s1);
                match r2 {
                    Err(e) => fails(s2, e),
                    Ok(y) => match b {
                        Builtin::Over => done(push_val(push_val(push_val(s2, y), x), y)),
                        Builtin::Swap => done(push_val(push_val(s2, x), y)),
                        _ => {
                            let (s3, r3) = take(s2);
                            match r3 {
                                Err(e) => fails(s3, e),
                                Ok(z) => done(push_val(push_val(push_val(s3, y), x), z)),
                            }
                        },
                    },
                }
            },
        },
    }
}

/// 「番目」.
pub open spec fn index_step(s: IState) -> (IState, Outcome) {
    let (s1, ri) = take_number(s);
    match ri {
        Err(e) => fails(s1, e),
        Ok(i) => {
            let (s2, ra) = take_array(s1);
            match ra {
                Err(e) => fails(s2, e),
                Ok(h) => if h >= s2.arrays.len() {
                    fails(s2, bad_array())
                } else if i < 0 || i >= s2.arrays[h as int].len() {
                    fails(s2, SErr::IndexOutOfBounds { index: i, length: s2.arrays[h as int].len() })
                } else {
                    done(push_val(s2, s2.arrays[h as int][i as int]))
                },
            }
        },
    }
}

/// 「入れる」.
pub open spec fn store_step(s: IState) -> (IState, Outcome) {
    let (s1, rv) = take(s);
    match rv {
        Err(e) => fails(s1, e),
        Ok(SVal::VarRef(slot, _)) => {
            let (s2, rx) = take_concrete(s1);
            match rx {
                Err(e) => fails(s2, e),
                Ok(x) => done(store(s2, slot, x)),
            }
        },
        Ok(v) => fails(s1, mismatch("変数"@, v)),
    }
}

/// 「読む」.
pub open spec fn load_step(s: IState) -> (IState, Outcome) {
    let (s1, rv) = take(s);
    match rv {
        Err(e) => fails(s1, e),
        Ok(SVal::VarRef(slot, name)) => if slot < s1.slots.len() {
            match s1.slots[slot as int] {
                Some(x) => done(push_val(s1, x)),
                None => fails(s1, SErr::UninitializedVariable(name)),
            }
        } else {
            fails(s1, SErr::UninitializedVariable(name))
        },
        Ok(v) => done(push_val(s1, v)),
    }
}

/// 「表示」.
pub open spec fn display_step(s: IState) -> (IState, Outcome) {
    let (s1, rv) = take(s);
    match rv {
        Err(e) => fails(s1, e),
        Ok(v) => done(IState { output: s1.output.push(render(s1, v, value_depth(s1))), ..s1 }),
    }
}

/// 「追加」.
pub open spec fn append_step(s: IState) -> (IState, Outcome) {
    let (s1, rv) = take_concrete(s);
    match rv {
        Err(e) => fails(s1, e),
        Ok(x) => {
            let (s2, ra) = take_array(s1);
            match ra {
                Err(e) => fails(s2, e),
                Ok(h) => if h < s2.arrays.len() {
                    done(push_val(
                        IState { arrays: s2.arrays.update(h as int, s2.arrays[h as int].push(x)), ..s2 },
                        SVal::Array(h),
                    ))
                } else {
                    fails(s2, bad_array())
                },
            }
        },
    }
}

/// 「等しい?」.
pub open spec fn equal_step(s: IState) -> (IState, Outcome) {
    let (s1, rb) = take_concrete(s);
    match rb {
        Err(e) => fails(s1, e),
        Ok(b) => {
            let (s2, ra) = take_concrete(s1);
            match ra {
                Err(e) => fails(s2, e),
                Ok(a) => done(push_val(s2, SVal::Bool(values_equal(s2, a, b, value_depth(s2))))),
            }
        },
    }
}

/// A path with a leading `./` removed.
pub open spec fn strip_dot_slash(p: Seq<char>) -> Seq<char> {
    if p.len() >= 2 && p[0] == '.' && p[1] == '/' { p.subrange(2, p.len() as int) } else { p }
}

/// The message of a module read when no reader is installed.
pub open spec fn no_reader_message() -> Seq<char> {
    "モジュールの読み込み先が設定されていません"@
}

/// State `s` with the question `ask`, asked in state `h`, and its answer
/// `reply` recorded.
pub open spec fn asked(s: IState, ask: super::Ask, h: IState, reply: super::Reply) -> IState {
    IState { outside: s.outside.push(super::Exchange { ask, handed: h, reply }), ..s }
}

/// A run of closure `id` for the word `name`: the name is pushed on the
/// trace and the closure is handed the interpreter; what it leaves and
/// returns is the oracle's answer.  The call is recorded, a failure noted,
/// and the name popped again.
pub open spec fn native_step(s: IState, name: Seq<char>, id: nat, o: Oracle) -> (IState, Outcome) {
    let handed = IState { trace: s.trace.push(name), ..s };
    let reply = o(s.outside.len(), handed);
    match reply {
        super::Reply::Native { left, result } => {
            let out = match result {
                Ok(()) => Outcome::Done,
                Err(e) => Outcome::Failed(e),
            };
            let s2 = IState { outside: s.outside.push(super::Exchange { ask: super::Ask::Native { id }, handed, reply }), ..left };
            (pop_trace(note_failure(s2, out)), out)
        },
        _ => (s, Outcome::Unknown),
    }
}

/// 「含める」 and 「必要」: the module's path is popped; 「必要」 does nothing
/// for a path it already loaded; without a reader the read fails; with one,
/// the reader is asked for the path, its answer being the next answer of
/// the oracle `o`, and the question is recorded (see [`sem_module_reply`]).
pub open spec fn module_step(s: IState, b: Builtin, fuel: nat, o: Oracle) -> (IState, Outcome)
    decreases fuel, 2nat, 0nat,
{
    let (s1, rv) = take(s);
    match rv {
        Err(e) => fails(s1, e),
        Ok(SVal::Str(p)) => {
            let path = if b == Builtin::Require { strip_dot_slash(p) } else { p };
            if b == Builtin::Require && s1.loaded.contains(path) {
                done(s1)
            } else if !s1.has_reader {
                fails(s1, SErr::ModuleReadError { path, message: no_reader_message() })
            } else {
                let reply = o(s1.outside.len(), s1);
                match reply {
                    super::Reply::Module { text } => sem_module_reply(
                        asked(s1, super::Ask::Module { path }, s1, reply), b, path, text, fuel, o),
                    _ => (s1, Outcome::Unknown),
                }
            }
        },
        Ok(v) => fails(s1, mismatch("文字列"@, v)),
    }
}

/// What a module read by 「含める」 (`b` Include) or 「必要」 (`b` Require)
/// of `path` leads to, given the reader's reply: a failed read is a
/// `ModuleReadError`; otherwise 「必要」 records the path, and the text runs
/// as a source text in this state, its 「終了」 ending the run and its error
/// becoming a `ModuleError` with the error's text.
pub open spec fn sem_module_reply(s: IState, b: Builtin, path: Seq<char>, reply: Result<Seq<char>, Seq<char>>, fuel: nat, o: Oracle) -> (IState, Outcome)
    decreases fuel, 1nat, 0nat,
{
    match reply {
        Err(m) => fails(s, SErr::ModuleReadError { path, message: m }),
        Ok(text) => {
            let s1 = if b == Builtin::Require { IState { loaded: s.loaded.push(path), ..s } } else { s };
            if fuel == 0 {
                fails(s1, SErr::StepLimitExceeded)
            } else {
                let (s2, r) = crate::runner::sem_module_text(s1, text, (fuel - 1) as nat, o);
                match r {
                    crate::runner::RunResult::Done(super::ExecutionOutcome::Continue) => done(s2),
                    crate::runner::RunResult::Done(super::ExecutionOutcome::Exit) => fails(s2, SErr::Exit),
                    crate::runner::RunResult::Failed(e) => fails(fresh_run(s2), SErr::ModuleError { path, message: crate::error::umor_message(e) }),
                    crate::runner::RunResult::Unknown => (s2, Outcome::Unknown),
                }
            }
        },
    }
}

/// One builtin word.
pub open spec fn builtin_step(s: IState, b: Builtin) -> (IState, Outcome) {
    match b {
        Builtin::Over | Builtin::Swap | Builtin::Rot | Builtin::Dup | Builtin::Drop => shuffle_step(s, b),
        Builtin::Add => numeric(s, |a: i64, b: i64| Ok(SVal::Number(a.wrapping_add(b)))),
        Builtin::Sub => numeric(s, |a: i64, b: i64| Ok(SVal::Number(a.wrapping_sub(b)))),
        Builtin::Mul => numeric(s, |a: i64, b: i64| Ok(SVal::Number(a.wrapping_mul(b)))),
        Builtin::Div => numeric(s, |a: i64, b: i64| if b == 0 { Err(SErr::DivisionByZero) } else { Ok(SVal::Number(int_div(a, b))) }),
        Builtin::Rem => numeric(s, |a: i64, b: i64| if b == 0 { Err(SErr::DivisionByZero) } else { Ok(SVal::Number(int_rem(a, b))) }),
        Builtin::Greater => numeric(s, |a: i64, b: i64| Ok(SVal::Bool(a > b))),
        Builtin::Less => numeric(s, |a: i64, b: i64| Ok(SVal::Bool(a < b))),
        Builtin::And => logical(s, |a: bool, b: bool| a && b),
        Builtin::Or => logical(s, |a: bool, b: bool| a || b),
        Builtin::Equal => equal_step(s),
        Builtin::Index => index_step(s),
        Builtin::Store => store_step(s),
        Builtin::Load => load_step(s),
        Builtin::Display => display_step(s),
        Builtin::NoOp => done(s),
        Builtin::EmptyArray => done(push_val(IState { arrays: s.arrays.push(seq![]), ..s }, SVal::Array(s.arrays.len()))),
        Builtin::Append => append_step(s),
        Builtin::Exit => fails(s, SErr::Exit),
        // The module words are modelled by [`module_step`].
        Builtin::Include | Builtin::Require => (s, Outcome::Unknown),
    }
}

/// A `'X'` character literal's content.
pub open spec fn char_literal(name: Seq<char>) -> Option<Seq<char>> {
    if name.len() == 3 && name[0] == '\'' && name[2] == '\'' { Some(seq![name[1]]) } else { None }
}

/// The name of the counter of a counted loop.
pub open spec fn counter_word() -> Seq<char> {
    "回数"@
}

pub open spec fn pop_trace(s: IState) -> IState {
    IState { trace: shrink(s.trace), ..s }
}

// ---------------------------------------------------------------- evaluation

/// Evaluates the expressions of `es` in order, stopping at the first that
/// does not end normally.
pub open spec fn sem_exprs(s: IState, es: Seq<SpecExpr>, fuel: nat, o: Oracle) -> (IState, Outcome)
    decreases fuel, 0nat, es.len(),
{
    if es.len() == 0 {
        done(s)
    } else {
        let (s1, out) = sem_expr(s, es[0], fuel, o);
        match out {
            Outcome::Done => sem_exprs(s1, es.drop_first(), fuel, o),
            _ => (s1, out),
        }
    }
}

/// Evaluates one expression.
pub open spec fn sem_expr(s: IState, e: SpecExpr, fuel: nat, o: Oracle) -> (IState, Outcome)
    decreases fuel, 0nat, 0nat,
{
    if fuel == 0 {
        fails(s, SErr::StepLimitExceeded)
    } else {
        let f = (fuel - 1) as nat;
        match e {
            SpecExpr::WordCall(name) => sem_dispatch(s, name, f, o),
            SpecExpr::NumberLiteral(n) => done(push_val(s, SVal::Number(n))),
            SpecExpr::StringLiteral(t) => done(push_val(s, SVal::Str(t))),
            SpecExpr::SelfRecurse => if s.calls.len() > 0 {
                let c = s.calls.last();
                sem_call(s, c.name, c.def, c.locals, c.self_ref, f, o)
            } else {
                fails(s, SErr::UndefinedWord("再帰"@))
            },
            SpecExpr::IfElse { cond, then_branch, else_branch } => {
                let (s1, o1) = sem_exprs(s, cond, f, o);
                match o1 {
                    Outcome::Done => {
                        let (s2, r) = take(s1);
                        match r {
                            Err(e) => fails(s2, e),
                            Ok(SVal::Bool(true)) => sem_exprs(s2, then_branch, f, o),
                            Ok(SVal::Bool(false)) => match else_branch {
                                Some(b) => sem_exprs(s2, b, f, o),
                                None => done(s2),
                            },
                            Ok(v) => fails(s2, mismatch("真偽値"@, v)),
                        }
                    },
                    _ => (s1, o1),
                }
            },
            SpecExpr::Break => fails(s, SErr::Break),
            SpecExpr::InfiniteLoop { body } => sem_loop(s, body, f, o),
            SpecExpr::CountedLoop { body } => {
                let (s1, r) = take_number(s);
                match r {
                    Err(e) => fails(s1, e),
                    Ok(n) => sem_counted(s1, body, 0, n, f, o),
                }
            },
            SpecExpr::VariableDecl(name) => done(declare(alloc_slot(s, None), name, Binding::Var(s.slots.len() as usize))),
            SpecExpr::ValueDecl { name, is_constant, init_expr } => {
                let (s1, o1) = sem_exprs(s, init_expr, f, o);
                match o1 {
                    Outcome::Done => {
                        let (s2, r) = take_concrete(s1);
                        match r {
                            Err(e) => fails(s2, e),
                            Ok(v) => done(declare(
                                alloc_slot(s2, Some(v)),
                                name,
                                Binding::Val { slot: s2.slots.len() as usize, constant: is_constant },
                            )),
                        }
                    },
                    _ => (s1, o1),
                }
            },
            SpecExpr::Assign { name, value_expr } => {
                let (s1, o1) = sem_exprs(s, value_expr, f, o);
                match o1 {
                    Outcome::Done => match lookup(s1, name) {
                        None => fails(s1, SErr::UndefinedWord(name)),
                        Some(Binding::Val { slot: _, constant: true }) => fails(s1, SErr::AssignToConstant(name)),
                        Some(b) => {
                            let slot = match b {
                                Binding::Var(k) => k,
                                Binding::Val { slot, constant: _ } => slot,
                            };
                            let (s2, r) = take_concrete(s1);
                            match r {
                                Err(e) => fails(s2, e),
                                Ok(v) => done(store(s2, slot as nat, v)),
                            }
                        },
                    },
                    _ => (s1, o1),
                }
            },
            SpecExpr::AliasDecl { new_name, existing_name } => done(register(s, new_name, SWord::Alias(existing_name))),
        }
    }
}

/// A call of `name`: a character literal, the loop counter, a variable, a
/// local word, then the dictionary.
pub open spec fn sem_dispatch(s: IState, name: Seq<char>, fuel: nat, o: Oracle) -> (IState, Outcome)
    decreases fuel, 0nat, 0nat,
{
    if fuel == 0 {
        fails(s, SErr::StepLimitExceeded)
    } else {
        let f = (fuel - 1) as nat;
        match char_literal(name) {
            Some(c) => done(push_val(s, SVal::Str(c))),
            None => if name == counter_word() && s.counters.len() > 0 {
                done(push_val(s, SVal::Number(s.counters.last())))
            } else {
                match lookup(s, name) {
                    Some(Binding::Var(slot)) => done(push_val(s, SVal::VarRef(slot as nat, name))),
                    Some(Binding::Val { slot, constant: _ }) => if slot < s.slots.len() && s.slots[slot as int] is Some {
                        done(push_val(s, s.slots[slot as int]->0))
                    } else {
                        fails(s, SErr::UninitializedVariable(name))
                    },
                    None => match current_local(s, name) {
                        Some((t, j)) => sem_call(s, name, DefRef::Local(t, j as usize), Some(t), None, f, o),
                        None => match resolve(s, name) {
                            None => fails(s, SErr::UndefinedWord(name)),
                            Some((SWord::Native(id), _)) => if id < s.natives {
                                native_step(s, name, id as nat, o)
                            } else {
                                fails(s, SErr::UndefinedWord(name))
                            },
                            Some((SWord::Builtin(b), _)) => {
                                let s1 = IState { trace: s.trace.push(name), ..s };
                                let (s2, out) = if b == Builtin::Include || b == Builtin::Require {
                                    module_step(s1, b, f, o)
                                } else {
                                    builtin_step(s1, b)
                                };
                                match out {
                                    Outcome::Unknown => (s2, out),
                                    _ => (pop_trace(note_failure(s2, out)), out),
                                }
                            },
                            Some((SWord::User(t), g)) => sem_call(s, name, DefRef::Top(t), Some(t), Some((name, g as usize)), f, o),
                            Some((SWord::Alias(target), _)) => sem_dispatch(s, target, f, o),
                        },
                    },
                }
            }
        }
    }
}

/// Runs definition `r` as a call named `name`: its frame, its body, then
/// the frame is left whatever the body ended with.
pub open spec fn sem_call(s: IState, name: Seq<char>, r: DefRef, locals: Option<usize>, self_ref: Option<(Seq<char>, usize)>, fuel: nat, o: Oracle) -> (IState, Outcome)
    decreases fuel, 0nat, 0nat,
{
    if fuel == 0 {
        fails(s, SErr::StepLimitExceeded)
    } else {
        match def_of(s, r) {
            None => fails(s, SErr::UndefinedWord(name)),
            Some(d) => {
                let (s2, out) = sem_exprs(enter(s, name, r, d, locals, self_ref), d.body, (fuel - 1) as nat, o);
                match out {
                    Outcome::Unknown => (s2, out),
                    _ => (leave(note_failure(s2, out)), out),
                }
            },
        }
    }
}

/// `ここから … 繰り返し`: the body again and again until 「打ち切り」.
pub open spec fn sem_loop(s: IState, body: Seq<SpecExpr>, fuel: nat, o: Oracle) -> (IState, Outcome)
    decreases fuel, 0nat, 0nat,
{
    if fuel == 0 {
        fails(s, SErr::StepLimitExceeded)
    } else {
        let (s1, out) = sem_exprs(s, body, (fuel - 1) as nat, o);
        match out {
            Outcome::Done => sem_loop(s1, body, (fuel - 1) as nat, o),
            Outcome::Failed(SErr::Break) => done(s1),
            _ => (s1, out),
        }
    }
}

pub open spec fn pop_counter(s: IState) -> IState {
    IState { counters: shrink(s.counters), ..s }
}

/// `n 回数指定し … 繰り返す` from round `i` on: the body with the counter
/// `i` visible as 「回数」, until round `n` or 「打ち切り」.
pub open spec fn sem_counted(s: IState, body: Seq<SpecExpr>, i: i64, n: i64, fuel: nat, o: Oracle) -> (IState, Outcome)
    decreases fuel, 0nat, (if i < n { (n - i) as nat } else { 0nat }),
{
    if i >= n {
        done(s)
    } else if fuel == 0 {
        fails(s, SErr::StepLimitExceeded)
    } else {
        let (s1, out) = sem_exprs(IState { counters: s.counters.push(i), ..s }, body, (fuel - 1) as nat, o);
        match out {
            Outcome::Done => sem_counted(pop_counter(s1), body, (i + 1) as i64, n, fuel, o),
            Outcome::Failed(SErr::Break) => done(pop_counter(s1)),
            Outcome::Unknown => (s1, out),
            _ => (pop_counter(s1), out),
        }
    }
}

// ---------------------------------------------------------------- top level

/// What processing a top-level item leads to.
pub enum TopOutcome {
    Continue,
    Exit,
    Failed(SErr),
    Unknown,
}

/// Maps the outcome of a top-level run: 「終了」 ends it normally and a
/// 「打ち切り」 that no loop caught is an error.
pub open spec fn top_outcome(o: Outcome) -> TopOutcome {
    match o {
        Outcome::Done => TopOutcome::Continue,
        Outcome::Failed(SErr::Exit) => TopOutcome::Exit,
        Outcome::Failed(SErr::Break) => TopOutcome::Failed(SErr::BreakOutsideLoop),
        Outcome::Failed(e) => TopOutcome::Failed(e),
        Outcome::Unknown => TopOutcome::Unknown,
    }
}

/// Processing a top-level item with budget `fuel`: a definition is stored
/// and registered, an expression sequence is run.
pub open spec fn sem_item_with(s: IState, item: SpecItem, fuel: nat, o: Oracle) -> (IState, TopOutcome)
    decreases fuel, 1nat, 0nat,
{
    match item {
        SpecItem::Definition(d) => (load_def(s, d), TopOutcome::Continue),
        SpecItem::Expr(es) => {
            let (s1, out) = sem_exprs(fresh_run(s), es, fuel, o);
            (s1, top_outcome(out))
        },
    }
}

/// Processing a top-level item with a full budget.
pub open spec fn sem_item(s: IState, item: SpecItem, o: Oracle) -> (IState, TopOutcome) {
    sem_item_with(s, item, full_fuel(), o)
}

/// A run of word `name` from outside (`run_word`).
pub open spec fn sem_run_word(s: IState, name: Seq<char>, o: Oracle) -> (IState, Outcome) {
    let (s1, out) = sem_dispatch(fresh_run(s), name, full_fuel(), o);
    match out {
        Outcome::Failed(SErr::Break) => (s1, Outcome::Failed(SErr::BreakOutsideLoop)),
        _ => (s1, out),
    }
}

} // verus!
