//! The interpreter's basic operations on its stack, stores, scopes and
//! dictionary, each following the spec function of the same name.
use vstd::prelude::*;
use crate::parser::Definition;
use crate::parser::ast::dv;
use crate::text::{str_eq, string_from_str};

use super::{
    ActiveCall, Binding, BindingEntry, DefRef, DictEntry, IState, Interpreter, SWord, WordDef,
    opt_val, word_view,
};
use super::error::{RuntimeError, SErr};
use super::semantics::{
    Outcome, alloc_slot, declare, store, take, take_array, take_bool, take_concrete,
    take_number, push_val, find_binding, lookup_in, lookup, find_entry, gens, register,
    find_local, current_local, cutoff, resolve, enter, leave, new_frame, note_failure,
};
use super::{SCall, call_view, entry_view, frame_view};
use super::value::{SVal, Value, vals};

verus! {

/// The model of a result carrying a value.
pub open spec fn rv(r: Result<Value, RuntimeError>) -> Result<SVal, SErr> {
    match r {
        Ok(v) => Ok(v@),
        Err(e) => Err(e@),
    }
}

/// The model of a result carrying a plain value.
pub open spec fn rp<T>(r: Result<T, RuntimeError>) -> Result<T, SErr> {
    match r {
        Ok(v) => Ok(v),
        Err(e) => Err(e@),
    }
}

/// The model of a result carrying a handle.
pub open spec fn rh(r: Result<usize, RuntimeError>) -> Result<nat, SErr> {
    match r {
        Ok(v) => Ok(v as nat),
        Err(e) => Err(e@),
    }
}

/// The model of the result of an evaluation step.
pub open spec fn outcome(r: Result<(), RuntimeError>) -> Outcome {
    match r {
        Ok(()) => Outcome::Done,
        Err(e) => Outcome::Failed(e@),
    }
}

/// An exact match between a run and its model (`Unknown`, an oracle that
/// answered a question of the other kind, claims nothing).
pub open spec fn follows(st: IState, r: Result<(), RuntimeError>, m: (IState, Outcome)) -> bool {
    m.1 is Unknown || (st == m.0 && outcome(r) == m.1)
}

pub proof fn lemma_vals_push(v: Seq<Value>, x: Value)
    ensures
        vals(v.push(x)) == vals(v).push(x@),
{
    assert(vals(v.push(x)) =~= vals(v).push(x@));
}

pub proof fn lemma_vals_drop_last(v: Seq<Value>)
    requires
        v.len() > 0,
    ensures
        vals(v.drop_last()) == vals(v).drop_last(),
        vals(v).last() == v.last()@,
{
    assert(vals(v.drop_last()) =~= vals(v).drop_last());
}

pub proof fn lemma_find_entry(d: Seq<(Seq<char>, Seq<SWord>)>, name: Seq<char>, n: nat)
    ensures
        find_entry(d, name, n) matches Some(i) ==> i < n && i < d.len() && d[i as int].0 == name,
    decreases n,
{
    if n > 0 && n <= d.len() && d[n - 1].0 != name {
        lemma_find_entry(d, name, (n - 1) as nat);
    }
}

fn copy_string(s: &String) -> (r: String)
    ensures
        r@ == s@,
{
    string_from_str(s.as_str())
}

impl WordDef {
    pub(crate) fn copied(&self) -> (r: WordDef)
        ensures
            word_view(r) == word_view(*self),
    {
        match self {
            WordDef::Native(i) => WordDef::Native(*i),
            WordDef::Builtin(b) => WordDef::Builtin(*b),
            WordDef::User(t) => WordDef::User(*t),
            WordDef::Alias(n) => WordDef::Alias(copy_string(n)),
        }
    }
}

impl Interpreter {
    pub(crate) fn stack_push(&mut self, v: Value)
        ensures
            final(self)@ == push_val(old(self)@, v@),
    {
        proof {
            lemma_vals_push(self.stack@, v);
        }
        self.stack.push(v);
    }

    pub(crate) fn take(&mut self) -> (r: Result<Value, RuntimeError>)
        ensures
            final(self)@ == take(old(self)@).0,
            rv(r) == take(old(self)@).1,
    {
        if self.stack.len() == 0 {
            Err(RuntimeError::StackUnderflow)
        } else {
            proof {
                lemma_vals_drop_last(self.stack@);
            }
            let v = self.stack.pop().unwrap();
            Ok(v)
        }
    }

    pub(crate) fn take_number(&mut self) -> (r: Result<i64, RuntimeError>)
        ensures
            final(self)@ == take_number(old(self)@).0,
            rp(r) == take_number(old(self)@).1,
    {
        match self.take() {
            Err(e) => Err(e),
            Ok(Value::Number(n)) => Ok(n),
            Ok(v) => Err(RuntimeError::TypeMismatch { expected: string_from_str("数"), found: string_from_str(v.type_label()) }),
        }
    }

    pub(crate) fn take_bool(&mut self) -> (r: Result<bool, RuntimeError>)
        ensures
            final(self)@ == take_bool(old(self)@).0,
            rp(r) == take_bool(old(self)@).1,
    {
        match self.take() {
            Err(e) => Err(e),
            Ok(Value::Bool(b)) => Ok(b),
            Ok(v) => Err(RuntimeError::TypeMismatch { expected: string_from_str("真偽値"), found: string_from_str(v.type_label()) }),
        }
    }

    pub(crate) fn take_array(&mut self) -> (r: Result<usize, RuntimeError>)
        ensures
            final(self)@ == take_array(old(self)@).0,
            rh(r) == take_array(old(self)@).1,
    {
        match self.take() {
            Err(e) => Err(e),
            Ok(Value::Array(h)) => Ok(h),
            Ok(v) => Err(RuntimeError::TypeMismatch { expected: string_from_str("配列"), found: string_from_str(v.type_label()) }),
        }
    }

    pub(crate) fn take_concrete(&mut self) -> (r: Result<Value, RuntimeError>)
        ensures
            final(self)@ == take_concrete(old(self)@).0,
            rv(r) == take_concrete(old(self)@).1,
    {
        match self.take() {
            Err(e) => Err(e),
            Ok(Value::VarRef(_, name)) => {
                let mut found = string_from_str("変数参照「");
                crate::text::push_str(&mut found, name.as_str());
                crate::text::push_str(&mut found, "」");
                Err(RuntimeError::TypeMismatch { expected: string_from_str("具体的な値"), found })
            },
            Ok(v) => Ok(v),
        }
    }

    pub(crate) fn store_slot(&mut self, slot: usize, v: Value)
        ensures
            final(self)@ == store(old(self)@, slot as nat, v@),
    {
        if slot < self.slots.len() {
            let ghost vv = v@;
            self.slots.set(slot, Some(v));
            proof {
                assert(self@.slots =~= old(self)@.slots.update(slot as int, Some(vv)));
            }
        }
    }

    pub(crate) fn alloc_slot(&mut self, init: Option<Value>) -> (slot: usize)
        ensures
            final(self)@ == alloc_slot(old(self)@, opt_val(init)),
            slot == old(self)@.slots.len(),
    {
        let slot = self.slots.len();
        let ghost o = opt_val(init);
        self.slots.push(init);
        proof {
            assert(self@.slots =~= old(self)@.slots.push(o));
        }
        slot
    }

    pub(crate) fn declare(&mut self, name: String, b: Binding)
        ensures
            final(self)@ == declare(old(self)@, name@, b),
    {
        let ghost n = name@;
        let entry = BindingEntry { name, binding: b };
        if self.scopes.len() == 0 {
            let mut frame: Vec<BindingEntry> = Vec::new();
            frame.push(entry);
            self.scopes.push(frame);
            proof {
                assert(super::frame_view(self.scopes@[0]) =~= seq![(n, b)]);
                assert(self@.scopes =~= seq![seq![(n, b)]]);
            }
        } else {
            let last = self.scopes.len() - 1;
            let ghost before = super::frame_view(self.scopes@[last as int]);
            self.scopes[last].push(entry);
            proof {
                assert(super::frame_view(self.scopes@[last as int]) =~= before.push((n, b)));
                assert(self@.scopes =~= old(self)@.scopes.update(last as int, old(self)@.scopes.last().push((n, b))));
            }
        }
    }
}

impl Interpreter {
    pub(crate) fn lookup(&self, name: &str) -> (r: Option<Binding>)
        ensures
            r == lookup(self@, name@),
    {
        let ghost sc = self@.scopes;
        let mut n = self.scopes.len();
        while n > 0
            invariant
                n <= self.scopes@.len(),
                sc == self@.scopes,
                lookup_in(sc, name@, sc.len()) == lookup_in(sc, name@, n as nat),
            decreases n,
        {
            let frame = &self.scopes[n - 1];
            let ghost fv = sc[n - 1];
            proof {
                assert(fv == frame_view(*frame));
            }
            let mut k = frame.len();
            while k > 0
                invariant
                    k <= frame@.len(),
                    0 < n <= sc.len(),
                    sc == self@.scopes,
                    fv == sc[n - 1],
                    fv == frame_view(*frame),
                    fv.len() == frame@.len(),
                    lookup_in(sc, name@, sc.len()) == lookup_in(sc, name@, n as nat),
                    find_binding(fv, name@, fv.len()) == find_binding(fv, name@, k as nat),
                decreases k,
            {
                proof {
                    assert(fv[k - 1] == (frame@[k - 1].name@, frame@[k - 1].binding));
                }
                if str_eq(frame[k - 1].name.as_str(), name) {
                    proof {
                        assert(find_binding(fv, name@, k as nat) == Some(fv[k - 1].1));
                        assert(lookup_in(sc, name@, n as nat) == Some(fv[k - 1].1));
                    }
                    return Some(frame[k - 1].binding);
                }
                k = k - 1;
            }
            n = n - 1;
        }
        None
    }

    pub(crate) fn find_entry(&self, name: &str) -> (r: Option<usize>)
        ensures
            match r {
                Some(i) => find_entry(self@.dict, name@, self@.dict.len()) == Some(i as nat) && i < self@.dict.len(),
                None => find_entry(self@.dict, name@, self@.dict.len()) is None,
            },
    {
        let ghost d = self@.dict;
        let mut n = self.dictionary.len();
        while n > 0
            invariant
                n <= self.dictionary@.len(),
                d == self@.dict,
                d.len() == self.dictionary@.len(),
                find_entry(d, name@, d.len()) == find_entry(d, name@, n as nat),
            decreases n,
        {
            proof {
                assert(d[n - 1] == entry_view(self.dictionary@[n - 1]));
            }
            if str_eq(self.dictionary[n - 1].name.as_str(), name) {
                return Some(n - 1);
            }
            n = n - 1;
        }
        None
    }

    pub(crate) fn register(&mut self, name: String, w: WordDef)
        ensures
            final(self)@ == register(old(self)@, name@, word_view(w)),
    {
        let ghost n = name@;
        let ghost wv = word_view(w);
        match self.find_entry(name.as_str()) {
            Some(i) => {
                proof {
                    lemma_find_entry(old(self)@.dict, n, old(self)@.dict.len());
                    assert(old(self)@.dict[i as int] == entry_view(old(self).dictionary@[i as int]));
                }
                let ghost before = self.dictionary@[i as int].generations@;
                self.dictionary[i].generations.push(w);
                proof {
                    assert(self.dictionary@[i as int].generations@.map_values(|x: WordDef| word_view(x))
                        =~= before.map_values(|x: WordDef| word_view(x)).push(wv));
                    assert(self@.dict =~= old(self)@.dict.update(i as int, (n, old(self)@.dict[i as int].1.push(wv))));
                }
            },
            None => {
                let mut g: Vec<WordDef> = Vec::new();
                g.push(w);
                self.dictionary.push(DictEntry { name, generations: g });
                proof {
                    assert(g@.map_values(|x: WordDef| word_view(x)) =~= seq![wv]);
                    assert(self@.dict =~= old(self)@.dict.push((n, seq![wv])));
                }
            },
        }
    }

    /// The generations of `name`, when it has an entry.
    pub(crate) fn current_local(&self, name: &str) -> (r: Option<(usize, usize)>)
        ensures
            match r {
                Some((t, j)) => current_local(self@, name@) == Some((t, j as nat)),
                None => current_local(self@, name@) is None,
            },
    {
        if self.calls.len() == 0 {
            return None;
        }
        let last = self.calls.len() - 1;
        proof {
            assert(self@.calls.last() == call_view(self.calls@[last as int]));
        }
        match self.calls[last].locals {
            None => None,
            Some(t) => {
                if t >= self.trees.len() {
                    return None;
                }
                let d: &Definition = &self.trees[t];
                let ghost ls = self@.trees[t as int].locals;
                proof {
                    assert(self@.trees[t as int] == dv(*self.trees@[t as int]));
                    assert(ls == crate::parser::ast::dvs(d.locals@));
                }
                proof {
                    assert(self@.calls.last().locals == Some(t));
                }
                let mut j = d.locals.len();
                while j > 0
                    invariant
                        j <= d.locals@.len(),
                        current_local(self@, name@) == (match find_local(ls, name@, ls.len()) {
                            Some(jj) => Some((t, jj)),
                            None => None::<(usize, nat)>,
                        }),
                        ls == crate::parser::ast::dvs(d.locals@),
                        ls.len() == d.locals@.len(),
                        find_local(ls, name@, ls.len()) == find_local(ls, name@, j as nat),
                    decreases j,
                {
                    proof {
                        assert(ls[j - 1] == dv(d.locals@[j - 1]));
                    }
                    if str_eq(d.locals[j - 1].name.as_str(), name) {
                        return Some((t, j - 1));
                    }
                    j = j - 1;
                }
                None
            },
        }
    }

    /// The definition a dictionary call of `name` reaches, with its
    /// generation.
    pub(crate) fn resolve(&self, name: &str) -> (r: Option<(WordDef, usize)>)
        ensures
            match r {
                Some((w, g)) => resolve(self@, name@) == Some((word_view(w), g as nat)),
                None => resolve(self@, name@) is None,
            },
    {
        let ghost gs = gens(self@, name@);
        let (idx, len): (Option<usize>, usize) = match self.find_entry(name) {
            Some(i) => {
                proof {
                    assert(self@.dict[i as int] == entry_view(self.dictionary@[i as int]));
                }
                (Some(i), self.dictionary[i].generations.len())
            },
            None => (None, 0),
        };
        let mut c: usize = len;
        if self.calls.len() > 0 {
            let last = self.calls.len() - 1;
            proof {
                assert(self@.calls.last() == call_view(self.calls@[last as int]));
            }
            match &self.calls[last].self_ref {
                Some((n, g)) => {
                    if str_eq(n.as_str(), name) {
                        c = *g;
                    }
                },
                None => {},
            }
        }
        proof {
            assert(c as nat == cutoff(self@, name@));
        }
        match idx {
            Some(i) => {
                if 0 < c && c <= len {
                    let w = self.dictionary[i].generations[c - 1].copied();
                    proof {
                        assert(gs[c - 1] == word_view(self.dictionary@[i as int].generations@[c - 1]));
                    }
                    Some((w, c - 1))
                } else {
                    None
                }
            },
            None => None,
        }
    }

    pub(crate) fn enter(&mut self, name: String, r: DefRef, d: &Definition, locals: Option<usize>, self_ref: Option<(String, usize)>)
        ensures
            final(self)@ == enter(old(self)@, name@, r, dv(*d), locals, match self_ref { Some((n, g)) => Some((n@, g)), None => None }),
    {
        let ghost s0 = self@;
        let ghost vars = dv(*d).variables;
        let ghost base = self.slots@.len();
        let mut frame: Vec<BindingEntry> = Vec::new();
        let mut k: usize = 0;
        proof {
            assert(vars == d.variables@.map_values(|x: String| x@));
        }
        while k < d.variables.len()
            invariant
                k <= d.variables@.len(),
                vars == d.variables@.map_values(|x: String| x@),
                self.slots@.len() == base + k,
                self@ == (IState { slots: s0.slots + Seq::new(k as nat, |i: int| None::<SVal>), ..s0 }),
                frame_view(frame) == new_frame(vars, base).take(k as int),
            decreases d.variables@.len() - k,
        {
            let idx = self.slots.len();
            let ghost f0 = frame_view(frame);
            let ghost sl = self@.slots;
            self.slots.push(None);
            proof {
                assert(self@.slots =~= sl.push(None::<SVal>));
            }
            let v = copy_string(&d.variables[k]);
            frame.push(BindingEntry { name: v, binding: Binding::Var(idx) });
            proof {
                assert(frame_view(frame) =~= f0.push((v@, Binding::Var(idx))));
                assert(vars[k as int] == v@);
                assert(new_frame(vars, base).take(k as int + 1) =~= new_frame(vars, base).take(k as int).push((vars[k as int], Binding::Var((base + k) as usize))));
            }
            k = k + 1;
            proof {
                assert(self@.slots =~= s0.slots + Seq::new(k as nat, |i: int| None::<SVal>));
                assert(frame_view(frame) =~= new_frame(vars, base).take(k as int));
            }
        }
        proof {
            assert(new_frame(vars, base).take(k as int) =~= new_frame(vars, base));
        }
        let ghost fv = frame_view(frame);
        self.scopes.push(frame);
        let tn = copy_string(&name);
        self.call_trace.push(tn);
        let ghost sr = match &self_ref { Some((n, g)) => Some((n@, *g)), None => None };
        let ghost nm = name@;
        self.calls.push(ActiveCall { name, def: r, locals, self_ref });
        proof {
            assert(self@.scopes =~= s0.scopes.push(new_frame(vars, s0.slots.len())));
            assert(self@.trace =~= s0.trace.push(nm));
            assert(self@.calls =~= s0.calls.push(SCall { name: nm, def: r, locals, self_ref: sr }));
        }
    }

    /// Keeps the words running when an error leaves them (see
    /// [`note_failure`]).
    pub(crate) fn note_failure(&mut self, r: &Result<(), RuntimeError>)
        ensures
            final(self)@ == note_failure(old(self)@, outcome(*r)),
    {
        match r {
            Err(RuntimeError::Break) => {},
            Err(_) => {
                if self.failed_in.is_none() {
                    let mut t: Vec<String> = Vec::new();
                    let mut i: usize = 0;
                    while i < self.call_trace.len()
                        invariant
                            i <= self.call_trace@.len(),
                            t@.map_values(|x: String| x@) == self@.trace.take(i as int),
                        decreases self.call_trace@.len() - i,
                    {
                        let c = copy_string(&self.call_trace[i]);
                        let ghost t0 = t@;
                        t.push(c);
                        proof {
                            assert(t@.map_values(|x: String| x@) =~= t0.map_values(|x: String| x@).push(c@));
                            assert(self@.trace[i as int] == c@);
                            assert(self@.trace.take(i as int + 1) =~= self@.trace.take(i as int).push(c@));
                        }
                        i = i + 1;
                    }
                    proof {
                        assert(self@.trace.take(self.call_trace@.len() as int) =~= self@.trace);
                    }
                    let ghost s0 = self@;
                    self.failed_in = Some(t);
                    proof {
                        assert(self@ == (IState { failed_in: Some(s0.trace), ..s0 }));
                    }
                }
            },
            Ok(()) => {},
        }
    }

    pub(crate) fn leave(&mut self)
        ensures
            final(self)@ == leave(old(self)@),
    {
        let ghost s0 = self@;
        if self.calls.len() > 0 {
            self.calls.pop();
            proof {
                assert(self@.calls =~= s0.calls.drop_last());
            }
        }
        if self.call_trace.len() > 0 {
            self.call_trace.pop();
            proof {
                assert(self@.trace =~= s0.trace.drop_last());
            }
        }
        if self.scopes.len() > 0 {
            self.scopes.pop();
            proof {
                assert(self@.scopes =~= s0.scopes.drop_last());
            }
        }
    }
}

} // verus!
