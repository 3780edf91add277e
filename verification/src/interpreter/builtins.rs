//! The words the interpreter implements itself, and the rendering and
//! comparison of values they use.
use vstd::prelude::*;
use crate::text::{push_int, push_str, str_eq, string_from_str};
use super::{Builtin, Interpreter};
use super::error::{RuntimeError, join};
use super::semantics::{
    append_step, builtin_step, display_step, equal_step, index_step, load_step, render,
    render_all, store_step, value_depth, values_equal, elems_equal, lemma_elems_equal_prefix,
    shuffle_step, take, take_concrete, take_array, take_number, take_bool,
};
use super::store::{outcome, lemma_vals_push};
use super::value::{SVal, Value, vals};

verus! {

impl Interpreter {
    /// The depth to which values are rendered and compared (see
    /// [`value_depth`]).
    pub(crate) fn value_depth(&self) -> (r: usize)
        ensures
            r == value_depth(self@),
    {
        let n = self.arrays.len();
        if n < usize::MAX { n + 1 } else { n }
    }

    /// The text 「表示」 shows for `v` (see [`render`]).
    pub(crate) fn render(&self, v: &Value, depth: usize) -> (r: String)
        ensures
            r@ == render(self@, v@, depth as nat),
        decreases depth,
    {
        match v {
            Value::Number(n) => {
                let mut s = String::new();
                push_int(&mut s, *n);
                proof {
                    assert(s@ =~= crate::text::int_digits(*n as int));
                }
                s
            },
            Value::Bool(b) => if *b { string_from_str("真") } else { string_from_str("偽") },
            Value::String(t) => string_from_str(t.as_str()),
            Value::Array(h) => {
                if *h < self.arrays.len() && depth > 0 {
                    let arr = &self.arrays[*h];
                    let ghost xs = self@.arrays[*h as int];
                    let ghost parts = render_all(self@, xs, (depth - 1) as nat);
                    proof {
                        assert(xs == vals(arr@));
                    }
                    let mut s = string_from_str("[");
                    let mut i: usize = 0;
                    proof {
                        assert(parts.take(0) =~= Seq::<Seq<char>>::empty());
                        assert(s@ =~= "["@ + join(parts.take(0), ", "@));
                    }
                    while i < arr.len()
                        invariant
                            i <= arr@.len(),
                            depth > 0,
                            xs == vals(arr@),
                            parts == render_all(self@, xs, (depth - 1) as nat),
                            parts.len() == arr@.len(),
                            s@ == "["@ + join(parts.take(i as int), ", "@),
                        decreases arr@.len() - i,
                    {
                        let ghost s0 = s@;
                        if i > 0 {
                            push_str(&mut s, ", ");
                        }
                        let part = self.render(&arr[i], depth - 1);
                        push_str(&mut s, part.as_str());
                        proof {
                            let t = parts.take(i as int + 1);
                            assert(t.drop_last() =~= parts.take(i as int));
                            assert(t.last() == part@);
                            if i == 0 {
                                assert(t.len() == 1);
                                assert(s@ =~= "["@ + join(t, ", "@));
                            } else {
                                assert(s@ =~= "["@ + join(t, ", "@));
                            }
                        }
                        i = i + 1;
                    }
                    push_str(&mut s, "]");
                    proof {
                        assert(parts.take(arr@.len() as int) =~= parts);
                    }
                    s
                } else {
                    string_from_str("[…]")
                }
            },
            Value::VarRef(slot, name) => {
                let mut s = string_from_str("変数「");
                push_str(&mut s, name.as_str());
                push_str(&mut s, "」");
                if *slot < self.slots.len() {
                    proof {
                        assert(self@.slots[*slot as int] == super::opt_val(self.slots@[*slot as int]));
                    }
                    match &self.slots[*slot] {
                        Some(x) => {
                            if depth > 0 {
                                push_str(&mut s, "（値: ");
                                let inner = self.render(x, depth - 1);
                                push_str(&mut s, inner.as_str());
                                push_str(&mut s, "）");
                            } else {
                                push_str(&mut s, "（値: …）");
                            }
                        },
                        None => {
                            push_str(&mut s, "（未代入）");
                        },
                    }
                } else {
                    push_str(&mut s, "（未代入）");
                }
                s
            },
        }
    }

    /// Whether two values are equal (see [`values_equal`]).
    pub(crate) fn values_equal(&self, a: &Value, b: &Value, depth: usize) -> (r: bool)
        ensures
            r == values_equal(self@, a@, b@, depth as nat),
        decreases depth,
    {
        match (a, b) {
            (Value::Number(x), Value::Number(y)) => *x == *y,
            (Value::Bool(x), Value::Bool(y)) => *x == *y,
            (Value::String(x), Value::String(y)) => str_eq(x.as_str(), y.as_str()),
            (Value::Array(h), Value::Array(k)) => {
                if !(*h < self.arrays.len() && *k < self.arrays.len()) {
                    return false;
                }
                if *h == *k {
                    return true;
                }
                if depth == 0 {
                    return false;
                }
                let x = &self.arrays[*h];
                let y = &self.arrays[*k];
                let ghost hh = *h as nat;
                let ghost kk = *k as nat;
                let ghost xs = self@.arrays[hh as int];
                let ghost ys = self@.arrays[kk as int];
                let ghost dn: nat = ((depth as nat) - 1) as nat;
                proof {
                    assert(xs == vals(x@));
                    assert(ys == vals(y@));
                }
                if x.len() != y.len() {
                    return false;
                }
                let mut i: usize = 0;
                while i < x.len()
                    invariant
                        i <= x@.len(),
                        x@.len() == y@.len(),
                        depth > 0,
                        dn == ((depth as nat) - 1) as nat,
                        a@ == SVal::Array(hh),
                        b@ == SVal::Array(kk),
                        hh < self@.arrays.len(),
                        kk < self@.arrays.len(),
                        hh != kk,
                        xs == self@.arrays[hh as int],
                        ys == self@.arrays[kk as int],
                        xs == vals(x@),
                        ys == vals(y@),
                        elems_equal(self@, xs, ys, i as nat, dn),
                    decreases x@.len() - i,
                {
                    proof {
                        assert(xs[i as int] == x@[i as int]@);
                        assert(ys[i as int] == y@[i as int]@);
                    }
                    if !self.values_equal(&x[i], &y[i], depth - 1) {
                        proof {
                            assert(!elems_equal(self@, xs, ys, (i + 1) as nat, dn));
                            if elems_equal(self@, xs, ys, xs.len(), dn) {
                                lemma_elems_equal_prefix(self@, xs, ys, (i + 1) as nat, xs.len(), dn);
                            }
                        }
                        return false;
                    }
                    i = i + 1;
                }
                true
            },
            (Value::VarRef(p, n), Value::VarRef(q, m)) => *p == *q && str_eq(n.as_str(), m.as_str()),
            _ => false,
        }
    }

    /// 「越え」, 「交換」, 「回転」, 「複製」, 「捨」.
    fn shuffle(&mut self, b: Builtin) -> (r: Result<(), RuntimeError>)
        requires
            b == Builtin::Over || b == Builtin::Swap || b == Builtin::Rot || b == Builtin::Dup || b == Builtin::Drop,
        ensures
            (final(self)@, outcome(r)) == shuffle_step(old(self)@, b),
    {
        let x = match self.take() {
            Err(e) => return Err(e),
            Ok(v) => v,
        };
        match b {
            Builtin::Dup => {
                let c = x.copied();
                self.stack_push(c);
                self.stack_push(x);
                return Ok(());
            },
            Builtin::Drop => {
                return Ok(());
            },
            _ => {},
        }
        let y = match self.take() {
            Err(e) => return Err(e),
            Ok(v) => v,
        };
        match b {
            Builtin::Over => {
                let c = y.copied();
                self.stack_push(c);
                self.stack_push(x);
                self.stack_push(y);
                return Ok(());
            },
            Builtin::Swap => {
                self.stack_push(x);
                self.stack_push(y);
                return Ok(());
            },
            _ => {},
        }
        let z = match self.take() {
            Err(e) => return Err(e),
            Ok(v) => v,
        };
        self.stack_push(y);
        self.stack_push(x);
        self.stack_push(z);
        Ok(())
    }

    /// The words on two numbers.
    fn arithmetic(&mut self, b: Builtin) -> (r: Result<(), RuntimeError>)
        requires
            b == Builtin::Add || b == Builtin::Sub || b == Builtin::Mul || b == Builtin::Div || b == Builtin::Rem
                || b == Builtin::Greater || b == Builtin::Less,
        ensures
            (final(self)@, outcome(r)) == builtin_step(old(self)@, b),
    {
        let y = match self.take_number() {
            Err(e) => return Err(e),
            Ok(n) => n,
        };
        let x = match self.take_number() {
            Err(e) => return Err(e),
            Ok(n) => n,
        };
        let v = match b {
            Builtin::Add => Value::Number(x.wrapping_add(y)),
            Builtin::Sub => Value::Number(x.wrapping_sub(y)),
            Builtin::Mul => Value::Number(x.wrapping_mul(y)),
            Builtin::Div => {
                if y == 0 {
                    return Err(RuntimeError::DivisionByZero);
                }
                Value::Number(match x.checked_div(y) {
                    Some(q) => q,
                    None => i64::MIN,
                })
            },
            Builtin::Rem => {
                if y == 0 {
                    return Err(RuntimeError::DivisionByZero);
                }
                Value::Number(match x.checked_rem(y) {
                    Some(q) => q,
                    None => 0,
                })
            },
            Builtin::Greater => Value::Bool(x > y),
            _ => Value::Bool(x < y),
        };
        self.stack_push(v);
        Ok(())
    }

    /// 「かつ」 and 「または」.
    fn logic(&mut self, b: Builtin) -> (r: Result<(), RuntimeError>)
        requires
            b == Builtin::And || b == Builtin::Or,
        ensures
            (final(self)@, outcome(r)) == builtin_step(old(self)@, b),
    {
        let y = match self.take_bool() {
            Err(e) => return Err(e),
            Ok(v) => v,
        };
        let x = match self.take_bool() {
            Err(e) => return Err(e),
            Ok(v) => v,
        };
        let v = if b == Builtin::And { x && y } else { x || y };
        self.stack_push(Value::Bool(v));
        Ok(())
    }

    /// 「等しい?」.
    fn equal(&mut self) -> (r: Result<(), RuntimeError>)
        ensures
            (final(self)@, outcome(r)) == equal_step(old(self)@),
    {
        let y = match self.take_concrete() {
            Err(e) => return Err(e),
            Ok(v) => v,
        };
        let x = match self.take_concrete() {
            Err(e) => return Err(e),
            Ok(v) => v,
        };
        let d = self.value_depth();
        let eq = self.values_equal(&x, &y, d);
        self.stack_push(Value::Bool(eq));
        Ok(())
    }

    /// 「番目」.
    fn index(&mut self) -> (r: Result<(), RuntimeError>)
        ensures
            (final(self)@, outcome(r)) == index_step(old(self)@),
    {
        let i = match self.take_number() {
            Err(e) => return Err(e),
            Ok(n) => n,
        };
        let h = match self.take_array() {
            Err(e) => return Err(e),
            Ok(h) => h,
        };
        if h >= self.arrays.len() {
            return Err(RuntimeError::TypeMismatch { expected: string_from_str("配列"), found: string_from_str("無効な配列") });
        }
        let len = self.arrays[h].len();
        proof {
            assert(self@.arrays[h as int] == vals(self.arrays@[h as int]@));
        }
        if i < 0 || (i as u64) >= (len as u64) {
            return Err(RuntimeError::IndexOutOfBounds { index: i, length: len });
        }
        let v = self.arrays[h][i as usize].copied();
        self.stack_push(v);
        Ok(())
    }

    /// 「入れる」.
    fn store_into(&mut self) -> (r: Result<(), RuntimeError>)
        ensures
            (final(self)@, outcome(r)) == store_step(old(self)@),
    {
        let slot = match self.take() {
            Err(e) => return Err(e),
            Ok(Value::VarRef(slot, _)) => slot,
            Ok(v) => return Err(RuntimeError::TypeMismatch { expected: string_from_str("変数"), found: string_from_str(v.type_label()) }),
        };
        let x = match self.take_concrete() {
            Err(e) => return Err(e),
            Ok(v) => v,
        };
        self.store_slot(slot, x);
        Ok(())
    }

    /// 「読む」.
    fn load(&mut self) -> (r: Result<(), RuntimeError>)
        ensures
            (final(self)@, outcome(r)) == load_step(old(self)@),
    {
        let v = match self.take() {
            Err(e) => return Err(e),
            Ok(v) => v,
        };
        match v {
            Value::VarRef(slot, name) => {
                if slot < self.slots.len() {
                    proof {
                        assert(self@.slots[slot as int] == super::opt_val(self.slots@[slot as int]));
                    }
                    match &self.slots[slot] {
                        Some(x) => {
                            let c = x.copied();
                            self.stack_push(c);
                            Ok(())
                        },
                        None => Err(RuntimeError::UninitializedVariable(name)),
                    }
                } else {
                    Err(RuntimeError::UninitializedVariable(name))
                }
            },
            other => {
                self.stack_push(other);
                Ok(())
            },
        }
    }

    /// 「表示」.
    fn display(&mut self) -> (r: Result<(), RuntimeError>)
        ensures
            (final(self)@, outcome(r)) == display_step(old(self)@),
    {
        let v = match self.take() {
            Err(e) => return Err(e),
            Ok(v) => v,
        };
        let d = self.value_depth();
        let text = self.render(&v, d);
        let ghost before = self.output_log@;
        let ghost held = self.output.lines_written();
        self.output.write_line(text.as_str());
        self.output_log = Ghost(self.output_log@.push(text@));
        proof {
            assert(self.sink_start@ + self.output_log@ =~= (self.sink_start@ + before).push(text@));
            if self.output.keeps_record() {
                assert(self.output.lines_written().drop_last() =~= held);
                assert((self.sink_start@ + self.output_log@).drop_last() =~= self.sink_start@ + before);
            }
        }
        Ok(())
    }

    /// 「空配列」.
    fn empty_array(&mut self) -> (r: Result<(), RuntimeError>)
        ensures
            (final(self)@, outcome(r)) == builtin_step(old(self)@, Builtin::EmptyArray),
    {
        let h = self.arrays.len();
        let ghost a0 = self@.arrays;
        self.arrays.push(Vec::new());
        proof {
            assert(vals(Seq::<Value>::empty()) =~= Seq::<SVal>::empty());
            assert(self@.arrays =~= a0.push(seq![]));
        }
        self.stack_push(Value::Array(h));
        Ok(())
    }

    /// 「追加」.
    fn append(&mut self) -> (r: Result<(), RuntimeError>)
        ensures
            (final(self)@, outcome(r)) == append_step(old(self)@),
    {
        let x = match self.take_concrete() {
            Err(e) => return Err(e),
            Ok(v) => v,
        };
        let h = match self.take_array() {
            Err(e) => return Err(e),
            Ok(h) => h,
        };
        if h >= self.arrays.len() {
            return Err(RuntimeError::TypeMismatch { expected: string_from_str("配列"), found: string_from_str("無効な配列") });
        }
        let ghost a0 = self@.arrays;
        let ghost inner = self.arrays@[h as int]@;
        let ghost xv = x@;
        proof {
            assert(a0[h as int] == vals(inner));
            lemma_vals_push(inner, x);
        }
        self.arrays[h].push(x);
        proof {
            assert(self@.arrays =~= a0.update(h as int, a0[h as int].push(xv)));
        }
        self.stack_push(Value::Array(h));
        Ok(())
    }

    /// Every builtin but the two that read modules.
    pub(crate) fn run_builtin(&mut self, b: Builtin) -> (r: Result<(), RuntimeError>)
        requires
            b != Builtin::Include && b != Builtin::Require,
        ensures
            (final(self)@, outcome(r)) == builtin_step(old(self)@, b),
    {
        match b {
            Builtin::Over | Builtin::Swap | Builtin::Rot | Builtin::Dup | Builtin::Drop => self.shuffle(b),
            Builtin::Add | Builtin::Sub | Builtin::Mul | Builtin::Div | Builtin::Rem | Builtin::Greater | Builtin::Less => self.arithmetic(b),
            Builtin::And | Builtin::Or => self.logic(b),
            Builtin::Equal => self.equal(),
            Builtin::Index => self.index(),
            Builtin::Store => self.store_into(),
            Builtin::Load => self.load(),
            Builtin::Display => self.display(),
            Builtin::NoOp => Ok(()),
            Builtin::EmptyArray => self.empty_array(),
            Builtin::Append => self.append(),
            _ => Err(RuntimeError::Exit),
        }
    }
}

} // verus!
