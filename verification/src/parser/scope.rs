//! Static scope check of variables, a pass separate from parsing.
//!
//! A local word sees the variables of its parent (and the parent's
//! ancestors); sibling local words do not see each other's variables.
//! Since reading and writing a variable are plain word calls in the tree,
//! a word call is a violation when its name is declared somewhere in the
//! same top-level definition tree but not visible where it stands.
use vstd::prelude::*;
use super::ast::{Definition, Expr, Program, SpecDef, SpecExpr, dv, dvs, ev, evs};
use crate::text::{str_eq, string_from_str, push_str};

verus! {

/// A scope violation.
#[derive(Debug, Clone, PartialEq, Eq)]
pub struct ScopeError {
    /// The variable used out of its scope.
    pub variable: String,
    /// The definition where the use stands.
    pub definition_name: String,
    pub message: String,
}

/// Plain-value model of [`ScopeError`].
pub struct SpecScopeError {
    pub variable: Seq<char>,
    pub definition_name: Seq<char>,
    pub message: Seq<char>,
}

impl View for ScopeError {
    type V = SpecScopeError;

    open spec fn view(&self) -> SpecScopeError {
        SpecScopeError {
            variable: self.variable@,
            definition_name: self.definition_name@,
            message: self.message@,
        }
    }
}

impl ScopeError {
    /// The human-readable rendering: `スコープエラー: {message}`.
    pub fn to_message(&self) -> (r: String)
        ensures
            r@ == "スコープエラー: "@ + self.message@,
    {
        let mut s = string_from_str("スコープエラー: ");
        push_str(&mut s, self.message.as_str());
        s
    }
}

pub open spec fn scope_errors_view(v: Seq<ScopeError>) -> Seq<SpecScopeError> {
    v.map_values(|e: ScopeError| e@)
}

/// The message of a violation by `name` inside definition `def_name`.
pub open spec fn scope_message(name: Seq<char>, def_name: Seq<char>) -> Seq<char> {
    "変数「"@ + name + "」は「"@ + def_name + "」の中では見えません（宣言されたスコープの外です）"@
}

/// Every variable declared in a definition tree: its own, then those of
/// each local word in order.
pub open spec fn tree_vars(d: SpecDef) -> Seq<Seq<char>>
    decreases d,
{
    d.variables + tree_vars_all(d.locals).flatten_alt()
}

pub open spec fn tree_vars_all(ds: Seq<SpecDef>) -> Seq<Seq<Seq<char>>>
    decreases ds,
{
    Seq::new(ds.len(), |i: int| if 0 <= i < ds.len() { tree_vars(ds[i]) } else { seq![] })
}

/// The name 「回数」, the implicit counter of a counted loop.
pub open spec fn counter_name() -> Seq<char> {
    "回数"@
}

/// Violations in expression `e` of definition `def_name`: a word call whose
/// name is declared in the tree but not in `visible`.  Inside a counted
/// loop 「回数」 is visible too.
pub open spec fn expr_errors(e: SpecExpr, def_name: Seq<char>, declared: Seq<Seq<char>>, visible: Seq<Seq<char>>) -> Seq<SpecScopeError>
    decreases e,
{
    match e {
        SpecExpr::WordCall(name) => if declared.contains(name) && !visible.contains(name) {
            seq![SpecScopeError { variable: name, definition_name: def_name, message: scope_message(name, def_name) }]
        } else {
            seq![]
        },
        SpecExpr::ValueDecl { init_expr, .. } => exprs_errors(init_expr, def_name, declared, visible).flatten_alt(),
        SpecExpr::Assign { value_expr, .. } => exprs_errors(value_expr, def_name, declared, visible).flatten_alt(),
        SpecExpr::InfiniteLoop { body } => exprs_errors(body, def_name, declared, visible).flatten_alt(),
        SpecExpr::CountedLoop { body } => {
            let inner = if visible.contains(counter_name()) { visible } else { visible.push(counter_name()) };
            exprs_errors(body, def_name, declared, inner).flatten_alt()
        },
        SpecExpr::IfElse { cond, then_branch, else_branch } => exprs_errors(cond, def_name, declared, visible).flatten_alt()
            + exprs_errors(then_branch, def_name, declared, visible).flatten_alt()
            + match else_branch {
                Some(b) => exprs_errors(b, def_name, declared, visible).flatten_alt(),
                None => seq![],
            },
        _ => seq![],
    }
}

pub open spec fn exprs_errors(es: Seq<SpecExpr>, def_name: Seq<char>, declared: Seq<Seq<char>>, visible: Seq<Seq<char>>) -> Seq<Seq<SpecScopeError>>
    decreases es,
{
    Seq::new(es.len(), |i: int| if 0 <= i < es.len() { expr_errors(es[i], def_name, declared, visible) } else { seq![] })
}

/// Violations in definition `d`, whose ancestors declare `ancestors`: those
/// of its body, then those of each local word (which also see `d`'s
/// variables).
pub open spec fn def_errors(d: SpecDef, declared: Seq<Seq<char>>, ancestors: Seq<Seq<char>>) -> Seq<SpecScopeError>
    decreases d,
{
    let visible = ancestors + d.variables;
    exprs_errors(d.body, d.name, declared, visible).flatten_alt()
        + defs_errors(d.locals, declared, visible).flatten_alt()
}

pub open spec fn defs_errors(ds: Seq<SpecDef>, declared: Seq<Seq<char>>, ancestors: Seq<Seq<char>>) -> Seq<Seq<SpecScopeError>>
    decreases ds,
{
    Seq::new(ds.len(), |i: int| if 0 <= i < ds.len() { def_errors(ds[i], declared, ancestors) } else { seq![] })
}

/// Violations of a program: for each top-level definition, those of its
/// tree, checked against the variables declared in that tree.
pub open spec fn program_errors(defs: Seq<SpecDef>) -> Seq<Seq<SpecScopeError>> {
    Seq::new(defs.len(), |i: int| def_errors(defs[i], tree_vars(defs[i]), seq![]))
}

pub open spec fn strs_view(v: Seq<String>) -> Seq<Seq<char>> {
    v.map_values(|s: String| s@)
}

proof fn lemma_flatten_alt_take<A>(s: Seq<Seq<A>>, i: int)
    requires
        0 <= i < s.len(),
    ensures
        s.take(i + 1).flatten_alt() == s.take(i).flatten_alt() + s[i],
{
    assert(s.take(i + 1).drop_last() =~= s.take(i));
}

fn contains_str(v: &Vec<String>, s: &String) -> (r: bool)
    ensures
        r == strs_view(v@).contains(s@),
{
    let mut j: usize = 0;
    while j < v.len()
        invariant
            j <= v@.len(),
            forall|k: int| 0 <= k < j ==> v@[k]@ != s@,
        decreases v@.len() - j,
    {
        if str_eq(v[j].as_str(), s.as_str()) {
            proof {
                assert(strs_view(v@)[j as int] == s@);
            }
            return true;
        }
        j = j + 1;
    }
    proof {
        if strs_view(v@).contains(s@) {
            let k = choose|k: int| 0 <= k < strs_view(v@).len() && strs_view(v@)[k] == s@;
            assert(v@[k]@ == s@);
        }
    }
    false
}

fn extend_strs(out: &mut Vec<String>, v: &Vec<String>)
    ensures
        strs_view(final(out)@) == strs_view(old(out)@) + strs_view(v@),
{
    let ghost o = strs_view(out@);
    let mut j: usize = 0;
    while j < v.len()
        invariant
            j <= v@.len(),
            strs_view(out@) == o + strs_view(v@).take(j as int),
        decreases v@.len() - j,
    {
        let ghost prev = out@;
        let c = v[j].clone();
        out.push(c);
        j = j + 1;
        proof {
            assert(out@ == prev.push(c));
            assert(c@ == v@[j - 1]@);
            assert(strs_view(prev.push(c)) =~= strs_view(prev).push(c@));
            assert(strs_view(v@).take(j as int) =~= strs_view(v@).take(j - 1).push(v@[j - 1]@));
            assert(strs_view(out@) =~= o + strs_view(v@).take(j as int));
        }
    }
    proof {
        assert(strs_view(v@).take(v@.len() as int) =~= strs_view(v@));
    }
}

/// Collects every variable declared in the tree of `def`.
fn collect_variable_names(def: &Definition, out: &mut Vec<String>)
    ensures
        strs_view(final(out)@) == strs_view(old(out)@) + tree_vars(dv(*def)),
    decreases *def,
{
    let ghost o = strs_view(out@);
    extend_strs(out, &def.variables);
    proof {
        assert(strs_view(def.variables@) == dv(*def).variables);
    }
    let ghost all = tree_vars_all(dv(*def).locals);
    let mut i: usize = 0;
    while i < def.locals.len()
        invariant
            i <= def.locals@.len(),
            all == tree_vars_all(dv(*def).locals),
            all.len() == def.locals@.len(),
            strs_view(out@) == o + dv(*def).variables + all.take(i as int).flatten_alt(),
        decreases def.locals@.len() - i,
    {
        proof {
            assert(dv(*def).locals[i as int] == dv(def.locals@[i as int]));
            assert(all[i as int] == tree_vars(dv(def.locals@[i as int])));
            lemma_flatten_alt_take(all, i as int);
        }
        collect_variable_names(&def.locals[i], out);
        i = i + 1;
    }
    proof {
        assert(all.take(def.locals@.len() as int) =~= all);
    }
}

fn scope_error_for(name: &String, def_name: &String) -> (r: ScopeError)
    ensures
        r@ == (SpecScopeError { variable: name@, definition_name: def_name@, message: scope_message(name@, def_name@) }),
{
    let mut m = string_from_str("変数「");
    push_str(&mut m, name.as_str());
    push_str(&mut m, "」は「");
    push_str(&mut m, def_name.as_str());
    push_str(&mut m, "」の中では見えません（宣言されたスコープの外です）");
    ScopeError { variable: name.clone(), definition_name: def_name.clone(), message: m }
}

fn push_error(errors: &mut Vec<ScopeError>, e: ScopeError)
    ensures
        scope_errors_view(final(errors)@) == scope_errors_view(old(errors)@).push(e@),
{
    proof {
        assert(scope_errors_view(errors@.push(e)) =~= scope_errors_view(errors@).push(e@));
    }
    errors.push(e);
}

/// Checks each expression of `exprs` in order.
fn check_exprs(
    exprs: &Vec<Expr>,
    def_name: &String,
    declared: &Vec<String>,
    visible: &Vec<String>,
    errors: &mut Vec<ScopeError>,
)
    ensures
        scope_errors_view(final(errors)@) == scope_errors_view(old(errors)@) + exprs_errors(evs(exprs@), def_name@, strs_view(declared@), strs_view(visible@)).flatten_alt(),
    decreases exprs@,
{
    let ghost all = exprs_errors(evs(exprs@), def_name@, strs_view(declared@), strs_view(visible@));
    let ghost o = scope_errors_view(errors@);
    let mut i: usize = 0;
    proof {
        assert(all.take(0) =~= Seq::<Seq<SpecScopeError>>::empty());
        assert(o + seq![] =~= o);
    }
    while i < exprs.len()
        invariant
            i <= exprs@.len(),
            all == exprs_errors(evs(exprs@), def_name@, strs_view(declared@), strs_view(visible@)),
            all.len() == exprs@.len(),
            scope_errors_view(errors@) == o + all.take(i as int).flatten_alt(),
        decreases exprs@.len() - i,
    {
        proof {
            assert(evs(exprs@)[i as int] == ev(exprs@[i as int]));
            lemma_flatten_alt_take(all, i as int);
        }
        check_expr(&exprs[i], def_name, declared, visible, errors);
        i = i + 1;
    }
    proof {
        assert(all.take(exprs@.len() as int) =~= all);
    }
}

/// Checks one expression of definition `def_name`.
fn check_expr(
    expr: &Expr,
    def_name: &String,
    declared: &Vec<String>,
    visible: &Vec<String>,
    errors: &mut Vec<ScopeError>,
)
    ensures
        scope_errors_view(final(errors)@) == scope_errors_view(old(errors)@) + expr_errors(ev(*expr), def_name@, strs_view(declared@), strs_view(visible@)),
    decreases *expr,
{
    match expr {
        Expr::WordCall(name) => {
            if contains_str(declared, name) && !contains_str(visible, name) {
                push_error(errors, scope_error_for(name, def_name));
                proof {
                    assert(seq![scope_error_for_spec(name@, def_name@)] =~= seq![scope_error_for_spec(name@, def_name@)]);
                }
            } else {
                proof {
                    assert(scope_errors_view(errors@) =~= scope_errors_view(errors@) + Seq::<SpecScopeError>::empty());
                }
            }
        },
        Expr::ValueDecl { init_expr, .. } => {
            check_exprs(init_expr, def_name, declared, visible, errors);
        },
        Expr::Assign { value_expr, .. } => {
            check_exprs(value_expr, def_name, declared, visible, errors);
        },
        Expr::InfiniteLoop { body } => {
            check_exprs(body, def_name, declared, visible, errors);
        },
        Expr::CountedLoop { body } => {
            let counter = string_from_str("回数");
            let mut inner: Vec<String> = visible.clone();
            proof {
                assert(inner@ == visible@);
            }
            if !contains_str(&inner, &counter) {
                proof {
                    assert(strs_view(inner@.push(counter)) =~= strs_view(inner@).push(counter@));
                }
                inner.push(counter);
            }
            check_exprs(body, def_name, declared, &inner, errors);
        },
        Expr::IfElse { cond, then_branch, else_branch } => {
            let ghost o = scope_errors_view(errors@);
            check_exprs(cond, def_name, declared, visible, errors);
            check_exprs(then_branch, def_name, declared, visible, errors);
            match else_branch {
                Some(b) => {
                    check_exprs(b, def_name, declared, visible, errors);
                },
                None => {},
            }
            proof {
                let d = strs_view(declared@);
                let vis = strs_view(visible@);
                assert(scope_errors_view(errors@) =~= o + expr_errors(ev(*expr), def_name@, d, vis));
            }
        },
        _ => {
            proof {
                assert(scope_errors_view(errors@) =~= scope_errors_view(errors@) + Seq::<SpecScopeError>::empty());
            }
        },
    }
}

pub open spec fn scope_error_for_spec(name: Seq<char>, def_name: Seq<char>) -> SpecScopeError {
    SpecScopeError { variable: name, definition_name: def_name, message: scope_message(name, def_name) }
}

/// Checks definition `def` whose ancestors declare `ancestor_variables`.
fn check_definition(
    def: &Definition,
    declared: &Vec<String>,
    ancestor_variables: &Vec<String>,
    errors: &mut Vec<ScopeError>,
)
    ensures
        scope_errors_view(final(errors)@) == scope_errors_view(old(errors)@) + def_errors(dv(*def), strs_view(declared@), strs_view(ancestor_variables@)),
    decreases *def,
{
    let ghost o = scope_errors_view(errors@);
    let mut visible: Vec<String> = ancestor_variables.clone();
    proof {
        assert(visible@ == ancestor_variables@);
    }
    extend_strs(&mut visible, &def.variables);
    proof {
        assert(strs_view(def.variables@) == dv(*def).variables);
    }
    check_exprs(&def.body, &def.name, declared, &visible, errors);
    let ghost mid = scope_errors_view(errors@);
    let ghost all = defs_errors(dv(*def).locals, strs_view(declared@), strs_view(visible@));
    let mut i: usize = 0;
    proof {
        assert(mid + all.take(0).flatten_alt() =~= mid);
    }
    while i < def.locals.len()
        invariant
            i <= def.locals@.len(),
            all == defs_errors(dv(*def).locals, strs_view(declared@), strs_view(visible@)),
            all.len() == def.locals@.len(),
            scope_errors_view(errors@) == mid + all.take(i as int).flatten_alt(),
        decreases def.locals@.len() - i,
    {
        proof {
            assert(dv(*def).locals[i as int] == dv(def.locals@[i as int]));
            lemma_flatten_alt_take(all, i as int);
        }
        check_definition(&def.locals[i], declared, &visible, errors);
        i = i + 1;
    }
    proof {
        assert(all.take(def.locals@.len() as int) =~= all);
    }
}

/// Checks the variable scopes of a whole program (see
/// [`program_errors`]).  `Ok` when there is no violation, otherwise every
/// violation found, in order.
pub fn check_scopes(program: &Program) -> (r: Result<(), Vec<ScopeError>>)
    ensures
        match r {
            Ok(()) => program_errors(dvs(program.definitions@)).flatten_alt().len() == 0,
            Err(v) => scope_errors_view(v@) == program_errors(dvs(program.definitions@)).flatten_alt()
                && v@.len() > 0,
        },
{
    let ghost all = program_errors(dvs(program.definitions@));
    let mut errors: Vec<ScopeError> = Vec::new();
    let mut i: usize = 0;
    proof {
        assert(scope_errors_view(errors@) =~= all.take(0).flatten_alt());
    }
    while i < program.definitions.len()
        invariant
            i <= program.definitions@.len(),
            all == program_errors(dvs(program.definitions@)),
            all.len() == program.definitions@.len(),
            scope_errors_view(errors@) == all.take(i as int).flatten_alt(),
        decreases program.definitions@.len() - i,
    {
        let def = &program.definitions[i];
        let mut declared: Vec<String> = Vec::new();
        collect_variable_names(def, &mut declared);
        proof {
            assert(strs_view(Seq::<String>::empty()) =~= Seq::<Seq<char>>::empty());
            assert(strs_view(declared@) =~= tree_vars(dv(*def)));
            assert(dvs(program.definitions@)[i as int] == dv(*def));
            lemma_flatten_alt_take(all, i as int);
        }
        let ancestors: Vec<String> = Vec::new();
        proof {
            assert(strs_view(ancestors@) =~= Seq::<Seq<char>>::empty());
        }
        check_definition(def, &declared, &ancestors, &mut errors);
        i = i + 1;
    }
    proof {
        assert(all.take(program.definitions@.len() as int) =~= all);
    }
    if errors.len() == 0 {
        Ok(())
    } else {
        Err(errors)
    }
}

} // verus!
