//! The abstract syntax tree built by the parser, with its plain-value model.
use vstd::prelude::*;

verus! {

/// A whole program: the top-level word definitions.
#[derive(Debug, PartialEq, Eq)]
pub struct Program {
    pub definitions: Vec<Definition>,
}

/// A word definition (top level, or a local word inside one).
#[derive(Debug, PartialEq, Eq)]
pub struct Definition {
    pub name: String,
    /// Local words (defined before the body).
    pub locals: Vec<Definition>,
    /// Variables shared by this definition and its local words.
    pub variables: Vec<String>,
    /// The body (after 「本体とは」, or the whole definition when it has no
    /// local words).
    pub body: Vec<Expr>,
}

/// A top-level item: a word definition (only registered) or a sequence of
/// expressions closed by 「。」 (run at once).
#[derive(Debug, PartialEq, Eq)]
pub enum TopLevelItem {
    Definition(Definition),
    Expr(Vec<Expr>),
}

/// An expression of a body.
#[derive(Debug, PartialEq, Eq)]
pub enum Expr {
    /// A word call; reading and writing variables are word calls too.
    WordCall(String),
    /// A top-level variable declaration `Xは 変数`.
    VariableDecl(String),
    /// A top-level alias declaration `〈新語〉も 〈既存語〉の 別名`.
    AliasDecl { new_name: String, existing_name: String },
    /// `Xは 可変値で 〈式〉が 初期値` / `Xは 定数値で 〈式〉が 初期値`: the
    /// initial expression is evaluated when the declaration is reached.
    ValueDecl { name: String, is_constant: bool, init_expr: Vec<Expr> },
    /// `〈値の式〉 〈対象名〉 代入`.  The value expression stays in the body
    /// before this node, so `value_expr` is always empty.
    Assign { name: String, value_expr: Vec<Expr> },
    /// A number literal.
    NumberLiteral(i64),
    /// A string literal.
    StringLiteral(String),
    /// `〈条件〉 ならば 〈then〉 [そうでなければ 〈else〉] つぎに`.
    IfElse { cond: Vec<Expr>, then_branch: Vec<Expr>, else_branch: Option<Vec<Expr>> },
    /// 「再帰」: a call of the definition being run (the local word itself
    /// inside a local word), without dictionary lookup.
    SelfRecurse,
    /// `ここから ... 繰り返し`.
    InfiniteLoop { body: Vec<Expr> },
    /// `〈回数〉 回数指定し ... 繰り返す`.
    CountedLoop { body: Vec<Expr> },
    /// 「打ち切り」: leaves the innermost loop.
    Break,
}

/// Plain-value model of [`Expr`].
pub enum SpecExpr {
    WordCall(Seq<char>),
    VariableDecl(Seq<char>),
    AliasDecl { new_name: Seq<char>, existing_name: Seq<char> },
    ValueDecl { name: Seq<char>, is_constant: bool, init_expr: Seq<SpecExpr> },
    Assign { name: Seq<char>, value_expr: Seq<SpecExpr> },
    NumberLiteral(i64),
    StringLiteral(Seq<char>),
    IfElse { cond: Seq<SpecExpr>, then_branch: Seq<SpecExpr>, else_branch: Option<Seq<SpecExpr>> },
    SelfRecurse,
    InfiniteLoop { body: Seq<SpecExpr> },
    CountedLoop { body: Seq<SpecExpr> },
    Break,
}

/// Plain-value model of [`Definition`].
pub struct SpecDef {
    pub name: Seq<char>,
    pub locals: Seq<SpecDef>,
    pub variables: Seq<Seq<char>>,
    pub body: Seq<SpecExpr>,
}

/// Plain-value model of [`TopLevelItem`].
pub enum SpecItem {
    Definition(SpecDef),
    Expr(Seq<SpecExpr>),
}

pub open spec fn ev(e: Expr) -> SpecExpr
    decreases e,
{
    match e {
        Expr::WordCall(s) => SpecExpr::WordCall(s@),
        Expr::VariableDecl(s) => SpecExpr::VariableDecl(s@),
        Expr::AliasDecl { new_name, existing_name } => SpecExpr::AliasDecl {
            new_name: new_name@,
            existing_name: existing_name@,
        },
        Expr::ValueDecl { name, is_constant, init_expr } => SpecExpr::ValueDecl {
            name: name@,
            is_constant,
            init_expr: evs(init_expr@),
        },
        Expr::Assign { name, value_expr } => SpecExpr::Assign {
            name: name@,
            value_expr: evs(value_expr@),
        },
        Expr::NumberLiteral(n) => SpecExpr::NumberLiteral(n),
        Expr::StringLiteral(s) => SpecExpr::StringLiteral(s@),
        Expr::IfElse { cond, then_branch, else_branch } => SpecExpr::IfElse {
            cond: evs(cond@),
            then_branch: evs(then_branch@),
            else_branch: match else_branch {
                Some(v) => Some(evs(v@)),
                None => None,
            },
        },
        Expr::SelfRecurse => SpecExpr::SelfRecurse,
        Expr::InfiniteLoop { body } => SpecExpr::InfiniteLoop { body: evs(body@) },
        Expr::CountedLoop { body } => SpecExpr::CountedLoop { body: evs(body@) },
        Expr::Break => SpecExpr::Break,
    }
}

/// The models of a sequence of expressions.
pub open spec fn evs(v: Seq<Expr>) -> Seq<SpecExpr>
    decreases v,
{
    Seq::new(v.len(), |i: int| if 0 <= i < v.len() { ev(v[i]) } else { SpecExpr::Break })
}

pub open spec fn dv(d: Definition) -> SpecDef
    decreases d,
{
    SpecDef {
        name: d.name@,
        locals: dvs(d.locals@),
        variables: d.variables@.map_values(|s: String| s@),
        body: evs(d.body@),
    }
}

/// The models of a sequence of definitions.
pub open spec fn dvs(v: Seq<Definition>) -> Seq<SpecDef>
    decreases v,
{
    Seq::new(
        v.len(),
        |i: int|
            if 0 <= i < v.len() {
                dv(v[i])
            } else {
                SpecDef { name: seq![], locals: seq![], variables: seq![], body: seq![] }
            },
    )
}

impl View for Expr {
    type V = SpecExpr;

    open spec fn view(&self) -> SpecExpr {
        ev(*self)
    }
}

impl View for Definition {
    type V = SpecDef;

    open spec fn view(&self) -> SpecDef {
        dv(*self)
    }
}

impl View for TopLevelItem {
    type V = SpecItem;

    open spec fn view(&self) -> SpecItem {
        match self {
            TopLevelItem::Definition(d) => SpecItem::Definition(dv(*d)),
            TopLevelItem::Expr(v) => SpecItem::Expr(evs(v@)),
        }
    }
}

pub proof fn lemma_evs_push(v: Seq<Expr>, e: Expr)
    ensures
        evs(v.push(e)) == evs(v).push(ev(e)),
{
    assert(evs(v.push(e)) =~= evs(v).push(ev(e)));
}

pub proof fn lemma_evs_drop_last(v: Seq<Expr>)
    requires
        v.len() > 0,
    ensures
        evs(v.drop_last()) == evs(v).drop_last(),
        evs(v).last() == ev(v.last()),
{
    assert(evs(v.drop_last()) =~= evs(v).drop_last());
}

pub proof fn lemma_evs_empty()
    ensures
        evs(Seq::<Expr>::empty()) == Seq::<SpecExpr>::empty(),
{
    assert(evs(Seq::<Expr>::empty()) =~= Seq::<SpecExpr>::empty());
}

pub proof fn lemma_dvs_push(v: Seq<Definition>, d: Definition)
    ensures
        dvs(v.push(d)) == dvs(v).push(dv(d)),
{
    assert(dvs(v.push(d)) =~= dvs(v).push(dv(d)));
}

fn copy_string(s: &String) -> (r: String)
    ensures
        r@ == s@,
{
    crate::text::string_from_str(s.as_str())
}

fn copy_strings(v: &Vec<String>) -> (r: Vec<String>)
    ensures
        r@.map_values(|x: String| x@) == v@.map_values(|x: String| x@),
{
    let mut r: Vec<String> = Vec::new();
    let mut i: usize = 0;
    while i < v.len()
        invariant
            i <= v@.len(),
            r@.map_values(|x: String| x@) == v@.map_values(|x: String| x@).take(i as int),
        decreases v@.len() - i,
    {
        let c = copy_string(&v[i]);
        let ghost r0 = r@;
        r.push(c);
        i = i + 1;
        proof {
            assert(r@ == r0.push(c));
            assert(c@ == v@[i - 1]@);
            assert(r@.map_values(|x: String| x@) =~= r0.map_values(|x: String| x@).push(c@));
            assert(r@.map_values(|x: String| x@) =~= v@.map_values(|x: String| x@).take(i as int));
        }
    }
    proof {
        assert(v@.map_values(|x: String| x@).take(v@.len() as int) =~= v@.map_values(|x: String| x@));
    }
    r
}

/// A copy of a sequence of expressions.
pub fn copy_exprs(v: &Vec<Expr>) -> (r: Vec<Expr>)
    ensures
        evs(r@) == evs(v@),
    decreases v@,
{
    let mut r: Vec<Expr> = Vec::new();
    let mut i: usize = 0;
    proof {
        lemma_evs_empty();
        assert(evs(v@).take(0) =~= Seq::<SpecExpr>::empty());
    }
    while i < v.len()
        invariant
            i <= v@.len(),
            evs(r@) == evs(v@).take(i as int),
        decreases v@.len() - i,
    {
        let c = copy_expr(&v[i]);
        proof {
            lemma_evs_push(r@, c);
            assert(evs(v@)[i as int] == ev(v@[i as int]));
            assert(evs(v@).take(i as int + 1) =~= evs(v@).take(i as int).push(ev(v@[i as int])));
        }
        r.push(c);
        i = i + 1;
    }
    proof {
        assert(evs(v@).take(v@.len() as int) =~= evs(v@));
    }
    r
}

/// A copy of an expression.
pub fn copy_expr(e: &Expr) -> (r: Expr)
    ensures
        ev(r) == ev(*e),
    decreases *e,
{
    match e {
        Expr::WordCall(s) => Expr::WordCall(copy_string(s)),
        Expr::VariableDecl(s) => Expr::VariableDecl(copy_string(s)),
        Expr::AliasDecl { new_name, existing_name } => Expr::AliasDecl {
            new_name: copy_string(new_name),
            existing_name: copy_string(existing_name),
        },
        Expr::ValueDecl { name, is_constant, init_expr } => Expr::ValueDecl {
            name: copy_string(name),
            is_constant: *is_constant,
            init_expr: copy_exprs(init_expr),
        },
        Expr::Assign { name, value_expr } => Expr::Assign { name: copy_string(name), value_expr: copy_exprs(value_expr) },
        Expr::NumberLiteral(n) => Expr::NumberLiteral(*n),
        Expr::StringLiteral(s) => Expr::StringLiteral(copy_string(s)),
        Expr::IfElse { cond, then_branch, else_branch } => Expr::IfElse {
            cond: copy_exprs(cond),
            then_branch: copy_exprs(then_branch),
            else_branch: match else_branch {
                Some(b) => Some(copy_exprs(b)),
                None => None,
            },
        },
        Expr::SelfRecurse => Expr::SelfRecurse,
        Expr::InfiniteLoop { body } => Expr::InfiniteLoop { body: copy_exprs(body) },
        Expr::CountedLoop { body } => Expr::CountedLoop { body: copy_exprs(body) },
        Expr::Break => Expr::Break,
    }
}

/// A copy of a definition.
pub fn copy_definition(d: &Definition) -> (r: Definition)
    ensures
        dv(r) == dv(*d),
    decreases *d,
{
    let mut locals: Vec<Definition> = Vec::new();
    let mut i: usize = 0;
    proof {
        assert(dvs(locals@) =~= dvs(d.locals@).take(0));
    }
    while i < d.locals.len()
        invariant
            i <= d.locals@.len(),
            dvs(locals@) == dvs(d.locals@).take(i as int),
        decreases d.locals@.len() - i,
    {
        let c = copy_definition(&d.locals[i]);
        proof {
            lemma_dvs_push(locals@, c);
            assert(dvs(d.locals@)[i as int] == dv(d.locals@[i as int]));
            assert(dvs(d.locals@).take(i as int + 1) =~= dvs(d.locals@).take(i as int).push(dv(d.locals@[i as int])));
        }
        locals.push(c);
        i = i + 1;
    }
    proof {
        assert(dvs(d.locals@).take(d.locals@.len() as int) =~= dvs(d.locals@));
    }
    let r = Definition {
        name: copy_string(&d.name),
        locals,
        variables: copy_strings(&d.variables),
        body: copy_exprs(&d.body),
    };
    proof {
        assert(dv(r).locals == dv(*d).locals);
        assert(dv(r).variables == dv(*d).variables);
    }
    r
}

} // verus!
