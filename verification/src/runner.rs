//! Processing a whole source text: read it, then register each word
//! definition and run each top-level expression sequence, in order.
use vstd::prelude::*;
use crate::error::{SReport, SUmorError, UmorError};
use crate::interpreter::{ExecutionOutcome, IState, Interpreter, Oracle, agrees, agrees_with_earlier, grows};
use crate::interpreter::semantics::{TopOutcome, failure_trace, full_fuel, render_all, sem_item, sem_item_with, value_depth};
use crate::parser::{
    Definition, Program, SpecDef, SpecItem, TopLevelItem, check_scopes, parse_top_level_item,
};
use crate::parser::ast::{copy_definition, dv, dvs};
use crate::parser::grammar::top_level_item;
use crate::parser::scope::program_errors;
use crate::text::string_from_str;
use crate::tokenizer::{LexError, SpecLexError, SpecToken, toks_view, tokenize};
use crate::tokenizer::scan::spec_tokenize;

verus! {

/// How processing a text ends.
pub enum RunResult {
    /// Normally (`Continue`), or stopped by 「終了」 (`Exit`).
    Done(ExecutionOutcome),
    Failed(SUmorError),
    /// The oracle answered a question of the other kind.
    Unknown,
}

/// The report of run-time error `e` in state `s`.
pub open spec fn report_of(s: IState, e: crate::interpreter::SErr) -> SReport {
    SReport { error: e, trace: failure_trace(s), stack: render_all(s, s.stack, value_depth(s)) }
}

/// The error for a text with more tokens than a slice can index.
pub open spec fn too_long_error() -> SpecLexError {
    SpecLexError { message: "入力が長すぎます"@, line: 1, column: 1 }
}

/// Reads and processes the items of `t` from token `pos` on, one at a
/// time, each expression sequence with budget `fuel`: an item that does not
/// parse stops the run, after the items before it ran.
pub open spec fn sem_run_items_with(s: IState, t: Seq<SpecToken>, pos: int, fuel: nat, o: Oracle) -> (IState, RunResult)
    decreases fuel, 2nat, t.len() - pos,
{
    if pos < 0 || pos >= t.len() {
        (s, RunResult::Done(ExecutionOutcome::Continue))
    } else {
        match top_level_item(t, pos) {
            Err(pe) => (s, RunResult::Failed(SUmorError::Parse(pe))),
            Ok((item, p2)) => {
                let (s1, out) = sem_item_with(s, item, fuel, o);
                match out {
                    TopOutcome::Continue => if pos < p2 <= t.len() {
                        sem_run_items_with(s1, t, p2, fuel, o)
                    } else {
                        (s1, RunResult::Done(ExecutionOutcome::Continue))
                    },
                    TopOutcome::Exit => (s1, RunResult::Done(ExecutionOutcome::Exit)),
                    TopOutcome::Failed(e) => (s1, RunResult::Failed(SUmorError::Runtime(report_of(s1, e)))),
                    TopOutcome::Unknown => (s1, RunResult::Unknown),
                }
            },
        }
    }
}

/// Reads and processes the items of `t` from token `pos` on, each with a
/// full budget (see [`sem_run_items_with`]).
pub open spec fn sem_run_items(s: IState, t: Seq<SpecToken>, pos: int, o: Oracle) -> (IState, RunResult) {
    sem_run_items_with(s, t, pos, full_fuel(), o)
}

/// Running the text of a module with budget `fuel`: as a source text,
/// with the budget spent by one step before its items run.
pub open spec fn sem_module_text(s: IState, src: Seq<char>, fuel: nat, o: Oracle) -> (IState, RunResult)
    decreases fuel, 3nat, 0nat,
{
    if src.len() >= usize::MAX {
        (s, RunResult::Failed(SUmorError::Lex(too_long_error())))
    } else {
        match spec_tokenize(src) {
            Err(le) => (s, RunResult::Failed(SUmorError::Lex(le))),
            Ok(t) => if t.len() > isize::MAX {
                (s, RunResult::Failed(SUmorError::Lex(too_long_error())))
            } else if fuel == 0 {
                (s, RunResult::Failed(SUmorError::Runtime(report_of(s, crate::interpreter::SErr::StepLimitExceeded))))
            } else {
                sem_run_items_with(s, t, 0, (fuel - 1) as nat, o)
            },
        }
    }
}

/// Processing a source text item by item (see [`sem_run_items`]).
pub open spec fn sem_run_source(s: IState, src: Seq<char>, o: Oracle) -> (IState, RunResult) {
    match spec_tokenize(src) {
        Err(le) => (s, RunResult::Failed(SUmorError::Lex(le))),
        Ok(t) => if t.len() > isize::MAX {
            (s, RunResult::Failed(SUmorError::Lex(too_long_error())))
        } else {
            sem_run_items(s, t, 0, o)
        },
    }
}

/// Every item of `t` from token `pos` on, or the first syntax error.
pub open spec fn parse_all(t: Seq<SpecToken>, pos: int) -> Result<Seq<SpecItem>, crate::parser::SpecParseError>
    decreases t.len() - pos,
{
    if pos < 0 || pos >= t.len() {
        Ok(seq![])
    } else {
        match top_level_item(t, pos) {
            Err(e) => Err(e),
            Ok((item, p2)) => if pos < p2 <= t.len() {
                match parse_all(t, p2) {
                    Ok(rest) => Ok(seq![item] + rest),
                    Err(e) => Err(e),
                }
            } else {
                Ok(seq![item])
            },
        }
    }
}

/// The definitions among `items`, in order.
pub open spec fn item_defs(items: Seq<SpecItem>) -> Seq<SpecDef>
    decreases items.len(),
{
    if items.len() == 0 {
        seq![]
    } else {
        item_defs(items.drop_last()) + match items.last() {
            SpecItem::Definition(d) => seq![d],
            SpecItem::Expr(_) => seq![],
        }
    }
}

/// Processing parsed items in order.
pub open spec fn sem_items(s: IState, items: Seq<SpecItem>, o: Oracle) -> (IState, RunResult)
    decreases items.len(),
{
    if items.len() == 0 {
        (s, RunResult::Done(ExecutionOutcome::Continue))
    } else {
        let (s1, out) = sem_item(s, items[0], o);
        match out {
            TopOutcome::Continue => sem_items(s1, items.drop_first(), o),
            TopOutcome::Exit => (s1, RunResult::Done(ExecutionOutcome::Exit)),
            TopOutcome::Failed(e) => (s1, RunResult::Failed(SUmorError::Runtime(report_of(s1, e)))),
            TopOutcome::Unknown => (s1, RunResult::Unknown),
        }
    }
}

/// Processing a file: the whole text is read first; when its definitions
/// have scope violations nothing runs and they are all reported;
/// otherwise its items run in order.
pub open spec fn sem_run_file(s: IState, src: Seq<char>, o: Oracle) -> (IState, RunResult) {
    match spec_tokenize(src) {
        Err(le) => (s, RunResult::Failed(SUmorError::Lex(le))),
        Ok(t) => if t.len() > isize::MAX {
            (s, RunResult::Failed(SUmorError::Lex(too_long_error())))
        } else {
            match parse_all(t, 0) {
                Err(pe) => (s, RunResult::Failed(SUmorError::Parse(pe))),
                Ok(items) => {
                    let errs = program_errors(item_defs(items)).flatten_alt();
                    if errs.len() > 0 {
                        (s, RunResult::Failed(SUmorError::Scope(errs)))
                    } else {
                        sem_items(s, items, o)
                    }
                },
            }
        },
    }
}

/// An exact match between a run and its model (`Unknown`, an oracle that
/// answered a question of the other kind, claims nothing).
pub open spec fn run_follows(st: IState, r: Result<ExecutionOutcome, UmorError>, m: (IState, RunResult)) -> bool {
    m.1 is Unknown || (st == m.0 && match (r, m.1) {
        (Ok(o), RunResult::Done(p)) => o == p,
        (Err(e), RunResult::Failed(se)) => e@ == se,
        _ => false,
    })
}

/// A file whose definitions break the scope rules runs nothing: the
/// interpreter is left as it was and every violation is reported.
pub proof fn scope_violations_run_nothing(s: IState, src: Seq<char>, t: Seq<SpecToken>, items: Seq<SpecItem>, o: Oracle)
    requires
        spec_tokenize(src) == Ok::<Seq<SpecToken>, SpecLexError>(t),
        t.len() <= isize::MAX,
        parse_all(t, 0) == Ok::<Seq<SpecItem>, crate::parser::SpecParseError>(items),
        program_errors(item_defs(items)).flatten_alt().len() > 0,
    ensures
        sem_run_file(s, src, o) == (s, RunResult::Failed(SUmorError::Scope(program_errors(item_defs(items)).flatten_alt()))),
{
}

/// Processing items read one at a time is processing the items read all
/// at once, when every item reads.
proof fn lemma_items_read_alike(s: IState, t: Seq<SpecToken>, pos: int, o: Oracle)
    requires
        parse_all(t, pos) is Ok,
    ensures
        sem_run_items(s, t, pos, o) == sem_items(s, parse_all(t, pos)->Ok_0, o),
    decreases t.len() - pos,
{
    if !(0 <= pos < t.len()) {
        assert(parse_all(t, pos)->Ok_0 == Seq::<SpecItem>::empty());
    } else {
        match top_level_item(t, pos) {
            Ok((item, p2)) => {
                let items = parse_all(t, pos)->Ok_0;
                if pos < p2 <= t.len() {
                    let rest = parse_all(t, p2)->Ok_0;
                    assert(items == seq![item] + rest);
                    assert(items[0] == item);
                    assert(items.drop_first() =~= rest);
                    let (s1, out) = sem_item(s, item, o);
                    if out is Continue {
                        lemma_items_read_alike(s1, t, p2, o);
                        assert(sem_run_items(s, t, pos, o) == sem_run_items(s1, t, p2, o));
                        assert(sem_items(s, items, o) == sem_items(s1, rest, o));
                    }
                } else {
                    assert(items == seq![item]);
                    assert(items.drop_first() =~= Seq::<SpecItem>::empty());
                    assert(sem_items(sem_item(s, item, o).0, Seq::<SpecItem>::empty(), o) == (sem_item(s, item, o).0, RunResult::Done(ExecutionOutcome::Continue)));
                }
            },
            Err(_) => {},
        }
    }
}

/// A file whose text reads and whose definitions keep to the scope rules
/// runs as [`run_source`] runs it.
pub proof fn checked_files_run_like_sources(s: IState, src: Seq<char>, t: Seq<SpecToken>, items: Seq<SpecItem>, o: Oracle)
    requires
        spec_tokenize(src) == Ok::<Seq<SpecToken>, SpecLexError>(t),
        t.len() <= isize::MAX,
        parse_all(t, 0) == Ok::<Seq<SpecItem>, crate::parser::SpecParseError>(items),
        program_errors(item_defs(items)).flatten_alt().len() == 0,
    ensures
        sem_run_file(s, src, o) == sem_run_source(s, src, o),
{
    lemma_items_read_alike(s, t, 0, o);
}

/// 「終了」 stops processing normally: the items after the one that ran it
/// are not processed.
pub proof fn exit_stops_the_run(s: IState, items: Seq<SpecItem>, o: Oracle)
    requires
        items.len() > 0,
        sem_item(s, items[0], o).1 == TopOutcome::Exit,
    ensures
        sem_items(s, items, o) == (sem_item(s, items[0], o).0, RunResult::Done(ExecutionOutcome::Exit)),
{
}

/// A run-time error stops processing: it is reported with the words being
/// run and the stack at that point, and the items after it are not
/// processed.
pub proof fn errors_stop_the_run(s: IState, items: Seq<SpecItem>, e: crate::interpreter::SErr, o: Oracle)
    requires
        items.len() > 0,
        sem_item(s, items[0], o).1 == TopOutcome::Failed(e),
    ensures
        sem_items(s, items, o) == (sem_item(s, items[0], o).0, RunResult::Failed(SUmorError::Runtime(report_of(sem_item(s, items[0], o).0, e)))),
{
}

pub(crate) fn too_long() -> (r: LexError)
    ensures
        r@ == too_long_error(),
{
    LexError { message: string_from_str("入力が長すぎます"), line: 1, column: 1 }
}

/// Processes one parsed item, reporting a run-time error with its context.
fn process_reported(interp: &mut Interpreter, item: &TopLevelItem) -> (r: Result<ExecutionOutcome, UmorError>)
    ensures
        grows(old(interp)@.outside, final(interp)@.outside),
        forall|o: Oracle| #[trigger] agrees(o, final(interp)@.outside) ==> ({
            let (s1, out) = sem_item(old(interp)@, item@, o);
            out is Unknown || (final(interp)@ == s1 && match (r, out) {
                (Ok(ExecutionOutcome::Continue), TopOutcome::Continue) => true,
                (Ok(ExecutionOutcome::Exit), TopOutcome::Exit) => true,
                (Err(e), TopOutcome::Failed(se)) => e@ == SUmorError::Runtime(report_of(s1, se)),
                _ => false,
            })
        }),
{
    match interp.process_top_level_item(item) {
        Ok(o) => Ok(o),
        Err(e) => {
            let rep = interp.report(e);
            Err(UmorError::Runtime(rep))
        },
    }
}

/// Processes `src` from the start, one top-level item at a time: a word
/// definition is registered, an expression sequence is run at once.  The
/// first error stops the run (the items before it have run); 「終了」 stops
/// it normally with `Exit`.  No scope check is made (see
/// [`run_file_source`]).
pub fn run_source(interp: &mut Interpreter, src: &str) -> (r: Result<ExecutionOutcome, UmorError>)
    requires
        src@.len() < usize::MAX,
    ensures
        grows(old(interp)@.outside, final(interp)@.outside),
        forall|o: Oracle| #[trigger] agrees(o, final(interp)@.outside)
            ==> run_follows(final(interp)@, r, sem_run_source(old(interp)@, src@, o)),
{
    let tokens = match tokenize(src) {
        Ok(t) => t,
        Err(e) => return Err(UmorError::Lex(e)),
    };
    if tokens.len() > isize::MAX as usize {
        return Err(UmorError::Lex(too_long()));
    }
    let ghost t = toks_view(tokens@);
    let ghost st = interp@;
    let mut pos: usize = 0;
    while pos < tokens.len()
        invariant
            pos <= tokens@.len(),
            tokens@.len() <= isize::MAX,
            t == toks_view(tokens@),
            t.len() == tokens@.len(),
            st == old(interp)@,
            forall|o: Oracle| sem_run_source(st, src@, o) == #[trigger] sem_run_items(st, t, 0, o),
            grows(st.outside, interp@.outside),
            forall|o: Oracle| #[trigger] agrees(o, interp@.outside) ==> (sem_run_source(st, src@, o).1 is Unknown
                || sem_run_source(st, src@, o) == sem_run_items(interp@, t, pos as int, o)),
        decreases tokens@.len() - pos,
    {
        let ghost p0 = pos as int;
        let ghost s0 = interp@;
        let item = match parse_top_level_item(&tokens, &mut pos) {
            Ok(item) => item,
            Err(e) => return Err(UmorError::Parse(e)),
        };
        let r = process_reported(interp, &item);
        proof {
            assert forall|o: Oracle| #[trigger] agrees(o, interp@.outside) implies agrees(o, s0.outside) by {
                agrees_with_earlier(o, s0.outside, interp@.outside);
            }
        }
        match r {
            Ok(ExecutionOutcome::Continue) => {},
            Ok(ExecutionOutcome::Exit) => return Ok(ExecutionOutcome::Exit),
            Err(e) => return Err(e),
        }
    }
    Ok(ExecutionOutcome::Continue)
}

/// Processes a whole file (see [`sem_run_file`]): the text is read first;
/// when the scope check of its definitions finds violations, nothing runs
/// and they are all returned; otherwise the items run in order, as
/// [`run_source`] runs them.
pub fn run_file_source(interp: &mut Interpreter, src: &str) -> (r: Result<ExecutionOutcome, UmorError>)
    requires
        src@.len() < usize::MAX,
    ensures
        grows(old(interp)@.outside, final(interp)@.outside),
        forall|o: Oracle| #[trigger] agrees(o, final(interp)@.outside)
            ==> run_follows(final(interp)@, r, sem_run_file(old(interp)@, src@, o)),
{
    let tokens = match tokenize(src) {
        Ok(t) => t,
        Err(e) => return Err(UmorError::Lex(e)),
    };
    if tokens.len() > isize::MAX as usize {
        return Err(UmorError::Lex(too_long()));
    }
    let ghost t = toks_view(tokens@);
    let mut items: Vec<TopLevelItem> = Vec::new();
    let mut pos: usize = 0;
    proof {
        assert(items@.map_values(|x: TopLevelItem| x@) =~= Seq::<SpecItem>::empty());
    }
    while pos < tokens.len()
        invariant
            pos <= tokens@.len(),
            tokens@.len() <= isize::MAX,
            t == toks_view(tokens@),
            t.len() == tokens@.len(),
            spec_tokenize(src@) == Ok::<Seq<SpecToken>, SpecLexError>(t),
            interp@ == old(interp)@,
            parse_all(t, 0) == match parse_all(t, pos as int) {
                Ok(rest) => Ok(items@.map_values(|x: TopLevelItem| x@) + rest),
                Err(e) => Err(e),
            },
        decreases tokens@.len() - pos,
    {
        let ghost p0 = pos as int;
        let item = match parse_top_level_item(&tokens, &mut pos) {
            Ok(item) => item,
            Err(e) => {
                proof {
                    assert(parse_all(t, p0) == Err::<Seq<SpecItem>, crate::parser::SpecParseError>(e@));
                }
                return Err(UmorError::Parse(e));
            },
        };
        let ghost iv = items@.map_values(|x: TopLevelItem| x@);
        items.push(item);
        proof {
            assert(items@.map_values(|x: TopLevelItem| x@) =~= iv.push(item@));
            match parse_all(t, pos as int) {
                Ok(rest) => {
                    assert(iv + (seq![item@] + rest) =~= iv.push(item@) + rest);
                },
                Err(e) => {},
            }
        }
    }
    let ghost its = items@.map_values(|x: TopLevelItem| x@);
    proof {
        assert(its + Seq::<SpecItem>::empty() =~= its);
        assert(parse_all(t, 0) == Ok::<Seq<SpecItem>, crate::parser::SpecParseError>(its));
    }
    let mut definitions: Vec<Definition> = Vec::new();
    let mut i: usize = 0;
    proof {
        assert(its.take(0) =~= Seq::<SpecItem>::empty());
        assert(dvs(definitions@) =~= Seq::<SpecDef>::empty());
    }
    while i < items.len()
        invariant
            i <= items@.len(),
            its == items@.map_values(|x: TopLevelItem| x@),
            dvs(definitions@) == item_defs(its.take(i as int)),
            interp@ == old(interp)@,
        decreases items@.len() - i,
    {
        let ghost d0 = dvs(definitions@);
        proof {
            let tk = its.take(i as int + 1);
            assert(tk.drop_last() =~= its.take(i as int));
            assert(tk.last() == items@[i as int]@);
        }
        match &items[i] {
            TopLevelItem::Definition(d) => {
                let c = copy_definition(d);
                definitions.push(c);
                proof {
                    assert(dvs(definitions@) =~= d0.push(dv(c)));
                    assert(d0 + seq![dv(*d)] =~= d0.push(dv(*d)));
                }
            },
            TopLevelItem::Expr(_) => {
                proof {
                    assert(d0 + Seq::<SpecDef>::empty() =~= d0);
                }
            },
        }
        i = i + 1;
    }
    proof {
        assert(its.take(items@.len() as int) =~= its);
    }
    let program = Program { definitions };
    match check_scopes(&program) {
        Err(errors) => return Err(UmorError::Scope(errors)),
        Ok(()) => {},
    }
    let ghost st = interp@;
    proof {
        assert(dvs(program.definitions@) == item_defs(its));
        assert forall|o: Oracle| sem_items(st, its, o) == #[trigger] sem_run_file(old(interp)@, src@, o) by {}
    }
    let mut k: usize = 0;
    proof {
        assert(its.skip(0) =~= its);
    }
    while k < items.len()
        invariant
            k <= items@.len(),
            its == items@.map_values(|x: TopLevelItem| x@),
            st == old(interp)@,
            forall|o: Oracle| sem_items(st, its, o) == #[trigger] sem_run_file(st, src@, o),
            grows(st.outside, interp@.outside),
            forall|o: Oracle| #[trigger] agrees(o, interp@.outside) ==> (sem_items(st, its, o).1 is Unknown
                || sem_items(st, its, o) == sem_items(interp@, its.skip(k as int), o)),
        decreases items@.len() - k,
    {
        proof {
            assert(its.skip(k as int)[0] == items@[k as int]@);
            assert(its.skip(k as int).drop_first() =~= its.skip(k as int + 1));
        }
        let ghost s0 = interp@;
        let r = process_reported(interp, &items[k]);
        proof {
            assert forall|o: Oracle| #[trigger] agrees(o, interp@.outside) implies agrees(o, s0.outside) by {
                agrees_with_earlier(o, s0.outside, interp@.outside);
            }
        }
        match r {
            Ok(ExecutionOutcome::Continue) => {},
            Ok(ExecutionOutcome::Exit) => return Ok(ExecutionOutcome::Exit),
            Err(e) => return Err(e),
        }
        k = k + 1;
    }
    proof {
        assert(its.skip(k as int).len() == 0);
    }
    Ok(ExecutionOutcome::Continue)
}

} // verus!
