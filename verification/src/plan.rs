//! Compilation of parsed plan steps into an engine program.
//!
//! The compiler walks the steps in order and decides everything that does
//! not need the engine: which source the table comes from, which filter,
//! projection and sort operations apply to it (steps before any load are
//! silent no-ops, a later load discards them), the recorded grouping key,
//! and the accumulated aggregate list. The grouped-and-aggregated table is
//! materialized once, at the end, from the last grouping key and the full
//! aggregate list; aggregates without any grouping key aggregate the whole
//! table. A plan that never loads a source compiles to `NoTableBuilt`.

use crate::exprs::{spec_parse_agg, spec_parse_filter, AggSpec, AggView, PredView, Predicate};
use crate::exprs::{parse_agg, parse_filter};
use crate::parser::{QueryPlan, StepView};
use vstd::prelude::*;

verus! {

/// One operation on a loaded table, in application order.
#[derive(Debug, PartialEq, Eq, Clone)]
pub enum TableOp {
    FilterOp(Predicate),
    SelectOp(Vec<String>),
    SortOp(String),
}

pub enum TableOpView {
    FilterV(PredView),
    SelectV(Seq<Seq<char>>),
    SortV(Seq<char>),
}

impl View for TableOp {
    type V = TableOpView;

    open spec fn view(&self) -> TableOpView {
        match self {
            TableOp::FilterOp(p) => TableOpView::FilterV(p@),
            TableOp::SelectOp(cs) => TableOpView::SelectV(cs@.map_values(|c: String| c@)),
            TableOp::SortOp(c) => TableOpView::SortV(c@),
        }
    }
}

/// How the result table is materialized after the table operations ran.
#[derive(Debug, PartialEq, Eq, Clone)]
pub enum Finish {
    /// No grouping and no aggregates: the table as it stands.
    Collect,
    /// Group by the key, then apply the aggregate list (possibly empty:
    /// distinct keys only).
    GroupAgg(String, Vec<AggSpec>),
    /// Aggregates without any grouping key: one row for the whole table.
    WholeAgg(Vec<AggSpec>),
}

pub enum FinishView {
    CollectV,
    GroupAggV(Seq<char>, Seq<AggView>),
    WholeAggV(Seq<AggView>),
}

impl View for Finish {
    type V = FinishView;

    open spec fn view(&self) -> FinishView {
        match self {
            Finish::Collect => FinishView::CollectV,
            Finish::GroupAgg(k, aggs) => FinishView::GroupAggV(
                k@,
                aggs@.map_values(|a: AggSpec| a@),
            ),
            Finish::WholeAgg(aggs) => FinishView::WholeAggV(aggs@.map_values(|a: AggSpec| a@)),
        }
    }
}

/// A compiled plan: everything the engine needs, in engine terms.
#[derive(Debug, PartialEq, Eq, Clone)]
pub struct EngineProgram {
    pub source: String,
    pub ops: Vec<TableOp>,
    pub finish: Finish,
}

pub struct ProgramView {
    pub source: Seq<char>,
    pub ops: Seq<TableOpView>,
    pub finish: FinishView,
}

impl View for EngineProgram {
    type V = ProgramView;

    open spec fn view(&self) -> ProgramView {
        ProgramView {
            source: self.source@,
            ops: self.ops@.map_values(|o: TableOp| o@),
            finish: self.finish@,
        }
    }
}

/// Why a plan cannot be compiled or run.
#[derive(Debug, PartialEq, Eq, Clone, Copy, Structural)]
pub enum ExecError {
    /// A filter expression matched no supported predicate form.
    UnsupportedFilter,
    /// An aggregate expression matched no supported aggregate form.
    UnsupportedAgg,
    /// The plan never materialized a table.
    NoTableBuilt,
}

impl ExecError {
    /// A human-readable message, as the engine adapter reports it.
    pub fn message(&self) -> (r: &'static str)
        ensures
            r@ == match self {
                ExecError::UnsupportedFilter => "unsupported filter"@,
                ExecError::UnsupportedAgg => "unsupported agg"@,
                ExecError::NoTableBuilt => "no dataframe built"@,
            },
    {
        match self {
            ExecError::UnsupportedFilter => "unsupported filter",
            ExecError::UnsupportedAgg => "unsupported agg",
            ExecError::NoTableBuilt => "no dataframe built",
        }
    }
}

/// The compiler's walking state.
pub struct CompState {
    pub loaded: Option<Seq<char>>,
    pub ops: Seq<TableOpView>,
    pub group: Option<Seq<char>>,
    pub aggs: Seq<AggView>,
}

pub open spec fn comp_init() -> CompState {
    CompState { loaded: None, ops: seq![], group: None, aggs: seq![] }
}

/// One compilation step: how one plan step changes the walking state.
pub open spec fn comp_step(st: CompState, s: StepView) -> Result<CompState, ExecError> {
    match s {
        StepView::ReadParquet(p) => Ok(
            CompState { loaded: Some(p), ops: seq![], group: st.group, aggs: st.aggs },
        ),
        StepView::Filter(e) => if st.loaded is None {
            Ok(st)
        } else {
            match spec_parse_filter(e) {
                Some(pv) => Ok(CompState { ops: st.ops.push(TableOpView::FilterV(pv)), ..st }),
                None => Err(ExecError::UnsupportedFilter),
            }
        },
        StepView::Select(cs) => if st.loaded is None {
            Ok(st)
        } else {
            Ok(CompState { ops: st.ops.push(TableOpView::SelectV(cs)), ..st })
        },
        StepView::GroupBy(c) => Ok(CompState { group: Some(c), ..st }),
        StepView::Agg(e) => match spec_parse_agg(e) {
            Some(av) => Ok(CompState { aggs: st.aggs.push(av), ..st }),
            None => Err(ExecError::UnsupportedAgg),
        },
        StepView::Sort(c) => if st.loaded is None {
            Ok(st)
        } else {
            Ok(CompState { ops: st.ops.push(TableOpView::SortV(c)), ..st })
        },
    }
}

pub open spec fn comp_fold(st: CompState, steps: Seq<StepView>) -> Result<CompState, ExecError>
    decreases steps.len(),
{
    if steps.len() == 0 {
        Ok(st)
    } else {
        match comp_step(st, steps[0]) {
            Ok(st2) => comp_fold(st2, steps.drop_first()),
            Err(e) => Err(e),
        }
    }
}

/// The program a finished walking state denotes.
pub open spec fn finish_of(st: CompState) -> Result<ProgramView, ExecError> {
    match st.loaded {
        None => Err(ExecError::NoTableBuilt),
        Some(src) => Ok(
            ProgramView {
                source: src,
                ops: st.ops,
                finish: match st.group {
                    Some(k) => FinishView::GroupAggV(k, st.aggs),
                    None => if st.aggs.len() > 0 {
                        FinishView::WholeAggV(st.aggs)
                    } else {
                        FinishView::CollectV
                    },
                },
            },
        ),
    }
}

pub open spec fn opt_str_view(o: Option<String>) -> Option<Seq<char>> {
    match o {
        Some(s) => Some(s@),
        None => None,
    }
}

/// The meaning of `compile_plan`.
pub open spec fn spec_compile(steps: Seq<StepView>) -> Result<ProgramView, ExecError> {
    match comp_fold(comp_init(), steps) {
        Ok(st) => finish_of(st),
        Err(e) => Err(e),
    }
}

/// Compile parsed plan steps into an engine program, exactly as
/// `spec_compile` states it.
pub fn compile_plan(steps: Vec<QueryPlan>) -> (r: Result<EngineProgram, ExecError>)
    ensures
        match spec_compile(steps@.map_values(|p: QueryPlan| p@)) {
            Ok(pv) => r is Ok && r->Ok_0@ == pv,
            Err(e) => r is Err && r->Err_0 == e,
        },
{
    let ghost all = steps@.map_values(|p: QueryPlan| p@);
    let mut rest = steps;
    let mut loaded: Option<String> = None;
    let mut ops: Vec<TableOp> = Vec::new();
    let mut group: Option<String> = None;
    let mut aggs: Vec<AggSpec> = Vec::new();
    proof {
        assert(ops@.map_values(|o: TableOp| o@) =~= Seq::<TableOpView>::empty());
        assert(aggs@.map_values(|a: AggSpec| a@) =~= Seq::<AggView>::empty());
    }
    #[verifier::loop_isolation(false)]
    while rest.len() > 0
        invariant
            comp_fold(comp_init(), all) == comp_fold(
                CompState {
                    loaded: opt_str_view(loaded),
                    ops: ops@.map_values(|o: TableOp| o@),
                    group: opt_str_view(group),
                    aggs: aggs@.map_values(|a: AggSpec| a@),
                },
                rest@.map_values(|p: QueryPlan| p@),
            ),
        decreases rest.len(),
    {
        let ghost st = CompState {
            loaded: opt_str_view(loaded),
            ops: ops@.map_values(|o: TableOp| o@),
            group: opt_str_view(group),
            aggs: aggs@.map_values(|a: AggSpec| a@),
        };
        let ghost rv = rest@.map_values(|p: QueryPlan| p@);
        let step = rest.remove(0);
        proof {
            assert(rest@.map_values(|p: QueryPlan| p@) =~= rv.drop_first());
            assert(rv[0] == step@);
        }
        match step {
            QueryPlan::ReadParquet(p) => {
                loaded = Some(p);
                ops = Vec::new();
                proof {
                    assert(ops@.map_values(|o: TableOp| o@) =~= Seq::<TableOpView>::empty());
                }
            },
            QueryPlan::Filter(e) => {
                if loaded.is_some() {
                    match parse_filter(e.as_str()) {
                        Ok(p) => {
                            let ghost prev = ops@.map_values(|o: TableOp| o@);
                            let ghost pv = p@;
                            ops.push(TableOp::FilterOp(p));
                            proof {
                                assert(ops@.map_values(|o: TableOp| o@) =~= prev.push(
                                    TableOpView::FilterV(pv),
                                ));
                            }
                        },
                        Err(_) => {
                            proof {
                                assert(rv[0] == StepView::Filter(e@));
                                assert(spec_parse_filter(e@) is None);
                                assert(comp_fold(st, rv) == Err::<CompState, ExecError>(
                                    ExecError::UnsupportedFilter,
                                ));
                            }
                            return Err(ExecError::UnsupportedFilter);
                        },
                    }
                }
            },
            QueryPlan::Select(cs) => {
                if loaded.is_some() {
                    let ghost prev = ops@.map_values(|o: TableOp| o@);
                    let ghost csv = cs@.map_values(|c: String| c@);
                    ops.push(TableOp::SelectOp(cs));
                    proof {
                        assert(ops@.map_values(|o: TableOp| o@) =~= prev.push(
                            TableOpView::SelectV(csv),
                        ));
                    }
                }
            },
            QueryPlan::GroupBy(c) => {
                group = Some(c);
            },
            QueryPlan::Agg(e) => {
                match parse_agg(e.as_str()) {
                    Ok(a) => {
                        let ghost prev = aggs@.map_values(|x: AggSpec| x@);
                        let ghost av = a@;
                        aggs.push(a);
                        proof {
                            assert(aggs@.map_values(|x: AggSpec| x@) =~= prev.push(av));
                        }
                    },
                    Err(_) => {
                        proof {
                            assert(rv[0] == StepView::Agg(e@));
                            assert(spec_parse_agg(e@) is None);
                            assert(comp_fold(st, rv) == Err::<CompState, ExecError>(
                                ExecError::UnsupportedAgg,
                            ));
                        }
                        return Err(ExecError::UnsupportedAgg);
                    },
                }
            },
            QueryPlan::Sort(c) => {
                if loaded.is_some() {
                    let ghost prev = ops@.map_values(|o: TableOp| o@);
                    let ghost cv = c@;
                    ops.push(TableOp::SortOp(c));
                    proof {
                        assert(ops@.map_values(|o: TableOp| o@) =~= prev.push(
                            TableOpView::SortV(cv),
                        ));
                    }
                }
            },
        }
    }
    proof {
        assert(rest@.map_values(|p: QueryPlan| p@) =~= Seq::<StepView>::empty());
    }
    match loaded {
        None => Err(ExecError::NoTableBuilt),
        Some(src) => {
            let finish = match group {
                Some(k) => Finish::GroupAgg(k, aggs),
                None => {
                    if aggs.len() > 0 {
                        Finish::WholeAgg(aggs)
                    } else {
                        Finish::Collect
                    }
                },
            };
            Ok(EngineProgram { source: src, ops, finish })
        },
    }
}

} // verus!
