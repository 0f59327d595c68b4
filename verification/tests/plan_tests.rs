use query_server::exprs::{AggFunc, CmpOp, LitVal};
use query_server::parser::{parse_query, QueryPlan};
use query_server::plan::{compile_plan, ExecError, Finish, TableOp};

#[test]
fn load_then_filter_compiles() {
    let q = "df = pl.read_parquet(\"p.parquet\")\ndf = df.filter(pl.col(\"age\") > 30)";
    let prog = compile_plan(parse_query(q).unwrap()).unwrap();
    assert_eq!(prog.source, "p.parquet");
    assert_eq!(prog.ops.len(), 1);
    match &prog.ops[0] {
        TableOp::FilterOp(p) => {
            assert_eq!(p.column, "age");
            assert_eq!(p.op, CmpOp::Gt);
            assert_eq!(p.value, LitVal::IntLit(30));
        },
        other => panic!("expected a filter, got {:?}", other),
    }
    assert_eq!(prog.finish, Finish::Collect);
}

#[test]
fn groupby_without_agg_keeps_empty_aggregate_list() {
    let q = "df = pl.read_parquet(\"p.parquet\")\ndf = df.groupby(\"city\")";
    let prog = compile_plan(parse_query(q).unwrap()).unwrap();
    match &prog.finish {
        Finish::GroupAgg(key, aggs) => {
            assert_eq!(key, "city");
            assert!(aggs.is_empty());
        },
        other => panic!("expected grouping, got {:?}", other),
    }
}

#[test]
fn groupby_collects_all_aggregates() {
    let q = "df = pl.read_parquet(\"p.parquet\")\n\
             df = df.groupby(\"city\").agg(pl.col(\"v\").sum())\n\
             df = df.agg(pl.col(\"v\").max())";
    let prog = compile_plan(parse_query(q).unwrap()).unwrap();
    match &prog.finish {
        Finish::GroupAgg(key, aggs) => {
            assert_eq!(key, "city");
            assert_eq!(aggs.len(), 2);
            assert_eq!(aggs[0].func, AggFunc::Sum);
            assert_eq!(aggs[1].func, AggFunc::Max);
        },
        other => panic!("expected grouping, got {:?}", other),
    }
}

#[test]
fn top_level_agg_aggregates_whole_table() {
    let q = "df = pl.read_parquet(\"p.parquet\")\ndf = df.agg(pl.col(\"v\").sum())";
    let prog = compile_plan(parse_query(q).unwrap()).unwrap();
    match &prog.finish {
        Finish::WholeAgg(aggs) => {
            assert_eq!(aggs.len(), 1);
            assert_eq!(aggs[0].func, AggFunc::Sum);
            assert_eq!(aggs[0].column, "v");
        },
        other => panic!("expected a whole-table aggregate, got {:?}", other),
    }
}

#[test]
fn steps_before_any_load_are_no_ops() {
    let steps = vec![
        QueryPlan::Filter("pl.col(\"a\") > 1".into()),
        QueryPlan::Sort("a".into()),
        QueryPlan::ReadParquet("p.parquet".into()),
    ];
    let prog = compile_plan(steps).unwrap();
    assert_eq!(prog.source, "p.parquet");
    assert!(prog.ops.is_empty());
}

#[test]
fn later_load_discards_earlier_operations() {
    let q = "df = pl.read_parquet(\"a.parquet\")\n\
             df = df.sort(\"x\")\n\
             df = pl.read_parquet(\"b.parquet\")";
    let prog = compile_plan(parse_query(q).unwrap()).unwrap();
    assert_eq!(prog.source, "b.parquet");
    assert!(prog.ops.is_empty());
}

#[test]
fn no_load_means_no_table_built() {
    assert_eq!(compile_plan(vec![]).unwrap_err(), ExecError::NoTableBuilt);
    let steps = vec![QueryPlan::GroupBy("city".into())];
    assert_eq!(compile_plan(steps).unwrap_err(), ExecError::NoTableBuilt);
}

#[test]
fn bad_filter_expression_is_reported() {
    let q = "df = pl.read_parquet(\"p.parquet\")\ndf = df.filter(foo)";
    assert_eq!(
        compile_plan(parse_query(q).unwrap()).unwrap_err(),
        ExecError::UnsupportedFilter
    );
}

#[test]
fn bad_filter_before_load_is_ignored() {
    // a filter standing before any load is never interpreted
    let steps = vec![
        QueryPlan::Filter("foo".into()),
        QueryPlan::ReadParquet("p.parquet".into()),
    ];
    let prog = compile_plan(steps).unwrap();
    assert!(prog.ops.is_empty());
}

#[test]
fn bad_aggregate_expression_is_reported() {
    let q = "df = pl.read_parquet(\"p.parquet\")\ndf = df.agg(pl.col(\"v\").foo())";
    assert_eq!(
        compile_plan(parse_query(q).unwrap()).unwrap_err(),
        ExecError::UnsupportedAgg
    );
}

#[test]
fn error_messages_match_the_engine_adapter() {
    assert_eq!(ExecError::UnsupportedFilter.message(), "unsupported filter");
    assert_eq!(ExecError::UnsupportedAgg.message(), "unsupported agg");
    assert_eq!(ExecError::NoTableBuilt.message(), "no dataframe built");
}
