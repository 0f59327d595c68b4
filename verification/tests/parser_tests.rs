use query_server::parser::{parse_query, QueryPlan};

#[test]
fn parse_basic_query() {
    let q = r#"
            df = pl.read_parquet("data/sample.parquet")
            df = df.filter(pl.col("age") > 30)
            df = df.groupby("city").agg(pl.col("age").mean())
        "#;

    let plan = parse_query(q).unwrap();
    assert_eq!(
        plan,
        vec![
            QueryPlan::ReadParquet("data/sample.parquet".into()),
            QueryPlan::Filter("pl.col(\"age\") > 30".into()),
            QueryPlan::GroupBy("city".into()),
            QueryPlan::Agg("pl.col(\"age\").mean()".into()),
        ]
    );
}

#[test]
fn reject_invalid_operation() {
    let q = "df = df.foo()";
    assert!(parse_query(q).is_err());
}

#[test]
fn parse_select_and_sort() {
    let q = r#"
            df = pl.read_parquet("data.parquet")
            df = df.select(["name", "age"])
            df = df.sort("age")
        "#;
    let plan = parse_query(q).unwrap();
    assert_eq!(
        plan,
        vec![
            QueryPlan::ReadParquet("data.parquet".into()),
            QueryPlan::Select(vec!["name".into(), "age".into()]),
            QueryPlan::Sort("age".into()),
        ]
    );
}

#[test]
fn parse_groupby_with_agg() {
    let q = r#"
            df = pl.read_parquet("d.parquet")
            df = df.groupby("city").agg(pl.col("age").max())
        "#;
    let plan = parse_query(q).unwrap();
    assert_eq!(
        plan,
        vec![
            QueryPlan::ReadParquet("d.parquet".into()),
            QueryPlan::GroupBy("city".into()),
            QueryPlan::Agg("pl.col(\"age\").max()".into()),
        ]
    );
}

#[test]
fn parse_query_skip_empty_lines() {
    let q = "\n  df = pl.read_parquet(\"d.parquet\")\n";
    let plan = parse_query(q).unwrap();
    assert_eq!(plan, vec![QueryPlan::ReadParquet("d.parquet".into())]);
}

#[test]
fn parse_query_top_level_agg() {
    let q = "df = pl.read_parquet(\"d.parquet\")\ndf = df.agg(pl.col(\"a\").sum())";
    let plan = parse_query(q).unwrap();
    assert_eq!(
        plan,
        vec![
            QueryPlan::ReadParquet("d.parquet".into()),
            QueryPlan::Agg("pl.col(\"a\").sum()".into()),
        ]
    );
}

#[test]
fn parse_groupby_without_agg() {
    let q = "df = df.groupby(\"city\")";
    let plan = parse_query(q).unwrap();
    assert_eq!(plan, vec![QueryPlan::GroupBy("city".into())]);
}

#[test]
fn first_bad_line_is_identified() {
    let q = "df = df.frobnicate()\ndf = pl.read_parquet(\"x.parquet\")";
    let err = parse_query(q).unwrap_err();
    assert_eq!(err, "Invalid operation: df = df.frobnicate()");
}

#[test]
fn error_names_first_bad_line_only() {
    let q = "df = pl.read_parquet(\"x.parquet\")\nnot a statement\nanother bad line";
    let err = parse_query(q).unwrap_err();
    assert_eq!(err, "Invalid operation: not a statement");
}

#[test]
fn all_six_shapes_parse_in_order() {
    let q = "df = pl.read_parquet(\"t.parquet\")\n\
             df = df.filter(pl.col(\"a\") > 1)\n\
             df = df.select([\"a\", \"b\"])\n\
             df = df.groupby(\"a\").agg(pl.col(\"b\").sum())\n\
             df = df.sort(\"a\")\n\
             df = df.agg(pl.col(\"b\").mean())";
    let plan = parse_query(q).unwrap();
    assert_eq!(
        plan,
        vec![
            QueryPlan::ReadParquet("t.parquet".into()),
            QueryPlan::Filter("pl.col(\"a\") > 1".into()),
            QueryPlan::Select(vec!["a".into(), "b".into()]),
            QueryPlan::GroupBy("a".into()),
            QueryPlan::Agg("pl.col(\"b\").sum()".into()),
            QueryPlan::Sort("a".into()),
            QueryPlan::Agg("pl.col(\"b\").mean()".into()),
        ]
    );
}

#[test]
fn select_drops_empty_pieces() {
    let q = "df = pl.read_parquet(\"t.parquet\")\ndf = df.select([\"a\", , \"\"])";
    let plan = parse_query(q).unwrap();
    assert_eq!(
        plan,
        vec![
            QueryPlan::ReadParquet("t.parquet".into()),
            QueryPlan::Select(vec!["a".into()]),
        ]
    );
}

#[test]
fn empty_query_is_empty_plan() {
    assert_eq!(parse_query("").unwrap(), vec![]);
    assert_eq!(parse_query("  \n\t\n").unwrap(), vec![]);
}
