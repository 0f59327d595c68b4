use query_server::exprs::{parse_agg, parse_filter, AggFunc, CmpOp, LitVal};

#[test]
fn parse_filter_numeric_and_string() {
    let p = parse_filter("pl.col(\"val\") >= 2").unwrap();
    assert_eq!(p.column, "val");
    assert_eq!(p.op, CmpOp::Ge);
    assert_eq!(p.value, LitVal::IntLit(2));

    let p2 = parse_filter("pl.col(\"name\") == \"b\"").unwrap();
    assert_eq!(p2.column, "name");
    assert_eq!(p2.op, CmpOp::Equals);
    assert_eq!(p2.value, LitVal::StrLit("b".into()));
}

#[test]
fn parse_filter_invalid() {
    assert!(parse_filter("foo").is_err());
}

#[test]
fn parse_filter_all_ops() {
    let ops = [">", "<", ">=", "<=", "==", "!="];
    for op in ops {
        let expr = format!("pl.col(\"val\") {} 2", op);
        assert!(parse_filter(&expr).is_ok());
    }
    // Ensure one of them is read exactly as written
    let p = parse_filter("pl.col(\"val\") > 2").unwrap();
    assert_eq!(p.column, "val");
    assert_eq!(p.op, CmpOp::Gt);
    assert_eq!(p.value, LitVal::IntLit(2));
}

#[test]
fn parse_agg_invalid() {
    assert!(parse_agg("pl.col(\"val\").foo()").is_err());
}

#[test]
fn parse_agg_all_funcs() {
    let funcs = ["sum", "min", "max", "count", "mean"];
    for f in funcs {
        let expr = format!("pl.col(\"val\").{}()", f);
        assert!(parse_agg(&expr).is_ok());
    }
}

#[test]
fn parse_agg_mean() {
    let agg = parse_agg("pl.col(\"val\").mean()").unwrap();
    assert_eq!(agg.func, AggFunc::Mean);
    assert_eq!(agg.column, "val");
}

#[test]
fn filter_literal_typing() {
    let p = parse_filter("pl.col(\"age\") > 30").unwrap();
    assert_eq!(p.column, "age");
    assert_eq!(p.op, CmpOp::Gt);
    assert_eq!(p.value, LitVal::IntLit(30));

    let p2 = parse_filter("pl.col(\"age\") > -7").unwrap();
    assert_eq!(p2.value, LitVal::IntLit(-7));

    let p3 = parse_filter("pl.col(\"x\") < 2.5").unwrap();
    assert_eq!(p3.value, LitVal::FloatLit("2.5".into()));

    let p4 = parse_filter("pl.col(\"x\") < 1e3").unwrap();
    assert_eq!(p4.value, LitVal::FloatLit("1e3".into()));

    let p5 = parse_filter("pl.col(\"name\") != \"bob\"").unwrap();
    assert_eq!(p5.value, LitVal::StrLit("bob".into()));
}

#[test]
fn int_literal_range_is_exact() {
    // values at the i64 boundary parse as integers; just past it they
    // fall through to floating-point syntax
    let p = parse_filter("pl.col(\"x\") > 9223372036854775807").unwrap();
    assert_eq!(p.value, LitVal::IntLit(i64::MAX));
    let p2 = parse_filter("pl.col(\"x\") > -9223372036854775808").unwrap();
    assert_eq!(p2.value, LitVal::IntLit(i64::MIN));
    let p3 = parse_filter("pl.col(\"x\") > 9223372036854775808").unwrap();
    assert_eq!(p3.value, LitVal::FloatLit("9223372036854775808".into()));
}

#[test]
fn filter_ops_prefer_two_char_forms() {
    let p = parse_filter("pl.col(\"x\") >= 1").unwrap();
    assert_eq!(p.op, CmpOp::Ge);
    let p2 = parse_filter("pl.col(\"x\") > = 1").unwrap();
    assert_eq!(p2.op, CmpOp::Gt);
    assert_eq!(p2.value, LitVal::StrLit("= 1".into()));
}

#[test]
fn filter_pattern_found_anywhere() {
    // the pattern is searched for, not anchored
    let p = parse_filter("where pl.col(\"v\") < 4").unwrap();
    assert_eq!(p.column, "v");
    assert_eq!(p.op, CmpOp::Lt);
    assert_eq!(p.value, LitVal::IntLit(4));
}

#[test]
fn agg_rejects_empty_or_unclosed_calls() {
    assert!(parse_agg("pl.col(\"v\").()").is_err());
    assert!(parse_agg("pl.col(\"v\").sum(").is_err());
    assert!(parse_agg("pl.col(\"\").sum()").is_err());
}
