//! Line-oriented parser for textual query plans.
//!
//! A query is a sequence of lines of the form `df = df.<op>(...)` (or the
//! initial `df = pl.read_parquet("path")`). Blank lines are skipped; the
//! first line that matches no recognized statement shape aborts the parse
//! and is reported in the error.

use vstd::prelude::*;
use vstd::string::*;

verus! {

/// One step of a query plan, in the order the steps were written.
#[derive(Debug, PartialEq, Eq, Clone)]
pub enum QueryPlan {
    ReadParquet(String),
    Filter(String),
    Select(Vec<String>),
    GroupBy(String),
    Agg(String),
    Sort(String),
}

/// Mathematical image of a plan step: the same shape over character sequences.
pub enum StepView {
    ReadParquet(Seq<char>),
    Filter(Seq<char>),
    Select(Seq<Seq<char>>),
    GroupBy(Seq<char>),
    Agg(Seq<char>),
    Sort(Seq<char>),
}

impl View for QueryPlan {
    type V = StepView;

    open spec fn view(&self) -> StepView {
        match self {
            QueryPlan::ReadParquet(p) => StepView::ReadParquet(p@),
            QueryPlan::Filter(e) => StepView::Filter(e@),
            QueryPlan::Select(cs) => StepView::Select(cs@.map_values(|c: String| c@)),
            QueryPlan::GroupBy(c) => StepView::GroupBy(c@),
            QueryPlan::Agg(e) => StepView::Agg(e@),
            QueryPlan::Sort(c) => StepView::Sort(c@),
        }
    }
}

/// The characters with the Unicode `White_Space` property, i.e. exactly the
/// characters that `str::trim` removes.
pub open spec fn is_ws_char(c: char) -> bool {
    let u = c as u32;
    (0x9 <= u && u <= 0xD) || u == 0x20 || u == 0x85 || u == 0xA0 || u == 0x1680
        || (0x2000 <= u && u <= 0x200A) || u == 0x2028 || u == 0x2029 || u == 0x202F
        || u == 0x205F || u == 0x3000
}

pub fn is_ws(c: char) -> (b: bool)
    ensures
        b == is_ws_char(c),
{
    let u = c as u32;
    (0x9 <= u && u <= 0xD) || u == 0x20 || u == 0x85 || u == 0xA0 || u == 0x1680
        || (0x2000 <= u && u <= 0x200A) || u == 0x2028 || u == 0x2029 || u == 0x202F
        || u == 0x205F || u == 0x3000
}

/// Remove the longest prefix of characters satisfying `p`.
pub open spec fn drop_leading(s: Seq<char>, p: spec_fn(char) -> bool) -> Seq<char>
    decreases s.len(),
{
    if s.len() > 0 && p(s[0]) {
        drop_leading(s.drop_first(), p)
    } else {
        s
    }
}

/// Remove the longest suffix of characters satisfying `p`.
pub open spec fn drop_trailing(s: Seq<char>, p: spec_fn(char) -> bool) -> Seq<char>
    decreases s.len(),
{
    if s.len() > 0 && p(s.last()) {
        drop_trailing(s.drop_last(), p)
    } else {
        s
    }
}

/// What `str::trim` leaves: the string without leading and trailing whitespace.
pub open spec fn spec_trim(s: Seq<char>) -> Seq<char> {
    drop_trailing(drop_leading(s, |c: char| is_ws_char(c)), |c: char| is_ws_char(c))
}

/// What `str::trim_matches('"')` leaves.
pub open spec fn strip_quotes(s: Seq<char>) -> Seq<char> {
    drop_trailing(drop_leading(s, |c: char| c == '"'), |c: char| c == '"')
}

/// What `trim_start_matches('[').trim_end_matches(']')` leaves.
pub open spec fn strip_brackets(s: Seq<char>) -> Seq<char> {
    drop_trailing(drop_leading(s, |c: char| c == '['), |c: char| c == ']')
}

proof fn lemma_drop_leading_at(s: Seq<char>, p: spec_fn(char) -> bool, i: int)
    requires
        0 <= i <= s.len(),
        forall|j: int| 0 <= j < i ==> p(s[j]),
        i == s.len() || !p(s[i]),
    ensures
        drop_leading(s, p) == s.subrange(i, s.len() as int),
    decreases i,
{
    if i == 0 {
        assert(s.subrange(0, s.len() as int) =~= s);
    } else {
        let t = s.drop_first();
        assert(forall|j: int| 0 <= j < i - 1 ==> p(t[j]));
        lemma_drop_leading_at(t, p, i - 1);
        assert(t.subrange(i - 1, t.len() as int) =~= s.subrange(i, s.len() as int));
    }
}

proof fn lemma_drop_trailing_at(s: Seq<char>, p: spec_fn(char) -> bool, j: int)
    requires
        0 <= j <= s.len(),
        forall|k: int| j <= k < s.len() ==> p(s[k]),
        j == 0 || !p(s[j - 1]),
    ensures
        drop_trailing(s, p) == s.subrange(0, j),
    decreases s.len() - j,
{
    if j == s.len() {
        assert(s.subrange(0, j) =~= s);
    } else {
        let t = s.drop_last();
        assert(forall|k: int| j <= k < t.len() ==> p(t[k]));
        lemma_drop_trailing_at(t, p, j);
        assert(t.subrange(0, j) =~= s.subrange(0, j));
    }
}

/// `str::trim`, with its result pinned to `spec_trim`.
pub fn trim_str<'a>(s: &'a str) -> (r: &'a str)
    ensures
        r@ == spec_trim(s@),
{
    let n = s.unicode_len();
    let mut i: usize = 0;
    while i < n && is_ws(s.get_char(i))
        invariant
            n == s@.len(),
            0 <= i <= n,
            forall|j: int| 0 <= j < i ==> is_ws_char(s@[j]),
        decreases n - i,
    {
        i = i + 1;
    }
    let mut j: usize = n;
    while j > i && is_ws(s.get_char(j - 1))
        invariant
            n == s@.len(),
            i <= j <= n,
            forall|k: int| j <= k < n ==> is_ws_char(s@[k]),
        decreases j,
    {
        j = j - 1;
    }
    proof {
        let p = |c: char| is_ws_char(c);
        lemma_drop_leading_at(s@, p, i as int);
        let t = s@.subrange(i as int, n as int);
        assert(forall|k: int| j - i <= k < t.len() ==> p(t[k]));
        lemma_drop_trailing_at(t, p, j - i);
        assert(t.subrange(0, j - i) =~= s@.subrange(i as int, j as int));
    }
    s.substring_char(i, j)
}

/// `str::trim_matches('"')`, pinned to `strip_quotes`.
pub fn strip_quotes_str<'a>(s: &'a str) -> (r: &'a str)
    ensures
        r@ == strip_quotes(s@),
{
    let n = s.unicode_len();
    let mut i: usize = 0;
    while i < n && s.get_char(i) == '"'
        invariant
            n == s@.len(),
            0 <= i <= n,
            forall|j: int| 0 <= j < i ==> s@[j] == '"',
        decreases n - i,
    {
        i = i + 1;
    }
    let mut j: usize = n;
    while j > i && s.get_char(j - 1) == '"'
        invariant
            n == s@.len(),
            i <= j <= n,
            forall|k: int| j <= k < n ==> s@[k] == '"',
        decreases j,
    {
        j = j - 1;
    }
    proof {
        let p = |c: char| c == '"';
        lemma_drop_leading_at(s@, p, i as int);
        let t = s@.subrange(i as int, n as int);
        assert(forall|k: int| j - i <= k < t.len() ==> p(t[k]));
        lemma_drop_trailing_at(t, p, j - i);
        assert(t.subrange(0, j - i) =~= s@.subrange(i as int, j as int));
    }
    s.substring_char(i, j)
}

/// `trim_start_matches('[')` then `trim_end_matches(']')`, pinned to `strip_brackets`.
pub fn strip_brackets_str<'a>(s: &'a str) -> (r: &'a str)
    ensures
        r@ == strip_brackets(s@),
{
    let n = s.unicode_len();
    let mut i: usize = 0;
    while i < n && s.get_char(i) == '['
        invariant
            n == s@.len(),
            0 <= i <= n,
            forall|j: int| 0 <= j < i ==> s@[j] == '[',
        decreases n - i,
    {
        i = i + 1;
    }
    let mut j: usize = n;
    while j > i && s.get_char(j - 1) == ']'
        invariant
            n == s@.len(),
            i <= j <= n,
            forall|k: int| j <= k < n ==> s@[k] == ']',
        decreases j,
    {
        j = j - 1;
    }
    proof {
        lemma_drop_leading_at(s@, |c: char| c == '[', i as int);
        let t = s@.subrange(i as int, n as int);
        assert(forall|k: int| j - i <= k < t.len() ==> (|c: char| c == ']')(t[k]));
        lemma_drop_trailing_at(t, |c: char| c == ']', j - i);
        assert(t.subrange(0, j - i) =~= s@.subrange(i as int, j as int));
    }
    s.substring_char(i, j)
}

/// Does `p` stand at the start of `s`?
pub open spec fn matches_prefix(s: Seq<char>, p: Seq<char>) -> bool {
    p.len() <= s.len() && s.subrange(0, p.len() as int) == p
}

pub fn has_prefix(s: &str, p: &str) -> (b: bool)
    ensures
        b == matches_prefix(s@, p@),
{
    let pn = p.unicode_len();
    let sn = s.unicode_len();
    if pn > sn {
        assert(!matches_prefix(s@, p@));
        return false;
    }
    let mut i: usize = 0;
    while i < pn
        invariant
            pn == p@.len(),
            sn == s@.len(),
            pn <= sn,
            0 <= i <= pn,
            forall|j: int| 0 <= j < i ==> s@[j] == p@[j],
        decreases pn - i,
    {
        if s.get_char(i) != p.get_char(i) {
            proof {
                assert(s@.subrange(0, pn as int)[i as int] == s@[i as int]);
            }
            return false;
        }
        i = i + 1;
    }
    proof {
        assert(s@.subrange(0, pn as int) =~= p@);
    }
    true
}

/// Index of the first occurrence of `c` in `s` at or after `i`, or `s.len()`.
pub open spec fn find_from(s: Seq<char>, c: char, i: int) -> int
    decreases s.len() - i,
{
    if i < 0 || i >= s.len() {
        s.len() as int
    } else if s[i] == c {
        i
    } else {
        find_from(s, c, i + 1)
    }
}

pub fn find_char_from(s: &str, c: char, start: usize) -> (r: usize)
    requires
        start <= s@.len(),
    ensures
        r == find_from(s@, c, start as int),
        start <= r <= s@.len(),
        r < s@.len() ==> s@[r as int] == c,
{
    let n = s.unicode_len();
    let mut i: usize = start;
    while i < n
        invariant
            n == s@.len(),
            start <= i <= n,
            find_from(s@, c, start as int) == find_from(s@, c, i as int),
        decreases n - i,
    {
        if s.get_char(i) == c {
            return i;
        }
        i = i + 1;
    }
    i
}

pub proof fn lemma_find_from_bounds(s: Seq<char>, c: char, i: int)
    requires
        0 <= i <= s.len(),
    ensures
        i <= find_from(s, c, i) <= s.len(),
    decreases s.len() - i,
{
    if i < s.len() && s[i] != c {
        lemma_find_from_bounds(s, c, i + 1);
    }
}

/// A line shape `<prefix>...)`: the prefix, something, and a closing paren.
pub open spec fn shape(l: Seq<char>, p: Seq<char>) -> bool {
    matches_prefix(l, p) && l.len() > p.len() && l[l.len() - 1] == ')'
}

/// The text between the prefix and the final paren of a `shape` line.
pub open spec fn body_of(l: Seq<char>, p: Seq<char>) -> Seq<char> {
    l.subrange(p.len() as int, l.len() - 1)
}

/// The column names of a `select` body: comma-separated pieces, each trimmed
/// and unquoted, empty pieces dropped.
pub open spec fn cols_of(s: Seq<char>) -> Seq<Seq<char>>
    decreases s.len() via cols_of_decreases
{
    let k = find_from(s, ',', 0);
    let piece = if k == s.len() { s } else { s.subrange(0, k) };
    let c = strip_quotes(spec_trim(piece));
    let head: Seq<Seq<char>> = if c.len() > 0 { seq![c] } else { seq![] };
    if k == s.len() {
        head
    } else {
        head + cols_of(s.subrange(k + 1, s.len() as int))
    }
}

#[via_fn]
proof fn cols_of_decreases(s: Seq<char>) {
    lemma_find_from_bounds(s, ',', 0);
}

/// The steps of a `group_by` line (`df = df.groupby("col")`, optionally
/// chained with `.agg(expr)`), or `None` if the line has no such form.
pub open spec fn group_steps(l: Seq<char>) -> Option<Seq<StepView>> {
    let gp = "df = df.groupby("@;
    if !matches_prefix(l, gp) {
        None
    } else {
        let rest = l.subrange(gp.len() as int, l.len() as int);
        let k = find_from(rest, ')', 0);
        if k == rest.len() {
            None
        } else {
            let col = strip_quotes(spec_trim(rest.subrange(0, k)));
            let rem = spec_trim(rest.subrange(k + 1, rest.len() as int));
            if rem.len() == 0 {
                Some(seq![StepView::GroupBy(col)])
            } else {
                let ap = ".agg("@;
                if shape(rem, ap) {
                    Some(
                        seq![
                            StepView::GroupBy(col),
                            StepView::Agg(spec_trim(body_of(rem, ap))),
                        ],
                    )
                } else {
                    None
                }
            }
        }
    }
}

/// The steps contributed by one trimmed, non-blank line, or `None` if the
/// line matches no recognized statement shape.
pub open spec fn line_steps(l: Seq<char>) -> Option<Seq<StepView>> {
    let rp = "df = pl.read_parquet("@;
    let fp = "df = df.filter("@;
    let sp = "df = df.select("@;
    let op = "df = df.sort("@;
    let ap = "df = df.agg("@;
    if shape(l, rp) {
        Some(seq![StepView::ReadParquet(strip_quotes(spec_trim(body_of(l, rp))))])
    } else if shape(l, fp) {
        Some(seq![StepView::Filter(spec_trim(body_of(l, fp)))])
    } else if shape(l, sp) {
        Some(seq![StepView::Select(cols_of(strip_brackets(spec_trim(body_of(l, sp)))))])
    } else if group_steps(l) is Some {
        group_steps(l)
    } else if shape(l, op) {
        Some(seq![StepView::Sort(strip_quotes(spec_trim(body_of(l, op))))])
    } else if shape(l, ap) {
        Some(seq![StepView::Agg(spec_trim(body_of(l, ap)))])
    } else {
        None
    }
}

/// The lines of a text: pieces between `'\n'` characters.
pub open spec fn spec_lines(s: Seq<char>) -> Seq<Seq<char>>
    decreases s.len() via spec_lines_decreases
{
    if s.len() == 0 {
        seq![]
    } else {
        let k = find_from(s, '\n', 0);
        if k == s.len() {
            seq![s]
        } else {
            seq![s.subrange(0, k)] + spec_lines(s.subrange(k + 1, s.len() as int))
        }
    }
}

#[via_fn]
proof fn spec_lines_decreases(s: Seq<char>) {
    lemma_find_from_bounds(s, '\n', 0);
}

/// Parsing a sequence of lines: blank lines are skipped, the steps of
/// recognized lines are concatenated in order, and the first unrecognized
/// line is returned (trimmed) as the error.
pub open spec fn spec_parse_lines(ls: Seq<Seq<char>>) -> Result<Seq<StepView>, Seq<char>>
    decreases ls.len(),
{
    if ls.len() == 0 {
        Ok(seq![])
    } else {
        let t = spec_trim(ls[0]);
        if t.len() == 0 {
            spec_parse_lines(ls.drop_first())
        } else {
            match line_steps(t) {
                Some(ss) => match spec_parse_lines(ls.drop_first()) {
                    Ok(rest) => Ok(ss + rest),
                    Err(e) => Err(e),
                },
                None => Err(t),
            }
        }
    }
}

/// The meaning of `parse_query`: parse the lines of the text.
pub open spec fn spec_parse_query(s: Seq<char>) -> Result<Seq<StepView>, Seq<char>> {
    spec_parse_lines(spec_lines(s))
}

/// The steps of a sequence of lines that all parse, concatenated in order.
pub open spec fn steps_of_lines(ls: Seq<Seq<char>>) -> Seq<StepView>
    decreases ls.len(),
{
    if ls.len() == 0 {
        seq![]
    } else {
        let t = spec_trim(ls[0]);
        let head: Seq<StepView> = if t.len() == 0 {
            seq![]
        } else {
            line_steps(t)->Some_0
        };
        head + steps_of_lines(ls.drop_first())
    }
}

/// Law: a text whose every line is blank or matches one of the six
/// recognized statement shapes parses successfully, and the resulting plan
/// is the steps of those lines in exactly their textual order.
pub proof fn lemma_recognized_lines_parse(ls: Seq<Seq<char>>)
    requires
        forall|i: int|
            0 <= i < ls.len() ==> spec_trim(ls[i]).len() == 0 || line_steps(spec_trim(ls[i])) is Some,
    ensures
        spec_parse_lines(ls) == Ok::<Seq<StepView>, Seq<char>>(steps_of_lines(ls)),
    decreases ls.len(),
{
    if ls.len() > 0 {
        assert(forall|i: int|
            0 <= i < ls.drop_first().len() ==> ls.drop_first()[i] == ls[i + 1]);
        lemma_recognized_lines_parse(ls.drop_first());
        let t = spec_trim(ls[0]);
        if t.len() == 0 {
            assert(steps_of_lines(ls) =~= steps_of_lines(ls.drop_first()));
        }
    }
}

/// Law: if some line is unrecognized, parsing fails, and the error is the
/// first such line (trimmed), whatever follows it.
pub proof fn lemma_first_bad_line_fails(ls: Seq<Seq<char>>, i: int)
    requires
        0 <= i < ls.len(),
        spec_trim(ls[i]).len() > 0,
        line_steps(spec_trim(ls[i])) is None,
        forall|j: int|
            0 <= j < i ==> spec_trim(ls[j]).len() == 0 || line_steps(spec_trim(ls[j])) is Some,
    ensures
        spec_parse_lines(ls) == Err::<Seq<StepView>, Seq<char>>(spec_trim(ls[i])),
    decreases i,
{
    if i > 0 {
        assert(forall|j: int|
            0 <= j < ls.drop_first().len() ==> ls.drop_first()[j] == ls[j + 1]);
        lemma_first_bad_line_fails(ls.drop_first(), i - 1);
    }
}

/// The two laws, read over a whole query text: a text of recognized lines
/// parses into their steps in textual order, and a text with a first
/// unrecognized line fails naming that line.
pub proof fn lemma_recognized_text_parses(s: Seq<char>)
    requires
        forall|i: int|
            0 <= i < spec_lines(s).len() ==> spec_trim(spec_lines(s)[i]).len() == 0 || line_steps(
                spec_trim(spec_lines(s)[i]),
            ) is Some,
    ensures
        spec_parse_query(s) == Ok::<Seq<StepView>, Seq<char>>(steps_of_lines(spec_lines(s))),
{
    lemma_recognized_lines_parse(spec_lines(s));
}

pub proof fn lemma_text_with_bad_line_fails(s: Seq<char>, i: int)
    requires
        0 <= i < spec_lines(s).len(),
        spec_trim(spec_lines(s)[i]).len() > 0,
        line_steps(spec_trim(spec_lines(s)[i])) is None,
        forall|j: int|
            0 <= j < i ==> spec_trim(spec_lines(s)[j]).len() == 0 || line_steps(
                spec_trim(spec_lines(s)[j]),
            ) is Some,
    ensures
        spec_parse_query(s) == Err::<Seq<StepView>, Seq<char>>(spec_trim(spec_lines(s)[i])),
{
    lemma_first_bad_line_fails(spec_lines(s), i);
}

fn shape_check(l: &str, p: &str) -> (b: bool)
    ensures
        b == shape(l@, p@),
{
    let pn = p.unicode_len();
    let ln = l.unicode_len();
    has_prefix(l, p) && ln > pn && l.get_char(ln - 1) == ')'
}

/// Parse the `group_by` shapes of a trimmed line, or return `None`.
fn try_group(t: &str) -> (r: Option<(QueryPlan, Option<QueryPlan>)>)
    ensures
        match r {
            Some((a, b)) => {
                let ss = match b {
                    Some(bb) => seq![a@, bb@],
                    None => seq![a@],
                };
                group_steps(t@) == Some(ss)
            },
            None => group_steps(t@) is None,
        },
{
    let gp = "df = df.groupby(";
    if !has_prefix(t, gp) {
        return None;
    }
    let gn = gp.unicode_len();
    let tn = t.unicode_len();
    let rest = t.substring_char(gn, tn);
    let rn = rest.unicode_len();
    let k = find_char_from(rest, ')', 0);
    if k == rn {
        return None;
    }
    let col = String::from_str(strip_quotes_str(trim_str(rest.substring_char(0, k))));
    let rem = trim_str(rest.substring_char(k + 1, rn));
    let remn = rem.unicode_len();
    if remn == 0 {
        return Some((QueryPlan::GroupBy(col), None));
    }
    let ap = ".agg(";
    if shape_check(rem, ap) {
        let an = ap.unicode_len();
        let arg = String::from_str(trim_str(rem.substring_char(an, remn - 1)));
        Some((QueryPlan::GroupBy(col), Some(QueryPlan::Agg(arg))))
    } else {
        None
    }
}

/// Split a `select` body into its column names.
fn split_cols(s: &str) -> (v: Vec<String>)
    ensures
        v@.map_values(|c: String| c@) == cols_of(s@),
{
    let mut v: Vec<String> = Vec::new();
    let mut rest: &str = s;
    loop
        invariant
            cols_of(s@) == v@.map_values(|c: String| c@) + cols_of(rest@),
        decreases rest@.len(),
    {
        let rn = rest.unicode_len();
        let k = find_char_from(rest, ',', 0);
        let piece = rest.substring_char(0, k);
        let c = strip_quotes_str(trim_str(piece));
        let ghost prev = v@.map_values(|cc: String| cc@);
        if c.unicode_len() > 0 {
            v.push(String::from_str(c));
            proof {
                assert(v@.map_values(|cc: String| cc@) =~= prev.push(c@));
            }
        }
        if k == rn {
            proof {
                assert(rest@.subrange(0, rn as int) =~= rest@);
                assert(cols_of(s@) =~= v@.map_values(|cc: String| cc@));
            }
            return v;
        }
        let next = rest.substring_char(k + 1, rn);
        proof {
            let head = cols_of(rest@).subrange(0, cols_of(rest@).len() - cols_of(next@).len());
            assert(v@.map_values(|cc: String| cc@) + cols_of(next@) =~= prev + cols_of(rest@));
        }
        rest = next;
    }
}

/// Parse one line: `Ok(None)` for a blank line, `Ok(Some(..))` for the one
/// or two steps of a recognized line, `Err` with the full error message for
/// an unrecognized line.
fn parse_line(line: &str) -> (r: Result<Option<(QueryPlan, Option<QueryPlan>)>, String>)
    ensures
        ({
            let t = spec_trim(line@);
            match r {
                Ok(None) => t.len() == 0,
                Ok(Some((a, b))) => {
                    let ss = match b {
                        Some(bb) => seq![a@, bb@],
                        None => seq![a@],
                    };
                    t.len() > 0 && line_steps(t) == Some(ss)
                },
                Err(e) => t.len() > 0 && line_steps(t) is None && e@ == "Invalid operation: "@
                    + t,
            }
        }),
{
    let t = trim_str(line);
    let tn = t.unicode_len();
    if tn == 0 {
        return Ok(None);
    }
    let rp = "df = pl.read_parquet(";
    if shape_check(t, rp) {
        let pn = rp.unicode_len();
        let path = String::from_str(strip_quotes_str(trim_str(t.substring_char(pn, tn - 1))));
        return Ok(Some((QueryPlan::ReadParquet(path), None)));
    }
    let fp = "df = df.filter(";
    if shape_check(t, fp) {
        let pn = fp.unicode_len();
        let expr = String::from_str(trim_str(t.substring_char(pn, tn - 1)));
        return Ok(Some((QueryPlan::Filter(expr), None)));
    }
    let sp = "df = df.select(";
    if shape_check(t, sp) {
        let pn = sp.unicode_len();
        let inner = strip_brackets_str(trim_str(t.substring_char(pn, tn - 1)));
        let cols = split_cols(inner);
        return Ok(Some((QueryPlan::Select(cols), None)));
    }
    match try_group(t) {
        Some(pair) => {
            return Ok(Some(pair));
        },
        None => {},
    }
    let op = "df = df.sort(";
    if shape_check(t, op) {
        let pn = op.unicode_len();
        let col = String::from_str(strip_quotes_str(trim_str(t.substring_char(pn, tn - 1))));
        return Ok(Some((QueryPlan::Sort(col), None)));
    }
    let ap = "df = df.agg(";
    if shape_check(t, ap) {
        let pn = ap.unicode_len();
        let arg = String::from_str(trim_str(t.substring_char(pn, tn - 1)));
        return Ok(Some((QueryPlan::Agg(arg), None)));
    }
    let mut msg = String::from_str("Invalid operation: ");
    msg.append(t);
    Err(msg)
}

/// Parse a query text into its plan steps.
///
/// The result is exactly `spec_parse_query` over the text: on success the
/// steps of every recognized line in order, otherwise an error naming the
/// first unrecognized line.
pub fn parse_query(query: &str) -> (r: Result<Vec<QueryPlan>, String>)
    ensures
        r is Ok <==> spec_parse_query(query@) is Ok,
        r is Ok ==> r->Ok_0@.map_values(|p: QueryPlan| p@) == spec_parse_query(query@)->Ok_0,
        r is Err ==> r->Err_0@ == "Invalid operation: "@ + spec_parse_query(query@)->Err_0,
{
    let mut plan: Vec<QueryPlan> = Vec::new();
    let mut rest: &str = query;
    loop
        invariant
            spec_parse_query(query@) == (match spec_parse_lines(spec_lines(rest@)) {
                Ok(s) => Ok::<Seq<StepView>, Seq<char>>(
                    plan@.map_values(|p: QueryPlan| p@) + s,
                ),
                Err(e) => Err(e),
            }),
        decreases rest@.len(),
    {
        let rn = rest.unicode_len();
        if rn == 0 {
            proof {
                assert(plan@.map_values(|p: QueryPlan| p@) + Seq::<StepView>::empty() =~= plan@
                    .map_values(|p: QueryPlan| p@));
            }
            return Ok(plan);
        }
        let k = find_char_from(rest, '\n', 0);
        let line = rest.substring_char(0, k);
        let next = if k < rn {
            rest.substring_char(k + 1, rn)
        } else {
            rest.substring_char(rn, rn)
        };
        proof {
            if k < rn {
                assert(spec_lines(rest@) == seq![line@] + spec_lines(next@));
            } else {
                assert(line@ =~= rest@);
                assert(next@ =~= Seq::<char>::empty());
                assert(spec_lines(rest@) == seq![rest@]);
                assert(seq![line@] + spec_lines(next@) =~= spec_lines(rest@));
            }
            assert((seq![line@] + spec_lines(next@))[0] == line@);
            assert((seq![line@] + spec_lines(next@)).drop_first() =~= spec_lines(next@));
        }
        let ghost prev = plan@.map_values(|p: QueryPlan| p@);
        match parse_line(line) {
            Ok(None) => {},
            Ok(Some((a, b))) => {
                let ghost ss = line_steps(spec_trim(line@))->Some_0;
                plan.push(a);
                match b {
                    Some(bb) => {
                        plan.push(bb);
                    },
                    None => {},
                }
                proof {
                    assert(plan@.map_values(|p: QueryPlan| p@) =~= prev + ss);
                    if spec_parse_lines(spec_lines(next@)) is Ok {
                        let s2 = spec_parse_lines(spec_lines(next@))->Ok_0;
                        assert(prev + (ss + s2) =~= (prev + ss) + s2);
                    }
                }
            },
            Err(msg) => {
                return Err(msg);
            },
        }
        rest = next;
    }
}

} // verus!
