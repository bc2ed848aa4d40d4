//! The query compiler: turns a schema and an ordered list of request
//! parameters into one parameterized database query.
//!
//! Parameters are visited in the order given, so identical inputs compile
//! to identical queries. A parameter value is a term list in a small
//! language: terms split on `_`, with `and` / `or` joiners between them.
//! Terms become filters of the JSON-path expression bound as the first
//! placeholder, except full-text fields, whose values become extra
//! placeholders appended after the sort, limit and offset slots.
use vstd::prelude::*;
use vstd::string::*;
use crate::err::{CompassError, ErrModel};
use crate::schema::{
    alias_find, spec_alias_find, spec_lookup, spec_syntax_function, FieldQuery, FieldQueryModel,
    FulltextSyntax, Schema,
};
use crate::text::{
    ascii_upper, check_path_ident, check_safe_term, i64_to_string, json_quote, join_strings,
    parse_i64, path_ident, safe_term, spec_ascii_upper, spec_i64_string, spec_join,
    spec_json_quote, spec_nat_string, spec_parse_bool, spec_parse_i64, spec_split, split_char,
    str_eq, u128_to_string, parse_bool,
};

verus! {

/// The filter for a term that asks for the field's presence.
pub open spec fn frag_exists(f: Seq<char>) -> Seq<char> {
    "(exists($."@ + f + "))"@
}

/// The filter for a term that asks for the field's absence.
pub open spec fn frag_notexists(f: Seq<char>) -> Seq<char> {
    "(!exists($."@ + f + "))"@
}

/// An equality filter against an unquoted scalar rendering.
pub open spec fn frag_eq(f: Seq<char>, v: Seq<char>) -> Seq<char> {
    "($."@ + f + " == "@ + v + ")"@
}

/// A strict lower-bound filter.
pub open spec fn frag_gt(f: Seq<char>, v: Seq<char>) -> Seq<char> {
    "($."@ + f + " > "@ + v + ")"@
}

/// A strict upper-bound filter.
pub open spec fn frag_lt(f: Seq<char>, v: Seq<char>) -> Seq<char> {
    "($."@ + f + " < "@ + v + ")"@
}

/// An equality filter against a double-quoted term.
pub open spec fn frag_eq_str(f: Seq<char>, x: Seq<char>) -> Seq<char> {
    "($."@ + f + " == \""@ + x + "\")"@
}

/// A numeric tag matches the value stored as a number or as a string.
pub open spec fn frag_numtag(f: Seq<char>, num: Seq<char>) -> Seq<char> {
    "(($."@ + f + " == "@ + num + ") || ($."@ + f + " == \""@ + num + "\"))"@
}

pub open spec fn spec_bool_string(b: bool) -> Seq<char> {
    if b {
        "true"@
    } else {
        "false"@
    }
}

/// An untyped term matches the typed reading of the value where one exists,
/// and always its string reading.
pub open spec fn spec_ambiguous_term(f: Seq<char>, x: Seq<char>) -> Seq<char> {
    if spec_parse_i64(x) is Some {
        frag_eq(f, spec_i64_string(spec_parse_i64(x)->0 as int)) + " || "@ + frag_eq_str(f, x)
    } else if spec_parse_bool(x) is Some {
        frag_eq(f, spec_bool_string(spec_parse_bool(x)->0)) + " || "@ + frag_eq_str(f, x)
    } else {
        frag_eq_str(f, x)
    }
}

/// The filter one term compiles to under a query kind, or the error that
/// aborts compilation. `f` is the spliced field path, `k` the request key
/// the term came from (only errors carry it). The presence terms `exists`
/// and `notexists` are recognized for every kind.
pub open spec fn spec_term(q: FieldQueryModel, f: Seq<char>, k: Seq<char>, x: Seq<char>) -> Result<
    Seq<char>,
    ErrModel,
> {
    if x == "exists"@ {
        Ok(frag_exists(f))
    } else if x == "notexists"@ {
        Ok(frag_notexists(f))
    } else {
        match q {
            FieldQueryModel::Range { aliases, .. } => match spec_alias_find(
                aliases,
                spec_ascii_upper(x),
            ) {
                Some(n) => Ok(frag_eq(f, spec_i64_string(n as int))),
                None => match spec_parse_i64(x) {
                    Some(n) => Ok(frag_eq(f, spec_i64_string(n as int))),
                    None => Err(ErrModel::InvalidNumber { param: k, term: x }),
                },
            },
            FieldQueryModel::Min => match spec_parse_i64(x) {
                Some(n) => Ok(frag_gt(f, spec_i64_string(n as int))),
                None => Err(ErrModel::InvalidNumber { param: k, term: x }),
            },
            FieldQueryModel::Max => match spec_parse_i64(x) {
                Some(n) => Ok(frag_lt(f, spec_i64_string(n as int))),
                None => Err(ErrModel::InvalidNumber { param: k, term: x }),
            },
            FieldQueryModel::Bool => match spec_parse_bool(x) {
                Some(b) => Ok(frag_eq(f, spec_bool_string(b))),
                None => Err(ErrModel::InvalidBool { param: k, term: x }),
            },
            FieldQueryModel::NumericTag { aliases } => match spec_alias_find(
                aliases,
                spec_ascii_upper(x),
            ) {
                Some(n) => Ok(frag_numtag(f, spec_i64_string(n as int))),
                None => match spec_parse_i64(x) {
                    Some(n) => Ok(frag_numtag(f, spec_i64_string(n as int))),
                    None => Err(ErrModel::InvalidNumber { param: k, term: x }),
                },
            },
            FieldQueryModel::StringTag => if safe_term(x) {
                Ok(frag_eq_str(f, x))
            } else {
                Err(ErrModel::UnsafeText { param: k, term: x })
            },
            FieldQueryModel::AmbiguousTag | FieldQueryModel::Nested => if safe_term(x) {
                Ok(spec_ambiguous_term(f, x))
            } else {
                Err(ErrModel::UnsafeText { param: k, term: x })
            },
            // Full-text parameters never reach term compilation: the
            // compiler routes them to the SQL predicate list first.
            FieldQueryModel::Fulltext { .. } => Err(ErrModel::FieldNotFound),
        }
    }
}

fn frag3(f: &str, mid: &str, v: &str, close: &str) -> (r: String)
    ensures
        r@ == "($."@ + f@ + mid@ + v@ + close@,
{
    let mut r = String::from_str("($.");
    r.append(f);
    r.append(mid);
    r.append(v);
    r.append(close);
    r
}

fn frag_numtag_exec(f: &str, num: &str) -> (r: String)
    ensures
        r@ == frag_numtag(f@, num@),
{
    let mut r = String::from_str("(($.");
    r.append(f);
    r.append(" == ");
    r.append(num);
    r.append(") || ($.");
    r.append(f);
    r.append(" == \"");
    r.append(num);
    r.append("\"))");
    proof {
        assert(r@ =~= frag_numtag(f@, num@));
    }
    r
}

fn ambiguous_term_exec(f: &str, x: &str) -> (r: String)
    ensures
        r@ == spec_ambiguous_term(f@, x@),
{
    let sfrag = frag3(f, " == \"", x, "\")");
    if let Some(n) = parse_i64(x) {
        let num = i64_to_string(n);
        let mut r = frag3(f, " == ", num.as_str(), ")");
        r.append(" || ");
        r.append(sfrag.as_str());
        proof {
            assert(r@ =~= spec_ambiguous_term(f@, x@));
        }
        r
    } else if let Some(b) = parse_bool(x) {
        let mut r = frag3(f, " == ", if b { "true" } else { "false" }, ")");
        r.append(" || ");
        r.append(sfrag.as_str());
        proof {
            assert(r@ =~= spec_ambiguous_term(f@, x@));
        }
        r
    } else {
        proof {
            assert(sfrag@ =~= spec_ambiguous_term(f@, x@));
        }
        sfrag
    }
}

/// Compiles one term of a parameter value.
pub fn compile_term(q: &FieldQuery, f: &str, k: &str, x: &str) -> (r: Result<String, CompassError>)
    ensures
        match r {
            Ok(s) => spec_term(q@, f@, k@, x@) == Ok::<Seq<char>, ErrModel>(s@),
            Err(e) => spec_term(q@, f@, k@, x@) == Err::<Seq<char>, ErrModel>(e@),
        },
{
    if str_eq(x, "exists") {
        let mut r = String::from_str("(exists($.");
        r.append(f);
        r.append("))");
        proof {
            assert(r@ =~= frag_exists(f@));
        }
        return Ok(r);
    }
    if str_eq(x, "notexists") {
        let mut r = String::from_str("(!exists($.");
        r.append(f);
        r.append("))");
        proof {
            assert(r@ =~= frag_notexists(f@));
        }
        return Ok(r);
    }
    match q {
        FieldQuery::Range { aliases, .. } => {
            let upper = ascii_upper(x);
            let hit = alias_find(aliases, upper.as_str());
            let n = match hit {
                Some(n) => n,
                None => match parse_i64(x) {
                    Some(n) => n,
                    None => {
                        return Err(
                            CompassError::InvalidNumber { param: k.to_owned(), term: x.to_owned() },
                        );
                    },
                },
            };
            let num = i64_to_string(n);
            Ok(frag3(f, " == ", num.as_str(), ")"))
        },
        FieldQuery::Min => match parse_i64(x) {
            Some(n) => {
                let num = i64_to_string(n);
                Ok(frag3(f, " > ", num.as_str(), ")"))
            },
            None => Err(CompassError::InvalidNumber { param: k.to_owned(), term: x.to_owned() }),
        },
        FieldQuery::Max => match parse_i64(x) {
            Some(n) => {
                let num = i64_to_string(n);
                Ok(frag3(f, " < ", num.as_str(), ")"))
            },
            None => Err(CompassError::InvalidNumber { param: k.to_owned(), term: x.to_owned() }),
        },
        FieldQuery::Bool => match parse_bool(x) {
            Some(b) => Ok(frag3(f, " == ", if b { "true" } else { "false" }, ")")),
            None => Err(CompassError::InvalidBool { param: k.to_owned(), term: x.to_owned() }),
        },
        FieldQuery::NumericTag { aliases } => {
            let upper = ascii_upper(x);
            let hit = alias_find(aliases, upper.as_str());
            let n = match hit {
                Some(n) => n,
                None => match parse_i64(x) {
                    Some(n) => n,
                    None => {
                        return Err(
                            CompassError::InvalidNumber { param: k.to_owned(), term: x.to_owned() },
                        );
                    },
                },
            };
            let num = i64_to_string(n);
            Ok(frag_numtag_exec(f, num.as_str()))
        },
        FieldQuery::StringTag => {
            if check_safe_term(x) {
                Ok(frag3(f, " == \"", x, "\")"))
            } else {
                Err(CompassError::UnsafeText { param: k.to_owned(), term: x.to_owned() })
            }
        },
        FieldQuery::AmbiguousTag | FieldQuery::Nested => {
            if check_safe_term(x) {
                Ok(ambiguous_term_exec(f, x))
            } else {
                Err(CompassError::UnsafeText { param: k.to_owned(), term: x.to_owned() })
            }
        },
        FieldQuery::Fulltext { .. } => Err(CompassError::FieldNotFound),
    }
}

/// The filter a whole parameter value compiles to, folding the terms at
/// even token positions with the joiners at odd positions: `and` becomes
/// `&&`, `or` becomes `||`, an unknown joiner joins with a bare space, and
/// a trailing joiner is dropped.
pub open spec fn spec_terms_fold(
    q: FieldQueryModel,
    f: Seq<char>,
    k: Seq<char>,
    toks: Seq<Seq<char>>,
    i: int,
) -> Result<Seq<char>, ErrModel>
    decreases toks.len() - i,
{
    if i < 0 || i >= toks.len() {
        Ok(Seq::empty())
    } else {
        match spec_term(q, f, k, toks[i]) {
            Err(e) => Err(e),
            Ok(fr) => if i + 2 < toks.len() {
                match spec_terms_fold(q, f, k, toks, i + 2) {
                    Err(e) => Err(e),
                    Ok(rest) => if toks[i + 1] == "and"@ {
                        Ok(fr + " && "@ + rest)
                    } else if toks[i + 1] == "or"@ {
                        Ok(fr + " || "@ + rest)
                    } else {
                        Ok(fr + " "@ + rest)
                    },
                }
            } else {
                Ok(fr)
            },
        }
    }
}

/// The filter a parameter value compiles to.
pub open spec fn spec_value(q: FieldQueryModel, f: Seq<char>, k: Seq<char>, v: Seq<char>) -> Result<
    Seq<char>,
    ErrModel,
> {
    spec_terms_fold(q, f, k, spec_split(v, '_'), 0)
}

/// Compiles one parameter value: the term list split on `_`.
pub fn compile_value(q: &FieldQuery, f: &str, k: &str, v: &str) -> (r: Result<
    String,
    CompassError,
>)
    ensures
        match r {
            Ok(s) => spec_value(q@, f@, k@, v@) == Ok::<Seq<char>, ErrModel>(s@),
            Err(e) => spec_value(q@, f@, k@, v@) == Err::<Seq<char>, ErrModel>(e@),
        },
{
    let toks = split_char(v, '_');
    let ghost tv = toks.deep_view();
    let mut acc = String::new();
    let mut i: usize = 0;
    proof {
        let r0 = spec_terms_fold(q@, f@, k@, tv, 0);
        if r0 is Ok {
            assert(Seq::<char>::empty() + r0->Ok_0 =~= r0->Ok_0);
        }
    }
    loop
        invariant
            toks.deep_view() == tv,
            tv == spec_split(v@, '_'),
            tv.len() > 0,
            0 <= i < tv.len(),
            match spec_terms_fold(q@, f@, k@, tv, i as int) {
                Ok(rest) => spec_value(q@, f@, k@, v@) == Ok::<Seq<char>, ErrModel>(acc@ + rest),
                Err(e) => spec_value(q@, f@, k@, v@) == Err::<Seq<char>, ErrModel>(e),
            },
        decreases tv.len() - i,
    {
        proof {
            assert(tv[i as int] == toks@[i as int]@);
        }
        let fr = match compile_term(q, f, k, toks[i].as_str()) {
            Ok(fr) => fr,
            Err(e) => {
                return Err(e);
            },
        };
        if toks.len() - i > 2 {
            proof {
                assert(tv[i as int + 1] == toks@[i as int + 1]@);
            }
            let op: &'static str = if str_eq(toks[i + 1].as_str(), "and") {
                " && "
            } else if str_eq(toks[i + 1].as_str(), "or") {
                " || "
            } else {
                " "
            };
            let ghost acc0 = acc@;
            acc.append(fr.as_str());
            acc.append(op);
            proof {
                let r2 = spec_terms_fold(q@, f@, k@, tv, i + 2);
                if r2 is Ok {
                    assert(spec_terms_fold(q@, f@, k@, tv, i as int) == Ok::<Seq<char>, ErrModel>(
                        fr@ + op@ + r2->Ok_0,
                    ));
                    assert(acc0 + (fr@ + op@ + r2->Ok_0) =~= acc@ + r2->Ok_0);
                }
            }
            i = i + 2;
        } else {
            let ghost acc0 = acc@;
            acc.append(fr.as_str());
            proof {
                assert(spec_terms_fold(q@, f@, k@, tv, i as int) == Ok::<Seq<char>, ErrModel>(fr@));
                assert(acc0 + fr@ =~= acc@);
            }
            return Ok(acc);
        }
    }
}

/// One full-text predicate gathered during the parameter pass: the
/// schema-origin language and target key, and the chosen query syntax.
pub struct FtPred {
    pub lang: String,
    pub syntax: FulltextSyntax,
    pub key: String,
}

/// Mathematical image of a full-text predicate.
#[verifier::ext_equal]
pub struct FtModel {
    pub lang: Seq<char>,
    pub syntax: FulltextSyntax,
    pub key: Seq<char>,
}

impl View for FtPred {
    type V = FtModel;

    open spec fn view(&self) -> FtModel {
        FtModel { lang: self.lang@, syntax: self.syntax, key: self.key@ }
    }
}

/// The state the parameter pass accumulates: JSON-path filters, full-text
/// predicates, and the full-text binding values in predicate order.
#[verifier::ext_equal]
pub struct CompileState {
    pub jfs: Seq<Seq<char>>,
    pub fts: Seq<FtModel>,
    pub binds: Seq<Seq<char>>,
}

/// What one request parameter contributes to the state: nothing when the
/// schema does not know its name; a full-text predicate whose binding is
/// the JSON rendering of the raw value; otherwise a JSON-path filter. A
/// dotted name reaching the `Nested` branch is spliced into the path, so
/// it must itself be a dotted identifier.
pub open spec fn spec_step(schema: Schema, st: CompileState, k: String, v: String) -> Result<
    CompileState,
    ErrModel,
> {
    match spec_lookup(schema, k@) {
        None => Ok(st),
        Some((name, q)) => match q {
            FieldQueryModel::Fulltext { lang, syntax, target } => Ok(
                CompileState {
                    jfs: st.jfs,
                    fts: st.fts.push(
                        FtModel {
                            lang,
                            syntax,
                            key: match target {
                                Some(t) => t,
                                None => name,
                            },
                        },
                    ),
                    binds: st.binds.push(spec_json_quote(v@)),
                },
            ),
            FieldQueryModel::Nested => if path_ident(name) {
                match spec_value(q, name, k@, v@) {
                    Ok(fr) => Ok(CompileState { jfs: st.jfs.push(fr), fts: st.fts, binds: st.binds }),
                    Err(e) => Err(e),
                }
            } else {
                Err(ErrModel::UnsafeText { param: k@, term: k@ })
            },
            _ => match spec_value(q, name, k@, v@) {
                Ok(fr) => Ok(CompileState { jfs: st.jfs.push(fr), fts: st.fts, binds: st.binds }),
                Err(e) => Err(e),
            },
        },
    }
}

/// The state after the first `n` parameters, or the first error.
pub open spec fn spec_run(schema: Schema, params: Seq<(String, String)>, n: int) -> Result<
    CompileState,
    ErrModel,
>
    decreases n,
{
    if n <= 0 {
        Ok(CompileState { jfs: Seq::empty(), fts: Seq::empty(), binds: Seq::empty() })
    } else {
        match spec_run(schema, params, n - 1) {
            Err(e) => Err(e),
            Ok(st) => spec_step(schema, st, params[n - 1].0, params[n - 1].1),
        }
    }
}

/// The value of the first parameter with the given key.
pub open spec fn first_val(params: Seq<(String, String)>, key: Seq<char>) -> Option<Seq<char>>
    decreases params.len(),
{
    if params.len() == 0 {
        None
    } else if params[0].0@ == key {
        Some(params[0].1@)
    } else {
        first_val(params.drop_first(), key)
    }
}

pub fn find_param(params: &Vec<(String, String)>, key: &str) -> (r: Option<String>)
    ensures
        match r {
            Some(s) => first_val(params@, key@) == Some(s@),
            None => first_val(params@, key@) is None,
        },
{
    let mut i: usize = 0;
    proof {
        assert(params@.skip(0) =~= params@);
    }
    while i < params.len()
        invariant
            i <= params@.len(),
            first_val(params@, key@) == first_val(params@.skip(i as int), key@),
        decreases params@.len() - i,
    {
        proof {
            assert(params@.skip(i as int)[0] == params@[i as int]);
            assert(params@.skip(i as int).drop_first() =~= params@.skip(i + 1));
        }
        if str_eq(params[i].0.as_str(), key) {
            return Some(params[i].1.clone());
        }
        i = i + 1;
    }
    proof {
        assert(params@.skip(i as int).len() == 0);
    }
    None
}

/// A numeric control parameter: absent means the default, present means a
/// non-negative integer.
pub open spec fn spec_control_num(
    params: Seq<(String, String)>,
    key: Seq<char>,
    default: i64,
) -> Result<i64, ErrModel> {
    match first_val(params, key) {
        None => Ok(default),
        Some(s) => match spec_parse_i64(s) {
            Some(n) => if n >= 0 {
                Ok(n)
            } else {
                Err(ErrModel::InvalidNumber { param: key, term: s })
            },
            None => Err(ErrModel::InvalidNumber { param: key, term: s }),
        },
    }
}

/// The page size: `limit`, defaulting to 100.
pub open spec fn spec_limit(params: Seq<(String, String)>) -> Result<i64, ErrModel> {
    spec_control_num(params, "limit"@, 100)
}

/// The page start: `offset`, defaulting to 0.
pub open spec fn spec_offset(params: Seq<(String, String)>) -> Result<i64, ErrModel> {
    spec_control_num(params, "offset"@, 0)
}

fn get_control_num(params: &Vec<(String, String)>, key: &str, default: i64) -> (r: Result<
    i64,
    CompassError,
>)
    ensures
        match r {
            Ok(n) => spec_control_num(params@, key@, default) == Ok::<i64, ErrModel>(n),
            Err(e) => spec_control_num(params@, key@, default) == Err::<i64, ErrModel>(e@),
        },
{
    match find_param(params, key) {
        None => Ok(default),
        Some(s) => match parse_i64(s.as_str()) {
            Some(n) => if n >= 0 {
                Ok(n)
            } else {
                Err(CompassError::InvalidNumber { param: key.to_owned(), term: s })
            },
            None => Err(CompassError::InvalidNumber { param: key.to_owned(), term: s }),
        },
    }
}

/// The sort direction spliced into the query: `sortorder` upper-cased where
/// it reads `ASC` or `DESC`, `ASC` for any other given value, and `DESC`
/// when absent.
pub open spec fn spec_order_str(params: Seq<(String, String)>) -> Seq<char> {
    match first_val(params, "sortorder"@) {
        None => "DESC"@,
        Some(s) => {
            let u = spec_ascii_upper(s);
            if u == "ASC"@ || u == "DESC"@ {
                u
            } else {
                "ASC"@
            }
        },
    }
}

fn order_string(params: &Vec<(String, String)>) -> (r: String)
    ensures
        r@ == spec_order_str(params@),
{
    match find_param(params, "sortorder") {
        None => String::from_str("DESC"),
        Some(s) => {
            let u = ascii_upper(s.as_str());
            if str_eq(u.as_str(), "ASC") || str_eq(u.as_str(), "DESC") {
                u
            } else {
                String::from_str("ASC")
            }
        },
    }
}

/// The sort field: `sortby`, defaulting to the schema's order.
pub open spec fn spec_sort_field(schema: Schema, params: Seq<(String, String)>) -> Seq<char> {
    match first_val(params, "sortby"@) {
        Some(s) => s,
        None => schema.default_order_by@,
    }
}

/// The sort direction.
#[derive(Clone, Copy, Debug, PartialEq, Eq, Structural)]
pub enum SortOrder {
    Asc,
    Desc,
}

/// One bound parameter value.
#[derive(Debug)]
pub enum Binding {
    Text(String),
    Int(i64),
}

/// Mathematical image of a binding.
pub enum BindingModel {
    Text(Seq<char>),
    Int(i64),
}

impl View for Binding {
    type V = BindingModel;

    open spec fn view(&self) -> BindingModel {
        match self {
            Binding::Text(s) => BindingModel::Text(s@),
            Binding::Int(n) => BindingModel::Int(*n),
        }
    }
}

pub open spec fn binds_view(s: Seq<Binding>) -> Seq<BindingModel> {
    s.map_values(|b: Binding| b@)
}

/// The compiled query: the SQL template with positional placeholders, the
/// JSON-path filter bound as its first placeholder (empty when no filter
/// was produced, in which case the slot is dropped and the numbering
/// shifts down), the bindings in placeholder order, and the sort and page
/// settings they carry.
#[derive(Debug)]
pub struct CompiledQuery {
    pub sql: String,
    pub json_path: String,
    pub bindings: Vec<Binding>,
    pub sort_field: String,
    pub sort_order: SortOrder,
    pub limit: i64,
    pub offset: i64,
}

/// Mathematical image of a compiled query.
#[verifier::ext_equal]
pub struct QueryModel {
    pub sql: Seq<char>,
    pub json_path: Seq<char>,
    pub bindings: Seq<BindingModel>,
    pub sort_field: Seq<char>,
    pub sort_order: SortOrder,
    pub limit: i64,
    pub offset: i64,
}

impl View for CompiledQuery {
    type V = QueryModel;

    open spec fn view(&self) -> QueryModel {
        QueryModel {
            sql: self.sql@,
            json_path: self.json_path@,
            bindings: binds_view(self.bindings@),
            sort_field: self.sort_field@,
            sort_order: self.sort_order,
            limit: self.limit,
            offset: self.offset,
        }
    }
}

/// A positional placeholder.
pub open spec fn ph(n: int) -> Seq<char> {
    seq!['$'] + spec_nat_string(n)
}

/// The SQL predicate one full-text parameter compiles to, with its
/// placeholder number.
pub open spec fn ft_frag(ft: FtModel, n: int) -> Seq<char> {
    "to_tsvector('"@ + ft.lang + "',object->>'"@ + ft.key + "') @@ "@ + spec_syntax_function(
        ft.syntax,
    ) + "('"@ + ft.lang + "',"@ + ph(n) + ")"@
}

/// The full-text predicates numbered from `start`.
pub open spec fn ft_frags(fts: Seq<FtModel>, start: int) -> Seq<Seq<char>> {
    Seq::new(fts.len(), |i: int| ft_frag(fts[i], start + i))
}

pub open spec fn spec_order_of(order: Seq<char>) -> SortOrder {
    if order == "DESC"@ {
        SortOrder::Desc
    } else {
        SortOrder::Asc
    }
}

/// The query assembled from the accumulated state and the control
/// parameters. When JSON-path filters exist the binding slots are: the
/// path, the sort field, the limit, the offset, then one slot per
/// full-text value; without path filters the path slot is dropped and
/// everything shifts down one.
pub open spec fn spec_assemble(
    schema: Schema,
    params: Seq<(String, String)>,
    st: CompileState,
) -> Result<QueryModel, ErrModel> {
    match spec_limit(params) {
        Err(e) => Err(e),
        Ok(limit) => match spec_offset(params) {
            Err(e) => Err(e),
            Ok(offset) => {
                let has_j = st.jfs.len() > 0;
                let has_s = st.fts.len() > 0;
                let jp = if has_j {
                    "("@ + spec_join(st.jfs, " && "@) + ")"@
                } else {
                    Seq::empty()
                };
                let sfrags = ft_frags(st.fts, if has_j { 5 } else { 4 });
                let order = spec_order_str(params);
                let sortf = spec_sort_field(schema, params);
                let where_part = if has_j {
                    " WHERE object @@ CAST("@ + ph(1) + " AS JSONPATH)"@ + if has_s {
                        " AND "@ + spec_join(sfrags, " AND "@)
                    } else {
                        Seq::empty()
                    }
                } else if has_s {
                    " WHERE "@ + spec_join(sfrags, " AND "@)
                } else {
                    Seq::empty()
                };
                let tail = " ORDER BY (object #> ("@ + ph(if has_j { 2 } else { 1 })
                    + ")::text[]) "@ + order + ", doc_id NULLS LAST LIMIT "@ + ph(
                    if has_j { 3 } else { 2 },
                ) + " OFFSET "@ + ph(if has_j { 4 } else { 3 });
                let sql = "SELECT object FROM "@ + schema.table@ + where_part + tail;
                let binds = (if has_j {
                    seq![BindingModel::Text(jp)]
                } else {
                    Seq::empty()
                }) + seq![
                    BindingModel::Text(sortf),
                    BindingModel::Int(limit),
                    BindingModel::Int(offset),
                ] + st.binds.map_values(|b: Seq<char>| BindingModel::Text(b));
                Ok(
                    QueryModel {
                        sql,
                        json_path: jp,
                        bindings: binds,
                        sort_field: sortf,
                        sort_order: spec_order_of(order),
                        limit,
                        offset,
                    },
                )
            },
        },
    }
}

/// The whole compilation: the parameter pass, then assembly.
pub open spec fn spec_compile(schema: Schema, params: Seq<(String, String)>) -> Result<
    QueryModel,
    ErrModel,
> {
    match spec_run(schema, params, params.len() as int) {
        Err(e) => Err(e),
        Ok(st) => spec_assemble(schema, params, st),
    }
}

/// An error in the parameter pass aborts it: later parameters change
/// nothing.
proof fn lemma_run_error_persists(schema: Schema, params: Seq<(String, String)>, n: int, m: int)
    requires
        0 <= n <= m,
        spec_run(schema, params, n) is Err,
    ensures
        spec_run(schema, params, m) == spec_run(schema, params, n),
    decreases m - n,
{
    if m > n {
        lemma_run_error_persists(schema, params, n, m - 1);
    }
}

pub open spec fn strings_view(s: Seq<String>) -> Seq<Seq<char>> {
    s.map_values(|t: String| t@)
}

pub open spec fn fts_view(s: Seq<FtPred>) -> Seq<FtModel> {
    s.map_values(|p: FtPred| p@)
}

pub open spec fn vecs_state(jfs: Seq<String>, fts: Seq<FtPred>, binds: Seq<String>) -> CompileState {
    CompileState { jfs: strings_view(jfs), fts: fts_view(fts), binds: strings_view(binds) }
}

fn ft_frag_exec(p: &FtPred, n: u128) -> (r: String)
    ensures
        r@ == ft_frag(p@, n as int),
{
    let mut r = String::from_str("to_tsvector('");
    r.append(p.lang.as_str());
    r.append("',object->>'");
    r.append(p.key.as_str());
    r.append("') @@ ");
    r.append(p.syntax.function_name());
    r.append("('");
    r.append(p.lang.as_str());
    r.append("',$");
    let num = u128_to_string(n);
    r.append(num.as_str());
    r.append(")");
    proof {
        reveal_strlit("',$");
        reveal_strlit("',");
        reveal_strlit("$");
        assert("',$"@ =~= "',"@ + seq!['$']);
        assert(r@ =~= ft_frag(p@, n as int));
    }
    r
}

/// Compiles a request: visits the parameters in their given order, so that
/// equal inputs yield the identical query, and fails fast on the first
/// term that cannot be interpreted.
#[verifier::rlimit(60)]
pub fn compile(schema: &Schema, params: &Vec<(String, String)>) -> (r: Result<
    CompiledQuery,
    CompassError,
>)
    ensures
        match r {
            Ok(q) => spec_compile(*schema, params@) == Ok::<QueryModel, ErrModel>(q@),
            Err(e) => spec_compile(*schema, params@) == Err::<QueryModel, ErrModel>(e@),
        },
{
    let mut jfs: Vec<String> = Vec::new();
    let mut fts: Vec<FtPred> = Vec::new();
    let mut binds: Vec<String> = Vec::new();
    let mut idx: usize = 0;
    proof {
        assert(vecs_state(jfs@, fts@, binds@) =~= CompileState {
            jfs: Seq::empty(),
            fts: Seq::empty(),
            binds: Seq::empty(),
        });
    }
    while idx < params.len()
        invariant
            idx <= params@.len(),
            spec_run(*schema, params@, idx as int) == Ok::<CompileState, ErrModel>(
                vecs_state(jfs@, fts@, binds@),
            ),
        decreases params@.len() - idx,
    {
        let ghost st0 = vecs_state(jfs@, fts@, binds@);
        let k = &params[idx].0;
        let v = &params[idx].1;
        match schema.lookup(k.as_str()) {
            None => {},
            Some((name, q)) => {
                match &q {
                    FieldQuery::Fulltext { lang, syntax, target } => {
                        let key = match target {
                            Some(t) => t.clone(),
                            None => name,
                        };
                        let p = FtPred { lang: lang.clone(), syntax: *syntax, key };
                        let ghost pm = p@;
                        fts.push(p);
                        binds.push(json_quote(v.as_str()));
                        proof {
                            assert(fts_view(fts@) =~= st0.fts.push(pm));
                            assert(strings_view(binds@) =~= st0.binds.push(spec_json_quote(v@)));
                            assert(vecs_state(jfs@, fts@, binds@) =~= spec_step(
                                *schema,
                                st0,
                                params@[idx as int].0,
                                params@[idx as int].1,
                            )->Ok_0);
                        }
                    },
                    FieldQuery::Nested => {
                        if !check_path_ident(name.as_str()) {
                            let e = CompassError::UnsafeText { param: k.clone(), term: k.clone() };
                            proof {
                                assert(spec_run(*schema, params@, idx + 1) == Err::<
                                    CompileState,
                                    ErrModel,
                                >(e@));
                                lemma_run_error_persists(
                                    *schema,
                                    params@,
                                    idx + 1,
                                    params@.len() as int,
                                );
                            }
                            return Err(e);
                        }
                        match compile_value(&q, name.as_str(), k.as_str(), v.as_str()) {
                            Ok(fr) => {
                                let ghost frm = fr@;
                                jfs.push(fr);
                                proof {
                                    assert(strings_view(jfs@) =~= st0.jfs.push(frm));
                                    assert(vecs_state(jfs@, fts@, binds@) =~= spec_step(
                                        *schema,
                                        st0,
                                        params@[idx as int].0,
                                        params@[idx as int].1,
                                    )->Ok_0);
                                }
                            },
                            Err(e) => {
                                proof {
                                    assert(spec_run(*schema, params@, idx + 1) == Err::<
                                        CompileState,
                                        ErrModel,
                                    >(e@));
                                    lemma_run_error_persists(
                                        *schema,
                                        params@,
                                        idx + 1,
                                        params@.len() as int,
                                    );
                                }
                                return Err(e);
                            },
                        }
                    },
                    _ => {
                        match compile_value(&q, name.as_str(), k.as_str(), v.as_str()) {
                            Ok(fr) => {
                                let ghost frm = fr@;
                                jfs.push(fr);
                                proof {
                                    assert(strings_view(jfs@) =~= st0.jfs.push(frm));
                                    assert(vecs_state(jfs@, fts@, binds@) =~= spec_step(
                                        *schema,
                                        st0,
                                        params@[idx as int].0,
                                        params@[idx as int].1,
                                    )->Ok_0);
                                }
                            },
                            Err(e) => {
                                proof {
                                    assert(spec_run(*schema, params@, idx + 1) == Err::<
                                        CompileState,
                                        ErrModel,
                                    >(e@));
                                    lemma_run_error_persists(
                                        *schema,
                                        params@,
                                        idx + 1,
                                        params@.len() as int,
                                    );
                                }
                                return Err(e);
                            },
                        }
                    },
                }
            },
        }
        idx = idx + 1;
    }
    let ghost stf = vecs_state(jfs@, fts@, binds@);
    let limit = match get_control_num(params, "limit", 100) {
        Ok(n) => n,
        Err(e) => {
            return Err(e);
        },
    };
    let offset = match get_control_num(params, "offset", 0) {
        Ok(n) => n,
        Err(e) => {
            return Err(e);
        },
    };
    let order = order_string(params);
    let sortf = match find_param(params, "sortby") {
        Some(s) => s,
        None => schema.default_order_by.clone(),
    };
    let has_j = jfs.len() > 0;
    let has_s = fts.len() > 0;
    let jp = if has_j {
        let mut t = String::from_str("(");
        let joined = join_strings(&jfs, " && ");
        t.append(joined.as_str());
        t.append(")");
        t
    } else {
        String::new()
    };
    proof {
        assert(jfs.deep_view() =~= strings_view(jfs@));
        if has_j {
            assert(jp@ =~= "("@ + spec_join(stf.jfs, " && "@) + ")"@);
        } else {
            assert(jp@ =~= Seq::<char>::empty());
        }
    }
    let ft_start: u128 = if has_j {
        5
    } else {
        4
    };
    let mut sfrags: Vec<String> = Vec::new();
    let mut t: usize = 0;
    proof {
        assert(strings_view(sfrags@) =~= ft_frags(stf.fts, ft_start as int).take(0));
    }
    while t < fts.len()
        invariant
            t <= fts@.len(),
            5 >= ft_start >= 4,
            stf.fts == fts_view(fts@),
            strings_view(sfrags@) == ft_frags(stf.fts, ft_start as int).take(t as int),
        decreases fts@.len() - t,
    {
        let n: u128 = ft_start + (t as u128);
        let ghost prev = strings_view(sfrags@);
        let s = ft_frag_exec(&fts[t], n);
        let ghost sm = s@;
        sfrags.push(s);
        proof {
            assert(stf.fts[t as int] == fts@[t as int]@);
            assert(strings_view(sfrags@) =~= prev.push(sm));
            assert(prev.push(sm) =~= ft_frags(stf.fts, ft_start as int).take(t + 1));
        }
        t = t + 1;
    }
    proof {
        assert(ft_frags(stf.fts, ft_start as int).take(fts@.len() as int) =~= ft_frags(
            stf.fts,
            ft_start as int,
        ));
        assert(sfrags.deep_view() =~= strings_view(sfrags@));
    }
    let mut sql = String::from_str("SELECT object FROM ");
    sql.append(schema.table.as_str());
    if has_j {
        sql.append(" WHERE object @@ CAST($1 AS JSONPATH)");
        if has_s {
            sql.append(" AND ");
            let joined = join_strings(&sfrags, " AND ");
            sql.append(joined.as_str());
        }
    } else if has_s {
        sql.append(" WHERE ");
        let joined = join_strings(&sfrags, " AND ");
        sql.append(joined.as_str());
    }
    let ghost sql_mid = sql@;
    sql.append(" ORDER BY (object #> ($");
    sql.append(if has_j { "2" } else { "1" });
    sql.append(")::text[]) ");
    sql.append(order.as_str());
    sql.append(", doc_id NULLS LAST LIMIT $");
    sql.append(if has_j { "3" } else { "2" });
    sql.append(" OFFSET $");
    sql.append(if has_j { "4" } else { "3" });
    let mut bindings: Vec<Binding> = Vec::new();
    if has_j {
        bindings.push(Binding::Text(jp.clone()));
    }
    bindings.push(Binding::Text(sortf.clone()));
    bindings.push(Binding::Int(limit));
    bindings.push(Binding::Int(offset));
    let mut b: usize = 0;
    let ghost lead = binds_view(bindings@);
    proof {
        assert(stf.binds.take(0).map_values(|x: Seq<char>| BindingModel::Text(x)) =~= Seq::<
            BindingModel,
        >::empty());
        assert(lead + Seq::<BindingModel>::empty() =~= lead);
    }
    while b < binds.len()
        invariant
            b <= binds@.len(),
            stf.binds == strings_view(binds@),
            binds_view(bindings@) == lead + stf.binds.take(b as int).map_values(
                |x: Seq<char>| BindingModel::Text(x),
            ),
        decreases binds@.len() - b,
    {
        let ghost prev = binds_view(bindings@);
        bindings.push(Binding::Text(binds[b].clone()));
        proof {
            assert(stf.binds[b as int] == binds@[b as int]@);
            assert(binds_view(bindings@) =~= prev.push(BindingModel::Text(binds@[b as int]@)));
            assert(stf.binds.take(b + 1).map_values(|x: Seq<char>| BindingModel::Text(x)) =~= stf
                .binds.take(b as int).map_values(|x: Seq<char>| BindingModel::Text(x)).push(
                BindingModel::Text(stf.binds[b as int]),
            ));
            assert(binds_view(bindings@) =~= lead + stf.binds.take(b + 1).map_values(
                |x: Seq<char>| BindingModel::Text(x),
            ));
        }
        b = b + 1;
    }
    proof {
        assert(stf.binds.take(binds@.len() as int) =~= stf.binds);
        assert(lead =~= (if has_j {
            seq![BindingModel::Text(jp@)]
        } else {
            Seq::<BindingModel>::empty()
        }) + seq![
            BindingModel::Text(sortf@),
            BindingModel::Int(limit),
            BindingModel::Int(offset),
        ]);
    }
    let sort_order = if str_eq(order.as_str(), "DESC") {
        SortOrder::Desc
    } else {
        SortOrder::Asc
    };
    let cq = CompiledQuery { sql, json_path: jp, bindings, sort_field: sortf, sort_order, limit, offset };
    proof {
        reveal_strlit("$");
        reveal_strlit("1");
        reveal_strlit("2");
        reveal_strlit("3");
        reveal_strlit("4");
        reveal_strlit(" WHERE object @@ CAST($1 AS JSONPATH)");
        reveal_strlit(" WHERE object @@ CAST(");
        reveal_strlit(" AS JSONPATH)");
        reveal_strlit(" ORDER BY (object #> ($");
        reveal_strlit(" ORDER BY (object #> (");
        reveal_strlit(")::text[]) ");
        reveal_strlit(", doc_id NULLS LAST LIMIT $");
        reveal_strlit(", doc_id NULLS LAST LIMIT ");
        reveal_strlit(" OFFSET $");
        reveal_strlit(" OFFSET ");
        let m = spec_assemble(*schema, params@, stf)->Ok_0;
        assert(spec_nat_string(1) =~= "1"@);
        assert(spec_nat_string(2) =~= "2"@);
        assert(spec_nat_string(3) =~= "3"@);
        assert(spec_nat_string(4) =~= "4"@);
        assert(" WHERE object @@ CAST($1 AS JSONPATH)"@ =~= " WHERE object @@ CAST("@ + ph(1)
            + " AS JSONPATH)"@);
        assert(" ORDER BY (object #> ($"@ =~= " ORDER BY (object #> ("@ + seq!['$']);
        assert(", doc_id NULLS LAST LIMIT $"@ =~= ", doc_id NULLS LAST LIMIT "@ + seq!['$']);
        assert(" OFFSET $"@ =~= " OFFSET "@ + seq!['$']);
        let tablev = schema.table@;
        let sjoin = spec_join(ft_frags(stf.fts, ft_start as int), " AND "@);
        let wherev: Seq<char> = if has_j {
            " WHERE object @@ CAST("@ + ph(1) + " AS JSONPATH)"@ + (if has_s {
                " AND "@ + sjoin
            } else {
                Seq::<char>::empty()
            })
        } else if has_s {
            " WHERE "@ + sjoin
        } else {
            Seq::<char>::empty()
        };
        let tailv = " ORDER BY (object #> ("@ + ph(if has_j { 2 } else { 1 }) + ")::text[]) "@
            + order@ + ", doc_id NULLS LAST LIMIT "@ + ph(if has_j { 3 } else { 2 }) + " OFFSET "@
            + ph(if has_j { 4 } else { 3 });
        assert(sql_mid =~= "SELECT object FROM "@ + tablev + wherev);
        assert(cq@.sql =~= sql_mid + tailv);
        assert(cq@.sql == "SELECT object FROM "@ + tablev + wherev + tailv);
        assert(m.sql == "SELECT object FROM "@ + tablev + wherev + tailv);
        assert(cq@.bindings =~= m.bindings);
        assert(cq@ =~= m);
    }
    Ok(cq)
}

} // verus!
