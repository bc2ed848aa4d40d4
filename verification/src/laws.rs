//! The library's stated laws: determinism of compilation, the control
//! parameters' defaults, and idempotence of the result transformer.
use vstd::prelude::*;
use crate::err::ErrModel as QueryErr;
use crate::query::{
    first_val, ft_frag, ft_frags, ph, spec_compile, spec_order_str, spec_run, spec_term, FtModel,
    QueryModel, SortOrder,
};
use crate::schema::{
    field_query_wf, spec_find_direct, spec_find_indirect, spec_indirect_hit, spec_lookup,
    spec_syntax_function, Field, FieldQueryModel, FulltextSyntax, Schema,
};
use crate::text::{
    ident_char, ident_str, is_ctl_char, is_digit_char, join_tail, lemma_nat_string_digits,
    path_ident, spec_ascii_upper, spec_i64_string, spec_join, spec_nat_string,
};
use crate::transform::{spec_apply_conv, spec_conv_for, spec_transform, DocValueModel};

verus! {

/// How many positional placeholders a piece of query text holds: the
/// occurrences of a dollar sign followed by a digit.
pub open spec fn ph_count(s: Seq<char>) -> nat
    decreases s.len(),
{
    if s.len() < 2 {
        0
    } else {
        (if s[0] == '$' && is_digit_char(s[1]) {
            1nat
        } else {
            0nat
        }) + ph_count(s.drop_first())
    }
}

pub open spec fn no_dollar(s: Seq<char>) -> bool {
    forall|i: int| 0 <= i < s.len() ==> s[i] != '$'
}

proof fn lemma_ph_count_zero(s: Seq<char>)
    requires
        no_dollar(s),
    ensures
        ph_count(s) == 0,
    decreases s.len(),
{
    if s.len() >= 2 {
        assert(forall|i: int| 0 <= i < s.drop_first().len() ==> s.drop_first()[i] == s[i + 1]);
        lemma_ph_count_zero(s.drop_first());
    }
}

proof fn lemma_ph_count_concat(a: Seq<char>, b: Seq<char>)
    requires
        a.len() == 0 || a.last() != '$',
    ensures
        ph_count(a + b) == ph_count(a) + ph_count(b),
    decreases a.len(),
{
    if a.len() == 0 {
        assert(a + b =~= b);
    } else if a.len() == 1 {
        if b.len() == 0 {
            assert(a + b =~= a);
        } else {
            assert((a + b).drop_first() =~= b);
            assert((a + b)[0] == a[0]);
        }
    } else {
        lemma_ph_count_concat(a.drop_first(), b);
        assert((a + b).drop_first() =~= a.drop_first() + b);
        assert((a + b)[0] == a[0] && (a + b)[1] == a[1]);
    }
}

proof fn lemma_nat_string_no_dollar(n: int)
    ensures
        no_dollar(spec_nat_string(n)),
        spec_nat_string(n).len() > 0,
        is_digit_char(spec_nat_string(n)[0]),
        spec_nat_string(n).last() != '$',
{
    lemma_nat_string_digits(n);
}

/// A placeholder followed by anything counts as exactly one placeholder.
proof fn lemma_ph_count_placeholder(n: int, rest: Seq<char>)
    ensures
        ph_count(ph(n) + rest) == 1 + ph_count(rest),
{
    lemma_nat_string_no_dollar(n);
    lemma_ph_count_concat(spec_nat_string(n), rest);
    lemma_ph_count_zero(spec_nat_string(n));
    let s = ph(n) + rest;
    assert(s.drop_first() =~= spec_nat_string(n) + rest);
    assert(s[0] == '$' && is_digit_char(s[1]));
}

proof fn lemma_no_dollar_concat(a: Seq<char>, b: Seq<char>)
    requires
        no_dollar(a),
        no_dollar(b),
    ensures
        no_dollar(a + b),
{
    assert forall|i: int| 0 <= i < (a + b).len() implies (a + b)[i] != '$' by {
        if i < a.len() {
            assert((a + b)[i] == a[i]);
        } else {
            assert((a + b)[i] == b[i - a.len()]);
        }
    }
}

/// One step of counting a left-nested concatenation.
proof fn lemma_count_append(a: Seq<char>, b: Seq<char>)
    requires
        a.len() == 0 || a.last() != '$',
    ensures
        ph_count(a + b) == ph_count(a) + ph_count(b),
        b.len() > 0 ==> (a + b).last() == b.last(),
        b.len() == 0 && a.len() > 0 ==> (a + b).last() == a.last(),
{
    lemma_ph_count_concat(a, b);
}

proof fn lemma_ident_no_dollar(s: Seq<char>)
    requires
        s.len() > 0,
        forall|i: int| 0 <= i < s.len() ==> ident_char(#[trigger] s[i]) || s[i] == '.',
    ensures
        no_dollar(s),
        s.last() != '$',
{
}

proof fn lemma_syntax_no_dollar(s: FulltextSyntax)
    ensures
        no_dollar(spec_syntax_function(s)),
        spec_syntax_function(s).len() > 0,
        spec_syntax_function(s).last() != '$',
{
    reveal_strlit("to_tsquery");
    reveal_strlit("plainto_tsquery");
    reveal_strlit("phraseto_tsquery");
    reveal_strlit("websearch_to_tsquery");
    assert(no_dollar("to_tsquery"@));
    assert(no_dollar("plainto_tsquery"@));
    assert(no_dollar("phraseto_tsquery"@));
    assert(no_dollar("websearch_to_tsquery"@));
}

proof fn lemma_ft_frag_count(ft: FtModel, n: int)
    requires
        no_dollar(ft.lang),
        no_dollar(ft.key),
        ft.lang.len() > 0,
        ft.key.len() > 0,
    ensures
        ph_count(ft_frag(ft, n)) == 1,
        ft_frag(ft, n).len() > 0,
        ft_frag(ft, n).last() == ')',
{
    reveal_strlit("to_tsvector('");
    reveal_strlit("',object->>'");
    reveal_strlit("') @@ ");
    reveal_strlit("('");
    reveal_strlit("',");
    reveal_strlit(")");
    assert(no_dollar("to_tsvector('"@));
    assert(no_dollar("',object->>'"@));
    assert(no_dollar("') @@ "@));
    assert(no_dollar("('"@));
    assert(no_dollar("',"@));
    lemma_syntax_no_dollar(ft.syntax);
    let a1 = "to_tsvector('"@ + ft.lang;
    let a2 = a1 + "',object->>'"@;
    let a3 = a2 + ft.key;
    let a4 = a3 + "') @@ "@;
    let a5 = a4 + spec_syntax_function(ft.syntax);
    let a6 = a5 + "('"@;
    let a7 = a6 + ft.lang;
    let a8 = a7 + "',"@;
    lemma_no_dollar_concat("to_tsvector('"@, ft.lang);
    lemma_no_dollar_concat(a1, "',object->>'"@);
    lemma_no_dollar_concat(a2, ft.key);
    lemma_no_dollar_concat(a3, "') @@ "@);
    lemma_no_dollar_concat(a4, spec_syntax_function(ft.syntax));
    lemma_no_dollar_concat(a5, "('"@);
    lemma_no_dollar_concat(a6, ft.lang);
    lemma_no_dollar_concat(a7, "',"@);
    lemma_ph_count_zero(a8);
    lemma_ph_count_placeholder(n, ")"@);
    lemma_ph_count_concat(a8, ph(n) + ")"@);
    assert(ft_frag(ft, n) =~= a8 + (ph(n) + ")"@));
    assert(ph_count(")"@) == 0);
    assert(ft_frag(ft, n).last() == ')');
}

proof fn lemma_join_tail_count(fts: Seq<FtModel>, start: int, i: int)
    requires
        1 <= i,
        forall|j: int|
            0 <= j < fts.len() ==> no_dollar(#[trigger] fts[j].lang) && no_dollar(fts[j].key)
                && fts[j].lang.len() > 0 && fts[j].key.len() > 0,
    ensures
        ph_count(join_tail(ft_frags(fts, start), " AND "@, i)) == if i < fts.len() {
            fts.len() - i
        } else {
            0int
        },
        i < fts.len() ==> join_tail(ft_frags(fts, start), " AND "@, i).len() > 0,
        i < fts.len() ==> join_tail(ft_frags(fts, start), " AND "@, i).last() == ')',
    decreases fts.len() - i,
{
    let parts = ft_frags(fts, start);
    reveal_strlit(" AND ");
    assert(no_dollar(" AND "@));
    if i < fts.len() {
        lemma_join_tail_count(fts, start, i + 1);
        lemma_ft_frag_count(fts[i], start + i);
        assert(parts[i] == ft_frag(fts[i], start + i));
        lemma_ph_count_zero(" AND "@);
        lemma_count_append(" AND "@, parts[i]);
        lemma_count_append(" AND "@ + parts[i], join_tail(parts, " AND "@, i + 1));
    }
}

proof fn lemma_sjoin_count(fts: Seq<FtModel>, start: int)
    requires
        fts.len() > 0,
        forall|j: int|
            0 <= j < fts.len() ==> no_dollar(#[trigger] fts[j].lang) && no_dollar(fts[j].key)
                && fts[j].lang.len() > 0 && fts[j].key.len() > 0,
    ensures
        ph_count(spec_join(ft_frags(fts, start), " AND "@)) == fts.len(),
        spec_join(ft_frags(fts, start), " AND "@).len() > 0,
        spec_join(ft_frags(fts, start), " AND "@).last() == ')',
{
    let parts = ft_frags(fts, start);
    lemma_join_tail_count(fts, start, 1);
    lemma_ft_frag_count(fts[0], start);
    assert(parts[0] == ft_frag(fts[0], start));
    lemma_count_append(parts[0], join_tail(parts, " AND "@, 1));
}

proof fn lemma_find_direct_entry(fields: Seq<(String, Field)>, k: Seq<char>)
    requires
        spec_find_direct(fields, k) is Some,
    ensures
        exists|i: int|
            0 <= i < fields.len() && (#[trigger] fields[i]).0@ == k && spec_find_direct(fields, k)
                == Some(fields[i].1.query@),
    decreases fields.len(),
{
    if fields[0].0@ == k {
        assert(fields[0].0@ == k && spec_find_direct(fields, k) == Some(fields[0].1.query@));
    } else {
        lemma_find_direct_entry(fields.drop_first(), k);
        let i = choose|i: int|
            0 <= i < fields.drop_first().len() && (#[trigger] fields.drop_first()[i]).0@ == k
                && spec_find_direct(fields.drop_first(), k) == Some(
                fields.drop_first()[i].1.query@,
            );
        assert(fields[i + 1] == fields.drop_first()[i]);
    }
}

proof fn lemma_find_indirect_not_fulltext(fields: Seq<(String, Field)>, k: Seq<char>)
    ensures
        match spec_find_indirect(fields, k) {
            Some(p) => !(p.1 is Fulltext),
            None => true,
        },
    decreases fields.len(),
{
    if fields.len() > 0 {
        if spec_indirect_hit(fields[0], k) is Some {
        } else {
            lemma_find_indirect_not_fulltext(fields.drop_first(), k);
        }
    }
}

/// A full-text resolution always comes from a schema entry, so its spliced
/// parts carry the schema's well-formedness.
proof fn lemma_lookup_fulltext_wf(
    schema: Schema,
    k: Seq<char>,
    name: Seq<char>,
    lang: Seq<char>,
    syntax: FulltextSyntax,
    target: Option<Seq<char>>,
)
    requires
        schema.wf(),
        spec_lookup(schema, k) == Some(
            (name, FieldQueryModel::Fulltext { lang, syntax, target }),
        ),
    ensures
        ident_str(lang),
        ident_str(name),
        match target {
            Some(t) => path_ident(t),
            None => true,
        },
{
    lemma_find_indirect_not_fulltext(schema.fields@, k);
    assert(spec_find_direct(schema.fields@, k) is Some);
    lemma_find_direct_entry(schema.fields@, k);
    let i = choose|i: int|
        0 <= i < schema.fields@.len() && (#[trigger] schema.fields@[i]).0@ == k && spec_find_direct(
            schema.fields@,
            k,
        ) == Some(schema.fields@[i].1.query@);
    assert(ident_str(schema.fields@[i].0@) && field_query_wf(schema.fields@[i].1.query));
}

/// Along a successful parameter pass the full-text bindings and predicates
/// stay in step, and every gathered predicate splices schema-origin text.
proof fn lemma_run_shape(schema: Schema, params: Seq<(String, String)>, n: int)
    requires
        schema.wf(),
        0 <= n <= params.len(),
        spec_run(schema, params, n) is Ok,
    ensures
        spec_run(schema, params, n)->Ok_0.binds.len() == spec_run(schema, params, n)->Ok_0.fts.len(),
        forall|j: int|
            0 <= j < spec_run(schema, params, n)->Ok_0.fts.len() ==> ident_str(
                #[trigger] spec_run(schema, params, n)->Ok_0.fts[j].lang,
            ),
        forall|j: int|
            0 <= j < spec_run(schema, params, n)->Ok_0.fts.len() ==> path_ident(
                #[trigger] spec_run(schema, params, n)->Ok_0.fts[j].key,
            ),
    decreases n,
{
    if n > 0 {
        if spec_run(schema, params, n - 1) is Err {
            assert(spec_run(schema, params, n) is Err);
        }
        lemma_run_shape(schema, params, n - 1);
        let st0 = spec_run(schema, params, n - 1)->Ok_0;
        let stn = spec_run(schema, params, n)->Ok_0;
        let k = params[n - 1].0;
        match spec_lookup(schema, k@) {
            Some((name, q)) => match q {
                FieldQueryModel::Fulltext { lang, syntax, target } => {
                    lemma_lookup_fulltext_wf(schema, k@, name, lang, syntax, target);
                    let key = match target {
                        Some(t) => t,
                        None => name,
                    };
                    let ftm = FtModel { lang, syntax, key };
                    assert(stn.fts == st0.fts.push(ftm));
                    assert(path_ident(key));
                    assert forall|j: int|
                        0 <= j < stn.fts.len() implies ident_str(#[trigger] stn.fts[j].lang)
                        && path_ident(stn.fts[j].key) by {
                        if j < st0.fts.len() {
                            assert(stn.fts[j] == st0.fts[j]);
                        } else {
                            assert(stn.fts[j] == ftm);
                        }
                    }
                },
                _ => {
                    assert(stn.fts == st0.fts && stn.binds == st0.binds);
                    assert forall|j: int|
                        0 <= j < stn.fts.len() implies ident_str(#[trigger] stn.fts[j].lang)
                        && path_ident(stn.fts[j].key) by {
                        assert(ident_str(spec_run(schema, params, n - 1)->Ok_0.fts[j].lang));
                        assert(path_ident(spec_run(schema, params, n - 1)->Ok_0.fts[j].key));
                        assert(stn.fts[j] == st0.fts[j]);
                    }
                },
            },
            None => {
                assert(stn == st0);
                assert forall|j: int|
                    0 <= j < stn.fts.len() implies ident_str(#[trigger] stn.fts[j].lang)
                    && path_ident(stn.fts[j].key) by {
                    assert(ident_str(spec_run(schema, params, n - 1)->Ok_0.fts[j].lang));
                    assert(path_ident(spec_run(schema, params, n - 1)->Ok_0.fts[j].key));
                    assert(stn.fts[j] == st0.fts[j]);
                }
            },
        }
        assert forall|j: int|
            0 <= j < spec_run(schema, params, n)->Ok_0.fts.len() implies ident_str(
            #[trigger] spec_run(schema, params, n)->Ok_0.fts[j].lang,
        ) by {
            assert(ident_str(stn.fts[j].lang));
            assert(spec_run(schema, params, n)->Ok_0.fts[j] == stn.fts[j]);
        }
        assert forall|j: int|
            0 <= j < spec_run(schema, params, n)->Ok_0.fts.len() implies path_ident(
            #[trigger] spec_run(schema, params, n)->Ok_0.fts[j].key,
        ) by {
            assert(path_ident(stn.fts[j].key));
            assert(spec_run(schema, params, n)->Ok_0.fts[j] == stn.fts[j]);
        }
    } else {
        assert(spec_run(schema, params, n)->Ok_0.fts.len() == 0);
    }
}

proof fn lemma_ph_alone(x: int)
    ensures
        ph_count(ph(x)) == 1,
        ph(x).len() > 0,
        ph(x).last() != '$',
{
    lemma_ph_count_placeholder(x, Seq::empty());
    assert(ph(x) + Seq::<char>::empty() =~= ph(x));
    lemma_nat_string_no_dollar(x);
    assert(ph(x).last() == spec_nat_string(x).last());
}

/// Placeholder balance: every positional placeholder in the SQL template
/// has exactly one binding, so the count of dollar-digit occurrences in the
/// template equals the length of the binding list.
pub proof fn lemma_placeholder_balance(
    schema: Schema,
    params: Seq<(String, String)>,
    m: QueryModel,
)
    requires
        schema.wf(),
        spec_compile(schema, params) == Ok::<QueryModel, QueryErr>(m),
    ensures
        ph_count(m.sql) == m.bindings.len(),
{
    let n = params.len() as int;
    lemma_run_shape(schema, params, n);
    let st = spec_run(schema, params, n)->Ok_0;
    let has_j = st.jfs.len() > 0;
    let has_s = st.fts.len() > 0;
    let start: int = if has_j {
        5
    } else {
        4
    };
    assert forall|j: int|
        0 <= j < st.fts.len() implies no_dollar(#[trigger] st.fts[j].lang) && no_dollar(
        st.fts[j].key,
    ) && st.fts[j].lang.len() > 0 && st.fts[j].key.len() > 0 by {
        assert(ident_str(spec_run(schema, params, n)->Ok_0.fts[j].lang));
        assert(path_ident(spec_run(schema, params, n)->Ok_0.fts[j].key));
        lemma_ident_no_dollar(st.fts[j].lang);
        lemma_ident_no_dollar(st.fts[j].key);
    }
    reveal_strlit("SELECT object FROM ");
    reveal_strlit(" WHERE object @@ CAST(");
    reveal_strlit(" AS JSONPATH)");
    reveal_strlit(" AND ");
    reveal_strlit(" WHERE ");
    reveal_strlit(" ORDER BY (object #> (");
    reveal_strlit(")::text[]) ");
    reveal_strlit(", doc_id NULLS LAST LIMIT ");
    reveal_strlit(" OFFSET ");
    reveal_strlit("ASC");
    reveal_strlit("DESC");
    assert(no_dollar("SELECT object FROM "@));
    assert(no_dollar(" WHERE object @@ CAST("@));
    assert(no_dollar(" AS JSONPATH)"@));
    assert(no_dollar(" AND "@));
    assert(no_dollar(" WHERE "@));
    assert(no_dollar(" ORDER BY (object #> ("@));
    assert(no_dollar(")::text[]) "@));
    assert(no_dollar(", doc_id NULLS LAST LIMIT "@));
    assert(no_dollar(" OFFSET "@));
    assert(no_dollar("ASC"@));
    assert(no_dollar("DESC"@));
    let order = spec_order_str(params);
    assert(order == "ASC"@ || order == "DESC"@);
    assert(no_dollar(order) && order.len() > 0 && order.last() != '$');
    lemma_ident_no_dollar(schema.table@);
    lemma_ph_alone(1);
    lemma_ph_alone(2);
    lemma_ph_alone(3);
    lemma_ph_alone(4);

    let pa = " ORDER BY (object #> ("@;
    let t1 = pa + ph(if has_j { 2 } else { 1 });
    let t2 = t1 + ")::text[]) "@;
    let t3 = t2 + order;
    let t4 = t3 + ", doc_id NULLS LAST LIMIT "@;
    let t5 = t4 + ph(if has_j { 3 } else { 2 });
    let t6 = t5 + " OFFSET "@;
    let tail = t6 + ph(if has_j { 4 } else { 3 });
    lemma_ph_count_zero(pa);
    lemma_ph_count_zero(")::text[]) "@);
    lemma_ph_count_zero(order);
    lemma_ph_count_zero(", doc_id NULLS LAST LIMIT "@);
    lemma_ph_count_zero(" OFFSET "@);
    lemma_count_append(pa, ph(if has_j { 2 } else { 1 }));
    lemma_count_append(t1, ")::text[]) "@);
    lemma_count_append(t2, order);
    lemma_count_append(t3, ", doc_id NULLS LAST LIMIT "@);
    lemma_count_append(t4, ph(if has_j { 3 } else { 2 }));
    lemma_count_append(t5, " OFFSET "@);
    lemma_count_append(t6, ph(if has_j { 4 } else { 3 }));
    assert(ph_count(tail) == 3);

    let sjoin = spec_join(ft_frags(st.fts, start), " AND "@);
    if has_s {
        lemma_sjoin_count(st.fts, start);
    }
    let wherev: Seq<char> = if has_j {
        " WHERE object @@ CAST("@ + ph(1) + " AS JSONPATH)"@ + (if has_s {
            " AND "@ + sjoin
        } else {
            Seq::<char>::empty()
        })
    } else if has_s {
        " WHERE "@ + sjoin
    } else {
        Seq::<char>::empty()
    };
    lemma_ph_count_zero(" AND "@);
    lemma_ph_count_zero(" WHERE "@);
    lemma_ph_count_zero(" WHERE object @@ CAST("@);
    lemma_ph_count_zero(" AS JSONPATH)"@);
    if has_j {
        let w1 = " WHERE object @@ CAST("@ + ph(1);
        let w2 = w1 + " AS JSONPATH)"@;
        lemma_count_append(" WHERE object @@ CAST("@, ph(1));
        lemma_count_append(w1, " AS JSONPATH)"@);
        if has_s {
            lemma_count_append(" AND "@, sjoin);
            lemma_count_append(w2, " AND "@ + sjoin);
            assert(ph_count(wherev) == 1 + st.fts.len());
            assert(wherev.last() == ')');
        } else {
            assert(wherev =~= w2 + Seq::<char>::empty());
            lemma_count_append(w2, Seq::<char>::empty());
            assert(ph_count(wherev) == 1);
            assert(wherev.last() == ')');
        }
    } else if has_s {
        lemma_count_append(" WHERE "@, sjoin);
        assert(ph_count(wherev) == st.fts.len());
        assert(wherev.last() == ')');
    } else {
        assert(ph_count(wherev) == 0);
    }

    let base = "SELECT object FROM "@ + schema.table@;
    lemma_ph_count_zero("SELECT object FROM "@);
    lemma_ph_count_zero(schema.table@);
    lemma_count_append("SELECT object FROM "@, schema.table@);
    lemma_count_append(base, wherev);
    lemma_count_append(base + wherev, tail);
    assert(m.sql == base + wherev + tail);
    assert(ph_count(m.sql) == (if has_j { 1int } else { 0 }) + (if has_s {
        st.fts.len() as int
    } else {
        0
    }) + 3);
    assert(m.bindings.len() == (if has_j { 1int } else { 0 }) + 3 + st.binds.len());
}

/// Text that cannot break out of its syntactic context in the query: it
/// holds no backslash and no control character, so nothing in it can
/// escape a quoted position or smuggle an unprintable byte.
pub open spec fn clean_text(s: Seq<char>) -> bool {
    forall|i: int| 0 <= i < s.len() ==> s[i] != '\\' && !is_ctl_char(#[trigger] s[i])
}

proof fn lemma_clean_concat(a: Seq<char>, b: Seq<char>)
    requires
        clean_text(a),
        clean_text(b),
    ensures
        clean_text(a + b),
{
    assert forall|i: int|
        0 <= i < (a + b).len() implies (a + b)[i] != '\\' && !is_ctl_char(#[trigger] (a + b)[i]) by {
        if i < a.len() {
            assert((a + b)[i] == a[i]);
        } else {
            assert((a + b)[i] == b[i - a.len()]);
        }
    }
}

proof fn lemma_ident_clean(s: Seq<char>)
    requires
        forall|i: int| 0 <= i < s.len() ==> ident_char(#[trigger] s[i]) || s[i] == '.',
    ensures
        clean_text(s),
{
}

proof fn lemma_safe_clean(s: Seq<char>)
    requires
        crate::text::safe_term(s),
    ensures
        clean_text(s),
{
}

proof fn lemma_i64_clean(n: int)
    ensures
        clean_text(spec_i64_string(n)),
{
    crate::text::lemma_i64_string_chars(n);
}

proof fn lemma_ph_clean(n: int)
    ensures
        clean_text(ph(n)),
{
    lemma_nat_string_digits(n);
    assert forall|i: int|
        0 <= i < ph(n).len() implies ph(n)[i] != '\\' && !is_ctl_char(#[trigger] ph(n)[i]) by {
        if i > 0 {
            assert(ph(n)[i] == spec_nat_string(n)[i - 1]);
        }
    }
}

/// Every filter a term compiles to is clean: the only request-origin text
/// in it was either parsed to a scalar or checked against the safe lexical
/// form.
proof fn lemma_term_clean(q: FieldQueryModel, f: Seq<char>, k: Seq<char>, x: Seq<char>)
    requires
        clean_text(f),
        spec_term(q, f, k, x) is Ok,
    ensures
        clean_text(spec_term(q, f, k, x)->Ok_0),
{
    reveal_strlit("(exists($.");
    reveal_strlit("(!exists($.");
    reveal_strlit("($.");
    reveal_strlit(" == ");
    reveal_strlit(" > ");
    reveal_strlit(" < ");
    reveal_strlit(")");
    reveal_strlit(" == \"");
    reveal_strlit("\")");
    reveal_strlit("(($.");
    reveal_strlit(") || ($.");
    reveal_strlit("\"))");
    reveal_strlit(" || ");
    reveal_strlit("))");
    reveal_strlit("true");
    reveal_strlit("false");
    assert(clean_text("(exists($."@));
    assert(clean_text("(!exists($."@));
    assert(clean_text("($."@));
    assert(clean_text(" == "@));
    assert(clean_text(" > "@));
    assert(clean_text(" < "@));
    assert(clean_text(")"@));
    assert(clean_text(" == \""@));
    assert(clean_text("\")"@));
    assert(clean_text("(($."@));
    assert(clean_text(") || ($."@));
    assert(clean_text("\"))"@));
    assert(clean_text(" || "@));
    assert(clean_text("))"@));
    assert(clean_text("true"@));
    assert(clean_text("false"@));
    let fr = spec_term(q, f, k, x)->Ok_0;
    if x == "exists"@ || x == "notexists"@ {
        lemma_clean_concat("(exists($."@, f);
        lemma_clean_concat("(!exists($."@, f);
        lemma_clean_concat("(exists($."@ + f, "))"@);
        lemma_clean_concat("(!exists($."@ + f, "))"@);
    } else {
        assert forall|n: int|
            #![trigger spec_i64_string(n)]
            clean_text(crate::query::frag_eq(f, spec_i64_string(n))) && clean_text(
                crate::query::frag_gt(f, spec_i64_string(n)),
            ) && clean_text(crate::query::frag_lt(f, spec_i64_string(n))) && clean_text(
                crate::query::frag_numtag(f, spec_i64_string(n)),
            ) by {
            lemma_i64_clean(n);
            let v = spec_i64_string(n);
            lemma_clean_concat("($."@, f);
            lemma_clean_concat("($."@ + f, " == "@);
            lemma_clean_concat("($."@ + f + " == "@, v);
            lemma_clean_concat("($."@ + f + " == "@ + v, ")"@);
            lemma_clean_concat("($."@ + f, " > "@);
            lemma_clean_concat("($."@ + f + " > "@, v);
            lemma_clean_concat("($."@ + f + " > "@ + v, ")"@);
            lemma_clean_concat("($."@ + f, " < "@);
            lemma_clean_concat("($."@ + f + " < "@, v);
            lemma_clean_concat("($."@ + f + " < "@ + v, ")"@);
            lemma_clean_concat("(($."@, f);
            lemma_clean_concat("(($."@ + f, " == "@);
            lemma_clean_concat("(($."@ + f + " == "@, v);
            lemma_clean_concat("(($."@ + f + " == "@ + v, ") || ($."@);
            lemma_clean_concat("(($."@ + f + " == "@ + v + ") || ($."@, f);
            lemma_clean_concat("(($."@ + f + " == "@ + v + ") || ($."@ + f, " == \""@);
            lemma_clean_concat("(($."@ + f + " == "@ + v + ") || ($."@ + f + " == \""@, v);
            lemma_clean_concat(
                "(($."@ + f + " == "@ + v + ") || ($."@ + f + " == \""@ + v,
                "\"))"@,
            );
        }
        let sfrag = crate::query::frag_eq_str(f, x);
        if crate::text::safe_term(x) {
            lemma_safe_clean(x);
            lemma_clean_concat("($."@, f);
            lemma_clean_concat("($."@ + f, " == \""@);
            lemma_clean_concat("($."@ + f + " == \""@, x);
            lemma_clean_concat("($."@ + f + " == \""@ + x, "\")"@);
            assert(clean_text(sfrag));
        }
        match q {
            FieldQueryModel::Bool => {
                let b = crate::text::spec_parse_bool(x)->0;
                let v = crate::query::spec_bool_string(b);
                assert(clean_text(v));
                lemma_clean_concat("($."@, f);
                lemma_clean_concat("($."@ + f, " == "@);
                lemma_clean_concat("($."@ + f + " == "@, v);
                lemma_clean_concat("($."@ + f + " == "@ + v, ")"@);
            },
            FieldQueryModel::AmbiguousTag | FieldQueryModel::Nested => {
                if crate::text::spec_parse_i64(x) is Some {
                    let n = crate::text::spec_parse_i64(x)->0 as int;
                    lemma_clean_concat(crate::query::frag_eq(f, spec_i64_string(n)), " || "@);
                    lemma_clean_concat(
                        crate::query::frag_eq(f, spec_i64_string(n)) + " || "@,
                        sfrag,
                    );
                } else if crate::text::spec_parse_bool(x) is Some {
                    let b = crate::text::spec_parse_bool(x)->0;
                    let v = crate::query::spec_bool_string(b);
                    assert(clean_text(v));
                    lemma_clean_concat("($."@, f);
                    lemma_clean_concat("($."@ + f, " == "@);
                    lemma_clean_concat("($."@ + f + " == "@, v);
                    lemma_clean_concat("($."@ + f + " == "@ + v, ")"@);
                    lemma_clean_concat(crate::query::frag_eq(f, v), " || "@);
                    lemma_clean_concat(crate::query::frag_eq(f, v) + " || "@, sfrag);
                }
            },
            _ => {},
        }
    }
}

proof fn lemma_fold_clean(
    q: FieldQueryModel,
    f: Seq<char>,
    k: Seq<char>,
    toks: Seq<Seq<char>>,
    i: int,
)
    requires
        clean_text(f),
        crate::query::spec_terms_fold(q, f, k, toks, i) is Ok,
    ensures
        clean_text(crate::query::spec_terms_fold(q, f, k, toks, i)->Ok_0),
    decreases toks.len() - i,
{
    reveal_strlit(" && ");
    reveal_strlit(" || ");
    reveal_strlit(" ");
    assert(clean_text(" && "@));
    assert(clean_text(" || "@));
    assert(clean_text(" "@));
    if 0 <= i < toks.len() {
        lemma_term_clean(q, f, k, toks[i]);
        let fr = spec_term(q, f, k, toks[i])->Ok_0;
        if i + 2 < toks.len() {
            lemma_fold_clean(q, f, k, toks, i + 2);
            let rest = crate::query::spec_terms_fold(q, f, k, toks, i + 2)->Ok_0;
            lemma_clean_concat(fr, " && "@);
            lemma_clean_concat(fr + " && "@, rest);
            lemma_clean_concat(fr, " || "@);
            lemma_clean_concat(fr + " || "@, rest);
            lemma_clean_concat(fr, " "@);
            lemma_clean_concat(fr + " "@, rest);
        }
    } else {
        assert(clean_text(Seq::<char>::empty()));
    }
}

proof fn lemma_find_indirect_name(fields: Seq<(String, Field)>, k: Seq<char>)
    ensures
        match spec_find_indirect(fields, k) {
            Some(p) => p.1 is Nested || exists|i: int|
                0 <= i < fields.len() && p.0 == (#[trigger] fields[i]).0@,
            None => true,
        },
    decreases fields.len(),
{
    if fields.len() > 0 {
        if spec_indirect_hit(fields[0], k) is Some {
            let p = spec_indirect_hit(fields[0], k)->0;
            if !(p.1 is Nested) {
                assert(p.0 == fields[0].0@);
            }
        } else {
            lemma_find_indirect_name(fields.drop_first(), k);
            match spec_find_indirect(fields.drop_first(), k) {
                Some(p) => {
                    if !(p.1 is Nested) {
                        let i = choose|i: int|
                            0 <= i < fields.drop_first().len() && p.0 == (#[trigger] fields
                                .drop_first()[i]).0@;
                        assert(fields[i + 1] == fields.drop_first()[i]);
                    }
                },
                None => {},
            }
        }
    }
}

/// A resolved name that is not headed for the nested branch is a schema
/// field name, hence an identifier.
proof fn lemma_lookup_name_wf(schema: Schema, k: Seq<char>, name: Seq<char>, q: FieldQueryModel)
    requires
        schema.wf(),
        spec_lookup(schema, k) == Some((name, q)),
        !(q is Nested),
    ensures
        ident_str(name),
{
    if spec_find_direct(schema.fields@, k) is Some {
        lemma_find_direct_entry(schema.fields@, k);
    } else {
        lemma_find_indirect_name(schema.fields@, k);
    }
}

/// Every JSON-path filter the parameter pass gathers is clean.
proof fn lemma_run_clean(schema: Schema, params: Seq<(String, String)>, n: int)
    requires
        schema.wf(),
        0 <= n <= params.len(),
        spec_run(schema, params, n) is Ok,
    ensures
        forall|j: int|
            0 <= j < spec_run(schema, params, n)->Ok_0.jfs.len() ==> clean_text(
                #[trigger] spec_run(schema, params, n)->Ok_0.jfs[j],
            ),
    decreases n,
{
    if n > 0 {
        if spec_run(schema, params, n - 1) is Err {
            assert(spec_run(schema, params, n) is Err);
        }
        lemma_run_clean(schema, params, n - 1);
        let st0 = spec_run(schema, params, n - 1)->Ok_0;
        let stn = spec_run(schema, params, n)->Ok_0;
        let k = params[n - 1].0;
        let v = params[n - 1].1;
        assert forall|j: int| 0 <= j < stn.jfs.len() implies clean_text(#[trigger] stn.jfs[j]) by {
            if j < st0.jfs.len() {
                assert(clean_text(spec_run(schema, params, n - 1)->Ok_0.jfs[j]));
                assert(stn.jfs[j] == st0.jfs[j]);
            } else {
                match spec_lookup(schema, k@) {
                    Some((name, q)) => {
                        if q is Nested {
                            assert(path_ident(name));
                            lemma_ident_clean(name);
                        } else {
                            lemma_lookup_name_wf(schema, k@, name, q);
                            lemma_ident_clean(name);
                        }
                        lemma_fold_clean(
                            q,
                            name,
                            k@,
                            crate::text::spec_split(v@, '_'),
                            0,
                        );
                        assert(stn.jfs[j] == crate::query::spec_value(q, name, k@, v@)->Ok_0);
                    },
                    None => {
                        assert(false);
                    },
                }
            }
        }
        assert forall|j: int|
            0 <= j < spec_run(schema, params, n)->Ok_0.jfs.len() implies clean_text(
            #[trigger] spec_run(schema, params, n)->Ok_0.jfs[j],
        ) by {
            assert(clean_text(stn.jfs[j]));
        }
    }
}

proof fn lemma_join_tail_clean(parts: Seq<Seq<char>>, sep: Seq<char>, i: int)
    requires
        clean_text(sep),
        forall|j: int| 0 <= j < parts.len() ==> clean_text(#[trigger] parts[j]),
    ensures
        clean_text(join_tail(parts, sep, i)),
    decreases parts.len() - i,
{
    if 0 <= i < parts.len() {
        lemma_join_tail_clean(parts, sep, i + 1);
        lemma_clean_concat(sep, parts[i]);
        lemma_clean_concat(sep + parts[i], join_tail(parts, sep, i + 1));
    }
}

proof fn lemma_join_clean(parts: Seq<Seq<char>>, sep: Seq<char>)
    requires
        clean_text(sep),
        forall|j: int| 0 <= j < parts.len() ==> clean_text(#[trigger] parts[j]),
    ensures
        clean_text(spec_join(parts, sep)),
{
    if parts.len() > 0 {
        lemma_join_tail_clean(parts, sep, 1);
        lemma_clean_concat(parts[0], join_tail(parts, sep, 1));
    }
}

proof fn lemma_ft_frag_clean(ft: FtModel, n: int)
    requires
        ident_str(ft.lang),
        path_ident(ft.key),
    ensures
        clean_text(ft_frag(ft, n)),
{
    reveal_strlit("to_tsvector('");
    reveal_strlit("',object->>'");
    reveal_strlit("') @@ ");
    reveal_strlit("('");
    reveal_strlit("',");
    reveal_strlit(")");
    reveal_strlit("to_tsquery");
    reveal_strlit("plainto_tsquery");
    reveal_strlit("phraseto_tsquery");
    reveal_strlit("websearch_to_tsquery");
    assert(clean_text("to_tsvector('"@));
    assert(clean_text("',object->>'"@));
    assert(clean_text("') @@ "@));
    assert(clean_text("('"@));
    assert(clean_text("',"@));
    assert(clean_text(")"@));
    assert(clean_text(spec_syntax_function(ft.syntax))) by {
        assert(clean_text("to_tsquery"@));
        assert(clean_text("plainto_tsquery"@));
        assert(clean_text("phraseto_tsquery"@));
        assert(clean_text("websearch_to_tsquery"@));
    }
    lemma_ident_clean(ft.lang);
    lemma_ident_clean(ft.key);
    lemma_ph_clean(n);
    let a1 = "to_tsvector('"@ + ft.lang;
    let a2 = a1 + "',object->>'"@;
    let a3 = a2 + ft.key;
    let a4 = a3 + "') @@ "@;
    let a5 = a4 + spec_syntax_function(ft.syntax);
    let a6 = a5 + "('"@;
    let a7 = a6 + ft.lang;
    let a8 = a7 + "',"@;
    lemma_clean_concat("to_tsvector('"@, ft.lang);
    lemma_clean_concat(a1, "',object->>'"@);
    lemma_clean_concat(a2, ft.key);
    lemma_clean_concat(a3, "') @@ "@);
    lemma_clean_concat(a4, spec_syntax_function(ft.syntax));
    lemma_clean_concat(a5, "('"@);
    lemma_clean_concat(a6, ft.lang);
    lemma_clean_concat(a7, "',"@);
    lemma_clean_concat(a8, ph(n));
    lemma_clean_concat(a8 + ph(n), ")"@);
}

/// No raw injection: whatever the request held, the compiled JSON-path
/// filter and SQL template hold no backslash and no control character;
/// request-origin text reaches them only after parsing to a scalar or
/// passing the safe lexical form, and everything else is a binding.
pub proof fn lemma_no_raw_injection(schema: Schema, params: Seq<(String, String)>, m: QueryModel)
    requires
        schema.wf(),
        spec_compile(schema, params) == Ok::<QueryModel, QueryErr>(m),
    ensures
        clean_text(m.json_path),
        clean_text(m.sql),
{
    let n = params.len() as int;
    lemma_run_shape(schema, params, n);
    lemma_run_clean(schema, params, n);
    let st = spec_run(schema, params, n)->Ok_0;
    let has_j = st.jfs.len() > 0;
    let has_s = st.fts.len() > 0;
    let start: int = if has_j {
        5
    } else {
        4
    };
    reveal_strlit("SELECT object FROM ");
    reveal_strlit(" WHERE object @@ CAST(");
    reveal_strlit(" AS JSONPATH)");
    reveal_strlit(" AND ");
    reveal_strlit(" WHERE ");
    reveal_strlit(" ORDER BY (object #> (");
    reveal_strlit(")::text[]) ");
    reveal_strlit(", doc_id NULLS LAST LIMIT ");
    reveal_strlit(" OFFSET ");
    reveal_strlit("ASC");
    reveal_strlit("DESC");
    reveal_strlit("(");
    reveal_strlit(")");
    reveal_strlit(" && ");
    assert(clean_text("SELECT object FROM "@));
    assert(clean_text(" WHERE object @@ CAST("@));
    assert(clean_text(" AS JSONPATH)"@));
    assert(clean_text(" AND "@));
    assert(clean_text(" WHERE "@));
    assert(clean_text(" ORDER BY (object #> ("@));
    assert(clean_text(")::text[]) "@));
    assert(clean_text(", doc_id NULLS LAST LIMIT "@));
    assert(clean_text(" OFFSET "@));
    assert(clean_text("ASC"@));
    assert(clean_text("DESC"@));
    assert(clean_text("("@));
    assert(clean_text(")"@));
    assert(clean_text(" && "@));
    let order = spec_order_str(params);
    assert(order == "ASC"@ || order == "DESC"@);
    assert(clean_text(order));
    assert(clean_text(schema.table@)) by {
        lemma_ident_clean(schema.table@);
    }
    assert forall|j: int| 0 <= j < st.jfs.len() implies clean_text(#[trigger] st.jfs[j]) by {
        assert(clean_text(spec_run(schema, params, n)->Ok_0.jfs[j]));
    }
    let jp = if has_j {
        "("@ + spec_join(st.jfs, " && "@) + ")"@
    } else {
        Seq::<char>::empty()
    };
    if has_j {
        lemma_join_clean(st.jfs, " && "@);
        lemma_clean_concat("("@, spec_join(st.jfs, " && "@));
        lemma_clean_concat("("@ + spec_join(st.jfs, " && "@), ")"@);
    }
    assert(clean_text(jp));
    assert(m.json_path == jp);
    let sfrags = ft_frags(st.fts, start);
    assert forall|j: int| 0 <= j < sfrags.len() implies clean_text(#[trigger] sfrags[j]) by {
        assert(ident_str(spec_run(schema, params, n)->Ok_0.fts[j].lang));
        assert(path_ident(spec_run(schema, params, n)->Ok_0.fts[j].key));
        lemma_ft_frag_clean(st.fts[j], start + j);
        assert(sfrags[j] == ft_frag(st.fts[j], start + j));
    }
    let sjoin = spec_join(sfrags, " AND "@);
    lemma_join_clean(sfrags, " AND "@);
    let wherev: Seq<char> = if has_j {
        " WHERE object @@ CAST("@ + ph(1) + " AS JSONPATH)"@ + (if has_s {
            " AND "@ + sjoin
        } else {
            Seq::<char>::empty()
        })
    } else if has_s {
        " WHERE "@ + sjoin
    } else {
        Seq::<char>::empty()
    };
    lemma_ph_clean(1);
    lemma_ph_clean(2);
    lemma_ph_clean(3);
    lemma_ph_clean(4);
    if has_j {
        lemma_clean_concat(" WHERE object @@ CAST("@, ph(1));
        lemma_clean_concat(" WHERE object @@ CAST("@ + ph(1), " AS JSONPATH)"@);
        if has_s {
            lemma_clean_concat(" AND "@, sjoin);
            lemma_clean_concat(
                " WHERE object @@ CAST("@ + ph(1) + " AS JSONPATH)"@,
                " AND "@ + sjoin,
            );
        } else {
            lemma_clean_concat(
                " WHERE object @@ CAST("@ + ph(1) + " AS JSONPATH)"@,
                Seq::<char>::empty(),
            );
        }
    } else if has_s {
        lemma_clean_concat(" WHERE "@, sjoin);
    }
    assert(clean_text(wherev));
    let pa = " ORDER BY (object #> ("@;
    let t1 = pa + ph(if has_j { 2 } else { 1 });
    let t2 = t1 + ")::text[]) "@;
    let t3 = t2 + order;
    let t4 = t3 + ", doc_id NULLS LAST LIMIT "@;
    let t5 = t4 + ph(if has_j { 3 } else { 2 });
    let t6 = t5 + " OFFSET "@;
    let tail = t6 + ph(if has_j { 4 } else { 3 });
    lemma_clean_concat(pa, ph(if has_j { 2 } else { 1 }));
    lemma_clean_concat(t1, ")::text[]) "@);
    lemma_clean_concat(t2, order);
    lemma_clean_concat(t3, ", doc_id NULLS LAST LIMIT "@);
    lemma_clean_concat(t4, ph(if has_j { 3 } else { 2 }));
    lemma_clean_concat(t5, " OFFSET "@);
    lemma_clean_concat(t6, ph(if has_j { 4 } else { 3 }));
    let base = "SELECT object FROM "@ + schema.table@;
    lemma_clean_concat("SELECT object FROM "@, schema.table@);
    lemma_clean_concat(base, wherev);
    lemma_clean_concat(base + wherev, tail);
    assert(m.sql == base + wherev + tail);
}

/// A term that is not of the safe lexical form is rejected wherever it
/// would be spliced between quotes: compilation fails rather than emit it.
pub proof fn lemma_unsafe_term_rejected(
    q: FieldQueryModel,
    f: Seq<char>,
    k: Seq<char>,
    x: Seq<char>,
)
    requires
        q is StringTag || q is AmbiguousTag || q is Nested,
        !crate::text::safe_term(x),
        x != "exists"@,
        x != "notexists"@,
    ensures
        spec_term(q, f, k, x) is Err,
{
}

/// A parameter value written as a term list: the terms interleaved with
/// `_joiner_` separators, scanning from term `i`.
pub open spec fn joined_value(ts: Seq<Seq<char>>, js: Seq<Seq<char>>, i: int) -> Seq<char>
    decreases ts.len() - i,
{
    if i < 0 || i >= ts.len() {
        Seq::empty()
    } else if i == ts.len() - 1 {
        ts[i]
    } else {
        ts[i] + seq!['_'] + js[i] + seq!['_'] + joined_value(ts, js, i + 1)
    }
}

/// The token list such a value splits into: terms at even positions,
/// joiners at odd ones.
pub open spec fn token_list(ts: Seq<Seq<char>>, js: Seq<Seq<char>>, i: int) -> Seq<Seq<char>>
    decreases ts.len() - i,
{
    if i < 0 || i >= ts.len() {
        Seq::empty()
    } else if i == ts.len() - 1 {
        seq![ts[i]]
    } else {
        seq![ts[i], js[i]] + token_list(ts, js, i + 1)
    }
}

/// The folded filter such a term list compiles to: the terms' filters
/// interleaved with the joiners' operators.
pub open spec fn folded_frags(
    q: FieldQueryModel,
    f: Seq<char>,
    k: Seq<char>,
    ts: Seq<Seq<char>>,
    js: Seq<Seq<char>>,
    i: int,
) -> Seq<char>
    decreases ts.len() - i,
{
    if i < 0 || i >= ts.len() {
        Seq::empty()
    } else if i == ts.len() - 1 {
        spec_term(q, f, k, ts[i])->Ok_0
    } else {
        spec_term(q, f, k, ts[i])->Ok_0 + (if js[i] == "and"@ {
            " && "@
        } else {
            " || "@
        }) + folded_frags(q, f, k, ts, js, i + 1)
    }
}

pub open spec fn no_underscore(s: Seq<char>) -> bool {
    forall|i: int| 0 <= i < s.len() ==> s[i] != '_'
}

proof fn lemma_split_shift(s: Seq<char>, i: int, cur: Seq<char>)
    requires
        0 <= i <= s.len(),
    ensures
        crate::text::split_from(s, '_', i, cur) == crate::text::split_from(
            s.skip(i),
            '_',
            0,
            cur,
        ),
    decreases s.len() - i,
{
    if i < s.len() {
        lemma_split_shift(s, i + 1, cur);
        lemma_split_shift(s, i + 1, cur.push(s[i]));
        lemma_split_shift(s, i + 1, Seq::empty());
        assert(s.skip(i).len() > 0 && s.skip(i)[0] == s[i]);
        assert(s.skip(i).skip(1) =~= s.skip(i + 1));
        lemma_split_shift(s.skip(i), 1, cur.push(s[i]));
        lemma_split_shift(s.skip(i), 1, Seq::empty());
    } else {
        assert(s.skip(i).len() == 0);
    }
}

proof fn lemma_split_nosep(t: Seq<char>, u: Seq<char>, cur: Seq<char>)
    requires
        no_underscore(t),
    ensures
        crate::text::split_from(t + u, '_', 0, cur) == crate::text::split_from(
            u,
            '_',
            0,
            cur + t,
        ),
    decreases t.len(),
{
    if t.len() == 0 {
        assert(t + u =~= u);
        assert(cur + t =~= cur);
    } else {
        assert(forall|j: int| 0 <= j < t.drop_first().len() ==> t.drop_first()[j] == t[j + 1]);
        lemma_split_nosep(t.drop_first(), u, cur.push(t[0]));
        assert((t + u)[0] == t[0]);
        lemma_split_shift(t + u, 1, cur.push(t[0]));
        assert((t + u).skip(1) =~= t.drop_first() + u);
        assert(cur.push(t[0]) + t.drop_first() =~= cur + t);
    }
}

proof fn lemma_split_sep_first(u: Seq<char>, cur: Seq<char>)
    ensures
        crate::text::split_from(seq!['_'] + u, '_', 0, cur) == seq![cur]
            + crate::text::split_from(u, '_', 0, Seq::empty()),
{
    let s = seq!['_'] + u;
    assert(s[0] == '_');
    lemma_split_shift(s, 1, Seq::empty());
    assert(s.skip(1) =~= u);
}

proof fn lemma_split_joined(ts: Seq<Seq<char>>, js: Seq<Seq<char>>, i: int)
    requires
        0 <= i < ts.len(),
        js.len() == ts.len() - 1,
        forall|m: int| 0 <= m < ts.len() ==> no_underscore(#[trigger] ts[m]),
        forall|m: int| 0 <= m < js.len() ==> (#[trigger] js[m]) == "and"@ || js[m] == "or"@,
    ensures
        crate::text::spec_split(joined_value(ts, js, i), '_') == token_list(ts, js, i),
    decreases ts.len() - i,
{
    reveal_strlit("and");
    reveal_strlit("or");
    assert(no_underscore("and"@));
    assert(no_underscore("or"@));
    let v = joined_value(ts, js, i);
    if i == ts.len() - 1 {
        assert(v =~= ts[i] + Seq::<char>::empty());
        lemma_split_nosep(ts[i], Seq::empty(), Seq::empty());
        assert(Seq::<char>::empty() + ts[i] =~= ts[i]);
    } else {
        lemma_split_joined(ts, js, i + 1);
        let rest = joined_value(ts, js, i + 1);
        assert(v =~= ts[i] + (seq!['_'] + (js[i] + (seq!['_'] + rest))));
        lemma_split_nosep(ts[i], seq!['_'] + (js[i] + (seq!['_'] + rest)), Seq::empty());
        assert(Seq::<char>::empty() + ts[i] =~= ts[i]);
        lemma_split_sep_first(js[i] + (seq!['_'] + rest), ts[i]);
        assert(no_underscore(js[i]));
        lemma_split_nosep(js[i], seq!['_'] + rest, Seq::empty());
        assert(Seq::<char>::empty() + js[i] =~= js[i]);
        lemma_split_sep_first(rest, js[i]);
        assert(seq![ts[i]] + (seq![js[i]] + token_list(ts, js, i + 1)) =~= token_list(ts, js, i));
    }
}

proof fn lemma_fold_shift(
    q: FieldQueryModel,
    f: Seq<char>,
    k: Seq<char>,
    a: Seq<Seq<char>>,
    b: Seq<Seq<char>>,
    i: int,
)
    requires
        0 <= i,
    ensures
        crate::query::spec_terms_fold(q, f, k, a + b, a.len() + i) == crate::query::spec_terms_fold(
            q,
            f,
            k,
            b,
            i,
        ),
    decreases b.len() - i,
{
    if i < b.len() {
        assert((a + b)[a.len() + i] == b[i]);
        if i + 2 < b.len() {
            lemma_fold_shift(q, f, k, a, b, i + 2);
            assert((a + b)[a.len() + i + 1] == b[i + 1]);
        }
    }
}

proof fn lemma_fold_tokens(
    q: FieldQueryModel,
    f: Seq<char>,
    k: Seq<char>,
    ts: Seq<Seq<char>>,
    js: Seq<Seq<char>>,
    i: int,
)
    requires
        0 <= i < ts.len(),
        js.len() == ts.len() - 1,
        forall|m: int| 0 <= m < ts.len() ==> spec_term(q, f, k, #[trigger] ts[m]) is Ok,
        forall|m: int| 0 <= m < js.len() ==> (#[trigger] js[m]) == "and"@ || js[m] == "or"@,
    ensures
        crate::query::spec_terms_fold(q, f, k, token_list(ts, js, i), 0) == Ok::<Seq<char>, QueryErr>(
            folded_frags(q, f, k, ts, js, i),
        ),
    decreases ts.len() - i,
{
    reveal_strlit("and");
    reveal_strlit("or");
    assert("and"@.len() == 3 && "or"@.len() == 2);
    let toks = token_list(ts, js, i);
    if i == ts.len() - 1 {
        assert(toks[0] == ts[i]);
    } else {
        lemma_fold_tokens(q, f, k, ts, js, i + 1);
        assert(toks[0] == ts[i] && toks[1] == js[i]);
        lemma_fold_shift(q, f, k, seq![ts[i], js[i]], token_list(ts, js, i + 1), 0);
        assert(token_list(ts, js, i + 1).len() >= 1);
        assert(toks.len() == 2 + token_list(ts, js, i + 1).len());
        assert(js[i] != "or"@ ==> js[i] == "and"@);
    }
}

/// Operator fold: a value written as `t1 _op1_ t2 _op2_ .. tn`, with each
/// term free of underscores and compiling to a filter, compiles to exactly
/// those filters interleaved with `&&` for `and` and `||` for `or`.
pub proof fn lemma_operator_fold(
    q: FieldQueryModel,
    f: Seq<char>,
    k: Seq<char>,
    ts: Seq<Seq<char>>,
    js: Seq<Seq<char>>,
)
    requires
        ts.len() >= 1,
        js.len() == ts.len() - 1,
        forall|m: int| 0 <= m < ts.len() ==> no_underscore(#[trigger] ts[m]),
        forall|m: int| 0 <= m < ts.len() ==> spec_term(q, f, k, #[trigger] ts[m]) is Ok,
        forall|m: int| 0 <= m < js.len() ==> (#[trigger] js[m]) == "and"@ || js[m] == "or"@,
    ensures
        crate::query::spec_value(q, f, k, joined_value(ts, js, 0)) == Ok::<Seq<char>, QueryErr>(
            folded_frags(q, f, k, ts, js, 0),
        ),
{
    lemma_split_joined(ts, js, 0);
    lemma_fold_tokens(q, f, k, ts, js, 0);
}

/// Compilation is a function of the schema and the parameter list alone:
/// two successful compilations of the same inputs are byte-identical.
pub proof fn lemma_compile_deterministic(
    schema: Schema,
    params: Seq<(String, String)>,
    r1: QueryModel,
    r2: QueryModel,
)
    requires
        spec_compile(schema, params) == Ok::<QueryModel, QueryErr>(r1),
        spec_compile(schema, params) == Ok::<QueryModel, QueryErr>(r2),
    ensures
        r1 == r2,
{
}

proof fn lemma_first_val_absent(params: Seq<(String, String)>, key: Seq<char>)
    requires
        forall|i: int| 0 <= i < params.len() ==> (#[trigger] params[i].0)@ != key,
    ensures
        first_val(params, key) is None,
    decreases params.len(),
{
    if params.len() > 0 {
        assert(forall|i: int|
            0 <= i < params.drop_first().len() ==> (#[trigger] params.drop_first()[i].0)@
                != key) by {
            assert(forall|i: int|
                0 <= i < params.drop_first().len() ==> params.drop_first()[i] == params[i + 1]);
        }
        lemma_first_val_absent(params.drop_first(), key);
    }
}

/// A request without a `limit` parameter compiles with the default page
/// size of 100.
pub proof fn lemma_default_limit(schema: Schema, params: Seq<(String, String)>, m: QueryModel)
    requires
        spec_compile(schema, params) == Ok::<QueryModel, QueryErr>(m),
        forall|i: int| 0 <= i < params.len() ==> (#[trigger] params[i].0)@ != "limit"@,
    ensures
        m.limit == 100,
{
    lemma_first_val_absent(params, "limit"@);
}

/// A request without an `offset` parameter compiles with offset 0.
pub proof fn lemma_default_offset(schema: Schema, params: Seq<(String, String)>, m: QueryModel)
    requires
        spec_compile(schema, params) == Ok::<QueryModel, QueryErr>(m),
        forall|i: int| 0 <= i < params.len() ==> (#[trigger] params[i].0)@ != "offset"@,
    ensures
        m.offset == 0,
{
    lemma_first_val_absent(params, "offset"@);
}

/// A request without a `sortby` parameter sorts by the schema's default
/// order field.
pub proof fn lemma_default_sortby(schema: Schema, params: Seq<(String, String)>, m: QueryModel)
    requires
        spec_compile(schema, params) == Ok::<QueryModel, QueryErr>(m),
        forall|i: int| 0 <= i < params.len() ==> (#[trigger] params[i].0)@ != "sortby"@,
    ensures
        m.sort_field == schema.default_order_by@,
{
    lemma_first_val_absent(params, "sortby"@);
}

/// A request without a `sortorder` parameter sorts descending.
pub proof fn lemma_default_sortorder(schema: Schema, params: Seq<(String, String)>, m: QueryModel)
    requires
        spec_compile(schema, params) == Ok::<QueryModel, QueryErr>(m),
        forall|i: int| 0 <= i < params.len() ==> (#[trigger] params[i].0)@ != "sortorder"@,
    ensures
        m.sort_order == SortOrder::Desc,
{
    lemma_first_val_absent(params, "sortorder"@);
}

/// A `sortorder` value that upper-cases to neither `ASC` nor `DESC`
/// collapses to ascending.
pub proof fn lemma_unknown_sortorder(
    schema: Schema,
    params: Seq<(String, String)>,
    m: QueryModel,
    s: Seq<char>,
)
    requires
        spec_compile(schema, params) == Ok::<QueryModel, QueryErr>(m),
        first_val(params, "sortorder"@) == Some(s),
        spec_ascii_upper(s) != "ASC"@,
        spec_ascii_upper(s) != "DESC"@,
    ensures
        m.sort_order == SortOrder::Asc,
{
    reveal_strlit("ASC");
    reveal_strlit("DESC");
    assert("ASC"@.len() != "DESC"@.len());
    assert(spec_order_str(params) == "ASC"@);
}

/// Transforming a document twice is the same as transforming it once: a
/// converted field no longer holds a value of the converter's input shape.
pub proof fn lemma_transform_idempotent(schema: Schema, d: Seq<(Seq<char>, DocValueModel)>)
    ensures
        spec_transform(schema, spec_transform(schema, d)) == spec_transform(schema, d),
{
    let once = spec_transform(schema, d);
    let twice = spec_transform(schema, once);
    assert forall|i: int| 0 <= i < d.len() implies twice[i] == once[i] by {
        let e = d[i];
        match spec_conv_for(schema.fields@, e.0) {
            Some(c) => {
                assert(once[i] == (e.0, spec_apply_conv(c, e.1)));
                assert(twice[i] == (e.0, spec_apply_conv(c, spec_apply_conv(c, e.1))));
            },
            None => {},
        }
    }
    assert(twice =~= once);
}

} // verus!
