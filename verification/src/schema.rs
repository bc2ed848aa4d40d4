//! The schema model: the declarative description of how each logical field
//! of a document table is queried and post-processed, and the lookup that
//! resolves a request parameter name to a field and its effective query kind.
use vstd::prelude::*;
use crate::text::{ident_str, path_ident, str_eq};

verus! {

/// How a full-text parameter value is interpreted by the database: each
/// variant stands for one of the database's text-search query constructors.
#[derive(Clone, Copy, Debug)]
pub enum FulltextSyntax {
    TsQuery,
    Plain,
    Phrase,
    WebSearch,
}

impl Default for FulltextSyntax {
    fn default() -> (r: Self)
        ensures
            r == FulltextSyntax::WebSearch,
    {
        FulltextSyntax::WebSearch
    }
}

/// The database function a syntax variant maps to.
pub open spec fn spec_syntax_function(s: FulltextSyntax) -> Seq<char> {
    match s {
        FulltextSyntax::TsQuery => "to_tsquery"@,
        FulltextSyntax::Plain => "plainto_tsquery"@,
        FulltextSyntax::Phrase => "phraseto_tsquery"@,
        FulltextSyntax::WebSearch => "websearch_to_tsquery"@,
    }
}

impl FulltextSyntax {
    /// The name of the database function this syntax selects.
    pub fn function_name(&self) -> (r: &'static str)
        ensures
            r@ == spec_syntax_function(*self),
    {
        match self {
            FulltextSyntax::TsQuery => "to_tsquery",
            FulltextSyntax::Plain => "plainto_tsquery",
            FulltextSyntax::Phrase => "phraseto_tsquery",
            FulltextSyntax::WebSearch => "websearch_to_tsquery",
        }
    }
}

/// The source form of a converted field, as declared in the schema.
#[derive(Clone, Copy, Debug, PartialEq, Eq, Structural)]
pub enum ConvertFrom {
    CommaSeparatedString,
    SemicolonSeparatedString,
    DateTimeString,
    DateString,
}

/// The stored form a converted field is turned back from on egress.
#[derive(Clone, Copy, Debug, PartialEq, Eq, Structural)]
pub enum ConvertTo {
    Timestamp,
    TimestampMillis,
    TagArray,
}

/// A per-field egress conversion: stored form and source form.
#[derive(Clone, Copy, Debug, PartialEq, Eq, Structural)]
pub struct ConverterSchema {
    pub from: ConvertFrom,
    pub to: ConvertTo,
}

/// The query semantics of one logical field.
///
/// `Min` and `Max` are never written in a schema; the lookup synthesizes
/// them when a request uses the `min` or `max` alias of a `Range` field.
#[derive(Debug)]
pub enum FieldQuery {
    Range { min: String, max: String, aliases: Vec<(String, i64)> },
    Fulltext { lang: String, syntax: FulltextSyntax, target: Option<String> },
    AmbiguousTag,
    NumericTag { aliases: Vec<(String, i64)> },
    StringTag,
    Nested,
    Min,
    Max,
    Bool,
}

/// Mathematical image of a `FieldQuery`: names as character sequences. The
/// alias tables keep their executable pairs; contracts read their views.
pub enum FieldQueryModel {
    Range { min: Seq<char>, max: Seq<char>, aliases: Seq<(String, i64)> },
    Fulltext { lang: Seq<char>, syntax: FulltextSyntax, target: Option<Seq<char>> },
    AmbiguousTag,
    NumericTag { aliases: Seq<(String, i64)> },
    StringTag,
    Nested,
    Min,
    Max,
    Bool,
}

impl View for FieldQuery {
    type V = FieldQueryModel;

    open spec fn view(&self) -> FieldQueryModel {
        match self {
            FieldQuery::Range { min, max, aliases } => FieldQueryModel::Range {
                min: min@,
                max: max@,
                aliases: aliases@,
            },
            FieldQuery::Fulltext { lang, syntax, target } => FieldQueryModel::Fulltext {
                lang: lang@,
                syntax: *syntax,
                target: match target {
                    Some(t) => Some(t@),
                    None => None,
                },
            },
            FieldQuery::AmbiguousTag => FieldQueryModel::AmbiguousTag,
            FieldQuery::NumericTag { aliases } => FieldQueryModel::NumericTag {
                aliases: aliases@,
            },
            FieldQuery::StringTag => FieldQueryModel::StringTag,
            FieldQuery::Nested => FieldQueryModel::Nested,
            FieldQuery::Min => FieldQueryModel::Min,
            FieldQuery::Max => FieldQueryModel::Max,
            FieldQuery::Bool => FieldQueryModel::Bool,
        }
    }
}

impl Default for FieldQuery {
    fn default() -> (r: Self)
        ensures
            r == FieldQuery::AmbiguousTag,
    {
        FieldQuery::AmbiguousTag
    }
}

/// One schema entry: the field's name, its optional egress converter and
/// its query kind.
#[derive(Debug)]
pub struct Field {
    pub name: String,
    pub converter: Option<ConverterSchema>,
    pub query: FieldQuery,
}

/// A schema: the backing table, the default sort field, and the fields in a
/// fixed order (the order decides which entry wins when several could match
/// a request name).
#[derive(Debug)]
pub struct Schema {
    pub fields: Vec<(String, Field)>,
    pub default_order_by: String,
    pub table: String,
}

/// Well-formedness of a query kind: the schema-origin text that is spliced
/// verbatim into query strings must be identifier-like.
pub open spec fn field_query_wf(q: FieldQuery) -> bool {
    match q {
        FieldQuery::Fulltext { lang, target, .. } => ident_str(lang@) && match target {
            Some(t) => path_ident(t@),
            None => true,
        },
        _ => true,
    }
}

impl Schema {
    /// The trust the compiler places in a configuration-origin schema:
    /// table and field names are identifiers, and full-text languages and
    /// targets are identifier-like, so that splicing them cannot change
    /// the shape of the query text.
    pub open spec fn wf(&self) -> bool {
        &&& ident_str(self.table@)
        &&& forall|i: int| 0 <= i < self.fields@.len() ==> ident_str(
            #[trigger] self.fields@[i].0@,
        ) && field_query_wf(self.fields@[i].1.query)
    }
}

/// The leading dotted segment of a request name: everything before the
/// first `.`, or the whole name when it has none.
pub open spec fn head_segment(k: Seq<char>) -> Seq<char>
    decreases k.len(),
{
    if k.len() == 0 {
        k
    } else if k[0] == '.' {
        Seq::empty()
    } else {
        seq![k[0]] + head_segment(k.drop_first())
    }
}

proof fn lemma_head_segment_prefix(k: Seq<char>, i: int)
    requires
        0 <= i <= k.len(),
        forall|j: int| 0 <= j < i ==> k[j] != '.',
        i == k.len() || k[i] == '.',
    ensures
        head_segment(k) == k.take(i),
    decreases i,
{
    if k.len() == 0 {
        assert(head_segment(k) =~= k.take(i));
    } else if i == 0 {
        assert(head_segment(k) =~= k.take(0));
    } else {
        lemma_head_segment_prefix(k.drop_first(), i - 1);
        assert(head_segment(k) =~= seq![k[0]] + k.drop_first().take(i - 1));
        assert(head_segment(k) =~= k.take(i));
    }
}

/// The leading dotted segment, executable form.
pub fn head_segment_exec(k: &str) -> (r: String)
    ensures
        r@ == head_segment(k@),
{
    let len = k.unicode_len();
    let mut i: usize = 0;
    while i < len
        invariant
            len == k@.len(),
            i <= len,
            forall|j: int| 0 <= j < i ==> k@[j] != '.',
        decreases len - i,
    {
        if k.get_char(i) == '.' {
            proof {
                lemma_head_segment_prefix(k@, i as int);
            }
            let s = k.substring_char(0, i);
            return s.to_owned();
        }
        i = i + 1;
    }
    proof {
        lemma_head_segment_prefix(k@, len as int);
        assert(k@.take(len as int) =~= k@);
    }
    k.to_owned()
}

/// The first alias entry whose key is `key`, scanning from the front.
pub open spec fn spec_alias_find(aliases: Seq<(String, i64)>, key: Seq<char>) -> Option<i64>
    decreases aliases.len(),
{
    if aliases.len() == 0 {
        None
    } else if aliases[0].0@ == key {
        Some(aliases[0].1)
    } else {
        spec_alias_find(aliases.drop_first(), key)
    }
}

/// Looks `key` up in an alias table.
pub fn alias_find(aliases: &Vec<(String, i64)>, key: &str) -> (r: Option<i64>)
    ensures
        r == spec_alias_find(aliases@, key@),
{
    let mut i: usize = 0;
    proof {
        assert(aliases@.skip(0) =~= aliases@);
    }
    while i < aliases.len()
        invariant
            i <= aliases@.len(),
            spec_alias_find(aliases@, key@) == spec_alias_find(aliases@.skip(i as int), key@),
        decreases aliases@.len() - i,
    {
        proof {
            assert(aliases@.skip(i as int)[0] == aliases@[i as int]);
            assert(aliases@.skip(i as int).drop_first() =~= aliases@.skip(i + 1));
        }
        if str_eq(aliases[i].0.as_str(), key) {
            return Some(aliases[i].1);
        }
        i = i + 1;
    }
    proof {
        assert(aliases@.skip(i as int).len() == 0);
    }
    None
}

pub fn clone_aliases(aliases: &Vec<(String, i64)>) -> (r: Vec<(String, i64)>)
    ensures
        r@ == aliases@,
{
    let mut r: Vec<(String, i64)> = Vec::new();
    let mut i: usize = 0;
    while i < aliases.len()
        invariant
            i <= aliases@.len(),
            r@ == aliases@.take(i as int),
        decreases aliases@.len() - i,
    {
        r.push((aliases[i].0.clone(), aliases[i].1));
        proof {
            assert(r@ =~= aliases@.take(i + 1));
        }
        i = i + 1;
    }
    proof {
        assert(r@ =~= aliases@);
    }
    r
}

pub fn clone_query(q: &FieldQuery) -> (r: FieldQuery)
    ensures
        r@ == q@,
{
    match q {
        FieldQuery::Range { min, max, aliases } => FieldQuery::Range {
            min: min.clone(),
            max: max.clone(),
            aliases: clone_aliases(aliases),
        },
        FieldQuery::Fulltext { lang, syntax, target } => FieldQuery::Fulltext {
            lang: lang.clone(),
            syntax: *syntax,
            target: match target {
                Some(t) => Some(t.clone()),
                None => None,
            },
        },
        FieldQuery::AmbiguousTag => FieldQuery::AmbiguousTag,
        FieldQuery::NumericTag { aliases } => FieldQuery::NumericTag {
            aliases: clone_aliases(aliases),
        },
        FieldQuery::StringTag => FieldQuery::StringTag,
        FieldQuery::Nested => FieldQuery::Nested,
        FieldQuery::Min => FieldQuery::Min,
        FieldQuery::Max => FieldQuery::Max,
        FieldQuery::Bool => FieldQuery::Bool,
    }
}

/// The first field whose name equals the request name exactly.
pub open spec fn spec_find_direct(fields: Seq<(String, Field)>, k: Seq<char>) -> Option<
    FieldQueryModel,
>
    decreases fields.len(),
{
    if fields.len() == 0 {
        None
    } else if fields[0].0@ == k {
        Some(fields[0].1.query@)
    } else {
        spec_find_direct(fields.drop_first(), k)
    }
}

/// Whether one field entry resolves the request name indirectly, and to
/// what: the `min`/`max` alias of a `Range`, or a `Nested` field whose name
/// equals the leading dotted segment of the request name.
pub open spec fn spec_indirect_hit(entry: (String, Field), k: Seq<char>) -> Option<
    (Seq<char>, FieldQueryModel),
> {
    match entry.1.query@ {
        FieldQueryModel::Range { min, max, .. } => if k == min {
            Some((entry.0@, FieldQueryModel::Min))
        } else if k == max {
            Some((entry.0@, FieldQueryModel::Max))
        } else {
            None
        },
        FieldQueryModel::Nested => if head_segment(k) == entry.0@ {
            Some((k, FieldQueryModel::Nested))
        } else {
            None
        },
        _ => None,
    }
}

/// The first field that resolves the request name indirectly.
pub open spec fn spec_find_indirect(fields: Seq<(String, Field)>, k: Seq<char>) -> Option<
    (Seq<char>, FieldQueryModel),
>
    decreases fields.len(),
{
    if fields.len() == 0 {
        None
    } else if spec_indirect_hit(fields[0], k) is Some {
        spec_indirect_hit(fields[0], k)
    } else {
        spec_find_indirect(fields.drop_first(), k)
    }
}

/// Resolution of a request parameter name against the schema: an exact
/// field-name match wins and keeps the name; otherwise a `Range`'s `min` or
/// `max` alias yields the owning field's name with the `Min`/`Max` pseudo
/// kind, and a `Nested` field matching the leading dotted segment yields
/// the request's full dotted name. Names that resolve to nothing are the
/// caller's to skip: that is how control parameters pass through.
pub open spec fn spec_lookup(schema: Schema, k: Seq<char>) -> Option<
    (Seq<char>, FieldQueryModel),
> {
    match spec_find_direct(schema.fields@, k) {
        Some(q) => Some((k, q)),
        None => spec_find_indirect(schema.fields@, k),
    }
}

impl Schema {
    /// Resolves a request parameter name to the logical field name and the
    /// effective query kind, or `None` when the schema does not know it.
    pub fn lookup(&self, k: &str) -> (r: Option<(String, FieldQuery)>)
        ensures
            match r {
                Some(p) => spec_lookup(*self, k@) == Some((p.0@, p.1@)),
                None => spec_lookup(*self, k@) is None,
            },
    {
        let mut i: usize = 0;
        proof {
            assert(self.fields@.skip(0) =~= self.fields@);
        }
        while i < self.fields.len()
            invariant
                i <= self.fields@.len(),
                spec_find_direct(self.fields@, k@) == spec_find_direct(
                    self.fields@.skip(i as int),
                    k@,
                ),
            decreases self.fields@.len() - i,
        {
            proof {
                assert(self.fields@.skip(i as int)[0] == self.fields@[i as int]);
                assert(self.fields@.skip(i as int).drop_first() =~= self.fields@.skip(i + 1));
            }
            if str_eq(self.fields[i].0.as_str(), k) {
                return Some((self.fields[i].0.clone(), clone_query(&self.fields[i].1.query)));
            }
            i = i + 1;
        }
        proof {
            assert(self.fields@.skip(i as int).len() == 0);
        }
        let head = head_segment_exec(k);
        let mut j: usize = 0;
        proof {
            assert(self.fields@.skip(0) =~= self.fields@);
        }
        while j < self.fields.len()
            invariant
                j <= self.fields@.len(),
                head@ == head_segment(k@),
                spec_find_direct(self.fields@, k@) is None,
                spec_find_indirect(self.fields@, k@) == spec_find_indirect(
                    self.fields@.skip(j as int),
                    k@,
                ),
            decreases self.fields@.len() - j,
        {
            proof {
                assert(self.fields@.skip(j as int)[0] == self.fields@[j as int]);
                assert(self.fields@.skip(j as int).drop_first() =~= self.fields@.skip(j + 1));
            }
            match &self.fields[j].1.query {
                FieldQuery::Range { min, max, .. } => {
                    if str_eq(k, min.as_str()) {
                        return Some((self.fields[j].0.clone(), FieldQuery::Min));
                    }
                    if str_eq(k, max.as_str()) {
                        return Some((self.fields[j].0.clone(), FieldQuery::Max));
                    }
                },
                FieldQuery::Nested => {
                    if str_eq(head.as_str(), self.fields[j].0.as_str()) {
                        return Some((k.to_owned(), FieldQuery::Nested));
                    }
                },
                _ => {},
            }
            j = j + 1;
        }
        proof {
            assert(self.fields@.skip(j as int).len() == 0);
        }
        None
    }
}

} // verus!
