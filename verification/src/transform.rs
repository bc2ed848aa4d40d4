//! The result transformer: applies the schema's per-field converters to
//! each returned document on egress. The only actioned conversions today
//! turn stored epoch timestamps back into RFC-3339 strings; every other
//! declared pair passes through unchanged.
use vstd::prelude::*;
use crate::schema::{ConvertFrom, ConvertTo, ConverterSchema, Field, Schema};

verus! {

/// The RFC-3339 rendering, millisecond precision, UTC `Z` suffix, of an
/// epoch expressed in seconds; absent when the instant is out of the
/// calendar's range. The rendering depends on the seconds alone.
pub uninterp spec fn rfc3339_millis_of_secs(s: int) -> Option<Seq<char>>;

/// The RFC-3339 rendering, millisecond precision, UTC `Z` suffix, of an
/// epoch expressed in milliseconds; absent when out of range.
pub uninterp spec fn rfc3339_millis_of_millis(ms: int) -> Option<Seq<char>>;

/// Relies on chrono's `DateTime::<Utc>::from_timestamp` (`None` exactly on
/// an out-of-range number of seconds) and `DateTime::to_rfc3339_opts` with
/// millisecond precision and the `Z` suffix: the result is a function of
/// the seconds alone.
#[verifier::external_body]
fn format_epoch_secs(n: i64) -> (r: Option<String>)
    ensures
        match r {
            Some(s) => rfc3339_millis_of_secs(n as int) == Some(s@),
            None => rfc3339_millis_of_secs(n as int) is None,
        },
{
    chrono::DateTime::<chrono::Utc>::from_timestamp(n, 0).map(
        |dt| dt.to_rfc3339_opts(chrono::SecondsFormat::Millis, true),
    )
}

/// Relies on chrono's `DateTime::<Utc>::from_timestamp_millis` (`None`
/// exactly on an out-of-range number of milliseconds) and
/// `DateTime::to_rfc3339_opts` with millisecond precision and the `Z`
/// suffix: the result is a function of the milliseconds alone.
#[verifier::external_body]
fn format_epoch_millis(n: i64) -> (r: Option<String>)
    ensures
        match r {
            Some(s) => rfc3339_millis_of_millis(n as int) == Some(s@),
            None => rfc3339_millis_of_millis(n as int) is None,
        },
{
    chrono::DateTime::<chrono::Utc>::from_timestamp_millis(n).map(
        |dt| dt.to_rfc3339_opts(chrono::SecondsFormat::Millis, true),
    )
}

/// One top-level value of a returned document, as far as the transformer
/// reads it: integers are converter candidates, everything else passes
/// through (`Other` stands for any shape the converters never touch).
#[derive(Debug)]
pub enum DocValue {
    Int(i64),
    Text(String),
    Truth(bool),
    Other,
}

/// Mathematical image of a document value.
pub enum DocValueModel {
    Int(i64),
    Text(Seq<char>),
    Truth(bool),
    Other,
}

impl View for DocValue {
    type V = DocValueModel;

    open spec fn view(&self) -> DocValueModel {
        match self {
            DocValue::Int(n) => DocValueModel::Int(*n),
            DocValue::Text(s) => DocValueModel::Text(s@),
            DocValue::Truth(b) => DocValueModel::Truth(*b),
            DocValue::Other => DocValueModel::Other,
        }
    }
}

/// The view of a document: its top-level fields in order.
pub open spec fn doc_view(d: Seq<(String, DocValue)>) -> Seq<(Seq<char>, DocValueModel)> {
    d.map_values(|e: (String, DocValue)| (e.0@, e.1@))
}

/// The converter declared for a field name, if any.
pub open spec fn spec_conv_for(fields: Seq<(String, Field)>, k: Seq<char>) -> Option<
    ConverterSchema,
>
    decreases fields.len(),
{
    if fields.len() == 0 {
        None
    } else if fields[0].0@ == k && fields[0].1.converter is Some {
        fields[0].1.converter
    } else {
        spec_conv_for(fields.drop_first(), k)
    }
}

/// What a converter does to one value: a stored timestamp becomes its
/// RFC-3339 rendering when the field holds an integer and the instant is
/// representable; any other value or declared pair is left unchanged.
pub open spec fn spec_apply_conv(c: ConverterSchema, v: DocValueModel) -> DocValueModel {
    match v {
        DocValueModel::Int(n) => if c.from == ConvertFrom::DateTimeString && c.to
            == ConvertTo::Timestamp {
            match rfc3339_millis_of_secs(n as int) {
                Some(s) => DocValueModel::Text(s),
                None => v,
            }
        } else if c.from == ConvertFrom::DateTimeString && c.to == ConvertTo::TimestampMillis {
            match rfc3339_millis_of_millis(n as int) {
                Some(s) => DocValueModel::Text(s),
                None => v,
            }
        } else {
            v
        },
        _ => v,
    }
}

/// The transformed document: each field with a declared converter is
/// converted in place; fields and their order are otherwise kept.
pub open spec fn spec_transform(schema: Schema, d: Seq<(Seq<char>, DocValueModel)>) -> Seq<
    (Seq<char>, DocValueModel),
> {
    d.map_values(
        |e: (Seq<char>, DocValueModel)|
            match spec_conv_for(schema.fields@, e.0) {
                Some(c) => (e.0, spec_apply_conv(c, e.1)),
                None => e,
            },
    )
}

fn conv_for(schema: &Schema, k: &str) -> (r: Option<ConverterSchema>)
    ensures
        r == spec_conv_for(schema.fields@, k@),
{
    let mut i: usize = 0;
    proof {
        assert(schema.fields@.skip(0) =~= schema.fields@);
    }
    while i < schema.fields.len()
        invariant
            i <= schema.fields@.len(),
            spec_conv_for(schema.fields@, k@) == spec_conv_for(schema.fields@.skip(i as int), k@),
        decreases schema.fields@.len() - i,
    {
        proof {
            assert(schema.fields@.skip(i as int)[0] == schema.fields@[i as int]);
            assert(schema.fields@.skip(i as int).drop_first() =~= schema.fields@.skip(i + 1));
        }
        if let Some(c) = &schema.fields[i].1.converter {
            if crate::text::str_eq(schema.fields[i].0.as_str(), k) {
                return Some(*c);
            }
        }
        i = i + 1;
    }
    proof {
        assert(schema.fields@.skip(i as int).len() == 0);
    }
    None
}

fn apply_conv(c: &ConverterSchema, v: &DocValue) -> (r: DocValue)
    ensures
        r@ == spec_apply_conv(*c, v@),
{
    match v {
        DocValue::Int(n) => match (c.from, c.to) {
            (ConvertFrom::DateTimeString, ConvertTo::Timestamp) => match format_epoch_secs(*n) {
                Some(s) => DocValue::Text(s),
                None => DocValue::Int(*n),
            },
            (ConvertFrom::DateTimeString, ConvertTo::TimestampMillis) => match format_epoch_millis(
                *n,
            ) {
                Some(s) => DocValue::Text(s),
                None => DocValue::Int(*n),
            },
            _ => DocValue::Int(*n),
        },
        DocValue::Text(s) => DocValue::Text(s.clone()),
        DocValue::Truth(b) => DocValue::Truth(*b),
        DocValue::Other => DocValue::Other,
    }
}

/// Applies the schema's converters to one returned document.
pub fn transform(schema: &Schema, doc: &Vec<(String, DocValue)>) -> (r: Vec<(String, DocValue)>)
    ensures
        doc_view(r@) == spec_transform(*schema, doc_view(doc@)),
{
    let mut out: Vec<(String, DocValue)> = Vec::new();
    let mut i: usize = 0;
    proof {
        assert(doc_view(out@) =~= spec_transform(*schema, doc_view(doc@)).take(0));
    }
    while i < doc.len()
        invariant
            i <= doc@.len(),
            doc_view(out@) == spec_transform(*schema, doc_view(doc@)).take(i as int),
        decreases doc@.len() - i,
    {
        let k = doc[i].0.clone();
        let v = match conv_for(schema, k.as_str()) {
            Some(c) => apply_conv(&c, &doc[i].1),
            None => match &doc[i].1 {
                DocValue::Int(n) => DocValue::Int(*n),
                DocValue::Text(s) => DocValue::Text(s.clone()),
                DocValue::Truth(b) => DocValue::Truth(*b),
                DocValue::Other => DocValue::Other,
            },
        };
        let ghost prev = doc_view(out@);
        let ghost kv = (k@, v@);
        out.push((k, v));
        proof {
            assert(doc_view(doc@)[i as int] == (doc@[i as int].0@, doc@[i as int].1@));
            assert(spec_transform(*schema, doc_view(doc@))[i as int] == kv);
            assert(doc_view(out@) =~= prev.push(kv));
            assert(prev.push(kv) =~= spec_transform(*schema, doc_view(doc@)).take(i + 1));
        }
        i = i + 1;
    }
    proof {
        assert(spec_transform(*schema, doc_view(doc@)).take(doc@.len() as int) =~= spec_transform(
            *schema,
            doc_view(doc@),
        ));
    }
    out
}

} // verus!
