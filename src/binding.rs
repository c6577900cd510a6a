//! Binding validated query parameters onto the fields of a structure: each
//! field is looked up by name and must hold a value of its declared type.
use vstd::prelude::*;
use vstd::string::StringExecFns;
use crate::query::{
    copy_values, typed_views, ParamValue, QueryParamValue, QueryParamValueType,
    QueryParams, TypedValue,
};
use crate::table::lookup;

verus! {

/// A field of a structure to fill: its name, a value whose variant carries
/// its type, and whether it holds a sequence of such values.
pub struct FieldSpec {
    pub name: String,
    pub kind: QueryParamValueType,
    pub is_sequence: bool,
}

/// Whether two values are of the same type.
pub open spec fn same_kind(a: TypedValue, b: TypedValue) -> bool {
    match (a, b) {
        (TypedValue::Str(_), TypedValue::Str(_)) => true,
        (TypedValue::Int(_), TypedValue::Int(_)) => true,
        (TypedValue::UInt(_), TypedValue::UInt(_)) => true,
        (TypedValue::Float(_), TypedValue::Float(_)) => true,
        (TypedValue::Boolean(_), TypedValue::Boolean(_)) => true,
        _ => false,
    }
}

/// Whether every value of `vs` is of the type of `tag`.
pub open spec fn all_of_kind(vs: Seq<TypedValue>, tag: TypedValue) -> bool {
    forall|i: int| 0 <= i < vs.len() ==> same_kind(#[trigger] vs[i], tag)
}

/// What a field receives: a single value of its type for a scalar field, a
/// collection whose values are all of its type for a sequence field; `None`
/// when the parameter is missing, of the other cardinality, or holds a value
/// of another type.
pub open spec fn field_value(
    params: Seq<(Seq<char>, ParamValue)>,
    name: Seq<char>,
    tag: TypedValue,
    is_sequence: bool,
) -> Option<ParamValue> {
    match lookup(params, name) {
        Some(ParamValue::Single(v)) => if !is_sequence && same_kind(v, tag) {
            Some(ParamValue::Single(v))
        } else {
            None
        },
        Some(ParamValue::Multiple(vs)) => if is_sequence && all_of_kind(vs, tag) {
            Some(ParamValue::Multiple(vs))
        } else {
            None
        },
        None => None,
    }
}

/// The message for a field that cannot be filled.
pub open spec fn field_error(name: Seq<char>) -> Seq<char> {
    "Missing or invalid type for field: "@ + name
}

/// The views of field descriptions.
pub open spec fn field_views(fields: Seq<FieldSpec>) -> Seq<(Seq<char>, TypedValue, bool)> {
    fields.map_values(|f: FieldSpec| (f.name@, f.kind@, f.is_sequence))
}

/// What each field receives, in order, or the error of the first field that
/// cannot be filled.
pub open spec fn bind_fields_spec(
    params: Seq<(Seq<char>, ParamValue)>,
    fields: Seq<(Seq<char>, TypedValue, bool)>,
) -> Result<Seq<ParamValue>, Seq<char>>
    decreases fields.len(),
{
    if fields.len() == 0 {
        Ok(Seq::empty())
    } else {
        match bind_fields_spec(params, fields.drop_last()) {
            Err(e) => Err(e),
            Ok(vs) => {
                let f = fields.last();
                match field_value(params, f.0, f.1, f.2) {
                    Some(v) => Ok(vs.push(v)),
                    None => Err(field_error(f.0)),
                }
            },
        }
    }
}

/// The views of parameter values.
pub open spec fn param_views(v: Seq<QueryParamValue>) -> Seq<ParamValue> {
    v.map_values(|x: QueryParamValue| x@)
}

/// Whether `a` is of the type of `b`.
fn same_kind_exec(a: &QueryParamValueType, b: &QueryParamValueType) -> (r: bool)
    ensures
        r == same_kind(a@, b@),
{
    match (a, b) {
        (QueryParamValueType::Str(_), QueryParamValueType::Str(_)) => true,
        (QueryParamValueType::Int(_), QueryParamValueType::Int(_)) => true,
        (QueryParamValueType::UInt(_), QueryParamValueType::UInt(_)) => true,
        (QueryParamValueType::Float(_), QueryParamValueType::Float(_)) => true,
        (QueryParamValueType::Boolean(_), QueryParamValueType::Boolean(_)) => true,
        _ => false,
    }
}

/// Whether every value of `vs` is of the type of `tag`.
fn all_of_kind_exec(vs: &Vec<QueryParamValueType>, tag: &QueryParamValueType) -> (r: bool)
    ensures
        r == all_of_kind(typed_views(vs@), tag@),
{
    let mut i: usize = 0;
    while i < vs.len()
        invariant
            i <= vs.len(),
            forall|j: int| 0 <= j < i ==> same_kind(#[trigger] typed_views(vs@)[j], tag@),
        decreases vs.len() - i,
    {
        assert(typed_views(vs@)[i as int] == vs@[i as int]@);
        if !same_kind_exec(&vs[i], tag) {
            return false;
        }
        i += 1;
    }
    true
}

/// What a field receives from `params`.
pub fn field_value_exec(params: &QueryParams, field: &FieldSpec) -> (r: Option<QueryParamValue>)
    ensures
        match field_value(params@, field.name@, field.kind@, field.is_sequence) {
            Some(v) => r matches Some(x) && x@ == v,
            None => r is None,
        },
{
    match params.get(&field.name) {
        Some(param) => match &param.value {
            QueryParamValue::Single(v) => {
                if !field.is_sequence && same_kind_exec(v, &field.kind) {
                    Some(QueryParamValue::Single(v.copied()))
                } else {
                    None
                }
            },
            QueryParamValue::Multiple(vs) => {
                if field.is_sequence && all_of_kind_exec(vs, &field.kind) {
                    Some(QueryParamValue::Multiple(copy_values(vs)))
                } else {
                    None
                }
            },
        },
        None => None,
    }
}

/// The value of each field, in order, or the error that names the first
/// field that is missing or of another type.
pub fn bind_fields(params: &QueryParams, fields: &Vec<FieldSpec>) -> (r: Result<
    Vec<QueryParamValue>,
    String,
>)
    ensures
        match bind_fields_spec(params@, field_views(fields@)) {
            Ok(vs) => r matches Ok(x) && param_views(x@) == vs,
            Err(e) => r matches Err(x) && x@ == e,
        },
{
    let ghost fv = field_views(fields@);
    let mut out: Vec<QueryParamValue> = Vec::new();
    let mut i: usize = 0;
    assert(param_views(out@) =~= Seq::<ParamValue>::empty());
    assert(fv.take(0) =~= Seq::<(Seq<char>, TypedValue, bool)>::empty());
    while i < fields.len()
        invariant
            i <= fields.len(),
            out@.len() == i,
            fv == field_views(fields@),
            bind_fields_spec(params@, fv.take(i as int)) == Ok::<Seq<ParamValue>, Seq<char>>(
                param_views(out@),
            ),
        decreases fields.len() - i,
    {
        assert(fv.take(i + 1).drop_last() =~= fv.take(i as int));
        assert(fv.take(i + 1).last() == (fields@[i as int].name@, fields@[i as int].kind@, fields@[i as int].is_sequence));
        match field_value_exec(params, &fields[i]) {
            Some(v) => {
                let ghost before = out@;
                let ghost vv = v@;
                out.push(v);
                assert(param_views(out@) =~= param_views(before).push(vv));
            },
            None => {
                proof {
                    lemma_first_error_stays(params@, fv, i as int + 1);
                }
                let mut message = String::from_str("Missing or invalid type for field: ");
                message.append(fields[i].name.as_str());
                return Err(message);
            },
        }
        i += 1;
    }
    assert(fv.take(fields.len() as int) =~= fv);
    Ok(out)
}

/// Once a field fails, the binding fails with that field's error.
proof fn lemma_first_error_stays(
    params: Seq<(Seq<char>, ParamValue)>,
    fields: Seq<(Seq<char>, TypedValue, bool)>,
    k: int,
)
    requires
        0 < k <= fields.len(),
        bind_fields_spec(params, fields.take(k)) is Err,
    ensures
        bind_fields_spec(params, fields) == bind_fields_spec(params, fields.take(k)),
    decreases fields.len() - k,
{
    if k < fields.len() {
        assert(fields.take(k + 1).drop_last() =~= fields.take(k));
        lemma_first_error_stays(params, fields, k + 1);
    } else {
        assert(fields.take(k) =~= fields);
    }
}

/// A type that can be built from bound query parameters.
pub trait InjectStructTrait: Sized {
    /// A value with every field at its default.
    fn init() -> Self;

    /// A value whose fields are read from `hashmap`, or the error that
    /// names a field that is missing or of another type.
    fn from_hashmap(hashmap: &QueryParams) -> Result<Self, String>;
}

impl InjectStructTrait for QueryParams {
    fn init() -> Self {
        QueryParams::new()
    }

    fn from_hashmap(hashmap: &QueryParams) -> Result<Self, String> {
        Ok(hashmap.copied())
    }
}

} // verus!
