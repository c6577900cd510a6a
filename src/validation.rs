//! The query binding and validation engine: a raw query string is read
//! against a route's schema into typed parameters, and the schema is then
//! checked against what was bound, every violation being collected.
use vstd::prelude::*;
use vstd::string::StringExecFns;
use crate::error::RequestError;
use crate::query::{
    appended, coerce, wrap, Flags, ParamValue, QueryParam, QueryParamValue, QueryParamValueType,
    QueryParams, QuerySchema, TypedValue,
};
use crate::table::{distinct_keys, index_in, lemma_index_in_push, lemma_insert_distinct, insert_entry, lemma_index_in, lookup, skeys};
use crate::text::{chars_of, lemma_split_nonempty, split, split_text, string_of, trim, trim_chars, views};

verus! {

/// The pieces of a trimmed `name=value` pair, split at each `=`.
pub open spec fn pair_parts(pair: Seq<char>) -> Seq<Seq<char>> {
    split(trim(pair), seq!['='])
}

/// The parameters after one more pair is read. A blank pair names the empty
/// name with an empty value. The
/// name is what comes before the first `=`, the value what comes after it up
/// to the next `=` (empty when there is none). A declared name is coerced to
/// its declared type, an undeclared one is text collected in a collection; a
/// value that does not coerce is dropped. The first value of a name fixes
/// whether it is a collection; later values add to a collection and leave a
/// single value as it was.
pub open spec fn bind_step(
    acc: Seq<(Seq<char>, ParamValue)>,
    pair: Seq<char>,
    schema: Seq<(Seq<char>, (TypedValue, Flags))>,
) -> Seq<(Seq<char>, ParamValue)> {
    let parts = pair_parts(pair);
    {
        let name = parts[0];
        let value = if parts.len() > 1 {
            parts[1]
        } else {
            Seq::empty()
        };
        let tag = match lookup(schema, name) {
            Some(t) => t.0,
            None => TypedValue::Str(Seq::empty()),
        };
        let is_array = match lookup(schema, name) {
            Some(t) => t.1.is_array,
            None => true,
        };
        match coerce(value, tag) {
            None => acc,
            Some(v) => insert_entry(
                acc,
                name,
                match lookup(acc, name) {
                    Some(p) => appended(p, v),
                    None => wrap(v, is_array),
                },
            ),
        }
    }
}

/// The parameters bound from a sequence of pairs, read from the left.
pub open spec fn bind_pairs(
    pairs: Seq<Seq<char>>,
    schema: Seq<(Seq<char>, (TypedValue, Flags))>,
) -> Seq<(Seq<char>, ParamValue)>
    decreases pairs.len(),
{
    if pairs.len() == 0 {
        Seq::empty()
    } else {
        bind_step(bind_pairs(pairs.drop_last(), schema), pairs.last(), schema)
    }
}

/// The parameters bound from the `&`-separated pairs of a query string.
pub open spec fn bind(
    query_string: Seq<char>,
    schema: Seq<(Seq<char>, (TypedValue, Flags))>,
) -> Seq<(Seq<char>, ParamValue)> {
    bind_pairs(split(query_string, seq!['&']), schema)
}

/// The message for a required parameter that is missing.
pub open spec fn required_message(name: Seq<char>) -> Seq<char> {
    name + " is required"@
}

/// The message for a collection that must not be empty.
pub open spec fn empty_message(name: Seq<char>) -> Seq<char> {
    name + " can not be empty"@
}

/// What is wrong with the declared parameter `name`, if anything. A missing
/// required parameter is "required", or "can not be empty" when it is a
/// collection that must not be empty; an absent optional collection that must
/// not be empty, and a present but empty one, "can not be empty".
pub open spec fn error_for(
    name: Seq<char>,
    t: (TypedValue, Flags),
    params: Seq<(Seq<char>, ParamValue)>,
) -> Option<Seq<char>> {
    let flags = t.1;
    match lookup(params, name) {
        None => if !flags.is_optional {
            if flags.is_array && !flags.allow_empty {
                Some(empty_message(name))
            } else {
                Some(required_message(name))
            }
        } else if flags.is_array && !flags.allow_empty {
            Some(empty_message(name))
        } else {
            None
        },
        Some(ParamValue::Multiple(xs)) => if xs.len() == 0 && !flags.allow_empty {
            Some(empty_message(name))
        } else {
            None
        },
        Some(ParamValue::Single(_)) => None,
    }
}

/// The messages of every declared parameter that is wrong, by name.
pub open spec fn errors_for(
    schema: Seq<(Seq<char>, (TypedValue, Flags))>,
    params: Seq<(Seq<char>, ParamValue)>,
) -> Map<Seq<char>, Seq<char>>
    decreases schema.len(),
{
    if schema.len() == 0 {
        Map::empty()
    } else {
        let m = errors_for(schema.drop_last(), params);
        let e = schema.last();
        match error_for(e.0, e.1, params) {
            Some(msg) => m.insert(e.0, msg),
            None => m,
        }
    }
}

/// The name of the error that validation reports.
pub open spec fn validation_error_name() -> Seq<char> {
    "query string"@
}

/// A declared parameter that is required and missing is reported under its
/// name: "is required" for a single value, "can not be empty" for a
/// collection that must not be empty.
pub proof fn lemma_missing_required(
    schema: Seq<(Seq<char>, (TypedValue, Flags))>,
    params: Seq<(Seq<char>, ParamValue)>,
    name: Seq<char>,
)
    requires
        distinct_keys(schema),
        lookup(schema, name) matches Some(t) && !t.1.is_optional,
        lookup(params, name) is None,
    ensures
        errors_for(schema, params).contains_key(name),
        match lookup(schema, name) {
            Some(t) => errors_for(schema, params)[name] == if t.1.is_array && !t.1.allow_empty {
                empty_message(name)
            } else {
                required_message(name)
            },
            None => false,
        },
    decreases schema.len(),
{
    let ks = skeys(schema);
    lemma_index_in(ks, name, 0);
    let x = index_in(ks, name, 0)->0;
    assert(ks[x] == schema[x].0);
    let last = schema.len() - 1;
    if x == last {
    } else {
        assert(ks[last] == schema[last].0);
        assert(schema[last].0 != name);
        let shorter = schema.drop_last();
        let ks2 = skeys(shorter);
        assert(ks2 =~= ks.drop_last());
        lemma_index_in(ks2, name, 0);
        assert(ks2[x] == name);
        if index_in(ks2, name, 0) != Some(x) {
            let y = index_in(ks2, name, 0)->0;
            assert(ks[y] == ks2[y]);
        }
        assert(shorter[x] == schema[x]);
        assert(distinct_keys(shorter)) by {
            assert forall|i: int, j: int| 0 <= i < j < shorter.len() implies #[trigger] shorter[i].0
                != #[trigger] shorter[j].0 by {
                assert(shorter[i] == schema[i] && shorter[j] == schema[j]);
            };
        };
        lemma_missing_required(shorter, params, name);
    }
}

/// The value of a pair: what follows its first `=` up to the next one, empty
/// when there is none.
pub open spec fn pair_value(pair: Seq<char>) -> Seq<char> {
    if pair_parts(pair).len() > 1 {
        pair_parts(pair)[1]
    } else {
        Seq::empty()
    }
}

/// The type tag under which a value of the parameter `name` is coerced.
pub open spec fn tag_for(schema: Seq<(Seq<char>, (TypedValue, Flags))>, name: Seq<char>) -> TypedValue {
    match lookup(schema, name) {
        Some(t) => t.0,
        None => TypedValue::Str(Seq::empty()),
    }
}

/// Whether no pair named `name` has a value that coerces to its type.
pub open spec fn no_value_for(
    pairs: Seq<Seq<char>>,
    schema: Seq<(Seq<char>, (TypedValue, Flags))>,
    name: Seq<char>,
) -> bool {
    forall|i: int|
        0 <= i < pairs.len() && #[trigger] pair_parts(pairs[i])[0]
            == name ==> coerce(pair_value(pairs[i]), tag_for(schema, name)) is None
}

/// Setting another key leaves the value of `k` as it was.
pub proof fn lemma_lookup_other<V>(e: Seq<(Seq<char>, V)>, n: Seq<char>, v: V, k: Seq<char>)
    requires
        n != k,
    ensures
        lookup(insert_entry(e, n, v), k) == lookup(e, k),
{
    let ks = skeys(e);
    lemma_index_in(ks, n, 0);
    lemma_index_in(ks, k, 0);
    match index_in(ks, n, 0) {
        Some(i) => {
            assert(skeys(insert_entry(e, n, v)) =~= ks) by {
                assert(ks[i] == e[i].0);
            };
            if index_in(ks, k, 0) is Some {
                let j = index_in(ks, k, 0)->0;
                assert(ks[j] == e[j].0);
                assert(ks[i] == e[i].0);
            }
        },
        None => {
            assert(skeys(insert_entry(e, n, v)) =~= ks.push(n));
            lemma_index_in_push(ks, n, k);
            if index_in(ks, k, 0) is Some {
                let j = index_in(ks, k, 0)->0;
                assert(insert_entry(e, n, v)[j] == e[j]);
            }
        },
    }
}

/// A name none of whose pairs has a value that coerces is not bound.
pub proof fn lemma_unbound_name(
    pairs: Seq<Seq<char>>,
    schema: Seq<(Seq<char>, (TypedValue, Flags))>,
    name: Seq<char>,
)
    requires
        no_value_for(pairs, schema, name),
    ensures
        lookup(bind_pairs(pairs, schema), name) is None,
    decreases pairs.len(),
{
    if pairs.len() > 0 {
        let shorter = pairs.drop_last();
        assert(no_value_for(shorter, schema, name)) by {
            assert forall|i: int|
                0 <= i < shorter.len() && #[trigger] pair_parts(
                    shorter[i],
                )[0] == name implies coerce(pair_value(shorter[i]), tag_for(schema, name))
                is None by {
                assert(shorter[i] == pairs[i]);
            };
        };
        lemma_unbound_name(shorter, schema, name);
        let acc = bind_pairs(shorter, schema);
        let p = pairs.last();
        assert(p == pairs[pairs.len() - 1]);
        {
            let n = pair_parts(p)[0];
            if n != name {
                let tag = match lookup(schema, n) {
                    Some(t) => t.0,
                    None => TypedValue::Str(Seq::empty()),
                };
                let is_array = match lookup(schema, n) {
                    Some(t) => t.1.is_array,
                    None => true,
                };
                match coerce(pair_value(p), tag) {
                    Some(v) => {
                        lemma_lookup_other(
                            acc,
                            n,
                            match lookup(acc, n) {
                                Some(q) => appended(q, v),
                                None => wrap(v, is_array),
                            },
                            name,
                        );
                    },
                    None => {},
                }
            }
        }
    }
}

/// The parameters that `query_string` binds against `schema`.
pub fn bind_query_string(query_string: &String, schema: &QuerySchema) -> (r: QueryParams)
    ensures
        r@ == bind(query_string@, schema@),
        distinct_keys(r@),
{
    let chars = chars_of(query_string.as_str());
    let amp = vec!['&'];
    let eq = vec!['='];
    assert(amp@ =~= seq!['&']);
    assert(eq@ =~= seq!['=']);
    let pairs = split_text(&chars, &amp);
    let ghost ps = views(pairs@);
    let mut params = QueryParams::new();
    let mut i: usize = 0;
    while i < pairs.len()
        invariant
            i <= pairs.len(),
            eq@ == seq!['='],
            ps == views(pairs@),
            ps == split(query_string@, seq!['&']),
            params@ == bind_pairs(ps.take(i as int), schema@),
            distinct_keys(params@),
        decreases pairs.len() - i,
    {
        assert(ps.take(i + 1).drop_last() =~= ps.take(i as int));
        assert(ps[i as int] == pairs@[i as int]@);
        let trimmed = trim_chars(&pairs[i]);
        {
            let parts = split_text(&trimmed, &eq);
            proof {
                lemma_split_nonempty(trimmed@, seq!['=']);
            }
            assert(views(parts@)[0] == parts@[0]@);
            let name = string_of(&parts[0]);
            let value = if parts.len() > 1 {
                assert(views(parts@)[1] == parts@[1]@);
                string_of(&parts[1])
            } else {
                String::new()
            };
            let next = match params.get(&name) {
                Some(existing) => {
                    let mut current = QueryParam { value: existing.value.copied() };
                    match schema.get(&name) {
                        Some(t) => current.add_value(value, t._type.copied()),
                        None => current.add_value(value, QueryParamValueType::Str(String::new())),
                    }
                },
                None => match schema.get(&name) {
                    Some(t) => QueryParam::from(value, t._type.copied(), t.flags.is_array),
                    None => QueryParam::from(value, QueryParamValueType::Str(String::new()), true),
                },
            };
            match next {
                Some(p) => {
                    proof {
                        lemma_insert_distinct(params@, name@, p@);
                    }
                    params.insert(name, p);
                },
                None => {},
            }
        }
        i += 1;
    }
    assert(ps.take(pairs.len() as int) =~= ps);
    params
}

/// The text `name` followed by `suffix`.
fn message(name: &String, suffix: &str) -> (r: String)
    ensures
        r@ == name@ + suffix@,
{
    let mut m = name.clone();
    m.append(suffix);
    m
}

/// The error that checking `params` against `schema` finds: one message for
/// each declared parameter that is wrong.
pub fn validate(params: &QueryParams, schema: &QuerySchema) -> (r: RequestError)
    ensures
        r@.0 == validation_error_name(),
        r@.1 == errors_for(schema@, params@),
{
    let mut request_error = RequestError::new(String::from_str("query string"));
    let mut i: usize = 0;
    while i < schema.len()
        invariant
            i <= schema@.len(),
            request_error@.0 == validation_error_name(),
            request_error@.1 == errors_for(schema@.take(i as int), params@),
        decreases schema@.len() - i,
    {
        assert(schema@.take(i + 1).drop_last() =~= schema@.take(i as int));
        let (name, t) = schema.entry(i);
        let flags = t.flags;
        match params.get(name) {
            None => {
                if !flags.is_optional {
                    if flags.is_array && !flags.allow_empty {
                        request_error.set_error(name.clone(), message(name, " can not be empty"));
                    } else {
                        request_error.set_error(name.clone(), message(name, " is required"));
                    }
                } else if flags.is_array && !flags.allow_empty {
                    request_error.set_error(name.clone(), message(name, " can not be empty"));
                }
            },
            Some(query) => match &query.value {
                QueryParamValue::Multiple(value) => {
                    if value.len() == 0 && !flags.allow_empty {
                        request_error.set_error(name.clone(), message(name, " can not be empty"));
                    }
                },
                QueryParamValue::Single(_) => {},
            },
        }
        i += 1;
    }
    assert(schema@.take(schema@.len() as int) =~= schema@);
    request_error
}

} // verus!
