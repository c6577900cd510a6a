//! The record of the example application, with the counter that numbers its
//! records.
use vstd::prelude::*;
use vstd::string::StringExecFns;
use crate::binding::{bind_fields, bind_fields_spec, field_value, field_views, param_views, FieldSpec, InjectStructTrait};
use crate::query::{ParamValue, QueryParamValue, QueryParamValueType, QueryParams, TypedValue};

verus! {

/// A person of the example data set.
#[derive(Clone, Debug)]
pub struct Person {
    pub id: usize,
    pub name: String,
    pub age: usize,
}

/// The counter that numbers records: the last number handed out.
pub struct IdCounter {
    last: usize,
}

impl IdCounter {
    /// A counter that has handed out nothing.
    pub fn new() -> (r: IdCounter)
        ensures
            r.last_id() == 0,
    {
        IdCounter { last: 0 }
    }

    /// The last number handed out, zero when none was.
    pub closed spec fn last_id(&self) -> nat {
        self.last as nat
    }

    /// The next number.
    pub fn next_id(&mut self) -> (r: usize)
        requires
            old(self).last_id() < usize::MAX,
        ensures
            r == old(self).last_id() + 1,
            final(self).last_id() == r,
    {
        self.last = self.last + 1;
        self.last
    }
}

impl Person {
    /// A person with the next number of `ids`.
    pub fn new(age: usize, name: String, ids: &mut IdCounter) -> (r: Person)
        requires
            old(ids).last_id() < usize::MAX,
        ensures
            r.id == old(ids).last_id() + 1,
            final(ids).last_id() == r.id,
            r.age == age,
            r.name@ == name@,
    {
        let id = ids.next_id();
        Person { id, age, name }
    }
}

/// The fields of a person as query parameters: `id`, `name` and `age`.
pub open spec fn person_fields() -> Seq<(Seq<char>, TypedValue, bool)> {
    seq![
        ("id"@, TypedValue::UInt(0), false),
        ("name"@, TypedValue::Str(Seq::empty()), false),
        ("age"@, TypedValue::UInt(0), false),
    ]
}

impl Person {
    /// The person that the parameters `id`, `name` and `age` describe, or
    /// the error that names the first of them that is missing or of another
    /// type.
    pub fn from_params(params: &QueryParams) -> (r: Result<Person, String>)
        ensures
            match bind_fields_spec(params@, person_fields()) {
                Ok(vs) => r matches Ok(p) && vs == seq![
                    ParamValue::Single(TypedValue::UInt(p.id as int)),
                    ParamValue::Single(TypedValue::Str(p.name@)),
                    ParamValue::Single(TypedValue::UInt(p.age as int)),
                ],
                Err(e) => r matches Err(m) && m@ == e,
            },
    {
        let fields = vec![
            FieldSpec {
                name: String::from_str("id"),
                kind: QueryParamValueType::UInt(0),
                is_sequence: false,
            },
            FieldSpec {
                name: String::from_str("name"),
                kind: QueryParamValueType::Str(String::new()),
                is_sequence: false,
            },
            FieldSpec {
                name: String::from_str("age"),
                kind: QueryParamValueType::UInt(0),
                is_sequence: false,
            },
        ];
        assert(field_views(fields@) =~= person_fields());
        let values = match bind_fields(params, &fields) {
            Ok(values) => values,
            Err(e) => {
                return Err(e);
            },
        };
        proof {
            let f = person_fields();
            let f2 = f.drop_last();
            let f1 = f2.drop_last();
            assert(f2 =~= seq![f[0], f[1]]);
            assert(f1 =~= seq![f[0]]);
            assert(f1.drop_last() =~= Seq::<(Seq<char>, TypedValue, bool)>::empty());
            let b1 = bind_fields_spec(params@, f1);
            let b2 = bind_fields_spec(params@, f2);
            assert(b1 is Ok && b1->Ok_0 == seq![field_value(params@, f[0].0, f[0].1, f[0].2)->0]) by {
                assert(bind_fields_spec(params@, f1.drop_last()) == Ok::<Seq<ParamValue>, Seq<char>>(Seq::empty()));
                assert(Seq::<ParamValue>::empty().push(field_value(params@, f[0].0, f[0].1, f[0].2)->0) =~= seq![field_value(params@, f[0].0, f[0].1, f[0].2)->0]);
            };
            assert(b2 is Ok);
            assert(param_views(values@).len() == 3);
            assert(param_views(values@)[0] == values@[0]@);
            assert(param_views(values@)[1] == values@[1]@);
            assert(param_views(values@)[2] == values@[2]@);
        }
        let id = match &values[0] {
            QueryParamValue::Single(QueryParamValueType::UInt(v)) => *v,
            _ => {
                return Err(String::from_str("Missing or invalid type for field: id"));
            },
        };
        let name = match &values[1] {
            QueryParamValue::Single(QueryParamValueType::Str(v)) => v.clone(),
            _ => {
                return Err(String::from_str("Missing or invalid type for field: name"));
            },
        };
        let age = match &values[2] {
            QueryParamValue::Single(QueryParamValueType::UInt(v)) => *v,
            _ => {
                return Err(String::from_str("Missing or invalid type for field: age"));
            },
        };
        let p = Person { id, name, age };
        assert(param_views(values@) =~= seq![
            ParamValue::Single(TypedValue::UInt(p.id as int)),
            ParamValue::Single(TypedValue::Str(p.name@)),
            ParamValue::Single(TypedValue::UInt(p.age as int)),
        ]);
        Ok(p)
    }
}

impl InjectStructTrait for Person {
    fn init() -> Self {
        Person { id: 0, name: String::new(), age: 0 }
    }

    fn from_hashmap(hashmap: &QueryParams) -> Result<Self, String> {
        Person::from_params(hashmap)
    }
}

} // verus!
