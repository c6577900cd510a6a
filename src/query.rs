//! The typed query-value model: scalar values, single or repeated parameters,
//! the declared type of a parameter, and coercion of text to a typed value.
use vstd::prelude::*;
use crate::number::{float_text, is_float_text, parse_isize, parse_usize, signed_text, unsigned_text};
use crate::table::{distinct_keys, get_in, insert_in, insert_entry, lemma_insert_distinct, lookup, pairs_view};
use crate::text::chars_of;

verus! {

/// A typed scalar taken from a query string. A floating-point value is kept
/// as the text that was checked to be one.
#[derive(Debug, PartialEq)]
pub enum QueryParamValueType {
    Str(String),
    Int(isize),
    UInt(usize),
    Float(String),
    Boolean(bool),
}

/// What a [`QueryParamValueType`] stands for.
pub enum TypedValue {
    Str(Seq<char>),
    Int(int),
    UInt(int),
    Float(Seq<char>),
    Boolean(bool),
}

impl View for QueryParamValueType {
    type V = TypedValue;

    open spec fn view(&self) -> TypedValue {
        match self {
            QueryParamValueType::Str(s) => TypedValue::Str(s@),
            QueryParamValueType::Int(v) => TypedValue::Int(*v as int),
            QueryParamValueType::UInt(v) => TypedValue::UInt(*v as int),
            QueryParamValueType::Float(s) => TypedValue::Float(s@),
            QueryParamValueType::Boolean(b) => TypedValue::Boolean(*b),
        }
    }
}

/// The views of a sequence of values.
pub open spec fn typed_views(v: Seq<QueryParamValueType>) -> Seq<TypedValue> {
    v.map_values(|x: QueryParamValueType| x@)
}

/// One value, or an ordered collection of values.
#[derive(Debug, PartialEq)]
pub enum QueryParamValue {
    Single(QueryParamValueType),
    Multiple(Vec<QueryParamValueType>),
}

/// What a [`QueryParamValue`] stands for.
pub enum ParamValue {
    Single(TypedValue),
    Multiple(Seq<TypedValue>),
}

impl View for QueryParamValue {
    type V = ParamValue;

    open spec fn view(&self) -> ParamValue {
        match self {
            QueryParamValue::Single(v) => ParamValue::Single(v@),
            QueryParamValue::Multiple(vs) => ParamValue::Multiple(typed_views(vs@)),
        }
    }
}

/// The cardinality and optionality of a declared parameter.
#[derive(Clone, Copy, Debug, PartialEq, Eq, Structural)]
pub struct Flags {
    pub is_optional: bool,
    pub is_array: bool,
    pub allow_empty: bool,
}

/// The declared type of a parameter: a value whose variant carries the type
/// tag, and its flags.
#[derive(Debug)]
pub struct QueryParamType {
    pub _type: QueryParamValueType,
    pub flags: Flags,
}

impl View for QueryParamType {
    type V = (TypedValue, Flags);

    open spec fn view(&self) -> (TypedValue, Flags) {
        (self._type@, self.flags)
    }
}

/// A parameter of a request, as bound from its query string.
#[derive(Debug)]
pub struct QueryParam {
    pub value: QueryParamValue,
}

impl View for QueryParam {
    type V = ParamValue;

    open spec fn view(&self) -> ParamValue {
        self.value@
    }
}

/// The texts that coerce to a true boolean: `true`, `t` and `1`.
pub open spec fn is_true_text(s: Seq<char>) -> bool {
    s == seq!['t', 'r', 'u', 'e'] || s == seq!['t'] || s == seq!['1']
}

/// The value of the type that `tag` carries which the text `s` stands for,
/// if any. Text passes through; integers must be whole decimals in range;
/// a floating-point value must have the syntax of one; a boolean is true for
/// `true`, `t` and `1` and false for anything else, so it never fails.
pub open spec fn coerce(s: Seq<char>, tag: TypedValue) -> Option<TypedValue> {
    match tag {
        TypedValue::Str(_) => Some(TypedValue::Str(s)),
        TypedValue::Int(_) => match signed_text(s) {
            Some(v) => if isize::MIN <= v <= isize::MAX {
                Some(TypedValue::Int(v))
            } else {
                None
            },
            None => None,
        },
        TypedValue::UInt(_) => match unsigned_text(s) {
            Some(v) => if v <= usize::MAX {
                Some(TypedValue::UInt(v as int))
            } else {
                None
            },
            None => None,
        },
        TypedValue::Float(_) => if float_text(s) {
            Some(TypedValue::Float(s))
        } else {
            None
        },
        TypedValue::Boolean(_) => Some(TypedValue::Boolean(is_true_text(s))),
    }
}

/// A value as a parameter of the given cardinality.
pub open spec fn wrap(v: TypedValue, is_array: bool) -> ParamValue {
    if is_array {
        ParamValue::Multiple(seq![v])
    } else {
        ParamValue::Single(v)
    }
}

/// A parameter after one more value: a collection grows, a single value
/// stays as it was.
pub open spec fn appended(p: ParamValue, v: TypedValue) -> ParamValue {
    match p {
        ParamValue::Single(x) => ParamValue::Single(x),
        ParamValue::Multiple(xs) => ParamValue::Multiple(xs.push(v)),
    }
}

/// The view of an optional value.
pub open spec fn opt_view(o: Option<QueryParamValueType>) -> Option<TypedValue> {
    match o {
        Some(v) => Some(v@),
        None => None,
    }
}

/// Whether the characters of `a` and `b` are the same.
pub fn same_chars(a: &Vec<char>, b: &Vec<char>) -> (r: bool)
    ensures
        r == (a@ == b@),
{
    if a.len() != b.len() {
        return false;
    }
    let mut i: usize = 0;
    while i < a.len()
        invariant
            i <= a.len() == b.len(),
            forall|j: int| 0 <= j < i ==> a@[j] == b@[j],
        decreases a.len() - i,
    {
        if a[i] != b[i] {
            return false;
        }
        i += 1;
    }
    assert(a@ =~= b@);
    true
}

impl QueryParamValueType {
    /// A value equal to this one.
    pub fn copied(&self) -> (r: QueryParamValueType)
        ensures
            r@ == self@,
    {
        match self {
            QueryParamValueType::Str(s) => QueryParamValueType::Str(s.clone()),
            QueryParamValueType::Int(v) => QueryParamValueType::Int(*v),
            QueryParamValueType::UInt(v) => QueryParamValueType::UInt(*v),
            QueryParamValueType::Float(s) => QueryParamValueType::Float(s.clone()),
            QueryParamValueType::Boolean(b) => QueryParamValueType::Boolean(*b),
        }
    }
}

/// A vector equal to `v`.
pub fn copy_values(v: &Vec<QueryParamValueType>) -> (r: Vec<QueryParamValueType>)
    ensures
        typed_views(r@) == typed_views(v@),
{
    let mut r: Vec<QueryParamValueType> = Vec::new();
    let mut i: usize = 0;
    while i < v.len()
        invariant
            i <= v.len(),
            typed_views(r@) == typed_views(v@.take(i as int)),
        decreases v.len() - i,
    {
        let ghost before = r@;
        r.push(v[i].copied());
        assert(typed_views(r@) =~= typed_views(before).push(v@[i as int]@));
        assert(v@.take(i + 1) =~= v@.take(i as int).push(v@[i as int]));
        assert(typed_views(v@.take(i + 1)) =~= typed_views(v@.take(i as int)).push(v@[i as int]@));
        i += 1;
    }
    assert(v@.take(v.len() as int) =~= v@);
    r
}

impl QueryParamValue {
    /// A parameter value equal to this one.
    pub fn copied(&self) -> (r: QueryParamValue)
        ensures
            r@ == self@,
    {
        match self {
            QueryParamValue::Single(v) => QueryParamValue::Single(v.copied()),
            QueryParamValue::Multiple(vs) => QueryParamValue::Multiple(copy_values(vs)),
        }
    }
}

impl QueryParam {
    /// This parameter after `string_value` is coerced to the type that
    /// `_type` carries and added: a collection grows by the value, a single
    /// value stays as it was. `None` when the text does not coerce.
    pub fn add_value(&mut self, string_value: String, _type: QueryParamValueType) -> (r: Option<
        Self,
    >)
        ensures
            *final(self) == *old(self),
            match coerce(string_value@, _type@) {
                Some(v) => r matches Some(p) && p@ == appended(old(self)@, v),
                None => r is None,
            },
    {
        match Self::generate_data(&string_value, _type) {
            Some(data) => {
                let value = match &self.value {
                    QueryParamValue::Single(value) => QueryParamValue::Single(value.copied()),
                    QueryParamValue::Multiple(value) => {
                        let mut array = copy_values(value);
                        let ghost before = array@;
                        array.push(data);
                        assert(typed_views(array@) =~= typed_views(before).push(data@));
                        QueryParamValue::Multiple(array)
                    },
                };
                Some(QueryParam { value })
            },
            None => None,
        }
    }

    /// A parameter holding `string_value` coerced to the type that `_type`
    /// carries, as a collection of one when `is_array`. `None` when the text
    /// does not coerce.
    pub fn from(string_value: String, _type: QueryParamValueType, is_array: bool) -> (r: Option<
        Self,
    >)
        ensures
            match coerce(string_value@, _type@) {
                Some(v) => r matches Some(p) && p@ == wrap(v, is_array),
                None => r is None,
            },
    {
        match Self::generate_data(&string_value, _type) {
            Some(data) => {
                let value = if is_array {
                    let ghost d = data@;
                    let array = vec![data];
                    assert(typed_views(array@) =~= seq![d]);
                    QueryParamValue::Multiple(array)
                } else {
                    QueryParamValue::Single(data)
                };
                Some(QueryParam { value })
            },
            None => None,
        }
    }

    /// The value of the type that `_type` carries which `string_value`
    /// stands for, if any.
    pub fn generate_data(string_value: &String, _type: QueryParamValueType) -> (r: Option<
        QueryParamValueType,
    >)
        ensures
            opt_view(r) == coerce(string_value@, _type@),
    {
        let chars = chars_of(string_value.as_str());
        match _type {
            QueryParamValueType::Str(_) => Some(QueryParamValueType::Str(string_value.clone())),
            QueryParamValueType::Int(_) => match parse_isize(&chars) {
                Some(v) => Some(QueryParamValueType::Int(v)),
                None => None,
            },
            QueryParamValueType::UInt(_) => match parse_usize(&chars) {
                Some(v) => Some(QueryParamValueType::UInt(v)),
                None => None,
            },
            QueryParamValueType::Float(_) => {
                if is_float_text(&chars) {
                    Some(QueryParamValueType::Float(string_value.clone()))
                } else {
                    None
                }
            },
            QueryParamValueType::Boolean(_) => {
                let word_true = vec!['t', 'r', 'u', 'e'];
                let word_t = vec!['t'];
                let word_one = vec!['1'];
                assert(word_true@ =~= seq!['t', 'r', 'u', 'e']);
                assert(word_t@ =~= seq!['t']);
                assert(word_one@ =~= seq!['1']);
                let value = same_chars(&chars, &word_true) || same_chars(&chars, &word_t)
                    || same_chars(&chars, &word_one);
                Some(QueryParamValueType::Boolean(value))
            },
        }
    }
}

/// The declared parameters of a route: each name once, with its type.
#[derive(Debug)]
pub struct QuerySchema {
    entries: Vec<(String, QueryParamType)>,
}

impl View for QuerySchema {
    type V = Seq<(Seq<char>, (TypedValue, Flags))>;

    closed spec fn view(&self) -> Seq<(Seq<char>, (TypedValue, Flags))> {
        pairs_view(self.entries@)
    }
}

impl QueryParamType {
    /// A declared type equal to this one.
    pub fn copied(&self) -> (r: QueryParamType)
        ensures
            r@ == self@,
    {
        QueryParamType { _type: self._type.copied(), flags: self.flags }
    }
}

/// Declarations equal to `e`.
fn copy_declarations(e: &Vec<(String, QueryParamType)>) -> (r: Vec<(String, QueryParamType)>)
    ensures
        pairs_view(r@) == pairs_view(e@),
{
    let mut r: Vec<(String, QueryParamType)> = Vec::new();
    let mut i: usize = 0;
    while i < e.len()
        invariant
            i <= e.len(),
            pairs_view(r@) == pairs_view(e@.take(i as int)),
        decreases e.len() - i,
    {
        let ghost before = r@;
        let (k, v) = (&e[i].0, &e[i].1);
        r.push((k.clone(), v.copied()));
        assert(pairs_view(r@) =~= pairs_view(before).push((k@, v@)));
        assert(e@.take(i + 1) =~= e@.take(i as int).push(e@[i as int]));
        assert(pairs_view(e@.take(i + 1)) =~= pairs_view(e@.take(i as int)).push((k@, v@)));
        i += 1;
    }
    assert(e@.take(e.len() as int) =~= e@);
    r
}

impl QuerySchema {
    /// Each name is declared once.
    #[verifier::type_invariant]
    spec fn names_distinct(self) -> bool {
        distinct_keys(pairs_view(self.entries@))
    }

    /// Each name is declared once in every schema.
    pub fn distinct_names(&self)
        ensures
            distinct_keys(self@),
    {
        proof {
            use_type_invariant(self);
        }
    }

    /// A schema that declares nothing.
    pub fn new() -> (r: QuerySchema)
        ensures
            r@ == Seq::<(Seq<char>, (TypedValue, Flags))>::empty(),
    {
        let r = QuerySchema { entries: Vec::new() };
        assert(r@ =~= Seq::<(Seq<char>, (TypedValue, Flags))>::empty());
        r
    }

    /// Declares `name` with the type `t`, replacing an earlier declaration.
    pub fn insert(&mut self, name: String, t: QueryParamType)
        ensures
            final(self)@ == insert_entry(old(self)@, name@, t@),
    {
        proof {
            use_type_invariant(&*self);
            lemma_insert_distinct(self@, name@, t@);
        }
        let mut entries = copy_declarations(&self.entries);
        insert_in(&mut entries, name, t);
        self.entries = entries;
    }

    /// The declared type of `name`.
    pub fn get(&self, name: &String) -> (r: Option<&QueryParamType>)
        ensures
            match lookup(self@, name@) {
                Some(x) => r matches Some(y) && y@ == x,
                None => r is None,
            },
    {
        get_in(&self.entries, name)
    }

    /// Whether `name` is declared.
    pub fn contains_key(&self, name: &String) -> (r: bool)
        ensures
            r == lookup(self@, name@) is Some,
    {
        self.get(name).is_some()
    }

    /// The number of declared names.
    pub fn len(&self) -> (r: usize)
        ensures
            r == self@.len(),
    {
        self.entries.len()
    }

    /// The name and type declared at position `i`.
    pub fn entry(&self, i: usize) -> (r: (&String, &QueryParamType))
        requires
            i < self@.len(),
        ensures
            r.0@ == self@[i as int].0,
            r.1@ == self@[i as int].1,
    {
        let e = &self.entries[i];
        (&e.0, &e.1)
    }
}

/// The parameters bound from a query string: each name once, with its value.
#[derive(Debug)]
pub struct QueryParams {
    entries: Vec<(String, QueryParam)>,
}

impl View for QueryParams {
    type V = Seq<(Seq<char>, ParamValue)>;

    closed spec fn view(&self) -> Seq<(Seq<char>, ParamValue)> {
        pairs_view(self.entries@)
    }
}

impl QueryParams {
    /// No parameters.
    pub fn new() -> (r: QueryParams)
        ensures
            r@ == Seq::<(Seq<char>, ParamValue)>::empty(),
    {
        let r = QueryParams { entries: Vec::new() };
        assert(r@ =~= Seq::<(Seq<char>, ParamValue)>::empty());
        r
    }

    /// Sets the parameter `name` to `p`, replacing an earlier value.
    pub fn insert(&mut self, name: String, p: QueryParam)
        ensures
            final(self)@ == insert_entry(old(self)@, name@, p@),
    {
        insert_in(&mut self.entries, name, p);
    }

    /// The parameter `name`.
    pub fn get(&self, name: &String) -> (r: Option<&QueryParam>)
        ensures
            match lookup(self@, name@) {
                Some(x) => r matches Some(y) && y@ == x,
                None => r is None,
            },
    {
        get_in(&self.entries, name)
    }

    /// Whether the parameter `name` is there.
    pub fn contains_key(&self, name: &String) -> (r: bool)
        ensures
            r == lookup(self@, name@) is Some,
    {
        self.get(name).is_some()
    }

    /// The number of parameters.
    pub fn len(&self) -> (r: usize)
        ensures
            r == self@.len(),
    {
        self.entries.len()
    }

    /// Parameters equal to these.
    pub fn copied(&self) -> (r: QueryParams)
        ensures
            r@ == self@,
    {
        let mut entries: Vec<(String, QueryParam)> = Vec::new();
        let mut i: usize = 0;
        while i < self.entries.len()
            invariant
                i <= self.entries.len(),
                pairs_view(entries@) == pairs_view(self.entries@.take(i as int)),
            decreases self.entries.len() - i,
        {
            let ghost before = entries@;
            let (k, v) = (&self.entries[i].0, &self.entries[i].1);
            entries.push((k.clone(), QueryParam { value: v.value.copied() }));
            assert(pairs_view(entries@) =~= pairs_view(before).push((k@, v@)));
            assert(self.entries@.take(i + 1) =~= self.entries@.take(i as int).push(self.entries@[i as int]));
            assert(pairs_view(self.entries@.take(i + 1)) =~= pairs_view(self.entries@.take(i as int)).push((k@, v@)));
            i += 1;
        }
        assert(self.entries@.take(self.entries.len() as int) =~= self.entries@);
        QueryParams { entries }
    }

    /// The name and value of the parameter at position `i`.
    pub fn entry(&self, i: usize) -> (r: (&String, &QueryParam))
        requires
            i < self@.len(),
        ensures
            r.0@ == self@[i as int].0,
            r.1@ == self@[i as int].1,
    {
        let e = &self.entries[i];
        (&e.0, &e.1)
    }
}

/// Text coerced to a boolean is true exactly for `true`, `t` and `1`, and
/// the coercion never fails.
pub proof fn lemma_boolean_coercion(s: Seq<char>, b: bool)
    ensures
        coerce(s, TypedValue::Boolean(b)) == Some(TypedValue::Boolean(is_true_text(s))),
        !is_true_text(s) ==> coerce(s, TypedValue::Boolean(b)) == Some(TypedValue::Boolean(false)),
{
}

} // verus!
