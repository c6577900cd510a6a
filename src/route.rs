//! Routes and the registration mini-language that declares, inside a route's
//! path, the query parameters it accepts:
//! `path?name[:type][flags]&...`, where the flags are a suffix drawn from
//! `?` (optional), `*` (a collection that may be empty) and `+` (a
//! collection).
use vstd::prelude::*;
use crate::number::{word_matches, word_matches_exec};
use crate::query::{Flags, QueryParamType, QueryParamValueType, QuerySchema, TypedValue};
use crate::table::{distinct_keys, insert_entry, lemma_insert_distinct};
use crate::text::{
    is_white, lemma_split_one, lemma_split_two, lemma_trim_fixed, chars_of, lemma_split_nonempty, slice_chars, split, split_once,
    split_once_text, split_text, string_of, trim, trim_chars, views,
};

verus! {

/// The method under which a route is registered; `RouteAny` answers every
/// method.
#[derive(Copy, Clone, PartialEq, Eq, Hash, Debug, Structural)]
pub enum RouteMethod {
    RouteGet,
    RoutePost,
    RouteAny,
}

/// A registered route: the parameters it declares, and its handler.
pub struct Route<H> {
    pub queries: QuerySchema,
    pub controller: H,
}

/// Whether `c` is one of the flag characters.
pub open spec fn is_flag_char(c: char) -> bool {
    c == '?' || c == '*' || c == '+'
}

/// The length of the flag suffix of `s`: the longest suffix made of an
/// optional `?` followed by an optional `*` or `+`.
pub open spec fn flag_len(s: Seq<char>) -> int {
    let n = s.len() as int;
    if n >= 2 && s[n - 2] == '?' && (s[n - 1] == '*' || s[n - 1] == '+') {
        2
    } else if n >= 1 && is_flag_char(s[n - 1]) {
        1
    } else {
        0
    }
}

/// The flags that the suffix of `s` declares.
pub open spec fn flags_of(s: Seq<char>) -> Flags {
    let n = s.len() as int;
    let k = flag_len(s);
    let empty = k > 0 && s[n - 1] == '*';
    Flags {
        is_optional: k == 2 || (k == 1 && s[n - 1] == '?'),
        is_array: empty || (k > 0 && s[n - 1] == '+'),
        allow_empty: empty,
    }
}

/// `s` without its flag suffix.
pub open spec fn strip_flags(s: Seq<char>) -> Seq<char> {
    s.take(s.len() - flag_len(s))
}

/// What remains of `s` once its flags are taken off, trimmed.
pub open spec fn flag_rest(s: Seq<char>) -> Seq<char> {
    trim(strip_flags(s))
}

/// The type tag that a type word names, in any case: `bool`, `float`,
/// `int` and `uint`; any other word names text.
pub open spec fn type_tag(w: Seq<char>) -> TypedValue {
    if word_matches(w, seq!['b', 'o', 'o', 'l']) {
        TypedValue::Boolean(false)
    } else if word_matches(w, seq!['f', 'l', 'o', 'a', 't']) {
        TypedValue::Float(Seq::empty())
    } else if word_matches(w, seq!['i', 'n', 't']) {
        TypedValue::Int(0)
    } else if word_matches(w, seq!['u', 'i', 'n', 't']) {
        TypedValue::UInt(0)
    } else {
        TypedValue::Str(Seq::empty())
    }
}

/// The declaration that one `&`-separated segment makes: `name:type[flags]`
/// declares the type that the type word names, in any case; `name[flags]`
/// declares text. The name is kept as written, without flags and trimmed. A
/// blank segment declares nothing.
pub open spec fn segment_entry(seg: Seq<char>) -> Option<(Seq<char>, (TypedValue, Flags))> {
    let t = trim(seg);
    if t.len() == 0 {
        None
    } else {
        let parts = split(t, seq![':']);
        let name = trim(parts[0]);
        if parts.len() > 1 {
            Some((name, (type_tag(trim(strip_flags(parts[1]))), flags_of(parts[1]))))
        } else {
            Some((flag_rest(name), (TypedValue::Str(Seq::empty()), flags_of(name))))
        }
    }
}

/// The schema that a sequence of segments declares, a later declaration of a
/// name replacing an earlier one.
pub open spec fn schema_of_segments(segs: Seq<Seq<char>>) -> Seq<(Seq<char>, (TypedValue, Flags))>
    decreases segs.len(),
{
    if segs.len() == 0 {
        Seq::empty()
    } else {
        let acc = schema_of_segments(segs.drop_last());
        match segment_entry(segs.last()) {
            Some(e) => insert_entry(acc, e.0, e.1),
            None => acc,
        }
    }
}

/// The schema that a registration path declares after its first `?`.
pub open spec fn schema_of(path: Seq<char>) -> Seq<(Seq<char>, (TypedValue, Flags))> {
    match split_once(path, seq!['?']) {
        Some(parts) => schema_of_segments(split(parts.1, seq!['&'])),
        None => Seq::empty(),
    }
}

/// A registration path without its declarations.
pub open spec fn clean_path(path: Seq<char>) -> Seq<char> {
    match split_once(path, seq!['?']) {
        Some(parts) => parts.0,
        None => path,
    }
}

/// The registration segments `name?`, `name:int`, `name:int+` and
/// `name:string?*` declare, for a name without `:` and without white space at
/// its ends: an optional text parameter under the name; an
/// integer; a collection of integers that must not be empty; and an optional
/// collection of texts that may be empty.
pub proof fn lemma_segment_declarations(n: Seq<char>)
    requires
        n.len() > 0,
        !is_white(n[0]),
        !is_white(n.last()),
        forall|i: int| 0 <= i < n.len() ==> n[i] != ':',
    ensures
        segment_entry(n + seq!['?']) == Some(
            (
                n,
                (
                    TypedValue::Str(Seq::empty()),
                    Flags { is_optional: true, is_array: false, allow_empty: false },
                ),
            ),
        ),
        segment_entry(n + seq![':', 'i', 'n', 't']) == Some(
            (n, (TypedValue::Int(0), Flags { is_optional: false, is_array: false, allow_empty: false })),
        ),
        segment_entry(n + seq![':', 'i', 'n', 't', '+']) == Some(
            (n, (TypedValue::Int(0), Flags { is_optional: false, is_array: true, allow_empty: false })),
        ),
        segment_entry(n + seq![':', 's', 't', 'r', 'i', 'n', 'g', '?', '*']) == Some(
            (
                n,
                (
                    TypedValue::Str(Seq::empty()),
                    Flags { is_optional: true, is_array: true, allow_empty: true },
                ),
            ),
        ),
{
    lemma_trim_fixed(n);
    // `name?`
    let s1 = n + seq!['?'];
    assert(s1[0] == n[0]);
    lemma_trim_fixed(s1);
    assert forall|i: int| 0 <= i < s1.len() implies s1[i] != ':' by {
        if i < n.len() {
            assert(s1[i] == n[i]);
        }
    };
    lemma_split_one(s1, ':');
    assert(strip_flags(s1) =~= n);
    // `name:` followed by a type word
    let w_int = seq!['i', 'n', 't'];
    let w_int_plus = seq!['i', 'n', 't', '+'];
    let w_string = seq!['s', 't', 'r', 'i', 'n', 'g', '?', '*'];
    lemma_typed_segment(n, w_int);
    lemma_typed_segment(n, w_int_plus);
    lemma_typed_segment(n, w_string);
    assert(n + seq![':', 'i', 'n', 't'] =~= n + seq![':'] + w_int);
    assert(n + seq![':', 'i', 'n', 't', '+'] =~= n + seq![':'] + w_int_plus);
    assert(n + seq![':', 's', 't', 'r', 'i', 'n', 'g', '?', '*'] =~= n + seq![':'] + w_string);
    assert(strip_flags(w_int) =~= w_int);
    assert(strip_flags(w_int_plus) =~= w_int);
    lemma_trim_fixed(w_int);
    let w_str = seq!['s', 't', 'r', 'i', 'n', 'g'];
    assert(strip_flags(w_string) =~= w_str);
    lemma_trim_fixed(w_str);
    assert(word_matches(w_int, seq!['i', 'n', 't']));
}

/// A segment `name:word` declares under the name the type and flags that the
/// word gives.
proof fn lemma_typed_segment(n: Seq<char>, w: Seq<char>)
    requires
        n.len() > 0,
        !is_white(n[0]),
        !is_white(n.last()),
        forall|i: int| 0 <= i < n.len() ==> n[i] != ':',
        w.len() > 0,
        !is_white(w.last()),
        forall|i: int| 0 <= i < w.len() ==> w[i] != ':',
    ensures
        segment_entry(n + seq![':'] + w) == Some(
            (n, (type_tag(trim(strip_flags(w))), flags_of(w))),
        ),
{
    let s = n + seq![':'] + w;
    assert(s[0] == n[0]);
    assert(s.last() == w.last());
    lemma_trim_fixed(s);
    lemma_trim_fixed(n);
    lemma_split_two(n, ':', w);
}

impl<H> Route<H> {
    /// The route that `path` declares, with `handler`, and the path without
    /// its declarations.
    pub fn new(path: String, handler: H) -> (r: (Route<H>, String))
        ensures
            r.0.queries@ == schema_of(path@),
            distinct_keys(r.0.queries@),
            r.0.controller == handler,
            r.1@ == clean_path(path@),
    {
        let (queries, path) = Self::generate_queries(path);
        (Route { queries, controller: handler }, path)
    }

    /// The parameters that `path` declares after its first `?`, and the path
    /// before it.
    pub fn generate_queries(path: String) -> (r: (QuerySchema, String))
        ensures
            r.0@ == schema_of(path@),
            distinct_keys(r.0@),
            r.1@ == clean_path(path@),
    {
        let chars = chars_of(path.as_str());
        let question = vec!['?'];
        let amp = vec!['&'];
        assert(question@ =~= seq!['?']);
        assert(amp@ =~= seq!['&']);
        match split_once_text(&chars, &question) {
            Some((clean, query_string)) => {
                let segments = split_text(&query_string, &amp);
                let ghost segs = views(segments@);
                let mut result = QuerySchema::new();
                let mut i: usize = 0;
                while i < segments.len()
                    invariant
                        i <= segments.len(),
                        segs == views(segments@),
                        segs == split(query_string@, seq!['&']),
                        result@ == schema_of_segments(segs.take(i as int)),
                        distinct_keys(result@),
                    decreases segments.len() - i,
                {
                    assert(segs.take(i + 1).drop_last() =~= segs.take(i as int));
                    assert(segs[i as int] == segments@[i as int]@);
                    match Self::segment_declaration(&segments[i]) {
                        Some((name, t)) => {
                            proof {
                                lemma_insert_distinct(result@, name@, t@);
                            }
                            result.insert(name, t);
                        },
                        None => {},
                    }
                    i += 1;
                }
                assert(segs.take(segments.len() as int) =~= segs);
                (result, string_of(&clean))
            },
            None => (QuerySchema::new(), path),
        }
    }

    /// The declaration that one segment makes.
    pub fn segment_declaration(seg: &Vec<char>) -> (r: Option<(String, QueryParamType)>)
        ensures
            match segment_entry(seg@) {
                Some(e) => r matches Some(x) && x.0@ == e.0 && x.1@ == e.1,
                None => r is None,
            },
    {
        let t = trim_chars(seg);
        if t.len() == 0 {
            return None;
        }
        let colon = vec![':'];
        assert(colon@ =~= seq![':']);
        let parts = split_text(&t, &colon);
        proof {
            lemma_split_nonempty(t@, seq![':']);
        }
        assert(views(parts@)[0] == parts@[0]@);
        let name = trim_chars(&parts[0]);
        if parts.len() > 1 {
            assert(views(parts@)[1] == parts@[1]@);
            let data_type = string_of(&parts[1]);
            let _type = Self::extract_param_type(data_type.as_str());
            Some((string_of(&name), _type))
        } else {
            let name = string_of(&name);
            let (_type, name) = Self::extract_name_and_type(name.as_str());
            Some((name, _type))
        }
    }

    /// The type that a type word with flags declares.
    pub fn extract_param_type(_type: &str) -> (r: QueryParamType)
        ensures
            r@ == (type_tag(trim(strip_flags(_type@))), flags_of(_type@)),
    {
        // Type words are read without regard to ASCII case.
        let (flags, stripped) = Self::split_flags(_type);
        let word = trim_chars(&stripped);
        let w_bool = vec!['b', 'o', 'o', 'l'];
        let w_float = vec!['f', 'l', 'o', 'a', 't'];
        let w_int = vec!['i', 'n', 't'];
        let w_uint = vec!['u', 'i', 'n', 't'];
        assert(w_bool@ =~= seq!['b', 'o', 'o', 'l']);
        assert(w_float@ =~= seq!['f', 'l', 'o', 'a', 't']);
        assert(w_int@ =~= seq!['i', 'n', 't']);
        assert(w_uint@ =~= seq!['u', 'i', 'n', 't']);
        let _type = if word_matches_exec(&word, &w_bool) {
            QueryParamValueType::Boolean(false)
        } else if word_matches_exec(&word, &w_float) {
            QueryParamValueType::Float(String::new())
        } else if word_matches_exec(&word, &w_int) {
            QueryParamValueType::Int(0)
        } else if word_matches_exec(&word, &w_uint) {
            QueryParamValueType::UInt(0)
        } else {
            QueryParamValueType::Str(String::new())
        };
        QueryParamType { flags, _type }
    }

    /// A text declaration under a name with flags: the type, and the name
    /// without its flags, trimmed.
    pub fn extract_name_and_type(name: &str) -> (r: (QueryParamType, String))
        ensures
            r.0@ == (TypedValue::Str(Seq::empty()), flags_of(name@)),
            r.1@ == flag_rest(name@),
    {
        let (flags, name) = Self::extract_flags(name);
        let _type = QueryParamType { flags, _type: QueryParamValueType::Str(String::new()) };
        (_type, name)
    }

    /// The flags that the suffix of `_type` declares, and what remains of it,
    /// trimmed.
    pub fn extract_flags(_type: &str) -> (r: (Flags, String))
        ensures
            r.0 == flags_of(_type@),
            r.1@ == flag_rest(_type@),
    {
        let (flags, stripped) = Self::split_flags(_type);
        let rest = trim_chars(&stripped);
        (flags, string_of(&rest))
    }

    /// The flags that the suffix of `text` declares, and the characters
    /// before the suffix.
    fn split_flags(text: &str) -> (r: (Flags, Vec<char>))
        ensures
            r.0 == flags_of(text@),
            r.1@ == strip_flags(text@),
    {
        let v = chars_of(text);
        let n = v.len();
        let k: usize = if n >= 2 && v[n - 2] == '?' && (v[n - 1] == '*' || v[n - 1] == '+') {
            2
        } else if n >= 1 && (v[n - 1] == '?' || v[n - 1] == '*' || v[n - 1] == '+') {
            1
        } else {
            0
        };
        let allow_empty = k > 0 && v[n - 1] == '*';
        let flags = Flags {
            is_optional: k == 2 || (k == 1 && v[n - 1] == '?'),
            is_array: allow_empty || (k > 0 && v[n - 1] == '+'),
            allow_empty,
        };
        let stripped = slice_chars(&v, 0, n - k);
        assert(stripped@ =~= strip_flags(text@));
        (flags, stripped)
    }
}

} // verus!
