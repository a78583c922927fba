//! HTTP request methods.
use vstd::prelude::*;

use crate::text::{ascii_lower, chars_eq_ignore_case, chars_of, eq_ignore_case};

verus! {

/// The HTTP methods a request can use.
#[derive(Debug, Clone, Copy, PartialEq, Eq, Structural)]
pub enum HttpMethod {
    Get,
    Post,
    Put,
    Patch,
    Delete,
    Head,
    Options,
}

/// Every method, in the order in which they are offered and matched.
pub const ALL_METHODS: [HttpMethod; 7] = [
    HttpMethod::Get,
    HttpMethod::Post,
    HttpMethod::Put,
    HttpMethod::Patch,
    HttpMethod::Delete,
    HttpMethod::Head,
    HttpMethod::Options,
];

/// The error for a method name that names no method; it keeps the name.
#[derive(Debug, Clone, PartialEq, Eq)]
pub struct UnknownMethod(pub String);

impl UnknownMethod {
    /// The text shown for this error: `unknown HTTP method '<name>'`.
    pub fn message(&self) -> (r: String)
        ensures
            r@ == "unknown HTTP method '"@ + self.0@ + "'"@,
    {
        let mut out = "unknown HTTP method '".to_owned();
        out.append(self.0.as_str());
        out.append("'");
        out
    }
}

impl HttpMethod {
    /// Every method, in the order in which they are offered and matched.
    pub const ALL: [HttpMethod; 7] = ALL_METHODS;

    /// The canonical upper-case name of the method.
    pub open spec fn name(self) -> Seq<char> {
        match self {
            HttpMethod::Get => "GET"@,
            HttpMethod::Post => "POST"@,
            HttpMethod::Put => "PUT"@,
            HttpMethod::Patch => "PATCH"@,
            HttpMethod::Delete => "DELETE"@,
            HttpMethod::Head => "HEAD"@,
            HttpMethod::Options => "OPTIONS"@,
        }
    }

    /// Whether a request with this method carries a body.
    pub open spec fn spec_allows_body(self) -> bool {
        !(self is Get || self is Head)
    }

    /// The method whose name equals `s` up to ASCII case, trying the methods
    /// in the order of `ALL_METHODS`.
    pub open spec fn from_name(s: Seq<char>) -> Option<HttpMethod> {
        if eq_ignore_case(HttpMethod::Get.name(), s) {
            Some(HttpMethod::Get)
        } else if eq_ignore_case(HttpMethod::Post.name(), s) {
            Some(HttpMethod::Post)
        } else if eq_ignore_case(HttpMethod::Put.name(), s) {
            Some(HttpMethod::Put)
        } else if eq_ignore_case(HttpMethod::Patch.name(), s) {
            Some(HttpMethod::Patch)
        } else if eq_ignore_case(HttpMethod::Delete.name(), s) {
            Some(HttpMethod::Delete)
        } else if eq_ignore_case(HttpMethod::Head.name(), s) {
            Some(HttpMethod::Head)
        } else if eq_ignore_case(HttpMethod::Options.name(), s) {
            Some(HttpMethod::Options)
        } else {
            None
        }
    }

    pub fn as_str(self) -> (r: &'static str)
        ensures
            r@ == self.name(),
    {
        match self {
            HttpMethod::Get => "GET",
            HttpMethod::Post => "POST",
            HttpMethod::Put => "PUT",
            HttpMethod::Patch => "PATCH",
            HttpMethod::Delete => "DELETE",
            HttpMethod::Head => "HEAD",
            HttpMethod::Options => "OPTIONS",
        }
    }

    pub fn allows_body(self) -> (r: bool)
        ensures
            r == self.spec_allows_body(),
    {
        match self {
            HttpMethod::Post | HttpMethod::Put | HttpMethod::Patch | HttpMethod::Delete
            | HttpMethod::Options => true,
            HttpMethod::Get | HttpMethod::Head => false,
        }
    }

    /// Parses a method name, ignoring ASCII case.
    pub fn parse_name(s: &str) -> (r: Result<HttpMethod, UnknownMethod>)
        ensures
            match r {
                Ok(m) => HttpMethod::from_name(s@) == Some(m),
                Err(e) => HttpMethod::from_name(s@) is None && e.0@ == s@,
            },
    {
        let v = chars_of(s);
        match HttpMethod::parse_chars(&v) {
            Some(m) => Ok(m),
            None => Err(UnknownMethod(s.to_owned())),
        }
    }

    /// Parses a method name given as characters, ignoring ASCII case.
    pub fn parse_chars(v: &[char]) -> (r: Option<HttpMethod>)
        ensures
            r == HttpMethod::from_name(v@),
    {
        let mut i: usize = 0;
        while i < 7
            invariant
                i <= 7,
                forall|j: int| 0 <= j < i ==> !eq_ignore_case(#[trigger] ALL_METHODS@[j].name(), v@),
            decreases 7 - i,
        {
            let m = ALL_METHODS[i];
            let name = chars_of(m.as_str());
            if chars_eq_ignore_case(&name, v) {
                proof {
                    lemma_eq_ignore_case_symmetric(name@, v@);
                }
                assert(forall|j: int| 0 <= j < i ==> !eq_ignore_case(#[trigger] ALL_METHODS@[j].name(), v@));
                return Some(m);
            }
            proof {
                lemma_eq_ignore_case_symmetric(name@, v@);
            }
            i += 1;
        }
        None
    }
}

pub open spec fn all_upper(s: Seq<char>) -> bool {
    forall|i: int| 0 <= i < s.len() ==> 'A' <= #[trigger] s[i] && s[i] <= 'Z'
}

proof fn lemma_upper_eq_ignore_case(a: Seq<char>, b: Seq<char>)
    requires
        all_upper(a),
        all_upper(b),
        eq_ignore_case(a, b),
    ensures
        a == b,
{
    assert forall|i: int| 0 <= i < a.len() implies a[i] == b[i] by {
        assert(ascii_lower(a[i]) == ascii_lower(b[i]));
        assert('A' <= a[i] <= 'Z');
        assert('A' <= b[i] <= 'Z');
    }
    assert(a =~= b);
}

proof fn lemma_names_upper(m: HttpMethod)
    ensures
        all_upper(m.name()),
{
    reveal_strlit("GET");
    reveal_strlit("POST");
    reveal_strlit("PUT");
    reveal_strlit("PATCH");
    reveal_strlit("DELETE");
    reveal_strlit("HEAD");
    reveal_strlit("OPTIONS");
}

proof fn lemma_names_distinct(a: HttpMethod, b: HttpMethod)
    ensures
        a.name() == b.name() ==> a == b,
{
    reveal_strlit("GET");
    reveal_strlit("POST");
    reveal_strlit("PUT");
    reveal_strlit("PATCH");
    reveal_strlit("DELETE");
    reveal_strlit("HEAD");
    reveal_strlit("OPTIONS");
    if a.name() == b.name() && a != b {
        assert(a.name().len() == b.name().len());
        assert(a.name()[0] == b.name()[0]);
        assert(a.name()[1] == b.name()[1]);
    }
}

proof fn lemma_name_match_is_same(k: HttpMethod, m: HttpMethod)
    ensures
        eq_ignore_case(k.name(), m.name()) <==> k == m,
{
    lemma_names_upper(k);
    lemma_names_upper(m);
    if eq_ignore_case(k.name(), m.name()) {
        lemma_upper_eq_ignore_case(k.name(), m.name());
        lemma_names_distinct(k, m);
    }
}

/// A method's name reads back as that method: what `as_str` writes (and the
/// store keeps), `parse_name` turns into the same method.
pub proof fn law_method_name_roundtrip(m: HttpMethod)
    ensures
        HttpMethod::from_name(m.name()) == Some(m),
{
    lemma_name_match_is_same(HttpMethod::Get, m);
    lemma_name_match_is_same(HttpMethod::Post, m);
    lemma_name_match_is_same(HttpMethod::Put, m);
    lemma_name_match_is_same(HttpMethod::Patch, m);
    lemma_name_match_is_same(HttpMethod::Delete, m);
    lemma_name_match_is_same(HttpMethod::Head, m);
    lemma_name_match_is_same(HttpMethod::Options, m);
}

/// A name equal to a method's name up to ASCII case parses to that method.
pub proof fn law_method_from_equal_name(m: HttpMethod, s: Seq<char>)
    requires
        eq_ignore_case(m.name(), s),
    ensures
        HttpMethod::from_name(s) == Some(m),
{
    law_method_name_roundtrip(m);
    lemma_same_match(HttpMethod::Get, m.name(), s);
    lemma_same_match(HttpMethod::Post, m.name(), s);
    lemma_same_match(HttpMethod::Put, m.name(), s);
    lemma_same_match(HttpMethod::Patch, m.name(), s);
    lemma_same_match(HttpMethod::Delete, m.name(), s);
    lemma_same_match(HttpMethod::Head, m.name(), s);
    lemma_same_match(HttpMethod::Options, m.name(), s);
}

proof fn lemma_same_match(x: HttpMethod, a: Seq<char>, b: Seq<char>)
    requires
        eq_ignore_case(a, b),
    ensures
        eq_ignore_case(x.name(), a) == eq_ignore_case(x.name(), b),
{
    let n = x.name();
    if eq_ignore_case(n, a) {
        assert forall|i: int| 0 <= i < n.len() implies ascii_lower(#[trigger] n[i]) == ascii_lower(b[i]) by {
            assert(ascii_lower(n[i]) == ascii_lower(a[i]));
            assert(ascii_lower(a[i]) == ascii_lower(b[i]));
        }
    }
    if eq_ignore_case(n, b) {
        assert forall|i: int| 0 <= i < n.len() implies ascii_lower(#[trigger] n[i]) == ascii_lower(a[i]) by {
            assert(ascii_lower(n[i]) == ascii_lower(b[i]));
            assert(ascii_lower(a[i]) == ascii_lower(b[i]));
        }
    }
}

/// A name that parses names that method, up to ASCII case.
pub proof fn law_parsed_name_matches(s: Seq<char>, m: HttpMethod)
    requires
        HttpMethod::from_name(s) == Some(m),
    ensures
        eq_ignore_case(m.name(), s),
{
}

impl std::str::FromStr for HttpMethod {
    type Err = UnknownMethod;

    fn from_str(s: &str) -> (r: Result<HttpMethod, UnknownMethod>)
        ensures
            match r {
                Ok(m) => HttpMethod::from_name(s@) == Some(m),
                Err(e) => HttpMethod::from_name(s@) is None && e.0@ == s@,
            },
    {
        HttpMethod::parse_name(s)
    }
}

proof fn lemma_eq_ignore_case_symmetric(a: Seq<char>, b: Seq<char>)
    ensures
        eq_ignore_case(a, b) == eq_ignore_case(b, a),
{
}

} // verus!
