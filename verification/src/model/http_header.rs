//! A single HTTP header.
use vstd::prelude::*;

verus! {

/// A header as a name and a value.
#[derive(Debug, Clone, PartialEq, Eq)]
pub struct Header {
    pub name: String,
    pub value: String,
}

impl View for Header {
    type V = (Seq<char>, Seq<char>);

    open spec fn view(&self) -> (Seq<char>, Seq<char>) {
        (self.name@, self.value@)
    }
}

/// The views of a sequence of headers.
pub open spec fn headers_view(h: Seq<Header>) -> Seq<(Seq<char>, Seq<char>)> {
    h.map_values(|x: Header| x@)
}

impl Header {
    pub fn new(name: &str, value: &str) -> (r: Header)
        ensures
            r@ == (name@, value@),
    {
        Header { name: name.to_owned(), value: value.to_owned() }
    }

    /// A copy of this header.
    pub fn copy(&self) -> (r: Header)
        ensures
            r@ == self@,
    {
        Header { name: self.name.clone(), value: self.value.clone() }
    }
}

/// A copy of a list of headers.
pub fn copy_headers(h: &Vec<Header>) -> (r: Vec<Header>)
    ensures
        headers_view(r@) == headers_view(h@),
{
    let mut out: Vec<Header> = Vec::new();
    let mut i: usize = 0;
    while i < h.len()
        invariant
            i <= h@.len(),
            headers_view(out@) == headers_view(h@).take(i as int),
        decreases h@.len() - i,
    {
        out.push(h[i].copy());
        i += 1;
        assert(headers_view(h@).take(i as int) == headers_view(h@).take(i - 1).push(h@[i - 1]@));
    }
    assert(headers_view(h@).take(h@.len() as int) == headers_view(h@));
    out
}

} // verus!
