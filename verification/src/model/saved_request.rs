//! Requests the user saved under a name, and the ids that tell them apart.
use vstd::prelude::*;

use super::request::{HttpRequest, RequestView};
use crate::text::{chars_of, extend_chars, string_of};

verus! {

/// A request kept in the user's collection.
#[derive(Debug, Clone, PartialEq, Eq)]
pub struct SavedRequest {
    pub id: String,
    pub name: String,
    pub request: HttpRequest,
}

/// A saved request as plain values.
pub struct SavedView {
    pub id: Seq<char>,
    pub name: Seq<char>,
    pub request: RequestView,
}

impl View for SavedRequest {
    type V = SavedView;

    open spec fn view(&self) -> SavedView {
        SavedView { id: self.id@, name: self.name@, request: self.request@ }
    }
}

/// The views of a sequence of saved requests.
pub open spec fn saved_view(s: Seq<SavedRequest>) -> Seq<SavedView> {
    s.map_values(|e: SavedRequest| e@)
}

/// The lower-case hexadecimal digit for `d < 16`.
pub open spec fn hex_digit(d: nat) -> char {
    if d < 10 {
        (('0' as nat) + d) as char
    } else {
        (('a' as nat) + (d - 10)) as char
    }
}

/// `n` in lower-case hexadecimal without leading zeros (`format!("{n:x}")`).
pub open spec fn hex(n: nat) -> Seq<char>
    decreases n,
{
    if n < 16 {
        seq![hex_digit(n)]
    } else {
        hex((n / 16) as nat).push(hex_digit(n % 16))
    }
}

/// The id made of a timestamp in nanoseconds and a sequence number.
pub open spec fn id_text(nanos: nat, sequence: nat) -> Seq<char> {
    hex(nanos) + seq!['-'] + hex(sequence)
}

/// The name a request gets when it is saved: method name, a space, the URL.
pub open spec fn derived_name_of(request: RequestView) -> Seq<char> {
    request.method.name() + seq![' '] + request.url
}

pub open spec fn derived_name(request: HttpRequest) -> Seq<char> {
    derived_name_of(request@)
}

fn hex_digit_char(d: u8) -> (c: char)
    requires
        d < 16,
    ensures
        c == hex_digit(d as nat),
{
    match d {
        0 => '0',
        1 => '1',
        2 => '2',
        3 => '3',
        4 => '4',
        5 => '5',
        6 => '6',
        7 => '7',
        8 => '8',
        9 => '9',
        10 => 'a',
        11 => 'b',
        12 => 'c',
        13 => 'd',
        14 => 'e',
        _ => 'f',
    }
}

/// `n` in lower-case hexadecimal.
pub fn hex_chars(n: u128) -> (r: Vec<char>)
    ensures
        r@ == hex(n as nat),
{
    let mut cur: u128 = n;
    let mut digits: Vec<char> = Vec::new();
    loop
        invariant
            hex(n as nat) == hex(cur as nat) + digits@,
        decreases cur,
    {
        let d = (cur % 16) as u8;
        digits.insert(0, hex_digit_char(d));
        if cur < 16 {
            assert(hex(n as nat) == digits@);
            return digits;
        }
        cur = cur / 16;
        assert(hex(n as nat) == hex(cur as nat) + digits@);
    }
}

/// The id for a timestamp and a sequence number: both in hexadecimal,
/// joined by `-`.
pub fn new_id(nanos: u128, sequence: u64) -> (r: String)
    ensures
        r@ == id_text(nanos as nat, sequence as nat),
{
    let mut out = hex_chars(nanos);
    out.push('-');
    let tail = hex_chars(sequence as u128);
    extend_chars(&mut out, &tail);
    string_of(&out)
}

/// The name `SavedRequest::new` gives a request.
pub fn derive_name(request: &HttpRequest) -> (r: String)
    ensures
        r@ == derived_name(*request),
{
    let mut out = chars_of(request.method.as_str());
    out.push(' ');
    let url = chars_of(request.url.as_str());
    extend_chars(&mut out, &url);
    string_of(&out)
}

impl SavedRequest {
    /// A saved request with the given id, named after its method and URL.
    pub fn new(request: HttpRequest, id: String) -> (r: SavedRequest)
        ensures
            r.id@ == id@,
            r.name@ == derived_name(request),
            r.request@ == request@,
    {
        let name = derive_name(&request);
        SavedRequest { id, name, request }
    }

    pub fn rename(&mut self, name: String)
        ensures
            final(self).name@ == name@,
            final(self).id@ == old(self).id@,
            final(self).request@ == old(self).request@,
    {
        self.name = name;
    }

    /// Names the request after its (possibly changed) method and URL again.
    pub fn refresh_name(&mut self)
        ensures
            final(self).name@ == derived_name(old(self).request),
            final(self).id@ == old(self).id@,
            final(self).request@ == old(self).request@,
    {
        self.name = derive_name(&self.request);
    }

    /// A copy of this saved request.
    pub fn copy(&self) -> (r: SavedRequest)
        ensures
            r.id@ == self.id@,
            r.name@ == self.name@,
            r.request@ == self.request@,
    {
        SavedRequest { id: self.id.clone(), name: self.name.clone(), request: self.request.copy() }
    }
}

} // verus!

verus! {

/// The number that a string of lower-case hexadecimal digits stands for.
pub open spec fn hex_value(s: Seq<char>) -> nat
    decreases s.len(),
{
    if s.len() == 0 {
        0
    } else {
        hex_value(s.drop_last()) * 16 + digit_value(s.last())
    }
}

pub open spec fn digit_value(c: char) -> nat {
    if '0' <= c && c <= '9' {
        (c as nat - '0' as nat) as nat
    } else {
        (c as nat - 'a' as nat + 10) as nat
    }
}

proof fn lemma_hex_digit(d: nat)
    requires
        d < 16,
    ensures
        digit_value(hex_digit(d)) == d,
        hex_digit(d) != '-',
{
}

proof fn lemma_hex_value(n: nat)
    ensures
        hex_value(hex(n)) == n,
        !hex(n).contains('-'),
        hex(n).len() > 0,
    decreases n,
{
    if n < 16 {
        lemma_hex_digit(n);
        assert(hex(n).drop_last().len() == 0);
        assert(hex_value(hex(n).drop_last()) == 0);
        assert(hex(n)[0] == hex_digit(n));
        assert(hex(n).last() == hex_digit(n));
    } else {
        lemma_hex_value(n / 16);
        lemma_hex_digit(n % 16);
        let h = hex(n);
        assert(h.drop_last() == hex(n / 16));
        assert(h.last() == hex_digit(n % 16));
        assert(hex_value(h) == hex_value(hex(n / 16)) * 16 + n % 16);
        assert((n / 16) * 16 + n % 16 == n);
        assert forall|i: int| 0 <= i < h.len() implies h[i] != '-' by {
            if i < h.len() - 1 {
                assert(h[i] == hex(n / 16)[i]);
            }
        }
    }
}

proof fn lemma_dash_position(a: Seq<char>, b: Seq<char>)
    requires
        !a.contains('-'),
    ensures
        crate::text::first_index(a + seq!['-'] + b, '-') == a.len(),
{
    let s = a + seq!['-'] + b;
    assert forall|j: int| 0 <= j < a.len() implies #[trigger] s[j] != '-' by {
        assert(s[j] == a[j]);
    }
    crate::text::lemma_first_index(s, '-', a.len() as int);
}

/// Different timestamps or sequence numbers give different ids.
pub proof fn law_ids_distinct(n1: nat, s1: nat, n2: nat, s2: nat)
    requires
        n1 != n2 || s1 != s2,
    ensures
        id_text(n1, s1) != id_text(n2, s2),
{
    lemma_hex_value(n1);
    lemma_hex_value(n2);
    lemma_hex_value(s1);
    lemma_hex_value(s2);
    if id_text(n1, s1) == id_text(n2, s2) {
        lemma_dash_position(hex(n1), hex(s1));
        lemma_dash_position(hex(n2), hex(s2));
        let t = id_text(n1, s1);
        assert(t.take(hex(n1).len() as int) == hex(n1));
        assert(id_text(n2, s2).take(hex(n2).len() as int) == hex(n2));
        assert(t.skip(hex(n1).len() + 1int) == hex(s1));
        assert(id_text(n2, s2).skip(hex(n2).len() + 1int) == hex(s2));
    }
}

/// A lower-case hexadecimal digit.
pub open spec fn is_hex_char(c: char) -> bool {
    ('0' <= c && c <= '9') || ('a' <= c && c <= 'f')
}

/// Text of the shape `[0-9a-f]+-[0-9a-f]+`.
pub open spec fn id_shaped(t: Seq<char>) -> bool {
    exists|p: int|
        0 < p < t.len() - 1 && #[trigger] t[p] == '-' && forall|i: int|
            0 <= i < t.len() && i != p ==> is_hex_char(#[trigger] t[i])
}

proof fn lemma_hex_chars(n: nat)
    ensures
        hex(n).len() > 0,
        forall|i: int| 0 <= i < hex(n).len() ==> is_hex_char(#[trigger] hex(n)[i]),
    decreases n,
{
    if n >= 16 {
        lemma_hex_chars(n / 16);
        let h = hex(n);
        assert forall|i: int| 0 <= i < h.len() implies is_hex_char(#[trigger] h[i]) by {
            if i < h.len() - 1 {
                assert(h[i] == hex(n / 16)[i]);
            }
        }
    }
}

/// Every id is two runs of lower-case hexadecimal digits joined by one `-`.
pub proof fn law_id_shape(nanos: nat, sequence: nat)
    ensures
        id_shaped(id_text(nanos, sequence)),
{
    lemma_hex_chars(nanos);
    lemma_hex_chars(sequence);
    let a = hex(nanos);
    let b = hex(sequence);
    let t = id_text(nanos, sequence);
    let p = a.len() as int;
    assert(t[p] == '-');
    assert forall|i: int| 0 <= i < t.len() && i != p implies is_hex_char(#[trigger] t[i]) by {
        if i < p {
            assert(t[i] == a[i]);
        } else {
            assert(t[i] == b[i - p - 1]);
        }
    }
}

} // verus!
