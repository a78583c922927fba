//! The request editor: what the user types, and the request it stands for.
use vstd::prelude::*;

use crate::format::{json_error, json_parse_error};
use crate::model::http_header::{headers_view, Header};
use crate::model::http_method::HttpMethod;
use crate::model::request::{HttpRequest, RequestView};
use crate::text::{chars_of, is_blank, is_blank_chars, is_blank_str, string_of, trim, trim_chars};

verus! {

broadcast use vstd::string::group_string_axioms;

/// Whether the body is JSON, as the editor reports it.
#[derive(Debug, Clone, PartialEq, Eq)]
pub enum JsonBodyStatus {
    Empty,
    Valid,
    Invalid(String),
}

/// A header line in the editor; disabled lines are not sent.
#[derive(Debug, Clone)]
pub struct HeaderRow {
    pub enabled: bool,
    pub header: Header,
}

/// A header row as plain values.
pub open spec fn row_view(r: HeaderRow) -> (bool, (Seq<char>, Seq<char>)) {
    (r.enabled, r.header@)
}

pub open spec fn rows_view(rows: Seq<HeaderRow>) -> Seq<(bool, (Seq<char>, Seq<char>))> {
    rows.map_values(|r: HeaderRow| row_view(r))
}

impl HeaderRow {
    pub fn from_header(header: Header) -> (r: HeaderRow)
        ensures
            row_view(r) == (true, header@),
    {
        HeaderRow { enabled: true, header }
    }

    /// An enabled row with empty name and value.
    pub fn empty() -> (r: HeaderRow)
        ensures
            row_view(r) == (true, (Seq::<char>::empty(), Seq::<char>::empty())),
    {
        HeaderRow { enabled: true, header: Header { name: String::new(), value: String::new() } }
    }
}

/// The fields of the request editor.  The body is the text of the body
/// editor.
#[derive(Debug, Clone)]
pub struct RequestEditor {
    pub method: HttpMethod,
    pub url: String,
    pub body: String,
    pub headers: Vec<HeaderRow>,
}

/// An editor as plain values.
pub struct EditorView {
    pub method: HttpMethod,
    pub url: Seq<char>,
    pub body: Seq<char>,
    pub headers: Seq<(bool, (Seq<char>, Seq<char>))>,
}

impl View for RequestEditor {
    type V = EditorView;

    open spec fn view(&self) -> EditorView {
        EditorView {
            method: self.method,
            url: self.url@,
            body: self.body@,
            headers: rows_view(self.headers@),
        }
    }
}

/// The editor with nothing in it: GET, no URL, no body, no headers.
pub open spec fn empty_editor() -> EditorView {
    EditorView { method: HttpMethod::Get, url: Seq::empty(), body: Seq::empty(), headers: Seq::empty() }
}

/// The headers a request gets from the rows: enabled rows whose name is not
/// blank, with the name trimmed.
pub open spec fn sent_headers(rows: Seq<(bool, (Seq<char>, Seq<char>))>) -> Seq<(Seq<char>, Seq<char>)>
    decreases rows.len(),
{
    if rows.len() == 0 {
        Seq::empty()
    } else {
        let last = rows.last();
        let init = sent_headers(rows.drop_last());
        if last.0 && !is_blank(last.1.0) {
            init.push((trim(last.1.0), last.1.1))
        } else {
            init
        }
    }
}

/// The request the editor stands for: URL trimmed, the sent headers, and
/// the body only for a method that carries one and when it is not blank.
pub open spec fn editor_request(e: EditorView) -> RequestView {
    RequestView {
        method: e.method,
        url: trim(e.url),
        headers: sent_headers(e.headers),
        body: if e.method.spec_allows_body() && !is_blank(e.body) {
            Some(e.body)
        } else {
            None
        },
    }
}

/// The editor showing `r`: its method, URL and body, every header enabled.
pub open spec fn loaded_editor(r: RequestView) -> EditorView {
    EditorView {
        method: r.method,
        url: r.url,
        body: match r.body {
            Some(b) => b,
            None => Seq::empty(),
        },
        headers: r.headers.map_values(|h: (Seq<char>, Seq<char>)| (true, h)),
    }
}

/// What the editor reports about its body, in the shape of `status_view`:
/// `None` for a blank body, `Some(None)` for JSON, `Some(Some(error))`
/// otherwise.
pub open spec fn json_status_of(body: Seq<char>) -> Option<Option<Seq<char>>> {
    if is_blank(body) {
        None
    } else {
        Some(json_parse_error(body))
    }
}

/// `Empty` as `None`, `Valid` as `Some(None)`, `Invalid(e)` as `Some(Some(e))`.
pub open spec fn status_view(s: JsonBodyStatus) -> Option<Option<Seq<char>>> {
    match s {
        JsonBodyStatus::Empty => None,
        JsonBodyStatus::Valid => Some(None),
        JsonBodyStatus::Invalid(e) => Some(Some(e@)),
    }
}

impl RequestEditor {
    pub fn empty() -> (r: RequestEditor)
        ensures
            r@ == empty_editor(),
    {
        let r = RequestEditor {
            method: HttpMethod::Get,
            url: String::new(),
            body: String::new(),
            headers: Vec::new(),
        };
        assert(rows_view(r.headers@) =~= Seq::empty());
        r
    }

    pub fn load(request: &HttpRequest) -> (r: RequestEditor)
        ensures
            r@ == loaded_editor(request@),
    {
        let mut headers: Vec<HeaderRow> = Vec::new();
        let mut i: usize = 0;
        let ghost src = headers_view(request.headers@);
        while i < request.headers.len()
            invariant
                i <= request.headers@.len(),
                src == headers_view(request.headers@),
                rows_view(headers@) == src.take(i as int).map_values(
                    |h: (Seq<char>, Seq<char>)| (true, h),
                ),
            decreases request.headers@.len() - i,
        {
            let ghost before = rows_view(headers@);
            headers.push(HeaderRow::from_header(request.headers[i].copy()));
            i += 1;
            assert(rows_view(headers@) =~= before.push((true, src[i - 1])));
            assert(src.take(i as int).map_values(|h: (Seq<char>, Seq<char>)| (true, h))
                =~= src.take(i - 1).map_values(|h: (Seq<char>, Seq<char>)| (true, h)).push(
                (true, src[i - 1]),
            ));
        }
        assert(src.take(i as int) == src);
        let body = match &request.body {
            Some(b) => b.clone(),
            None => String::new(),
        };
        RequestEditor { method: request.method, url: request.url.clone(), body, headers }
    }

    pub fn to_request(&self) -> (r: HttpRequest)
        ensures
            r@ == editor_request(self@),
    {
        let mut headers: Vec<Header> = Vec::new();
        let mut i: usize = 0;
        let ghost rows = rows_view(self.headers@);
        while i < self.headers.len()
            invariant
                i <= self.headers@.len(),
                rows == rows_view(self.headers@),
                headers_view(headers@) == sent_headers(rows.take(i as int)),
            decreases self.headers@.len() - i,
        {
            let row = &self.headers[i];
            assert(rows[i as int] == row_view(*row));
            let name = chars_of(row.header.name.as_str());
            let ghost before = headers_view(headers@);
            if row.enabled && !is_blank_chars(&name) {
                let trimmed = trim_chars(&name);
                headers.push(Header { name: string_of(&trimmed), value: row.header.value.clone() });
                assert(headers_view(headers@) =~= before.push((trim(name@), row.header.value@)));
            }
            i += 1;
            assert(rows.take(i as int).drop_last() == rows.take(i - 1));
            assert(rows.take(i as int).last() == rows[i - 1]);
        }
        assert(rows.take(self.headers@.len() as int) == rows);
        let body = if self.method.allows_body() && !is_blank_str(self.body.as_str()) {
            Some(self.body.clone())
        } else {
            None
        };
        let url_chars = chars_of(self.url.as_str());
        let url = string_of(&trim_chars(&url_chars));
        HttpRequest { method: self.method, url, headers, body }
    }

    pub fn json_status(&self) -> (r: JsonBodyStatus)
        ensures
            status_view(r) == json_status_of(self.body@),
    {
        if is_blank_str(self.body.as_str()) {
            return JsonBodyStatus::Empty;
        }
        match json_error(self.body.as_str()) {
            None => JsonBodyStatus::Valid,
            Some(e) => JsonBodyStatus::Invalid(e),
        }
    }

    pub fn add_header(&mut self)
        ensures
            final(self)@ == (EditorView {
                headers: old(self)@.headers.push((true, (Seq::empty(), Seq::empty()))),
                ..old(self)@
            }),
    {
        let ghost before = rows_view(self.headers@);
        self.headers.push(HeaderRow::empty());
        assert(rows_view(self.headers@) =~= before.push((true, (Seq::empty(), Seq::empty()))));
    }

    /// Removes the row at `index`; an index past the end changes nothing.
    pub fn remove_header(&mut self, index: usize)
        ensures
            final(self)@ == (if index < old(self)@.headers.len() {
                EditorView { headers: old(self)@.headers.remove(index as int), ..old(self)@ }
            } else {
                old(self)@
            }),
    {
        if index < self.headers.len() {
            let ghost before = rows_view(self.headers@);
            self.headers.remove(index);
            assert(rows_view(self.headers@) =~= before.remove(index as int));
        }
    }
}

impl Default for RequestEditor {
    fn default() -> (r: RequestEditor)
        ensures
            r@ == empty_editor(),
    {
        RequestEditor::empty()
    }
}

} // verus!

verus! {

/// A request as the editor would produce it: trimmed URL, header names
/// trimmed and not blank, and a body only for a method that carries one and
/// only when it is not blank.
pub open spec fn normalized(r: RequestView) -> bool {
    &&& r.url == trim(r.url)
    &&& forall|i: int|
        0 <= i < r.headers.len() ==> !is_blank(#[trigger] r.headers[i].0) && r.headers[i].0 == trim(
            r.headers[i].0,
        )
    &&& r.body matches Some(b) ==> r.method.spec_allows_body() && !is_blank(b)
}

proof fn lemma_sent_headers_loaded(h: Seq<(Seq<char>, Seq<char>)>)
    requires
        forall|i: int| 0 <= i < h.len() ==> !is_blank(#[trigger] h[i].0) && h[i].0 == trim(h[i].0),
    ensures
        sent_headers(h.map_values(|x: (Seq<char>, Seq<char>)| (true, x))) == h,
    decreases h.len(),
{
    let rows = h.map_values(|x: (Seq<char>, Seq<char>)| (true, x));
    if h.len() > 0 {
        let init = h.drop_last();
        assert forall|i: int| 0 <= i < init.len() implies !is_blank(#[trigger] init[i].0) && init[i].0
            == trim(init[i].0) by {
            assert(init[i] == h[i]);
        }
        lemma_sent_headers_loaded(init);
        assert(rows.drop_last() == init.map_values(|x: (Seq<char>, Seq<char>)| (true, x)));
        assert(rows.last() == (true, h.last()));
        assert(h.last() == h[h.len() - 1]);
        assert(init.push(h.last()) == h);
    } else {
        assert(rows.len() == 0);
    }
}

/// Opening a request in the editor and taking the request back out gives
/// the same request, for every request the editor itself could produce.
pub proof fn law_load_then_to_request(r: RequestView)
    requires
        normalized(r),
    ensures
        editor_request(loaded_editor(r)) == r,
{
    lemma_sent_headers_loaded(r.headers);
    let e = loaded_editor(r);
    if r.body is None {
        assert(e.body.len() == 0);
        assert(trim(e.body).len() == 0);
    }
}

proof fn lemma_sent_headers_concat(
    a: Seq<(bool, (Seq<char>, Seq<char>))>,
    b: Seq<(bool, (Seq<char>, Seq<char>))>,
)
    ensures
        sent_headers(a + b) == sent_headers(a) + sent_headers(b),
    decreases b.len(),
{
    if b.len() == 0 {
        assert(a + b == a);
        assert(sent_headers(a) + sent_headers(b) == sent_headers(a));
    } else {
        lemma_sent_headers_concat(a, b.drop_last());
        assert((a + b).drop_last() == a + b.drop_last());
        assert((a + b).last() == b.last());
    }
}

/// The headers a request sends come from the rows in order: rows concatenate
/// to their headers concatenated; a disabled row or one with a blank name
/// sends nothing; an enabled row with a name sends that name trimmed and its
/// value as it is.
pub proof fn law_sent_headers_rows(
    a: Seq<(bool, (Seq<char>, Seq<char>))>,
    b: Seq<(bool, (Seq<char>, Seq<char>))>,
    name: Seq<char>,
    value: Seq<char>,
)
    ensures
        sent_headers(a + b) == sent_headers(a) + sent_headers(b),
        sent_headers(a + seq![(false, (name, value))] + b) == sent_headers(a + b),
        is_blank(name) ==> sent_headers(a + seq![(true, (name, value))] + b) == sent_headers(a + b),
        !is_blank(name) ==> sent_headers(a + seq![(true, (name, value))] + b) == sent_headers(a) + seq![
            (trim(name), value),
        ] + sent_headers(b),
{
    lemma_sent_headers_concat(a, b);
    let off = seq![(false, (name, value))];
    let on = seq![(true, (name, value))];
    lemma_sent_headers_concat(a + off, b);
    lemma_sent_headers_concat(a, off);
    lemma_sent_headers_concat(a + on, b);
    lemma_sent_headers_concat(a, on);
    assert(off.drop_last().len() == 0);
    assert(on.drop_last().len() == 0);
    assert(sent_headers(off.drop_last()) == Seq::<(Seq<char>, Seq<char>)>::empty());
    assert(sent_headers(on.drop_last()) == Seq::<(Seq<char>, Seq<char>)>::empty());
    assert(sent_headers(off) == Seq::<(Seq<char>, Seq<char>)>::empty());
    if !is_blank(name) {
        assert(sent_headers(on) =~= seq![(trim(name), value)]);
    } else {
        assert(sent_headers(on) == Seq::<(Seq<char>, Seq<char>)>::empty());
    }
    assert(sent_headers(a) + Seq::<(Seq<char>, Seq<char>)>::empty() == sent_headers(a));
}

/// The request keeps the editor's method and trimmed URL, and has a body
/// exactly when the method carries one and the body text is not blank; the
/// body is then the text as it is.
pub proof fn law_request_body(e: EditorView)
    ensures
        editor_request(e).method == e.method,
        editor_request(e).url == trim(e.url),
        (e.method is Get || e.method is Head) ==> editor_request(e).body is None,
        is_blank(e.body) ==> editor_request(e).body is None,
        !(e.method is Get || e.method is Head) && !is_blank(e.body) ==> editor_request(e).body == Some(e.body),
{
}

} // verus!
