//! Recognising and pretty-printing response bodies (JSON and XML).
use vstd::prelude::*;

use crate::model::request::opt_view;
use crate::text::{
    all_ws, chars_of, ends_with, extend_chars, first_index, first_non_ws, is_ws, lemma_first_index,
    lemma_first_index_after, lemma_first_index_before, lemma_first_index_bounds,
    lemma_first_index_prefix, lemma_trim_all_ws, lemma_trim_end_is_prefix, lemma_trim_end_keeps,
    lemma_trim_end_take, lemma_trim_idempotent, lemma_trim_padded, lemma_trim_shape, slice_chars,
    starts_with, string_of, trim, trim_chars, trim_end, trim_end_chars, trim_start, trimmed,
};

verus! {

broadcast use vstd::string::group_string_axioms;

/// How a body is shown.
#[derive(Debug, Clone, Copy, PartialEq, Eq, Structural)]
pub enum BodyFormat {
    Json,
    Xml,
    Plain,
}

// ---------------------------------------------------------------------------
// JSON, through serde_json
// ---------------------------------------------------------------------------

/// `None` when `serde_json::from_str::<serde_json::Value>` accepts `text`;
/// otherwise the text of the error it reports.
pub uninterp spec fn json_parse_error(text: Seq<char>) -> Option<Seq<char>>;

/// What `serde_json::to_string_pretty` writes for the value parsed from `text`.
pub uninterp spec fn json_pretty(text: Seq<char>) -> Seq<char>;

/// Calls `serde_json::from_str::<Value>`; gives the error's text, if any.
#[verifier::external_body]
pub(crate) fn json_error(text: &str) -> (r: Option<String>)
    ensures
        opt_view(r) == json_parse_error(text@),
{
    match serde_json::from_str::<serde_json::Value>(text) {
        Ok(_) => None,
        Err(e) => Some(e.to_string()),
    }
}

/// Calls `serde_json::from_str::<Value>` and then `serde_json::to_string_pretty`
/// on the value.  Serialising a `Value` cannot fail (its map keys are strings
/// and it is written into memory), so the result is there exactly when the
/// text parses.
#[verifier::external_body]
fn pretty_json(text: &str) -> (r: Option<String>)
    ensures
        r is Some <==> json_parse_error(text@) is None,
        r matches Some(t) ==> t@ == json_pretty(text@),
{
    match serde_json::from_str::<serde_json::Value>(text) {
        Ok(v) => match serde_json::to_string_pretty(&v) {
            Ok(t) => Some(t),
            Err(_) => None,
        },
        Err(_) => None,
    }
}

// ---------------------------------------------------------------------------
// Detection
// ---------------------------------------------------------------------------

/// The format of a body: blank bodies are plain, bodies that parse as JSON
/// (after leading whitespace) are JSON, then bodies starting with `<` are XML.
pub open spec fn detected_format(body: Seq<char>) -> BodyFormat {
    let t = trim_start(body);
    if t.len() == 0 {
        BodyFormat::Plain
    } else if json_parse_error(t) is None {
        BodyFormat::Json
    } else if t[0] == '<' {
        BodyFormat::Xml
    } else {
        BodyFormat::Plain
    }
}

/// The format of a body whose leading-whitespace-trimmed form does or does not
/// parse as JSON.
pub fn classify_body(body: &str, trimmed_is_json: bool) -> (r: BodyFormat)
    ensures
        r == (if trim_start(body@).len() == 0 {
            BodyFormat::Plain
        } else if trimmed_is_json {
            BodyFormat::Json
        } else if trim_start(body@)[0] == '<' {
            BodyFormat::Xml
        } else {
            BodyFormat::Plain
        }),
{
    let v = chars_of(body);
    let i = first_non_ws(&v);
    if i == v.len() {
        BodyFormat::Plain
    } else if trimmed_is_json {
        BodyFormat::Json
    } else if v[i] == '<' {
        BodyFormat::Xml
    } else {
        BodyFormat::Plain
    }
}

pub fn detect_format(body: &str) -> (r: BodyFormat)
    ensures
        r == detected_format(body@),
{
    let v = chars_of(body);
    let i = first_non_ws(&v);
    let trimmed = string_of(&slice_chars(&v, i, v.len()));
    let is_json = json_error(trimmed.as_str()).is_none();
    classify_body(body, is_json)
}

// ---------------------------------------------------------------------------
// Pretty-printing
// ---------------------------------------------------------------------------

/// The body as shown in `format`: JSON pretty-printed when it parses (else
/// unchanged), XML indented, plain text unchanged.
pub open spec fn formatted(body: Seq<char>, format: BodyFormat) -> Seq<char> {
    match format {
        BodyFormat::Json => if json_parse_error(body) is None {
            json_pretty(body)
        } else {
            body
        },
        BodyFormat::Xml => xml_layout(body),
        BodyFormat::Plain => body,
    }
}

pub fn format_body(body: &str, format: BodyFormat) -> (r: String)
    ensures
        r@ == formatted(body@, format),
{
    match format {
        BodyFormat::Json => match pretty_json(body) {
            Some(t) => t,
            None => body.to_owned(),
        },
        BodyFormat::Xml => format_xml(body),
        BodyFormat::Plain => body.to_owned(),
    }
}

/// Two spaces per level.
pub open spec fn indent(depth: nat) -> Seq<char>
    decreases depth,
{
    if depth == 0 {
        Seq::empty()
    } else {
        indent((depth - 1) as nat) + seq![' ', ' ']
    }
}

/// The end (one past the `>`) of the tag that starts `s`, scanning from `i`
/// with `quote` the open quote character, if any; `>` inside quotes does not
/// end the tag.
pub open spec fn tag_end_from(s: Seq<char>, i: int, quote: Option<char>) -> Option<int>
    decreases s.len() - i,
{
    if i < 0 || i >= s.len() {
        None
    } else {
        let ch = s[i];
        match quote {
            Some(q) => if ch == q {
                tag_end_from(s, i + 1, None)
            } else {
                tag_end_from(s, i + 1, quote)
            },
            None => if ch == '"' || ch == '\'' {
                tag_end_from(s, i + 1, Some(ch))
            } else if ch == '>' {
                Some(i + 1)
            } else {
                tag_end_from(s, i + 1, None)
            },
        }
    }
}

pub open spec fn tag_end(s: Seq<char>) -> Option<int> {
    tag_end_from(s, 0, None)
}

pub proof fn lemma_tag_end_bounds(s: Seq<char>, i: int, quote: Option<char>)
    requires
        0 <= i,
    ensures
        tag_end_from(s, i, quote) matches Some(e) ==> i < e <= s.len(),
    decreases s.len() - i,
{
    if i < s.len() {
        let ch = s[i];
        lemma_tag_end_bounds(s, i + 1, None);
        lemma_tag_end_bounds(s, i + 1, quote);
        lemma_tag_end_bounds(s, i + 1, Some(ch));
    }
}

/// The indentation depth at which a tag is written, and the depth after it:
/// a closing tag goes one level up first, a declaration, comment or
/// self-closing tag keeps the level, any other tag opens a level.
pub open spec fn tag_depths(tag: Seq<char>, depth: nat) -> (nat, nat) {
    if starts_with(tag, "</"@) {
        let d = if depth == 0 {
            0
        } else {
            (depth - 1) as nat
        };
        (d, d)
    } else if starts_with(tag, "<?"@) || starts_with(tag, "<!"@) || ends_with(tag, "/>"@) {
        (depth, depth)
    } else {
        (depth, depth + 1)
    }
}

/// A line of text at `depth`; blank text gives no line.
pub open spec fn text_line(text: Seq<char>, depth: nat) -> Seq<char> {
    if text.len() == 0 {
        Seq::empty()
    } else {
        indent(depth) + text + seq!['\n']
    }
}

/// The lines written for the markup `rest` at `depth`: each tag on a line of
/// its own, text between tags trimmed on its own line, and an unterminated
/// tag copied as it is with everything after it.
pub open spec fn xml_lines(rest: Seq<char>, depth: nat) -> Seq<char>
    decreases rest.len(),
{
    if rest.len() == 0 {
        Seq::empty()
    } else {
        let p = first_index(rest, '<');
        proof {
            lemma_first_index_bounds(rest, '<');
        }
        if p == 0 {
            match tag_end(rest) {
                None => rest,
                Some(end) => {
                    proof {
                        lemma_tag_end_bounds(rest, 0, None);
                    }
                    let tag = rest.take(end);
                    let (at, after) = tag_depths(tag, depth);
                    indent(at) + tag + seq!['\n'] + xml_lines(rest.skip(end), after)
                },
            }
        } else if p < rest.len() {
            text_line(trim(rest.take(p)), depth) + xml_lines(rest.skip(p), depth)
        } else {
            text_line(trim(rest), depth)
        }
    }
}

/// An XML body laid out one tag or text per line, indented by nesting depth,
/// ending with exactly one newline.
pub open spec fn xml_layout(body: Seq<char>) -> Seq<char> {
    trim_end(xml_lines(trim(body), 0)) + seq!['\n']
}

fn push_indent(out: &mut Vec<char>, depth: usize)
    ensures
        final(out)@ == old(out)@ + indent(depth as nat),
{
    let mut d: usize = 0;
    while d < depth
        invariant
            d <= depth,
            out@ == old(out)@ + indent(d as nat),
        decreases depth - d,
    {
        out.push(' ');
        out.push(' ');
        d += 1;
        assert(out@ =~= old(out)@ + indent(d as nat));
    }
}

/// The position of the first `c` at or after `from` (`v.len()` when none).
fn find_char_from(v: &[char], from: usize, c: char) -> (r: usize)
    requires
        from <= v@.len(),
    ensures
        r == from + first_index(v@.skip(from as int), c),
        from <= r <= v@.len(),
{
    let mut i: usize = from;
    while i < v.len() && v[i] != c
        invariant
            from <= i <= v@.len(),
            forall|j: int| from <= j < i ==> #[trigger] v@[j] != c,
        decreases v@.len() - i,
    {
        i += 1;
    }
    proof {
        let s = v@.skip(from as int);
        assert forall|j: int| 0 <= j < i - from implies #[trigger] s[j] != c by {
            assert(s[j] == v@[from + j]);
        }
        if i < v@.len() {
            assert(s[i - from] == v@[i as int]);
        }
        lemma_first_index(s, c, i - from);
    }
    i
}

/// The end of the tag starting at `from`, relative to `from`.
fn find_tag_end(v: &[char], from: usize) -> (r: Option<usize>)
    requires
        from <= v@.len(),
    ensures
        match r {
            Some(e) => tag_end(v@.skip(from as int)) == Some(e as int),
            None => tag_end(v@.skip(from as int)) is None,
        },
{
    let ghost s = v@.skip(from as int);
    let n = v.len();
    let mut quote: Option<char> = None;
    let mut i: usize = from;
    while i < n
        invariant
            n == v@.len(),
            from <= i <= n,
            s == v@.skip(from as int),
            tag_end(s) == tag_end_from(s, i - from, quote),
        decreases n - i,
    {
        let ch = v[i];
        assert(s[i - from] == ch);
        match quote {
            Some(q) => {
                if ch == q {
                    quote = None;
                }
            },
            None => {
                if ch == '"' || ch == '\'' {
                    quote = Some(ch);
                } else if ch == '>' {
                    return Some(i - from + 1);
                }
            },
        }
        i += 1;
    }
    None
}

/// Appends the trimmed text `v[lo..hi]` as a line at `depth`, if not blank.
fn push_text_line(out: &mut Vec<char>, v: &[char], lo: usize, hi: usize, depth: usize)
    requires
        lo <= hi <= v@.len(),
    ensures
        final(out)@ == old(out)@ + text_line(trim(v@.subrange(lo as int, hi as int)), depth as nat),
{
    let raw = slice_chars(v, lo, hi);
    let text = trim_chars(&raw);
    if text.len() > 0 {
        push_indent(out, depth);
        extend_chars(out, &text);
        out.push('\n');
    }
}

fn tag_depths_exec(tag: &[char], depth: usize) -> (r: (usize, usize))
    requires
        depth < usize::MAX,
    ensures
        (r.0 as nat, r.1 as nat) == tag_depths(tag@, depth as nat),
{
    let close = chars_of("</");
    let decl = chars_of("<?");
    let bang = chars_of("<!");
    let self_close = chars_of("/>");
    if crate::text::chars_starts_with(tag, &close) {
        let d = if depth == 0 {
            0
        } else {
            depth - 1
        };
        (d, d)
    } else if crate::text::chars_starts_with(tag, &decl) || crate::text::chars_starts_with(
        tag,
        &bang,
    ) || crate::text::chars_ends_with(tag, &self_close) {
        (depth, depth)
    } else {
        (depth, depth + 1)
    }
}

/// Lays out an XML body one tag or text per line.
pub fn format_xml(input: &str) -> (r: String)
    ensures
        r@ == xml_layout(input@),
{
    let all = chars_of(input);
    let t = trim_chars(&all);
    let n = t.len();
    let mut out: Vec<char> = Vec::new();
    let mut depth: usize = 0;
    let mut pos: usize = 0;
    assert(t@.skip(0) == t@);
    while pos < n
        invariant
            n == t@.len(),
            t@ == trim(input@),
            pos <= n,
            depth <= pos,
            xml_lines(t@, 0) == out@ + xml_lines(t@.skip(pos as int), depth as nat),
        decreases n - pos,
    {
        let ghost rest = t@.skip(pos as int);
        let ghost before = out@;
        let lt = find_char_from(&t, pos, '<');
        if lt == pos {
            match find_tag_end(&t, pos) {
                None => {
                    let tail = slice_chars(&t, pos, n);
                    extend_chars(&mut out, &tail);
                    assert(xml_lines(rest, depth as nat) == rest);
                    assert(xml_lines(t@, 0) == out@);
                    return finish_layout(&out, Ghost(t@));
                },
                Some(end) => {
                    proof {
                        lemma_tag_end_bounds(rest, 0, None);
                    }
                    let tag = slice_chars(&t, pos, pos + end);
                    assert(tag@ == rest.take(end as int));
                    let (at, after) = tag_depths_exec(&tag, depth);
                    push_indent(&mut out, at);
                    extend_chars(&mut out, &tag);
                    out.push('\n');
                    assert(rest.skip(end as int) == t@.skip(pos + end));
                    assert(out@ == before + (indent(at as nat) + tag@ + seq!['\n']));
                    pos = pos + end;
                    depth = after;
                },
            }
        } else if lt < n {
            push_text_line(&mut out, &t, pos, lt, depth);
            assert(t@.subrange(pos as int, lt as int) == rest.take(lt - pos));
            assert(rest.skip(lt - pos) == t@.skip(lt as int));
            pos = lt;
        } else {
            push_text_line(&mut out, &t, pos, n, depth);
            assert(t@.subrange(pos as int, n as int) == rest);
            assert(xml_lines(t@, 0) == out@);
            return finish_layout(&out, Ghost(t@));
        }
    }
    assert(t@.skip(pos as int).len() == 0);
    finish_layout(&out, Ghost(t@))
}

fn finish_layout(out: &Vec<char>, Ghost(t): Ghost<Seq<char>>) -> (r: String)
    requires
        xml_lines(t, 0) == out@,
    ensures
        r@ == trim_end(xml_lines(t, 0)) + seq!['\n'],
{
    let mut lines = trim_end_chars(out);
    lines.push('\n');
    string_of(&lines)
}

} // verus!

verus! {

proof fn lemma_trim_end_last(s: Seq<char>)
    ensures
        trim_end(s).len() > 0 ==> !crate::text::is_ws(trim_end(s).last()),
    decreases s.len(),
{
    if s.len() > 0 && crate::text::is_ws(s.last()) {
        lemma_trim_end_last(s.drop_last());
    }
}

/// An indented XML body ends with exactly one newline: the character before
/// it, if any, is not whitespace.
pub proof fn law_xml_single_trailing_newline(body: Seq<char>)
    ensures
        xml_layout(body).last() == '\n',
        xml_layout(body).len() > 1 ==> !crate::text::is_ws(xml_layout(body)[xml_layout(body).len() - 2]),
{
    let lines = trim_end(xml_lines(trim(body), 0));
    lemma_trim_end_last(xml_lines(trim(body), 0));
    let out = lines + seq!['\n'];
    if out.len() > 1 {
        assert(out[out.len() - 2] == lines.last());
    }
}


/// The characters of `s` that are not whitespace, in order.
pub open spec fn solid(s: Seq<char>) -> Seq<char> {
    s.filter(|c: char| !crate::text::is_ws(c))
}

proof fn lemma_solid_add(a: Seq<char>, b: Seq<char>)
    ensures
        solid(a + b) == solid(a) + solid(b),
{
    Seq::filter_distributes_over_add(a, b, |c: char| !crate::text::is_ws(c));
}

proof fn lemma_solid_blank(s: Seq<char>)
    requires
        forall|i: int| 0 <= i < s.len() ==> crate::text::is_ws(#[trigger] s[i]),
    ensures
        solid(s) == Seq::<char>::empty(),
    decreases s.len(),
{
    reveal(Seq::filter);
    if s.len() > 0 {
        lemma_solid_blank(s.drop_last());
    }
}

proof fn lemma_solid_indent(d: nat)
    ensures
        solid(indent(d)) == Seq::<char>::empty(),
    decreases d,
{
    if d > 0 {
        lemma_solid_indent((d - 1) as nat);
        lemma_solid_add(indent((d - 1) as nat), seq![' ', ' ']);
        lemma_solid_blank(seq![' ', ' ']);
    }
}

proof fn lemma_solid_newline()
    ensures
        solid(seq!['\n']) == Seq::<char>::empty(),
{
    lemma_solid_blank(seq!['\n']);
}

proof fn lemma_solid_trim_start(s: Seq<char>)
    ensures
        solid(trim_start(s)) == solid(s),
    decreases s.len(),
{
    if s.len() > 0 && crate::text::is_ws(s[0]) {
        lemma_solid_trim_start(s.drop_first());
        assert(s == seq![s[0]] + s.drop_first());
        lemma_solid_add(seq![s[0]], s.drop_first());
        lemma_solid_blank(seq![s[0]]);
    }
}

proof fn lemma_solid_trim_end(s: Seq<char>)
    ensures
        solid(trim_end(s)) == solid(s),
    decreases s.len(),
{
    if s.len() > 0 && crate::text::is_ws(s.last()) {
        lemma_solid_trim_end(s.drop_last());
        assert(s == s.drop_last() + seq![s.last()]);
        lemma_solid_add(s.drop_last(), seq![s.last()]);
        lemma_solid_blank(seq![s.last()]);
    }
}

proof fn lemma_solid_trim(s: Seq<char>)
    ensures
        solid(trim(s)) == solid(s),
{
    lemma_solid_trim_start(s);
    lemma_solid_trim_end(trim_start(s));
}

proof fn lemma_solid_text_line(text: Seq<char>, d: nat)
    ensures
        solid(text_line(text, d)) == solid(text),
{
    if text.len() > 0 {
        lemma_solid_indent(d);
        lemma_solid_newline();
        lemma_solid_add(indent(d), text);
        lemma_solid_add(indent(d) + text, seq!['\n']);
    } else {
        reveal(Seq::filter);
    }
}

proof fn lemma_solid_lines(r: Seq<char>, d: nat)
    ensures
        solid(xml_lines(r, d)) == solid(r),
    decreases r.len(),
{
    if r.len() > 0 {
        let p = first_index(r, '<');
        lemma_first_index_bounds(r, '<');
        if p == 0 {
            match tag_end(r) {
                None => {},
                Some(end) => {
                    lemma_tag_end_bounds(r, 0, None);
                    let tag = r.take(end);
                    let (at, after) = tag_depths(tag, d);
                    lemma_solid_lines(r.skip(end), after);
                    lemma_solid_indent(at);
                    lemma_solid_newline();
                    lemma_solid_add(indent(at), tag);
                    lemma_solid_add(indent(at) + tag, seq!['\n']);
                    lemma_solid_add(indent(at) + tag + seq!['\n'], xml_lines(r.skip(end), after));
                    lemma_solid_add(tag, r.skip(end));
                    assert(tag + r.skip(end) == r);
                },
            }
        } else if p < r.len() {
            lemma_solid_lines(r.skip(p), d);
            lemma_solid_text_line(trim(r.take(p)), d);
            lemma_solid_trim(r.take(p));
            lemma_solid_add(text_line(trim(r.take(p)), d), xml_lines(r.skip(p), d));
            lemma_solid_add(r.take(p), r.skip(p));
            assert(r.take(p) + r.skip(p) == r);
        } else {
            lemma_solid_text_line(trim(r), d);
            lemma_solid_trim(r);
        }
    }
}

/// Laying out an XML body changes only whitespace: what is not whitespace
/// comes out as it went in, in the same order.
pub proof fn law_xml_changes_only_whitespace(body: Seq<char>)
    ensures
        solid(xml_layout(body)) == solid(body),
{
    let lines = xml_lines(trim(body), 0);
    lemma_solid_lines(trim(body), 0);
    lemma_solid_trim(body);
    lemma_solid_trim_end(lines);
    lemma_solid_newline();
    lemma_solid_add(trim_end(lines), seq!['\n']);
}


proof fn lemma_indent(d: nat)
    ensures
        indent(d).len() == 2 * d,
        all_ws(indent(d)),
    decreases d,
{
    if d > 0 {
        lemma_indent((d - 1) as nat);
        let a = indent((d - 1) as nat);
        assert forall|i: int| 0 <= i < indent(d).len() implies is_ws(#[trigger] indent(d)[i]) by {
            if i < a.len() {
                assert(indent(d)[i] == a[i]);
            }
        }
    }
}

proof fn lemma_ws_no_lt(w: Seq<char>)
    requires
        all_ws(w),
    ensures
        !w.contains('<'),
{
    if w.contains('<') {
        let j = choose|j: int| 0 <= j < w.len() && w[j] == '<';
        assert(is_ws(w[j]));
    }
}

proof fn lemma_ws_concat(a: Seq<char>, b: Seq<char>)
    requires
        all_ws(a),
        all_ws(b),
    ensures
        all_ws(a + b),
{
    assert forall|i: int| 0 <= i < (a + b).len() implies is_ws(#[trigger] (a + b)[i]) by {
        if i < a.len() {
            assert((a + b)[i] == a[i]);
        } else {
            assert((a + b)[i] == b[i - a.len()]);
        }
    }
}

/// A tag's end depends only on the characters up to it.
proof fn lemma_tag_end_same_prefix(s: Seq<char>, t: Seq<char>, i: int, q: Option<char>, e: int)
    requires
        0 <= i,
        tag_end_from(s, i, q) == Some(e),
        e <= t.len(),
        t.take(e) == s.take(e),
    ensures
        tag_end_from(t, i, q) == Some(e),
    decreases s.len() - i,
{
    lemma_tag_end_bounds(s, i, q);
    assert(t[i] == t.take(e)[i]);
    assert(s[i] == s.take(e)[i]);
    let ch = s[i];
    match q {
        Some(qq) => if ch == qq {
            lemma_tag_end_same_prefix(s, t, i + 1, None, e);
        } else {
            lemma_tag_end_same_prefix(s, t, i + 1, q, e);
        },
        None => if ch == '"' || ch == '\'' {
            lemma_tag_end_same_prefix(s, t, i + 1, Some(ch), e);
        } else if ch == '>' {
        } else {
            lemma_tag_end_same_prefix(s, t, i + 1, None, e);
        },
    }
}

/// Whitespace after an unterminated tag leaves it unterminated.
proof fn lemma_tag_end_ws_tail(s: Seq<char>, t: Seq<char>, i: int, q: Option<char>)
    requires
        0 <= i,
        all_ws(t),
        tag_end_from(s, i, q) is None,
        q matches Some(x) ==> !is_ws(x),
    ensures
        tag_end_from(s + t, i, q) is None,
    decreases (s + t).len() - i,
{
    let u = s + t;
    if i < u.len() {
        let ch = u[i];
        if i < s.len() {
            assert(ch == s[i]);
            match q {
                Some(qq) => if ch == qq {
                    lemma_tag_end_ws_tail(s, t, i + 1, None);
                } else {
                    lemma_tag_end_ws_tail(s, t, i + 1, q);
                },
                None => if ch == '"' || ch == '\'' {
                    lemma_tag_end_ws_tail(s, t, i + 1, Some(ch));
                } else {
                    lemma_tag_end_ws_tail(s, t, i + 1, None);
                },
            }
        } else {
            assert(ch == t[i - s.len()]);
            assert(is_ws(ch));
            assert(tag_end_from(s, i + 1, q) is None);
            lemma_tag_end_ws_tail(s, t, i + 1, q);
        }
    }
}

/// Whitespace lays out to nothing.
proof fn lemma_lines_ws(w: Seq<char>, d: nat)
    requires
        all_ws(w),
    ensures
        xml_lines(w, d) == Seq::<char>::empty(),
{
    if w.len() > 0 {
        lemma_ws_no_lt(w);
        lemma_first_index_after(w, Seq::<char>::empty(), '<');
        assert(w + Seq::<char>::empty() == w);
        lemma_trim_all_ws(w);
    }
}

/// Whitespace before a tag is dropped.
proof fn lemma_lines_ws_before_tag(w: Seq<char>, z: Seq<char>, d: nat)
    requires
        all_ws(w),
        z.len() > 0,
        z[0] == '<',
    ensures
        xml_lines(w + z, d) == xml_lines(z, d),
{
    if w.len() > 0 {
        lemma_ws_no_lt(w);
        lemma_first_index_after(w, z, '<');
        lemma_first_index(z, '<', 0);
        let s = w + z;
        assert(s.take(w.len() as int) == w);
        assert(s.skip(w.len() as int) == z);
        lemma_trim_all_ws(w);
    } else {
        assert(w + z == z);
    }
}

/// What markup starting with `<` lays out to: some indentation, then `<`.
proof fn lemma_lines_lead(s: Seq<char>, d: nat) -> (k: nat)
    requires
        s.len() > 0,
        s[0] == '<',
    ensures
        xml_lines(s, d).len() > 2 * k,
        xml_lines(s, d) == indent(k) + xml_lines(s, d).skip((2 * k) as int),
        xml_lines(s, d)[(2 * k) as int] == '<',
{
    lemma_first_index(s, '<', 0);
    let y = xml_lines(s, d);
    match tag_end(s) {
        None => {
            assert(indent(0) + y.skip(0) == y);
            0
        },
        Some(end) => {
            lemma_tag_end_bounds(s, 0, None);
            let tag = s.take(end);
            let (at, after) = tag_depths(tag, d);
            lemma_indent(at);
            let rest = tag + seq!['\n'] + xml_lines(s.skip(end), after);
            assert(y == indent(at) + rest);
            assert(y.skip((2 * at) as int) == rest);
            assert(y[(2 * at) as int] == tag[0]);
            at
        },
    }
}

/// Trailing whitespace of `s` with whitespace after it trims as `s` alone.
proof fn lemma_trim_end_join(p: Seq<char>, x1: Seq<char>, x2: Seq<char>)
    requires
        trim_end(x1) == trim_end(x2),
    ensures
        trim_end(p + x1) == trim_end(p + x2),
{
    lemma_trim_end_is_prefix(x1);
    lemma_trim_end_is_prefix(x2);
    let t = trim_end(x1);
    assert forall|j: int| p.len() + t.len() <= j < (p + x1).len() implies is_ws(#[trigger] (p + x1)[j]) by {
        assert((p + x1)[j] == x1[j - p.len()]);
    }
    assert forall|j: int| p.len() + t.len() <= j < (p + x2).len() implies is_ws(#[trigger] (p + x2)[j]) by {
        assert((p + x2)[j] == x2[j - p.len()]);
    }
    lemma_trim_end_take(p + x1, (p.len() + t.len()) as int);
    lemma_trim_end_take(p + x2, (p.len() + t.len()) as int);
    assert((p + x1).take((p.len() + t.len()) as int) == p + t);
    assert((p + x2).take((p.len() + t.len()) as int) == p + t);
}

proof fn lemma_trim_end_ws_tail(s: Seq<char>, t: Seq<char>)
    requires
        all_ws(t),
    ensures
        trim_end(s + t) == trim_end(s),
{
    assert forall|j: int| s.len() <= j < (s + t).len() implies is_ws(#[trigger] (s + t)[j]) by {
        assert((s + t)[j] == t[j - s.len()]);
    }
    lemma_trim_end_take(s + t, s.len() as int);
    assert((s + t).take(s.len() as int) == s);
}

proof fn lemma_trim_ws_tail(s: Seq<char>, t: Seq<char>)
    requires
        all_ws(t),
    ensures
        trim(s + t) == trim(s),
    decreases s.len(),
{
    if s.len() > 0 && is_ws(s[0]) {
        assert((s + t).drop_first() == s.drop_first() + t);
        lemma_trim_ws_tail(s.drop_first(), t);
    } else if s.len() == 0 {
        assert(s + t == t);
        lemma_trim_all_ws(t);
        lemma_trim_end_ws_tail(trim_start(s + t), Seq::<char>::empty());
    } else {
        assert((s + t)[0] == s[0]);
        lemma_trim_end_ws_tail(s, t);
    }
}

/// Whitespace after the markup does not change the layout, but for
/// trailing whitespace.
proof fn lemma_lines_ws_tail(s: Seq<char>, t: Seq<char>, d: nat)
    requires
        all_ws(t),
    ensures
        trim_end(xml_lines(s + t, d)) == trim_end(xml_lines(s, d)),
    decreases s.len(),
{
    let u = s + t;
    if s.len() == 0 {
        assert(u == t);
        lemma_lines_ws(t, d);
    } else {
        let p = first_index(s, '<');
        lemma_first_index_bounds(s, '<');
        if p < s.len() {
            lemma_first_index_prefix(s, t, '<');
            assert(u.take(p) == s.take(p));
            assert(u.skip(p) == s.skip(p) + t);
        }
        if p == 0 {
            assert(u[0] == s[0]);
            match tag_end(s) {
                None => {
                    lemma_tag_end_ws_tail(s, t, 0, None);
                    lemma_trim_end_ws_tail(s, t);
                },
                Some(end) => {
                    lemma_tag_end_bounds(s, 0, None);
                    assert(u.take(end) == s.take(end));
                    lemma_tag_end_same_prefix(s, u, 0, None, end);
                    assert(u.skip(end) == s.skip(end) + t);
                    let tag = s.take(end);
                    let (at, after) = tag_depths(tag, d);
                    lemma_lines_ws_tail(s.skip(end), t, after);
                    lemma_trim_end_join(
                        indent(at) + tag + seq!['\n'],
                        xml_lines(s.skip(end) + t, after),
                        xml_lines(s.skip(end), after),
                    );
                },
            }
        } else if p < s.len() {
            lemma_lines_ws_tail(s.skip(p), t, d);
            lemma_trim_end_join(
                text_line(trim(s.take(p)), d),
                xml_lines(s.skip(p) + t, d),
                xml_lines(s.skip(p), d),
            );
        } else {
            lemma_first_index_before(s, '<');
            lemma_ws_no_lt(t);
            assert(!s.contains('<'));
            lemma_first_index_after(s, t, '<');
            lemma_first_index(t, '<', t.len() as int);
            lemma_trim_ws_tail(s, t);
        }
    }
}

/// Laying out what a layout produced, after any whitespace, gives the same
/// layout back.
proof fn lemma_lines_stable(r: Seq<char>, d: nat, w: Seq<char>)
    requires
        all_ws(w),
    ensures
        xml_lines(w + xml_lines(r, d), d) == xml_lines(r, d),
    decreases r.len(),
{
    let y = xml_lines(r, d);
    if r.len() == 0 {
        assert(w + y == w);
        lemma_lines_ws(w, d);
    } else {
        let p = first_index(r, '<');
        lemma_first_index_bounds(r, '<');
        if p == 0 {
            match tag_end(r) {
                None => {
                    lemma_lines_ws_before_tag(w, r, d);
                },
                Some(end) => {
                    lemma_tag_end_bounds(r, 0, None);
                    let tag = r.take(end);
                    let (at, after) = tag_depths(tag, d);
                    let y2 = xml_lines(r.skip(end), after);
                    let z = tag + seq!['\n'] + y2;
                    lemma_indent(at);
                    lemma_ws_concat(w, indent(at));
                    assert(w + y == (w + indent(at)) + z);
                    assert(z[0] == '<');
                    lemma_lines_ws_before_tag(w + indent(at), z, d);
                    // the tag is found again
                    lemma_first_index(z, '<', 0);
                    assert(z.take(end) == r.take(end));
                    lemma_tag_end_same_prefix(r, z, 0, None, end);
                    assert(z.skip(end) == seq!['\n'] + y2);
                    assert(all_ws(seq!['\n']));
                    lemma_lines_stable(r.skip(end), after, seq!['\n']);
                },
            }
        } else if p < r.len() {
            let text = r.take(p);
            let tt = trim(text);
            let rest = r.skip(p);
            let y2 = xml_lines(rest, d);
            assert(rest[0] == '<');
            lemma_lines_stable(rest, d, w);
            if tt.len() == 0 {
                assert(y == y2);
            } else {
                lemma_lines_stable(rest, d, Seq::<char>::empty());
                assert(Seq::<char>::empty() + y2 == y2);
                let k = lemma_lines_lead(rest, d);
                let z = y2.skip((2 * k) as int);
                lemma_indent(k);
                lemma_indent(d);
                if k > 0 {
                    lemma_lines_ws_before_tag(indent(k), z, d);
                } else {
                    assert(y2 == z);
                }
                // y2 lays out as z does
                assert(xml_lines(z, d) == y2);
                // the text: no '<' in it
                lemma_first_index_before(r, '<');
                lemma_trim_shape(text);
                assert(!tt.contains('<')) by {
                    if tt.contains('<') {
                        let j = choose|j: int| 0 <= j < tt.len() && tt[j] == '<';
                        assert(text.contains(tt[j]));
                        let m = choose|m: int| 0 <= m < text.len() && text[m] == tt[j];
                        assert(text[m] == r[m]);
                    }
                };
                let w1 = w + indent(d);
                let w2 = seq!['\n'] + indent(k);
                lemma_ws_concat(w, indent(d));
                assert(all_ws(seq!['\n']));
                lemma_ws_concat(seq!['\n'], indent(k));
                let a = w1 + tt + w2;
                assert(w + y == a + z);
                lemma_ws_no_lt(w1);
                lemma_ws_no_lt(w2);
                assert(!a.contains('<')) by {
                    if a.contains('<') {
                        let j = choose|j: int| 0 <= j < a.len() && a[j] == '<';
                        if j < w1.len() {
                            assert(a[j] == w1[j]);
                        } else if j < w1.len() + tt.len() {
                            assert(a[j] == tt[j - w1.len()]);
                        } else {
                            assert(a[j] == w2[j - w1.len() - tt.len()]);
                        }
                    }
                };
                lemma_first_index_after(a, z, '<');
                lemma_first_index(z, '<', 0);
                assert((a + z).take(a.len() as int) == a);
                assert((a + z).skip(a.len() as int) == z);
                lemma_trim_padded(w1, tt, w2);
            }
        } else {
            let tt = trim(r);
            if tt.len() == 0 {
                assert(w + y == w);
                lemma_lines_ws(w, d);
            } else {
                lemma_first_index_before(r, '<');
                lemma_trim_shape(r);
                lemma_indent(d);
                let w1 = w + indent(d);
                let w2 = seq!['\n'];
                lemma_ws_concat(w, indent(d));
                assert(all_ws(w2));
                let a = w1 + tt + w2;
                assert(w + y == a);
                lemma_ws_no_lt(w1);
                assert(!a.contains('<')) by {
                    if a.contains('<') {
                        let j = choose|j: int| 0 <= j < a.len() && a[j] == '<';
                        if j < w1.len() {
                            assert(a[j] == w1[j]);
                        } else if j < w1.len() + tt.len() {
                            assert(a[j] == tt[j - w1.len()]);
                            assert(r.contains(tt[j - w1.len()]));
                        } else {
                            assert(a[j] == w2[j - w1.len() - tt.len()]);
                        }
                    }
                };
                lemma_first_index_after(a, Seq::<char>::empty(), '<');
                assert(a + Seq::<char>::empty() == a);
                lemma_trim_padded(w1, tt, w2);
            }
        }
    }
}

/// The layout of a trimmed body starts with what is not whitespace.
proof fn lemma_lines_start(r: Seq<char>)
    requires
        trimmed(r),
        r.len() > 0,
    ensures
        xml_lines(r, 0).len() > 0,
        !is_ws(xml_lines(r, 0)[0]),
{
    let p = first_index(r, '<');
    lemma_first_index_bounds(r, '<');
    assert(indent(0) == Seq::<char>::empty());
    if p == 0 {
        match tag_end(r) {
            None => {},
            Some(end) => {
                lemma_tag_end_bounds(r, 0, None);
                let tag = r.take(end);
                assert(tag_depths(tag, 0).0 == 0);
                assert(tag[0] == r[0]);
            },
        }
    } else if p < r.len() {
        let text = r.take(p);
        assert(text[0] == r[0]);
        assert(trim_start(text) == text);
        lemma_trim_end_keeps(text, 0);
        lemma_trim_end_is_prefix(text);
        assert(trim(text)[0] == text[0]);
    } else {
        assert(trim_start(r) == r);
        lemma_trim_end_keeps(r, 0);
        lemma_trim_end_is_prefix(r);
        assert(trim(r)[0] == r[0]);
    }
}

/// Laying out an XML body that is already laid out changes nothing.
pub proof fn law_xml_layout_idempotent(body: Seq<char>)
    ensures
        xml_layout(xml_layout(body)) == xml_layout(body),
{
    let r = trim(body);
    lemma_trim_shape(body);
    let l = xml_lines(r, 0);
    let m = trim_end(l);
    let x = m + seq!['\n'];
    lemma_trim_end_is_prefix(l);
    assert(all_ws(seq!['\n']));
    // the second pass reads exactly `m`
    if m.len() == 0 {
        assert(x == seq!['\n']);
        lemma_trim_all_ws(x);
        assert(trim(x) == m);
    } else {
        if r.len() == 0 {
            assert(l == Seq::<char>::empty());
        }
        lemma_lines_start(r);
        assert(m[0] == l[0]);
        assert(crate::text::trimmed(m));
        lemma_trim_padded(Seq::<char>::empty(), m, seq!['\n']);
        assert(Seq::<char>::empty() + m + seq!['\n'] == x);
    }
    // what the second pass lays out, the first already had
    let tail = l.skip(m.len() as int);
    assert forall|j: int| 0 <= j < tail.len() implies is_ws(#[trigger] tail[j]) by {
        assert(tail[j] == l[j + m.len()]);
    }
    assert(m + tail == l);
    lemma_lines_ws_tail(m, tail, 0);
    lemma_lines_stable(r, 0, Seq::<char>::empty());
    assert(Seq::<char>::empty() + l == l);
}

proof fn lemma_trim_start_ws_prefix(w: Seq<char>, b: Seq<char>)
    requires
        all_ws(w),
    ensures
        trim_start(w + b) == trim_start(b),
{
    let s = w + b;
    assert forall|j: int| 0 <= j < w.len() implies is_ws(#[trigger] s[j]) by {
        assert(s[j] == w[j]);
    }
    crate::text::lemma_trim_start_skip(s, w.len() as int);
    assert(s.skip(w.len() as int) == b);
}

/// Whitespace in front of a body does not change its detected format.
pub proof fn law_detect_ignores_leading_whitespace(w: Seq<char>, b: Seq<char>)
    requires
        all_ws(w),
    ensures
        detected_format(w + b) == detected_format(b),
{
    lemma_trim_start_ws_prefix(w, b);
}

/// A body whose first non-whitespace character is `<` and that is not JSON
/// is XML; one that parses as JSON is JSON; a blank one is plain.
pub proof fn law_detect_cases(w: Seq<char>, b: Seq<char>)
    requires
        all_ws(w),
    ensures
        b.len() == 0 ==> detected_format(w + b) == BodyFormat::Plain,
        b.len() > 0 && !is_ws(b[0]) && json_parse_error(b) is None ==> detected_format(w + b)
            == BodyFormat::Json,
        b.len() > 0 && b[0] == '<' && json_parse_error(b) is Some ==> detected_format(w + b)
            == BodyFormat::Xml,
        b.len() > 0 && !is_ws(b[0]) && b[0] != '<' && json_parse_error(b) is Some ==> detected_format(
            w + b,
        ) == BodyFormat::Plain,
{
    lemma_trim_start_ws_prefix(w, b);
    if b.len() > 0 && !is_ws(b[0]) {
        assert(trim_start(b) == b);
    }
    if b.len() > 0 && b[0] == '<' {
        assert(!is_ws(b[0]));
        assert(trim_start(b) == b);
    }
}

/// How the markup `c + r` lays out when it starts with the complete tag `c`:
/// the tag on its own line at the depth `tag_depths` gives, then `r`.
proof fn lemma_lines_tag_first(c: Seq<char>, r: Seq<char>, d: nat)
    requires
        c.len() > 0,
        c[0] == '<',
        tag_end(c) == Some(c.len() as int),
    ensures
        xml_lines(c + r, d) == indent(tag_depths(c, d).0) + c + seq!['\n'] + xml_lines(
            r,
            tag_depths(c, d).1,
        ),
{
    let s = c + r;
    assert(s[0] == '<');
    lemma_first_index(s, '<', 0);
    assert(s.take(c.len() as int) == c);
    assert(c.take(c.len() as int) == c);
    lemma_tag_end_same_prefix(c, s, 0, None, c.len() as int);
    assert(s.skip(c.len() as int) == r);
}

/// A declaration (`<?...>`), a comment, DOCTYPE or CDATA section (`<!...>`)
/// or a self-closing tag (`.../>`) is written at the current depth and
/// leaves the depth as it was for what follows.
pub proof fn law_xml_flat_tag_keeps_depth(c: Seq<char>, r: Seq<char>, d: nat)
    requires
        c.len() > 1,
        c[0] == '<',
        c[1] != '/',
        tag_end(c) == Some(c.len() as int),
        c[1] == '!' || c[1] == '?' || ends_with(c, "/>"@),
    ensures
        xml_lines(c + r, d) == indent(d) + c + seq!['\n'] + xml_lines(r, d),
{
    reveal_strlit("</");
    reveal_strlit("<?");
    reveal_strlit("<!");
    assert(!starts_with(c, "</"@)) by {
        if starts_with(c, "</"@) {
            assert(c.take(2)[1] == c[1]);
        }
    };
    if c[1] == '!' {
        assert(c.take(2) =~= "<!"@);
    }
    if c[1] == '?' {
        assert(c.take(2) =~= "<?"@);
    }
    lemma_lines_tag_first(c, r, d);
}

/// An opening tag is written at the current depth, and what follows it is
/// one level deeper.
pub proof fn law_xml_open_tag_nests(c: Seq<char>, r: Seq<char>, d: nat)
    requires
        c.len() > 1,
        c[0] == '<',
        c[1] != '/' && c[1] != '!' && c[1] != '?',
        !ends_with(c, "/>"@),
        tag_end(c) == Some(c.len() as int),
    ensures
        xml_lines(c + r, d) == indent(d) + c + seq!['\n'] + xml_lines(r, d + 1),
{
    reveal_strlit("</");
    reveal_strlit("<?");
    reveal_strlit("<!");
    assert(!starts_with(c, "</"@) && !starts_with(c, "<?"@) && !starts_with(c, "<!"@)) by {
        assert(c.take(2)[1] == c[1]);
    };
    lemma_lines_tag_first(c, r, d);
}

/// A closing tag goes one level up (not below the top) and is written there;
/// what follows stays at that level.
pub proof fn law_xml_close_tag_unnests(c: Seq<char>, r: Seq<char>, d: nat)
    requires
        c.len() > 1,
        c[0] == '<',
        c[1] == '/',
        tag_end(c) == Some(c.len() as int),
    ensures
        xml_lines(c + r, d) == ({
            let up: nat = if d == 0 { 0 } else { (d - 1) as nat };
            indent(up) + c + seq!['\n'] + xml_lines(r, up)
        }),
{
    reveal_strlit("</");
    assert(c.take(2) =~= "</"@);
    lemma_lines_tag_first(c, r, d);
}

} // verus!
