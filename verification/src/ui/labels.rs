//! The texts and tones the workspace shows: shortened labels, tab titles,
//! layout names, header counts and the tone of a status code.
use vstd::prelude::*;

use super::app::{find_saved, saved_position, Layout, TabView, WorkspaceTab};
use super::editor::{sent_headers, RequestEditor};
use crate::model::saved_request::{saved_view, SavedRequest, SavedView};
use crate::text::{chars_of, extend_chars, slice_chars, string_of, trim, trim_chars};

verus! {

broadcast use vstd::string::group_string_axioms;

/// `value` cut to `max_chars` characters followed by `...` when it is longer.
pub open spec fn truncated(value: Seq<char>, max_chars: nat) -> Seq<char> {
    if value.len() <= max_chars {
        value
    } else {
        value.take(max_chars as int) + "..."@
    }
}

pub fn truncate_label(value: &str, max_chars: usize) -> (r: String)
    ensures
        r@ == truncated(value@, max_chars as nat),
{
    let v = chars_of(value);
    if v.len() <= max_chars {
        value.to_owned()
    } else {
        let mut cut = slice_chars(&v, 0, max_chars);
        let dots = chars_of("...");
        extend_chars(&mut cut, &dots);
        string_of(&cut)
    }
}

pub open spec fn layout_name(layout: Layout) -> Seq<char> {
    match layout {
        Layout::Horizontal => "Horizontal"@,
        Layout::Vertical => "Vertical"@,
    }
}

pub fn layout_label(layout: Layout) -> (r: &'static str)
    ensures
        r@ == layout_name(layout),
{
    match layout {
        Layout::Horizontal => "Horizontal",
        Layout::Vertical => "Vertical",
    }
}

/// How a status code is coloured.
#[derive(Clone, Copy, Debug, PartialEq, Eq, Structural)]
pub enum StatusTone {
    Success,
    Warning,
    Danger,
}

pub open spec fn tone_of(status: u16) -> StatusTone {
    if 200 <= status <= 299 {
        StatusTone::Success
    } else if 300 <= status <= 399 {
        StatusTone::Warning
    } else {
        StatusTone::Danger
    }
}

pub fn status_tone(status: u16) -> (r: StatusTone)
    ensures
        r == tone_of(status),
{
    if 200 <= status && status <= 299 {
        StatusTone::Success
    } else if 300 <= status && status <= 399 {
        StatusTone::Warning
    } else {
        StatusTone::Danger
    }
}

/// The number of header rows that a request would send.
pub fn enabled_header_count(editor: &RequestEditor) -> (r: usize)
    ensures
        r == sent_headers(editor@.headers).len(),
{
    let request = editor.to_request();
    assert(crate::model::http_header::headers_view(request.headers@).len() == request.headers@.len());
    request.headers.len()
}

/// The title of a tab before shortening: the name of the saved entry it has
/// open (`New Request` when that entry is gone), otherwise method and URL
/// (`New request` for a blank URL); a tab with a request under way is marked
/// with `* `.
pub open spec fn tab_title(saved: Seq<SavedView>, tab: TabView) -> Seq<char> {
    let label = match tab.open_id {
        Some(id) => {
            let j = saved_position(saved, id);
            if j < saved.len() {
                saved[j].name
            } else {
                "New Request"@
            }
        },
        None => {
            let url = trim(tab.editor.url);
            if url.len() == 0 {
                "New request"@
            } else {
                tab.editor.method.name() + seq![' '] + url
            }
        },
    };
    if tab.in_flight {
        "* "@ + label
    } else {
        label
    }
}

/// The title of a tab, shortened to 28 characters.
pub fn tab_label(saved: &Vec<SavedRequest>, tab: &WorkspaceTab) -> (r: String)
    ensures
        r@ == truncated(tab_title(saved_view(saved@), tab@), 28),
{
    let label: String = match &tab.open_id {
        Some(id) => {
            let j = find_saved(saved, id.as_str());
            if j < saved.len() {
                saved[j].name.clone()
            } else {
                "New Request".to_owned()
            }
        },
        None => {
            let raw = chars_of(tab.editor.url.as_str());
            let url = trim_chars(&raw);
            if url.len() == 0 {
                "New request".to_owned()
            } else {
                let mut text = chars_of(tab.editor.method.as_str());
                text.push(' ');
                extend_chars(&mut text, &url);
                string_of(&text)
            }
        },
    };
    let label = if tab.in_flight {
        let mut marked = "* ".to_owned();
        marked.append(label.as_str());
        marked
    } else {
        label
    };
    truncate_label(label.as_str(), 28)
}

/// A label no longer than the limit is kept as it is; a longer one keeps its
/// first `max_chars` characters and ends in `...`, so it has `max_chars + 3`
/// characters.
pub proof fn law_truncated_shape(value: Seq<char>, max_chars: nat)
    ensures
        value.len() <= max_chars ==> truncated(value, max_chars) == value,
        value.len() > max_chars ==> truncated(value, max_chars).len() == max_chars + 3,
        forall|i: int|
            0 <= i < max_chars && i < value.len() ==> #[trigger] truncated(value, max_chars)[i] == value[i],
        value.len() > max_chars ==> truncated(value, max_chars).skip(max_chars as int) == "..."@,
{
    reveal_strlit("...");
    if value.len() > max_chars {
        let t = truncated(value, max_chars);
        assert(t.skip(max_chars as int) =~= "..."@);
    }
}

/// A tab's title is marked with `* ` exactly while its request is under way,
/// and otherwise shows the method and trimmed URL of an unsaved tab.
pub proof fn law_tab_title_shape(saved: Seq<SavedView>, tab: TabView)
    ensures
        tab.in_flight ==> tab_title(saved, tab) == "* "@ + tab_title(saved, TabView { in_flight: false, ..tab }),
        tab.open_id is None && !tab.in_flight && trim(tab.editor.url).len() > 0 ==> tab_title(saved, tab)
            == tab.editor.method.name() + seq![' '] + trim(tab.editor.url),
{
}

/// Statuses 200 to 299 read as success, 300 to 399 as a warning, the rest
/// as danger.
pub proof fn law_status_tones(status: u16)
    ensures
        (tone_of(status) == StatusTone::Success) <==> (200 <= status && status < 300),
        (tone_of(status) == StatusTone::Warning) <==> (300 <= status && status < 400),
        (tone_of(status) == StatusTone::Danger) <==> (status < 200 || status >= 400),
{
}

} // verus!
