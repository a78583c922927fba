//! The workspace state and how each message changes it.
//!
//! `App::update` takes a message and returns the one outside action it calls
//! for (send a request, abort one, save or delete an entry of the store).  The
//! application performs the action; the outcome of a save or a delete comes
//! back through `apply_save` and `apply_delete`.  Each message that opens a
//! tab or saves a new entry uses the fresh id handed to `update`.
use vstd::prelude::*;

use super::editor::{
    editor_request, empty_editor, loaded_editor, rows_view, EditorView, HeaderRow, RequestEditor,
};
use crate::model::curl::{curl_command, error_text, parse};
use crate::model::http_method::HttpMethod;
use crate::model::request::{HttpRequest, HttpResponse, RequestView};
use crate::model::saved_request::{derived_name_of, saved_view, SavedRequest, SavedView};
use crate::storage::{remove_entry, without_id};
use crate::text::{is_blank, is_blank_str};

verus! {

broadcast use vstd::string::group_string_axioms;

// ---------------------------------------------------------------------------
// Tabs
// ---------------------------------------------------------------------------

/// A tab of the workspace: an editor, the saved entry it edits (if any), the
/// last response, and whether a request is under way.
pub struct WorkspaceTab {
    pub id: String,
    pub editor: RequestEditor,
    pub open_id: Option<String>,
    pub response: Option<HttpResponse>,
    pub in_flight: bool,
}

/// A tab as plain values.
pub struct TabView {
    pub id: Seq<char>,
    pub editor: EditorView,
    pub open_id: Option<Seq<char>>,
    pub response: Option<HttpResponse>,
    pub in_flight: bool,
}

impl View for WorkspaceTab {
    type V = TabView;

    open spec fn view(&self) -> TabView {
        TabView {
            id: self.id@,
            editor: self.editor@,
            open_id: match self.open_id {
                Some(o) => Some(o@),
                None => None,
            },
            response: self.response,
            in_flight: self.in_flight,
        }
    }
}

pub open spec fn tabs_view(t: Seq<WorkspaceTab>) -> Seq<TabView> {
    t.map_values(|x: WorkspaceTab| x@)
}

/// A new tab: empty editor, nothing open, no response.
pub open spec fn new_tab(id: Seq<char>) -> TabView {
    TabView { id, editor: empty_editor(), open_id: None, response: None, in_flight: false }
}

/// A tab the user has not touched: nothing open, no response, nothing under
/// way, blank URL and body, and only headers with blank names.
pub open spec fn pristine(t: TabView) -> bool {
    &&& t.open_id is None
    &&& t.response is None
    &&& !t.in_flight
    &&& is_blank(t.editor.url)
    &&& is_blank(t.editor.body)
    &&& forall|i: int| 0 <= i < t.editor.headers.len() ==> is_blank(#[trigger] t.editor.headers[i].1.0)
}

impl WorkspaceTab {
    pub fn new(id: String) -> (r: WorkspaceTab)
        ensures
            r@ == new_tab(id@),
    {
        WorkspaceTab { id, editor: RequestEditor::empty(), open_id: None, response: None, in_flight: false }
    }

    pub fn is_pristine(&self) -> (r: bool)
        ensures
            r == pristine(self@),
    {
        if self.open_id.is_some() || self.response.is_some() || self.in_flight {
            return false;
        }
        if !is_blank_str(self.editor.url.as_str()) || !is_blank_str(self.editor.body.as_str()) {
            return false;
        }
        let mut i: usize = 0;
        while i < self.editor.headers.len()
            invariant
                i <= self.editor.headers@.len(),
                forall|j: int|
                    0 <= j < i ==> is_blank(#[trigger] rows_view(self.editor.headers@)[j].1.0),
            decreases self.editor.headers@.len() - i,
        {
            if !is_blank_str(self.editor.headers[i].header.name.as_str()) {
                assert(rows_view(self.editor.headers@)[i as int].1.0 == self.editor.headers@[i as int].header.name@);
                assert(!is_blank(self@.editor.headers[i as int].1.0));
                return false;
            }
            i += 1;
        }
        true
    }
}

// ---------------------------------------------------------------------------
// The rest of the state
// ---------------------------------------------------------------------------

/// How the editor and the response are arranged.
#[derive(Clone, Copy, Debug, PartialEq, Eq, Structural)]
pub enum Layout {
    Vertical,
    Horizontal,
}

impl Default for Layout {
    fn default() -> (r: Layout)
        ensures
            r == Layout::Vertical,
    {
        Layout::Vertical
    }
}

/// A message shown in the toolbar.
#[derive(Clone, Debug)]
pub enum Notice {
    Info(String),
    Success(String),
    Error(String),
}

pub enum NoticeView {
    Info(Seq<char>),
    Success(Seq<char>),
    Error(Seq<char>),
}

impl View for Notice {
    type V = NoticeView;

    open spec fn view(&self) -> NoticeView {
        match self {
            Notice::Info(m) => NoticeView::Info(m@),
            Notice::Success(m) => NoticeView::Success(m@),
            Notice::Error(m) => NoticeView::Error(m@),
        }
    }
}

pub open spec fn notice_text(n: NoticeView) -> Seq<char> {
    match n {
        NoticeView::Info(m) => m,
        NoticeView::Success(m) => m,
        NoticeView::Error(m) => m,
    }
}

impl Notice {
    pub fn text(&self) -> (r: &str)
        ensures
            r@ == notice_text(self@),
    {
        match self {
            Notice::Info(m) => m.as_str(),
            Notice::Success(m) => m.as_str(),
            Notice::Error(m) => m.as_str(),
        }
    }
}

/// The import panel: the command being typed, or the offer to save what was
/// imported into the tab `tab_id`.
#[derive(Clone, Debug)]
pub enum ImportState {
    Input { content: String },
    ConfirmSave { tab_id: String },
}

pub enum ImportView {
    Input(Seq<char>),
    ConfirmSave(Seq<char>),
}

impl View for ImportState {
    type V = ImportView;

    open spec fn view(&self) -> ImportView {
        match self {
            ImportState::Input { content } => ImportView::Input(content@),
            ImportState::ConfirmSave { tab_id } => ImportView::ConfirmSave(tab_id@),
        }
    }
}

pub open spec fn opt_import_view(i: Option<ImportState>) -> Option<ImportView> {
    match i {
        Some(s) => Some(s@),
        None => None,
    }
}

pub open spec fn opt_notice_view(n: Option<Notice>) -> Option<NoticeView> {
    match n {
        Some(s) => Some(s@),
        None => None,
    }
}

/// The whole workspace.
pub struct App {
    tabs: Vec<WorkspaceTab>,
    active_tab: usize,
    saved: Vec<SavedRequest>,
    sidebar_open: bool,
    layout: Layout,
    pretty_print: bool,
    import: Option<ImportState>,
    notice: Option<Notice>,
}

/// The workspace as plain values.
pub struct AppView {
    pub tabs: Seq<TabView>,
    pub active: int,
    pub saved: Seq<SavedView>,
    pub sidebar_open: bool,
    pub layout: Layout,
    pub pretty_print: bool,
    pub import: Option<ImportView>,
    pub notice: Option<NoticeView>,
}

impl View for App {
    type V = AppView;

    closed spec fn view(&self) -> AppView {
        AppView {
            tabs: tabs_view(self.tabs@),
            active: self.active_tab as int,
            saved: saved_view(self.saved@),
            sidebar_open: self.sidebar_open,
            layout: self.layout,
            pretty_print: self.pretty_print,
            import: opt_import_view(self.import),
            notice: opt_notice_view(self.notice),
        }
    }
}

/// There is always a tab, and the active one is one of them.
pub open spec fn wf(a: AppView) -> bool {
    a.tabs.len() > 0 && 0 <= a.active < a.tabs.len()
}

// ---------------------------------------------------------------------------
// Messages and actions
// ---------------------------------------------------------------------------

/// What the user (or a finished request) asks for.  The body and the import
/// command come as their whole new text.
#[derive(Debug)]
pub enum Message {
    BodyEdited(String),
    CancelRequest,
    DeleteRequested(String),
    HeaderAdded,
    HeaderNameEdited(usize, String),
    HeaderRemoved(usize),
    HeaderToggled(usize, bool),
    HeaderValueEdited(usize, String),
    ImportToggled,
    ImportEdited(String),
    ImportConfirmed,
    ImportSaveAccepted,
    ImportSaveDeclined,
    LayoutToggled,
    MethodSelected(HttpMethod),
    NewRequested,
    OpenRequested(String),
    PrettyPrintToggled,
    ResponseReady(String, Result<HttpResponse, String>),
    Send,
    SidebarToggled,
    RequestRenameStarted,
    RequestNameChanged(String),
    RequestRenameCommitted,
    SaveRequested,
    TabAddRequested,
    TabClosed(String),
    TabSelected(String),
    UrlChanged(String),
}

/// A save to perform: the entry, whether it is new, and the tab it came from.
pub struct SavePlan {
    pub tab_index: usize,
    pub entry: SavedRequest,
    pub is_new: bool,
}

/// The outside action an update calls for.
pub enum Effect {
    Nothing,
    /// Send `request` for the tab `tab_id`.
    Execute { tab_id: String, request: HttpRequest },
    /// Abort the request under way for the tab `tab_id`.
    Abort { tab_id: String },
    /// Write an entry to the store, then report with `apply_save`.
    Save(SavePlan),
    /// Delete the entry `id` from the store, then report with `apply_delete`.
    Delete { id: String },
}

pub enum EffectView {
    Nothing,
    Execute(Seq<char>, RequestView),
    Abort(Seq<char>),
    Save(int, SavedView, bool),
    Delete(Seq<char>),
}

impl View for Effect {
    type V = EffectView;

    open spec fn view(&self) -> EffectView {
        match self {
            Effect::Nothing => EffectView::Nothing,
            Effect::Execute { tab_id, request } => EffectView::Execute(tab_id@, request@),
            Effect::Abort { tab_id } => EffectView::Abort(tab_id@),
            Effect::Save(p) => EffectView::Save(p.tab_index as int, p.entry@, p.is_new),
            Effect::Delete { id } => EffectView::Delete(id@),
        }
    }
}

// ---------------------------------------------------------------------------
// What each message does
// ---------------------------------------------------------------------------

/// The first position in `s` where `p` holds (`s.len()` when none).
pub open spec fn first_where<A>(s: Seq<A>, p: spec_fn(A) -> bool) -> int
    decreases s.len(),
{
    if s.len() == 0 {
        0
    } else if p(s[0]) {
        0
    } else {
        1 + first_where(s.drop_first(), p)
    }
}

pub proof fn lemma_first_where<A>(s: Seq<A>, p: spec_fn(A) -> bool, i: int)
    requires
        0 <= i <= s.len(),
        forall|j: int| 0 <= j < i ==> !p(#[trigger] s[j]),
        i == s.len() || p(s[i]),
    ensures
        first_where(s, p) == i,
    decreases i,
{
    if i > 0 {
        assert forall|j: int| 0 <= j < i - 1 implies !p(#[trigger] s.drop_first()[j]) by {
            assert(s.drop_first()[j] == s[j + 1]);
        }
        lemma_first_where(s.drop_first(), p, i - 1);
    }
}

pub proof fn lemma_first_where_bounds<A>(s: Seq<A>, p: spec_fn(A) -> bool)
    ensures
        0 <= first_where(s, p) <= s.len(),
        first_where(s, p) < s.len() ==> p(s[first_where(s, p)]),
    decreases s.len(),
{
    if s.len() > 0 && !p(s[0]) {
        lemma_first_where_bounds(s.drop_first(), p);
    }
}

/// The first tab with the id `id`.
pub open spec fn tab_position(tabs: Seq<TabView>, id: Seq<char>) -> int {
    first_where(tabs, |t: TabView| t.id == id)
}

/// The first tab that has the saved entry `id` open.
pub open spec fn open_position(tabs: Seq<TabView>, id: Seq<char>) -> int {
    first_where(tabs, |t: TabView| t.open_id == Some(id))
}

/// The first saved entry with the id `id`.
pub open spec fn saved_position(saved: Seq<SavedView>, id: Seq<char>) -> int {
    first_where(saved, |e: SavedView| e.id == id)
}

pub open spec fn with_tab(a: AppView, i: int, t: TabView) -> AppView {
    AppView { tabs: a.tabs.update(i, t), ..a }
}

pub open spec fn active_tab_of(a: AppView) -> TabView {
    a.tabs[a.active]
}

/// The active tab with its editor replaced.
pub open spec fn with_editor(a: AppView, e: EditorView) -> AppView {
    with_tab(a, a.active, TabView { editor: e, ..active_tab_of(a) })
}

pub open spec fn with_notice(a: AppView, n: Option<NoticeView>) -> AppView {
    AppView { notice: n, ..a }
}

/// Header rows with the row `i` changed by `f`; an index past the end
/// changes nothing.
pub open spec fn edit_row(
    rows: Seq<(bool, (Seq<char>, Seq<char>))>,
    i: int,
    r: (bool, (Seq<char>, Seq<char>)),
) -> Seq<(bool, (Seq<char>, Seq<char>))> {
    if 0 <= i < rows.len() {
        rows.update(i, r)
    } else {
        rows
    }
}

/// A new tab opened on the end, made active.
pub open spec fn push_tab(a: AppView, t: TabView) -> AppView {
    AppView { tabs: a.tabs.push(t), active: a.tabs.len() as int, ..a }
}

pub open spec fn send_step(a: AppView) -> (AppView, EffectView) {
    let t = active_tab_of(a);
    if t.in_flight {
        (a, EffectView::Nothing)
    } else {
        let req = editor_request(t.editor);
        if req.url.len() == 0 {
            (with_notice(a, Some(NoticeView::Error("Enter a URL before sending"@))), EffectView::Nothing)
        } else {
            (
                with_notice(
                    with_tab(a, a.active, TabView { response: None, in_flight: true, ..t }),
                    None,
                ),
                EffectView::Execute(t.id, req),
            )
        }
    }
}

pub open spec fn cancel_step(a: AppView) -> (AppView, EffectView) {
    let t = active_tab_of(a);
    (
        with_notice(
            with_tab(a, a.active, TabView { in_flight: false, ..t }),
            Some(NoticeView::Info("Request cancelled"@)),
        ),
        if t.in_flight {
            EffectView::Abort(t.id)
        } else {
            EffectView::Nothing
        },
    )
}

pub open spec fn response_step(a: AppView, tab_id: Seq<char>, result: Result<HttpResponse, String>) -> AppView {
    let i = tab_position(a.tabs, tab_id);
    if i < a.tabs.len() {
        let t = a.tabs[i];
        match result {
            Ok(resp) => with_tab(a, i, TabView { in_flight: false, response: Some(resp), ..t }),
            Err(e) => with_notice(
                with_tab(a, i, TabView { in_flight: false, ..t }),
                Some(NoticeView::Error(e@)),
            ),
        }
    } else {
        a
    }
}

pub open spec fn new_requested_step(a: AppView, fresh: Seq<char>) -> AppView {
    with_notice(
        if !pristine(active_tab_of(a)) {
            push_tab(a, new_tab(fresh))
        } else {
            a
        },
        None,
    )
}

pub open spec fn close_step(a: AppView, id: Seq<char>, fresh: Seq<char>) -> (AppView, EffectView) {
    let i = tab_position(a.tabs, id);
    if i >= a.tabs.len() {
        (a, EffectView::Nothing)
    } else {
        let t = a.tabs[i];
        let rest = a.tabs.remove(i);
        let eff = if t.in_flight {
            EffectView::Abort(t.id)
        } else {
            EffectView::Nothing
        };
        if rest.len() == 0 {
            (AppView { tabs: seq![new_tab(fresh)], active: 0, ..a }, eff)
        } else {
            let shifted = if i < a.active {
                a.active - 1
            } else {
                a.active
            };
            let active = if shifted < rest.len() - 1 {
                shifted
            } else {
                rest.len() - 1
            };
            (AppView { tabs: rest, active, ..a }, eff)
        }
    }
}

/// Saving the tab `tab_id`: an entry that the tab has open is updated in
/// place (and written); otherwise a new entry with the fresh id is written,
/// and only added once the store took it.
pub open spec fn save_step(a: AppView, tab_id: Seq<char>, fresh: Seq<char>) -> (AppView, EffectView) {
    let i = tab_position(a.tabs, tab_id);
    if i >= a.tabs.len() {
        (a, EffectView::Nothing)
    } else {
        let req = editor_request(a.tabs[i].editor);
        if req.url.len() == 0 {
            (with_notice(a, Some(NoticeView::Error("Enter a URL before saving"@))), EffectView::Nothing)
        } else {
            let j = match a.tabs[i].open_id {
                Some(id) => saved_position(a.saved, id),
                None => a.saved.len() as int,
            };
            if j < a.saved.len() {
                let entry = SavedView { request: req, name: derived_name_of(req), ..a.saved[j] };
                (AppView { saved: a.saved.update(j, entry), ..a }, EffectView::Save(i, entry, false))
            } else {
                let entry = SavedView { id: fresh, name: derived_name_of(req), request: req };
                (a, EffectView::Save(i, entry, true))
            }
        }
    }
}

pub open spec fn open_step(a: AppView, id: Seq<char>, fresh: Seq<char>) -> AppView {
    let j = saved_position(a.saved, id);
    if j >= a.saved.len() {
        a
    } else {
        let k = open_position(a.tabs, id);
        if k < a.tabs.len() {
            AppView { active: k, ..a }
        } else {
            let e = a.saved[j];
            with_notice(
                push_tab(
                    a,
                    TabView { editor: loaded_editor(e.request), open_id: Some(e.id), ..new_tab(fresh) },
                ),
                None,
            )
        }
    }
}

pub open spec fn import_step(a: AppView, fresh: Seq<char>) -> AppView {
    match a.import {
        Some(ImportView::Input(content)) => match curl_command(content) {
            Ok(req) => AppView {
                import: Some(ImportView::ConfirmSave(fresh)),
                notice: Some(NoticeView::Success("cURL command imported"@)),
                ..push_tab(a, TabView { editor: loaded_editor(req), ..new_tab(fresh) })
            },
            Err(e) => AppView {
                import: Some(ImportView::Input(content)),
                notice: Some(NoticeView::Error(error_text(e))),
                ..a
            },
        },
        _ => AppView { import: None, ..a },
    }
}

/// What a message does to the workspace, and the action it calls for.
pub open spec fn step(a: AppView, m: Message, fresh: Seq<char>) -> (AppView, EffectView) {
    let e = active_tab_of(a).editor;
    match m {
        Message::MethodSelected(meth) => (with_editor(a, EditorView { method: meth, ..e }), EffectView::Nothing),
        Message::UrlChanged(url) => (with_editor(a, EditorView { url: url@, ..e }), EffectView::Nothing),
        Message::BodyEdited(body) => (with_editor(a, EditorView { body: body@, ..e }), EffectView::Nothing),
        Message::HeaderNameEdited(i, name) => (
            with_editor(
                a,
                EditorView {
                    headers: edit_row(e.headers, i as int, (e.headers[i as int].0, (name@, e.headers[i as int].1.1))),
                    ..e
                },
            ),
            EffectView::Nothing,
        ),
        Message::HeaderValueEdited(i, value) => (
            with_editor(
                a,
                EditorView {
                    headers: edit_row(e.headers, i as int, (e.headers[i as int].0, (e.headers[i as int].1.0, value@))),
                    ..e
                },
            ),
            EffectView::Nothing,
        ),
        Message::HeaderToggled(i, enabled) => (
            with_editor(
                a,
                EditorView { headers: edit_row(e.headers, i as int, (enabled, e.headers[i as int].1)), ..e },
            ),
            EffectView::Nothing,
        ),
        Message::HeaderRemoved(i) => (
            with_editor(
                a,
                if i < e.headers.len() {
                    EditorView { headers: e.headers.remove(i as int), ..e }
                } else {
                    e
                },
            ),
            EffectView::Nothing,
        ),
        Message::HeaderAdded => (
            with_editor(
                a,
                EditorView { headers: e.headers.push((true, (Seq::empty(), Seq::empty()))), ..e },
            ),
            EffectView::Nothing,
        ),
        Message::Send => send_step(a),
        Message::CancelRequest => cancel_step(a),
        Message::ResponseReady(tab_id, result) => (response_step(a, tab_id@, result), EffectView::Nothing),
        Message::SidebarToggled => (AppView { sidebar_open: !a.sidebar_open, ..a }, EffectView::Nothing),
        Message::LayoutToggled => (
            AppView {
                layout: match a.layout {
                    Layout::Horizontal => Layout::Vertical,
                    Layout::Vertical => Layout::Horizontal,
                },
                ..a
            },
            EffectView::Nothing,
        ),
        Message::PrettyPrintToggled => (AppView { pretty_print: !a.pretty_print, ..a }, EffectView::Nothing),
        Message::NewRequested => (new_requested_step(a, fresh), EffectView::Nothing),
        Message::SaveRequested => save_step(a, active_tab_of(a).id, fresh),
        Message::OpenRequested(id) => (open_step(a, id@, fresh), EffectView::Nothing),
        Message::DeleteRequested(id) => (a, EffectView::Delete(id@)),
        Message::TabSelected(id) => {
            let i = tab_position(a.tabs, id@);
            (if i < a.tabs.len() { AppView { active: i, ..a } } else { a }, EffectView::Nothing)
        },
        Message::TabClosed(id) => close_step(a, id@, fresh),
        Message::TabAddRequested => (with_notice(push_tab(a, new_tab(fresh)), None), EffectView::Nothing),
        Message::ImportToggled => (
            AppView {
                import: if a.import is Some {
                    None
                } else {
                    Some(ImportView::Input(Seq::empty()))
                },
                ..a
            },
            EffectView::Nothing,
        ),
        Message::ImportEdited(text) => (
            if a.import matches Some(ImportView::Input(_)) {
                AppView { import: Some(ImportView::Input(text@)), ..a }
            } else {
                a
            },
            EffectView::Nothing,
        ),
        Message::ImportConfirmed => (import_step(a, fresh), EffectView::Nothing),
        Message::ImportSaveAccepted => match a.import {
            Some(ImportView::ConfirmSave(tab_id)) => save_step(AppView { import: None, ..a }, tab_id, fresh),
            _ => (AppView { import: None, ..a }, EffectView::Nothing),
        },
        Message::ImportSaveDeclined => (AppView { import: None, ..a }, EffectView::Nothing),
        Message::RequestRenameStarted => (a, EffectView::Nothing),
        Message::RequestNameChanged(_) => (a, EffectView::Nothing),
        Message::RequestRenameCommitted => (a, EffectView::Nothing),
    }
}

/// The workspace after the store answered a save: `outcome` is `None` when
/// the entry was written, or the error's text.
pub open spec fn save_outcome(a: AppView, tab_index: int, entry: SavedView, is_new: bool, outcome: Option<Seq<char>>) -> AppView {
    match outcome {
        Some(err) => with_notice(a, Some(NoticeView::Error(err))),
        None => if is_new {
            AppView {
                tabs: a.tabs.update(tab_index, TabView { open_id: Some(entry.id), ..a.tabs[tab_index] }),
                saved: a.saved.push(entry),
                notice: Some(NoticeView::Success("Request saved"@)),
                ..a
            }
        } else {
            with_notice(a, Some(NoticeView::Success("Updated '"@ + entry.name + "'"@)))
        },
    }
}

/// A tab with the entry `id` closed in its editor.
pub open spec fn forget_open(t: TabView, id: Seq<char>) -> TabView {
    if t.open_id == Some(id) {
        TabView { open_id: None, ..t }
    } else {
        t
    }
}

/// The workspace after the store answered a delete.
pub open spec fn delete_outcome(a: AppView, id: Seq<char>, outcome: Option<Seq<char>>) -> AppView {
    match outcome {
        Some(err) => with_notice(a, Some(NoticeView::Error(err))),
        None => AppView {
            saved: without_id(a.saved, id),
            tabs: a.tabs.map_values(|t: TabView| forget_open(t, id)),
            notice: Some(NoticeView::Success("Request deleted"@)),
            ..a
        },
    }
}

/// The workspace as it starts, given what the store held (or why it could
/// not be read).
pub open spec fn initial_app(loaded: Result<Seq<SavedView>, Seq<char>>, first_tab: Seq<char>) -> AppView {
    AppView {
        tabs: seq![new_tab(first_tab)],
        active: 0,
        saved: match loaded {
            Ok(s) => s,
            Err(_) => Seq::empty(),
        },
        sidebar_open: true,
        layout: Layout::Vertical,
        pretty_print: true,
        import: None,
        notice: match loaded {
            Ok(_) => None,
            Err(e) => Some(NoticeView::Error("Failed to load saved requests: "@ + e)),
        },
    }
}

} // verus!

verus! {

// ---------------------------------------------------------------------------
// Implementation
// ---------------------------------------------------------------------------

proof fn lemma_replace_tab(s: Seq<WorkspaceTab>, i: int, x: WorkspaceTab)
    requires
        0 <= i < s.len(),
    ensures
        tabs_view(s.remove(i).insert(i, x)) == tabs_view(s).update(i, x@),
{
    assert(tabs_view(s.remove(i).insert(i, x)) =~= tabs_view(s).update(i, x@));
}

proof fn lemma_replace_row(s: Seq<HeaderRow>, i: int, x: HeaderRow)
    requires
        0 <= i < s.len(),
    ensures
        rows_view(s.remove(i).insert(i, x)) == rows_view(s).update(i, super::editor::row_view(x)),
{
    assert(rows_view(s.remove(i).insert(i, x)) =~= rows_view(s).update(i, super::editor::row_view(x)));
}

proof fn lemma_push_tab(s: Seq<WorkspaceTab>, x: WorkspaceTab)
    ensures
        tabs_view(s.push(x)) == tabs_view(s).push(x@),
{
    assert(tabs_view(s.push(x)) =~= tabs_view(s).push(x@));
}

fn find_tab(tabs: &Vec<WorkspaceTab>, id: &str) -> (r: usize)
    ensures
        r == tab_position(tabs_view(tabs@), id@),
        r <= tabs@.len(),
{
    let ghost s = tabs_view(tabs@);
    let ghost p = |t: TabView| t.id == id@;
    let mut i: usize = 0;
    while i < tabs.len()
        invariant
            i <= tabs@.len(),
            s == tabs_view(tabs@),
            p == (|t: TabView| t.id == id@),
            forall|j: int| 0 <= j < i ==> !p(#[trigger] s[j]),
        decreases tabs@.len() - i,
    {
        if crate::text::str_eq(tabs[i].id.as_str(), id) {
            proof {
                lemma_first_where(s, p, i as int);
            }
            return i;
        }
        i += 1;
    }
    proof {
        lemma_first_where(s, p, i as int);
    }
    i
}

fn find_open(tabs: &Vec<WorkspaceTab>, id: &str) -> (r: usize)
    ensures
        r == open_position(tabs_view(tabs@), id@),
        r <= tabs@.len(),
{
    let ghost s = tabs_view(tabs@);
    let ghost p = |t: TabView| t.open_id == Some(id@);
    let mut i: usize = 0;
    while i < tabs.len()
        invariant
            i <= tabs@.len(),
            s == tabs_view(tabs@),
            p == (|t: TabView| t.open_id == Some(id@)),
            forall|j: int| 0 <= j < i ==> !p(#[trigger] s[j]),
        decreases tabs@.len() - i,
    {
        let hit = match &tabs[i].open_id {
            Some(o) => crate::text::str_eq(o.as_str(), id),
            None => false,
        };
        if hit {
            proof {
                lemma_first_where(s, p, i as int);
            }
            return i;
        }
        i += 1;
    }
    proof {
        lemma_first_where(s, p, i as int);
    }
    i
}

pub(crate) fn find_saved(saved: &Vec<SavedRequest>, id: &str) -> (r: usize)
    ensures
        r == saved_position(saved_view(saved@), id@),
        r <= saved@.len(),
{
    let ghost s = saved_view(saved@);
    let ghost p = |e: SavedView| e.id == id@;
    let mut i: usize = 0;
    while i < saved.len()
        invariant
            i <= saved@.len(),
            s == saved_view(saved@),
            p == (|e: SavedView| e.id == id@),
            forall|j: int| 0 <= j < i ==> !p(#[trigger] s[j]),
        decreases saved@.len() - i,
    {
        if crate::text::str_eq(saved[i].id.as_str(), id) {
            proof {
                lemma_first_where(s, p, i as int);
            }
            return i;
        }
        i += 1;
    }
    proof {
        lemma_first_where(s, p, i as int);
    }
    i
}

impl App {
    /// The workspace as it starts: one new tab, the loaded entries (or an
    /// error notice when the store could not be read).
    pub fn new(loaded: Result<Vec<SavedRequest>, String>, first_tab_id: String) -> (r: App)
        ensures
            wf(r@),
            ids_distinct(r@.tabs),
            r@ == initial_app(
                match loaded {
                    Ok(v) => Ok(saved_view(v@)),
                    Err(e) => Err(e@),
                },
                first_tab_id@,
            ),
    {
        let mut tabs: Vec<WorkspaceTab> = Vec::new();
        tabs.push(WorkspaceTab::new(first_tab_id));
        let (saved, notice) = match loaded {
            Ok(entries) => (entries, None),
            Err(e) => {
                let mut msg = "Failed to load saved requests: ".to_owned();
                msg.append(e.as_str());
                (Vec::new(), Some(Notice::Error(msg)))
            },
        };
        let app = App {
            tabs,
            active_tab: 0,
            saved,
            sidebar_open: true,
            layout: Layout::Vertical,
            pretty_print: true,
            import: None,
            notice,
        };
        assert(app@.tabs =~= seq![new_tab(first_tab_id@)]);
        assert(app@.saved =~= initial_app(
            match loaded {
                Ok(v) => Ok(saved_view(v@)),
                Err(e) => Err(e@),
            },
            first_tab_id@,
        ).saved);
        app
    }

    pub fn tabs(&self) -> (r: &Vec<WorkspaceTab>)
        ensures
            tabs_view(r@) == self@.tabs,
    {
        &self.tabs
    }

    pub fn active_index(&self) -> (r: usize)
        ensures
            r == self@.active,
    {
        self.active_tab
    }

    pub fn active_tab(&self) -> (r: &WorkspaceTab)
        requires
            wf(self@),
        ensures
            r@ == active_tab_of(self@),
    {
        &self.tabs[self.active_tab]
    }

    pub fn saved(&self) -> (r: &Vec<SavedRequest>)
        ensures
            saved_view(r@) == self@.saved,
    {
        &self.saved
    }

    pub fn sidebar_open(&self) -> (r: bool)
        ensures
            r == self@.sidebar_open,
    {
        self.sidebar_open
    }

    pub fn layout(&self) -> (r: Layout)
        ensures
            r == self@.layout,
    {
        self.layout
    }

    pub fn pretty_print(&self) -> (r: bool)
        ensures
            r == self@.pretty_print,
    {
        self.pretty_print
    }

    pub fn import(&self) -> (r: &Option<ImportState>)
        ensures
            opt_import_view(*r) == self@.import,
    {
        &self.import
    }

    pub fn notice(&self) -> (r: &Option<Notice>)
        ensures
            opt_notice_view(*r) == self@.notice,
    {
        &self.notice
    }

    /// Applies `message`; `fresh_id` is the id for a tab or entry it creates,
    /// and names no tab already open.
    pub fn update(&mut self, message: Message, fresh_id: String) -> (effect: Effect)
        requires
            wf(old(self)@),
            ids_distinct(old(self)@.tabs),
            fresh_tab_id(old(self)@, fresh_id@),
        ensures
            wf(final(self)@),
            ids_distinct(final(self)@.tabs),
            (final(self)@, effect@) == step(old(self)@, message, fresh_id@),
    {
        proof {
            law_step_keeps_ids_distinct(self@, message, fresh_id@);
        }
        match message {
            Message::MethodSelected(_) | Message::UrlChanged(_) | Message::BodyEdited(_)
            | Message::HeaderNameEdited(_, _) | Message::HeaderValueEdited(_, _)
            | Message::HeaderToggled(_, _) | Message::HeaderRemoved(_) | Message::HeaderAdded => {
                self.edit_active(message);
                Effect::Nothing
            },
            Message::Send => self.send(),
            Message::CancelRequest => self.cancel_request(),
            Message::ResponseReady(tab_id, result) => {
                self.response_ready(tab_id.as_str(), result);
                Effect::Nothing
            },
            Message::SidebarToggled => {
                self.sidebar_open = !self.sidebar_open;
                Effect::Nothing
            },
            Message::LayoutToggled => {
                self.layout = match self.layout {
                    Layout::Horizontal => Layout::Vertical,
                    Layout::Vertical => Layout::Horizontal,
                };
                Effect::Nothing
            },
            Message::PrettyPrintToggled => {
                self.pretty_print = !self.pretty_print;
                Effect::Nothing
            },
            Message::NewRequested => {
                self.new_tab_request(fresh_id);
                Effect::Nothing
            },
            Message::SaveRequested => {
                let tab_id = self.tabs[self.active_tab].id.clone();
                self.save_tab(tab_id.as_str(), fresh_id)
            },
            Message::OpenRequested(id) => {
                self.open_saved(id.as_str(), fresh_id);
                Effect::Nothing
            },
            Message::DeleteRequested(id) => Effect::Delete { id },
            Message::TabSelected(id) => {
                let i = find_tab(&self.tabs, id.as_str());
                if i < self.tabs.len() {
                    self.active_tab = i;
                }
                Effect::Nothing
            },
            Message::TabClosed(id) => self.close_tab(id.as_str(), fresh_id),
            Message::TabAddRequested => {
                let ghost before = self.tabs@;
                self.tabs.push(WorkspaceTab::new(fresh_id));
                proof {
                    lemma_push_tab(before, self.tabs@.last());
                }
                self.active_tab = self.tabs.len() - 1;
                self.notice = None;
                Effect::Nothing
            },
            Message::ImportToggled => {
                self.import = if self.import.is_some() {
                    None
                } else {
                    Some(ImportState::Input { content: String::new() })
                };
                Effect::Nothing
            },
            Message::ImportEdited(text) => {
                let editing = match &self.import {
                    Some(ImportState::Input { .. }) => true,
                    _ => false,
                };
                if editing {
                    self.import = Some(ImportState::Input { content: text });
                }
                Effect::Nothing
            },
            Message::ImportConfirmed => {
                self.run_import(fresh_id);
                Effect::Nothing
            },
            Message::ImportSaveAccepted => match self.import.take() {
                Some(ImportState::ConfirmSave { tab_id }) => self.save_tab(tab_id.as_str(), fresh_id),
                _ => Effect::Nothing,
            },
            Message::ImportSaveDeclined => {
                self.import = None;
                Effect::Nothing
            },
            Message::RequestRenameStarted | Message::RequestNameChanged(_)
            | Message::RequestRenameCommitted => Effect::Nothing,
        }
    }

    /// The editor messages: they change the active tab's editor.
    fn edit_active(&mut self, message: Message)
        requires
            wf(old(self)@),
            message is MethodSelected || message is UrlChanged || message is BodyEdited
                || message is HeaderNameEdited || message is HeaderValueEdited
                || message is HeaderToggled || message is HeaderRemoved || message is HeaderAdded,
        ensures
            wf(final(self)@),
            final(self)@ == step(old(self)@, message, Seq::empty()).0,
    {
        let i = self.active_tab;
        let ghost before = self.tabs@;
        let mut t = self.tabs.remove(i);
        let ghost e = t.editor@;
        match message {
            Message::MethodSelected(m) => {
                t.editor.method = m;
            },
            Message::UrlChanged(url) => {
                t.editor.url = url;
            },
            Message::BodyEdited(body) => {
                t.editor.body = body;
            },
            Message::HeaderNameEdited(k, name) => {
                if k < t.editor.headers.len() {
                    let ghost rows = t.editor.headers@;
                    let mut row = t.editor.headers.remove(k);
                    row.header.name = name;
                    t.editor.headers.insert(k, row);
                    proof {
                        lemma_replace_row(rows, k as int, row);
                    }
                }
            },
            Message::HeaderValueEdited(k, value) => {
                if k < t.editor.headers.len() {
                    let ghost rows = t.editor.headers@;
                    let mut row = t.editor.headers.remove(k);
                    row.header.value = value;
                    t.editor.headers.insert(k, row);
                    proof {
                        lemma_replace_row(rows, k as int, row);
                    }
                }
            },
            Message::HeaderToggled(k, enabled) => {
                if k < t.editor.headers.len() {
                    let ghost rows = t.editor.headers@;
                    let mut row = t.editor.headers.remove(k);
                    row.enabled = enabled;
                    t.editor.headers.insert(k, row);
                    proof {
                        lemma_replace_row(rows, k as int, row);
                    }
                }
            },
            Message::HeaderRemoved(k) => {
                t.editor.remove_header(k);
            },
            Message::HeaderAdded => {
                t.editor.add_header();
            },
            _ => {},
        }
        self.tabs.insert(i, t);
        proof {
            lemma_replace_tab(before, i as int, t);
        }
    }

    fn send(&mut self) -> (effect: Effect)
        requires
            wf(old(self)@),
        ensures
            wf(final(self)@),
            (final(self)@, effect@) == send_step(old(self)@),
    {
        let i = self.active_tab;
        if self.tabs[i].in_flight {
            return Effect::Nothing;
        }
        let request = self.tabs[i].editor.to_request();
        if request.url.as_str().is_empty() {
            self.notice = Some(Notice::Error("Enter a URL before sending".to_owned()));
            return Effect::Nothing;
        }
        let ghost before = self.tabs@;
        let mut t = self.tabs.remove(i);
        t.response = None;
        t.in_flight = true;
        let tab_id = t.id.clone();
        self.tabs.insert(i, t);
        proof {
            lemma_replace_tab(before, i as int, t);
        }
        self.notice = None;
        Effect::Execute { tab_id, request }
    }

    fn cancel_request(&mut self) -> (effect: Effect)
        requires
            wf(old(self)@),
        ensures
            wf(final(self)@),
            (final(self)@, effect@) == cancel_step(old(self)@),
    {
        let i = self.active_tab;
        let ghost before = self.tabs@;
        let mut t = self.tabs.remove(i);
        let was = t.in_flight;
        t.in_flight = false;
        let tab_id = t.id.clone();
        self.tabs.insert(i, t);
        proof {
            lemma_replace_tab(before, i as int, t);
        }
        self.notice = Some(Notice::Info("Request cancelled".to_owned()));
        if was {
            Effect::Abort { tab_id }
        } else {
            Effect::Nothing
        }
    }

    fn response_ready(&mut self, tab_id: &str, result: Result<HttpResponse, String>)
        requires
            wf(old(self)@),
        ensures
            wf(final(self)@),
            final(self)@ == response_step(old(self)@, tab_id@, result),
    {
        let i = find_tab(&self.tabs, tab_id);
        if i < self.tabs.len() {
            let ghost before = self.tabs@;
            let mut t = self.tabs.remove(i);
            t.in_flight = false;
            match result {
                Ok(resp) => {
                    t.response = Some(resp);
                },
                Err(e) => {
                    self.notice = Some(Notice::Error(e));
                },
            }
            self.tabs.insert(i, t);
            proof {
                lemma_replace_tab(before, i as int, t);
            }
        }
    }

    fn new_tab_request(&mut self, fresh_id: String)
        requires
            wf(old(self)@),
        ensures
            wf(final(self)@),
            final(self)@ == new_requested_step(old(self)@, fresh_id@),
    {
        if !self.tabs[self.active_tab].is_pristine() {
            let ghost before = self.tabs@;
            self.tabs.push(WorkspaceTab::new(fresh_id));
            proof {
                lemma_push_tab(before, self.tabs@.last());
            }
            self.active_tab = self.tabs.len() - 1;
        }
        self.notice = None;
    }

    fn close_tab(&mut self, id: &str, fresh_id: String) -> (effect: Effect)
        requires
            wf(old(self)@),
        ensures
            wf(final(self)@),
            (final(self)@, effect@) == close_step(old(self)@, id@, fresh_id@),
    {
        let i = find_tab(&self.tabs, id);
        if i >= self.tabs.len() {
            return Effect::Nothing;
        }
        let ghost before = self.tabs@;
        let t = self.tabs.remove(i);
        assert(tabs_view(self.tabs@) =~= tabs_view(before).remove(i as int));
        let effect = if t.in_flight {
            Effect::Abort { tab_id: t.id }
        } else {
            Effect::Nothing
        };
        if self.tabs.len() == 0 {
            self.tabs.push(WorkspaceTab::new(fresh_id));
            assert(tabs_view(self.tabs@) =~= seq![new_tab(fresh_id@)]);
            self.active_tab = 0;
            return effect;
        }
        if i < self.active_tab {
            self.active_tab = self.active_tab - 1;
        }
        if self.active_tab > self.tabs.len() - 1 {
            self.active_tab = self.tabs.len() - 1;
        }
        effect
    }

    fn save_tab(&mut self, tab_id: &str, fresh_id: String) -> (effect: Effect)
        requires
            wf(old(self)@),
        ensures
            wf(final(self)@),
            (final(self)@, effect@) == save_step(old(self)@, tab_id@, fresh_id@),
    {
        let i = find_tab(&self.tabs, tab_id);
        if i >= self.tabs.len() {
            return Effect::Nothing;
        }
        let request = self.tabs[i].editor.to_request();
        if request.url.as_str().is_empty() {
            self.notice = Some(Notice::Error("Enter a URL before saving".to_owned()));
            return Effect::Nothing;
        }
        let j = match &self.tabs[i].open_id {
            Some(id) => find_saved(&self.saved, id.as_str()),
            None => self.saved.len(),
        };
        if j < self.saved.len() {
            let ghost before = self.saved@;
            let mut e = self.saved.remove(j);
            e.request = request;
            e.refresh_name();
            let snapshot = e.copy();
            self.saved.insert(j, e);
            assert(saved_view(self.saved@) =~= saved_view(before).update(j as int, e@));
            return Effect::Save(SavePlan { tab_index: i, entry: snapshot, is_new: false });
        }
        let entry = SavedRequest::new(request, fresh_id);
        Effect::Save(SavePlan { tab_index: i, entry, is_new: true })
    }

    fn open_saved(&mut self, id: &str, fresh_id: String)
        requires
            wf(old(self)@),
        ensures
            wf(final(self)@),
            final(self)@ == open_step(old(self)@, id@, fresh_id@),
    {
        let j = find_saved(&self.saved, id);
        if j >= self.saved.len() {
            return;
        }
        let k = find_open(&self.tabs, id);
        if k < self.tabs.len() {
            self.active_tab = k;
            return;
        }
        let mut tab = WorkspaceTab::new(fresh_id);
        tab.editor = RequestEditor::load(&self.saved[j].request);
        tab.open_id = Some(self.saved[j].id.clone());
        let ghost before = self.tabs@;
        self.tabs.push(tab);
        proof {
            lemma_push_tab(before, tab);
        }
        self.active_tab = self.tabs.len() - 1;
        self.notice = None;
    }

    fn run_import(&mut self, fresh_id: String)
        requires
            wf(old(self)@),
        ensures
            wf(final(self)@),
            final(self)@ == import_step(old(self)@, fresh_id@),
    {
        match self.import.take() {
            Some(ImportState::Input { content }) => match parse(content.as_str()) {
                Ok(request) => {
                    let mut tab = WorkspaceTab::new(fresh_id.clone());
                    tab.editor = RequestEditor::load(&request);
                    let ghost before = self.tabs@;
                    self.tabs.push(tab);
                    proof {
                        lemma_push_tab(before, tab);
                    }
                    self.active_tab = self.tabs.len() - 1;
                    self.notice = Some(Notice::Success("cURL command imported".to_owned()));
                    self.import = Some(ImportState::ConfirmSave { tab_id: fresh_id });
                },
                Err(e) => {
                    self.notice = Some(Notice::Error(e.message()));
                    self.import = Some(ImportState::Input { content });
                },
            },
            _ => {},
        }
    }

    /// Takes in the store's answer to a save that `update` asked for.
    pub fn apply_save(&mut self, plan: SavePlan, outcome: Result<(), String>)
        requires
            wf(old(self)@),
            plan.tab_index < old(self)@.tabs.len(),
        ensures
            wf(final(self)@),
            ids_distinct(old(self)@.tabs) ==> ids_distinct(final(self)@.tabs),
            final(self)@ == save_outcome(
                old(self)@,
                plan.tab_index as int,
                plan.entry@,
                plan.is_new,
                match outcome {
                    Ok(()) => None,
                    Err(e) => Some(e@),
                },
            ),
    {
        proof {
            if ids_distinct(self@.tabs) {
                law_save_outcome_keeps_ids(
                    self@,
                    plan.tab_index as int,
                    plan.entry@,
                    plan.is_new,
                    match &outcome {
                        Ok(_) => None,
                        Err(e) => Some(e@),
                    },
                );
            }
        }
        match outcome {
            Err(e) => {
                self.notice = Some(Notice::Error(e));
            },
            Ok(()) => {
                if plan.is_new {
                    let i = plan.tab_index;
                    let ghost before = self.tabs@;
                    let mut t = self.tabs.remove(i);
                    t.open_id = Some(plan.entry.id.clone());
                    self.tabs.insert(i, t);
                    proof {
                        lemma_replace_tab(before, i as int, t);
                    }
                    let ghost saved_before = saved_view(self.saved@);
                    self.saved.push(plan.entry);
                    assert(saved_view(self.saved@) =~= saved_before.push(plan.entry@));
                    self.notice = Some(Notice::Success("Request saved".to_owned()));
                } else {
                    let mut msg = "Updated '".to_owned();
                    msg.append(plan.entry.name.as_str());
                    msg.append("'");
                    self.notice = Some(Notice::Success(msg));
                }
            },
        }
    }

    /// Takes in the store's answer to a delete that `update` asked for.
    pub fn apply_delete(&mut self, id: &str, outcome: Result<(), String>)
        requires
            wf(old(self)@),
        ensures
            wf(final(self)@),
            ids_distinct(old(self)@.tabs) ==> ids_distinct(final(self)@.tabs),
            final(self)@ == delete_outcome(
                old(self)@,
                id@,
                match outcome {
                    Ok(()) => None,
                    Err(e) => Some(e@),
                },
            ),
    {
        proof {
            if ids_distinct(self@.tabs) {
                law_delete_outcome_keeps_ids(
                    self@,
                    id@,
                    match &outcome {
                        Ok(_) => None,
                        Err(e) => Some(e@),
                    },
                );
            }
        }
        match outcome {
            Err(e) => {
                self.notice = Some(Notice::Error(e));
            },
            Ok(()) => {
                let mut entries: Vec<SavedRequest> = Vec::new();
                std::mem::swap(&mut entries, &mut self.saved);
                self.saved = remove_entry(entries, id);
                let mut tabs: Vec<WorkspaceTab> = Vec::new();
                std::mem::swap(&mut tabs, &mut self.tabs);
                let ghost before = tabs_view(tabs@);
                let mut i: usize = 0;
                while i < tabs.len()
                    invariant
                        i <= tabs@.len(),
                        before.len() == tabs@.len(),
                        forall|j: int|
                            0 <= j < i ==> #[trigger] tabs_view(tabs@)[j] == forget_open(before[j], id@),
                        forall|j: int| i <= j < tabs@.len() ==> #[trigger] tabs_view(tabs@)[j] == before[j],
                    decreases tabs@.len() - i,
                {
                    assert(tabs_view(tabs@)[i as int] == before[i as int]);
                    let hit = match &tabs[i].open_id {
                        Some(o) => crate::text::str_eq(o.as_str(), id),
                        None => false,
                    };
                    assert(hit == (before[i as int].open_id == Some(id@)));
                    if hit {
                        let ghost cur = tabs@;
                        let mut t = tabs.remove(i);
                        t.open_id = None;
                        tabs.insert(i, t);
                        proof {
                            lemma_replace_tab(cur, i as int, t);
                        }
                    }
                    i += 1;
                }
                assert(tabs_view(tabs@) =~= before.map_values(|t: TabView| forget_open(t, id@)));
                self.tabs = tabs;
                self.notice = Some(Notice::Success("Request deleted".to_owned()));
            },
        }
    }
}

} // verus!

verus! {

// ---------------------------------------------------------------------------
// Laws of the workspace
// ---------------------------------------------------------------------------

/// Every message keeps a workspace well formed: there is a tab, and the
/// active index names one.
pub proof fn law_step_keeps_wf(a: AppView, m: Message, fresh: Seq<char>)
    requires
        wf(a),
    ensures
        wf(step(a, m, fresh).0),
{
    match m {
        Message::TabSelected(id) => {
            lemma_first_where_bounds(a.tabs, |t: TabView| t.id == id@);
        },
        Message::OpenRequested(id) => {
            lemma_first_where_bounds(a.tabs, |t: TabView| t.open_id == Some(id@));
        },
        Message::TabClosed(id) => {
            lemma_first_where_bounds(a.tabs, |t: TabView| t.id == id@);
            let i = tab_position(a.tabs, id@);
            if i < a.tabs.len() {
                let rest = a.tabs.remove(i);
                let r = close_step(a, id@, fresh).0;
                if rest.len() > 0 {
                    assert(r.tabs == rest);
                } else {
                    assert(r.tabs.len() == 1);
                }
                assert(wf(r));
            }
            assert(step(a, m, fresh).0 == close_step(a, id@, fresh).0);
        },
        Message::ResponseReady(tab_id, result) => {
            lemma_first_where_bounds(a.tabs, |t: TabView| t.id == tab_id@);
        },
        _ => {},
    }
}

/// No two tabs share an id.
pub open spec fn ids_distinct(tabs: Seq<TabView>) -> bool {
    forall|i: int, j: int| 0 <= i < j < tabs.len() ==> #[trigger] tabs[i].id != #[trigger] tabs[j].id
}

/// `fresh` names no tab of the workspace.
pub open spec fn fresh_tab_id(a: AppView, fresh: Seq<char>) -> bool {
    forall|i: int| 0 <= i < a.tabs.len() ==> #[trigger] a.tabs[i].id != fresh
}

proof fn lemma_update_keeps_ids(tabs: Seq<TabView>, i: int, t: TabView)
    requires
        ids_distinct(tabs),
        0 <= i < tabs.len(),
        t.id == tabs[i].id,
    ensures
        ids_distinct(tabs.update(i, t)),
{
    let u = tabs.update(i, t);
    assert forall|x: int, y: int| 0 <= x < y < u.len() implies #[trigger] u[x].id != #[trigger] u[y].id by {
        assert(u[x].id == tabs[x].id);
        assert(u[y].id == tabs[y].id);
    }
}

proof fn lemma_push_keeps_ids(a: AppView, t: TabView)
    requires
        ids_distinct(a.tabs),
        fresh_tab_id(a, t.id),
    ensures
        ids_distinct(a.tabs.push(t)),
{
    let u = a.tabs.push(t);
    assert forall|x: int, y: int| 0 <= x < y < u.len() implies #[trigger] u[x].id != #[trigger] u[y].id by {
        assert(u[x] == a.tabs[x]);
        if y < a.tabs.len() {
            assert(u[y] == a.tabs[y]);
        }
    }
}

proof fn lemma_remove_keeps_ids(tabs: Seq<TabView>, i: int)
    requires
        ids_distinct(tabs),
        0 <= i < tabs.len(),
    ensures
        ids_distinct(tabs.remove(i)),
{
    let u = tabs.remove(i);
    assert forall|x: int, y: int| 0 <= x < y < u.len() implies #[trigger] u[x].id != #[trigger] u[y].id by {
        let xx = if x < i { x } else { x + 1 };
        let yy = if y < i { y } else { y + 1 };
        assert(u[x] == tabs[xx]);
        assert(u[y] == tabs[yy]);
    }
}

/// Tab ids stay distinct under every message, as long as the id handed in
/// for a new tab names no tab already there.
pub proof fn law_step_keeps_ids_distinct(a: AppView, m: Message, fresh: Seq<char>)
    requires
        wf(a),
        ids_distinct(a.tabs),
        fresh_tab_id(a, fresh),
    ensures
        ids_distinct(step(a, m, fresh).0.tabs),
{
    let e = active_tab_of(a).editor;
    let t = active_tab_of(a);
    match m {
        Message::MethodSelected(_) | Message::UrlChanged(_) | Message::BodyEdited(_)
        | Message::HeaderNameEdited(_, _) | Message::HeaderValueEdited(_, _)
        | Message::HeaderToggled(_, _) | Message::HeaderRemoved(_) | Message::HeaderAdded => {
            let r = step(a, m, fresh).0;
            assert(r.tabs == a.tabs.update(a.active, TabView { editor: r.tabs[a.active].editor, ..t }));
            lemma_update_keeps_ids(a.tabs, a.active, TabView { editor: r.tabs[a.active].editor, ..t });
        },
        Message::Send => {
            if !t.in_flight && editor_request(e).url.len() != 0 {
                lemma_update_keeps_ids(a.tabs, a.active, TabView { response: None, in_flight: true, ..t });
            }
        },
        Message::CancelRequest => {
            lemma_update_keeps_ids(a.tabs, a.active, TabView { in_flight: false, ..t });
        },
        Message::ResponseReady(tab_id, result) => {
            lemma_first_where_bounds(a.tabs, |x: TabView| x.id == tab_id@);
            let i = tab_position(a.tabs, tab_id@);
            if i < a.tabs.len() {
                let ti = a.tabs[i];
                lemma_update_keeps_ids(a.tabs, i, TabView { in_flight: false, response: Some(result->Ok_0), ..ti });
                lemma_update_keeps_ids(a.tabs, i, TabView { in_flight: false, ..ti });
            }
        },
        Message::NewRequested => {
            lemma_push_keeps_ids(a, new_tab(fresh));
        },
        Message::TabAddRequested => {
            lemma_push_keeps_ids(a, new_tab(fresh));
        },
        Message::OpenRequested(id) => {
            let j = saved_position(a.saved, id@);
            if j < a.saved.len() {
                let ent = a.saved[j];
                lemma_push_keeps_ids(
                    a,
                    TabView { editor: loaded_editor(ent.request), open_id: Some(ent.id), ..new_tab(fresh) },
                );
            }
        },
        Message::ImportConfirmed => {
            match a.import {
                Some(ImportView::Input(content)) => match curl_command(content) {
                    Ok(req) => {
                        lemma_push_keeps_ids(a, TabView { editor: loaded_editor(req), ..new_tab(fresh) });
                    },
                    Err(_) => {},
                },
                _ => {},
            }
        },
        Message::TabClosed(id) => {
            lemma_first_where_bounds(a.tabs, |x: TabView| x.id == id@);
            let i = tab_position(a.tabs, id@);
            if i < a.tabs.len() {
                lemma_remove_keeps_ids(a.tabs, i);
            }
            assert(step(a, m, fresh).0 == close_step(a, id@, fresh).0);
        },
        Message::SaveRequested => {
            assert(step(a, m, fresh).0.tabs == a.tabs);
        },
        Message::ImportSaveAccepted => {
            assert(step(a, m, fresh).0.tabs == a.tabs);
        },
        _ => {},
    }
}

/// With distinct ids, looking a tab up by its id finds that very tab.
pub proof fn law_tab_found_by_id(tabs: Seq<TabView>, k: int)
    requires
        ids_distinct(tabs),
        0 <= k < tabs.len(),
    ensures
        tab_position(tabs, tabs[k].id) == k,
{
    let id = tabs[k].id;
    assert forall|j: int| 0 <= j < k implies !(|t: TabView| t.id == id)(#[trigger] tabs[j]) by {
        assert(tabs[j].id != tabs[k].id);
    }
    lemma_first_where(tabs, |t: TabView| t.id == id, k);
}

/// The store's answer to a save leaves the tab ids distinct.
pub proof fn law_save_outcome_keeps_ids(
    a: AppView,
    i: int,
    entry: SavedView,
    is_new: bool,
    outcome: Option<Seq<char>>,
)
    requires
        ids_distinct(a.tabs),
        0 <= i < a.tabs.len(),
    ensures
        ids_distinct(save_outcome(a, i, entry, is_new, outcome).tabs),
{
    lemma_update_keeps_ids(a.tabs, i, TabView { open_id: Some(entry.id), ..a.tabs[i] });
}

/// The store's answer to a delete leaves the tab ids distinct.
pub proof fn law_delete_outcome_keeps_ids(a: AppView, id: Seq<char>, outcome: Option<Seq<char>>)
    requires
        ids_distinct(a.tabs),
    ensures
        ids_distinct(delete_outcome(a, id, outcome).tabs),
{
    let u = a.tabs.map_values(|t: TabView| forget_open(t, id));
    assert forall|x: int, y: int| 0 <= x < y < u.len() implies #[trigger] u[x].id != #[trigger] u[y].id by {
        assert(u[x].id == a.tabs[x].id);
        assert(u[y].id == a.tabs[y].id);
    }
}

/// Toggling the sidebar, the layout or pretty-printing twice restores the
/// workspace.
pub proof fn law_toggles_undo(a: AppView, fresh: Seq<char>)
    ensures
        step(step(a, Message::SidebarToggled, fresh).0, Message::SidebarToggled, fresh).0 == a,
        step(step(a, Message::LayoutToggled, fresh).0, Message::LayoutToggled, fresh).0 == a,
        step(step(a, Message::PrettyPrintToggled, fresh).0, Message::PrettyPrintToggled, fresh).0 == a,
{
}

/// A request is sent at most once at a time: right after a send that went
/// out, sending again does nothing.
pub proof fn law_send_once(a: AppView)
    requires
        wf(a),
        send_step(a).1 is Execute,
    ensures
        send_step(send_step(a).0).1 is Nothing,
        send_step(send_step(a).0).0 == send_step(a).0,
{
}

/// Closing a tab with a request under way aborts that request.
pub proof fn law_close_aborts_in_flight(a: AppView, id: Seq<char>, fresh: Seq<char>)
    requires
        wf(a),
        tab_position(a.tabs, id) < a.tabs.len(),
        a.tabs[tab_position(a.tabs, id)].in_flight,
    ensures
        close_step(a, id, fresh).1 == EffectView::Abort(a.tabs[tab_position(a.tabs, id)].id),
{
}

/// Once the store has taken a new entry, the tab it came from has it open
/// and the sidebar lists it last.
pub proof fn law_new_save_opens_entry(a: AppView, i: int, entry: SavedView)
    requires
        wf(a),
        0 <= i < a.tabs.len(),
    ensures
        save_outcome(a, i, entry, true, None).tabs[i].open_id == Some(entry.id),
        save_outcome(a, i, entry, true, None).saved.last() == entry,
{
}

/// Once the store has deleted an entry, no saved entry has its id and no tab
/// has it open.
pub proof fn law_delete_forgets(a: AppView, id: Seq<char>)
    ensures
        crate::storage::count_id(delete_outcome(a, id, None).saved, id) == 0,
        forall|k: int|
            0 <= k < a.tabs.len() ==> #[trigger] delete_outcome(a, id, None).tabs[k].open_id != Some(id),
{
    crate::storage::law_delete_then_load(a.saved, id, id);
}

/// A save that the store refused changes nothing but the notice.
pub proof fn law_failed_save_keeps_state(a: AppView, i: int, entry: SavedView, is_new: bool, err: Seq<char>)
    ensures
        save_outcome(a, i, entry, is_new, Some(err)) == with_notice(a, Some(NoticeView::Error(err))),
{
}

/// A finished request's response lands in the tab that sent it, whichever
/// tab is active: that tab holds the response and is no longer waiting, and
/// every other tab, the active index and the rest of the workspace stay as
/// they were.
pub proof fn law_response_reaches_its_tab(
    a: AppView,
    k: int,
    tab_id: String,
    resp: HttpResponse,
    fresh: Seq<char>,
)
    requires
        wf(a),
        ids_distinct(a.tabs),
        0 <= k < a.tabs.len(),
        tab_id@ == a.tabs[k].id,
    ensures
        ({
            let r = step(a, Message::ResponseReady(tab_id, Ok(resp)), fresh);
            &&& r.1 == EffectView::Nothing
            &&& r.0.tabs.len() == a.tabs.len()
            &&& r.0.tabs[k].response == Some(resp)
            &&& !r.0.tabs[k].in_flight
            &&& r.0.tabs[k].id == a.tabs[k].id
            &&& r.0.tabs[k].editor == a.tabs[k].editor
            &&& r.0.tabs[k].open_id == a.tabs[k].open_id
            &&& forall|j: int| 0 <= j < a.tabs.len() && j != k ==> #[trigger] r.0.tabs[j] == a.tabs[j]
            &&& r.0.active == a.active
            &&& r.0.saved == a.saved
            &&& r.0.notice == a.notice
        }),
{
    law_tab_found_by_id(a.tabs, k);
}

/// A failed request clears the waiting mark of the tab that sent it and
/// reports the error; no other tab changes.
pub proof fn law_failed_response_reaches_its_tab(
    a: AppView,
    k: int,
    tab_id: String,
    err: String,
    fresh: Seq<char>,
)
    requires
        wf(a),
        ids_distinct(a.tabs),
        0 <= k < a.tabs.len(),
        tab_id@ == a.tabs[k].id,
    ensures
        ({
            let r = step(a, Message::ResponseReady(tab_id, Err(err)), fresh).0;
            &&& r.tabs.len() == a.tabs.len()
            &&& !r.tabs[k].in_flight
            &&& r.tabs[k].response == a.tabs[k].response
            &&& forall|j: int| 0 <= j < a.tabs.len() && j != k ==> #[trigger] r.tabs[j] == a.tabs[j]
            &&& r.active == a.active
            &&& r.notice == Some(NoticeView::Error(err@))
        }),
{
    law_tab_found_by_id(a.tabs, k);
}

/// Closing a tab other than the active one keeps the same tab active, and
/// leaves the other tabs in their order.
pub proof fn law_close_other_keeps_active(a: AppView, k: int, id: String, fresh: Seq<char>)
    requires
        wf(a),
        ids_distinct(a.tabs),
        0 <= k < a.tabs.len(),
        k != a.active,
        id@ == a.tabs[k].id,
    ensures
        ({
            let r = step(a, Message::TabClosed(id), fresh).0;
            &&& wf(r)
            &&& r.tabs == a.tabs.remove(k)
            &&& r.tabs[r.active] == a.tabs[a.active]
        }),
{
    law_tab_found_by_id(a.tabs, k);
    assert(step(a, Message::TabClosed(id), fresh).0 == close_step(a, id@, fresh).0);
    let rest = a.tabs.remove(k);
    assert(rest.len() > 0);
    if k < a.active {
        assert(rest[a.active - 1] == a.tabs[a.active]);
    } else {
        assert(rest[a.active] == a.tabs[a.active]);
    }
}

/// Closing the active tab leaves a tab active at the same place (or the last
/// one, when the closed tab was last); the other tabs stay in their order.
pub proof fn law_close_active_moves_to_neighbour(a: AppView, id: String, fresh: Seq<char>)
    requires
        wf(a),
        ids_distinct(a.tabs),
        a.tabs.len() > 1,
        id@ == a.tabs[a.active].id,
    ensures
        ({
            let r = step(a, Message::TabClosed(id), fresh).0;
            &&& r.tabs == a.tabs.remove(a.active)
            &&& r.active == if a.active < a.tabs.len() - 1 { a.active } else { a.active - 1 }
        }),
{
    law_tab_found_by_id(a.tabs, a.active);
    assert(step(a, Message::TabClosed(id), fresh).0 == close_step(a, id@, fresh).0);
}

/// Selecting a tab by its id makes that tab active and changes nothing else.
pub proof fn law_select_tab(a: AppView, k: int, id: String, fresh: Seq<char>)
    requires
        wf(a),
        ids_distinct(a.tabs),
        0 <= k < a.tabs.len(),
        id@ == a.tabs[k].id,
    ensures
        step(a, Message::TabSelected(id), fresh) == (AppView { active: k, ..a }, EffectView::Nothing),
{
    law_tab_found_by_id(a.tabs, k);
}

/// Selecting an id that no tab has changes nothing.
pub proof fn law_select_unknown_tab(a: AppView, id: String, fresh: Seq<char>)
    requires
        wf(a),
        forall|j: int| 0 <= j < a.tabs.len() ==> #[trigger] a.tabs[j].id != id@,
    ensures
        step(a, Message::TabSelected(id), fresh) == (a, EffectView::Nothing),
{
    lemma_first_where_bounds(a.tabs, |t: TabView| t.id == id@);
}

/// Adding a tab puts a new empty tab with the fresh id last and makes it
/// active; the tabs before it stay as they were.
pub proof fn law_add_tab(a: AppView, fresh: Seq<char>)
    requires
        wf(a),
    ensures
        ({
            let r = step(a, Message::TabAddRequested, fresh).0;
            &&& r.tabs.len() == a.tabs.len() + 1
            &&& r.tabs.take(a.tabs.len() as int) == a.tabs
            &&& r.tabs.last() == new_tab(fresh)
            &&& r.tabs.last().editor == empty_editor()
            &&& r.active == a.tabs.len()
            &&& r.saved == a.saved
            &&& r.notice is None
        }),
{
    assert(a.tabs.push(new_tab(fresh)).take(a.tabs.len() as int) == a.tabs);
}

/// Asking for a new request opens a new empty tab (last, active) unless the
/// active tab is still untouched, in which case the tabs stay as they are.
pub proof fn law_new_request(a: AppView, fresh: Seq<char>)
    requires
        wf(a),
    ensures
        ({
            let r = step(a, Message::NewRequested, fresh).0;
            &&& pristine(active_tab_of(a)) ==> r.tabs == a.tabs && r.active == a.active
            &&& !pristine(active_tab_of(a)) ==> r.tabs == a.tabs.push(new_tab(fresh)) && r.active
                == a.tabs.len()
            &&& r.notice is None
        }),
{
}

/// Editing the URL changes only the active tab's URL.
pub proof fn law_url_edit(a: AppView, url: String, fresh: Seq<char>)
    requires
        wf(a),
    ensures
        ({
            let r = step(a, Message::UrlChanged(url), fresh);
            &&& r.1 == EffectView::Nothing
            &&& r.0.tabs.len() == a.tabs.len()
            &&& r.0.tabs[a.active].editor.url == url@
            &&& r.0.tabs[a.active].editor.method == a.tabs[a.active].editor.method
            &&& r.0.tabs[a.active].editor.body == a.tabs[a.active].editor.body
            &&& r.0.tabs[a.active].editor.headers == a.tabs[a.active].editor.headers
            &&& r.0.tabs[a.active].id == a.tabs[a.active].id
            &&& forall|j: int| 0 <= j < a.tabs.len() && j != a.active ==> #[trigger] r.0.tabs[j] == a.tabs[j]
            &&& r.0.active == a.active
        }),
{
}

/// Opening a saved entry that a tab already has open switches to that tab.
pub proof fn law_open_already_open(a: AppView, k: int, id: String, fresh: Seq<char>)
    requires
        wf(a),
        saved_position(a.saved, id@) < a.saved.len(),
        0 <= k < a.tabs.len(),
        a.tabs[k].open_id == Some(id@),
        forall|j: int| 0 <= j < k ==> #[trigger] a.tabs[j].open_id != Some(id@),
    ensures
        step(a, Message::OpenRequested(id), fresh).0 == (AppView { active: k, ..a }),
{
    lemma_first_where(a.tabs, |t: TabView| t.open_id == Some(id@), k);
}

/// Opening a saved entry that no tab has open adds a tab (last, active) whose
/// editor holds the entry's request and which has the entry open.
pub proof fn law_open_new_tab(a: AppView, j: int, id: String, fresh: Seq<char>)
    requires
        wf(a),
        0 <= j < a.saved.len(),
        a.saved[j].id == id@,
        forall|i: int| 0 <= i < j ==> #[trigger] a.saved[i].id != id@,
        forall|k: int| 0 <= k < a.tabs.len() ==> #[trigger] a.tabs[k].open_id != Some(id@),
    ensures
        ({
            let r = step(a, Message::OpenRequested(id), fresh).0;
            &&& r.tabs.len() == a.tabs.len() + 1
            &&& r.tabs.take(a.tabs.len() as int) == a.tabs
            &&& r.active == a.tabs.len()
            &&& r.tabs.last().id == fresh
            &&& r.tabs.last().open_id == Some(id@)
            &&& editor_request(r.tabs.last().editor).method == a.saved[j].request.method
            &&& r.tabs.last().editor == loaded_editor(a.saved[j].request)
            &&& r.saved == a.saved
        }),
{
    lemma_first_where(a.saved, |e: SavedView| e.id == id@, j);
    lemma_first_where(a.tabs, |t: TabView| t.open_id == Some(id@), a.tabs.len() as int);
    let t = TabView { editor: loaded_editor(a.saved[j].request), open_id: Some(a.saved[j].id), ..new_tab(fresh) };
    assert(a.tabs.push(t).take(a.tabs.len() as int) == a.tabs);
}

/// Saving a tab that has no entry open asks the store to write a new entry
/// under the fresh id, holding the tab's request and named after it; the
/// workspace is unchanged until the store answers.  Without a URL nothing is
/// written and an error is shown.
pub proof fn law_save_new_entry(a: AppView, fresh: Seq<char>)
    requires
        wf(a),
        ids_distinct(a.tabs),
        active_tab_of(a).open_id is None,
    ensures
        ({
            let req = editor_request(active_tab_of(a).editor);
            let r = step(a, Message::SaveRequested, fresh);
            &&& req.url.len() > 0 ==> r == (
                a,
                EffectView::Save(
                    a.active,
                    SavedView { id: fresh, name: derived_name_of(req), request: req },
                    true,
                ),
            )
            &&& req.url.len() == 0 ==> r.1 == EffectView::Nothing && r.0.tabs == a.tabs && r.0.saved
                == a.saved && r.0.notice matches Some(NoticeView::Error(_))
        }),
{
    law_tab_found_by_id(a.tabs, a.active);
}

/// Saving a tab whose entry is in the store rewrites that entry in place,
/// keeping its id, and asks the store to write it.
pub proof fn law_save_existing_entry(a: AppView, j: int, fresh: Seq<char>)
    requires
        wf(a),
        ids_distinct(a.tabs),
        active_tab_of(a).open_id == Some(a.saved[j].id),
        0 <= j < a.saved.len(),
        forall|i: int| 0 <= i < j ==> #[trigger] a.saved[i].id != a.saved[j].id,
        editor_request(active_tab_of(a).editor).url.len() > 0,
    ensures
        ({
            let req = editor_request(active_tab_of(a).editor);
            let entry = SavedView { id: a.saved[j].id, name: derived_name_of(req), request: req };
            let r = step(a, Message::SaveRequested, fresh);
            &&& r.0 == AppView { saved: a.saved.update(j, entry), ..a }
            &&& r.1 == EffectView::Save(a.active, entry, false)
        }),
{
    law_tab_found_by_id(a.tabs, a.active);
    lemma_first_where(a.saved, |e: SavedView| e.id == a.saved[j].id, j);
}

} // verus!
