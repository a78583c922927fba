use std::path::PathBuf;

use songbird::format::{detect_format, format_body, format_xml, BodyFormat};
use songbird::model::curl::{parse, parse_words, CurlError};
use songbird::model::http_method::ALL_METHODS;
use songbird::model::request::{body_window, MAX_BODY_BYTES};
use songbird::model::saved_request::{derive_name, hex_chars};
use songbird::model::{new_id, Header, HttpMethod, HttpRequest, HttpResponse, SavedRequest, UnknownMethod};
use songbird::storage::{remove_entry, upsert_entry, JsonFileRequestRepository};
use songbird::text::{is_blank_str, str_eq};
use songbird::ui::app::{App, Effect, ImportState, Layout, Message, Notice, WorkspaceTab};
use songbird::ui::editor::{HeaderRow, JsonBodyStatus, RequestEditor};
use songbird::ui::labels::{
    enabled_header_count, layout_label, status_tone, tab_label, truncate_label, StatusTone,
};

fn request(method: HttpMethod, url: &str) -> HttpRequest {
    HttpRequest::new(method, url.to_owned())
}

fn entry(id: &str, url: &str) -> SavedRequest {
    SavedRequest::new(request(HttpMethod::Get, url), id.to_owned())
}

fn ids(entries: &[SavedRequest]) -> Vec<String> {
    entries.iter().map(|e| e.id.clone()).collect()
}

// ----- methods -----

#[test]
fn method_names_round_trip() {
    for m in ALL_METHODS {
        assert_eq!(HttpMethod::parse_name(m.as_str()), Ok(m));
        assert_eq!(HttpMethod::parse_name(&m.as_str().to_lowercase()), Ok(m));
    }
}

#[test]
fn method_names_are_canonical() {
    assert_eq!(HttpMethod::Get.as_str(), "GET");
    assert_eq!(HttpMethod::Options.as_str(), "OPTIONS");
    assert_eq!(HttpMethod::parse_name("pAtCh"), Ok(HttpMethod::Patch));
}

#[test]
fn unknown_method_is_reported_with_its_name() {
    let err = HttpMethod::parse_name("FETCH").unwrap_err();
    assert_eq!(err, UnknownMethod("FETCH".to_owned()));
    assert_eq!(err.message(), "unknown HTTP method 'FETCH'");
}

#[test]
fn only_get_and_head_have_no_body() {
    assert!(!HttpMethod::Get.allows_body());
    assert!(!HttpMethod::Head.allows_body());
    for m in [HttpMethod::Post, HttpMethod::Put, HttpMethod::Patch, HttpMethod::Delete, HttpMethod::Options] {
        assert!(m.allows_body());
    }
}

// ----- requests and saved requests -----

#[test]
fn ids_are_hex_time_and_sequence() {
    assert_eq!(new_id(255, 10), "ff-a");
    assert_eq!(new_id(0, 0), "0-0");
    assert_eq!(hex_chars(4096).iter().collect::<String>(), "1000");
    assert_ne!(new_id(1, 2), new_id(1, 3));
}

#[test]
fn saved_request_is_named_after_method_and_url() {
    let r = request(HttpMethod::Delete, "https://api.test/x");
    assert_eq!(derive_name(&r), "DELETE https://api.test/x");
    let mut saved = SavedRequest::new(r, "id-1".to_owned());
    assert_eq!(saved.name, "DELETE https://api.test/x");
    saved.rename("mine".to_owned());
    assert_eq!(saved.name, "mine");
    saved.request.url = "https://api.test/y".to_owned();
    saved.refresh_name();
    assert_eq!(saved.name, "DELETE https://api.test/y");
    assert_eq!(saved.id, "id-1");
}

#[test]
fn request_builders_append() {
    let r = request(HttpMethod::Post, "u")
        .with_headers(vec![Header::new("A", "1")])
        .with_header("B", "2")
        .with_body("x".to_owned());
    assert_eq!(r.headers, vec![Header::new("A", "1"), Header::new("B", "2")]);
    assert_eq!(r.body.as_deref(), Some("x"));
    assert_eq!(r.copy(), r);
}

// ----- storage -----

#[test]
fn save_replaces_entry_with_same_id_and_puts_it_last() {
    let store = vec![entry("a", "1"), entry("b", "2"), entry("c", "3")];
    let updated = upsert_entry(store, entry("b", "new"));
    assert_eq!(ids(&updated), vec!["a", "c", "b"]);
    assert_eq!(updated[2].request.url, "new");
}

#[test]
fn save_twice_is_like_saving_once() {
    let once = upsert_entry(vec![entry("a", "1")], entry("b", "2"));
    let twice = upsert_entry(once.clone(), entry("b", "2"));
    assert_eq!(once, twice);
}

#[test]
fn delete_removes_every_entry_with_the_id() {
    let store = vec![entry("a", "1"), entry("b", "2"), entry("a", "3")];
    let left = remove_entry(store, "a");
    assert_eq!(ids(&left), vec!["b"]);
}

#[test]
fn delete_undoes_a_new_save() {
    let store = vec![entry("a", "1"), entry("b", "2")];
    let saved = upsert_entry(store.clone(), entry("c", "3"));
    assert_eq!(remove_entry(saved, "c"), store);
}

#[test]
fn repository_keeps_its_path() {
    let repo = JsonFileRequestRepository::new(PathBuf::from("/tmp/x/requests.json"));
    assert_eq!(repo.path(), &PathBuf::from("/tmp/x/requests.json"));
}

// ----- editor -----

fn editor_with(method: HttpMethod, url: &str, body: &str, headers: Vec<HeaderRow>) -> RequestEditor {
    RequestEditor { method, url: url.to_owned(), body: body.to_owned(), headers }
}

#[test]
fn editor_builds_trimmed_request_from_enabled_rows() {
    let rows = vec![
        HeaderRow { enabled: true, header: Header::new("  X-A ", " v ") },
        HeaderRow { enabled: false, header: Header::new("X-B", "w") },
        HeaderRow { enabled: true, header: Header::new("   ", "blank") },
    ];
    let e = editor_with(HttpMethod::Post, "  https://api.test  ", "{}", rows);
    let r = e.to_request();
    assert_eq!(r.url, "https://api.test");
    assert_eq!(r.headers, vec![Header::new("X-A", " v ")]);
    assert_eq!(r.body.as_deref(), Some("{}"));
    assert_eq!(enabled_header_count(&e), 1);
}

#[test]
fn editor_drops_body_for_get_and_blank_bodies() {
    assert_eq!(editor_with(HttpMethod::Get, "u", "data", vec![]).to_request().body, None);
    assert_eq!(editor_with(HttpMethod::Post, "u", " \n ", vec![]).to_request().body, None);
}

#[test]
fn load_then_to_request_gives_back_the_request() {
    let r = request(HttpMethod::Put, "https://api.test/a")
        .with_header("X-T", "1")
        .with_body("payload".to_owned());
    assert_eq!(RequestEditor::load(&r).to_request(), r);
    let plain = request(HttpMethod::Get, "https://api.test/b");
    assert_eq!(RequestEditor::load(&plain).to_request(), plain);
}

#[test]
fn editor_header_rows_are_added_and_removed() {
    let mut e = RequestEditor::empty();
    e.add_header();
    e.add_header();
    assert_eq!(e.headers.len(), 2);
    assert!(e.headers[0].enabled && e.headers[0].header.name.is_empty());
    e.remove_header(5);
    assert_eq!(e.headers.len(), 2);
    e.remove_header(0);
    assert_eq!(e.headers.len(), 1);
}

#[test]
fn json_status_reports_empty_valid_and_invalid() {
    assert_eq!(editor_with(HttpMethod::Post, "u", "  ", vec![]).json_status(), JsonBodyStatus::Empty);
    assert_eq!(editor_with(HttpMethod::Post, "u", "[1]", vec![]).json_status(), JsonBodyStatus::Valid);
    match editor_with(HttpMethod::Post, "u", "{oops", vec![]).json_status() {
        JsonBodyStatus::Invalid(msg) => assert!(!msg.is_empty()),
        other => panic!("unexpected {other:?}"),
    }
}

// ----- labels -----

#[test]
fn labels_are_truncated_with_dots() {
    assert_eq!(truncate_label("short", 30), "short");
    assert_eq!(truncate_label("abcdef", 3), "abc...");
    assert_eq!(truncate_label("ééééé", 2), "éé...");
}

#[test]
fn layout_and_status_labels() {
    assert_eq!(layout_label(Layout::Horizontal), "Horizontal");
    assert_eq!(layout_label(Layout::Vertical), "Vertical");
    assert_eq!(status_tone(204), StatusTone::Success);
    assert_eq!(status_tone(301), StatusTone::Warning);
    assert_eq!(status_tone(404), StatusTone::Danger);
    assert_eq!(status_tone(199), StatusTone::Danger);
}

#[test]
fn tab_labels_follow_url_saved_name_and_flight() {
    let mut tab = WorkspaceTab::new("t".to_owned());
    assert_eq!(tab_label(&vec![], &tab), "New request");
    tab.editor.url = "  https://api.test  ".to_owned();
    assert_eq!(tab_label(&vec![], &tab), "GET https://api.test");
    tab.in_flight = true;
    assert_eq!(tab_label(&vec![], &tab), "* GET https://api.test");
    tab.in_flight = false;
    tab.open_id = Some("s".to_owned());
    assert_eq!(tab_label(&vec![], &tab), "New Request");
    let mut saved = entry("s", "https://api.test/very/long/path/indeed");
    saved.rename("A name that is longer than twenty-eight".to_owned());
    assert_eq!(tab_label(&vec![saved], &tab), "A name that is longer than t...");
}

#[test]
fn pristine_tabs() {
    let mut tab = WorkspaceTab::new("t".to_owned());
    assert!(tab.is_pristine());
    tab.editor.add_header();
    assert!(tab.is_pristine());
    tab.editor.body = "x".to_owned();
    assert!(!tab.is_pristine());
}

// ----- the workspace -----

fn app_with(saved: Vec<SavedRequest>) -> App {
    App::new(Ok(saved), "tab-0".to_owned())
}

#[test]
fn app_starts_with_one_tab_and_loaded_entries() {
    let app = app_with(vec![entry("a", "1")]);
    assert_eq!(app.tabs().len(), 1);
    assert_eq!(app.active_index(), 0);
    assert_eq!(app.saved().len(), 1);
    assert!(app.sidebar_open() && app.pretty_print());
    assert_eq!(app.layout(), Layout::Vertical);
    let failed = App::new(Err("disk".to_owned()), "t".to_owned());
    match failed.notice() {
        Some(Notice::Error(m)) => assert_eq!(m, "Failed to load saved requests: disk"),
        other => panic!("unexpected {other:?}"),
    }
}

#[test]
fn send_requires_url_and_happens_once() {
    let mut app = app_with(vec![]);
    assert!(matches!(app.update(Message::Send, "x".to_owned()), Effect::Nothing));
    assert_eq!(app.notice().as_ref().unwrap().text(), "Enter a URL before sending");
    app.update(Message::UrlChanged(" https://api.test ".to_owned()), "x".to_owned());
    match app.update(Message::Send, "x".to_owned()) {
        Effect::Execute { tab_id, request } => {
            assert_eq!(tab_id, "tab-0");
            assert_eq!(request.url, "https://api.test");
        },
        _ => panic!("expected a request to go out"),
    }
    assert!(app.active_tab().in_flight);
    assert!(matches!(app.update(Message::Send, "x".to_owned()), Effect::Nothing));
    match app.update(Message::CancelRequest, "x".to_owned()) {
        Effect::Abort { tab_id } => assert_eq!(tab_id, "tab-0"),
        _ => panic!("expected an abort"),
    }
    assert!(!app.active_tab().in_flight);
}

#[test]
fn responses_land_in_their_tab() {
    let mut app = app_with(vec![]);
    let response = HttpResponse {
        status: 200,
        reason: Some("OK".to_owned()),
        headers: vec![],
        body: "{}".to_owned(),
        duration_ms: 3,
        truncated: false,
    };
    app.update(Message::ResponseReady("tab-0".to_owned(), Ok(response.clone())), "x".to_owned());
    assert_eq!(app.active_tab().response, Some(response));
    app.update(Message::ResponseReady("tab-0".to_owned(), Err("boom".to_owned())), "x".to_owned());
    assert_eq!(app.notice().as_ref().unwrap().text(), "boom");
}

#[test]
fn tabs_open_select_and_close() {
    let mut app = app_with(vec![]);
    app.update(Message::TabAddRequested, "tab-1".to_owned());
    app.update(Message::TabAddRequested, "tab-2".to_owned());
    assert_eq!(app.active_index(), 2);
    app.update(Message::TabSelected("tab-1".to_owned()), "x".to_owned());
    assert_eq!(app.active_index(), 1);
    app.update(Message::TabClosed("tab-0".to_owned()), "x".to_owned());
    assert_eq!(app.active_index(), 0);
    assert_eq!(app.active_tab().id, "tab-1");
    app.update(Message::TabClosed("tab-1".to_owned()), "x".to_owned());
    app.update(Message::TabClosed("tab-2".to_owned()), "tab-3".to_owned());
    assert_eq!(app.tabs().len(), 1);
    assert_eq!(app.tabs()[0].id, "tab-3");
}

#[test]
fn closing_a_busy_tab_aborts_its_request() {
    let mut app = app_with(vec![]);
    app.update(Message::UrlChanged("u".to_owned()), "x".to_owned());
    app.update(Message::Send, "x".to_owned());
    match app.update(Message::TabClosed("tab-0".to_owned()), "tab-9".to_owned()) {
        Effect::Abort { tab_id } => assert_eq!(tab_id, "tab-0"),
        _ => panic!("expected an abort"),
    }
}

#[test]
fn new_request_only_opens_a_tab_when_the_current_one_is_used() {
    let mut app = app_with(vec![]);
    app.update(Message::NewRequested, "tab-1".to_owned());
    assert_eq!(app.tabs().len(), 1);
    app.update(Message::UrlChanged("u".to_owned()), "x".to_owned());
    app.update(Message::NewRequested, "tab-1".to_owned());
    assert_eq!(app.tabs().len(), 2);
    assert_eq!(app.active_index(), 1);
}

#[test]
fn saving_a_new_request_then_updating_it() {
    let mut app = app_with(vec![]);
    app.update(Message::UrlChanged("https://api.test".to_owned()), "x".to_owned());
    let plan = match app.update(Message::SaveRequested, "saved-1".to_owned()) {
        Effect::Save(plan) => plan,
        _ => panic!("expected a save"),
    };
    assert!(plan.is_new);
    assert_eq!(plan.entry.id, "saved-1");
    assert_eq!(plan.entry.name, "GET https://api.test");
    assert!(app.saved().is_empty());
    app.apply_save(plan, Ok(()));
    assert_eq!(app.saved().len(), 1);
    assert_eq!(app.active_tab().open_id.as_deref(), Some("saved-1"));
    app.update(Message::MethodSelected(HttpMethod::Head), "x".to_owned());
    let plan = match app.update(Message::SaveRequested, "saved-2".to_owned()) {
        Effect::Save(plan) => plan,
        _ => panic!("expected a save"),
    };
    assert!(!plan.is_new);
    assert_eq!(plan.entry.id, "saved-1");
    assert_eq!(app.saved()[0].name, "HEAD https://api.test");
    app.apply_save(plan, Ok(()));
    assert_eq!(app.notice().as_ref().unwrap().text(), "Updated 'HEAD https://api.test'");
}

#[test]
fn a_refused_save_only_sets_the_notice() {
    let mut app = app_with(vec![]);
    app.update(Message::UrlChanged("https://api.test".to_owned()), "x".to_owned());
    if let Effect::Save(plan) = app.update(Message::SaveRequested, "s".to_owned()) {
        app.apply_save(plan, Err("disk full".to_owned()));
    } else {
        panic!("expected a save");
    }
    assert!(app.saved().is_empty());
    assert_eq!(app.active_tab().open_id, None);
    assert_eq!(app.notice().as_ref().unwrap().text(), "disk full");
}

#[test]
fn opening_and_deleting_saved_requests() {
    let stored = SavedRequest::new(
        request(HttpMethod::Post, "https://api.test").with_body("b".to_owned()),
        "s1".to_owned(),
    );
    let mut app = app_with(vec![stored]);
    app.update(Message::OpenRequested("s1".to_owned()), "tab-1".to_owned());
    assert_eq!(app.tabs().len(), 2);
    assert_eq!(app.active_tab().editor.body, "b");
    app.update(Message::TabSelected("tab-0".to_owned()), "x".to_owned());
    app.update(Message::OpenRequested("s1".to_owned()), "tab-2".to_owned());
    assert_eq!(app.tabs().len(), 2);
    assert_eq!(app.active_index(), 1);
    match app.update(Message::DeleteRequested("s1".to_owned()), "x".to_owned()) {
        Effect::Delete { id } => app.apply_delete(&id, Ok(())),
        _ => panic!("expected a delete"),
    }
    assert!(app.saved().is_empty());
    assert!(app.tabs().iter().all(|t| t.open_id.is_none()));
    assert_eq!(app.notice().as_ref().unwrap().text(), "Request deleted");
}

#[test]
fn importing_a_command_opens_a_tab_and_offers_to_save() {
    let mut app = app_with(vec![]);
    app.update(Message::ImportToggled, "x".to_owned());
    app.update(Message::ImportEdited("curl -X BOGUS https://api.test".to_owned()), "x".to_owned());
    app.update(Message::ImportConfirmed, "tab-1".to_owned());
    assert_eq!(app.notice().as_ref().unwrap().text(), "invalid HTTP method 'BOGUS'");
    assert!(matches!(app.import(), Some(ImportState::Input { .. })));
    app.update(Message::ImportEdited("curl -d a=1 api.test".to_owned()), "x".to_owned());
    app.update(Message::ImportConfirmed, "tab-1".to_owned());
    assert_eq!(app.active_tab().id, "tab-1");
    assert_eq!(app.active_tab().editor.method, HttpMethod::Post);
    assert_eq!(app.active_tab().editor.url, "https://api.test");
    match app.import() {
        Some(ImportState::ConfirmSave { tab_id }) => assert_eq!(tab_id, "tab-1"),
        other => panic!("unexpected {other:?}"),
    }
    match app.update(Message::ImportSaveAccepted, "saved-1".to_owned()) {
        Effect::Save(plan) => {
            assert!(plan.is_new);
            assert_eq!(plan.tab_index, 1);
            assert_eq!(plan.entry.request.body.as_deref(), Some("a=1"));
        },
        _ => panic!("expected a save"),
    }
    assert!(app.import().is_none());
}

#[test]
fn toggles_flip_and_flip_back() {
    let mut app = app_with(vec![]);
    app.update(Message::SidebarToggled, "x".to_owned());
    app.update(Message::LayoutToggled, "x".to_owned());
    app.update(Message::PrettyPrintToggled, "x".to_owned());
    assert!(!app.sidebar_open() && !app.pretty_print());
    assert_eq!(app.layout(), Layout::Horizontal);
    app.update(Message::SidebarToggled, "x".to_owned());
    app.update(Message::LayoutToggled, "x".to_owned());
    app.update(Message::PrettyPrintToggled, "x".to_owned());
    assert!(app.sidebar_open() && app.pretty_print());
    assert_eq!(app.layout(), Layout::Vertical);
}

#[test]
fn header_edits_reach_the_active_editor() {
    let mut app = app_with(vec![]);
    app.update(Message::HeaderAdded, "x".to_owned());
    app.update(Message::HeaderNameEdited(0, "X-A".to_owned()), "x".to_owned());
    app.update(Message::HeaderValueEdited(0, "1".to_owned()), "x".to_owned());
    app.update(Message::HeaderNameEdited(7, "ignored".to_owned()), "x".to_owned());
    assert_eq!(app.active_tab().editor.headers[0].header, Header::new("X-A", "1"));
    app.update(Message::HeaderToggled(0, false), "x".to_owned());
    assert!(!app.active_tab().editor.headers[0].enabled);
    app.update(Message::HeaderRemoved(0), "x".to_owned());
    assert!(app.active_tab().editor.headers.is_empty());
}

// ----- cURL import, beyond the original's cases -----

#[test]
fn curl_error_messages() {
    assert_eq!(CurlError::Empty.message(), "command is empty");
    assert_eq!(CurlError::MissingUrl.message(), "no URL found in command");
    assert_eq!(CurlError::UnterminatedQuote.message(), "command has unterminated quotes");
    assert_eq!(CurlError::InvalidMethod("x".to_owned()).message(), "invalid HTTP method 'x'");
}

#[test]
fn curl_value_headers_and_cookie_files() {
    let r = parse("curl -A agent -e https://ref.test -b a=1 -b @jar.txt https://api.test").unwrap();
    assert_eq!(
        r.headers,
        vec![
            Header::new("User-Agent", "agent"),
            Header::new("Referer", "https://ref.test"),
            Header::new("Cookie", "a=1"),
        ]
    );
}

#[test]
fn curl_url_option_overrides_and_first_positional_wins() {
    assert_eq!(parse("curl https://a.test https://b.test").unwrap().url, "https://a.test");
    assert_eq!(parse("curl https://a.test --url https://b.test").unwrap().url, "https://b.test");
    assert_eq!(parse("curl http://plain.test").unwrap().url, "http://plain.test");
}

#[test]
fn curl_get_with_existing_query_uses_ampersand() {
    let r = parse("curl -G -d b=2 'https://api.test/s?a=1'").unwrap();
    assert_eq!(r.url, "https://api.test/s?a=1&b=2");
    assert_eq!(r.method, HttpMethod::Get);
}

#[test]
fn curl_form_keeps_given_content_type() {
    let r = parse("curl -F a=1 -H 'content-type: text/plain' https://api.test").unwrap();
    assert_eq!(r.headers, vec![Header::new("content-type", "text/plain")]);
}

#[test]
fn curl_words_without_program_name() {
    let words: Vec<String> = vec!["-XPUT".into(), "api.test".into()];
    let r = parse_words(&words).unwrap();
    assert_eq!(r.method, HttpMethod::Put);
    assert_eq!(r.url, "https://api.test");
    assert_eq!(parse_words(&vec![]), Err(CurlError::Empty));
    assert_eq!(parse_words(&vec!["/usr/bin/curl".to_owned()]), Err(CurlError::Empty));
}

#[test]
fn curl_basic_auth_is_standard_base64() {
    let r = parse("curl --user=a:b https://api.test").unwrap();
    assert_eq!(r.headers, vec![Header::new("Authorization", "Basic YTpi")]);
}

#[test]
fn curl_missing_value_and_dash_dash_without_url() {
    assert_eq!(parse("curl -H"), Err(CurlError::MissingUrl));
    assert_eq!(parse("curl -X GET --"), Err(CurlError::MissingUrl));
}

// ----- formatting -----

#[test]
fn xml_layout_ends_with_one_newline() {
    let out = format_xml("  <a>\n\n</a>  \n\n");
    assert_eq!(out, "<a>\n</a>\n");
    assert_eq!(format_xml(""), "\n");
}

#[test]
fn xml_closing_tag_at_top_does_not_go_negative() {
    assert_eq!(format_xml("</a><b/>"), "</a>\n<b/>\n");
}

#[test]
fn detect_format_skips_leading_whitespace_only() {
    assert_eq!(detect_format("\n\t{\"a\": [true, null]}"), BodyFormat::Json);
    assert_eq!(detect_format("x<a/>"), BodyFormat::Plain);
    assert_eq!(format_body("[1,2]", BodyFormat::Json), "[\n  1,\n  2\n]");
}

// ----- text -----

#[test]
fn blank_means_unicode_whitespace_only() {
    assert!(is_blank_str(" \t\r\n\u{a0}\u{3000}"));
    assert!(!is_blank_str(" x "));
    assert!(str_eq("abc", "abc") && !str_eq("abc", "abd"));
}

// ----- response bodies, layout laws, header shape, tab ids -----

#[test]
fn large_bodies_are_cut_to_the_window() {
    assert_eq!(MAX_BODY_BYTES, 2 * 1024 * 1024);
    assert_eq!(body_window(10), (10, false));
    assert_eq!(body_window(MAX_BODY_BYTES), (MAX_BODY_BYTES, false));
    assert_eq!(body_window(MAX_BODY_BYTES + 1), (MAX_BODY_BYTES, true));
    assert_eq!(body_window(3 * 1024 * 1024), (MAX_BODY_BYTES, true));
}

#[test]
fn xml_layout_of_a_layout_is_unchanged() {
    for body in [
        "<root><a x=\"1>2\">text</a><b/><!-- c --></root>",
        "  <?xml version=\"1.0\"?>\n<r>\n  <i>one two</i>\n</r>  ",
        "plain text only",
        "<open never closed   ",
        "</a></b><c>",
    ] {
        let once = format_xml(body);
        assert_eq!(format_xml(&once), once);
    }
}

#[test]
fn xml_layout_changes_only_whitespace() {
    let body = "<root> <a k=\"v w\">hello  world</a>\n\t<b/></root>";
    let solid = |s: &str| s.chars().filter(|c| !c.is_whitespace()).collect::<String>();
    assert_eq!(solid(&format_xml(body)), solid(body));
}

#[test]
fn imported_headers_are_trimmed_and_named() {
    let request = parse("curl api.test -H '  X-A :  b  ' -H ':nameless' -H 'no colon' -A ' agent '").unwrap();
    let pairs: Vec<(String, String)> =
        request.headers.iter().map(|h| (h.name.clone(), h.value.clone())).collect();
    assert_eq!(
        pairs,
        vec![("X-A".to_owned(), "b".to_owned()), ("User-Agent".to_owned(), "agent".to_owned())]
    );
}

#[test]
fn ids_are_two_hex_runs_joined_by_a_dash() {
    let id = new_id(0xdead_beef, 42);
    assert_eq!(id, "deadbeef-2a");
    let (a, b) = id.split_once('-').unwrap();
    assert!(!a.is_empty() && !b.is_empty());
    assert!(a.chars().chain(b.chars()).all(|c| c.is_ascii_hexdigit() && !c.is_ascii_uppercase()));
}

#[test]
fn tabs_are_found_by_their_distinct_ids() {
    let mut app = app_with(vec![]);
    app.update(Message::TabAddRequested, "tab-1".to_owned());
    app.update(Message::TabAddRequested, "tab-2".to_owned());
    let ids: Vec<String> = app.tabs().iter().map(|t| t.id.clone()).collect();
    assert_eq!(ids, vec!["tab-0", "tab-1", "tab-2"]);
    app.update(Message::TabSelected("tab-1".to_owned()), "tab-3".to_owned());
    assert_eq!(app.active_index(), 1);
}
