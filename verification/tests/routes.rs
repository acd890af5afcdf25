use ks_notes::db::memos::{Feed, ImportSummary, TagScope};
use ks_notes::error::AppError;
use ks_notes::models::{ExportNote, Memo, MemoOrigin, MemoState, Role, User, Visibility};
use ks_notes::routes::api::{
    api_memos, create_memo_input, list_query, own_memo, patch_plan, ApiError, CreateBody,
    ListParams, PatchBody,
};
use ks_notes::routes::auth_routes::{
    check_registration, login_route, register_route, LoginRoute, RegisterForm, RegisterRoute,
};
use ks_notes::routes::export_routes::{
    download_form, export_file, import_message, overwrite_flag, require_export_tags,
};
use ks_notes::routes::max_body_bytes;
use ks_notes::routes::memo_routes::{parse_form, sidebar_plan, MemoForm, MAX_MEMO_BYTES};
use ks_notes::routes::pages::{
    feed_response_kind, next_before, parse_before, search_param, tag_param, FeedResponse,
    PAGE_SIZE,
};
use ks_notes::routes::resource_routes::{
    blob_allowed, inline_safe, sanitize_filename, serve_headers, upload_answer, upload_entry,
};
use ks_notes::routes::sections_routes::section_path;
use ks_notes::routes::settings_routes::{check_new_password, PasswordForm};

fn memo(owner: i64, visibility: Visibility, state: MemoState, pinned: bool) -> Memo {
    Memo {
        id: 1,
        uid: "uid000000001".to_string(),
        uuid: "u".to_string(),
        user_id: owner,
        username: "ann".to_string(),
        content: "old text".to_string(),
        visibility,
        pinned,
        state,
        origin: MemoOrigin::Local,
        section_id: None,
        created_at: 10,
        updated_at: 20,
    }
}

fn params(limit: Option<i64>) -> ListParams {
    ListParams { q: None, tag: None, state: None, limit, before: None }
}

#[test]
fn cursor_round_trip() {
    assert_eq!(PAGE_SIZE, 20);
    assert_eq!(parse_before("1700000000,42"), Some((1700000000, 42)));
    assert_eq!(parse_before("-5,-1"), Some((-5, -1)));
    assert_eq!(parse_before("1,2,3"), None);
    assert_eq!(parse_before("12"), None);
    assert_eq!(parse_before("a,1"), None);
    assert_eq!(parse_before(",1"), None);
    let c = next_before(true, Some((i64::MIN, i64::MAX))).unwrap();
    assert_eq!(c, "-9223372036854775808,9223372036854775807");
    assert_eq!(parse_before(&c), Some((i64::MIN, i64::MAX)));
    assert_eq!(next_before(false, Some((1, 2))), None);
    assert_eq!(next_before(true, None), None);
}

#[test]
fn feed_parameters() {
    assert_eq!(search_param(&Some("  hello world ".to_string())), Some("hello world".to_string()));
    assert_eq!(search_param(&Some("   ".to_string())), None);
    assert_eq!(search_param(&None), None);
    assert_eq!(tag_param(&Some(" Rust ".to_string())), Some("rust".to_string()));
    assert_eq!(tag_param(&Some("".to_string())), None);
}

#[test]
fn feed_fragments() {
    assert_eq!(feed_response_kind(true, false, true), FeedResponse::Items);
    assert_eq!(feed_response_kind(true, false, false), FeedResponse::List);
    assert_eq!(feed_response_kind(true, true, true), FeedResponse::Page);
    assert_eq!(feed_response_kind(false, false, true), FeedResponse::Page);
}

#[test]
fn api_list_limits() {
    assert_eq!(list_query(1, &params(None)).limit, 20);
    assert_eq!(list_query(1, &params(Some(0))).limit, 1);
    assert_eq!(list_query(1, &params(Some(-7))).limit, 1);
    assert_eq!(list_query(1, &params(Some(55))).limit, 55);
    assert_eq!(list_query(1, &params(Some(101))).limit, 100);
    assert_eq!(list_query(1, &params(Some(i64::MAX))).limit, 100);
}

#[test]
fn api_list_query() {
    let p = ListParams {
        q: Some("hello".to_string()),
        tag: Some(String::new()),
        state: Some("archived".to_string()),
        limit: None,
        before: Some("5,6".to_string()),
    };
    let q = list_query(9, &p);
    assert_eq!(q.feed, Feed::Archive(9));
    assert_eq!(q.search, Some("hello".to_string()));
    assert_eq!(q.tag, None);
    assert_eq!(q.created_range, None);
    assert_eq!(q.before, Some((5, 6)));
    let q = list_query(9, &ListParams { state: Some("normal".to_string()), ..params(None) });
    assert_eq!(q.feed, Feed::Own(9));
    let q = list_query(9, &ListParams { before: Some("bad".to_string()), ..params(None) });
    assert_eq!(q.before, None);
}

#[test]
fn api_create_body() {
    let body = CreateBody { content: "  hi #x ".to_string(), visibility: Some("public".to_string()) };
    let (c, v) = create_memo_input(&body).unwrap();
    assert_eq!(c, "hi #x");
    assert_eq!(v, Visibility::Public);
    let body = CreateBody { content: "hi".to_string(), visibility: Some("everyone".to_string()) };
    assert_eq!(create_memo_input(&body).unwrap().1, Visibility::Private);
    let body = CreateBody { content: "hi".to_string(), visibility: None };
    assert_eq!(create_memo_input(&body).unwrap().1, Visibility::Private);
    let body = CreateBody { content: " \n ".to_string(), visibility: None };
    match create_memo_input(&body) {
        Err(AppError::BadRequest(m)) => assert_eq!(m, "content is required"),
        other => panic!("unexpected {other:?}"),
    }
}

#[test]
fn api_ownership() {
    assert_eq!(own_memo(memo(3, Visibility::Public, MemoState::Normal, false), 3).unwrap().user_id, 3);
    assert!(matches!(
        own_memo(memo(3, Visibility::Public, MemoState::Normal, false), 4),
        Err(AppError::NotFound)
    ));
    let e: ApiError = AppError::Forbidden.into();
    assert_eq!(e.0.status(), 403);
}

#[test]
fn api_patch_plans() {
    let m = memo(1, Visibility::Private, MemoState::Normal, false);
    let none = PatchBody { content: None, visibility: None, pinned: None, state: None };
    let p = patch_plan(&m, &none).unwrap();
    assert!(p.update.is_none() && !p.toggle_pin && !p.toggle_archived);

    let pin = PatchBody { pinned: Some(true), ..none };
    let p = patch_plan(&m, &pin).unwrap();
    assert!(p.toggle_pin && p.update.is_none());
    let same_pin = PatchBody { content: None, visibility: None, pinned: Some(false), state: None };
    assert!(!patch_plan(&m, &same_pin).unwrap().toggle_pin);

    let vis = PatchBody { content: None, visibility: Some("public".to_string()), pinned: None, state: None };
    let p = patch_plan(&m, &vis).unwrap();
    assert_eq!(p.update, Some(("old text".to_string(), Visibility::Public)));

    let text = PatchBody { content: Some(" new ".to_string()), visibility: None, pinned: None, state: None };
    let p = patch_plan(&m, &text).unwrap();
    assert_eq!(p.update, Some(("new".to_string(), Visibility::Private)));

    let archive = PatchBody { content: None, visibility: None, pinned: None, state: Some("archived".to_string()) };
    assert!(patch_plan(&m, &archive).unwrap().toggle_archived);
    let bogus = PatchBody { content: None, visibility: None, pinned: None, state: Some("gone".to_string()) };
    assert!(!patch_plan(&m, &bogus).unwrap().toggle_archived);

    let blank = PatchBody { content: Some("  ".to_string()), visibility: None, pinned: Some(true), state: None };
    match patch_plan(&m, &blank) {
        Err(AppError::BadRequest(msg)) => assert_eq!(msg, "content can't be empty"),
        _ => panic!("blank content must be refused"),
    }
}

#[test]
fn api_memos_put_pinned_first() {
    let mut p = memo(1, Visibility::Public, MemoState::Normal, true);
    p.uid = "pinned000001".to_string();
    let mut a = memo(1, Visibility::Public, MemoState::Normal, false);
    a.uid = "plain0000001".to_string();
    let mut b = memo(1, Visibility::Private, MemoState::Archived, false);
    b.uid = "plain0000002".to_string();
    let out = api_memos(vec![p], vec![a, b]);
    let uids: Vec<&str> = out.iter().map(|m| m.uid.as_str()).collect();
    assert_eq!(uids, vec!["pinned000001", "plain0000001", "plain0000002"]);
    assert!(out[0].pinned);
    assert_eq!(out[2].state, MemoState::Archived);
    assert_eq!(out[2].visibility, Visibility::Private);
    assert_eq!((out[1].created_at, out[1].updated_at), (10, 20));
}

fn reg(u: &str, p: &str, c: &str) -> RegisterForm {
    RegisterForm { username: u.to_string(), password: p.to_string(), password_confirm: c.to_string() }
}

#[test]
fn registration_form_checks() {
    assert_eq!(check_registration(&reg("  ann_1.x-y ", "password1", "password1")), Ok("ann_1.x-y".to_string()));
    let bad_name = "Username must be 3–32 characters: letters, digits, _ . -";
    assert_eq!(check_registration(&reg("an", "password1", "password1")), Err(bad_name));
    assert_eq!(check_registration(&reg("ann!", "password1", "password1")), Err(bad_name));
    assert_eq!(check_registration(&reg(&"a".repeat(33), "password1", "password1")), Err(bad_name));
    assert_eq!(
        check_registration(&reg("ann", "short", "short")),
        Err("Password must be at least 8 characters")
    );
    // Eight bytes, fewer characters.
    assert_eq!(check_registration(&reg("ann", "ééééé", "ééééé")), Ok("ann".to_string()));
    assert_eq!(check_registration(&reg("ann", "password1", "password2")), Err("Passwords don't match"));
}

#[test]
fn auth_page_routing() {
    assert_eq!(login_route(true, 0), LoginRoute::Home);
    assert_eq!(login_route(false, 0), LoginRoute::Register);
    assert_eq!(login_route(false, 4), LoginRoute::Show);
    assert_eq!(register_route(true, true, 0), RegisterRoute::Home);
    assert_eq!(register_route(false, false, 4), RegisterRoute::Forbidden);
    assert_eq!(register_route(false, true, 0), RegisterRoute::Show { first_user: true });
    assert_eq!(register_route(false, true, 4), RegisterRoute::Show { first_user: false });
}

#[test]
fn password_change_checks() {
    let form = |n: &str, c: &str| PasswordForm {
        csrf_token: String::new(),
        current_password: "old".to_string(),
        new_password: n.to_string(),
        new_password_confirm: c.to_string(),
    };
    assert_eq!(check_new_password(&form("1234567", "1234567")), Err("New password must be at least 8 characters"));
    assert_eq!(check_new_password(&form("12345678", "12345679")), Err("New passwords don't match"));
    assert_eq!(check_new_password(&form("12345678", "12345678")), Ok(()));
}

#[test]
fn memo_form_checks() {
    assert_eq!(MAX_MEMO_BYTES, 100_000);
    let form = |c: String, v: Option<&str>| MemoForm {
        content: c,
        visibility: v.map(|s| s.to_string()),
        section_id: None,
        section: None,
    };
    let (c, v) = parse_form(&form("  body ".to_string(), Some("protected"))).unwrap();
    assert_eq!((c.as_str(), v), ("body", Visibility::Protected));
    assert_eq!(parse_form(&form("x".to_string(), Some("nope"))).unwrap().1, Visibility::Private);
    assert_eq!(parse_form(&form("x".repeat(100_000), None)).unwrap().0.len(), 100_000);
    match parse_form(&form("x".repeat(100_001), None)) {
        Err(AppError::BadRequest(m)) => assert_eq!(m, "Memo is too long"),
        other => panic!("unexpected {other:?}"),
    }
    match parse_form(&form(" \t".to_string(), None)) {
        Err(AppError::BadRequest(m)) => assert_eq!(m, "Memo content can't be empty"),
        other => panic!("unexpected {other:?}"),
    }
}

#[test]
fn sidebar_after_edit() {
    let p = sidebar_plan(MemoOrigin::Imported, Some(3));
    assert_eq!((p.scope, p.label.as_deref(), p.path.as_str()), (TagScope::Imported, Some("Imported"), "/imported"));
    let p = sidebar_plan(MemoOrigin::Local, Some(3));
    assert_eq!((p.scope, p.label, p.path.as_str()), (TagScope::Section(3), None, "/s/3"));
    let p = sidebar_plan(MemoOrigin::Local, None);
    assert_eq!((p.scope, p.label.as_deref(), p.path.as_str()), (TagScope::Home, Some("Home"), "/"));
    assert_eq!(section_path(-2), "/s/-2");
}

#[test]
fn filenames_are_sanitized() {
    assert_eq!(sanitize_filename("../../etc/passwd"), "passwd");
    assert_eq!(sanitize_filename("C:\\Users\\me\\report.pdf"), "report.pdf");
    assert_eq!(sanitize_filename("a\"b;c\u{7}.txt"), "abc.txt");
    assert_eq!(sanitize_filename("dir/"), "file");
    assert_eq!(sanitize_filename("   "), "file");
    assert_eq!(sanitize_filename(""), "file");
    assert_eq!(sanitize_filename(&"y".repeat(200)), "y".repeat(120));
    assert_eq!(sanitize_filename(" spaced name "), " spaced name ");
}

#[test]
fn unsafe_types_download() {
    assert!(inline_safe("image/png"));
    assert!(inline_safe("application/pdf"));
    assert!(!inline_safe("image/svg+xml"));
    assert!(!inline_safe("text/html"));
    assert_eq!(
        serve_headers("image/png", "a.png"),
        ("image/png".to_string(), "inline; filename=\"a.png\"".to_string())
    );
    assert_eq!(
        serve_headers("text/html", "x.html"),
        ("application/octet-stream".to_string(), "attachment; filename=\"x.html\"".to_string())
    );
}

#[test]
fn blob_access_follows_the_memo() {
    let owner = User { id: 1, username: "a".to_string(), role: Role::User };
    let other = User { id: 2, username: "b".to_string(), role: Role::Admin };
    let public = memo(1, Visibility::Public, MemoState::Normal, false);
    let archived = memo(1, Visibility::Public, MemoState::Archived, false);
    assert!(blob_allowed(1, Some(&public), None));
    assert!(!blob_allowed(1, Some(&archived), Some(&other)));
    assert!(blob_allowed(1, Some(&archived), Some(&owner)));
    assert!(blob_allowed(1, None, Some(&owner)));
    assert!(!blob_allowed(1, None, Some(&other)));
    assert!(!blob_allowed(1, None, None));
}

#[test]
fn export_form_and_messages() {
    let pairs = vec![
        ("csrf_token".to_string(), "first".to_string()),
        ("tags".to_string(), "Rust".to_string()),
        ("other".to_string(), "x".to_string()),
        ("tags".to_string(), "inbox".to_string()),
        ("csrf_token".to_string(), "last".to_string()),
    ];
    let (csrf, tags) = download_form(&pairs);
    assert_eq!(csrf, "last");
    assert_eq!(tags, vec!["Rust", "inbox"]);
    assert_eq!(download_form(&vec![]), (String::new(), vec![]));
    assert!(require_export_tags(&tags).is_ok());
    match require_export_tags(&vec![]) {
        Err(AppError::BadRequest(m)) => assert_eq!(m, "Select at least one hashtag to export"),
        other => panic!("unexpected {other:?}"),
    }
    let note = ExportNote {
        uuid: "u".to_string(),
        content: "c".to_string(),
        visibility: Visibility::Public,
        created_at: 1,
        updated_at: 1,
        attachments: vec![],
    };
    let f = export_file(vec![note]);
    assert_eq!(f.version, 3);
    assert_eq!(f.notes.len(), 1);
    assert!(overwrite_flag("true"));
    assert!(!overwrite_flag("on"));
    let s = ImportSummary { inserted: 3, updated: 0, skipped: 12 };
    assert_eq!(import_message(&s), "Imported 3 new, updated 0, skipped 12.");
}

#[test]
fn body_limit() {
    assert_eq!(max_body_bytes(0), usize::MAX);
    assert_eq!(max_body_bytes(32), 32 * 1024 * 1024);
}

#[test]
fn error_statuses_and_messages() {
    let cases = [
        (AppError::NotFound, 404, "Not found"),
        (AppError::Unauthorized, 401, "Please sign in"),
        (AppError::Forbidden, 403, "You don't have access to this"),
        (AppError::BadRequest("bad input".to_string()), 400, "bad input"),
        (AppError::Internal("db exploded".to_string()), 500, "Something went wrong on our side"),
    ];
    for (e, code, msg) in cases {
        assert_eq!(e.status(), code);
        assert_eq!(e.public_message(), msg);
    }
}

#[test]
fn api_patch_repeated_changes_nothing() {
    let m = memo(1, Visibility::Private, MemoState::Normal, false);
    let body = PatchBody {
        content: None,
        visibility: Some("public".to_string()),
        pinned: Some(true),
        state: None,
    };
    let p = patch_plan(&m, &body).unwrap();
    assert!(p.toggle_pin);
    assert_eq!(p.update, Some(("old text".to_string(), Visibility::Public)));
    let after = memo(1, Visibility::Public, MemoState::Normal, true);
    let q = patch_plan(&after, &body).unwrap();
    assert!(!q.toggle_pin && !q.toggle_archived);
    assert_eq!(q.update, Some(("old text".to_string(), Visibility::Public)));
}

#[test]
fn upload_fields_kept_and_skipped() {
    assert_eq!(
        upload_entry(Some("file"), Some("dir/a\"b.txt"), Some("text/plain"), 3),
        Some(("ab.txt".to_string(), "text/plain".to_string()))
    );
    assert_eq!(
        upload_entry(Some("file"), None, None, 1),
        Some(("file".to_string(), "application/octet-stream".to_string()))
    );
    assert_eq!(upload_entry(Some("other"), Some("a.txt"), None, 3), None);
    assert_eq!(upload_entry(None, Some("a.txt"), None, 3), None);
    assert_eq!(upload_entry(Some("file"), Some("a.txt"), None, 0), None);
}

#[test]
fn upload_without_files_is_refused() {
    assert_eq!(upload_answer("<chip>".to_string()).unwrap(), "<chip>");
    match upload_answer(String::new()) {
        Err(AppError::BadRequest(m)) => assert_eq!(m, "No files received"),
        _ => panic!("expected a refusal"),
    }
}
