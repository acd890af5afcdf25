use ks_notes::db::memos::{
    can_view, can_view_considering_state, export_attachment, export_tag_values,
    imported_attachment_bytes, import_action, import_content, list_plan, page_from_rows, Feed,
    Filter, ImportAction, ImportSummary, MemoQuery,
};
use ks_notes::db::pending_migrations;
use ks_notes::db::sections::{plan_note_move, section_name, MoveDest, MovePlan};
use ks_notes::auth::SESSION_TTL_SECS;
use ks_notes::db::sessions::needs_extension;
use ks_notes::db::settings::{
    allow_registration_from, registration_open, registration_value, ALLOW_REGISTRATION,
};
use ks_notes::db::sql_placeholders;
use ks_notes::db::tokens::token_name;
use ks_notes::db::users::{register_step, registered_user, RegisterOutcome, RegisterStep};
use ks_notes::error::AppError;
use ks_notes::models::{
    ExportAttachment, ExportNote, Memo, MemoOrigin, MemoState, Role, User, Visibility,
};

fn memo(id: i64, owner: i64, visibility: Visibility, state: MemoState) -> Memo {
    Memo {
        id,
        uid: format!("uid{id}"),
        uuid: format!("uuid{id}"),
        user_id: owner,
        username: "owner".to_string(),
        content: "hello".to_string(),
        visibility,
        pinned: false,
        state,
        origin: MemoOrigin::Local,
        section_id: None,
        created_at: 100 + id,
        updated_at: 100 + id,
    }
}

fn user(id: i64) -> User {
    User { id, username: format!("u{id}"), role: Role::User }
}

fn query(feed: Feed) -> MemoQuery {
    MemoQuery { feed, tag: None, search: None, created_range: None, before: None, limit: 20 }
}

#[test]
fn first_user_becomes_admin() {
    assert_eq!(register_step(0, false, false), RegisterStep::Create(Role::Admin));
    assert_eq!(register_step(0, true, false), RegisterStep::Create(Role::Admin));
    assert_eq!(register_step(1, true, false), RegisterStep::Create(Role::User));
    assert_eq!(register_step(3, false, false), RegisterStep::Closed);
    assert_eq!(register_step(3, false, true), RegisterStep::Closed);
    assert_eq!(register_step(3, true, true), RegisterStep::Taken);
    assert_eq!(register_step(0, false, true), RegisterStep::Taken);
}

#[test]
fn registered_user_carries_its_fields() {
    match registered_user(7, "bob".to_string(), Role::User) {
        RegisterOutcome::Created(u) => {
            assert_eq!(u.id, 7);
            assert_eq!(u.username, "bob");
            assert_eq!(u.role, Role::User);
            assert!(!u.is_admin());
        }
        _ => panic!("expected a created user"),
    }
}

#[test]
fn registration_setting() {
    assert_eq!(ALLOW_REGISTRATION, "allow_registration");
    assert!(allow_registration_from(Some("true")));
    assert!(!allow_registration_from(Some("false")));
    assert!(!allow_registration_from(Some("TRUE")));
    assert!(!allow_registration_from(None));
    assert!(registration_open(0, false));
    assert!(!registration_open(2, false));
    assert!(registration_open(2, true));
    assert_eq!(registration_value("true"), "true");
    assert_eq!(registration_value("on"), "false");
    assert_eq!(registration_value(""), "false");
}

#[test]
fn sessions_extend_in_their_second_half() {
    assert_eq!(SESSION_TTL_SECS, 30 * 24 * 3600);
    let now = 1_000_000;
    assert!(!needs_extension(now + SESSION_TTL_SECS, now));
    assert!(!needs_extension(now + SESSION_TTL_SECS / 2, now));
    assert!(needs_extension(now + SESSION_TTL_SECS / 2 - 1, now));
    assert!(needs_extension(now - 5, now));
}

#[test]
fn token_names_are_trimmed_and_capped() {
    assert_eq!(token_name("  laptop  ").unwrap(), "laptop");
    let long = "x".repeat(100);
    assert_eq!(token_name(&long).unwrap(), "x".repeat(64));
    match token_name("   ") {
        Err(AppError::BadRequest(m)) => assert_eq!(m, "Token name is required"),
        other => panic!("unexpected {other:?}"),
    }
}

#[test]
fn section_names_are_trimmed() {
    assert_eq!(section_name(" Work ").unwrap(), "Work");
    match section_name("\t \n") {
        Err(AppError::BadRequest(m)) => assert_eq!(m, "Section name can't be empty"),
        other => panic!("unexpected {other:?}"),
    }
}

#[test]
fn move_destinations_parse() {
    assert_eq!(MoveDest::parse(""), MoveDest::Home);
    assert_eq!(MoveDest::parse("home"), MoveDest::Home);
    assert_eq!(MoveDest::parse("imported"), MoveDest::KeepImported);
    assert_eq!(MoveDest::parse("42"), MoveDest::Section(42));
    assert_eq!(MoveDest::parse("-3"), MoveDest::Section(-3));
    assert_eq!(MoveDest::parse("abc"), MoveDest::Home);
}

#[test]
fn note_moves() {
    assert!(matches!(plan_note_move(MoveDest::KeepImported, true, false, true), Ok(MovePlan::Stay)));
    assert!(matches!(plan_note_move(MoveDest::Home, false, false, false), Ok(MovePlan::File(None))));
    assert!(matches!(
        plan_note_move(MoveDest::Section(5), false, true, false),
        Ok(MovePlan::File(Some(5)))
    ));
    match plan_note_move(MoveDest::Section(5), false, false, false) {
        Err(AppError::BadRequest(m)) => assert_eq!(m, "Unknown section"),
        other => panic!("unexpected {other:?}"),
    }
    match plan_note_move(MoveDest::Home, true, false, true) {
        Err(AppError::BadRequest(m)) => assert_eq!(m, "A local note with this id already exists"),
        other => panic!("unexpected {other:?}"),
    }
    assert!(matches!(plan_note_move(MoveDest::Home, true, false, false), Ok(MovePlan::File(None))));
}

#[test]
fn placeholders_and_migrations() {
    assert_eq!(sql_placeholders(0), "");
    assert_eq!(sql_placeholders(1), "?");
    assert_eq!(sql_placeholders(3), "?,?,?");
    assert_eq!(pending_migrations(0, 4), (0, 4));
    assert_eq!(pending_migrations(2, 4), (2, 4));
    assert_eq!(pending_migrations(4, 4), (4, 4));
    assert_eq!(pending_migrations(9, 4), (4, 4));
    assert_eq!(pending_migrations(-1, 4), (4, 4));
}

#[test]
fn visibility_matrix() {
    let owner = user(1);
    let other = user(2);
    for (vis, anon, signed, own) in [
        (Visibility::Public, true, true, true),
        (Visibility::Protected, false, true, true),
        (Visibility::Private, false, false, true),
    ] {
        let m = memo(1, 1, vis, MemoState::Normal);
        assert_eq!(can_view(&m, None), anon);
        assert_eq!(can_view(&m, Some(&other)), signed);
        assert_eq!(can_view(&m, Some(&owner)), own);
        assert_eq!(can_view_considering_state(&m, None), anon);
        assert_eq!(can_view_considering_state(&m, Some(&other)), signed);
        let archived = memo(1, 1, vis, MemoState::Archived);
        assert!(!can_view_considering_state(&archived, None));
        assert!(!can_view_considering_state(&archived, Some(&other)));
        assert!(can_view_considering_state(&archived, Some(&owner)));
    }
}

#[test]
fn unfiltered_own_feed_plan() {
    let plan = list_plan(&query(Feed::Own(7)));
    assert_eq!(plan.filters.len(), 2);
    assert!(matches!(plan.filters[0], Filter::OwnActive(7)));
    assert!(matches!(plan.filters[1], Filter::NotPinned));
    assert_eq!(plan.pinned_for, Some(7));
    assert_eq!(plan.fetch, 21);
}

#[test]
fn filtered_feed_plan() {
    let mut q = query(Feed::Own(7));
    q.tag = Some("Rust".to_string());
    q.search = Some("  foo \"bar\"  ".to_string());
    q.created_range = Some((10, 20));
    q.before = Some((15, 3));
    q.limit = 5;
    let plan = list_plan(&q);
    assert_eq!(plan.filters.len(), 5);
    assert!(matches!(plan.filters[0], Filter::OwnActive(7)));
    match &plan.filters[1] {
        Filter::Tag(t) => assert_eq!(t, "rust"),
        _ => panic!("expected a tag filter"),
    }
    match &plan.filters[2] {
        Filter::Search(s) => assert_eq!(s, "\"foo\" \"\"\"bar\"\"\""),
        _ => panic!("expected a search filter"),
    }
    assert!(matches!(plan.filters[3], Filter::CreatedIn(10, 20)));
    assert!(matches!(plan.filters[4], Filter::Before(15, 3)));
    assert_eq!(plan.pinned_for, None);
    assert_eq!(plan.fetch, 6);
}

#[test]
fn later_own_page_has_no_pinned_block() {
    let mut q = query(Feed::Own(7));
    q.before = Some((15, 3));
    let plan = list_plan(&q);
    assert!(matches!(plan.filters.last(), Some(Filter::NotPinned)));
    assert_eq!(plan.pinned_for, None);
}

#[test]
fn explore_and_archive_plans() {
    let plan = list_plan(&query(Feed::Explore { signed_in: true }));
    assert_eq!(plan.filters.len(), 1);
    assert!(matches!(plan.filters[0], Filter::Shared { signed_in: true }));
    assert_eq!(plan.pinned_for, None);
    let plan = list_plan(&query(Feed::Archive(3)));
    assert!(matches!(plan.filters[0], Filter::OwnArchived(3)));
    let plan = list_plan(&query(Feed::Imported(3)));
    assert!(matches!(plan.filters[0], Filter::ImportedActive(3)));
    assert_eq!(plan.filters.len(), 1);
}

#[test]
fn page_cut_and_has_more() {
    let rows: Vec<Memo> = (0..4).map(|i| memo(i, 1, Visibility::Public, MemoState::Normal)).collect();
    let page = page_from_rows(vec![], rows.clone(), 3);
    assert_eq!(page.memos.len(), 3);
    assert!(page.has_more);
    assert_eq!(page.memos[2].id, 2);
    let page = page_from_rows(vec![], rows.clone(), 4);
    assert_eq!(page.memos.len(), 4);
    assert!(!page.has_more);
    let pinned = vec![memo(9, 1, Visibility::Public, MemoState::Normal)];
    let page = page_from_rows(pinned, rows, 10);
    assert_eq!(page.pinned.len(), 1);
    assert_eq!(page.pinned[0].id, 9);
    assert!(!page.has_more);
}

#[test]
fn export_tags_are_lowercased() {
    let tags = vec!["Rust".to_string(), "inbox".to_string(), "ÄB".to_string()];
    assert_eq!(export_tag_values(&tags), vec!["rust", "inbox", "Äb"]);
    assert!(export_tag_values(&vec![]).is_empty());
}

#[test]
fn attachments_survive_export_and_import() {
    let att = export_attachment(
        "abc123DEF456".to_string(),
        "a.png".to_string(),
        "image/png".to_string(),
        5,
        b"hello",
    );
    assert_eq!(att.data, "aGVsbG8=");
    assert_eq!(att.filename, "a.png");
    let (bytes, size) = imported_attachment_bytes(&att).unwrap();
    assert_eq!(bytes, b"hello");
    assert_eq!(size, 5);
    let bad = ExportAttachment { data: "%%%".to_string(), ..att };
    assert!(imported_attachment_bytes(&bad).is_none());
}

#[test]
fn import_dedup_rules() {
    assert_eq!(import_action(&None, 10, false), ImportAction::Insert);
    let local = Some((4, "local".to_string(), 5));
    assert_eq!(import_action(&local, 10, true), ImportAction::Skip);
    let imported = Some((4, "imported".to_string(), 5));
    assert_eq!(import_action(&imported, 10, false), ImportAction::Overwrite(4));
    assert_eq!(import_action(&imported, 5, false), ImportAction::Skip);
    assert_eq!(import_action(&imported, 1, true), ImportAction::Overwrite(4));
}

fn note(content: &str, uuid: &str, atts: Vec<&str>) -> ExportNote {
    ExportNote {
        uuid: uuid.to_string(),
        content: content.to_string(),
        visibility: Visibility::Private,
        created_at: 1,
        updated_at: 2,
        attachments: atts
            .into_iter()
            .map(|uid| ExportAttachment {
                uid: uid.to_string(),
                filename: "f".to_string(),
                content_type: "text/plain".to_string(),
                created_at: 1,
                data: String::new(),
            })
            .collect(),
    }
}

#[test]
fn import_content_retokens_attachments() {
    let n = note("  see {{attach:OLD}} and {{attach:OLD}}  ", "u-1", vec!["OLD", ""]);
    let new_uids = vec!["NEW1".to_string(), "NEW2".to_string()];
    assert_eq!(
        import_content(&n, &new_uids),
        Some("see {{attach:NEW1}} and {{attach:NEW1}}\n\n{{attach:NEW2}}".to_string())
    );
    let plain = note("text", "u-2", vec!["GONE"]);
    assert_eq!(
        import_content(&plain, &vec!["X".to_string()]),
        Some("text\n\n{{attach:X}}".to_string())
    );
    assert_eq!(import_content(&note("   ", "u-3", vec![]), &vec![]), None);
    assert_eq!(import_content(&note("body", "  ", vec![]), &vec![]), None);
}

#[test]
fn import_summary_counts_each_note_once() {
    let mut s = ImportSummary::default();
    s.record(ImportAction::Insert);
    s.record(ImportAction::Insert);
    s.record(ImportAction::Overwrite(3));
    s.record(ImportAction::Skip);
    assert_eq!((s.inserted, s.updated, s.skipped), (2, 1, 1));
}

#[test]
fn second_import_of_a_file_skips_every_note() {
    // A file with two notes under one uuid (newer first) and one fresh note.
    let notes: Vec<(&str, i64)> = vec![("a", 5), ("a", 3), ("b", 7)];
    let mut rows: Vec<(String, (i64, String, i64))> = Vec::new();
    let mut next_id: i64 = 1;
    let mut run = |rows: &mut Vec<(String, (i64, String, i64))>| {
        let mut summary = ImportSummary { inserted: 0, updated: 0, skipped: 0 };
        for (uuid, updated) in &notes {
            let existing = rows.iter().find(|r| r.0 == *uuid).map(|r| r.1.clone());
            let action = import_action(&existing, *updated, false);
            match action {
                ImportAction::Insert => {
                    rows.push((uuid.to_string(), (next_id, "imported".to_string(), *updated)));
                    next_id += 1;
                }
                ImportAction::Overwrite(id) => {
                    let row = rows.iter_mut().find(|r| r.1 .0 == id).unwrap();
                    row.1 .2 = *updated;
                }
                ImportAction::Skip => {}
            }
            summary.record(action);
        }
        summary
    };
    let first = run(&mut rows);
    assert_eq!((first.inserted, first.updated, first.skipped), (2, 0, 1));
    let after_first = rows.clone();
    let second = run(&mut rows);
    assert_eq!((second.inserted, second.updated, second.skipped), (0, 0, 3));
    assert_eq!(rows, after_first);
}
