use ks_notes::db::memos::{LinkRef, LinkTarget};
use ks_notes::models::{Memo, MemoOrigin, MemoState, ResourceMeta, Role, User, Visibility};
use ks_notes::views::{
    activity_grid, format_times, level_of, link_ref_pairs, memo_view, upload_limit_label,
    MAX_JULIAN_DAY, MIN_JULIAN_DAY,
};

fn julian(y: i32, m: time::Month, d: u8) -> i32 {
    time::Date::from_calendar_date(y, m, d).unwrap().to_julian_day()
}

fn memo(content: &str, owner: i64, visibility: Visibility) -> Memo {
    Memo {
        id: 5,
        uid: "AbCdEf123456".to_string(),
        uuid: "aaaaaaaa-aaaa-4aaa-8aaa-aaaaaaaaaaaa".to_string(),
        user_id: owner,
        username: "ann".to_string(),
        content: content.to_string(),
        visibility,
        pinned: true,
        state: MemoState::Normal,
        origin: MemoOrigin::Local,
        section_id: Some(4),
        created_at: 0,
        updated_at: 0,
    }
}

#[test]
fn upload_limit_labels() {
    assert_eq!(upload_limit_label(0), "no size limit");
    assert_eq!(upload_limit_label(32), "max 32 MB");
    assert_eq!(upload_limit_label(1), "max 1 MB");
}

#[test]
fn formats_timestamps() {
    assert_eq!(
        format_times(0),
        ("1970-01-01T00:00:00Z".to_string(), "1970-01-01 00:00 UTC".to_string())
    );
    assert_eq!(
        format_times(1_700_000_000),
        ("2023-11-14T22:13:20Z".to_string(), "2023-11-14 22:13 UTC".to_string())
    );
    // Out of `time`'s range: the epoch stands in.
    assert_eq!(format_times(i64::MAX).1, "1970-01-01 00:00 UTC");
}

#[test]
fn activity_levels() {
    let expected = [(0, 0), (1, 1), (2, 2), (3, 2), (4, 3), (6, 3), (7, 4), (500, 4), (-1, 4)];
    for (count, level) in expected {
        assert_eq!(level_of(count), level, "count {count}");
    }
}

#[test]
fn julian_day_range_matches_time() {
    assert_eq!(MIN_JULIAN_DAY, time::Date::MIN.to_julian_day());
    assert_eq!(MAX_JULIAN_DAY, time::Date::MAX.to_julian_day());
}

#[test]
fn activity_grid_covers_a_year_of_weeks() {
    let today = julian(2024, time::Month::January, 10);
    let counts = vec![
        ("2024-01-10".to_string(), 2),
        ("2023-01-08".to_string(), 1),
        ("2022-12-31".to_string(), 5),
        ("2024-01-11".to_string(), 9),
    ];
    let grid = activity_grid(&counts, today);
    assert_eq!(grid.weeks, 53);
    assert_eq!(grid.months.len(), 53);
    assert_eq!(grid.cells.len(), 7 * 53);
    assert_eq!(grid.total, 3);
    // Starts on the Sunday of the week 52 weeks back.
    assert_eq!(grid.cells[0].date, "2023-01-08");
    assert_eq!(grid.cells[0].count, 1);
    assert_eq!(grid.cells[0].level, 1);
    assert_eq!(grid.cells[0].label, "1 note on 2023-01-08");
    assert_eq!(grid.cells[1].label, "0 notes on 2023-01-09");
    // Today is the Wednesday of the last column; the rest is padding.
    let last = 52 * 7;
    assert_eq!(grid.cells[last + 3].date, "2024-01-10");
    assert_eq!(grid.cells[last + 3].count, 2);
    assert_eq!(grid.cells[last + 3].level, 2);
    assert_eq!(grid.cells[last + 3].label, "2 notes on 2024-01-10");
    for k in last + 4..last + 7 {
        assert_eq!(grid.cells[k].date, "");
        assert_eq!(grid.cells[k].count, 0);
        assert_eq!(grid.cells[k].label, "");
    }
    // Month labels only where a week starts a new month.
    assert_eq!(grid.months[0].name, "Jan");
    assert_eq!(grid.months[1].name, "");
    assert_eq!(grid.months[4].name, "Feb");
    assert_eq!(grid.months[52].name, "Jan");
    assert_eq!(grid.months.iter().filter(|m| !m.name.is_empty()).count(), 13);
}

#[test]
fn memo_view_resolves_permissions_and_links() {
    let target_uuid = "bbbbbbbb-bbbb-4bbb-8bbb-bbbbbbbbbbbb";
    let m = memo(
        &format!("see {{{{memo:{target_uuid}}}}}\n\n{{{{attach:IMG000000001}}}}"),
        1,
        Visibility::Protected,
    );
    let refs = vec![LinkRef {
        author_id: 1,
        uuid: target_uuid.to_string(),
        target: LinkTarget {
            uid: "Target000001".to_string(),
            visibility: Visibility::Private,
            content: "# Secret plan\nbody".to_string(),
        },
    }];
    let atts = vec![ResourceMeta {
        uid: "IMG000000001".to_string(),
        filename: "p.png".to_string(),
        content_type: "image/png".to_string(),
        size: 3,
    }];
    let owner = User { id: 1, username: "ann".to_string(), role: Role::User };
    let other = User { id: 2, username: "bob".to_string(), role: Role::User };

    let v = memo_view(&m, Some(&owner), atts.clone(), &refs);
    assert_eq!(v.id, 5);
    assert_eq!(v.uid, "AbCdEf123456");
    assert_eq!(v.link_token, "{{memo:aaaaaaaa-aaaa-4aaa-8aaa-aaaaaaaaaaaa}}");
    assert_eq!(v.visibility, "protected");
    assert!(v.pinned);
    assert!(!v.archived);
    assert!(v.can_edit);
    assert_eq!(v.section_id, Some(4));
    assert!(!v.is_imported);
    assert_eq!(v.created_iso, "1970-01-01T00:00:00Z");
    assert_eq!(v.created_display, "1970-01-01 00:00 UTC");
    assert!(v.html.contains("<a class=\"memo-link\" href=\"/m/Target000001\">Secret plan</a>"));
    assert!(v.html.contains("src=\"/r/IMG000000001\""));

    let v = memo_view(&m, Some(&other), atts, &refs);
    assert!(!v.can_edit);
    assert!(v.html.contains("memo-link-locked"));
    assert!(!v.html.contains("Secret plan"));

    let v = memo_view(&m, None, vec![], &[]);
    assert!(v.html.contains("memo-link-broken"));
    assert!(!v.html.contains("{{"));
}

#[test]
fn link_pairs_follow_memo_order() {
    let a = "11111111-1111-4111-8111-111111111111";
    let b = "22222222-2222-4222-8222-222222222222";
    let m1 = memo(&format!("{{{{memo:{a}}}}} {{{{memo:{b}}}}}"), 1, Visibility::Public);
    let m2 = memo(&format!("x {{{{memo:{a}}}}}"), 2, Visibility::Public);
    assert_eq!(
        link_ref_pairs(&[m1, m2]),
        vec![(1, a.to_string()), (1, b.to_string()), (2, a.to_string())]
    );
}
