use ks_notes::markdown::{
    excerpt, extract_attachment_refs, extract_memo_refs, extract_tags, render,
    render_with_attachments, render_with_inlines, InlineAttachment, InlineMemoLink,
};
use ks_notes::markdown::{collect_tags, is_url_text, substitute_attachments, substitute_memo_links};

#[test]
fn extracts_simple_tags() {
    assert_eq!(extract_tags("hello #work and #life/journal"), vec!["life/journal", "work"]);
}

#[test]
fn skips_code_and_headings() {
    // `#nope` is inside a code span; "# Heading" is a heading marker, not a tag.
    assert_eq!(extract_tags("# Heading\n`#nope` but #yes"), vec!["yes"]);
}

#[test]
fn requires_a_letter() {
    assert!(extract_tags("issue #123").is_empty());
}

#[test]
fn line_start_tag_is_a_tag_not_a_heading() {
    assert_eq!(extract_tags("a thought\n\n#jbudding"), vec!["jbudding"]);
    assert!(!render("a thought\n\n#jbudding").contains("<h1"));
}

#[test]
fn renders_escaped_html() {
    let html = render("<script>alert(1)</script>");
    assert!(!html.contains("<script>"));
}

#[test]
fn extracts_attachment_refs_in_order() {
    let refs = extract_attachment_refs("a {{attach:AbC123}} b {{attach:zzz999}} {{attach:AbC123}}");
    assert_eq!(refs, vec!["AbC123", "zzz999"]);
    // Empty placeholder carries no uid.
    assert!(extract_attachment_refs("text {{attach}} more").is_empty());
}

#[test]
fn extracts_memo_refs_in_order() {
    let a = "11111111-1111-4111-8111-111111111111";
    let b = "22222222-2222-4222-8222-222222222222";
    let refs = extract_memo_refs(&format!("see {{{{memo:{a}}}}} and {{{{memo:{b}}}}} again {{{{memo:{a}}}}}"));
    assert_eq!(refs, vec![a, b]);
    // Empty placeholder carries no uuid.
    assert!(extract_memo_refs("text {{memo}} more").is_empty());
}

#[test]
fn substitutes_memo_links_locked_and_broken() {
    let known = "11111111-1111-4111-8111-111111111111";
    let hidden = "22222222-2222-4222-8222-222222222222";
    let links = vec![
        InlineMemoLink { uuid: known.into(), uid: "abc123".into(), title: "My note".into(), viewable: true },
        InlineMemoLink { uuid: hidden.into(), uid: "def456".into(), title: String::new(), viewable: false },
    ];
    let html = render_with_inlines(
        &format!("a {{{{memo:{known}}}}}\n\nb {{{{memo:{hidden}}}}}\n\nc {{{{memo:33333333-3333-4333-8333-333333333333}}}}"),
        &[],
        &links,
    );
    assert!(html.contains("<a class=\"memo-link\" href=\"/m/abc123\">My note</a>"));
    assert!(html.contains("memo-link-locked"));
    // Unknown target becomes a broken placeholder, never raw token text.
    assert!(html.contains("memo-link-broken"));
    assert!(!html.contains("{{memo"));
}

#[test]
fn substitutes_known_tokens_and_strips_others() {
    let atts = vec![
        InlineAttachment { uid: "img0000000001".into(), filename: "p.png".into(), is_image: true },
        InlineAttachment { uid: "file000000001".into(), filename: "d.pdf".into(), is_image: false },
    ];
    let html = render_with_attachments(
        "top\n\n{{attach:img0000000001}}\n\nmid {{attach:file000000001}}\n\n{{attach:unknown00000}}",
        &atts,
    );
    assert!(html.contains("<img class=\"inline-attachment\" src=\"/r/img0000000001\""));
    assert!(html.contains("href=\"/r/file000000001\""));
    // Unknown / leftover tokens are removed, not shown raw.
    assert!(!html.contains("{{attach"));
}

#[test]
fn uuid_refs_stop_at_non_uuid_characters() {
    // `g` is no hex digit, so the run ends before `}}` and no ref is taken.
    assert!(extract_memo_refs("{{memo:abcg}}").is_empty());
    // An overlapping opener is still found.
    assert_eq!(extract_memo_refs("{{memo:{{memo:ab-12}}"), vec!["ab-12"]);
    // Attachment uids are alphanumeric only.
    assert!(extract_attachment_refs("{{attach:ab-1}}").is_empty());
    assert_eq!(extract_attachment_refs("x{{attach:Zz9}}y"), vec!["Zz9"]);
}

#[test]
fn tags_are_lowercased_sorted_and_unique() {
    assert_eq!(extract_tags("#Work #work #alpha #b_c-d/e"), vec!["alpha", "b_c-d/e", "work"]);
    // A tag needs a `#` that does not follow a tag character or another `#`.
    assert!(extract_tags("x#nope ##also").is_empty());
}

#[test]
fn excerpt_takes_first_non_blank_line() {
    assert_eq!(excerpt("\n  \n# Title *here*\nrest", 60), "Title here");
    assert_eq!(excerpt("abcdef", 3), "abc…");
    assert_eq!(excerpt("abc", 3), "abc");
    assert_eq!(excerpt("", 10), "");
    assert_eq!(excerpt("  > __quote__  \r\nnext", 60), "quote");
}

#[test]
fn escapes_filenames_and_titles() {
    let atts = vec![InlineAttachment { uid: "u1".into(), filename: "a<b>&\"c\".txt".into(), is_image: false }];
    let html = render_with_attachments("{{attach:u1}}", &atts);
    assert!(html.contains("a&lt;b&gt;&amp;&quot;c&quot;.txt"));
    let links = vec![InlineMemoLink { uuid: "ab".into(), uid: "x".into(), title: "<t>".into(), viewable: true }];
    let html = render_with_inlines("{{memo:ab}}", &[], &links);
    assert!(html.contains("<a class=\"memo-link\" href=\"/m/x\">&lt;t&gt;</a>"));
}

#[test]
fn leftover_token_without_closing_braces_stays() {
    let html = render_with_attachments("{{attach no close", &[]);
    assert!(html.contains("{{attach no close"));
}

#[test]
fn nested_leftover_tokens_are_stripped_again() {
    let html = render_with_attachments("{{att{{attach}}ach}}", &[]);
    assert!(!html.contains("{{attach"));
    let html = render_with_inlines("{{me{{memo:x}}mo:y}}", &[], &[]);
    assert!(!html.contains("{{memo"));
}

#[test]
fn token_text_in_a_title_is_not_shown_raw() {
    let links = vec![InlineMemoLink {
        uuid: "ab".into(),
        uid: "x".into(),
        title: "{{attach:z}}".into(),
        viewable: true,
    }];
    let html = render_with_inlines("{{memo:ab}}", &[], &links);
    assert!(!html.contains("{{attach"));
    assert!(html.contains("href=\"/m/x\""));
}

#[test]
fn urls_give_no_tags() {
    assert!(extract_tags("see https://example.com/?q=#frag").is_empty());
    assert_eq!(extract_tags("https://example.com/#frag and #real"), vec!["real"]);
    assert!(extract_tags("go to www.example.com/?q=#frag").is_empty());
    assert!(extract_tags("<https://example.com/?q=#frag>").is_empty());
}

#[test]
fn link_text_gives_tags() {
    assert_eq!(extract_tags("[see #work](http://x)"), vec!["work"]);
    assert_eq!(extract_tags("[*#deep* text](http://x) #out"), vec!["deep", "out"]);
}

#[test]
fn url_text_is_the_link_written_out() {
    assert!(is_url_text("https://a.b/#c", &Some("https://a.b/#c".to_string())));
    assert!(is_url_text("www.a.b", &Some("http://www.a.b".to_string())));
    assert!(is_url_text("me@a.b", &Some("mailto:me@a.b".to_string())));
    assert!(!is_url_text("see #work", &Some("http://x".to_string())));
    assert!(!is_url_text("plain", &None));
}

#[test]
fn substitutes_attachments_in_given_html() {
    let atts = vec![InlineAttachment { uid: "u1".into(), filename: "f.txt".into(), is_image: false }];
    let out = substitute_attachments("<p>{{attach:u1}} {{attach:zz}}</p>".to_string(), &atts);
    assert!(out.contains("href=\"/r/u1\""));
    assert!(out.contains("f.txt"));
    assert!(!out.contains("{{attach"));
    assert!(out.starts_with("<p>"));
}

#[test]
fn substitutes_memo_links_in_given_html() {
    let links = vec![InlineMemoLink { uuid: "ab".into(), uid: "x".into(), title: "T".into(), viewable: true }];
    let out = substitute_memo_links("<p>{{memo:ab}} {{memo:cd}}</p>".to_string(), &links);
    assert!(out.contains("<a class=\"memo-link\" href=\"/m/x\">T</a>"));
    assert!(out.contains("memo-link-broken"));
    assert!(!out.contains("{{memo"));
}

#[test]
fn collect_tags_merges_into_sorted_list() {
    let mut tags = vec!["b".to_string()];
    collect_tags("#c text #a #b", &mut tags);
    assert_eq!(tags, vec!["a", "b", "c"]);
}
