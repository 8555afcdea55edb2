use shibei::search::{describe_hit, escape_fts_query, extract_snippet, index_row, index_stats, plan_search, trim};

#[test]
fn test_extract_snippet() {
    let text = "这是一段很长的文本内容，包含了我们要搜索的关键词，关键词出现在文本的中间位置，后面还有一些额外的文字用于测试。";
    let snippet = extract_snippet(text, "关键词", 20);
    assert!(snippet.is_some());
    let s = snippet.unwrap();
    assert!(s.contains("关键词"));
}

#[test]
fn test_extract_snippet_at_start() {
    let text = "关键词在开头的文本内容还有更多";
    let snippet = extract_snippet(text, "关键词", 20);
    assert!(snippet.is_some());
    let s = snippet.unwrap();
    assert!(s.starts_with("关键词"));
}

#[test]
fn test_extract_snippet_no_match() {
    let text = "这段文本不包含搜索词";
    let snippet = extract_snippet(text, "不存在的词", 20);
    assert!(snippet.is_none());
}

#[test]
fn test_extract_snippet_case_insensitive() {
    let text = "This text contains a Keyword in the middle of a sentence with more words";
    let snippet = extract_snippet(text, "keyword", 15);
    assert!(snippet.is_some());
    assert!(snippet.unwrap().contains("Keyword"));
}

#[test]
fn extract_snippet_exact_window() {
    let text = "0123456789abcdefghij";
    assert_eq!(extract_snippet(text, "AB", 3).unwrap(), "...789abcde...");
    assert_eq!(extract_snippet(text, "01", 3).unwrap(), "01234...");
    assert_eq!(extract_snippet(text, "ij", 3).unwrap(), "...fghij");
}

#[test]
fn escape_doubles_inner_quotes() {
    assert_eq!(escape_fts_query("abc"), "\"abc\"");
    assert_eq!(escape_fts_query("a\"b"), "\"a\"\"b\"");
    assert_eq!(escape_fts_query(""), "\"\"");
}

#[test]
fn trim_removes_unicode_white_space() {
    assert_eq!(trim("  abc \t\n"), "abc");
    assert_eq!(trim("\u{3000}词\u{3000}"), "词");
    assert_eq!(trim("   "), "");
    assert_eq!(trim("a b"), "a b");
}

#[test]
fn plan_uses_fts_for_three_chars_and_like_below() {
    assert!(plan_search("   ", None, &[], "created_at", "desc").is_none());
    let p = plan_search(" Rust ", None, &[], "created_at", "desc").unwrap();
    assert!(p.sql.ends_with("AND search_index MATCH ?1 ORDER BY r.created_at DESC"));
    assert_eq!(p.params, vec!["\"Rust\"".to_string()]);
    let p = plan_search("笔记", Some("f1"), &["t1".to_string(), "t2".to_string()], "annotated_at", "asc").unwrap();
    assert!(p.sql.contains("si.body_text LIKE ?1) AND r.folder_id = ?2 AND EXISTS (SELECT 1 FROM resource_tags rt WHERE rt.resource_id = r.id AND rt.tag_id IN (?3, ?4) AND rt.deleted_at IS NULL)"));
    assert!(p.sql.ends_with("r.created_at) ASC"));
    assert_eq!(p.params, vec!["%笔记%".to_string(), "f1".to_string(), "t1".to_string(), "t2".to_string()]);
}

#[test]
fn hit_lists_matching_fields_and_body_snippet() {
    let h = describe_hit("rust编程", "Rust编程入门", "https://x", None, "", "", "学习Rust编程的笔记");
    assert_eq!(h.match_fields, vec!["title".to_string(), "body".to_string()]);
    assert!(!h.matched_body);
    assert_eq!(h.snippet.unwrap(), "学习Rust编程的笔记");
    let h = describe_hit("zzz", "a", "b", Some("c"), "d", "e", "f");
    assert!(h.match_fields.is_empty());
    assert!(h.matched_body);
    assert!(h.snippet.is_none());
    let h = describe_hit("body", "a", "b", None, "", "", "some body text");
    assert_eq!(h.match_fields, vec!["body".to_string()]);
    assert!(h.matched_body);
}

#[test]
fn index_stats_counts_pending() {
    let s = index_stats(10, 7, true);
    assert_eq!(s.pending, 3);
    assert!(s.fts_initialized);
}

#[test]
fn index_row_joins_annotation_texts() {
    let row = index_row(
        "T".to_string(),
        "https://x".to_string(),
        None,
        Some("body".to_string()),
        &vec!["h1".to_string(), "h2".to_string()],
        &Vec::new(),
    );
    assert_eq!(row.title, "T");
    assert_eq!(row.url, "https://x");
    assert_eq!(row.description, "");
    assert_eq!(row.highlights_text, "h1\nh2");
    assert_eq!(row.comments_text, "");
    assert_eq!(row.body_text, "body");
}
