use url_launcher::html::parse_bookmarks;
use url_launcher::import::{
    category_lookup, category_restore_step, parse_backup, plan_bookmark_import, plan_imports,
    Backup, BackupCategory, BackupLink, CategoryLookup, ImportDecision,
};
use url_launcher::error::AppError;

fn strings(v: &[&str]) -> Vec<String> {
    v.iter().map(|s| s.to_string()).collect()
}

fn link(url: &str, id: Option<&str>, name: Option<&str>) -> BackupLink {
    BackupLink {
        url: url.to_string(),
        title: None,
        note: None,
        category_id: id.map(|s| s.to_string()),
        category_name: name.map(|s| s.to_string()),
    }
}

#[test]
fn plans_dedup_against_store_and_batch() {
    let existing = strings(&["https://a.com/"]);
    let cands = strings(&[
        "https://A.com",
        "javascript:alert(1)",
        "https://b.com/x/",
        "https://b.com/x",
        "ftp://c.org",
        "https://c.org",
    ]);
    let (ds, r) = plan_imports(&existing, &cands);
    assert_eq!(
        ds,
        vec![
            ImportDecision::Duplicate,
            ImportDecision::Unsafe,
            ImportDecision::Import,
            ImportDecision::Duplicate,
            ImportDecision::Unsafe,
            ImportDecision::Import,
        ]
    );
    assert_eq!(r.imported, 2);
    assert_eq!(r.skipped, 4);
}

#[test]
fn reimport_imports_nothing() {
    let existing = strings(&["https://a.com/"]);
    let cands = strings(&["https://b.com", "https://a.com", "https://b.com/", "https://c.com"]);
    let (ds, r) = plan_imports(&existing, &cands);
    assert_eq!(r.imported, 2);
    let mut store = existing.clone();
    for (c, d) in cands.iter().zip(ds.iter()) {
        if *d == ImportDecision::Import {
            store.push(c.clone());
        }
    }
    let (_, again) = plan_imports(&store, &cands);
    assert_eq!(again.imported, 0);
    assert_eq!(again.skipped, 4);
}

#[test]
fn bookmark_plan_keeps_folders_of_safe_links() {
    let bookmarks = vec![
        url_launcher::models::ParsedBookmark {
            url: "https://a.com".into(),
            title: None,
            folder: Some("  Dev  ".into()),
        },
        url_launcher::models::ParsedBookmark {
            url: "mailto:x@y.z".into(),
            title: None,
            folder: Some("Mail".into()),
        },
        url_launcher::models::ParsedBookmark {
            url: "https://a.com/".into(),
            title: None,
            folder: Some("   ".into()),
        },
    ];
    let (steps, r) = plan_bookmark_import(&vec![], &bookmarks);
    assert_eq!(steps[0].decision, ImportDecision::Import);
    assert_eq!(steps[0].folder.as_deref(), Some("Dev"));
    assert_eq!(steps[1].decision, ImportDecision::Unsafe);
    assert!(steps[1].folder.is_none());
    assert_eq!(steps[2].decision, ImportDecision::Duplicate);
    assert!(steps[2].folder.is_none());
    assert_eq!((r.imported, r.skipped), (1, 2));
}

#[test]
fn parsed_file_plan() {
    let html = r#"<DL><DT><A HREF="https://one.com">1</A><DT><A HREF="https://one.com/">again</A></DL>"#;
    let b = parse_bookmarks(html);
    let (_, r) = plan_bookmark_import(&vec![], &b);
    assert_eq!((r.imported, r.skipped), (1, 1));
}

#[test]
fn backup_forms() {
    let full = Backup {
        categories: vec![BackupCategory { id: Some("c1".into()), name: "Dev".into() }],
        links: vec![],
    };
    let b = parse_backup(Some(full), Err("unused".into())).unwrap();
    assert_eq!(b.categories.len(), 1);

    let empty = Backup { categories: vec![], links: vec![] };
    let b = parse_backup(Some(empty), Ok(vec![link("https://x", None, None)])).unwrap();
    assert_eq!(b.links.len(), 1);
    assert!(b.categories.is_empty());

    match parse_backup(None, Err("expected value at line 1 column 1".into())) {
        Err(AppError::Parse(m)) => {
            assert_eq!(m, "JSON 结构无法识别: expected value at line 1 column 1")
        }
        _ => panic!("expected a parse error"),
    }
}

#[test]
fn category_steps_and_lookup() {
    let c = BackupCategory { id: Some("".into()), name: "  Dev ".into() };
    assert_eq!(category_restore_step(&c), Some(("Dev".to_string(), None)));
    let c = BackupCategory { id: Some("old".into()), name: "Dev".into() };
    assert_eq!(category_restore_step(&c), Some(("Dev".to_string(), Some("old".to_string()))));
    let c = BackupCategory { id: Some("old".into()), name: "   ".into() };
    assert_eq!(category_restore_step(&c), None);

    let map = vec![("old".to_string(), "new1".to_string()), ("old".to_string(), "new2".to_string())];
    assert!(matches!(category_lookup(&link("u", Some("old"), Some(" Work ")), &map), CategoryLookup::ByName(n) if n == "Work"));
    assert!(matches!(category_lookup(&link("u", Some("old"), Some("  ")), &map), CategoryLookup::Mapped(n) if n == "new2"));
    assert!(matches!(category_lookup(&link("u", Some("other"), None), &map), CategoryLookup::IfExists(n) if n == "other"));
    assert!(matches!(category_lookup(&link("u", Some(""), None), &map), CategoryLookup::Uncategorized));
    assert!(matches!(category_lookup(&link("u", None, None), &map), CategoryLookup::Uncategorized));
}
