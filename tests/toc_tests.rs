use readme_summary::page::{apply, directory_of, has_toc, is_index_page, substitute, toc_directory, transform, Document};
use readme_summary::readme_summary::{ConfigError, ReadmeSummary, TocConfig};
use readme_summary::toc::{generate, passes_name_rules_exec, ChildEntry, EntryKind};

fn entry(name: &str, kind: EntryKind) -> ChildEntry {
    ChildEntry { name: name.to_string(), kind }
}

fn sample_listing() -> Vec<ChildEntry> {
    vec![
        entry("A", EntryKind::Directory { has_readme: true }),
        entry("B", EntryKind::Directory { has_readme: false }),
        entry("C.md", EntryKind::File),
        entry("draft-D.md", EntryKind::File),
        entry("README.md", EntryKind::File),
    ]
}

fn page(path: &str, content: &str) -> Document {
    Document { path: path.to_string(), content: content.to_string() }
}

#[test]
fn detect_finds_marker_anywhere() {
    assert!(has_toc("{{TOC}}"));
    assert!(has_toc("# Title\n\n{{TOC}}\n"));
    assert!(has_toc("before{{TOC}}after"));
}

#[test]
fn detect_rejects_missing_or_split_marker() {
    assert!(!has_toc(""));
    assert!(!has_toc("# Title"));
    assert!(!has_toc("{{TO\nC}}"));
    assert!(!has_toc("{TOC}"));
    assert!(!has_toc("{{toc}}"));
}

#[test]
fn generate_skips_readme_drafts_and_bare_directories() {
    let links = generate(&sample_listing(), false);
    assert_eq!(links, "- [A/](./A/)\n- [C](./C.md)\n");
}

#[test]
fn generate_with_drafts_lists_three_entries() {
    let links = generate(&sample_listing(), true);
    assert_eq!(links, "- [A/](./A/)\n- [C](./C.md)\n- [draft-D](./draft-D.md)\n");
}

#[test]
fn generate_keeps_listing_order() {
    let listing = vec![
        entry("zeta.md", EntryKind::File),
        entry("alpha", EntryKind::Directory { has_readme: true }),
        entry("beta.md", EntryKind::File),
    ];
    assert_eq!(
        generate(&listing, false),
        "- [zeta](./zeta.md)\n- [alpha/](./alpha/)\n- [beta](./beta.md)\n"
    );
}

#[test]
fn generate_on_empty_listing_is_empty() {
    assert_eq!(generate(&Vec::new(), false), "");
    assert_eq!(generate(&Vec::new(), true), "");
}

#[test]
fn generate_strips_any_three_characters() {
    let listing = vec![entry("notes.txt", EntryKind::File), entry("ab", EntryKind::File)];
    assert_eq!(generate(&listing, false), "- [notes.](./notes.txt)\n- [](./ab)\n");
}

#[test]
fn generate_skips_draft_directories_and_other_entries() {
    let listing = vec![
        entry("drafts", EntryKind::Directory { has_readme: true }),
        entry("link.md", EntryKind::Other),
        entry("guide", EntryKind::Directory { has_readme: true }),
    ];
    assert_eq!(generate(&listing, false), "- [guide/](./guide/)\n");
    assert_eq!(generate(&listing, true), "- [drafts/](./drafts/)\n- [guide/](./guide/)\n");
}

#[test]
fn name_rules() {
    assert!(!passes_name_rules_exec("README.md", true));
    assert!(passes_name_rules_exec("readme.md", false));
    assert!(!passes_name_rules_exec("my-draft.md", false));
    assert!(passes_name_rules_exec("my-draft.md", true));
    assert!(passes_name_rules_exec("Draft.md", false));
}

#[test]
fn apply_substitutes_the_marker() {
    let mut doc = page("guide/index.md", "# Guide\n\n{{TOC}}\n");
    apply(&mut doc, &Some(sample_listing()), false);
    assert_eq!(doc.content, "# Guide\n\n- [A/](./A/)\n- [C](./C.md)\n\n");
    assert_eq!(doc.path, "guide/index.md");
}

#[test]
fn apply_twice_is_a_no_op_the_second_time() {
    let mut doc = page("guide/index.md", "{{TOC}}");
    apply(&mut doc, &Some(sample_listing()), false);
    let once = doc.content.clone();
    assert!(!has_toc(&once));
    apply(&mut doc, &Some(sample_listing()), false);
    assert_eq!(doc.content, once);
}

#[test]
fn apply_fills_every_marker_with_the_same_list() {
    let mut doc = page("index.md", "top\n{{TOC}}\nmiddle\n{{TOC}}\nend");
    let listing = vec![entry("one.md", EntryKind::File)];
    apply(&mut doc, &Some(listing), false);
    assert_eq!(doc.content, "top\n- [one](./one.md)\n\nmiddle\n- [one](./one.md)\n\nend");
}

#[test]
fn apply_with_empty_directory_removes_the_marker() {
    let mut doc = page("a/index.md", "Intro {{TOC}} outro");
    apply(&mut doc, &Some(Vec::new()), false);
    assert_eq!(doc.content, "Intro  outro");
    let mut only_readme = page("a/index.md", "{{TOC}}");
    apply(&mut only_readme, &Some(vec![entry("README.md", EntryKind::File)]), false);
    assert_eq!(only_readme.content, "");
}

#[test]
fn apply_leaves_page_alone_on_failed_scan() {
    let mut doc = page("a/index.md", "{{TOC}}");
    apply(&mut doc, &None, false);
    assert_eq!(doc.content, "{{TOC}}");
}

#[test]
fn apply_ignores_pages_that_are_not_index_pages() {
    let mut doc = page("a/chapter.md", "{{TOC}}");
    apply(&mut doc, &Some(sample_listing()), false);
    assert_eq!(doc.content, "{{TOC}}");
}

#[test]
fn transform_isolates_a_failed_scan() {
    let docs = vec![
        page("one/index.md", "{{TOC}}"),
        page("gone/index.md", "{{TOC}}"),
        page("two/index.md", "x{{TOC}}y"),
    ];
    let listings = vec![
        Some(vec![entry("a.md", EntryKind::File)]),
        None,
        Some(vec![entry("b", EntryKind::Directory { has_readme: true })]),
    ];
    let out = transform(&docs, &listings, false);
    assert_eq!(out.len(), 3);
    assert_eq!(out[0].content, "- [a](./a.md)\n");
    assert_eq!(out[1].content, "{{TOC}}");
    assert_eq!(out[2].content, "x- [b/](./b/)\ny");
    assert_eq!(out[1].path, "gone/index.md");
}

#[test]
fn substitute_replaces_all_occurrences() {
    assert_eq!(substitute("{{TOC}}{{TOC}}", "L"), "LL");
    assert_eq!(substitute("{{{TOC}}}", "L"), "{L}");
    assert_eq!(substitute("no marker", "L"), "no marker");
    assert_eq!(substitute("", "L"), "");
}

#[test]
fn index_pages_are_recognised_by_suffix() {
    assert!(is_index_page("index.md"));
    assert!(is_index_page("guide/index.md"));
    assert!(!is_index_page("guide/README.md"));
    assert!(!is_index_page("index.md.bak"));
}

#[test]
fn directory_context_is_under_source_root() {
    assert_eq!(directory_of("guide/index.md"), "./src/guide/");
    assert_eq!(directory_of("a/b/index.md"), "./src/a/b/");
    assert_eq!(directory_of("index.md"), "./src//");
}

#[test]
fn toc_directory_only_for_index_pages_with_marker() {
    assert_eq!(toc_directory(&page("guide/index.md", "{{TOC}}")), Some("./src/guide/".to_string()));
    assert_eq!(toc_directory(&page("guide/index.md", "no marker")), None);
    assert_eq!(toc_directory(&page("guide/intro.md", "{{TOC}}")), None);
}

#[test]
fn preprocessor_name_and_renderers() {
    let p = ReadmeSummary::new();
    assert_eq!(p.name(), "readme-summary");
    assert!(p.supports_renderer("html"));
    assert!(p.supports_renderer("not-supported-either"));
    assert!(!p.supports_renderer("not-supported"));
}

#[test]
fn configure_reads_options() {
    let p = ReadmeSummary::new();
    assert_eq!(
        p.configure(false, None, None),
        Ok(TocConfig { include_drafts: false, verbose_logging: false })
    );
    assert_eq!(
        p.configure(false, Some(true), Some(false)),
        Ok(TocConfig { include_drafts: true, verbose_logging: false })
    );
    assert_eq!(
        p.configure(false, None, Some(true)),
        Ok(TocConfig { include_drafts: false, verbose_logging: true })
    );
    assert_eq!(p.configure(true, Some(true), Some(true)), Err(ConfigError::ForcedFailure));
}
