use tm_metadata::items::{get_block_comment_markers, get_line_comment_marker, FragmentError};
use tm_metadata::metadata::{LoadMetadata, Metadata, MetadataSet};
use tm_metadata::pattern::Pattern;
use tm_metadata::raw::{Folded, RawMetadataEntry, RawValue};
use tm_metadata::scoped::MetadataField;

fn s(x: &str) -> String {
    x.to_string()
}

fn vars(pairs: &[(&str, &str)]) -> RawValue {
    RawValue::Vars(pairs.iter().map(|(n, v)| (s(n), s(v))).collect())
}

fn entry(path: &str, scope: &str, settings: Vec<(&str, RawValue)>) -> RawMetadataEntry {
    RawMetadataEntry {
        path: s(path),
        scope: s(scope),
        settings: settings.into_iter().map(|(k, v)| (s(k), v)).collect(),
    }
}

fn rust_indent() -> RawMetadataEntry {
    entry(
        "testdata/Packages/Rust/RustIndent.tmPreferences",
        "source.rust",
        vec![
            ("increaseIndentPattern", RawValue::Str(s(r#"^.*\{[^}"']*$|^.*\([^\)"']*$"#))),
            ("decreaseIndentPattern", RawValue::Str(s(r"^\s*(\}|\))"))),
        ],
    )
}

fn rust_comment() -> RawMetadataEntry {
    entry(
        "testdata/Packages/Rust/RustComment.tmPreferences",
        "source.rust",
        vec![(
            "shellVariables",
            vars(&[("TM_COMMENT_START", "// "), ("TM_COMMENT_START_2", "/*"), ("TM_COMMENT_END_2", "*/")]),
        )],
    )
}

fn quick_load(raw: RawMetadataEntry) -> MetadataSet {
    let mut loaded = LoadMetadata::new();
    loaded.add_raw(raw);
    let mut metadata = Metadata::from_loaded(loaded);
    metadata.scoped_metadata.pop().unwrap()
}

fn folded(settings: Vec<(&str, RawValue)>) -> Folded {
    let mut f = Folded::new();
    f.apply_settings(settings.into_iter().map(|(k, v)| (s(k), v)).collect());
    f
}

#[test]
fn load_groups() {
    let mut loaded = LoadMetadata::new();
    loaded.add_raw(rust_indent());
    loaded.add_raw(rust_comment());

    let metadata = Metadata::from_loaded(loaded);
    assert_eq!(metadata.scoped_metadata.len(), 1);

    let rust_meta = metadata.scoped_metadata.first().unwrap();
    assert!(rust_meta.selector_string == "source.rust");
    assert!(rust_meta.items.increase_indent_pattern.is_some());
    assert!(rust_meta.items.line_comment.is_some());
}

#[test]
fn parse_yaml_meta() {
    let metaset = quick_load(entry(
        "testdata/Packages/YAML/Indentation Rules.tmPreferences",
        "source.yaml",
        vec![
            ("increaseIndentPattern", RawValue::Str(s(r"^\s*.*(:|-) ?(&\w+)?(\{[^}]*\}|\[[^\]]*\])?\s*$"))),
            ("decreaseIndentPattern", RawValue::Str(s(r"^\s+\}$"))),
        ],
    ));
    assert!(metaset.items.increase_indent_pattern.is_some());
    assert!(metaset.items.decrease_indent_pattern.is_some());
    assert!(metaset.items.bracket_indent_next_line_pattern.is_none());
}

#[test]
fn load_shell_vars() {
    let metadata = quick_load(entry(
        "testdata/Packages/AppleScript/Comments.tmPreferences",
        "source.applescript",
        vec![(
            "shellVariables",
            vars(&[
                ("TM_COMMENT_START", "-- "),
                ("TM_COMMENT_START_2", "# "),
                ("TM_COMMENT_START_3", "(* "),
                ("TM_COMMENT_END_3", " *)"),
                ("TM_COMMENT_DISABLE_INDENT_3", "yes"),
            ]),
        )],
    ));
    assert!(metadata.items.shell_variable("TM_COMMENT_START").is_some());
    assert!(metadata.items.shell_variable("TM_COMMENT_END").is_none());
    assert!(metadata.items.shell_variable("TM_COMMENT_START_2").is_some());
    assert!(metadata.items.shell_variable("TM_COMMENT_START_3").is_some());
    assert!(metadata.items.shell_variable("TM_COMMENT_END_3").is_some());
    assert!(metadata.items.shell_variable("TM_COMMENT_DISABLE_INDENT_3").is_some());
    assert!(metadata.items.line_comment.is_some());
    assert!(metadata.items.block_comment.is_some());
    assert!(metadata.items.increase_indent_pattern.is_none());
    assert_eq!(metadata.items.line_comment.as_deref(), Some("-- "));
    assert_eq!(
        metadata.items.block_comment.clone(),
        Some((s("(* "), s(" *)")))
    );
}

#[test]
fn indent_rust() {
    let mut loaded = LoadMetadata::new();
    loaded.add_raw(rust_indent());
    loaded.add_raw(rust_comment());
    let metadata = Metadata::from_loaded(loaded);
    let indent_ctx = metadata.metadata_for_scope(&[Some(1)]);

    assert_eq!(indent_ctx.items.len(), 1, "failed to load rust metadata");
    assert_eq!(indent_ctx.increase_indent("struct This {"), Some(true));
    assert_eq!(indent_ctx.increase_indent("struct This }"), Some(false));
    assert_eq!(indent_ctx.decrease_indent("     }"), Some(true));
    assert_eq!(indent_ctx.decrease_indent("struct This {"), Some(false));
    assert_eq!(indent_ctx.decrease_indent("struct This {}"), Some(false));
    assert_eq!(indent_ctx.increase_indent("struct This {}"), Some(false));
}

#[test]
fn rust_scenario_increase_and_decrease() {
    let metadata = Metadata::from_loaded({
        let mut l = LoadMetadata::new();
        l.add_raw(entry(
            "a",
            "source.rust",
            vec![
                ("increaseIndentPattern", RawValue::Str(s(r"^.*\{[^}]*$"))),
                ("decreaseIndentPattern", RawValue::Str(s(r"^\s*\}"))),
            ],
        ));
        l
    });
    let scoped = metadata.metadata_for_scope(&[Some(3)]);
    assert_eq!(scoped.increase_indent("struct This {"), Some(true));
    assert_eq!(scoped.decrease_indent("struct This {"), Some(false));
    assert_eq!(scoped.decrease_indent("     }"), Some(true));
    assert_eq!(scoped.increase_indent("     }"), Some(false));
    assert_eq!(scoped.increase_indent("struct This {}"), Some(false));
    assert_eq!(scoped.decrease_indent("struct This {}"), Some(false));
}

#[test]
fn comment_markers_from_variables() {
    let v = vec![
        (s("TM_COMMENT_START"), s("--")),
        (s("TM_COMMENT_START_2"), s("{-")),
        (s("TM_COMMENT_END_2"), s("-}")),
    ];
    assert_eq!(get_line_comment_marker(&v), Some(s("--")));
    assert_eq!(get_block_comment_markers(&v), Some((s("{-"), s("-}"))));
    let reordered = vec![v[2].clone(), v[0].clone(), v[1].clone()];
    assert_eq!(get_line_comment_marker(&reordered), Some(s("--")));
    assert_eq!(get_block_comment_markers(&reordered), Some((s("{-"), s("-}"))));
}

#[test]
fn comment_markers_none() {
    let v = vec![(s("TM_COMMENT_END"), s("x"))];
    assert_eq!(get_line_comment_marker(&v), None);
    assert_eq!(get_block_comment_markers(&v), None);
}

#[test]
fn merge_ignores_insertion_order() {
    let make = |order: &[usize]| {
        let entries = vec![
            entry("b/2", "source.x", vec![("increaseIndentPattern", RawValue::Str(s("two")))]),
            entry("a/1", "source.x", vec![("increaseIndentPattern", RawValue::Str(s("one"))), ("indentParens", RawValue::Bool(true))]),
            entry("c/3", "source.x", vec![("indentParens", RawValue::Bool(false))]),
        ];
        let mut entries: Vec<Option<RawMetadataEntry>> = entries.into_iter().map(Some).collect();
        let mut l = LoadMetadata::new();
        for &i in order {
            l.add_raw(entries[i].take().unwrap());
        }
        Metadata::from_loaded(l)
    };
    let m1 = make(&[0, 1, 2]);
    let m2 = make(&[2, 1, 0]);
    for m in [&m1, &m2] {
        assert_eq!(m.scoped_metadata.len(), 1);
        let items = &m.scoped_metadata[0].items;
        assert_eq!(items.increase_indent_pattern.as_ref().unwrap().as_str(), "two");
        assert_eq!(items.indent_parens, Some(false));
    }
}

#[test]
fn variables_merge_by_name() {
    let mut l = LoadMetadata::new();
    l.add_raw(entry(
        "b",
        "source.x",
        vec![
            ("shellVariables", vars(&[("TM_COMMENT_START", "#")])),
            ("increaseIndentPattern", RawValue::Str(s("late"))),
        ],
    ));
    l.add_raw(entry(
        "a",
        "source.x",
        vec![
            ("shellVariables", vars(&[("TM_COMMENT_START", "//"), ("OTHER", "kept")])),
            ("increaseIndentPattern", RawValue::Str(s("early"))),
            ("decreaseIndentPattern", RawValue::Str(s("stays"))),
        ],
    ));
    let m = Metadata::from_loaded(l);
    let items = &m.scoped_metadata[0].items;
    assert_eq!(items.shell_variable("TM_COMMENT_START").map(|v| v.as_str()), Some("#"));
    assert_eq!(items.shell_variable("OTHER").map(|v| v.as_str()), Some("kept"));
    assert_eq!(items.increase_indent_pattern.as_ref().unwrap().as_str(), "late");
    assert_eq!(items.decrease_indent_pattern.as_ref().unwrap().as_str(), "stays");
    assert_eq!(items.line_comment.as_deref(), Some("#"));
}

#[test]
fn malformed_variables_add_nothing() {
    let mut l = LoadMetadata::new();
    l.add_raw(entry("a", "source.x", vec![("shellVariables", vars(&[("TM_COMMENT_START", "#")]))]));
    l.add_raw(entry("b", "source.x", vec![("shellVariables", RawValue::Other)]));
    let m = Metadata::from_loaded(l);
    assert_eq!(m.scoped_metadata[0].items.line_comment.as_deref(), Some("#"));
}

#[test]
fn cascade_falls_through_per_field() {
    let mut l = LoadMetadata::new();
    l.add_raw(entry(
        "one",
        "source.my_lang",
        vec![
            ("increaseIndentPattern", RawValue::Str(s("one increase"))),
            ("decreaseIndentPattern", RawValue::Str(s("one decrease"))),
        ],
    ));
    l.add_raw(entry("two", "other.thing", vec![("increaseIndentPattern", RawValue::Str(s("two increase")))]));
    let metadata = Metadata::from_loaded(l);
    let scores: Vec<Option<u64>> = metadata
        .scoped_metadata
        .iter()
        .map(|m| if m.selector_string == "other.thing" { Some(5) } else { Some(2) })
        .collect();
    let scoped = metadata.metadata_for_scope(&scores);
    assert_eq!(scoped.increase_indent("two increase"), Some(true));
    assert_eq!(scoped.increase_indent("one increase"), Some(false));
    assert_eq!(scoped.decrease_indent("one decrease"), Some(true));
}

#[test]
fn ranking_is_by_score_then_position() {
    let mut l = LoadMetadata::new();
    l.add_raw(entry("1", "a", vec![("indentParens", RawValue::Bool(true))]));
    l.add_raw(entry("2", "b", vec![("indentParens", RawValue::Bool(true))]));
    l.add_raw(entry("3", "c", vec![("indentParens", RawValue::Bool(true))]));
    let metadata = Metadata::from_loaded(l);
    let scoped = metadata.metadata_for_scope(&[Some(1), None, Some(4), Some(1)]);
    assert_eq!(scoped.items, vec![(4, 2), (1, 0)]);
    assert!(!scoped.is_empty());
}

#[test]
fn no_match_answers_nothing() {
    let mut l = LoadMetadata::new();
    l.add_raw(rust_indent());
    l.add_raw(rust_comment());
    let metadata = Metadata::from_loaded(l);
    let scoped = metadata.metadata_for_scope(&[None]);
    assert!(scoped.is_empty());
    assert_eq!(scoped.increase_indent("struct This {"), Some(false));
    assert_eq!(scoped.decrease_indent("}"), Some(false));
    assert_eq!(scoped.bracket_increase("if x"), Some(false));
    assert_eq!(scoped.disable_indent_next_line("x"), Some(false));
    assert_eq!(scoped.unindented_line("x"), Some(false));
    assert_eq!(scoped.line_comment(), None);
    assert_eq!(scoped.block_comment(), None);
    let empty = Metadata::new();
    assert!(empty.metadata_for_scope(&[]).is_empty());
}

#[test]
fn comment_accessors_pick_best_defining() {
    let mut l = LoadMetadata::new();
    l.add_raw(rust_indent());
    l.add_raw(rust_comment());
    let metadata = Metadata::from_loaded(l);
    let scoped = metadata.metadata_for_scope(&[Some(1)]);
    assert_eq!(scoped.line_comment(), Some("// "));
    assert_eq!(scoped.block_comment(), Some(("/*", "*/")));
}

#[test]
fn nothing_recognized_is_an_error() {
    let r = MetadataSet::from_raw(s("source.x"), folded(vec![("name", RawValue::Str(s("x")))]));
    assert_eq!(r.err(), Some(FragmentError::NothingRecognized));
    let mut l = LoadMetadata::new();
    l.add_raw(entry("a", "source.x", vec![("name", RawValue::Str(s("x")))]));
    assert_eq!(Metadata::from_loaded(l).scoped_metadata.len(), 0);
}

#[test]
fn malformed_value_is_an_error() {
    let r = MetadataSet::from_raw(s("source.x"), folded(vec![("increaseIndentPattern", RawValue::Bool(true))]));
    assert_eq!(r.err(), Some(FragmentError::MalformedValue));
    let r = MetadataSet::from_raw(s("source.x"), folded(vec![("indentParens", RawValue::Str(s("yes")))]));
    assert_eq!(r.err(), Some(FragmentError::MalformedValue));
}

#[test]
fn only_malformed_variables_still_builds() {
    let r = MetadataSet::from_raw(s("source.x"), folded(vec![("shellVariables", RawValue::Other)]));
    let set = r.ok().unwrap();
    assert!(set.items.shell_variables.is_empty());
    assert_eq!(set.selector_string, "source.x");
}

#[test]
fn overlay_replaces_whole_sets() {
    let mut base = LoadMetadata::new();
    base.add_raw(entry("a", "source.x", vec![("increaseIndentPattern", RawValue::Str(s("x1"))), ("decreaseIndentPattern", RawValue::Str(s("x2")))]));
    base.add_raw(entry("b", "source.y", vec![("increaseIndentPattern", RawValue::Str(s("y1")))]));
    let base = Metadata::from_loaded(base);
    let mut over = LoadMetadata::new();
    over.add_raw(entry("c", "source.x", vec![("increaseIndentPattern", RawValue::Str(s("x3")))]));
    let merged = base.merged_with_raw(over);
    assert_eq!(merged.scoped_metadata.len(), 2);
    assert_eq!(merged.scoped_metadata[0].selector_string, "source.y");
    assert_eq!(merged.scoped_metadata[1].selector_string, "source.x");
    let x = &merged.scoped_metadata[1].items;
    assert_eq!(x.increase_indent_pattern.as_ref().unwrap().as_str(), "x3");
    assert!(x.decrease_indent_pattern.is_none());
}

#[test]
fn pattern_source_survives_compilation() {
    let p = Pattern::new(s("just a string"));
    assert_eq!(p.is_match("just a string here"), Some(true));
    assert_eq!(p.is_match("not just a string"), Some(false));
    assert_eq!(p.as_str(), "just a string");
    let q = p.clone();
    assert_eq!(q.as_str(), "just a string");
    assert!(q == p);
    let back = Pattern::new(p.as_str().to_string());
    assert!(back == p);
}

#[test]
fn invalid_pattern_is_reported() {
    let p = Pattern::new(s("(unclosed"));
    assert!(!p.is_valid());
    assert_eq!(p.try_is_match("x"), None);
    let ok = Pattern::new(s("a+"));
    assert!(ok.is_valid());
    assert_eq!(ok.try_is_match("aaa"), Some(true));
    assert_eq!(ok.try_is_match("b"), Some(false));

    let mut l = LoadMetadata::new();
    l.add_raw(entry("a", "source.x", vec![("increaseIndentPattern", RawValue::Str(s("(unclosed")))]));
    let metadata = Metadata::from_loaded(l);
    let scoped = metadata.metadata_for_scope(&[Some(1)]);
    assert_eq!(scoped.checked_match(MetadataField::IncreaseIndent, "x"), None);
    assert_eq!(scoped.checked_match(MetadataField::DecreaseIndent, "x"), Some(false));
    assert_eq!(scoped.checked_match(MetadataField::LineComment, "x"), None);
}

#[test]
fn abandoned_match_is_reported() {
    let text = "ababababababababababababababababababababababababababababacbc";
    let p = Pattern::new(s("(a|b|ab)*bc"));
    assert_eq!(p.is_match(text), None);
    assert_eq!(p.try_is_match(text), None);
    let mut l = LoadMetadata::new();
    l.add_raw(entry("a", "source.x", vec![("increaseIndentPattern", RawValue::Str(s("(a|b|ab)*bc")))]));
    let metadata = Metadata::from_loaded(l);
    let scoped = metadata.metadata_for_scope(&[Some(1)]);
    assert_eq!(scoped.increase_indent(text), None);
    assert_eq!(scoped.checked_match(MetadataField::IncreaseIndent, text), None);
    assert_eq!(scoped.increase_indent("abbc"), Some(true));
}

#[test]
fn equal_paths_keep_insertion_order() {
    let mut l = LoadMetadata::new();
    l.add_raw(entry("same", "source.x", vec![("increaseIndentPattern", RawValue::Str(s("first")))]));
    l.add_raw(entry("same", "source.x", vec![("increaseIndentPattern", RawValue::Str(s("second")))]));
    l.add_raw(entry("same", "source.y", vec![("indentParens", RawValue::Bool(true))]));
    let m = Metadata::from_loaded(l);
    assert_eq!(m.scoped_metadata.len(), 2);
    assert_eq!(m.scoped_metadata[0].selector_string, "source.x");
    assert_eq!(m.scoped_metadata[1].selector_string, "source.y");
    assert_eq!(m.scoped_metadata[0].items.increase_indent_pattern.as_ref().unwrap().as_str(), "second");
}
