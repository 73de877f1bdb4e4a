use dsync::GenerationConfig;
use dsync::TableOptions;

fn opts() -> TableOptions {
    TableOptions::unset()
}

#[test]
fn unset_options_resolve_to_defaults() {
    let o = opts();
    assert!(!o.get_ignore());
    assert!(!o.get_tsync());
    assert!(!o.get_async());
    assert!(o.get_autogenerated_columns().is_empty());
}

#[test]
fn builders_set_only_their_field() {
    let o = opts().ignore();
    assert!(o.get_ignore());
    assert!(!o.get_tsync());
    let o = opts().tsync().use_async();
    assert!(o.get_tsync());
    assert!(o.get_async());
    assert!(!o.get_ignore());
    let o = opts().autogenerated_columns(vec!["created_at".to_string()]);
    assert_eq!(o.get_autogenerated_columns(), vec!["created_at".to_string()]);
}

#[test]
fn apply_defaults_merges_field_by_field() {
    let a = opts().ignore();
    let b = opts().autogenerated_columns(vec!["updated_at".to_string()]).tsync();
    let merged = a.apply_defaults(&b);
    assert!(merged.get_ignore());
    assert!(merged.get_tsync());
    assert_eq!(merged.get_autogenerated_columns(), vec!["updated_at".to_string()]);
}

#[test]
fn explicit_empty_list_overrides_default_list() {
    let a = opts().autogenerated_columns(vec![]);
    let b = opts().autogenerated_columns(vec!["created_at".to_string()]);
    let merged = a.apply_defaults(&b);
    assert!(merged.get_autogenerated_columns().is_empty());
}

#[test]
fn config_lookup_falls_back_to_defaults() {
    let config = GenerationConfig {
        table_options: vec![("users".to_string(), opts().ignore())],
        default_table_options: opts().autogenerated_columns(vec!["created_at".to_string()]),
        connection_type: "diesel::pg::PgConnection".to_string(),
    };
    let users = config.table("users");
    assert!(users.get_ignore());
    assert_eq!(users.get_autogenerated_columns(), vec!["created_at".to_string()]);
    let posts = config.table("posts");
    assert!(!posts.get_ignore());
    assert_eq!(posts.get_autogenerated_columns(), vec!["created_at".to_string()]);
}

#[test]
fn config_lookup_is_total_for_any_name() {
    let config = GenerationConfig {
        table_options: vec![],
        default_table_options: opts(),
        connection_type: String::new(),
    };
    let t = config.table("whatever");
    assert!(!t.get_ignore());
    assert!(t.get_autogenerated_columns().is_empty());
}
