use dsync::generate_code;
use dsync::marked::MarkedFile;
use dsync::parser::parse_schema;
use dsync::parser::ParseError;
use dsync::reconcile::plan_generation;
use dsync::reconcile::AggregatorAction;
use dsync::reconcile::TableDir;
use dsync::schema::ColumnType;
use dsync::GenerationConfig;
use dsync::TableOptions;
use dsync::FILE_SIGNATURE;

fn base_config() -> GenerationConfig {
    GenerationConfig {
        table_options: vec![],
        default_table_options: TableOptions::unset(),
        connection_type: "diesel::pg::PgConnection".to_string(),
    }
}

const POSTS_SCHEMA: &str = "table! {\n    posts (id) {\n        id -> Integer,\n        title -> Text,\n        created_at -> Timestamp,\n    }\n}\n";

#[test]
fn parses_one_table_with_columns_in_order() {
    let tables = parse_schema(POSTS_SCHEMA).unwrap();
    assert_eq!(tables.len(), 1);
    let t = &tables[0];
    assert_eq!(t.name, "posts");
    assert_eq!(t.primary_key_columns, vec!["id".to_string()]);
    assert_eq!(t.columns.len(), 3);
    assert_eq!(t.columns[0].name, "id");
    assert!(matches!(t.columns[0].ty, ColumnType::Integer));
    assert_eq!(t.columns[1].name, "title");
    assert!(matches!(t.columns[1].ty, ColumnType::Text));
    assert_eq!(t.columns[2].name, "created_at");
    assert!(matches!(t.columns[2].ty, ColumnType::Timestamp));
    assert!(!t.columns[0].is_nullable);
}

#[test]
fn parses_nullable_and_custom_types() {
    let schema = "table! {\n    things (id) {\n        id -> Int4,\n        note -> Nullable<Varchar>,\n        tags -> Array<Text>,\n        extra -> MySpecial,\n    }\n}\n";
    let tables = parse_schema(schema).unwrap();
    let t = &tables[0];
    assert!(matches!(t.columns[0].ty, ColumnType::Integer));
    assert!(t.columns[1].is_nullable);
    assert!(matches!(t.columns[1].ty, ColumnType::Nullable(_)));
    assert!(matches!(t.columns[2].ty, ColumnType::Array(_)));
    match &t.columns[3].ty {
        ColumnType::Custom(s) => assert_eq!(s, "MySpecial"),
        other => panic!("expected a passthrough type, got {:?}", other),
    }
    assert_eq!(t.columns[1].type_token, "Nullable<Varchar>");
}

#[test]
fn skips_unrelated_top_level_constructs() {
    let schema = "// a comment\n#[allow(dead_code)]\nfn helper() {}\n\ntable! {\n    users {\n        id -> Integer,\n        name -> Text,\n    }\n}\n\nconst OTHER: u8 = 3;\n";
    let tables = parse_schema(schema).unwrap();
    assert_eq!(tables.len(), 1);
    assert_eq!(tables[0].name, "users");
}

#[test]
fn parses_path_prefixed_macro_and_inner_imports() {
    let schema = "diesel::table! {\n    use diesel::sql_types::*;\n\n    users (id) {\n        id -> Integer,\n        /// the display name\n        name -> Text,\n        #[max_length = 255]\n        email -> Varchar,\n    }\n}\n";
    let tables = parse_schema(schema).unwrap();
    assert_eq!(tables.len(), 1);
    assert_eq!(tables[0].name, "users");
    assert_eq!(tables[0].columns.len(), 3);
    assert_eq!(tables[0].columns[2].name, "email");
}

#[test]
fn parses_several_tables_in_order() {
    let schema = "table! {\n    users (id) {\n        id -> Integer,\n    }\n}\n\ntable! {\n    posts (id) {\n        id -> Integer,\n    }\n}\n";
    let tables = parse_schema(schema).unwrap();
    assert_eq!(tables.len(), 2);
    assert_eq!(tables[0].name, "users");
    assert_eq!(tables[1].name, "posts");
    let generated = generate_code(schema.to_string(), base_config()).unwrap();
    let dirs: Vec<TableDir> = vec![];
    let plan = plan_generation(&generated, &base_config(), MarkedFile::empty(), &dirs);
    assert_eq!(plan.outputs.len(), 2);
    assert_eq!(plan.root_mod_text, "\npub mod users;\npub mod posts;");
}

#[test]
fn primary_key_falls_back_to_id_convention() {
    let schema = "table! {\n    users {\n        id -> Integer,\n        name -> Text,\n    }\n}\n";
    let tables = parse_schema(schema).unwrap();
    assert_eq!(tables[0].primary_key_columns, vec!["id".to_string()]);
}

#[test]
fn missing_primary_key_is_an_error_naming_the_table() {
    let schema = "table! {\n    notes {\n        body -> Text,\n    }\n}\n";
    match parse_schema(schema) {
        Err(ParseError::NoPrimaryKey(name)) => assert_eq!(name, "notes"),
        other => panic!("expected a missing-primary-key error, got {:?}", other),
    }
}

#[test]
fn duplicate_column_is_an_error() {
    let schema = "table! {\n    users (id) {\n        id -> Integer,\n        id -> Text,\n    }\n}\n";
    match parse_schema(schema) {
        Err(ParseError::DuplicateColumn(table, col)) => {
            assert_eq!(table, "users");
            assert_eq!(col, "id");
        },
        other => panic!("expected a duplicate-column error, got {:?}", other),
    }
}

#[test]
fn unknown_primary_key_column_is_an_error() {
    let schema = "table! {\n    users (nope) {\n        id -> Integer,\n    }\n}\n";
    match parse_schema(schema) {
        Err(ParseError::UnknownPrimaryKeyColumn(table, col)) => {
            assert_eq!(table, "users");
            assert_eq!(col, "nope");
        },
        other => panic!("expected an unknown-key error, got {:?}", other),
    }
}

#[test]
fn truncated_input_is_an_error() {
    let schema = "table! {\n    users (id) {\n        id -> Integer,";
    assert!(matches!(parse_schema(schema), Err(ParseError::UnexpectedEnd)));
}

#[test]
fn missing_table_name_is_an_error() {
    let schema = "table! { ( ) { } }";
    assert!(matches!(parse_schema(schema), Err(ParseError::ExpectedIdent(_))));
}

#[test]
fn missing_column_list_is_an_error() {
    let schema = "table! { users }";
    assert!(matches!(parse_schema(schema), Err(ParseError::ExpectedToken(_))));
}

#[test]
fn generates_full_and_insertable_structs() {
    let mut config = base_config();
    config.table_options.push((
        "posts".to_string(),
        TableOptions::unset().autogenerated_columns(vec!["created_at".to_string()]),
    ));
    let tables = generate_code(POSTS_SCHEMA.to_string(), config).unwrap();
    let code = &tables[0].generated_code;
    let expected = format!(
        "{FILE_SIGNATURE}\n\npub struct Posts {{\n    pub id: i32,\n    pub title: String,\n    pub created_at: NaiveDateTime,\n}}\n\npub struct NewPosts {{\n    pub title: String,\n}}\n"
    );
    assert_eq!(code, &expected);
}

#[test]
fn generated_code_is_deterministic() {
    let a = generate_code(POSTS_SCHEMA.to_string(), base_config()).unwrap();
    let b = generate_code(POSTS_SCHEMA.to_string(), base_config()).unwrap();
    assert_eq!(a[0].generated_code, b[0].generated_code);
}

#[test]
fn ignored_table_is_omitted_from_generation() {
    let mut config = base_config();
    config.table_options.push(("posts".to_string(), TableOptions::unset().ignore()));
    let tables = generate_code(POSTS_SCHEMA.to_string(), config).unwrap();
    assert!(tables.is_empty());
}

#[test]
fn every_generated_table_is_signature_stamped() {
    let tables = generate_code(POSTS_SCHEMA.to_string(), base_config()).unwrap();
    assert_eq!(tables.len(), 1);
    assert!(tables[0].generated_code.starts_with(FILE_SIGNATURE));
}

#[test]
fn tsync_option_adds_the_attribute() {
    let mut config = base_config();
    config.table_options.push(("posts".to_string(), TableOptions::unset().tsync()));
    let tables = generate_code(POSTS_SCHEMA.to_string(), config).unwrap();
    assert!(tables[0].generated_code.contains("#[tsync]\npub struct Posts"));
}

#[test]
fn plan_creates_files_for_new_tables() {
    let tables = generate_code(POSTS_SCHEMA.to_string(), base_config()).unwrap();
    let dirs: Vec<TableDir> = vec![];
    let plan = plan_generation(&tables, &base_config(), MarkedFile::empty(), &dirs);
    assert_eq!(plan.outputs.len(), 1);
    assert_eq!(plan.outputs[0].name, "posts");
    assert!(plan.outputs[0].generated.starts_with(FILE_SIGNATURE));
    assert_eq!(
        plan.outputs[0].mod_text,
        "\npub mod generated;\npub use generated::*;"
    );
    assert!(plan.orphans.is_empty());
    assert_eq!(plan.root_mod_text, "\npub mod posts;");
}

#[test]
fn plan_is_idempotent_on_an_unchanged_tree() {
    let tables = generate_code(POSTS_SCHEMA.to_string(), base_config()).unwrap();
    let dirs: Vec<TableDir> = vec![];
    let first = plan_generation(&tables, &base_config(), MarkedFile::empty(), &dirs);
    let dirs_after = vec![TableDir {
        name: "posts".to_string(),
        generated: Some(MarkedFile::from_text(&first.outputs[0].generated)),
        mod_file: Some(MarkedFile::from_text(&first.outputs[0].mod_text)),
        has_other_entries: false,
    }];
    let second = plan_generation(
        &tables,
        &base_config(),
        MarkedFile::from_text(&first.root_mod_text),
        &dirs_after,
    );
    assert_eq!(second.outputs.len(), 1);
    assert_eq!(second.outputs[0].generated, first.outputs[0].generated);
    assert_eq!(second.outputs[0].mod_text, first.outputs[0].mod_text);
    assert_eq!(second.root_mod_text, first.root_mod_text);
    assert!(second.orphans.is_empty());
}

#[test]
fn orphaned_directory_is_cleaned_up() {
    let tables = generate_code(POSTS_SCHEMA.to_string(), base_config()).unwrap();
    let orphan_generated = format!("{FILE_SIGNATURE}\npub struct Old {{}}\n");
    let dirs = vec![TableDir {
        name: "old_table".to_string(),
        generated: Some(MarkedFile::from_text(&orphan_generated)),
        mod_file: Some(MarkedFile::from_text("pub mod generated;\npub use generated::*;")),
        has_other_entries: false,
    }];
    let root = MarkedFile::from_text("pub mod old_table;");
    let plan = plan_generation(&tables, &base_config(), root, &dirs);
    assert_eq!(plan.orphans.len(), 1);
    let o = &plan.orphans[0];
    assert_eq!(o.name, "old_table");
    assert!(matches!(o.aggregator, AggregatorAction::Delete));
    assert!(o.remove_dir);
    assert_eq!(plan.root_mod_text, "pub mod posts;");
}

#[test]
fn orphan_cleanup_preserves_hand_written_lines() {
    let tables: Vec<dsync::ParsedTableMacro> = vec![];
    let dirs = vec![TableDir {
        name: "old".to_string(),
        generated: Some(MarkedFile::from_text(FILE_SIGNATURE)),
        mod_file: Some(MarkedFile::from_text(
            "pub mod generated;\nfn hand_written() {}\npub use generated::*;",
        )),
        has_other_entries: false,
    }];
    let plan = plan_generation(&tables, &base_config(), MarkedFile::empty(), &dirs);
    assert_eq!(plan.orphans.len(), 1);
    match &plan.orphans[0].aggregator {
        AggregatorAction::Rewrite(text) => assert_eq!(text, "fn hand_written() {}"),
        _ => panic!("expected the aggregator file to be rewritten"),
    }
    assert!(!plan.orphans[0].remove_dir);
}

#[test]
fn orphan_with_other_entries_keeps_its_directory() {
    let tables: Vec<dsync::ParsedTableMacro> = vec![];
    let dirs = vec![TableDir {
        name: "old".to_string(),
        generated: Some(MarkedFile::from_text(FILE_SIGNATURE)),
        mod_file: None,
        has_other_entries: true,
    }];
    let plan = plan_generation(&tables, &base_config(), MarkedFile::empty(), &dirs);
    assert_eq!(plan.orphans.len(), 1);
    assert!(matches!(plan.orphans[0].aggregator, AggregatorAction::Keep));
    assert!(!plan.orphans[0].remove_dir);
}

#[test]
fn unmanaged_directory_is_never_touched() {
    let tables: Vec<dsync::ParsedTableMacro> = vec![];
    let dirs = vec![
        TableDir {
            name: "by_hand".to_string(),
            generated: Some(MarkedFile::from_text("pub struct NotOurs {}")),
            mod_file: None,
            has_other_entries: false,
        },
        TableDir {
            name: "no_generated_file".to_string(),
            generated: None,
            mod_file: Some(MarkedFile::from_text("pub mod generated;")),
            has_other_entries: false,
        },
    ];
    let plan = plan_generation(&tables, &base_config(), MarkedFile::empty(), &dirs);
    assert!(plan.orphans.is_empty());
}

#[test]
fn table_and_directory_match_case_insensitively() {
    let schema = "table! {\n    Users (id) {\n        id -> Integer,\n    }\n}\n";
    let tables = generate_code(schema.to_string(), base_config()).unwrap();
    let dirs = vec![TableDir {
        name: "users".to_string(),
        generated: Some(MarkedFile::from_text(FILE_SIGNATURE)),
        mod_file: None,
        has_other_entries: false,
    }];
    let plan = plan_generation(&tables, &base_config(), MarkedFile::empty(), &dirs);
    assert!(plan.orphans.is_empty());
}

#[test]
fn ignored_table_becomes_an_orphan_for_cleanup() {
    let mut config = base_config();
    config.table_options.push(("posts".to_string(), TableOptions::unset().ignore()));
    let tables = generate_code(POSTS_SCHEMA.to_string(), config.clone()).unwrap();
    let dirs = vec![TableDir {
        name: "posts".to_string(),
        generated: Some(MarkedFile::from_text(FILE_SIGNATURE)),
        mod_file: Some(MarkedFile::from_text("pub mod generated;\npub use generated::*;")),
        has_other_entries: false,
    }];
    let plan = plan_generation(&tables, &config, MarkedFile::from_text("pub mod posts;"), &dirs);
    assert!(plan.outputs.is_empty());
    assert_eq!(plan.orphans.len(), 1);
    assert_eq!(plan.orphans[0].name, "posts");
    assert!(plan.orphans[0].remove_dir);
    assert!(plan.root_mod_text.trim().is_empty());
}

#[test]
fn deleting_then_re_adding_a_table_reproduces_identical_output() {
    let tables = generate_code(POSTS_SCHEMA.to_string(), base_config()).unwrap();
    let no_dirs: Vec<TableDir> = vec![];
    let first = plan_generation(&tables, &base_config(), MarkedFile::empty(), &no_dirs);
    // remove the table: its directory becomes an orphan and is emptied
    let removed: Vec<dsync::ParsedTableMacro> = vec![];
    let dirs_after_first = vec![TableDir {
        name: "posts".to_string(),
        generated: Some(MarkedFile::from_text(&first.outputs[0].generated)),
        mod_file: Some(MarkedFile::from_text(&first.outputs[0].mod_text)),
        has_other_entries: false,
    }];
    let cleanup = plan_generation(
        &removed,
        &base_config(),
        MarkedFile::from_text(&first.root_mod_text),
        &dirs_after_first,
    );
    assert_eq!(cleanup.orphans.len(), 1);
    assert!(cleanup.orphans[0].remove_dir);
    // only whitespace is left in the mod file, so cleanup deletes it
    assert!(matches!(cleanup.orphans[0].aggregator, AggregatorAction::Delete));
    // re-add the same table to a clean tree: byte-identical artifacts
    let again = plan_generation(&tables, &base_config(), MarkedFile::empty(), &no_dirs);
    assert_eq!(again.outputs[0].generated, first.outputs[0].generated);
    assert_eq!(again.outputs[0].mod_text, first.outputs[0].mod_text);
    assert_eq!(again.root_mod_text, first.root_mod_text);
}
