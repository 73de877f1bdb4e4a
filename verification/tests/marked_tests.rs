use dsync::marked::MarkedFile;
use dsync::FILE_SIGNATURE;

#[test]
fn text_round_trips_through_the_line_buffer() {
    let text = "first line\n\n  indented\nlast";
    let mf = MarkedFile::from_text(text);
    assert_eq!(mf.to_text(), text);
}

#[test]
fn signature_stamp_is_idempotent() {
    let mut mf = MarkedFile::from_text("fn main() {}");
    assert!(!mf.has_file_signature());
    mf.ensure_file_signature();
    assert!(mf.has_file_signature());
    let once = mf.to_text();
    mf.ensure_file_signature();
    assert_eq!(mf.to_text(), once);
    assert!(once.starts_with(FILE_SIGNATURE));
}

#[test]
fn ensure_mod_recognizes_existing_lines() {
    let mut mf = MarkedFile::from_text("mod users;\nfn hand() {}");
    mf.ensure_mod_stmt("users");
    assert_eq!(mf.to_text(), "mod users;\nfn hand() {}");
    mf.ensure_mod_stmt("posts");
    assert_eq!(mf.to_text(), "mod users;\nfn hand() {}\npub mod posts;");
    mf.ensure_mod_stmt("posts");
    assert_eq!(mf.to_text(), "mod users;\nfn hand() {}\npub mod posts;");
}

#[test]
fn ensure_use_recognizes_existing_lines() {
    let mut mf = MarkedFile::from_text("  pub use generated::*;  ");
    mf.ensure_use_stmt("generated::*");
    assert_eq!(mf.to_text(), "  pub use generated::*;  ");
    mf.ensure_use_stmt("other");
    assert_eq!(mf.to_text(), "  pub use generated::*;  \npub use other;");
}

#[test]
fn recognition_ignores_spacing_inside_the_line() {
    let mut mf = MarkedFile::from_text("mod  users ;");
    mf.ensure_mod_stmt("users");
    assert_eq!(mf.to_text(), "mod  users ;");
    let mut mf = MarkedFile::from_text("  pub   use   generated::* ;  ");
    mf.ensure_use_stmt("generated::*");
    assert_eq!(mf.to_text(), "  pub   use   generated::* ;  ");
    mf.remove_use_stmt("generated::*");
    assert_eq!(mf.to_text(), "");
}

#[test]
fn recognition_requires_whole_tokens() {
    // neither a prefix of the name nor a fused keyword may match
    let mut mf = MarkedFile::from_text("mod users_extra;\nmodusers;");
    mf.ensure_mod_stmt("users");
    assert_eq!(mf.to_text(), "mod users_extra;\nmodusers;\npub mod users;");
}

#[test]
fn remove_touches_only_matching_lines() {
    let original = "// hand comment\npub mod users;\nfn my_helper() {}\nmod users;\nstatic X: u8 = 0;";
    let mut mf = MarkedFile::from_text(original);
    mf.remove_mod_stmt("users");
    assert_eq!(
        mf.to_text(),
        "// hand comment\nfn my_helper() {}\nstatic X: u8 = 0;"
    );
    mf.remove_mod_stmt("users");
    assert_eq!(
        mf.to_text(),
        "// hand comment\nfn my_helper() {}\nstatic X: u8 = 0;"
    );
}

#[test]
fn remove_does_not_match_substrings_of_hand_text() {
    let original = "// talks about pub mod users; in prose but is a comment line";
    let mut mf = MarkedFile::from_text(original);
    mf.remove_mod_stmt("users");
    assert_eq!(mf.to_text(), original);
}

#[test]
fn ensure_then_remove_restores_the_original() {
    let original = "fn hand_written() {}\n// note";
    let mut mf = MarkedFile::from_text(original);
    mf.ensure_mod_stmt("generated");
    mf.ensure_use_stmt("generated::*");
    assert_eq!(
        mf.to_text(),
        "fn hand_written() {}\n// note\npub mod generated;\npub use generated::*;"
    );
    mf.remove_mod_stmt("generated");
    mf.remove_use_stmt("generated::*");
    assert_eq!(mf.to_text(), original);
}

#[test]
fn blank_detection_sees_whitespace_only_buffers() {
    let mut mf = MarkedFile::from_text("pub mod generated;\n   \npub use generated::*;");
    assert!(!mf.is_blank());
    mf.remove_mod_stmt("generated");
    mf.remove_use_stmt("generated::*");
    assert!(mf.is_blank());
}
