//! Names: those the user may give, and those working state is kept under.

use marcel::fsops::conflict::numbered_name;
use marcel::fsops::copy::{xattrs_unsupported, AttributeError};
use marcel::fsops::local::{
    diagnose_rename, floor_char_boundary, quarantined_name, sorted_children, Name, RenameError,
    RenameErrorKind, MAX_NAME_BYTES,
};
use marcel::fsops::moving::move_error;
use marcel::fsops::mutations::{validate_entry_name, validate_entry_os_name};
use marcel::fsops::working::{
    boot_id, is_internal_working_name, is_quarantine_from_another_boot, is_recovery_remnant_name,
    is_replacement_quarantine_name, owner_prefix, recovery_remnant_prefix,
    replacement_quarantine_prefix, staging_prefix, working_owner, BootId, WorkingKind,
    BOOT_ID_LENGTH,
};
use marcel::path::PathBuf;
use marcel::text::{decimal_digits, parse_number, push_decimal, to_ascii_lower, trim_bytes};

fn p(text: &str) -> PathBuf {
    PathBuf::from_bytes(text.as_bytes())
}

fn boot() -> BootId {
    boot_id(Some(b"01234567-89ab-cdef-0123-456789abcdef\n"))
}

fn escaping_names_are_refused() {
    for name in ["", " ", ".", "..", "nested/folder", "bad\0name"] {
        assert!(validate_entry_name(name).is_err(), "{name:?} was accepted");
    }
    assert!(validate_entry_name(".config").is_ok());
    assert!(validate_entry_name("New Folder").is_ok());
}

#[test]
fn tests_rejects_names_that_escape_the_parent_or_have_no_name() {
    escaping_names_are_refused();
}

#[test]
fn file_ops_rejects_names_that_escape_the_parent_or_have_no_name() {
    escaping_names_are_refused();
}

#[test]
fn every_refused_name_is_told_why() {
    assert_eq!(validate_entry_name(" \t").unwrap_err(), "Enter a name");
    assert_eq!(
        validate_entry_name("..").unwrap_err(),
        "“..” is reserved and cannot be used as a name"
    );
    assert_eq!(
        validate_entry_os_name(b"a/\xff").unwrap_err(),
        "Names cannot contain “/” or a null character"
    );
    assert!(validate_entry_os_name(b"\xff").is_ok());
}

#[test]
fn rejects_names_reserved_for_marcels_working_files() {
    for name in [
        ".marcel-replaced-999999-0-notes",
        ".marcel-copy-1-0-staging",
        ".marcel-archive-abc",
        ".marcel-delete-1-0-thesis",
        ".marcel-recovered-0-report.txt",
        ".marcel-",
    ] {
        let error = validate_entry_name(name).unwrap_err();
        assert!(error.contains("reserved"), "{name:?}: {error}");
    }
    assert!(validate_entry_name("marcel-replaced-1-0-notes").is_ok());
    assert!(validate_entry_name(".marcel").is_ok());
    assert!(validate_entry_name(".marcelrc").is_ok());
}

#[test]
fn staging_names_carry_a_parseable_owner() {
    for kind in [WorkingKind::Copy, WorkingKind::Archive] {
        let mut name = staging_prefix(kind, &boot(), 77, 3);
        name.extend_from_slice(b"a1b2c3");
        let owner = working_owner(&name).unwrap();
        assert_eq!(owner.kind, kind);
        assert_eq!(owner.boot, boot().as_bytes());
        assert_eq!(owner.process, 77);
        assert!(is_internal_working_name(&name, &boot()));
        assert!(!is_quarantine_from_another_boot(&name, &boot()));
    }
    assert_ne!(
        staging_prefix(WorkingKind::Copy, &boot(), 77, 3),
        staging_prefix(WorkingKind::Copy, &boot(), 77, 4)
    );
}

#[test]
fn only_this_boots_working_names_are_hidden() {
    let other_boot = "a".repeat(BOOT_ID_LENGTH);
    for name in [
        format!(".marcel-copy-{other_boot}-1-0-a1b2c3"),
        format!(".marcel-archive-{other_boot}-1-0-a1b2c3"),
        ".marcel-copy-1-0-staging".to_string(),
        ".marcel-archive-abc".to_string(),
        ".marcel-archive-".to_string(),
    ] {
        assert!(!is_internal_working_name(name.as_bytes(), &boot()), "{name}");
        assert!(!is_quarantine_from_another_boot(name.as_bytes(), &boot()), "{name}");
    }
}

#[test]
fn working_names_do_not_catch_user_data() {
    let boot_text = String::from_utf8(boot().as_bytes().to_vec()).unwrap();
    let mine = format!(".marcel-replaced-{boot_text}-1-0-report.txt");
    assert!(is_internal_working_name(mine.as_bytes(), &boot()));
    let other_boot = format!(".marcel-replaced-{}-1-0-report.txt", "a".repeat(32));
    for name in [
        ".marcel-delete-1-0-report.txt",
        other_boot.as_str(),
        ".marcel-replaced-1-0-report.txt",
        "report.txt",
        ".hidden",
        "marcel-replaced-1-0",
    ] {
        assert!(!is_internal_working_name(name.as_bytes(), &boot()), "{name}");
    }
    assert!(is_quarantine_from_another_boot(other_boot.as_bytes(), &boot()));
    assert!(!is_quarantine_from_another_boot(mine.as_bytes(), &boot()));
    assert!(!is_quarantine_from_another_boot(b".marcel-replaced-1-0-report.txt", &boot()));
    assert_eq!(owner_prefix(WorkingKind::Replaced, &boot(), 1), mine.as_bytes()[..52]);
    assert!(is_replacement_quarantine_name(mine.as_bytes()));
    assert!(!is_recovery_remnant_name(mine.as_bytes()));
    assert_eq!(recovery_remnant_prefix(), b".marcel-recovered-");
    let bootless = [replacement_quarantine_prefix(8), b"0-notes".to_vec()].concat();
    assert_eq!(bootless, b".marcel-replaced-8-0-notes");
    assert!(working_owner(&bootless).is_none());
}

#[test]
fn a_boot_that_cannot_be_read_is_zero() {
    assert_eq!(boot().as_bytes(), b"0123456789abcdef0123456789abcdef");
    assert_eq!(boot_id(None).as_bytes(), "0".repeat(32).as_bytes());
    assert_eq!(boot_id(Some(b"short")).as_bytes(), "0".repeat(32).as_bytes());
    let named = b"01234567-89ab-cdef-0123-456789abcdef\n".to_vec();
    assert_eq!(boot_id(Some(&named)).as_bytes(), boot().as_bytes());
    let no_text = [named, b"\xff".to_vec()].concat();
    assert_eq!(boot_id(Some(&no_text)).as_bytes(), "0".repeat(32).as_bytes());
}

#[test]
fn abandoned_work_is_what_nobody_can_want() {
    let owner = |kind: WorkingKind, boot: &BootId| {
        let prefix = owner_prefix(kind, boot, 5);
        working_owner(&[prefix, b"0-x".to_vec()].concat()).unwrap()
    };
    let foreign = boot_id(Some("f".repeat(32).as_bytes()));
    for kind in [WorkingKind::Replaced, WorkingKind::Copy, WorkingKind::Archive] {
        assert!(owner(kind, &boot()).is_abandoned(&boot(), 6, false));
        assert!(!owner(kind, &boot()).is_abandoned(&boot(), 6, true));
        assert!(!owner(kind, &boot()).is_abandoned(&boot(), 5, false));
        let swept = owner(kind, &foreign).is_abandoned(&boot(), 6, true);
        assert_eq!(swept, kind != WorkingKind::Replaced);
    }
}

#[test]
fn a_quarantine_name_stays_within_the_length_limit_on_a_character_boundary() {
    let name = quarantined_name(b".marcel-replaced-1-", 7, "猫".repeat(120).as_bytes());
    assert!(name.len() <= MAX_NAME_BYTES);
    let name = String::from_utf8(name).expect("the cut lands on a character boundary");
    assert!(name.starts_with(".marcel-replaced-1-7-猫"));
    let name = quarantined_name(b".marcel-replaced-4194304-", 9, "é".repeat(200).as_bytes());
    assert!(name.len() <= MAX_NAME_BYTES);
    assert!(String::from_utf8(name).is_ok());
    assert_eq!(floor_char_boundary("aé".as_bytes(), 2), 1);
    assert_eq!(floor_char_boundary("aé".as_bytes(), 9), 3);
}

#[test]
fn duplicates_are_numbered_before_the_extension() {
    assert_eq!(numbered_name(b"report.txt", 2, false), b"report (2).txt");
    assert_eq!(numbered_name(b"v1.2", 10, true), b"v1.2 (10)");
    assert_eq!(numbered_name(b".bashrc", 3, false), b".bashrc (3)");
}

#[test]
fn children_are_listed_in_byte_order() {
    let names = [b"b".to_vec(), b"a\xff".to_vec(), b"a".to_vec(), b"B".to_vec()];
    let sorted = sorted_children(names.into_iter().map(|n| Name::new(n).unwrap()).collect());
    let bytes: Vec<&[u8]> = sorted.iter().map(|name| name.as_bytes()).collect();
    assert_eq!(bytes, [b"B".as_slice(), b"a", b"a\xff", b"b"]);
    for refused in ["", ".", "..", "a/b"] {
        assert!(Name::new(refused.as_bytes().to_vec()).is_none());
    }
}

#[test]
fn a_refused_rename_says_what_can_be_done() {
    let path = PathBuf::from_bytes(b"/home/me/a");
    let other = PathBuf::from_bytes(b"/mnt/a");
    let error = |kind: RenameErrorKind| RenameError { kind, text: "system text".to_string() };
    for kind in [RenameErrorKind::AlreadyExists, RenameErrorKind::Other] {
        assert!(!diagnose_rename(&error(kind), &path).is_empty());
    }
    assert_eq!(
        move_error(&error(RenameErrorKind::Other), &path, &other),
        "Could not move “/home/me/a” to “/mnt/a”: system text"
    );
    assert!(xattrs_unsupported(AttributeError { unsupported: true, code: None }));
    assert!(!xattrs_unsupported(AttributeError { unsupported: false, code: Some(13) }));
}

#[test]
fn numbers_and_text_are_read_and_written() {
    assert_eq!(decimal_digits(0), b"0");
    assert_eq!(decimal_digits(u64::MAX), b"18446744073709551615");
    assert_eq!(parse_number(b"+42", 100), Some(42));
    assert_eq!(parse_number(b"101", 100), None);
    assert_eq!(parse_number(b"", 100), None);
    assert_eq!(parse_number(b"-1", 100), None);
    let mut text = "n = ".to_string();
    push_decimal(&mut text, 1024);
    assert_eq!(text, "n = 1024");
    assert_eq!(to_ascii_lower("ÀBc".as_bytes()), "Àbc".as_bytes());
    assert_eq!(trim_bytes("\u{3000} a b\u{85}\n".as_bytes()), b"a b");
    let shown = PathBuf::from_bytes(b"/home/caf\xe9/./x//y/").display();
    assert_eq!(shown, "/home/caf\u{fffd}/./x//y/");
}

#[test]
fn a_path_keeps_how_it_was_spelled() {
    let spelled = p("/a//b/./c/");
    assert_eq!(spelled.to_bytes(), b"/a//b/./c/");
    assert_eq!(spelled.display(), "/a//b/./c/");
    assert!(spelled.same(&p("/a/b/c")));
    assert_eq!(spelled.join(b"d").to_bytes(), b"/a//b/./c/d");
    assert_eq!(p("/a").join(b"d").to_bytes(), b"/a/d");
    assert_eq!(p("/a").join(b"/d").to_bytes(), b"/d");
    assert_eq!(p("").join(b"d").to_bytes(), b"d");
    assert_eq!(p("a").join(b"").to_bytes(), b"a/");
    assert_eq!(spelled.parent().unwrap().to_bytes(), b"/a//b");
    assert_eq!(p("/a").parent().unwrap().to_bytes(), b"/");
    assert_eq!(p("a").parent().unwrap().to_bytes(), b"");
    assert!(p("//").parent().is_none());
    let relative = spelled.strip_prefix(&p("/a")).unwrap();
    assert_eq!(relative.to_bytes(), b"b/c");
    assert_eq!(p("/x/").extended(&relative).to_bytes(), b"/x/b/c");
}
