//! What archives are called, what they list, and how 7-Zip is asked.

use marcel::fsops::archive::{
    archive_stem, default_zip_name, is_compound_tar_archive, is_supported_archive,
    is_supported_archive_with, rar_support_enabled, validate_archive_path, validate_preflight,
    ArchiveEntry, Budget, MAX_ARCHIVE_ENTRIES, MAX_EXPANDED_BYTES,
};
use marcel::fsops::backend::{
    check_cancelled, discover, discover_with, is_executable, read_bounded, read_listing, supervise,
    ArchiveBackend, CommandOutput, Discovery, SevenZipBackend,
};
use marcel::fsops::identity::{Metadata, SnapshotKind};
use marcel::fsops::listing::parse_listing;
use marcel::path::PathBuf;

fn p(text: &str) -> PathBuf {
    PathBuf::from_bytes(text.as_bytes())
}

fn program(mode: u32) -> Option<Metadata> {
    Some(Metadata {
        device: 1,
        inode: 2,
        changed_seconds: 3,
        changed_nanoseconds: 4,
        kind: SnapshotKind::File,
        len: 5,
        mode,
        links: 1,
    })
}

/// The program found on a disk that holds these programs.
fn discovered(
    override_program: Option<&str>,
    path: &str,
    programs: &[&str],
) -> Result<PathBuf, String> {
    let executable = p("/prefix/bin/marcel-rs");
    let discovery =
        discover(override_program.map(str::as_bytes), &executable, Some(path.as_bytes()));
    let there = |path: &PathBuf| {
        let found = programs.iter().any(|program| p(program).same(path));
        is_executable(if found { program(0o755) } else { None })
    };
    let executable = match &discovery {
        Discovery::Override(path) => vec![there(path)],
        Discovery::Search(paths) => paths.iter().map(there).collect(),
    };
    discover_with(discovery, &executable)
}

#[test]
fn discovery_order_is_override_private_7zz_then_7z() {
    let all = ["/override", "/prefix/libexec/marcel/7zz", "/path/7zz", "/path/7z"];
    let found = |override_program, programs: &[&str]| {
        discovered(override_program, "/path", programs).unwrap().to_bytes()
    };
    assert_eq!(found(Some("/override"), &all), b"/override");
    assert_eq!(found(None, &all), b"/prefix/libexec/marcel/7zz");
    assert_eq!(found(Some(""), &all), b"/prefix/libexec/marcel/7zz");
    assert_eq!(found(None, &all[2..]), b"/path/7zz");
    assert_eq!(found(None, &all[3..]), b"/path/7z");
    assert!(discovered(None, "/path", &[]).is_err());
    assert!(!is_executable(program(0o644)));
}

#[test]
fn explicit_missing_override_is_not_silently_ignored() {
    let discovery =
        discover(Some(b"/definitely/missing/7zz"), &p("/prefix/bin/marcel-rs"), None);
    let error = discover_with(discovery, &vec![false]).unwrap_err();
    assert!(error.contains("MARCEL_7ZZ"));
}

#[test]
fn listing_parser_accepts_regular_entries_and_rejects_escapes_and_links() {
    let listing = "\
Path = folder
Size = 0
Folder = +

Path = folder/file.txt
Size = 12
Folder = -
";
    let entries = parse_listing(listing).unwrap();
    assert_eq!(entries.len(), 2);
    assert!(entries[0].path.same(&p("folder")));
    assert_eq!((entries[0].size, entries[0].is_dir), (0, true));
    assert!(entries[1].path.same(&p("folder/file.txt")));
    assert_eq!((entries[1].size, entries[1].is_dir), (12, false));

    for path in [
        "../escape",
        "folder/../escape",
        "folder/./file",
        "folder//file",
        "/absolute",
        r"C:\\escape",
        r"folder\\escape",
    ] {
        let listing = format!("Path = {path}\nSize = 1\nFolder = -\n");
        assert!(parse_listing(&listing).is_err(), "{path:?} was accepted");
    }
    assert!(parse_listing("Path = link\nSize = 0\nSymbolic Link = ../target\n").is_err());
    assert!(parse_listing("Path = secret.txt\nSize = 1\nEncrypted = +\n")
        .unwrap_err()
        .contains("Password-protected"));
}

#[test]
fn listing_parser_refuses_what_is_not_a_file_or_folder() {
    for (attributes, kind) in [
        ("Attributes =  brw-rw----", "block device"),
        ("Attributes = A srwxr-xr-x", "socket"),
        ("Attributes = _ prw-r--r--", "named pipe"),
        ("Attributes = D_ lrwxrwxrwx", "symbolic link"),
        ("Mode = crw-rw-rw-", "character device"),
        ("Mode = brw-rw----", "block device"),
    ] {
        let listing = format!("Path = entry\nSize = 0\n{attributes}\n");
        let error = parse_listing(&listing).unwrap_err();
        assert!(error.contains(kind), "{attributes}: {error}");
    }
    // Windows flags alone are not a mode, and a `D` flag is still a folder.
    let entries = parse_listing("Path = made-on-windows\nSize = 0\nAttributes = A\n").unwrap();
    assert!(!entries[0].is_dir);
    let entries = parse_listing("Path = folder\nSize = 0\nAttributes = D\n").unwrap();
    assert!(entries[0].is_dir);
    let entries = parse_listing("Path = folder\nSize = 0\nAttributes = _ drwxr-xr-x\n").unwrap();
    assert!(entries[0].is_dir);
}

#[test]
fn listing_limits_entry_count_and_declared_expanded_size() {
    let oversized = format!("Path = huge.bin\nSize = {}\nFolder = -\n", MAX_EXPANDED_BYTES + 1);
    assert!(parse_listing(&oversized).is_err());

    let mut too_many = String::new();
    for index in 0..=MAX_ARCHIVE_ENTRIES {
        too_many.push_str(&format!("Path = {index}\nSize = 0\nFolder = -\n\n"));
    }
    assert!(parse_listing(&too_many).is_err());
}

#[test]
fn archive_stem_never_yields_a_name_marcel_would_refuse() {
    for name in ["..zip", "...zip", ".marcel-copy-x.zip", " .zip", "..tar.gz"] {
        assert_eq!(archive_stem(&p(&format!("/d/{name}"))), "Archive", "{name}");
    }
    assert_eq!(archive_stem(&p(".hidden.zip")), ".hidden");
    assert_eq!(archive_stem(&p("a.b.zip")), "a.b");
    assert_eq!(archive_stem(&p(".zip")), ".zip", "no stem to peel is not an error");
    let broken = PathBuf::from_bytes(b"caf\xe9.zip");
    assert_eq!(archive_stem(&broken), "caf\u{fffd}");
}

#[test]
fn archive_names_cover_compound_extensions() {
    assert_eq!(archive_stem(&p("backup.tar.gz")), "backup");
    assert_eq!(archive_stem(&p("photos.zip")), "photos");
    assert_eq!(default_zip_name(&[p("/tmp/report.pdf")], false), "report.zip");
    assert_eq!(default_zip_name(&[p("/tmp/a"), p("/tmp/b")], false), "Archive.zip");
    assert!(is_supported_archive(&p("BOOKS.CBZ"), None));
    assert!(!is_supported_archive(&p("notes.txt"), None));
    for name in ["books.cbr", "archive.rar"] {
        assert!(!is_supported_archive_with(&p(name), false));
        assert!(is_supported_archive_with(&p(name), true));
    }
    assert!(is_compound_tar_archive(&p("backup.TAR.GZ")));
    assert!(!is_compound_tar_archive(&p("backup.tar")));
    assert!(rar_support_enabled(Some("1")));
    assert!(!rar_support_enabled(None));
}

#[test]
fn subprocess_capture_is_bounded_and_reports_truncation() {
    let capture = read_bounded(&vec![b"0123456789".to_vec()], 4);
    assert_eq!(capture.bytes, b"0123");
    assert!(capture.truncated);
    let capture = read_bounded(&vec![b"01".to_vec(), b"23".to_vec()], 4);
    assert_eq!(capture.bytes, b"0123");
    assert!(!capture.truncated);
}

#[test]
fn unsafe_paths_and_oversized_archives_are_refused() {
    for path in ["", "/etc/passwd", "a\\b", "a/../b", "./a", "a//b", "c:d"] {
        let error = validate_archive_path(path.as_bytes()).unwrap_err();
        assert_eq!(error, format!("Archive contains unsafe path “{path}”"));
    }
    assert!(validate_archive_path(b"a/b.txt").is_ok());

    assert_eq!(
        validate_preflight(&Vec::new()).unwrap_err(),
        "Archive contains no extractable entries"
    );
    for path in ["a//b", "a/./b", "a/b/", "a/../b"] {
        let entry = ArchiveEntry { path: p(path), size: 1, is_dir: false };
        assert_eq!(
            validate_preflight(&vec![entry]).unwrap_err(),
            format!("Archive contains unsafe path “{path}”")
        );
    }
    let huge = vec![ArchiveEntry { path: p("a"), size: MAX_EXPANDED_BYTES + 1, is_dir: false }];
    assert_eq!(
        validate_preflight(&huge).unwrap_err(),
        "Archive expands beyond Marcel's 100 GiB safety limit"
    );
    let mut budget = Budget::staged();
    budget.entries = MAX_ARCHIVE_ENTRIES;
    assert_eq!(budget.add(1).unwrap_err(), "Archive extracted more than 100000 entries");
    let mut budget = Budget::listing();
    budget.bytes = 1;
    assert_eq!(budget.add(u64::MAX).unwrap_err(), "Archive size overflowed");
}

#[test]
fn names_are_handed_to_the_archive_program_literally() {
    let backend = SevenZipBackend::from_program(p("/usr/bin/7zz"));
    let command = backend.list(&p("/home/me/*.zip"));
    assert!(command.program.same(&p("/usr/bin/7zz")));
    assert!(command.arguments.contains(&b"-spd".to_vec()));
    assert_eq!(command.arguments.last().unwrap(), b"/home/me/*.zip");

    let command = backend.extract(&p("/home/me/a.zip"), &p("/home/me/out"));
    assert!(command.arguments.contains(&b"-o/home/me/out".to_vec()));
    assert!(command.monitored.unwrap().same(&p("/home/me/out")));

    let sources = vec![p("/home/me/*.txt"), p("/home/me/-x")];
    let command = backend.create_zip(&sources, &p("/home/me/s/archive.zip")).unwrap();
    assert!(command.current_dir.unwrap().same(&p("/home/me")));
    let separator = command.arguments.iter().position(|argument| argument == b"--").unwrap();
    let names = [b"*.txt".to_vec(), b"-x".to_vec()];
    assert!(command.arguments[separator..].ends_with(&names));

    let apart = vec![p("/a/x"), p("/b/y")];
    assert_eq!(
        backend.create_zip(&apart, &p("/a/z.zip")).unwrap_err(),
        "Compression sources must share one directory"
    );
}

#[test]
fn a_failing_archive_program_is_quoted() {
    let output = CommandOutput {
        success: false,
        status: "exit status: 2".to_string(),
        stdout: b"out".to_vec(),
        stdout_truncated: false,
        stderr: b"  broken \xff archive\n".to_vec(),
    };
    assert_eq!(
        output.require_success("list", &p("/a.zip")).unwrap_err(),
        "Could not list “/a.zip” (archive backend exited with exit status: 2): broken \u{fffd} archive"
    );
    let silent = CommandOutput { stdout: Vec::new(), stderr: b" \n".to_vec(), ..output };
    assert!(silent.require_success("list", &p("/a.zip")).unwrap_err().ends_with("no diagnostics"));

    let listed = CommandOutput {
        success: true,
        status: "exit status: 0".to_string(),
        stdout: b"Path = a.txt\nSize = 3\nFolder = -\n".to_vec(),
        stdout_truncated: false,
        stderr: Vec::new(),
    };
    assert_eq!(read_listing(&listed, &p("/a.zip")).unwrap()[0].size, 3);
    let cut = CommandOutput { stdout_truncated: true, ..listed };
    assert!(read_listing(&cut, &p("/a.zip")).is_err());
}

#[test]
fn cancelling_stops_the_archive_program() {
    assert_eq!(check_cancelled(true).unwrap_err(), "Archive operation cancelled");
    assert!(check_cancelled(false).is_ok());
    assert_eq!(supervise(true, None).unwrap(), "Archive operation cancelled");
    assert_eq!(supervise(false, Some(Err("too big".to_string()))).unwrap(), "too big");
    assert!(supervise(false, Some(Ok(()))).is_none());
}
