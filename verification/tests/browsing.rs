//! What a browser shows of a directory.

use marcel::fs::{
    compare_entries, display_filename, format_size, merge_sorted_entries, record_degraded_entry,
    sort_entries, stream_directory, stream_directory_cancellable, DirectoryRead, DirectoryUpdate,
    EntryKind, FileEntry, StreamStep, DIRECTORY_BATCH_SIZE,
};
use marcel::fsops::identity::{Metadata, SnapshotKind};
use marcel::path::PathBuf;

fn entry(name: &str, navigable: bool) -> FileEntry {
    let kind = if navigable { SnapshotKind::Directory } else { SnapshotKind::File };
    let path = PathBuf::from_bytes(name.as_bytes());
    FileEntry::from_parts(path, name.as_bytes().to_vec(), kind, None, None)
}

fn names(entries: &[FileEntry]) -> Vec<&str> {
    entries.iter().map(|entry| entry.name.as_str()).collect()
}

fn metadata(kind: SnapshotKind, len: u64) -> Metadata {
    Metadata {
        device: 1,
        inode: 2,
        changed_seconds: 3,
        changed_nanoseconds: 4,
        kind,
        len,
        mode: 0o644,
        links: 1,
    }
}

#[test]
fn directories_sort_before_files_case_insensitively() {
    let mut entries = [
        entry("z.txt", false),
        entry("beta", true),
        entry("Alpha", true),
        entry("A.txt", false),
    ];
    entries.sort_by(compare_entries);

    assert_eq!(names(&entries), ["Alpha", "beta", "A.txt", "z.txt"]);

    let mut entries = Vec::from(entries);
    entries.reverse();
    sort_entries(&mut entries);
    assert_eq!(names(&entries), ["Alpha", "beta", "A.txt", "z.txt"]);
}

#[test]
fn merges_sorted_batches() {
    let left = vec![entry("Alpha", true), entry("b.txt", false)];
    let right = vec![entry("Beta", true), entry("a.txt", false)];

    let merged = merge_sorted_entries(left, right);

    assert_eq!(names(&merged), ["Alpha", "Beta", "a.txt", "b.txt"]);
}

#[test]
fn a_merge_takes_whichever_front_may_stand_first() {
    let left = vec![entry("m", false), entry("a", false)];
    let right = vec![entry("c", false), entry("z", false)];
    assert_eq!(names(&merge_sorted_entries(left, right)), ["c", "m", "a", "z"]);
}

#[test]
fn names_that_differ_in_case_alone_are_ordered_by_their_bytes() {
    let mut entries = vec![entry("readme", false), entry("README", false), entry("Readme", false)];
    sort_entries(&mut entries);
    assert_eq!(names(&entries), ["README", "Readme", "readme"]);
    let mut entries = vec![entry("éa", false), entry("ÉB", false), entry("z", false)];
    sort_entries(&mut entries);
    assert_eq!(names(&entries), ["z", "éa", "ÉB"]);
}

#[test]
fn formats_file_sizes() {
    assert_eq!(format_size(Some(42)), "42 B");
    assert_eq!(format_size(Some(1536)), "1.5 KiB");
    assert_eq!(format_size(None), "");
}

#[test]
fn sizes_are_formatted_like_doubles_with_one_decimal() {
    let mut sizes: Vec<u64> = vec![0, 1, 1023, 1024, 1280, 1792, 1126, 1127, 1_048_575, 1_048_576];
    sizes.extend([1_073_741_823, 1_073_741_824, 1_099_511_627_775, 1_099_511_627_776]);
    sizes.extend([u64::MAX, u64::MAX - 1, (1 << 53) + 1, (1 << 53) + 3, (1 << 60) - 1]);
    for shift in 0..64 {
        for step in [0_u64, 1, 3, 51, 53] {
            sizes.push((1_u64 << shift).wrapping_add(step.wrapping_mul(977)));
            sizes.push((1_u64 << shift).wrapping_add((1_u64 << shift) / 20 * step));
        }
    }
    for size in sizes {
        let mut value = size as f64;
        let mut unit = 0;
        while value >= 1024.0 && unit < 4 {
            value /= 1024.0;
            unit += 1;
        }
        let name = ["B", "KiB", "MiB", "GiB", "TiB"][unit];
        let expected =
            if unit == 0 { format!("{size} {name}") } else { format!("{value:.1} {name}") };
        assert_eq!(format_size(Some(size)), expected, "{size}");
    }
}

#[test]
fn cancelled_directory_stream_publishes_nothing() {
    let here = PathBuf::from_bytes(b".");
    assert!(stream_directory_cancellable(&here, true).is_none());
    let stream = stream_directory_cancellable(&here, false).unwrap().opened(Ok(())).unwrap();
    assert!(matches!(
        stream.read(DirectoryRead::Entry(entry("a", false)), true),
        StreamStep::Stopped
    ));
}

#[test]
fn a_directory_is_sent_in_sorted_batches() {
    let here = PathBuf::from_bytes(b"/home/me");
    let mut stream = stream_directory(&here).opened(Ok(())).unwrap();
    let mut sent = Vec::new();
    for index in (0..DIRECTORY_BATCH_SIZE + 3).rev() {
        let entry = entry(&format!("{index:05}"), false);
        stream = match stream.read(DirectoryRead::Entry(entry), false) {
            StreamStep::Read(stream) => stream,
            StreamStep::Send(DirectoryUpdate::Batch(batch), stream) => {
                sent.push(batch);
                stream
            }
            _ => panic!("nothing else is to be sent"),
        };
    }
    assert_eq!(sent.len(), 1);
    assert_eq!(sent[0].len(), DIRECTORY_BATCH_SIZE);
    assert_eq!(sent[0][0].name, "00003");
    assert_eq!(sent[0][DIRECTORY_BATCH_SIZE - 1].name, "00514");
    let unknown = DirectoryRead::Unknown(here.join(b"gone"), "no longer there".to_string());
    let StreamStep::Read(stream) = stream.read(unknown, false) else {
        panic!("an unreadable entry is noted");
    };
    let StreamStep::Read(stream) = stream.read(DirectoryRead::Failed("eof".to_string()), false)
    else {
        panic!("an unreadable entry is noted");
    };
    let updates = stream.finished();
    assert_eq!(updates.len(), 3);
    assert!(matches!(&updates[0], DirectoryUpdate::Batch(batch)
        if names(batch) == ["00000", "00001", "00002"]));
    assert!(matches!(&updates[1], DirectoryUpdate::Degraded { skipped: 2, examples }
        if examples.as_slice() == ["gone: no longer there", "eof"]));
    assert!(matches!(updates[2], DirectoryUpdate::Done));

    let refused = stream_directory(&here).opened(Err("denied".to_string())).unwrap_err();
    assert!(matches!(refused, DirectoryUpdate::Error(message) if message == "denied"));
}

#[test]
fn degraded_entry_details_are_counted_and_bounded() {
    let mut skipped = 0;
    let mut examples = Vec::new();
    let error = "x".repeat(500);
    for index in 0..10 {
        let path = PathBuf::from_bytes(if index == 0 { b"first" } else { b"later" });
        record_degraded_entry(&mut skipped, &mut examples, Some(&path), &error);
    }

    assert_eq!(skipped, 10);
    assert_eq!(examples.len(), 3);
    assert!(examples.iter().all(|example| example.chars().count() <= 240));
    assert!(examples[0].starts_with("first: xxx"));
}

#[test]
fn invalid_utf8_names_keep_raw_identity_and_have_distinct_labels() {
    let mut displays = std::collections::HashSet::new();
    for byte in 0x80..=0xff {
        let raw = vec![b'n', byte];
        let path = PathBuf::from_bytes(b"/home/me").join(&raw);
        let found = metadata(SnapshotKind::File, 1);
        let entry = FileEntry::from_path(&path, found, None, None).unwrap();

        assert_eq!(entry.name_os, raw);
        assert!(displays.insert(entry.name));
    }
    assert_eq!(display_filename(&[b'n', 0xff]), "⟦bytes:6eff⟧");
}

#[test]
fn valid_names_cannot_impersonate_escaped_byte_labels() {
    let invalid_label = "⟦bytes:6eff⟧";
    assert_eq!(display_filename(invalid_label.as_bytes()), "⟦text:⟦bytes:6eff⟧⟧");
    assert_eq!(display_filename("⟦text:a⟧".as_bytes()), "⟦text:⟦text:a⟧⟧");
    assert_eq!(display_filename("naïve ⟦bytes:".as_bytes()), "naïve ⟦bytes:");
}

#[test]
fn an_entry_says_what_it_is_and_what_it_leads_to() {
    let path = PathBuf::from_bytes("/home/me/ÄRGER".as_bytes());
    let link = metadata(SnapshotKind::Symlink, 9);
    let target = metadata(SnapshotKind::Directory, 4096);
    let entry = FileEntry::from_path(&path, link, Some(target), None).unwrap();
    assert_eq!(entry.kind, EntryKind::Symlink);
    assert!(entry.navigable);
    assert_eq!(entry.size, None);
    assert_eq!(entry.display_kind(), "Symbolic link");
    assert_eq!(entry.icon(), "▸");
    assert_eq!(entry.folded_name, "ärger".chars().collect::<Vec<char>>());

    let dangling = FileEntry::from_path(&path, link, None, None).unwrap();
    assert!(!dangling.navigable);
    assert_eq!(dangling.icon(), "·");

    let mut file = FileEntry::from_path(&path, metadata(SnapshotKind::File, 7), None, None).unwrap();
    assert_eq!((file.kind, file.size, file.display_kind()), (EntryKind::File, Some(7), "File"));
    file.set_name(b"Other".to_vec());
    assert_eq!((file.name.as_str(), file.name_os.as_slice()), ("Other", b"Other".as_slice()));
    assert_eq!(file.folded_name, ['o', 't', 'h', 'e', 'r']);

    let folder = FileEntry::from_path(&path, target, None, None).unwrap();
    assert_eq!(folder.display_kind(), "Folder");
    let pipe = FileEntry::from_path(&path, metadata(SnapshotKind::Fifo, 0), None, None).unwrap();
    assert_eq!((pipe.kind, pipe.display_kind()), (EntryKind::Other, "Special file"));

    let root = PathBuf::from_bytes(b"/");
    let error = FileEntry::from_path(&root, target, None, None).unwrap_err();
    assert_eq!(error, "path has no file name");
}
