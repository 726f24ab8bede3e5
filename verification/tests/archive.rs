use std::io::{Cursor, Read};

use kashan786_cli_app::{
    plan_archive, write_archive, zip_directory, ArchiveWriter, Cause,
    Compression, CompressionOptions, ErrorClass, Failure, FailureKind, Node, TreeEntry,
};

fn dir(path: &str) -> TreeEntry {
    TreeEntry { path: path.to_string(), node: Node::Directory }
}

fn file(path: &str, content: &[u8]) -> TreeEntry {
    TreeEntry { path: path.to_string(), node: Node::File { content: content.to_vec() } }
}

/// What a container holds: for each entry its name, whether it is a
/// directory, its Unix mode, whether it is deflated, and its content.
fn unpack(bytes: Vec<u8>) -> Vec<(String, bool, Option<u32>, bool, Vec<u8>)> {
    let mut archive = zip::ZipArchive::new(Cursor::new(bytes)).expect("a readable container");
    let mut found = Vec::new();
    for index in 0..archive.len() {
        let mut entry = archive.by_index(index).expect("an entry");
        let mut content = Vec::new();
        entry.read_to_end(&mut content).expect("the content");
        let deflated = entry.compression() == zip::CompressionMethod::Deflated;
        found.push((entry.name().to_string(), entry.is_dir(), entry.unix_mode(), deflated, content));
    }
    found
}

fn project() -> Vec<TreeEntry> {
    vec![
        dir("proj"),
        file("proj/a.txt", b"hello"),
        dir("proj/sub"),
        file("proj/sub/b.txt", b"world"),
    ]
}

#[test]
fn project_scenario_has_three_entries() {
    let bytes = zip_directory("proj", &project()).expect("the archive");
    let found = unpack(bytes);
    assert_eq!(found.len(), 3);
    assert_eq!(found[0].0, "a.txt");
    assert!(!found[0].1);
    assert_eq!(found[0].4, b"hello".to_vec());
    assert_eq!(found[1].0, "sub/");
    assert!(found[1].1);
    assert_eq!(found[1].4, Vec::<u8>::new());
    assert_eq!(found[2].0, "sub/b.txt");
    assert!(!found[2].1);
    assert_eq!(found[2].4, b"world".to_vec());
}

#[test]
fn entries_carry_the_fixed_options() {
    let found = unpack(zip_directory("proj", &project()).expect("the archive"));
    assert_eq!(found[0].2, Some(0o100755));
    assert!(found[0].3);
    assert_eq!(found[1].2, Some(0o40755));
    assert!(!found[1].3);
    assert_eq!(found[2].2, Some(0o100755));
    assert!(found[2].3);
}

#[test]
fn fixed_options_are_deflate_and_755() {
    let options = CompressionOptions::fixed();
    assert_eq!(options.method, Compression::Deflated);
    assert_eq!(options.unix_permissions, 0o755);
}

#[test]
fn one_entry_for_each_file_and_directory() {
    let walk = vec![
        dir("/data/tree"),
        dir("/data/tree/a"),
        dir("/data/tree/a/b"),
        file("/data/tree/a/b/deep.bin", &[0, 1, 2, 3]),
        file("/data/tree/top.txt", b"top"),
        dir("/data/tree/empty"),
        file("/data/tree/a/mid.txt", b""),
    ];
    let plan = plan_archive("/data/tree", &walk).expect("the plan");
    let names: Vec<&str> = plan.iter().map(|p| p.name.as_str()).collect();
    assert_eq!(names, vec!["a", "a/b", "a/b/deep.bin", "top.txt", "empty", "a/mid.txt"]);
    let found = unpack(zip_directory("/data/tree", &walk).expect("the archive"));
    assert_eq!(found.len(), 3 + 3);
    let stored: Vec<&str> = found.iter().map(|f| f.0.as_str()).collect();
    assert_eq!(stored, vec!["a/", "a/b/", "a/b/deep.bin", "top.txt", "empty/", "a/mid.txt"]);
}

#[test]
fn extracted_files_hold_the_bytes_that_went_in() {
    let mut large = Vec::new();
    for i in 0..70_000u32 {
        large.push((i % 251) as u8);
    }
    let walk = vec![
        dir("src"),
        file("src/large.bin", &large),
        file("src/empty", b""),
        file("src/text.txt", "gr\u{fc}\u{df}e \u{2603}\n".as_bytes()),
    ];
    let found = unpack(zip_directory("src", &walk).expect("the archive"));
    assert_eq!(found.len(), 3);
    assert_eq!(found[0].4, large);
    assert_eq!(found[1].4, Vec::<u8>::new());
    assert_eq!(found[2].4, "gr\u{fc}\u{df}e \u{2603}\n".as_bytes().to_vec());
}

#[test]
fn archiving_twice_gives_the_same_entries() {
    let first = unpack(zip_directory("proj", &project()).expect("the first archive"));
    let second = unpack(zip_directory("proj", &project()).expect("the second archive"));
    assert_eq!(first, second);
}

#[test]
fn the_order_of_the_walk_changes_only_the_order_of_entries() {
    let other_order = vec![
        dir("proj"),
        dir("proj/sub"),
        file("proj/sub/b.txt", b"world"),
        file("proj/a.txt", b"hello"),
    ];
    let mut first = unpack(zip_directory("proj", &project()).expect("the first archive"));
    let mut second = unpack(zip_directory("proj", &other_order).expect("the second archive"));
    assert_ne!(first, second);
    first.sort();
    second.sort();
    assert_eq!(first, second);
}

#[test]
fn empty_directory_gives_an_empty_archive() {
    let bytes = zip_directory("empty", &vec![dir("empty")]).expect("the archive");
    assert_eq!(unpack(bytes).len(), 0);
    assert_eq!(plan_archive("empty", &vec![dir("empty")]).expect("the plan").len(), 0);
}

#[test]
fn missing_directory_is_not_found() {
    let expected = Failure {
        kind: FailureKind::ReadDir,
        class: ErrorClass::NotFound,
        path: "nowhere".to_string(),
    };
    assert_eq!(zip_directory("nowhere", &Vec::new()), Err(expected.clone()));
    assert_eq!(plan_archive("nowhere", &Vec::new()).err(), Some(expected));
}

#[test]
fn a_file_in_place_of_the_directory_is_not_found() {
    let r = zip_directory("notes.txt", &vec![file("notes.txt", b"text")]);
    assert_eq!(
        r,
        Err(Failure {
            kind: FailureKind::ReadDir,
            class: ErrorClass::NotFound,
            path: "notes.txt".to_string(),
        })
    );
}

#[test]
fn a_walk_that_does_not_start_at_the_directory_is_not_found() {
    let r = zip_directory("proj", &vec![file("proj/a.txt", b"hello"), dir("proj")]);
    assert_eq!(r.err().map(|e| e.class), Some(ErrorClass::NotFound));
}

#[test]
fn an_entry_outside_the_directory_fails_normalization() {
    let walk = vec![dir("proj"), file("proj/a.txt", b"hello"), file("other/b.txt", b"world")];
    assert_eq!(
        zip_directory("proj", &walk),
        Err(Failure {
            kind: FailureKind::PathNormalization,
            class: ErrorClass::PathNormalization,
            path: "other/b.txt".to_string(),
        })
    );
}

#[test]
fn an_unreadable_file_fails_the_archive_and_is_named() {
    let walk = vec![
        dir("proj"),
        file("proj/a.txt", b"hello"),
        TreeEntry {
            path: "proj/locked".to_string(),
            node: Node::Unreadable { cause: Cause::PermissionDenied },
        },
        file("proj/z.txt", b"never reached"),
    ];
    assert_eq!(
        zip_directory("proj", &walk),
        Err(Failure {
            kind: FailureKind::EntryRead,
            class: ErrorClass::Permission,
            path: "proj/locked".to_string(),
        })
    );
}

#[test]
fn the_first_failure_is_the_one_reported() {
    let walk = vec![
        dir("proj"),
        TreeEntry { path: "proj/gone".to_string(), node: Node::Unreadable { cause: Cause::NotFound } },
        file("elsewhere", b""),
    ];
    let e = zip_directory("proj", &walk).err().expect("a failure");
    assert_eq!(e.kind, FailureKind::EntryRead);
    assert_eq!(e.class, ErrorClass::NotFound);
    assert_eq!(e.path, "proj/gone");
}

#[test]
fn what_is_neither_file_nor_directory_is_passed_over() {
    let walk = vec![
        dir("proj"),
        TreeEntry { path: "proj/link".to_string(), node: Node::Other },
        file("proj/a.txt", b"hello"),
    ];
    let found = unpack(zip_directory("proj", &walk).expect("the archive"));
    assert_eq!(found.len(), 1);
    assert_eq!(found[0].0, "a.txt");
}

#[test]
fn the_directory_itself_gets_no_entry() {
    let walk = vec![dir("./proj/"), dir("proj/."), file("./proj//a.txt", b"hello")];
    let found = unpack(zip_directory("proj", &walk).expect("the archive"));
    assert_eq!(found.len(), 1);
    assert_eq!(found[0].0, "a.txt");
}

#[test]
fn a_plan_is_written_in_its_order() {
    let walk = project();
    let plan = plan_archive("proj", &walk).expect("the plan");
    assert_eq!(plan.len(), 3);
    assert_eq!(plan[0].content.map(|c| c.as_slice()), Some(&b"hello"[..]));
    assert!(plan[1].content.is_none());
    let options = CompressionOptions { method: Compression::Stored, unix_permissions: 0o7644 };
    let found = unpack(write_archive(&plan, &options).expect("the archive"));
    assert_eq!(found.len(), 3);
    assert_eq!(found[0].0, "a.txt");
    assert_eq!(found[0].2, Some(0o100644));
    assert!(!found[0].3);
    assert_eq!(found[1].0, "sub/");
    assert_eq!(found[1].2, Some(0o40644));
    assert_eq!(found[2].4, b"world".to_vec());
}

#[test]
fn a_new_writer_seals_into_an_empty_container() {
    let bytes = ArchiveWriter::new().finish().expect("the container");
    assert_eq!(unpack(bytes).len(), 0);
}

#[test]
fn a_directory_name_is_closed_by_a_separator_once() {
    let options = CompressionOptions::fixed();
    let mut writer = ArchiveWriter::new();
    writer.add_directory("plain", &options).expect("a marker");
    writer.add_directory("closed/", &options).expect("a marker");
    writer.add_directory("back\\", &options).expect("a marker");
    writer.add_directory("deep/er", &options).expect("a marker");
    let found = unpack(writer.finish().expect("the container"));
    let names: Vec<&str> = found.iter().map(|f| f.0.as_str()).collect();
    assert_eq!(names, vec!["plain/", "closed/", "back\\", "deep/er/"]);
    for entry in &found {
        assert_eq!(entry.2, Some(0o40755));
        assert!(!entry.3);
        assert_eq!(entry.4, Vec::<u8>::new());
    }
}

#[test]
fn a_writer_takes_files_with_their_method_and_mode() {
    let mut writer = ArchiveWriter::new();
    let stored = CompressionOptions { method: Compression::Stored, unix_permissions: 0o600 };
    let deflated = CompressionOptions { method: Compression::Deflated, unix_permissions: 0o644 };
    writer.add_file("raw.bin", &[1, 2, 3], &stored).expect("a file");
    writer.add_file("dir/packed.txt", b"aaaaaaaaaaaaaaaaaaaaaaaaaaaaaaaaaaaaaaaa", &deflated).expect("a file");
    writer.add_file("nothing", b"", &deflated).expect("a file");
    let found = unpack(writer.finish().expect("the container"));
    assert_eq!(found.len(), 3);
    assert_eq!(found[0], ("raw.bin".to_string(), false, Some(0o100600), false, vec![1, 2, 3]));
    assert_eq!(found[1].0, "dir/packed.txt");
    assert_eq!(found[1].2, Some(0o100644));
    assert!(found[1].3);
    assert_eq!(found[1].4, b"aaaaaaaaaaaaaaaaaaaaaaaaaaaaaaaaaaaaaaaa".to_vec());
    assert_eq!(found[2], ("nothing".to_string(), false, Some(0o100644), true, Vec::new()));
}

#[test]
fn a_directory_that_cannot_be_walked_fails_the_archive() {
    let walk = vec![
        dir("proj"),
        dir("proj/locked"),
        TreeEntry {
            path: "proj/locked".to_string(),
            node: Node::Unreadable { cause: Cause::PermissionDenied },
        },
        file("proj/z.txt", b"never reached"),
    ];
    assert_eq!(
        zip_directory("proj", &walk),
        Err(Failure {
            kind: FailureKind::EntryRead,
            class: ErrorClass::Permission,
            path: "proj/locked".to_string(),
        })
    );
}

#[test]
fn a_source_that_cannot_be_walked_is_not_found() {
    let walk = vec![TreeEntry {
        path: "nowhere".to_string(),
        node: Node::Unreadable { cause: Cause::NotFound },
    }];
    assert_eq!(
        zip_directory("nowhere", &walk),
        Err(Failure {
            kind: FailureKind::ReadDir,
            class: ErrorClass::NotFound,
            path: "nowhere".to_string(),
        })
    );
}

#[test]
fn a_tree_of_directories_alone_is_archived() {
    let walk = vec![dir("top"), dir("top/a"), dir("top/a/b"), dir("top/c")];
    let found = unpack(zip_directory("top", &walk).expect("the archive"));
    let names: Vec<&str> = found.iter().map(|f| f.0.as_str()).collect();
    assert_eq!(names, vec!["a/", "a/b/", "c/"]);
}

#[test]
fn names_are_relative_and_no_two_are_alike() {
    let walk = vec![
        dir("/abs/root"),
        dir("/abs/root/a"),
        file("/abs/root/a/a", b"1"),
        file("/abs/root/b", b"2"),
        dir("/abs/root/a/b"),
    ];
    let found = unpack(zip_directory("/abs/root/", &walk).expect("the archive"));
    let names: Vec<&str> = found.iter().map(|f| f.0.as_str()).collect();
    assert_eq!(names, vec!["a/", "a/a", "b", "a/b/"]);
    for (i, name) in names.iter().enumerate() {
        assert!(!name.starts_with('/'));
        assert!(!name.contains("//"));
        for other in &names[i + 1..] {
            assert_ne!(name, other);
        }
    }
}

#[test]
fn a_writer_that_took_entries_can_be_finished() {
    let options = CompressionOptions::fixed();
    let mut writer = ArchiveWriter::new();
    assert!(writer.add_directory("d", &options).is_ok());
    assert!(writer.add_file("d/f", b"content", &options).is_ok());
    assert!(writer.add_file("d/empty", b"", &options).is_ok());
    assert!(writer.add_directory("e", &options).is_ok());
    assert!(writer.finish().is_ok());
}

#[test]
fn files_that_are_stored_are_taken_as_they_are() {
    let walk = vec![dir("proj"), file("proj/raw", &[7u8; 100_000]), file("proj/none", b"")];
    let plan = plan_archive("proj", &walk).expect("the plan");
    let options = CompressionOptions { method: Compression::Stored, unix_permissions: 0o755 };
    let bytes = write_archive(&plan, &options).expect("the archive");
    assert!(bytes.len() > 100_000);
    let found = unpack(bytes);
    assert_eq!(found[0].4, vec![7u8; 100_000]);
    assert!(!found[0].3);
    assert_eq!(found[1].4, Vec::<u8>::new());
}

#[test]
fn a_tree_of_empty_files_is_archived() {
    let walk = vec![dir("proj"), file("proj/a", b""), dir("proj/d"), file("proj/d/b", b"")];
    let found = unpack(zip_directory("proj", &walk).expect("the archive"));
    let names: Vec<&str> = found.iter().map(|f| f.0.as_str()).collect();
    assert_eq!(names, vec!["a", "d/", "d/b"]);
}

#[test]
fn a_writer_dropped_unfinished_does_no_harm() {
    let options = CompressionOptions::fixed();
    let mut writer = ArchiveWriter::new();
    writer.add_file("begun", b"some data that is never sealed", &options).expect("a file");
    drop(writer);
    let untouched = ArchiveWriter::new();
    drop(untouched);
}
