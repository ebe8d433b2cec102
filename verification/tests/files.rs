use std::io::ErrorKind;
use tuicr::diff_document::{compute_hunk_signs, DocSign};
use tuicr::file_backend::{
    collect_text_files, is_probably_binary, ContextSource, DiffBuild, FileBackend, Observation,
    PathProbe, WalkEntry, BINARY_SNIFF_BYTES, MAX_FILE_BYTES,
};
use tuicr::model::{DiffFile, DiffHunk, DiffLine, FileStatus, Highlight, LineOrigin};
use tuicr::order::sort_files;
use tuicr::path::FilePath;
use tuicr::terminal::TextStyle;
use tuicr::vcs::{IoErrorKind, TuicrError, VcsType};

fn path(text: &str) -> FilePath {
    let mut components: Vec<Vec<u8>> = Vec::new();
    if text.starts_with('/') {
        components.push(vec![47]);
    }
    for name in text.split('/') {
        if !name.is_empty() {
            components.push(name.as_bytes().to_vec());
        }
    }
    FilePath { components }
}

fn entry(at: &str, size: u64) -> Option<WalkEntry> {
    Some(WalkEntry {
        path: path(at),
        is_file: true,
        size: Some(size),
        head: Some(vec![65]),
    })
}

fn hash(hunks: &[DiffHunk]) -> u64 {
    let mut sum: u64 = 1;
    for hunk in hunks {
        for line in &hunk.lines {
            sum = sum * 31 + line.content.len() as u64;
        }
    }
    sum
}

/// Runs a build to its end.
fn build(
    backend: &FileBackend,
    at: &FilePath,
    size: u64,
    head: Option<Vec<u8>>,
    text: Option<&str>,
) -> Option<DiffFile> {
    let mut state = DiffBuild::Sniff;
    for _ in 0..5 {
        let seen = match &state {
            DiffBuild::Sniff => Observation::Head(head.clone()),
            DiffBuild::Read => Observation::Text(text.map(|t| t.to_string())),
            DiffBuild::Tabify { lines } => {
                Observation::Tabified(lines.iter().map(|l| l.replace('\t', "    ")).collect())
            }
            DiffBuild::Highlight { contents } => {
                Observation::Highlighted(contents.iter().map(|_| None).collect())
            }
            DiffBuild::Hash { hunks, .. } => Observation::ContentHash(hash(hunks)),
            DiffBuild::Done { .. } => Observation::ContentHash(99),
        };
        state = backend.build_diff_file_for_path(at, size, state, seen);
    }
    match state {
        DiffBuild::Done { file } => file,
        other => panic!("not done: {:?}", other),
    }
}

fn build_text(backend: &FileBackend, text: &str) -> Option<DiffFile> {
    let (at, size) = &backend.files()[0];
    build(
        backend,
        at,
        *size,
        Some(text.as_bytes().to_vec()),
        Some(text),
    )
}

fn single(at: &str, size: u64) -> FileBackend {
    match FileBackend::new(
        at,
        PathProbe::File {
            path: path(at),
            size,
        },
    ) {
        Ok(backend) => backend,
        Err(error) => panic!("{:?}", error),
    }
}

fn directory(at: &str, entries: Vec<Option<WalkEntry>>) -> Result<FileBackend, TuicrError> {
    FileBackend::new(
        at,
        PathProbe::Directory {
            path: path(at),
            entries,
        },
    )
}

#[test]
fn single_file_mode_returns_one_diff_file() {
    let backend = single("/tmp/dir/hello.txt", 11);
    let built = vec![build_text(&backend, "alpha\nbeta\n")];
    let diffs = backend.get_working_tree_diff(built).unwrap();

    assert_eq!(diffs.len(), 1);
    assert_eq!(diffs[0].new_path.as_ref().unwrap(), &path("hello.txt"));
    assert_eq!(diffs[0].hunks[0].lines.len(), 2);
}

#[test]
fn directory_mode_skips_binary_files() {
    let result = directory(
        "/tmp/dir",
        vec![Some(WalkEntry {
            path: path("/tmp/dir/binary.bin"),
            is_file: true,
            size: Some(6),
            head: Some(vec![0u8, 1, 2, 3, 0, 4]),
        })],
    );
    assert!(matches!(result, Err(TuicrError::NoChanges)));
}

#[test]
fn directory_mode_preserves_relative_paths_for_nested_files() {
    let backend = directory("/tmp/dir", vec![entry("/tmp/dir/nested/inner.txt", 2)]).unwrap();
    let built = vec![build_text(&backend, "x\n")];
    let diffs = backend.get_working_tree_diff(built).unwrap();

    assert_eq!(diffs.len(), 1);
    assert_eq!(
        diffs[0].new_path.as_ref().unwrap(),
        &path("nested/inner.txt")
    );
}

#[test]
fn backend_describes_itself() {
    let backend = single("/tmp/dir/hello.txt", 11);
    let info = backend.info();
    assert_eq!(info.root_path, path("/tmp/dir"));
    assert_eq!(info.head_commit, "file");
    assert_eq!(info.branch_name, None);
    assert_eq!(info.vcs_type, VcsType::File);
    assert_eq!(backend.files(), &vec![(path("/tmp/dir/hello.txt"), 11)]);
    assert_eq!(single("/hello.txt", 1).info().root_path, path("/"));
    let dir = directory("/tmp/dir", vec![entry("/tmp/dir/a", 2)]).unwrap();
    assert_eq!(dir.info().root_path, path("/tmp/dir"));
}

fn failure(result: Result<FileBackend, TuicrError>) -> TuicrError {
    match result {
        Ok(_) => panic!("opened"),
        Err(error) => error,
    }
}

#[test]
fn failures_to_open_are_told_apart() {
    assert_eq!(
        failure(FileBackend::new(
            "a b",
            PathProbe::Unresolved {
                kind: ErrorKind::NotFound,
                detail: "no such file".to_string(),
            }
        )),
        TuicrError::Io {
            kind: IoErrorKind::Reported(ErrorKind::NotFound),
            message: "Cannot open 'a b': no such file".to_string(),
        }
    );
    assert_eq!(
        failure(FileBackend::new(
            "a b",
            PathProbe::Unreadable {
                kind: ErrorKind::PermissionDenied,
                detail: "denied".to_string(),
            }
        )),
        TuicrError::Io {
            kind: IoErrorKind::Reported(ErrorKind::PermissionDenied),
            message: "denied".to_string(),
        }
    );
    assert_eq!(
        failure(FileBackend::new("/dev/x", PathProbe::Other)),
        TuicrError::Io {
            kind: IoErrorKind::InvalidInput,
            message: "'/dev/x' is not a file or directory".to_string(),
        }
    );
    assert_eq!(
        failure(directory("/tmp/dir", Vec::new())),
        TuicrError::NoChanges
    );
}

#[test]
fn walk_keeps_text_files_in_order() {
    let files = collect_text_files(vec![
        entry("/r/b.txt", 3),
        None,
        entry("/r/a/z.txt", 1),
        Some(WalkEntry {
            path: path("/r/a"),
            is_file: false,
            size: Some(4096),
            head: Some(vec![65]),
        }),
        Some(WalkEntry {
            path: path("/r/c.txt"),
            is_file: true,
            size: None,
            head: Some(vec![65]),
        }),
        Some(WalkEntry {
            path: path("/r/d.bin"),
            is_file: true,
            size: Some(5),
            head: Some(vec![65, 0]),
        }),
        Some(WalkEntry {
            path: path("/r/e.txt"),
            is_file: true,
            size: Some(5),
            head: None,
        }),
        Some(WalkEntry {
            path: path("/r/empty.txt"),
            is_file: true,
            size: Some(0),
            head: Some(Vec::new()),
        }),
        entry("/r/a.txt", 2),
        entry("/r/B.txt", 9),
    ]);
    assert_eq!(
        files,
        vec![
            (path("/r/B.txt"), 9),
            (path("/r/a/z.txt"), 1),
            (path("/r/a.txt"), 2),
            (path("/r/b.txt"), 3),
            (path("/r/empty.txt"), 0),
        ]
    );
}

#[test]
fn files_sort_by_name_then_size() {
    let files = vec![
        (path("/r/x/y"), 1),
        (path("/r/x"), 5),
        (path("/r/x"), 2),
        (path("/r/xa"), 0),
        (path("/r/a"), 7),
    ];
    assert_eq!(
        sort_files(files),
        vec![
            (path("/r/a"), 7),
            (path("/r/x"), 2),
            (path("/r/x"), 5),
            (path("/r/x/y"), 1),
            (path("/r/xa"), 0),
        ]
    );
}

#[test]
fn zero_bytes_beyond_the_sniffed_ones_do_not_count() {
    let mut bytes = vec![1u8; BINARY_SNIFF_BYTES];
    bytes.push(0);
    assert!(!is_probably_binary(&Some(bytes)));
    let mut bytes = vec![1u8; BINARY_SNIFF_BYTES - 1];
    bytes.push(0);
    assert!(is_probably_binary(&Some(bytes)));
    assert!(!is_probably_binary(&Some(Vec::new())));
    assert!(is_probably_binary(&None));
}

#[test]
fn new_file_lines_are_numbered_additions() {
    let backend = single("/d/f", 20);
    let file = build_text(&backend, "one\n\ttwo\r\nthree").unwrap();
    assert_eq!(file.status, FileStatus::Added);
    assert_eq!(file.old_path, None);
    assert!(!file.is_binary && !file.is_too_large && !file.is_commit_message);
    assert_eq!(file.hunks.len(), 1);
    let hunk = &file.hunks[0];
    assert_eq!(hunk.header, "@@ -0,0 +1,3 @@");
    assert_eq!(
        (
            hunk.old_start,
            hunk.old_count,
            hunk.new_start,
            hunk.new_count
        ),
        (0, 0, 1, 3)
    );
    let lines: Vec<(LineOrigin, &str, Option<u32>, Option<u32>)> = hunk
        .lines
        .iter()
        .map(|l| (l.origin, l.content.as_str(), l.old_lineno, l.new_lineno))
        .collect();
    assert_eq!(
        lines,
        vec![
            (LineOrigin::Addition, "one", None, Some(1)),
            (LineOrigin::Addition, "    two", None, Some(2)),
            (LineOrigin::Addition, "three", None, Some(3)),
        ]
    );
    assert_eq!(file.content_hash, hash(&file.hunks));
}

#[test]
fn header_counts_in_decimal() {
    let backend = single("/d/f", 20);
    let text = "x\n".repeat(120);
    let file = build_text(&backend, &text).unwrap();
    assert_eq!(file.hunks[0].header, "@@ -0,0 +1,120 @@");
    assert_eq!(file.hunks[0].lines[119].new_lineno, Some(120));
}

#[test]
fn large_files_are_placeholders_unless_binary() {
    let backend = single("/d/f", MAX_FILE_BYTES + 1);
    let (at, size) = &backend.files()[0];
    let file = build(&backend, at, *size, Some(vec![65]), None).unwrap();
    assert!(file.is_too_large);
    assert!(file.hunks.is_empty());
    assert_eq!(file.content_hash, hash(&[]));
    assert_eq!(file.new_path, Some(path("f")));
    assert!(build(&backend, at, *size, Some(vec![65, 0]), None).is_none());
    assert!(build(&backend, at, *size, None, None).is_none());
    let limit = build(&backend, at, MAX_FILE_BYTES, Some(vec![65]), Some("A")).unwrap();
    assert!(!limit.is_too_large);
}

#[test]
fn empty_text_is_listed_without_hunks() {
    let backend = single("/d/f", 0);
    let file = build_text(&backend, "").unwrap();
    assert!(file.hunks.is_empty());
    assert!(!file.is_too_large);
    assert_eq!(file.status, FileStatus::Added);
    assert_eq!(file.new_path, Some(path("f")));
    assert_eq!(file.content_hash, hash(&[]));
}

#[test]
fn empty_files_are_surfaced_beside_others() {
    let backend = directory("/d", vec![entry("/d/empty.txt", 0), entry("/d/a.txt", 2)]).unwrap();
    let built: Vec<Option<DiffFile>> = backend
        .files()
        .iter()
        .map(|(at, size)| {
            let text = if *size == 0 { "" } else { "x\n" };
            build(&backend, at, *size, Some(text.as_bytes().to_vec()), Some(text))
        })
        .collect();
    let diffs = backend.get_working_tree_diff(built).unwrap();
    let names: Vec<&FilePath> = diffs.iter().map(|d| d.new_path.as_ref().unwrap()).collect();
    assert_eq!(names, vec![&path("a.txt"), &path("empty.txt")]);
}

#[test]
fn unreadable_text_has_no_diff() {
    let backend = single("/d/f", 3);
    let (at, size) = &backend.files()[0];
    assert!(build(&backend, at, *size, Some(vec![255]), None).is_none());
    assert!(matches!(
        backend.get_working_tree_diff(vec![None]),
        Err(TuicrError::NoChanges)
    ));
}

#[test]
fn order_of_the_walk_does_not_matter() {
    let names = ["/r/c", "/r/a", "/r/b/x", "/r/b"];
    let forward = collect_text_files(names.iter().map(|n| entry(n, 1)).collect());
    let backward = collect_text_files(names.iter().rev().map(|n| entry(n, 1)).collect());
    assert_eq!(forward, backward);
    assert_eq!(forward.len(), 4);
}

#[test]
fn working_tree_diff_keeps_the_order_of_files() {
    let backend = directory(
        "/d",
        vec![entry("/d/a", 1), entry("/d/b", 1), entry("/d/c", 1)],
    )
    .unwrap();
    let built: Vec<Option<DiffFile>> = backend
        .files()
        .iter()
        .map(|(at, size)| {
            let text = if at == &path("/d/b") { None } else { Some("x") };
            build(&backend, at, *size, Some(vec![]), text)
        })
        .collect();
    let diffs = backend.get_working_tree_diff(built).unwrap();
    let names: Vec<&FilePath> = diffs.iter().map(|d| d.new_path.as_ref().unwrap()).collect();
    assert_eq!(names, vec![&path("a"), &path("c")]);
}

#[test]
fn what_was_not_waited_for_changes_nothing() {
    let backend = single("/d/f", 3);
    let at = path("/d/f");
    let state = backend.build_diff_file_for_path(
        &at,
        3,
        DiffBuild::Sniff,
        Observation::Text(Some("x".to_string())),
    );
    assert!(matches!(state, DiffBuild::Sniff));
    let lines = || vec!["x".to_string()];
    let state = backend.build_diff_file_for_path(
        &at,
        3,
        DiffBuild::Tabify { lines: lines() },
        Observation::Tabified(Vec::new()),
    );
    assert!(matches!(state, DiffBuild::Tabify { .. }));
    let state = backend.build_diff_file_for_path(
        &at,
        3,
        DiffBuild::Highlight { contents: lines() },
        Observation::Highlighted(vec![None, None]),
    );
    assert!(matches!(state, DiffBuild::Highlight { .. }));
}

fn shown(lines: &[DiffLine]) -> Vec<(String, Option<u32>, Option<u32>)> {
    lines
        .iter()
        .map(|l| {
            assert_eq!(l.origin, LineOrigin::Context);
            assert!(l.highlighted_spans.is_none());
            (l.content.clone(), l.old_lineno, l.new_lineno)
        })
        .collect()
}

#[test]
fn context_lines_are_cut_out_of_the_text() {
    let backend = single("/d/f", 3);
    let text = || ContextSource::Text("a\n\tb\nc\nd".to_string());
    let lines = backend.fetch_context_lines(2, 3, text()).unwrap();
    assert_eq!(
        shown(&lines),
        vec![
            ("\tb".to_string(), Some(2), Some(2)),
            ("c".to_string(), Some(3), Some(3)),
        ]
    );
    let lines = backend.fetch_context_lines(4, u32::MAX, text()).unwrap();
    assert_eq!(shown(&lines), vec![("d".to_string(), Some(4), Some(4))]);
    let lines = backend.fetch_context_lines(5, 9, text()).unwrap();
    assert!(lines.is_empty());
}

#[test]
fn context_of_nothing_is_empty() {
    let backend = single("/d/f", 3);
    let unreadable = || ContextSource::Unreadable {
        kind: ErrorKind::InvalidData,
        detail: "not text".to_string(),
    };
    assert!(backend
        .fetch_context_lines(3, 2, unreadable())
        .unwrap()
        .is_empty());
    assert!(backend
        .fetch_context_lines(0, 2, unreadable())
        .unwrap()
        .is_empty());
    assert!(backend
        .fetch_context_lines(1, 2, ContextSource::NotAFile)
        .unwrap()
        .is_empty());
    assert_eq!(
        backend.fetch_context_lines(1, 2, unreadable()).unwrap_err(),
        TuicrError::Io {
            kind: IoErrorKind::Reported(ErrorKind::InvalidData),
            message: "not text".to_string(),
        }
    );
}

#[test]
fn context_is_read_below_the_root() {
    let backend = single("/d/f", 3);
    assert_eq!(
        backend.context_path(&path("sub/g"), 1, 1),
        Some(path("/d/sub/g"))
    );
    assert_eq!(
        backend.context_path(&path("/e/g"), 1, 1),
        Some(path("/e/g"))
    );
    assert_eq!(backend.context_path(&path("g"), 0, 1), None);
    assert_eq!(backend.context_path(&path("g"), 2, 1), None);
}

#[test]
fn relative_paths_lead_back() {
    let root = path("/d/e");
    let file = path("/d/e/f/g");
    let relative = file.relative_to(&root);
    assert_eq!(relative, path("f/g"));
    assert_eq!(root.join(&relative), file);
    assert_eq!(file.relative_to(&path("/d/ee")), file);
    assert_eq!(path("/d").relative_to(&root), path("/d"));
    assert_eq!(file.parent(), path("/d/e/f"));
    assert_eq!(path("/").parent(), path("/"));
    assert_eq!(path("").parent(), path("/"));
    assert_eq!(file.copy(), file);
}

#[test]
fn neighbouring_contexts_make_one() {
    let backend = single("/d/f", 3);
    let text = || ContextSource::Text("a\nb\nc\nd\n".to_string());
    let mut parts = shown(&backend.fetch_context_lines(1, 2, text()).unwrap());
    parts.extend(shown(&backend.fetch_context_lines(3, 9, text()).unwrap()));
    let whole = shown(&backend.fetch_context_lines(1, 9, text()).unwrap());
    assert_eq!(parts, whole);
    assert_eq!(whole.len(), 4);
}

#[test]
fn order_of_arrival_does_not_matter() {
    let names = ["/r/c", "/r/a", "/r/b/x", "/r/b", "/r/b.x"];
    let forward = sort_files(names.iter().map(|n| (path(n), 1)).collect());
    let backward = sort_files(names.iter().rev().map(|n| (path(n), 1)).collect());
    assert_eq!(forward, backward);
    let listed: Vec<FilePath> = forward.into_iter().map(|(p, _)| p).collect();
    assert_eq!(
        listed,
        vec![
            path("/r/a"),
            path("/r/b"),
            path("/r/b/x"),
            path("/r/b.x"),
            path("/r/c"),
        ]
    );
}

#[test]
fn many_files_are_sorted_like_paths() {
    let mut seed: u64 = 7;
    let mut files: Vec<(FilePath, u64)> = Vec::new();
    let mut expected: Vec<(std::path::PathBuf, u64)> = Vec::new();
    for _ in 0..500 {
        seed = (seed * 1103515245 + 12345) % 2147483648;
        let text = format!("/root/{}/{}.txt", seed % 13, seed % 101);
        files.push((path(&text), seed % 3));
        expected.push((std::path::PathBuf::from(&text), seed % 3));
    }
    expected.sort();
    let expected: Vec<(FilePath, u64)> = expected
        .iter()
        .map(|(p, size)| (path(p.to_str().unwrap()), *size))
        .collect();
    assert_eq!(sort_files(files), expected);
}

#[test]
fn finished_build_stays_finished() {
    let backend = single("/d/f", 3);
    let done = DiffBuild::Done { file: None };
    let state = backend.build_diff_file_for_path(
        &path("/d/f"),
        3,
        done,
        Observation::Head(Some(vec![65])),
    );
    assert!(matches!(state, DiffBuild::Done { file: None }));
}

#[test]
fn new_file_is_drawn_as_added() {
    let backend = single("/d/f", 20);
    let file = build_text(&backend, "one\ntwo\n").unwrap();
    for revealed in [false, true] {
        let rows: Vec<(usize, DocSign, bool)> =
            compute_hunk_signs(&file.hunks[0].lines, revealed)
                .iter()
                .map(|r| (r.line_idx, r.sign, r.delete_above))
                .collect();
        assert_eq!(
            rows,
            vec![(0, DocSign::Add, false), (1, DocSign::Add, false)]
        );
    }
}

#[test]
fn highlights_stay_with_their_lines() {
    let backend = single("/d/f", 20);
    let state = backend.build_diff_file_for_path(
        &path("/d/f"),
        20,
        DiffBuild::Highlight {
            contents: vec!["a".to_string(), "b".to_string()],
        },
        Observation::Highlighted(vec![
            None,
            Some(vec![(TextStyle::new(), "b".to_string())]),
        ]),
    );
    match state {
        DiffBuild::Hash { hunks, too_large } => {
            assert!(!too_large);
            assert_eq!(hunks[0].lines[0].highlighted_spans, None);
            assert_eq!(
                hunks[0].lines[1].highlighted_spans,
                Some(vec![(TextStyle::new(), "b".to_string())])
            );
        }
        other => panic!("{:?}", other),
    }
}

#[test]
fn highlighting_changes_only_the_pieces() {
    let backend = single("/d/f", 20);
    let run = |highlights: Vec<Highlight>| {
        let state = backend.build_diff_file_for_path(
            &path("/d/f"),
            20,
            DiffBuild::Highlight {
                contents: vec!["a".to_string(), "b".to_string()],
            },
            Observation::Highlighted(highlights),
        );
        match state {
            DiffBuild::Hash { mut hunks, too_large } => {
                assert!(!too_large);
                for line in hunks[0].lines.iter_mut() {
                    line.highlighted_spans = None;
                }
                format!("{:?}", hunks)
            }
            other => panic!("{:?}", other),
        }
    };
    let plain = run(vec![None, None]);
    let coloured = run(vec![
        Some(vec![(TextStyle::new(), "other".to_string())]),
        Some(Vec::new()),
    ]);
    assert_eq!(plain, coloured);
}

#[test]
fn shed_heads_decide_the_same() {
    for head in [None, Some(vec![65, 66]), Some(vec![65, 0]), Some(Vec::new())] {
        let entry = |head: Option<Vec<u8>>| WalkEntry {
            path: path("/r/a"),
            is_file: true,
            size: Some(2),
            head,
        };
        let mut shed = entry(head.clone());
        shed.shed_head();
        assert!(shed.head.as_ref().map_or(true, |bytes| bytes.is_empty()));
        assert_eq!(
            collect_text_files(vec![Some(shed)]),
            collect_text_files(vec![Some(entry(head))])
        );
    }
}
