use sweep::ScanBounds;
use sweep::cmd::Cmd;
use sweep::detect::detect_forest;
use sweep::detect::classify_dir;
use sweep::estimate::estimate_tree;
use sweep::estimate::estimate_snapshot;
use sweep::fs_data::FsNode;
use sweep::fs_data::RawEntry;
use sweep::preview::build_candidates;
use sweep::preview::total_candidate_size;

fn file(name: &str, size: u64) -> FsNode {
    FsNode::File { name: name.to_string(), size }
}

fn dir(name: &str, path: &str, children: Vec<FsNode>) -> FsNode {
    FsNode::Dir { name: name.to_string(), path: path.to_string(), children }
}

fn catalog() -> Vec<Cmd> {
    vec![
        Cmd::new("nodejs".to_string(), vec!["package.json".to_string()]),
        Cmd::new("cargo".to_string(), vec!["Cargo.toml".to_string()]),
    ]
}

#[test]
fn estimate_exact_when_unbounded() {
    let root = dir(
        "r",
        "/r",
        vec![file("a", 100), file("b", 23), dir("sub", "/r/sub", vec![file("c", 7)])],
    );
    let bounds = ScanBounds::new(16, 10000);
    let (total, capped) = estimate_tree(&root, &bounds);
    assert_eq!(total, 130);
    assert!(!capped);
}

#[test]
fn estimate_depth_cap_understates() {
    // A file two directories down is beyond max_depth 1: the directory at
    // depth 1 may be listed but not expanded.
    let root = dir(
        "r",
        "/r",
        vec![
            file("top", 10),
            dir("d1", "/r/d1", vec![dir("d2", "/r/d1/d2", vec![file("deep", 1000)])]),
        ],
    );
    let bounds = ScanBounds::new(1, 10000);
    let (total, capped) = estimate_tree(&root, &bounds);
    assert_eq!(total, 10);
    assert!(capped);
}

#[test]
fn estimate_file_cap_near_bound() {
    // 1000 files of 1 KiB with max_files = 100: the cap fires once more
    // than 100 files have been counted, so the reported size is near
    // 100 KiB, far below the true 1000 KiB.
    let mut children = Vec::new();
    for i in 0..1000 {
        children.push(file(&format!("f{}", i), 1024));
    }
    let root = dir("r", "/r", children);
    let bounds = ScanBounds::new(4, 100);
    let (total, capped) = estimate_tree(&root, &bounds);
    assert_eq!(total, 101 * 1024);
    assert!(capped);
    assert!(total < 1000 * 1024);
}

#[test]
fn estimate_on_plain_file_is_zero() {
    let bounds = ScanBounds::new(4, 100);
    let (total, capped) = estimate_tree(&file("lone", 55), &bounds);
    assert_eq!(total, 0);
    assert!(!capped);
}

#[test]
fn detect_skips_hidden_and_excluded() {
    // A hidden directory and an excluded one both hold marker files, and
    // so do directories nested beneath them: none may be returned. The
    // ordinary project is still found.
    let root = dir(
        "r",
        "/r",
        vec![
            dir(
                ".git",
                "/r/.git",
                vec![file("package.json", 5), dir("sub", "/r/.git/sub", vec![file(
                    "Cargo.toml",
                    5,
                )])],
            ),
            dir("target", "/r/target", vec![file("Cargo.toml", 5)]),
            dir("app", "/r/app", vec![file("package.json", 5)]),
        ],
    );
    let commands = catalog();
    let exclude = vec!["target".to_string()];
    let found = detect_forest(&vec![root], &commands, &exclude);
    assert_eq!(found.len(), 1);
    assert_eq!(found[0].path, "/r/app");
    assert_eq!(found[0].cmd_name, "nodejs");
}

#[test]
fn detect_finds_nested_projects() {
    // A directory that is itself a project is still searched: a nested
    // package inside it is an independent candidate.
    let root = dir(
        "r",
        "/r",
        vec![dir(
            "outer",
            "/r/outer",
            vec![file("package.json", 3), dir("inner", "/r/outer/inner", vec![file(
                "Cargo.toml",
                4,
            )])],
        )],
    );
    let found = detect_forest(&vec![root], &catalog(), &vec![]);
    assert_eq!(found.len(), 2);
    assert_eq!(found[0].path, "/r/outer");
    assert_eq!(found[0].cmd_name, "nodejs");
    assert_eq!(found[1].path, "/r/outer/inner");
    assert_eq!(found[1].cmd_name, "cargo");
}

#[test]
fn classify_first_match_wins() {
    // A directory matching two commands' markers is claimed by exactly
    // one: the first in catalog order.
    let both = vec![file("package.json", 1), file("Cargo.toml", 1)];
    let commands = catalog();
    assert_eq!(classify_dir(&both, &commands), Some(0));

    let reversed = vec![
        Cmd::new("cargo".to_string(), vec!["Cargo.toml".to_string()]),
        Cmd::new("nodejs".to_string(), vec!["package.json".to_string()]),
    ];
    assert_eq!(classify_dir(&both, &reversed), Some(0));

    let neither = vec![file("README.md", 1)];
    assert_eq!(classify_dir(&neither, &commands), None);
}

fn make_a() -> FsNode {
    let node_files: Vec<FsNode> = (0..500).map(|i| file(&format!("m{}", i), 20972)).collect();
    dir(
        "a",
        "/r/a",
        vec![file("package.json", 25), dir("node_modules", "/r/a/node_modules", node_files)],
    )
}

fn make_b() -> FsNode {
    dir("b", "/r/b", vec![file("Cargo.toml", 0), dir("target", "/r/b/target", vec![])])
}

#[test]
fn preview_drops_zero_sized_candidates() {
    // One project with real contents, one whose cache is empty: only the
    // first survives the preview, and the total reflects it.
    let root = dir("r", "/r", vec![make_a(), make_b()]);

    let commands = catalog();
    let detected = detect_forest(&vec![root], &commands, &vec![]);
    assert_eq!(detected.len(), 2);

    let bounds = ScanBounds::new(16, 100000);
    let (size_a, capped_a) = estimate_tree(&make_a(), &bounds);
    let (size_b, capped_b) = estimate_tree(&make_b(), &bounds);
    assert!(!capped_a && !capped_b);
    assert_eq!(size_a, 25 + 500 * 20972);
    assert_eq!(size_b, 0);

    let candidates = build_candidates(&detected, &vec![size_a, size_b]);
    assert_eq!(candidates.len(), 1);
    assert_eq!(candidates[0].path, "/r/a");
    assert_eq!(candidates[0].cmd_name, "nodejs");
    assert_eq!(candidates[0].size, 25 + 500 * 20972);
    assert!(candidates.iter().all(|c| c.size > 0));
    assert_eq!(total_candidate_size(&candidates), 25 + 500 * 20972);
}

#[test]
fn hidden_root_still_scans_children() {
    // The operator pointed the scan at a hidden directory: its children
    // are still searched, but the root itself is never classified, even
    // with a marker of its own directly inside it.
    let root = dir(
        ".hidden",
        "/h",
        vec![file("package.json", 4), dir("app", "/h/app", vec![file("package.json", 5)])],
    );
    let found = detect_forest(&vec![root], &catalog(), &vec![]);
    assert_eq!(found.len(), 1);
    assert_eq!(found[0].path, "/h/app");
    assert_eq!(found[0].cmd_name, "nodejs");
}

#[test]
fn estimate_snapshot_sums_file_entries() {
    let entries = vec![
        RawEntry {
            path: "/r".to_string(),
            name: "r".to_string(),
            depth: 0,
            is_dir: true,
            is_file: false,
            size: 4096,
        },
        RawEntry {
            path: "/r/a".to_string(),
            name: "a".to_string(),
            depth: 1,
            is_dir: false,
            is_file: true,
            size: 7,
        },
        RawEntry {
            path: "/r/link".to_string(),
            name: "link".to_string(),
            depth: 1,
            is_dir: false,
            is_file: false,
            size: 999,
        },
        RawEntry {
            path: "/r/sub".to_string(),
            name: "sub".to_string(),
            depth: 1,
            is_dir: true,
            is_file: false,
            size: 4096,
        },
        RawEntry {
            path: "/r/sub/b".to_string(),
            name: "b".to_string(),
            depth: 2,
            is_dir: false,
            is_file: true,
            size: 30,
        },
    ];
    let bounds = sweep::ScanBounds::new(8, 1000);
    // A directory's own metadata length and a symlink's length are not
    // file bytes: only the two regular files count.
    assert_eq!(estimate_snapshot(&entries, &bounds), 37);
}
