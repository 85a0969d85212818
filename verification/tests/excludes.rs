use worksnap::excludes::{
    common_patterns_for_uid, is_covered_by_common, patterns, scoped_patterns, tar_args, visit_dir,
    DirFacts,
};
use worksnap::paths::{components, join_components, strip_prefix, Component};

#[test]
fn scoped_patterns_prefix_globs_with_the_ignore_file_dir() {
    let content = "target2\n*.log\nworkdir/dumps/*.bin\n";
    assert_eq!(
        scoped_patterns("proj/sub", content),
        vec![
            "./proj/sub/target2",
            "./proj/sub/*.log",
            "./proj/sub/workdir/dumps/*.bin",
        ]
    );
}

#[test]
fn scoped_patterns_at_the_source_root_anchor_to_dot() {
    assert_eq!(scoped_patterns("", "big-dir\n"), vec!["./big-dir"]);
}

#[test]
fn scoped_patterns_skip_blanks_and_comments_and_drop_leading_slash() {
    let content = "\n# a comment\n  \n/build\n";
    assert_eq!(scoped_patterns("proj", content), vec!["./proj/build"]);
}

#[test]
fn scoped_patterns_handle_crlf_unicode_space_and_a_missing_final_newline() {
    let content = "  cache\r\n\u{3000}#x\n//deep/*.o";
    assert_eq!(scoped_patterns("a", content), vec!["./a/cache", "./a/deep/*.o"]);
    assert!(scoped_patterns("a", "").is_empty());
}

#[test]
fn common_patterns_end_with_the_trash_of_the_user() {
    let list = common_patterns_for_uid(1000);
    assert_eq!(list.len(), 9);
    assert_eq!(list[0], "node_modules");
    assert_eq!(list[4], "./go/pkg");
    assert_eq!(list[8], ".Trash-1000");
    assert_eq!(common_patterns_for_uid(0)[8], ".Trash-0");
}

fn parts(path: &str) -> Vec<Component> {
    components(path.as_bytes())
}

#[test]
fn components_follow_std_path_normalization() {
    let c = parts("/a//b/./c/");
    assert_eq!(c.len(), 4);
    assert!(matches!(c[0], Component::RootDir));
    assert!(matches!(&c[3], Component::Normal(n) if n == b"c"));
    let c = parts("./x/..");
    assert!(matches!(c[0], Component::CurDir));
    assert!(matches!(c[2], Component::ParentDir));
    assert!(parts("").is_empty());
}

#[test]
fn relative_paths_are_stripped_and_joined_by_component() {
    let rest = strip_prefix(&parts("/w//p/./q/"), &parts("/w/")).unwrap();
    assert_eq!(join_components(&rest), b"p/q".to_vec());
    assert!(strip_prefix(&parts("/wx/p"), &parts("/w")).is_none());
    assert!(strip_prefix(&parts("/w"), &parts("/w/p")).is_none());
    let root = strip_prefix(&parts("./src"), &parts("./src")).unwrap();
    assert!(root.is_empty());
    assert!(join_components(&root).is_empty());
}

fn rel_of(path: &str) -> Option<Vec<Component>> {
    strip_prefix(&parts(path), &parts("/w"))
}

#[test]
fn common_patterns_cover_by_name_or_by_anchored_path() {
    let common = common_patterns_for_uid(1000);
    assert!(is_covered_by_common(&rel_of("/w/go/pkg"), &parts("/w/go/pkg"), &common));
    assert!(is_covered_by_common(&rel_of("/w/go//pkg/"), &parts("/w/go//pkg/"), &common));
    assert!(!is_covered_by_common(&rel_of("/w/deep/go/pkg"), &parts("/w/deep/go/pkg"), &common));
    assert!(!is_covered_by_common(&None, &parts("/v/go/pkg"), &common));
    assert!(is_covered_by_common(&rel_of("/w/x/node_modules"), &parts("/w/x/node_modules"), &common));
    assert!(!is_covered_by_common(&rel_of("/w/heaptrack.1"), &parts("/w/heaptrack.1"), &common));
}

fn facts(depth: usize, path: &str, rel: &str) -> DirFacts {
    DirFacts {
        depth,
        path: path.as_bytes().to_vec(),
        rel_text: Some(rel.to_string()),
        ignore_file: None,
        has_ignore_marker: false,
        cargo_manifest_beside: false,
        composer_manifest_beside: false,
    }
}

#[test]
fn visits_exclude_project_artifacts_and_prune_common_ones() {
    let common = common_patterns_for_uid(7);
    let mut found: Vec<Vec<u8>> = Vec::new();

    let mut root = facts(0, "/w", "");
    root.ignore_file = Some("big\n".to_string());
    root.has_ignore_marker = true;
    let visit = visit_dir(&mut found, b"/w", &root, &common);
    assert!(visit.descend);
    assert_eq!(found, vec![b"./big".to_vec()]);

    let mut target = facts(2, "/w/p/target", "p/target");
    target.cargo_manifest_beside = true;
    let visit = visit_dir(&mut found, b"/w", &target, &common);
    assert!(!visit.descend);
    assert_eq!(found.last().unwrap(), b"./p/target");

    let lone_target = facts(2, "/w/q/target", "q/target");
    assert!(visit_dir(&mut found, b"/w", &lone_target, &common).descend);

    let anchor = facts(4, "/w/a/.anchor/expanded-macros/expand-target", "a/.anchor/expanded-macros/expand-target");
    assert!(!visit_dir(&mut found, b"/w", &anchor, &common).descend);
    assert_eq!(found.last().unwrap(), b"./a/.anchor/expanded-macros/expand-target");

    let venv = facts(1, "/w/.venv", ".venv");
    let before = found.len();
    assert!(!visit_dir(&mut found, b"/w", &venv, &common).descend);
    assert_eq!(found.len(), before);

    let mut outside = facts(1, "/elsewhere/x", "");
    outside.rel_text = None;
    outside.has_ignore_marker = true;
    outside.ignore_file = Some("y\n".to_string());
    let visit = visit_dir(&mut found, b"/w", &outside, &common);
    assert!(visit.ignore_file_skipped && visit.exclusion_skipped && !visit.descend);
    assert_eq!(found.len(), before);

    let mut misspelled = facts(1, "/w/p", "q");
    misspelled.ignore_file = Some("y\n".to_string());
    let visit = visit_dir(&mut found, b"/w", &misspelled, &common);
    assert!(visit.ignore_file_skipped && visit.descend && !visit.exclusion_skipped);
    assert_eq!(found.len(), before);

    let mut nested = facts(2, "/w/p/sub", "p/sub");
    nested.ignore_file = Some("*.o\n".to_string());
    assert!(!visit_dir(&mut found, b"/w", &nested, &common).ignore_file_skipped);
    assert_eq!(found.last().unwrap(), b"./p/sub/*.o");
}

#[test]
fn tar_args_put_each_pattern_after_its_own_flag() {
    let all: Vec<Vec<u8>> = vec![b"a".to_vec(), b"b".to_vec(), b"c".to_vec()];
    let args = tar_args(&all);
    assert_eq!(args.len(), 6);
    for (i, pattern) in all.iter().enumerate() {
        assert_eq!(args[2 * i], b"--exclude".to_vec());
        assert_eq!(&args[2 * i + 1], pattern);
    }
    assert!(tar_args(&Vec::new()).is_empty());
}

#[test]
fn tar_args_interleave_the_exclude_flag() {
    let all = patterns(vec![b"./p/target".to_vec()], &vec!["node_modules".to_string()]);
    assert_eq!(all, vec![b"./p/target".to_vec(), b"node_modules".to_vec()]);
    assert_eq!(
        tar_args(&all),
        vec![
            b"--exclude".to_vec(),
            b"./p/target".to_vec(),
            b"--exclude".to_vec(),
            b"node_modules".to_vec(),
        ]
    );
}

#[test]
fn common_patterns_name_the_trash_of_the_running_user() {
    let list = worksnap::excludes::common_patterns();
    let uid = rustix::process::getuid().as_raw();
    assert_eq!(list[8], format!(".Trash-{uid}"));
    assert_eq!(list[..8], common_patterns_for_uid(uid)[..8]);
}
