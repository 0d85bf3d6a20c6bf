use backup_warden::mirror::{copy_dir_all, CopyStep, SourceEntry, SourceNode};

fn file(name: &str) -> SourceEntry {
    SourceEntry { name: name.to_string(), node: SourceNode::File }
}

fn dir(name: &str, entries: Vec<SourceEntry>) -> SourceEntry {
    SourceEntry { name: name.to_string(), node: SourceNode::Directory(entries) }
}

fn path(names: &[&str]) -> Vec<String> {
    names.iter().map(|n| n.to_string()).collect()
}

fn create(names: &[&str]) -> CopyStep {
    CopyStep::CreateDir(path(names))
}

fn copy(names: &[&str]) -> CopyStep {
    CopyStep::CopyFile(path(names))
}

#[test]
fn an_empty_folder_is_mirrored_as_an_empty_folder() {
    assert_eq!(copy_dir_all(&Vec::new()), vec![create(&[])]);
}

#[test]
fn files_are_copied_in_listing_order() {
    let source = vec![file("b.txt"), file("a.txt")];
    assert_eq!(copy_dir_all(&source), vec![create(&[]), copy(&["b.txt"]), copy(&["a.txt"])]);
}

#[test]
fn subdirectories_are_entered_as_they_are_met() {
    let source = vec![
        file("readme"),
        dir("src", vec![file("main.rs"), dir("util", vec![file("mod.rs")]), file("lib.rs")]),
        dir("empty", vec![]),
        file("zz"),
    ];
    assert_eq!(
        copy_dir_all(&source),
        vec![
            create(&[]),
            copy(&["readme"]),
            create(&["src"]),
            copy(&["src", "main.rs"]),
            create(&["src", "util"]),
            copy(&["src", "util", "mod.rs"]),
            copy(&["src", "lib.rs"]),
            create(&["empty"]),
            copy(&["zz"]),
        ]
    );
}

#[test]
fn mirroring_twice_plans_the_same_steps() {
    let source = vec![dir("a", vec![dir("b", vec![file("c")])]), file("d")];
    assert_eq!(copy_dir_all(&source), copy_dir_all(&source));
}

#[test]
fn every_step_finds_its_directory_created() {
    let source = vec![
        dir("a", vec![dir("b", vec![file("c"), dir("d", vec![])]), file("e")]),
        file("f"),
        dir("g", vec![file("h")]),
    ];
    let steps = copy_dir_all(&source);
    assert_eq!(steps.len(), 9);
    let mut created: Vec<Vec<String>> = Vec::new();
    for (k, step) in steps.iter().enumerate() {
        let at = match step {
            CopyStep::CreateDir(p) => p,
            CopyStep::CopyFile(p) => p,
        };
        if k == 0 {
            assert_eq!(step, &create(&[]));
        } else {
            assert!(created.contains(&at[..at.len() - 1].to_vec()));
        }
        if let CopyStep::CreateDir(p) = step {
            created.push(p.clone());
        }
    }
}

#[test]
fn every_file_and_folder_of_the_tree_gets_one_step() {
    let source = vec![
        dir("a", vec![dir("b", vec![file("c"), dir("d", vec![])]), file("e")]),
        file("f"),
        dir("g", vec![file("h")]),
    ];
    let steps = copy_dir_all(&source);
    let folders = [vec![], vec!["a"], vec!["a", "b"], vec!["a", "b", "d"], vec!["g"]];
    let files = [vec!["a", "b", "c"], vec!["a", "e"], vec!["f"], vec!["g", "h"]];
    for folder in &folders {
        assert_eq!(steps.iter().filter(|s| **s == create(folder)).count(), 1);
        assert!(!steps.contains(&copy(folder)));
    }
    for f in &files {
        assert_eq!(steps.iter().filter(|s| **s == copy(f)).count(), 1);
        assert!(!steps.contains(&create(f)));
    }
    assert_eq!(steps.len(), folders.len() + files.len());
}
