use workspace_versioning::partition::{form_groups, partition, VersionGroup};
use workspace_versioning::scan::{directly_changed, scan};
use workspace_versioning::semantic_version::SemVer;
use workspace_versioning::workspace::{
    contains_id, ChangeReason, ChangedPackage, FileChanges, WorkspacePackage,
};

fn package(id: &str, version: &str, independent: bool, dependencies: &[&str]) -> WorkspacePackage {
    WorkspacePackage {
        id: id.to_string(),
        name: format!("name-of-{}", id),
        version: SemVer::parse(version).expect("a version"),
        independent,
        private: false,
        dependencies: dependencies.iter().map(|d| d.to_string()).collect(),
    }
}

fn private_package(id: &str, dependencies: &[&str]) -> WorkspacePackage {
    let mut p = package(id, "0.1.0", false, dependencies);
    p.private = true;
    p
}

fn ids(list: &[&str]) -> Vec<String> {
    list.iter().map(|d| d.to_string()).collect()
}

fn indices(found: &[ChangedPackage]) -> Vec<usize> {
    found.iter().map(|c| c.index).collect()
}

fn reasons(found: &[ChangedPackage]) -> Vec<ChangeReason> {
    found.iter().map(|c| c.reason).collect()
}

fn example_workspace() -> Vec<WorkspacePackage> {
    vec![
        package("a", "1.0.0", false, &[]),
        package("b", "1.0.0", false, &["a"]),
        package("c", "2.0.0", true, &[]),
    ]
}

#[test]
fn contains_id_finds_a_listed_identity() {
    let list = ids(&["a", "b"]);
    assert!(contains_id(&list, &"b".to_string()));
    assert!(!contains_id(&list, &"c".to_string()));
    assert!(!contains_id(&Vec::new(), &"a".to_string()));
}

#[test]
fn directly_changed_are_the_packages_with_differing_files() {
    let listing = vec![
        FileChanges { package: "a".to_string(), files: vec!["a/src/lib.rs".to_string()] },
        FileChanges { package: "b".to_string(), files: Vec::new() },
        FileChanges {
            package: "c".to_string(),
            files: vec!["c/Cargo.toml".to_string(), "c/src/main.rs".to_string()],
        },
        FileChanges { package: "d".to_string(), files: Vec::new() },
    ];
    assert_eq!(directly_changed(&listing), ids(&["a", "c"]));
    assert!(directly_changed(&Vec::new()).is_empty());
    assert!(directly_changed(&listing[1..2].iter().map(|l| FileChanges {
        package: l.package.clone(),
        files: l.files.clone(),
    }).collect()).is_empty());
}

#[test]
fn nothing_changed_gives_an_empty_scan() {
    let found = scan(&example_workspace(), &Vec::new(), true);
    assert!(found.is_empty());
}

#[test]
fn empty_workspace_gives_an_empty_scan() {
    let found = scan(&Vec::new(), &ids(&["a"]), true);
    assert!(found.is_empty());
}

#[test]
fn unknown_identities_change_nothing() {
    let found = scan(&example_workspace(), &ids(&["z"]), true);
    assert!(found.is_empty());
}

#[test]
fn a_change_reaches_the_dependents() {
    let found = scan(&example_workspace(), &ids(&["a"]), false);
    assert_eq!(indices(&found), vec![0, 1]);
    assert_eq!(reasons(&found), vec![ChangeReason::Direct, ChangeReason::Propagated]);
    assert_eq!(found[0].name, "name-of-a");
    assert_eq!(found[1].name, "name-of-b");
    assert_eq!(found[0].version, SemVer::new(1, 0, 0));
    assert!(!found[0].independent);
    assert!(!found[1].independent);
}

#[test]
fn a_change_does_not_reach_the_dependencies() {
    let found = scan(&example_workspace(), &ids(&["b"]), false);
    assert_eq!(indices(&found), vec![1]);
    assert_eq!(reasons(&found), vec![ChangeReason::Direct]);
}

#[test]
fn a_package_changed_both_ways_counts_as_direct() {
    let found = scan(&example_workspace(), &ids(&["b", "a"]), false);
    assert_eq!(indices(&found), vec![0, 1]);
    assert_eq!(reasons(&found), vec![ChangeReason::Direct, ChangeReason::Direct]);
}

#[test]
fn a_change_travels_several_hops_against_the_listing_order() {
    let packages = vec![
        package("top", "1.0.0", false, &["upper"]),
        package("upper", "1.0.0", false, &["middle"]),
        package("middle", "1.0.0", false, &["lower"]),
        package("lower", "1.0.0", false, &["leaf"]),
        package("leaf", "1.0.0", false, &[]),
        package("aside", "1.0.0", false, &[]),
    ];
    let found = scan(&packages, &ids(&["leaf"]), false);
    assert_eq!(indices(&found), vec![0, 1, 2, 3, 4]);
    assert_eq!(found[4].reason, ChangeReason::Direct);
    assert_eq!(found[0].reason, ChangeReason::Propagated);
    let found = scan(&packages, &ids(&["middle"]), false);
    assert_eq!(indices(&found), vec![0, 1, 2]);
}

#[test]
fn a_diamond_is_reported_once() {
    let packages = vec![
        package("base", "1.0.0", false, &[]),
        package("left", "1.0.0", false, &["base"]),
        package("right", "1.0.0", false, &["base"]),
        package("tip", "1.0.0", false, &["left", "right"]),
    ];
    let found = scan(&packages, &ids(&["base"]), false);
    assert_eq!(indices(&found), vec![0, 1, 2, 3]);
}

#[test]
fn a_cycle_does_not_hang_the_scan() {
    let packages = vec![
        package("x", "1.0.0", false, &["y"]),
        package("y", "1.0.0", false, &["z"]),
        package("z", "1.0.0", false, &["x"]),
        package("w", "1.0.0", false, &["w"]),
    ];
    assert!(scan(&packages, &Vec::new(), true).is_empty());
    let found = scan(&packages, &ids(&["y"]), true);
    assert_eq!(indices(&found), vec![0, 1, 2]);
    let found = scan(&packages, &ids(&["w"]), true);
    assert_eq!(indices(&found), vec![3]);
}

#[test]
fn a_private_package_is_left_out_but_hands_the_change_on() {
    let packages = vec![
        package("app", "1.0.0", false, &["tools"]),
        private_package("tools", &["core"]),
        package("core", "1.0.0", false, &[]),
        private_package("bench", &[]),
    ];
    let found = scan(&packages, &ids(&["tools"]), false);
    assert_eq!(indices(&found), vec![0]);
    assert_eq!(found[0].reason, ChangeReason::Propagated);
    let found = scan(&packages, &ids(&["core", "bench"]), false);
    assert_eq!(indices(&found), vec![0, 2]);
}

#[test]
fn private_packages_are_reported_on_request() {
    let packages = vec![
        package("app", "1.0.0", false, &["tools"]),
        private_package("tools", &["core"]),
        package("core", "1.0.0", false, &[]),
    ];
    let found = scan(&packages, &ids(&["tools"]), true);
    assert_eq!(indices(&found), vec![0, 1]);
    assert_eq!(reasons(&found), vec![ChangeReason::Propagated, ChangeReason::Direct]);
}

#[test]
fn dependencies_outside_the_workspace_are_ignored() {
    let packages = vec![package("a", "1.0.0", false, &["serde", "b"]), package("b", "1.0.0", false, &[])];
    let found = scan(&packages, &ids(&["serde"]), true);
    assert!(found.is_empty());
}

#[test]
fn partition_splits_by_policy_and_keeps_the_order() {
    let packages = vec![
        package("a", "1.0.0", true, &[]),
        package("b", "1.0.0", false, &["a"]),
        package("c", "2.0.0", true, &["b"]),
        package("d", "2.0.0", false, &["c"]),
    ];
    let found = scan(&packages, &ids(&["a"]), false);
    assert_eq!(found.len(), 4);
    let (independent, synchronized) = partition(&found);
    assert_eq!(indices(&independent), vec![0, 2]);
    assert_eq!(indices(&synchronized), vec![1, 3]);
    assert_eq!(independent.len() + synchronized.len(), found.len());
    assert!(independent.iter().all(|c| c.independent));
    assert!(synchronized.iter().all(|c| !c.independent));
}

#[test]
fn partition_of_nothing_is_two_empty_parts() {
    let (independent, synchronized) = partition(&Vec::new());
    assert!(independent.is_empty());
    assert!(synchronized.is_empty());
}

#[test]
fn example_partition_is_all_synchronized() {
    let found = scan(&example_workspace(), &ids(&["a"]), false);
    let (independent, synchronized) = partition(&found);
    assert!(independent.is_empty());
    assert_eq!(indices(&synchronized), vec![0, 1]);
}

#[test]
fn groups_put_the_synchronized_packages_first() {
    let packages = vec![
        package("a", "1.0.0", true, &[]),
        package("b", "1.2.0", false, &["a"]),
        package("c", "2.0.0", true, &["b"]),
        package("d", "1.4.1", false, &["c"]),
        package("e", "1.3.0", false, &["d"]),
    ];
    let found = scan(&packages, &ids(&["a"]), false);
    let (independent, synchronized) = partition(&found);
    let groups = form_groups(&independent, &synchronized);
    assert_eq!(groups.len(), 3);
    match &groups[0] {
        VersionGroup::Synchronized(members) => assert_eq!(indices(members), vec![1, 3, 4]),
        other => panic!("{:?}", other),
    }
    match &groups[1] {
        VersionGroup::Independent(member) => assert_eq!(member.index, 0),
        other => panic!("{:?}", other),
    }
    match &groups[2] {
        VersionGroup::Independent(member) => assert_eq!(member.index, 2),
        other => panic!("{:?}", other),
    }
    assert_eq!(groups[0].basis(), SemVer::new(1, 4, 1));
    assert_eq!(groups[0].label(), None);
    assert_eq!(groups[1].basis(), SemVer::new(1, 0, 0));
    assert_eq!(groups[1].label(), Some("name-of-a".to_string()));
    assert_eq!(groups[2].basis(), SemVer::new(2, 0, 0));
}

#[test]
fn no_synchronized_packages_give_no_synchronized_group() {
    let packages = vec![package("a", "1.0.0", true, &[]), package("b", "1.2.0", true, &["a"])];
    let found = scan(&packages, &ids(&["a"]), false);
    let (independent, synchronized) = partition(&found);
    let groups = form_groups(&independent, &synchronized);
    assert_eq!(groups.len(), 2);
    assert!(groups.iter().all(|g| matches!(g, VersionGroup::Independent(_))));
    assert!(form_groups(&Vec::new(), &Vec::new()).is_empty());
}

#[test]
fn synchronized_basis_is_the_maximum() {
    let packages = vec![
        package("a", "1.2.0", false, &[]),
        package("b", "1.4.1", false, &[]),
        package("c", "1.3.0", false, &[]),
    ];
    let found = scan(&packages, &ids(&["a", "b", "c"]), false);
    let (independent, synchronized) = partition(&found);
    let groups = form_groups(&independent, &synchronized);
    assert_eq!(groups.len(), 1);
    assert_eq!(groups[0].basis(), SemVer::new(1, 4, 1));
}

fn numbered(count: usize, edges: &[(usize, usize)], private: &[usize]) -> Vec<WorkspacePackage> {
    (0..count)
        .map(|i| {
            let dependencies: Vec<String> = edges
                .iter()
                .filter(|(from, _)| *from == i)
                .map(|(_, to)| format!("p{}", to))
                .collect();
            WorkspacePackage {
                id: format!("p{}", i),
                name: format!("package-{}", i),
                version: SemVer::new(0, i as u64, 0),
                independent: i % 3 == 0,
                private: private.contains(&i),
                dependencies,
            }
        })
        .collect()
}

fn reached(count: usize, edges: &[(usize, usize)], seeds: &[usize]) -> Vec<bool> {
    let mut marks = vec![false; count];
    let mut pending: Vec<usize> = Vec::new();
    for seed in seeds {
        if !marks[*seed] {
            marks[*seed] = true;
            pending.push(*seed);
        }
    }
    while let Some(current) = pending.pop() {
        for (from, to) in edges {
            if *to == current && !marks[*from] {
                marks[*from] = true;
                pending.push(*from);
            }
        }
    }
    marks
}

fn next_random(state: &mut u64) -> usize {
    *state = state.wrapping_mul(6364136223846793005).wrapping_add(1442695040888963407);
    (*state >> 33) as usize
}

#[test]
fn scan_is_the_closure_on_generated_graphs() {
    let mut state = 2024u64;
    for round in 0..300 {
        let count = 1 + next_random(&mut state) % 9;
        let edge_count = next_random(&mut state) % (2 * count + 1);
        let edges: Vec<(usize, usize)> = (0..edge_count)
            .map(|_| (next_random(&mut state) % count, next_random(&mut state) % count))
            .collect();
        let seeds: Vec<usize> =
            (0..count).filter(|_| next_random(&mut state) % 4 == 0).collect();
        let private: Vec<usize> =
            (0..count).filter(|_| next_random(&mut state) % 5 == 0).collect();
        let packages = numbered(count, &edges, &private);
        let direct: Vec<String> = seeds.iter().map(|i| format!("p{}", i)).collect();
        let marks = reached(count, &edges, &seeds);

        let everything = scan(&packages, &direct, true);
        let expected: Vec<usize> = (0..count).filter(|i| marks[*i]).collect();
        assert_eq!(indices(&everything), expected, "round {}", round);
        for entry in &everything {
            let direct_change = seeds.contains(&entry.index);
            assert_eq!(entry.reason == ChangeReason::Direct, direct_change, "round {}", round);
            assert_eq!(entry.name, format!("package-{}", entry.index));
            assert_eq!(entry.version, SemVer::new(0, entry.index as u64, 0));
            assert_eq!(entry.independent, entry.index % 3 == 0);
        }

        let published = scan(&packages, &direct, false);
        let expected: Vec<usize> =
            (0..count).filter(|i| marks[*i] && !private.contains(i)).collect();
        assert_eq!(indices(&published), expected, "round {}", round);

        let (independent, synchronized) = partition(&everything);
        assert_eq!(independent.len() + synchronized.len(), everything.len());
        for entry in &everything {
            let alone = independent.iter().filter(|c| c.index == entry.index).count();
            let shared = synchronized.iter().filter(|c| c.index == entry.index).count();
            assert_eq!(alone + shared, 1);
            assert_eq!(alone == 1, entry.independent);
        }
        let groups = form_groups(&independent, &synchronized);
        let mut grouped: Vec<usize> = Vec::new();
        for group in &groups {
            match group {
                VersionGroup::Independent(member) => grouped.push(member.index),
                VersionGroup::Synchronized(members) => {
                    assert!(!members.is_empty());
                    grouped.extend(members.iter().map(|c| c.index));
                }
            }
        }
        let mut in_order = indices(&synchronized);
        in_order.extend(indices(&independent));
        assert_eq!(grouped, in_order);
    }
}
