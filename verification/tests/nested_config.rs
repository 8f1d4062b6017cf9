use shellymon::nested::{insert_nested, Nested};

type Tree = Vec<(String, Nested<i64>)>;

fn leaf_at<'a>(tree: &'a Tree, key: &str) -> Option<&'a i64> {
    tree.iter().find(|(k, _)| k == key).and_then(|(_, v)| match v {
        Nested::Leaf(n) => Some(n),
        Nested::Branch(_) => None,
    })
}

fn branch_at<'a>(tree: &'a Tree, key: &str) -> Option<&'a Tree> {
    tree.iter().find(|(k, _)| k == key).and_then(|(_, v)| match v {
        Nested::Branch(children) => Some(children),
        Nested::Leaf(_) => None,
    })
}

#[test]
fn insert_sets_a_top_level_leaf() {
    let mut tree: Tree = Vec::new();
    insert_nested(&mut tree, "name", 1);
    assert_eq!(tree.len(), 1);
    assert_eq!(leaf_at(&tree, "name"), Some(&1));
}

#[test]
fn insert_builds_intermediate_branches() {
    let mut tree: Tree = Vec::new();
    insert_nested(&mut tree, ".device.name", 7);
    let device = branch_at(&tree, "device").expect("device should be a branch");
    assert_eq!(leaf_at(device, "name"), Some(&7));
}

#[test]
fn insert_replaces_an_existing_leaf() {
    let mut tree: Tree = Vec::new();
    insert_nested(&mut tree, "ap.enable", 0);
    insert_nested(&mut tree, "ap.enable", 1);
    let ap = branch_at(&tree, "ap").expect("ap should be a branch");
    assert_eq!(ap.len(), 1);
    assert_eq!(leaf_at(ap, "enable"), Some(&1));
}

#[test]
fn insert_into_an_existing_branch_keeps_siblings() {
    let mut tree: Tree = Vec::new();
    insert_nested(&mut tree, "device.name", 1);
    insert_nested(&mut tree, "device.profile", 2);
    insert_nested(&mut tree, "eco_mode", 3);
    assert_eq!(tree.len(), 2);
    let device = branch_at(&tree, "device").expect("device should be a branch");
    assert_eq!(device.len(), 2);
    assert_eq!(leaf_at(device, "name"), Some(&1));
    assert_eq!(leaf_at(device, "profile"), Some(&2));
    assert_eq!(leaf_at(&tree, "eco_mode"), Some(&3));
}

#[test]
fn deep_paths_nest_branch_by_branch() {
    let mut tree: Tree = Vec::new();
    insert_nested(&mut tree, "a.b.c.d", 4);
    let a = branch_at(&tree, "a").expect("a");
    let b = branch_at(a, "b").expect("b");
    let c = branch_at(b, "c").expect("c");
    assert_eq!(leaf_at(c, "d"), Some(&4));
}
