use std::collections::BTreeMap;

use yanvm::links::{activation_plan, LinkOp};

#[test]
fn test_activation_plan_shape() {
    let old_names = vec!["node".to_string(), "stale".to_string()];
    let new_names = vec!["node".to_string(), "npm".to_string()];

    let plan = activation_plan(&old_names, &new_names);

    assert_eq!(plan.len(), 4);
    assert!(matches!(&plan[0], LinkOp::Remove(n) if n == "node"));
    assert!(matches!(&plan[1], LinkOp::Remove(n) if n == "stale"));
    assert!(matches!(&plan[2], LinkOp::Link(n) if n == "node"));
    assert!(matches!(&plan[3], LinkOp::Link(n) if n == "npm"));
}

#[test]
fn test_activation_replaces_target() {
    // The target currently exposes an old version's entries; activating a
    // new version's binary directory must leave the target holding
    // exactly the new entries, with no stale name surviving.
    let mut target = BTreeMap::new();
    target.insert("node".to_string(), b"old node".to_vec());
    target.insert("stale-tool".to_string(), b"old tool".to_vec());

    let mut source = BTreeMap::new();
    source.insert("node".to_string(), b"new node".to_vec());
    source.insert("npm".to_string(), b"new npm".to_vec());

    let old_names: Vec<String> = target.keys().cloned().collect();
    let new_names: Vec<String> = source.keys().cloned().collect();

    let plan = activation_plan(&old_names, &new_names);
    for op in &plan {
        match op {
            LinkOp::Remove(name) => {
                target.remove(name);
            }
            LinkOp::Link(name) => {
                target.insert(name.clone(), source[name].clone());
            }
        }
    }

    assert_eq!(target, source);
}
