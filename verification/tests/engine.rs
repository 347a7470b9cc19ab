use ciroach::engine::{container_name, plan_container};
use ciroach::models::Step;

fn step() -> Step {
    Step {
        name: "unit test".to_string(),
        exploded_name: "unit test-node 18".to_string(),
        image: "node:18".to_string(),
        command: "npm test".to_string(),
        memory_bytes: 268435456,
        needs: vec!["build".to_string()],
        env: vec!["CI=true".to_string(), "NODE_ENV=test".to_string()],
        max_retries: 1,
        timeout_secs: 30,
    }
}

#[test]
fn a_container_is_named_after_its_step() {
    assert_eq!(container_name("hello"), "ciroach-hello");
    assert_eq!(container_name("test-18"), "ciroach-test-18");
    assert_eq!(container_name(""), "ciroach-");
}

#[test]
fn spaces_in_a_container_name_become_hyphens() {
    assert_eq!(container_name("unit test"), "ciroach-unit-test");
    assert_eq!(container_name(" a  b "), "ciroach--a--b-");
    assert_eq!(container_name("tab\tstays"), "ciroach-tab\tstays");
}

#[test]
fn a_container_is_planned_from_its_step() {
    let plan = plan_container(&step(), "/home/me/project", "1000:1000");
    assert_eq!(plan.name, "ciroach-unit-test-node-18");
    assert_eq!(plan.image, "node:18");
    assert_eq!(plan.cmd, vec!["sh".to_string(), "-c".to_string(), "npm test".to_string()]);
    assert_eq!(plan.working_dir, "/workspace");
    assert_eq!(plan.binds, vec!["/home/me/project:/workspace".to_string()]);
    assert_eq!(plan.user, "1000:1000");
    assert_eq!(plan.env, vec!["CI=true".to_string(), "NODE_ENV=test".to_string()]);
    assert_eq!(plan.memory, 268435456);
    assert_eq!(plan.memory_swap, 268435456);
}
