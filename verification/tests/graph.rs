use pinst::graph::topo_order;
use pinst::manifest::{Detect, Install, Tool};

fn tool(name: &str, requires: &[&str]) -> Tool {
    Tool {
        name: name.to_string(),
        summary: String::new(),
        tags: Vec::new(),
        requires: requires.iter().map(|r| r.to_string()).collect(),
        detect: Detect { command: "true".to_string(), bin: None, version_cmd: None, version_regex: None },
        help_cmd: None,
        install: Install::Shell { command: "true".to_string() },
        upgrade: None,
        post_install: Vec::new(),
        platform_overrides: Vec::new(),
    }
}

#[test]
fn every_tool_comes_after_what_it_requires() {
    let tools = vec![tool("app", &["lib", "runtime"]), tool("lib", &["runtime"]), tool("runtime", &[])];
    let order = topo_order(&tools).unwrap();
    let position = |name: &str| order.iter().position(|&i| tools[i].name == name).unwrap();
    assert_eq!(order.len(), 3);
    assert!(position("runtime") < position("lib"));
    assert!(position("lib") < position("app"));
}

#[test]
fn a_cycle_names_the_tools_it_leaves_unordered() {
    let tools = vec![tool("a", &["b"]), tool("b", &["a"]), tool("c", &[])];
    let err = topo_order(&tools).unwrap_err();
    let mut stuck = err.stuck.clone();
    stuck.sort();
    assert_eq!(stuck, [0, 1]);
}
