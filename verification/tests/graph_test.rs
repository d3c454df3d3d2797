use openclaw::recipe::schema::{OnErrorStrategy, RecipeStep, RecipeStepAction};
use openclaw::task::graph::TaskGraph;

fn shell_step(id: &str, deps: Vec<&str>) -> RecipeStep {
    RecipeStep {
        id: id.to_string(),
        name: id.to_string(),
        description: None,
        action: RecipeStepAction::Shell {
            command: "echo".to_string(),
            args: vec![id.to_string()],
            env: Vec::new(),
        },
        depends_on: deps.into_iter().map(String::from).collect(),
        condition: None,
        retry: None,
        timeout_secs: None,
        on_error: OnErrorStrategy::Fail,
    }
}

#[test]
fn build_linear_graph() {
    let steps = vec![shell_step("a", vec![]), shell_step("b", vec!["a"]), shell_step("c", vec!["b"])];
    let graph = TaskGraph::build(&steps).expect("should build");
    let order = graph.topological_order();
    assert_eq!(order, vec!["a", "b", "c"]);
}

#[test]
fn build_parallel_graph() {
    let steps = vec![shell_step("a", vec![]), shell_step("b", vec![]), shell_step("c", vec!["a", "b"])];
    let graph = TaskGraph::build(&steps).expect("should build");
    let order = graph.topological_order();
    // c must come last
    assert_eq!(order.last().unwrap(), "c");
    // a and b come before c
    let pos_a = order.iter().position(|x| x == "a").unwrap();
    let pos_b = order.iter().position(|x| x == "b").unwrap();
    let pos_c = order.iter().position(|x| x == "c").unwrap();
    assert!(pos_a < pos_c);
    assert!(pos_b < pos_c);
}

#[test]
fn build_rejects_cycle() {
    let steps = vec![shell_step("a", vec!["c"]), shell_step("b", vec!["a"]), shell_step("c", vec!["b"])];
    let result = TaskGraph::build(&steps);
    assert!(result.is_err());
    match result {
        Err(e) => {
            let msg = e.to_string();
            assert!(msg.contains("circular") || msg.contains("cycle"));
        }
        Ok(_) => panic!("expected error"),
    }
}

#[test]
fn build_rejects_unknown_dep() {
    let steps = vec![shell_step("a", vec!["nonexistent"])];
    let result = TaskGraph::build(&steps);
    assert!(result.is_err());
    match result {
        Err(e) => {
            let msg = e.to_string();
            assert!(msg.contains("unknown step"));
        }
        Ok(_) => panic!("expected error"),
    }
}

#[test]
fn get_ready_steps_returns_roots() {
    let steps = vec![shell_step("a", vec![]), shell_step("b", vec![]), shell_step("c", vec!["a", "b"])];
    let graph = TaskGraph::build(&steps).unwrap();
    let completed: Vec<String> = Vec::new();
    let running: Vec<String> = Vec::new();
    let ready = graph.get_ready_steps(&completed, &running);
    assert!(ready.contains(&"a".to_string()));
    assert!(ready.contains(&"b".to_string()));
    assert!(!ready.contains(&"c".to_string()));
}

#[test]
fn get_ready_steps_after_partial_completion() {
    let steps = vec![shell_step("a", vec![]), shell_step("b", vec![]), shell_step("c", vec!["a", "b"])];
    let graph = TaskGraph::build(&steps).unwrap();
    let completed: Vec<String> = vec!["a".to_string()];
    let running: Vec<String> = Vec::new();
    let ready = graph.get_ready_steps(&completed, &running);
    // b is ready, c still blocked on b
    assert!(ready.contains(&"b".to_string()));
    assert!(!ready.contains(&"c".to_string()));
}

#[test]
fn get_ready_steps_c_unlocked_when_all_deps_done() {
    let steps = vec![shell_step("a", vec![]), shell_step("b", vec![]), shell_step("c", vec!["a", "b"])];
    let graph = TaskGraph::build(&steps).unwrap();
    let completed: Vec<String> = vec!["a".to_string(), "b".to_string()];
    let running: Vec<String> = Vec::new();
    let ready = graph.get_ready_steps(&completed, &running);
    assert!(ready.contains(&"c".to_string()));
}

#[test]
fn to_graph_data_includes_all_nodes_and_edges() {
    let steps = vec![shell_step("a", vec![]), shell_step("b", vec!["a"])];
    let graph = TaskGraph::build(&steps).unwrap();
    let data = graph.to_graph_data(&steps);
    assert_eq!(data.nodes.len(), 2);
    assert_eq!(data.edges.len(), 1);
    assert_eq!(data.edges[0].source, "a");
    assert_eq!(data.edges[0].target, "b");
}

#[test]
fn to_graph_data_assigns_layers() {
    let steps = vec![shell_step("a", vec![]), shell_step("b", vec!["a"]), shell_step("c", vec!["b"])];
    let graph = TaskGraph::build(&steps).unwrap();
    let data = graph.to_graph_data(&steps);
    let node_a = data.nodes.iter().find(|n| n.id == "a").unwrap();
    let node_b = data.nodes.iter().find(|n| n.id == "b").unwrap();
    let node_c = data.nodes.iter().find(|n| n.id == "c").unwrap();
    assert_eq!(node_a.layer, 0);
    assert_eq!(node_b.layer, 1);
    assert_eq!(node_c.layer, 2);
}

#[test]
fn graph_errors_have_exact_messages() {
    let steps = vec![shell_step("a", vec!["ghost"])];
    let e = TaskGraph::build(&steps).err().unwrap();
    assert_eq!(e.to_string(), "Recipe parse error:  - step 'a' depends on unknown step 'ghost'");
    let steps = vec![shell_step("a", vec!["a"])];
    assert!(TaskGraph::build(&steps).is_err());
}

#[test]
fn ready_steps_skip_running_and_completed_and_are_sorted() {
    let steps = vec![shell_step("z", vec![]), shell_step("m", vec![]), shell_step("a", vec![])];
    let graph = TaskGraph::build(&steps).unwrap();
    let ready = graph.get_ready_steps(&Vec::new(), &Vec::new());
    assert_eq!(ready, vec!["a", "m", "z"]);
    let ready = graph.get_ready_steps(&vec!["z".to_string()], &vec!["a".to_string()]);
    assert_eq!(ready, vec!["m"]);
}

#[test]
fn diamond_layers_take_the_longest_path() {
    let steps = vec![
        shell_step("a", vec![]),
        shell_step("b", vec!["a"]),
        shell_step("c", vec!["b"]),
        shell_step("d", vec!["a", "c"]),
    ];
    let graph = TaskGraph::build(&steps).unwrap();
    let data = graph.to_graph_data(&steps);
    let layer = |id: &str| data.nodes.iter().find(|n| n.id == id).unwrap().layer;
    assert_eq!(layer("d"), 3);
    assert_eq!(data.edges.len(), 4);
    assert_eq!(graph.topological_order(), vec!["a", "b", "c", "d"]);
}

#[test]
fn small_step_lists_fit_the_graph_limits() {
    let steps = vec![shell_step("a", vec![]), shell_step("b", vec!["a", "x"])];
    assert!(openclaw::task::graph::within_graph_limits(&steps));
    assert!(openclaw::task::graph::within_graph_limits(&Vec::new()));
}

#[test]
fn data_and_ids_follow_a_given_order() {
    let steps = vec![shell_step("a", vec![]), shell_step("b", vec!["a"]), shell_step("c", vec![])];
    let graph = TaskGraph::build(&steps).unwrap();
    assert_eq!(graph.ids_in_order(&vec![2, 0, 1]), vec!["c", "a", "b"]);
    let data = graph.graph_data_in_order(&steps, &vec![2, 0, 1]);
    let ids: Vec<&str> = data.nodes.iter().map(|n| n.id.as_str()).collect();
    assert_eq!(ids, vec!["c", "a", "b"]);
    let layers: Vec<usize> = data.nodes.iter().map(|n| n.layer).collect();
    assert_eq!(layers, vec![0, 0, 1]);
    assert_eq!(data.edges.len(), 1);
    assert_eq!(data.edges[0].id, "a->b");
}

#[test]
fn steps_sharing_an_id_take_the_layer_of_the_last_one() {
    let steps = vec![shell_step("x", vec![]), shell_step("z", vec![]), shell_step("x", vec!["z"])];
    let graph = TaskGraph::build(&steps).unwrap();
    let data = graph.to_graph_data(&steps);
    let xs: Vec<usize> = data.nodes.iter().filter(|n| n.id == "x").map(|n| n.layer).collect();
    assert_eq!(xs, vec![1, 1]);
    let z = data.nodes.iter().find(|n| n.id == "z").unwrap();
    assert_eq!(z.layer, 0);
}
