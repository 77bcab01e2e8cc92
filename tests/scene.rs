use rbx_backend::scene::{
    is_script_class, join_path, script_hits, script_sources, SceneNode, SceneTree,
};

fn node(name: &str, class: &str, source: Option<&str>, children: Vec<usize>) -> SceneNode {
    SceneNode {
        name: name.to_string(),
        class: class.to_string(),
        source: source.map(|s| s.to_string()),
        children,
    }
}

#[test]
fn scripts_are_found_depth_first_with_parent_paths() {
    let tree = SceneTree {
        nodes: vec![
            node("Tool", "Model", None, vec![1, 2, 4]),
            node("Main", "Script", Some("print(1)"), vec![]),
            node("Folder", "Folder", None, vec![3]),
            node("Mod", "ModuleScript", Some("return {}"), vec![]),
            node("Local", "LocalScript", Some("x"), vec![]),
        ],
        roots: vec![0],
    };
    let hits = script_hits(&tree);
    let found: Vec<(Vec<String>, usize)> = hits.into_iter().map(|h| (h.path, h.node)).collect();
    assert_eq!(
        found,
        vec![
            (vec!["Tool".to_string()], 1),
            (vec!["Tool".to_string(), "Folder".to_string()], 3),
            (vec!["Tool".to_string()], 4),
        ]
    );
}

#[test]
fn top_level_scripts_and_backward_children_are_skipped() {
    let tree = SceneTree {
        nodes: vec![
            node("Top", "Script", Some("a"), vec![]),
            node("Box", "Model", None, vec![0, 9]),
        ],
        roots: vec![0, 1, 7],
    };
    assert!(script_hits(&tree).is_empty());
}

#[test]
fn script_classes() {
    assert!(is_script_class("Script"));
    assert!(is_script_class("LocalScript"));
    assert!(is_script_class("ModuleScript"));
    assert!(!is_script_class("Model"));
    assert!(!is_script_class("script"));
}

#[test]
fn paths_join_with_dots() {
    assert_eq!(join_path(&vec!["Tool".to_string(), "Folder".to_string()]), "Tool.Folder");
    assert_eq!(join_path(&vec!["Tool".to_string()]), "Tool");
    assert_eq!(join_path(&vec![]), "");
}

#[test]
fn sources_keep_last_script_per_parent_path() {
    let tree = SceneTree {
        nodes: vec![
            node("Tool", "Model", None, vec![1, 2, 4, 5]),
            node("Main", "Script", Some("first"), vec![]),
            node("Folder", "Folder", None, vec![3]),
            node("Mod", "ModuleScript", Some("return {}"), vec![]),
            node("Local", "LocalScript", Some("second"), vec![]),
            node("Empty", "Script", None, vec![]),
            node("Other", "Model", None, vec![7]),
            node("Run", "Script", Some("run"), vec![]),
        ],
        roots: vec![0, 6],
    };
    let found: Vec<(String, String)> =
        script_sources(&tree).into_iter().map(|s| (s.path, s.source)).collect();
    assert_eq!(
        found,
        vec![
            ("Tool.Folder".to_string(), "return {}".to_string()),
            ("Other".to_string(), "run".to_string()),
        ]
    );
}

#[test]
fn sources_take_the_latest_script_of_a_path() {
    let tree = SceneTree {
        nodes: vec![
            node("Tool", "Model", None, vec![1, 2]),
            node("A", "Script", Some("a"), vec![]),
            node("B", "LocalScript", Some("b"), vec![]),
        ],
        roots: vec![0],
    };
    let found: Vec<(String, String)> =
        script_sources(&tree).into_iter().map(|s| (s.path, s.source)).collect();
    assert_eq!(found, vec![("Tool".to_string(), "b".to_string())]);
}
