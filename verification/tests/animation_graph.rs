use bevy_ascii_game::glyph_animation_graph::{
    GlyphAnimationGraphAssetLoader, GlyphAnimationGraphError, GlyphAnimationGraphMeta,
    GlyphAnimationGraphStateMeta, GlyphAnimationGraphTransitionMeta,
};

fn state(name: &str, animation: &str) -> GlyphAnimationGraphStateMeta {
    GlyphAnimationGraphStateMeta { name: name.to_string(), animation: animation.to_string() }
}

fn transition(from: &str, to: &str, animation: Option<&str>) -> GlyphAnimationGraphTransitionMeta {
    GlyphAnimationGraphTransitionMeta {
        from: from.to_string(),
        to: to.to_string(),
        animation: animation.map(|a| a.to_string()),
    }
}

#[test]
fn graph_loader_extension() {
    let loader = GlyphAnimationGraphAssetLoader {};
    assert_eq!(loader.extensions(), &["agraph.ron"]);
}

#[test]
fn loads_and_traverses_to_itself() {
    let meta = GlyphAnimationGraphMeta {
        states: vec![state("idle", "idle.anim.ron"), state("run", "run.anim.ron")],
        transitions: vec![transition("idle", "run", Some("start.anim.ron"))],
    };
    let graph = GlyphAnimationGraphAssetLoader {}.load_meta(meta).ok().unwrap();
    let t = graph.traverse_named("idle".to_string(), "idle".to_string()).ok().unwrap();
    assert_eq!(t.transitions, Some(vec![]));
    assert_eq!(t.destination, "idle.anim.ron");
    assert!(graph.can_traverse(0, 0));
}

#[test]
fn transitions_lead_back_to_their_source_state() {
    // Both ends of a transition are looked up by its `from` name, so an
    // edge from "idle" leads to "idle" and "run" cannot be reached.
    let meta = GlyphAnimationGraphMeta {
        states: vec![state("idle", "idle.anim.ron"), state("run", "run.anim.ron")],
        transitions: vec![transition("idle", "run", Some("start.anim.ron"))],
    };
    let graph = GlyphAnimationGraphAssetLoader {}.load_meta(meta).ok().unwrap();
    let t = graph.traverse_named("idle".to_string(), "run".to_string()).ok().unwrap();
    assert_eq!(t.transitions, None);
    assert_eq!(t.destination, "idle.anim.ron");
    let t = graph.traverse(0, 1);
    assert!(t.transitions.is_none());
}

#[test]
fn duplicate_state_names_are_refused() {
    let meta = GlyphAnimationGraphMeta {
        states: vec![state("idle", "a"), state("idle", "b")],
        transitions: vec![],
    };
    let result = GlyphAnimationGraphAssetLoader {}.load_meta(meta);
    assert!(matches!(result, Err(GlyphAnimationGraphError::DuplicateStateName)));
}

#[test]
fn unknown_transition_state_is_refused() {
    let meta = GlyphAnimationGraphMeta {
        states: vec![state("idle", "a")],
        transitions: vec![transition("jump", "idle", None)],
    };
    match (GlyphAnimationGraphAssetLoader {}).load_meta(meta) {
        Err(GlyphAnimationGraphError::InvalidTransitionState { name, from, to }) => {
            assert_eq!(name, "jump");
            assert_eq!(from, "jump");
            assert_eq!(to, "idle");
        }
        _ => panic!("expected an invalid transition state"),
    }
}

#[test]
fn unknown_traversal_state_is_refused() {
    let meta = GlyphAnimationGraphMeta { states: vec![state("idle", "a")], transitions: vec![] };
    let graph = GlyphAnimationGraphAssetLoader {}.load_meta(meta).ok().unwrap();
    let result = graph.traverse_named("idle".to_string(), "fly".to_string());
    assert!(matches!(result, Err(GlyphAnimationGraphError::InvalidTraversalState)));
    let result = graph.traverse_named("fly".to_string(), "idle".to_string());
    assert!(matches!(result, Err(GlyphAnimationGraphError::InvalidTraversalState)));
}
