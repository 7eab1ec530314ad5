//! Layers, gating, and the dispatch pipeline.

use wsrouter::layer::{
    pipeline_enter, pipeline_resume, Layer, LayerResult, PipelineStep, ServerLayer,
};
use wsrouter::params::Params;

#[test]
fn allow_set_admits_listed_route_only() {
    let layer = Layer::new("auth".to_string()).allow(vec!["A".to_string()]);
    assert!(layer.admits(&"A".to_string()));
    assert!(!layer.admits(&"B".to_string()));
}

#[test]
fn empty_allow_set_admits_everything() {
    let layer = Layer::new("log".to_string());
    assert!(layer.admits(&"ANYTHING".to_string()));
}

#[test]
fn block_set_wins_over_allow_set() {
    let layer = Layer::new("auth".to_string())
        .allow(vec!["A".to_string()])
        .block(vec!["A".to_string()]);
    assert!(!layer.admits(&"A".to_string()));
}

#[test]
fn blocked_route_is_refused() {
    let layer: ServerLayer = Layer::new("guard".to_string()).block(vec!["CONNECTED".to_string()]);
    assert!(!layer.admits(&"CONNECTED".to_string()));
    assert!(layer.admits(&"PING".to_string()));
}

#[test]
fn empty_pipeline_runs_the_handler() {
    let layers: Vec<Layer> = Vec::new();
    let step = pipeline_enter(&layers, &"A".to_string(), 0, Params::new());
    assert!(matches!(step, PipelineStep::Run { .. }));
}

#[test]
fn gate_failure_blocks_before_the_layer_runs() {
    let layers = vec![Layer::new("auth".to_string()).allow(vec!["A".to_string()])];
    let step = pipeline_enter(&layers, &"B".to_string(), 0, Params::new());
    assert!(matches!(step, PipelineStep::Blocked));
}

#[test]
fn admitted_layer_is_consulted() {
    let layers = vec![Layer::new("auth".to_string()).allow(vec!["A".to_string()])];
    let step = pipeline_enter(&layers, &"A".to_string(), 0, Params::new());
    match step {
        PipelineStep::Invoke { index, .. } => assert_eq!(index, 0),
        _ => panic!("expected the layer to be consulted"),
    }
}

#[test]
fn cancel_blocks_and_the_handler_never_runs() {
    let layers = vec![Layer::new("auth".to_string())];
    let route = "A".to_string();
    let mut handler_ran = false;
    let mut step = pipeline_enter(&layers, &route, 0, Params::new());
    loop {
        match step {
            PipelineStep::Invoke { index, params: _ } => {
                // The layer's transform answers Cancel.
                step = pipeline_resume(&layers, &route, index, LayerResult::Cancel);
            },
            PipelineStep::Blocked => break,
            PipelineStep::Run { .. } => {
                handler_ran = true;
                break;
            },
        }
    }
    assert!(!handler_ran);
}

#[test]
fn pass_hands_rewritten_parameters_to_the_handler() {
    let layers = vec![Layer::new("enrich".to_string())];
    let route = "A".to_string();
    let step = pipeline_enter(&layers, &route, 0, Params::new());
    let index = match step {
        PipelineStep::Invoke { index, .. } => index,
        _ => panic!("expected the layer to be consulted"),
    };
    let mut rewritten = Params::new();
    rewritten.insert("role".to_string(), "admin".to_string());
    let step = pipeline_resume(&layers, &route, index, LayerResult::Pass(rewritten));
    match step {
        PipelineStep::Run { params } => {
            assert_eq!(params.get(&"role".to_string()), Some(&"admin".to_string()));
        },
        _ => panic!("expected the handler to run"),
    }
}

#[test]
fn layers_run_in_registration_order() {
    let layers = vec![
        Layer::new("first".to_string()),
        Layer::new("second".to_string()),
    ];
    let route = "A".to_string();
    let step = pipeline_enter(&layers, &route, 0, Params::new());
    let index = match step {
        PipelineStep::Invoke { index, .. } => index,
        _ => panic!("expected a layer"),
    };
    assert_eq!(index, 0);
    let step = pipeline_resume(&layers, &route, index, LayerResult::Pass(Params::new()));
    match step {
        PipelineStep::Invoke { index, .. } => assert_eq!(index, 1),
        _ => panic!("expected the second layer"),
    }
}
