use vvdaw::errors::PluginError;
use vvdaw::graph::{AudioGraph, PluginSource};
use vvdaw::session::{NodeLoad, PluginSpec, Session, SessionConnection, SessionError, SessionNode};

fn vst3(path: &str) -> PluginSpec {
    PluginSpec::Vst3 { path: path.to_string(), parameters: Vec::new() }
}

fn node(id: usize, plugin: PluginSpec) -> SessionNode {
    SessionNode { id, plugin, inputs: 2, outputs: 2 }
}

#[test]
fn test_session_creation() {
    let session = Session::new("Test Session", 48000, 512);
    assert_eq!(session.version, 1);
    assert_eq!(session.name, "Test Session");
    assert_eq!(session.sample_rate, 48000);
    assert_eq!(session.block_size, 512);
    assert!(session.graph.nodes.is_empty());
    assert!(session.graph.connections.is_empty());
}

#[test]
fn test_path_validation_absolute() {
    let spec = vst3("/Library/Audio/Plug-Ins/VST3/Test.vst3");
    assert!(spec.validate().is_ok());
}

#[test]
fn test_path_validation_relative() {
    let spec = vst3("relative/path/Test.vst3");
    let result = spec.validate();
    assert!(result.is_err());
    assert!(matches!(result, Err(SessionError::InvalidPath(_))));
}

#[test]
fn test_path_validation_parent_dir() {
    let spec = vst3("/Library/../etc/passwd");
    let result = spec.validate();
    assert!(result.is_err());
    assert!(matches!(result, Err(SessionError::InvalidPath(_))));
}

#[test]
fn test_path_validation_normalized() {
    let spec = vst3("/Library/Audio/Test.vst3");
    let result = spec.validate();
    assert!(result.is_ok());
}

#[test]
fn test_session_load_validates_paths() {
    let mut session = Session::new("Invalid", 48000, 512);
    session.graph.nodes.push(node(0, vst3("../../etc/passwd")));
    let result = session.validate();
    assert!(result.is_err());
    assert!(matches!(result, Err(SessionError::InvalidPath(_))));
}

#[test]
fn test_unknown_plugin_source_error() {
    // A graph holding a node whose plugin source was not recorded cannot be saved.
    let mut graph = AudioGraph::new();
    graph.add_node(PluginSource::Builtin { name: "gain".to_string() }, Ok((2, 2))).unwrap();
    let unknown = graph.add_node(PluginSource::Unknown, Ok((2, 2))).unwrap();
    let result = Session::from_graph(&graph, "Test", &vec![Vec::new(), Vec::new()]);
    assert!(matches!(result, Err(SessionError::UnknownPluginSource { node_id }) if node_id == unknown));
}

#[test]
fn test_error_message_specificity() {
    let err = SessionError::PluginLoadFailed {
        plugin_path: "/test/path.vst3".to_string(),
        reason: "File not found".to_string(),
    };

    let msg = err.message();
    assert!(msg.contains("/test/path.vst3"));
    assert!(msg.contains("File not found"));

    let err = SessionError::ParameterFailed { node_id: 5, param_id: 42, reason: "Out of range".to_string() };

    let msg = err.message();
    assert!(msg.contains("node 5"));
    assert!(msg.contains("parameter 42"));
    assert!(msg.contains("Out of range"));
}

#[test]
fn session_error_messages() {
    assert_eq!(SessionError::IoError("x".to_string()).message(), "I/O error: x");
    assert_eq!(SessionError::SerializationFailed("x".to_string()).message(), "Serialization failed: x");
    assert_eq!(SessionError::DeserializationFailed("x".to_string()).message(), "Deserialization failed: x");
    assert_eq!(SessionError::UnsupportedVersion(7).message(), "Unsupported session version: 7");
    assert_eq!(SessionError::InvalidData("x".to_string()).message(), "Invalid session data: x");
    assert_eq!(SessionError::NodeNotFound { node_id: 3 }.message(), "Node 3 not found in session");
    assert_eq!(
        SessionError::InvalidConnection { from: 1, to: 20 }.message(),
        "Invalid connection from node 1 to node 20"
    );
    assert_eq!(
        SessionError::UnknownPluginSource { node_id: 4 }.message(),
        "Node 4 has unknown plugin source and cannot be serialized"
    );
    assert_eq!(SessionError::InvalidPath("p".to_string()).message(), "Invalid plugin path: p");
    assert_eq!(
        SessionError::ParameterFailed { node_id: 5, param_id: 42, reason: "Out of range".to_string() }.message(),
        "Failed to set parameter 42 on node 5: Out of range"
    );
}

#[test]
fn validation_messages() {
    assert_eq!(
        PluginSpec::Builtin { name: String::new(), parameters: Vec::new() }.validate(),
        Err(SessionError::InvalidData("Built-in processor name cannot be empty".to_string()))
    );
    assert_eq!(
        vst3("relative/Test.vst3").validate(),
        Err(SessionError::InvalidPath("VST3 path must be absolute, got: relative/Test.vst3".to_string()))
    );
    assert_eq!(
        vst3("/a/../b.vst3").validate(),
        Err(SessionError::InvalidPath("VST3 path contains invalid components (.. or .): /a/../b.vst3".to_string()))
    );
    // `.` components vanish when an absolute path is read
    assert!(vst3("/a/./b.vst3").validate().is_ok());
    // a name that merely starts with two dots is no parent component
    assert!(vst3("/a/..b.vst3").validate().is_ok());
    assert!(PluginSpec::Builtin { name: "gain".to_string(), parameters: Vec::new() }.validate().is_ok());
    // an unexpected or missing extension is accepted
    assert!(vst3("/Library/Plugin.dll").validate().is_ok());
    assert!(vst3("/Library/Plugin").validate().is_ok());
}

#[test]
fn newer_versions_are_refused() {
    let mut session = Session::new("Future", 48000, 512);
    session.version = 2;
    assert_eq!(session.validate().unwrap_err(), SessionError::UnsupportedVersion(2));
}

#[test]
fn save_and_load_round_trip() {
    let mut graph = AudioGraph::with_config(44100, 256);
    let a = graph.add_node(PluginSource::Builtin { name: "gain".to_string() }, Ok((2, 2))).unwrap();
    let failed = graph.add_node(
        PluginSource::Builtin { name: "pan".to_string() },
        Err(PluginError::InitializationFailed("no".to_string())),
    );
    assert!(failed.is_err());
    let b = graph.add_node(PluginSource::Vst3 { path: "/Library/Reverb.vst3".to_string() }, Ok((2, 4))).unwrap();
    graph.connect(b, a).unwrap();
    assert_eq!((a, b), (0, 2));
    assert_eq!(*graph.processing_order(), vec![2, 0]);

    let params = vec![vec![(0u32, 0.5f64.to_bits())], Vec::new()];
    let session = Session::from_graph(&graph, "Round trip", &params).unwrap();
    assert_eq!(session.name, "Round trip");
    assert_eq!(session.sample_rate, 44100);
    assert_eq!(session.block_size, 256);
    assert_eq!(session.graph.nodes.len(), 2);
    assert_eq!(session.graph.nodes[0].id, 0);
    assert_eq!(session.graph.nodes[1].id, 2);
    assert_eq!(session.graph.nodes[1].outputs, 4);
    assert_eq!(session.graph.connections, vec![SessionConnection { from: 2, to: 0 }]);
    match &session.graph.nodes[0].plugin {
        PluginSpec::Builtin { name, parameters } => {
            assert_eq!(name, "gain");
            assert_eq!(*parameters, vec![(0u32, 0.5f64.to_bits())]);
        }
        _ => panic!("expected a built-in processor"),
    }

    let loads: Vec<NodeLoad> = session
        .graph
        .nodes
        .iter()
        .map(|n| NodeLoad::Loaded { inputs: n.inputs, outputs: n.outputs })
        .collect();
    let rebuilt = session.to_graph(&loads).unwrap();
    assert_eq!(rebuilt.sample_rate(), 44100);
    assert_eq!(rebuilt.block_size(), 256);
    assert_eq!(rebuilt.nodes().len(), 2);
    assert_eq!(rebuilt.nodes()[0].id(), 0);
    assert_eq!(rebuilt.nodes()[1].id(), 1);
    assert_eq!(*rebuilt.nodes()[1].source(), PluginSource::Vst3 { path: "/Library/Reverb.vst3".to_string() });
    assert_eq!(rebuilt.nodes()[1].outputs(), 4);
    // the connection from saved node 2 to saved node 0 now joins positions 1 and 0
    assert_eq!(rebuilt.connections().len(), 1);
    assert_eq!(rebuilt.connections()[0].from, 1);
    assert_eq!(rebuilt.connections()[0].to, 0);
    assert_eq!(*rebuilt.processing_order(), vec![1, 0]);
}

#[test]
fn load_reports_the_first_failed_node() {
    let mut session = Session::new("S", 48000, 512);
    session.graph.nodes.push(node(0, PluginSpec::Builtin { name: "gain".to_string(), parameters: Vec::new() }));
    session.graph.nodes.push(node(1, vst3("/Library/Broken.vst3")));
    session.graph.nodes.push(node(2, vst3("/Library/Other.vst3")));
    let loads = vec![
        NodeLoad::Loaded { inputs: 2, outputs: 2 },
        NodeLoad::LoadFailed("missing library".to_string()),
        NodeLoad::InitFailed(PluginError::InitializationFailed("bad".to_string())),
    ];
    assert_eq!(
        session.to_graph(&loads).unwrap_err(),
        SessionError::PluginLoadFailed {
            plugin_path: "/Library/Broken.vst3".to_string(),
            reason: "missing library".to_string(),
        }
    );

    let loads = vec![
        NodeLoad::InitFailed(PluginError::InitializationFailed("bad".to_string())),
        NodeLoad::Loaded { inputs: 2, outputs: 2 },
        NodeLoad::Loaded { inputs: 2, outputs: 2 },
    ];
    assert_eq!(
        session.to_graph(&loads).unwrap_err(),
        SessionError::PluginLoadFailed {
            plugin_path: "builtin:gain".to_string(),
            reason: "Plugin initialization failed: bad".to_string(),
        }
    );

    let loads = vec![
        NodeLoad::Loaded { inputs: 2, outputs: 2 },
        NodeLoad::ParameterFailed { param_id: 3, reason: "Out of range".to_string() },
        NodeLoad::Loaded { inputs: 2, outputs: 2 },
    ];
    assert_eq!(
        session.to_graph(&loads).unwrap_err(),
        SessionError::ParameterFailed { node_id: 1, param_id: 3, reason: "Out of range".to_string() }
    );
}

#[test]
fn load_refuses_a_connection_to_a_missing_node() {
    let mut session = Session::new("S", 48000, 512);
    session.graph.nodes.push(node(5, vst3("/Library/A.vst3")));
    session.graph.connections.push(SessionConnection { from: 5, to: 9 });
    let loads = vec![NodeLoad::Loaded { inputs: 2, outputs: 2 }];
    assert_eq!(session.to_graph(&loads).unwrap_err(), SessionError::InvalidConnection { from: 5, to: 9 });
}
