use vvdaw::engine::{choose_sample_rate, engine_initialized, AudioCommand, AudioEvent, EngineControl, PluginAction};
use vvdaw::errors::PluginError;
use vvdaw::param_changes::{ParamValueQueue, ParameterChanges};
use vvdaw::stream::{MemoryStream, SEEK_CUR, SEEK_END, SEEK_SET};

#[test]
fn stream_write_then_read_back() {
    let mut s = MemoryStream::new();
    assert_eq!(s.write(&[1, 2, 3, 4]), 4);
    assert_eq!(s.position(), 4);
    s.rewind();
    assert_eq!(s.read(2), vec![1, 2]);
    assert_eq!(s.read(10), vec![3, 4]);
    assert_eq!(s.read(1), Vec::<u8>::new());
    assert_eq!(s.read(-5), Vec::<u8>::new());
    assert_eq!(s.tell(), 4);
}

#[test]
fn stream_write_past_the_end_fills_with_zeros() {
    let mut s = MemoryStream::with_capacity(16);
    s.write(&[9, 9]);
    assert_eq!(s.seek(5, SEEK_SET), Some(5));
    s.write(&[7]);
    assert_eq!(s.data(), &[9, 9, 0, 0, 0, 7]);
    // overwriting in the middle keeps the rest
    assert_eq!(s.seek(1, SEEK_SET), Some(1));
    s.write(&[8]);
    assert_eq!(s.data(), &[9, 8, 0, 0, 0, 7]);
}

#[test]
fn stream_seek_modes() {
    let mut s = MemoryStream::new();
    s.write(&[1, 2, 3, 4, 5, 6]);
    assert_eq!(s.seek(-2, SEEK_END), Some(4));
    assert_eq!(s.seek(-1, SEEK_CUR), Some(3));
    assert_eq!(s.seek(-10, SEEK_CUR), Some(0));
    assert_eq!(s.seek(3, 7), None);
    assert_eq!(s.position(), 0);
    assert_eq!(s.seek(2, SEEK_END), Some(8));
    assert_eq!(s.read(4), Vec::<u8>::new());
}

#[test]
fn parameter_queues_collect_changes_per_parameter() {
    let mut changes = ParameterChanges::new();
    assert_eq!(changes.parameter_count(), 0);
    changes.add_change(3, 0, 0.25f64.to_bits());
    changes.add_change(7, 16, 1.0f64.to_bits());
    changes.add_change(3, 32, 0.5f64.to_bits());
    assert_eq!(changes.parameter_count(), 2);

    let q = changes.parameter_data(0).unwrap();
    assert_eq!(q.parameter_id(), 3);
    assert_eq!(q.point_count(), 2);
    assert_eq!(q.get_point(0), Some((0, 0.25f64.to_bits())));
    assert_eq!(q.get_point(1), Some((32, 0.5f64.to_bits())));
    assert_eq!(q.get_point(2), None);
    assert_eq!(q.get_point(-1), None);

    let q = changes.parameter_data(1).unwrap();
    assert_eq!(q.parameter_id(), 7);
    assert_eq!(q.point_count(), 1);
    assert!(changes.parameter_data(2).is_none());
    assert!(changes.parameter_data(-1).is_none());

    assert_eq!(changes.add_parameter_data(7), 1);
    assert_eq!(changes.add_parameter_data(9), 2);
    assert_eq!(changes.parameter_data(2).unwrap().point_count(), 0);

    changes.clear();
    assert_eq!(changes.parameter_count(), 0);
}

#[test]
fn single_queue_points() {
    let mut q = ParamValueQueue::new(11);
    q.add_value(4, 2);
    assert_eq!(q.add_point(8, 3), 1);
    assert_eq!(q.parameter_id(), 11);
    assert_eq!(q.point_count(), 2);
    assert_eq!(q.get_point(1), Some((8, 3)));
}

#[test]
fn test_engine_start_stop() {
    let mut engine = EngineControl::new(48000, 256);
    assert!(!engine.is_running());
    let o = engine.handle_command(AudioCommand::Start, None);
    assert!(matches!(o.event, Some(AudioEvent::Started)));
    assert!(engine.is_running());
    let o = engine.handle_command(AudioCommand::Stop, None);
    assert!(matches!(o.event, Some(AudioEvent::Stopped)));
    assert!(!engine.is_running());
}

#[test]
fn test_multiple_start_stop_cycles() {
    let mut engine = EngineControl::new(48000, 256);
    for _ in 0..3 {
        engine.handle_command(AudioCommand::Start, None);
        assert!(engine.is_running());
        engine.handle_command(AudioCommand::Stop, None);
        assert!(!engine.is_running());
    }
}

#[test]
fn graph_changes_only_while_stopped() {
    let mut engine = EngineControl::new(48000, 256);
    let o = engine.handle_command(AudioCommand::AddNode, Some(Ok((2, 2))));
    assert!(matches!(o.event, Some(AudioEvent::NodeAdded { node_id: 0 })));
    assert_eq!(o.plugin, PluginAction::Install(0));
    let o = engine.handle_command(AudioCommand::AddNode, Some(Ok((2, 2))));
    assert_eq!(o.plugin, PluginAction::Install(1));
    let o = engine.handle_command(AudioCommand::Connect { from: 0, to: 1 }, None);
    assert!(o.event.is_none());
    assert_eq!(engine.graph().connections().len(), 1);

    engine.handle_command(AudioCommand::Start, None);
    let o = engine.handle_command(AudioCommand::AddNode, Some(Ok((2, 2))));
    assert!(matches!(&o.event, Some(AudioEvent::Error(m)) if m == "Cannot add nodes while playing. Stop audio first."));
    assert_eq!(o.plugin, PluginAction::Discard);
    let o = engine.handle_command(AudioCommand::RemoveNode(0), None);
    assert!(matches!(&o.event, Some(AudioEvent::Error(m)) if m == "Cannot remove nodes while playing. Stop audio first."));
    let o = engine.handle_command(AudioCommand::Disconnect { from: 0, to: 1 }, None);
    assert!(matches!(&o.event, Some(AudioEvent::Error(m)) if m == "Cannot modify connections while playing. Stop audio first."));
    assert_eq!(engine.graph().nodes().len(), 2);
    assert_eq!(engine.graph().connections().len(), 1);

    engine.handle_command(AudioCommand::Stop, None);
    let o = engine.handle_command(AudioCommand::RemoveNode(0), None);
    assert!(matches!(o.event, Some(AudioEvent::NodeRemoved { node_id: 0 })));
    assert_eq!(o.plugin, PluginAction::Remove(0));
    assert_eq!(engine.graph().nodes().len(), 1);
    assert!(engine.graph().connections().is_empty());

    // removing a node that does not exist changes nothing and reports nothing
    let o = engine.handle_command(AudioCommand::RemoveNode(0), None);
    assert!(o.event.is_none());
    assert_eq!(o.plugin, PluginAction::Keep);
    assert_eq!(engine.graph().nodes().len(), 1);
}

#[test]
fn add_node_without_or_with_failed_plugin() {
    let mut engine = EngineControl::new(48000, 256);
    let o = engine.handle_command(AudioCommand::AddNode, None);
    assert!(o.event.is_none());
    assert_eq!(o.plugin, PluginAction::Keep);
    let o = engine.handle_command(
        AudioCommand::AddNode,
        Some(Err(PluginError::InitializationFailed("no".to_string()))),
    );
    assert!(o.event.is_none());
    assert_eq!(o.plugin, PluginAction::Discard);
    assert!(engine.graph().nodes().is_empty());
    let o = engine.handle_command(AudioCommand::SetParameter(0, 0, 0), None);
    assert!(o.event.is_none());
}

#[test]
fn stream_position_advances_only_while_running() {
    let mut engine = EngineControl::new(48000, 256);
    assert_eq!(engine.advance(512, 2, 8192), (0, 0));
    engine.handle_command(AudioCommand::Start, None);
    assert_eq!(engine.advance(512, 2, 8192), (0, 256));
    assert_eq!(engine.advance(512, 2, 100), (256, 100));
    assert_eq!(engine.frame_position(), 356);
    assert_eq!(choose_sample_rate(48000, 44100), 44100);
    assert_eq!(choose_sample_rate(48000, 48000), 48000);
    assert!(matches!(engine_initialized(48000, 44100), AudioEvent::EngineInitialized { sample_rate: 44100 }));
}

#[test]
fn test_command_event_flow() {
    // The audio thread's handling of the commands; the device and the
    // queues around it belong to the host.
    let mut engine = EngineControl::new(48000, 256);
    let mut events = Vec::new();

    let o = engine.handle_command(AudioCommand::Start, None);
    events.extend(o.event);
    let received_started = events.iter().any(|e| matches!(e, AudioEvent::Started));
    assert!(received_started, "Should receive Started event");

    events.clear();
    let o = engine.handle_command(AudioCommand::Stop, None);
    events.extend(o.event);
    let received_stopped = events.iter().any(|e| matches!(e, AudioEvent::Stopped));
    assert!(received_stopped, "Should receive Stopped event");
}
