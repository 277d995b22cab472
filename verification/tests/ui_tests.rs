use vvdaw::engine::AudioEvent;
use vvdaw::ui2d::{AudioState, FilePathState, PlaybackState};
use vvdaw::ui3d::{FileLoadingState, PlaybackCommand, PlaybackStatus};
use vvdaw::waveform::WaveformData;
use vvdaw::wav::{check_bit_depth, check_wav_extension, check_wav_path, file_size_ok, to_interleaved_stereo};

#[test]
fn test_file_loading_state_lifecycle() {
    let mut state = FileLoadingState::default();

    assert!(!state.is_loading);
    assert!(state.error.is_none());

    state.start_loading();
    assert!(state.is_loading);
    assert!(state.error.is_none());

    state.complete_successfully();
    assert!(!state.is_loading);
    assert!(state.error.is_none());

    state.start_loading();
    assert!(state.is_loading);

    state.fail_with_error("Test error".to_string());
    assert!(!state.is_loading);
    assert_eq!(state.error, Some("Test error".to_string()));

    state.clear_error();
    assert!(state.error.is_none());
}

#[test]
fn test_load_wav_nonexistent_file() {
    let result = check_wav_path("/nonexistent/file.wav", false, Err("No such file or directory".to_string()));
    assert!(result.is_err());
    assert!(result.unwrap_err().contains("File not found"));
}

#[test]
fn test_load_wav_invalid_extension() {
    let result = check_wav_path("/tmp/test_invalid.txt", true, Ok(("/tmp/test_invalid.txt".to_string(), true)));
    assert!(result.is_err());
    let message = result.unwrap_err();
    assert!(message.contains("Invalid file extension"));
    assert_eq!(message, "Invalid file extension: expected .wav, got .txt");
}

#[test]
fn test_load_wav_directory_not_file() {
    let result = check_wav_path("/tmp", true, Ok(("/tmp".to_string(), false)));
    assert!(result.is_err());
    assert!(result.unwrap_err().contains("Path is not a file"));
}

#[test]
fn test_load_wav_path_traversal_prevention() {
    // the traversal is resolved away; the resolved file is no .wav file
    let result = check_wav_path("../../etc/passwd", true, Ok(("/etc/passwd".to_string(), true)));
    assert!(result.is_err());
}

#[test]
fn test_load_wav_missing_extension() {
    let result = check_wav_path("/tmp/test_no_extension", true, Ok(("/tmp/test_no_extension".to_string(), true)));
    assert!(result.is_err());
    assert!(result.unwrap_err().contains("File must have .wav extension"));
}

#[test]
fn wav_path_accepted_and_resolution_failure() {
    assert_eq!(
        check_wav_path("./a.wav", true, Ok(("/home/me/a.wav".to_string(), true))),
        Ok("/home/me/a.wav".to_string())
    );
    assert_eq!(
        check_wav_path("./a.wav", true, Err("permission denied".to_string())),
        Err("Failed to resolve path: permission denied".to_string())
    );
    // the extension must be exactly `wav`
    assert!(check_wav_extension("/a/B.WAV").is_err());
    assert!(check_wav_extension("/a/b.wav").is_ok());
}

#[test]
fn wav_limits() {
    assert!(file_size_ok(500 * 1024 * 1024));
    assert!(!file_size_ok(500 * 1024 * 1024 + 1));
    assert!(check_bit_depth(16, 32).is_ok());
    assert!(check_bit_depth(32, 32).is_ok());
    assert_eq!(check_bit_depth(0, 32), Err("Unsupported bit depth: 0 bits (supported: 1-32)".to_string()));
    assert_eq!(check_bit_depth(33, 32), Err("Unsupported bit depth: 33 bits (supported: 1-32)".to_string()));
}

#[test]
fn stereo_layout() {
    assert_eq!(to_interleaved_stereo(&vec![1, 2, 3], 1), vec![1, 1, 2, 2, 3, 3]);
    assert_eq!(to_interleaved_stereo(&vec![1, 2, 3, 4], 2), vec![1, 2, 3, 4]);
    assert_eq!(to_interleaved_stereo(&vec![1, 2, 3, 4, 5, 6], 3), vec![1, 2, 4, 5]);
    // a trailing partial frame keeps its first two samples
    assert_eq!(to_interleaved_stereo(&vec![1, 2, 3, 4, 5], 3), vec![1, 2, 4, 5]);
    assert_eq!(to_interleaved_stereo(&Vec::<f32>::new(), 1), Vec::<f32>::new());
}

#[test]
fn playback_commands() {
    assert_eq!(PlaybackStatus::Stopped.apply(PlaybackCommand::Play), PlaybackStatus::Playing);
    assert_eq!(PlaybackStatus::Playing.apply(PlaybackCommand::Pause), PlaybackStatus::Paused);
    assert_eq!(PlaybackStatus::Paused.apply(PlaybackCommand::Stop), PlaybackStatus::Stopped);
    assert_eq!(PlaybackStatus::Playing.apply(PlaybackCommand::Toggle), PlaybackStatus::Paused);
    assert_eq!(PlaybackStatus::Paused.apply(PlaybackCommand::Toggle), PlaybackStatus::Playing);
    assert_eq!(PlaybackStatus::Stopped.apply(PlaybackCommand::Toggle), PlaybackStatus::Playing);
    assert_eq!(PlaybackStatus::Paused.apply(PlaybackCommand::Seek(2.5f32.to_bits())), PlaybackStatus::Paused);
    // toggling twice returns to the status before (from playing or paused)
    for s in [PlaybackStatus::Playing, PlaybackStatus::Paused] {
        assert_eq!(s.apply(PlaybackCommand::Toggle).apply(PlaybackCommand::Toggle), s);
    }
}

#[test]
fn audio_state_follows_buttons_and_events() {
    let mut state = AudioState::default();
    assert_eq!(state.playback, PlaybackState::Stopped);
    assert!(state.status_message.is_empty());

    state.play_sent(Ok(()));
    assert_eq!(state.playback, PlaybackState::Playing);
    assert_eq!(state.status_message, "Playing...");

    state.stop_sent(Err("queue full".to_string()));
    assert_eq!(state.playback, PlaybackState::Playing);
    assert_eq!(state.status_message, "Error: queue full");

    state.apply_event(&AudioEvent::Stopped);
    assert_eq!(state.playback, PlaybackState::Stopped);
    assert_eq!(state.status_message, "Status: Stopped");

    state.apply_event(&AudioEvent::NodeAdded { node_id: 4 });
    assert_eq!(state.current_sampler_node, Some(4));
    assert_eq!(state.take_sampler(), Some(4));
    assert_eq!(state.current_sampler_node, None);

    state.browse_opened();
    assert_eq!(state.status_message, "Opening file dialog...");
    state.load_started("/music/song.wav");
    assert_eq!(state.status_message, "Loading: song.wav...");
    state.load_sent("/music/song.wav", Ok(()));
    assert_eq!(state.status_message, "Loaded: song.wav");
    state.load_failed("bad header");
    assert_eq!(state.status_message, "Load error: bad header");
    state.apply_event(&AudioEvent::Error("device lost".to_string()));
    assert_eq!(state.status_message, "Error: device lost");
}

#[test]
fn file_history_steps_and_wraps() {
    let mut files = FilePathState::default();
    assert_eq!(files.current_path, "No file selected - click Browse to load a WAV file");
    assert_eq!(files.step(true), None);

    files.select_file("/a.wav".to_string());
    files.select_file("/b.wav".to_string());
    files.select_file("/c.wav".to_string());
    files.select_file("/a.wav".to_string());
    assert_eq!(files.loaded_files, vec!["/a.wav".to_string(), "/b.wav".to_string(), "/c.wav".to_string()]);
    assert_eq!(files.current_path, "/a.wav");

    assert_eq!(files.step(true), Some("/b.wav".to_string()));
    assert_eq!(files.step(true), Some("/c.wav".to_string()));
    assert_eq!(files.step(true), Some("/a.wav".to_string()));
    assert_eq!(files.step(false), Some("/c.wav".to_string()));
    // stepping back after stepping forward returns to the same file
    assert_eq!(files.step(true), Some("/a.wav".to_string()));
    assert_eq!(files.current_path, "/a.wav");
}

#[test]
fn waveform_history_keeps_the_newest_peaks() {
    let mut w = WaveformData::new(vec![1.0f32, -1.0, 0.5, -0.5, 0.25], 44100);
    assert!(w.is_loaded());
    assert!(w.needs_mesh_update);
    assert_eq!(w.frame_count(), 2);
    assert_eq!(w.left_channel(), vec![1.0, 0.5, 0.25]);
    assert_eq!(w.right_channel(), vec![-1.0, -0.5]);
    assert_eq!(w.max_streaming_samples, 9000);

    w.max_streaming_samples = 2;
    w.push_streaming_peak(256, 0.1, 0.2);
    w.push_streaming_peak(512, 0.3, 0.4);
    w.push_streaming_peak(768, 0.5, 0.6);
    assert_eq!(w.current_position, 768);
    assert_eq!(w.streaming_left_channel(), vec![0.3, 0.5]);
    assert_eq!(w.streaming_right_channel(), vec![0.4, 0.6]);

    w.clear_streaming();
    assert!(w.streaming_peaks.is_empty());
    assert_eq!(w.current_position, 0);

    let empty: WaveformData<f32> = WaveformData::default();
    assert!(!empty.is_loaded());
    assert_eq!(empty.max_streaming_samples, 0);
}
