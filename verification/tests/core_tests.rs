use vvdaw::block_sizes;
use vvdaw::config::AudioConfig;
use vvdaw::errors::{Error, PluginError, PluginInfo};
use vvdaw::ipc::{block_result, check_process_request, host_finish, host_step, BlockOutcome, HostStep, ProcessState};
use vvdaw::sample_rates;

#[test]
fn test_default_config() {
    let config = AudioConfig::default();
    assert_eq!(config.sample_rate, 48000);
    assert_eq!(config.block_size, 256);
}

#[test]
fn default_config_is_stereo() {
    let config = AudioConfig::default();
    assert_eq!(config.input_channels, 2);
    assert_eq!(config.output_channels, 2);
}

#[test]
fn test_sample_rates() {
    assert_eq!(sample_rates::SR_48000, 48000);
}

#[test]
fn standard_rates_and_block_sizes() {
    assert_eq!(sample_rates::SR_44100, 44100);
    assert_eq!(sample_rates::SR_88200, 88200);
    assert_eq!(sample_rates::SR_96000, 96000);
    assert_eq!(block_sizes::BLOCK_64, 64);
    assert_eq!(block_sizes::BLOCK_128, 128);
    assert_eq!(block_sizes::BLOCK_256, 256);
    assert_eq!(block_sizes::BLOCK_512, 512);
}

#[test]
fn lib_test_placeholder() {
    // The CLAP host keeps only a plugin description so far.
}

#[test]
fn test_process_state_conversion() {
    assert_eq!(ProcessState::from_u32(0), ProcessState::Idle);
    assert_eq!(ProcessState::from_u32(1), ProcessState::Process);
    assert_eq!(ProcessState::from_u32(2), ProcessState::Done);
    assert_eq!(ProcessState::from_u32(3), ProcessState::Crashed);
    assert_eq!(ProcessState::from_u32(999), ProcessState::Idle);
}

#[test]
fn process_state_codes_round_trip() {
    for s in [ProcessState::Idle, ProcessState::Process, ProcessState::Done, ProcessState::Crashed, ProcessState::Shutdown] {
        assert_eq!(ProcessState::from_u32(s.to_u32()), s);
    }
    assert_eq!(ProcessState::Crashed.to_u32(), 3);
    assert_eq!(ProcessState::Done.name(), "Done");
    assert_eq!(ProcessState::from_u32(4), ProcessState::Shutdown);
}

#[test]
fn test_plugin_info() {
    let info = PluginInfo {
        name: "Test".to_string(),
        vendor: "Vendor".to_string(),
        version: "1.0".to_string(),
        unique_id: "test".to_string(),
    };
    assert_eq!(info.name, "Test");
}

#[test]
fn test_vst3_plugin_basic() {
    let info = PluginInfo {
        name: "Test Plugin".to_string(),
        vendor: "Test Vendor".to_string(),
        version: "1.0.0".to_string(),
        unique_id: "test123".to_string(),
    };

    assert_eq!(info.name, "Test Plugin");
    assert_eq!(info.vendor, "Test Vendor");
    assert_eq!(info.duplicate(), info);
}

#[test]
fn error_messages() {
    assert_eq!(Error::Audio("a".to_string()).message(), "Audio error: a");
    assert_eq!(Error::Plugin("p".to_string()).message(), "Plugin error: p");
    assert_eq!(Error::Io("i".to_string()).message(), "IO error: i");
    assert_eq!(Error::Other("o".to_string()).message(), "Other error: o");
    assert_eq!(
        PluginError::InitializationFailed("x".to_string()).message(),
        "Plugin initialization failed: x"
    );
    assert_eq!(PluginError::ProcessingFailed("x".to_string()).message(), "Plugin processing failed: x");
    assert_eq!(PluginError::InvalidParameter("x".to_string()).message(), "Invalid parameter: x");
    assert_eq!(PluginError::FormatError("x".to_string()).message(), "Plugin format error: x");
}

#[test]
fn host_step_decisions() {
    assert_eq!(host_step(false, ProcessState::Idle, 64, 0), HostStep::Retry);
    assert_eq!(host_step(false, ProcessState::Shutdown, 64, 0), HostStep::Exit);
    assert_eq!(host_step(true, ProcessState::Process, 64, 3), HostStep::Process { frames: 64, events: 3 });
    assert_eq!(host_step(true, ProcessState::Process, 8193, 0), HostStep::Crash);
    assert_eq!(host_step(true, ProcessState::Process, 8192, 1025), HostStep::Crash);
    assert_eq!(host_step(true, ProcessState::Process, 8192, 1024), HostStep::Process { frames: 8192, events: 1024 });
}

#[test]
fn host_finish_and_block_result() {
    assert_eq!(host_finish(BlockOutcome::Processed), (ProcessState::Done, true));
    assert_eq!(host_finish(BlockOutcome::Busy), (ProcessState::Done, true));
    assert_eq!(host_finish(BlockOutcome::Poisoned), (ProcessState::Crashed, false));
    assert_eq!(host_finish(BlockOutcome::Failed), (ProcessState::Crashed, false));

    assert!(block_result(true, ProcessState::Done, true).is_ok());
    assert_eq!(
        block_result(false, ProcessState::Crashed, true),
        Err(PluginError::ProcessingFailed("Subprocess crashed during processing".to_string()))
    );
    assert_eq!(
        block_result(false, ProcessState::Process, false),
        Err(PluginError::ProcessingFailed("Subprocess died during processing".to_string()))
    );
    assert_eq!(
        block_result(false, ProcessState::Process, true),
        Err(PluginError::ProcessingFailed("Audio processing timeout".to_string()))
    );
    assert_eq!(
        block_result(true, ProcessState::Idle, true),
        Err(PluginError::ProcessingFailed("Unexpected state after processing: Idle".to_string()))
    );
}

#[test]
fn process_request_checks() {
    assert!(check_process_request(true, true, 8192).is_ok());
    assert_eq!(
        check_process_request(false, true, 64),
        Err(PluginError::ProcessingFailed("Plugin not initialized".to_string()))
    );
    assert_eq!(
        check_process_request(true, false, 64),
        Err(PluginError::ProcessingFailed("Subprocess has crashed".to_string()))
    );
    assert_eq!(
        check_process_request(true, true, 8193),
        Err(PluginError::ProcessingFailed("Frame count 8193 exceeds maximum buffer size 8192".to_string()))
    );
}
