use vvdaw::builtin::{builtin_kind, BuiltinKind, GainProcessor, MixerProcessor, PanProcessor};
use vvdaw::errors::PluginError;

fn value(bits: Result<u32, PluginError>) -> f32 {
    f32::from_bits(bits.unwrap())
}

#[test]
fn test_create_gain() {
    let plugin = builtin_kind("gain");
    assert!(plugin.is_some());
    assert_eq!(plugin, Some(BuiltinKind::Gain));
}

#[test]
fn test_create_mixer() {
    let plugin = builtin_kind("mixer");
    assert!(plugin.is_some());
    assert_eq!(plugin, Some(BuiltinKind::Mixer));
}

#[test]
fn test_create_pan() {
    let plugin = builtin_kind("pan");
    assert!(plugin.is_some());
    assert_eq!(plugin, Some(BuiltinKind::Pan));
}

#[test]
fn test_unknown_builtin() {
    let plugin = builtin_kind("nonexistent");
    assert!(plugin.is_none());
    assert!(builtin_kind("Gain").is_none());
    assert!(builtin_kind("").is_none());
}

#[test]
fn test_gain_default() {
    let processor = GainProcessor::default();
    assert_eq!(value(processor.get_parameter(0)), 1.0);
}

#[test]
fn test_gain_parameter() {
    let mut processor = GainProcessor::default();

    processor.set_parameter(0, 0.5f32.to_bits()).unwrap();
    assert_eq!(value(processor.get_parameter(0)), 0.5);

    processor.set_parameter(0, 2.0f32.to_bits()).unwrap();
    assert_eq!(value(processor.get_parameter(0)), 2.0);
}

#[test]
fn gain_test_invalid_parameter() {
    let mut processor = GainProcessor::default();

    let result = processor.set_parameter(999, 0.5f32.to_bits());
    assert!(result.is_err());

    let result = processor.get_parameter(999);
    assert!(result.is_err());
    assert_eq!(result.unwrap_err(), PluginError::InvalidParameter("Unknown parameter ID: 999".to_string()));
    // the refused write changed nothing
    assert_eq!(value(processor.get_parameter(0)), 1.0);
}

#[test]
fn test_mixer_default() {
    let processor = MixerProcessor::default();
    assert_eq!(value(processor.get_parameter(0)), 1.0);
    assert_eq!(value(processor.get_parameter(1)), 1.0);
    assert_eq!(value(processor.get_parameter(2)), 1.0);
}

#[test]
fn test_mixer_parameters() {
    let mut processor = MixerProcessor::default();

    processor.set_parameter(0, 0.5f32.to_bits()).unwrap();
    assert_eq!(value(processor.get_parameter(0)), 0.5);

    processor.set_parameter(1, 0.75f32.to_bits()).unwrap();
    assert_eq!(value(processor.get_parameter(1)), 0.75);

    processor.set_parameter(2, 1.5f32.to_bits()).unwrap();
    assert_eq!(value(processor.get_parameter(2)), 1.5);

    // each write touched only its own parameter
    assert_eq!(value(processor.get_parameter(0)), 0.5);
    assert_eq!(value(processor.get_parameter(1)), 0.75);
}

#[test]
fn mixer_test_invalid_parameter() {
    let mut processor = MixerProcessor::default();

    let result = processor.set_parameter(999, 0.5f32.to_bits());
    assert!(result.is_err());

    let result = processor.get_parameter(999);
    assert!(result.is_err());
    assert!(processor.get_parameter(3).is_err());
}

#[test]
fn test_pan_default() {
    let processor = PanProcessor::default();
    assert_eq!(value(processor.get_parameter(0)), 0.0);
}

#[test]
fn test_pan_parameter() {
    let mut processor = PanProcessor::default();

    processor.set_parameter(0, (-1.0f32).to_bits()).unwrap();
    assert_eq!(value(processor.get_parameter(0)), -1.0);

    processor.set_parameter(0, 1.0f32.to_bits()).unwrap();
    assert_eq!(value(processor.get_parameter(0)), 1.0);

    processor.set_parameter(0, 0.0f32.to_bits()).unwrap();
    assert_eq!(value(processor.get_parameter(0)), 0.0);
}

#[test]
fn pan_test_invalid_parameter() {
    let mut processor = PanProcessor::default();

    let result = processor.set_parameter(999, 0.0f32.to_bits());
    assert!(result.is_err());

    let result = processor.get_parameter(999);
    assert!(result.is_err());
}

#[test]
fn processor_descriptions() {
    let gain = GainProcessor::default();
    assert_eq!(gain.info().name, "Gain");
    assert_eq!(gain.info().vendor, "vvdaw");
    assert_eq!(gain.info().version, "1.0.0");
    assert_eq!(gain.info().unique_id, "vvdaw.builtin.gain");
    assert_eq!((gain.input_channels(), gain.output_channels()), (2, 2));

    let mixer = MixerProcessor::default();
    assert_eq!(mixer.info().unique_id, "vvdaw.builtin.mixer");
    assert_eq!((mixer.input_channels(), mixer.output_channels()), (4, 2));

    let pan = PanProcessor::default();
    assert_eq!(pan.info().unique_id, "vvdaw.builtin.pan");
    assert_eq!((pan.input_channels(), pan.output_channels()), (2, 2));
}

#[test]
fn initialisation_is_always_accepted() {
    let mut gain = GainProcessor::default();
    assert!(gain.initialize(96000, 64).is_ok());
    assert_eq!(value(gain.get_parameter(0)), 1.0);
    let mut mixer = MixerProcessor::default();
    assert!(mixer.initialize(44100, 4096).is_ok());
    let mut pan = PanProcessor::default();
    assert!(pan.initialize(48000, 1).is_ok());
}

#[test]
fn buffer_checks() {
    let ok = GainProcessor::check_buffers(&vec![64, 64], &vec![64, 70], 64);
    assert!(ok.is_ok());
    assert_eq!(
        GainProcessor::check_buffers(&vec![64], &vec![64, 64], 64),
        Err(PluginError::ProcessingFailed("Gain processor requires exactly 2 inputs (stereo), got 1".to_string()))
    );
    assert_eq!(
        GainProcessor::check_buffers(&vec![64, 64], &vec![64, 64, 64], 64),
        Err(PluginError::ProcessingFailed("Gain processor requires exactly 2 outputs (stereo), got 3".to_string()))
    );
    assert_eq!(
        GainProcessor::check_buffers(&vec![64, 10], &vec![64, 64], 64),
        Err(PluginError::ProcessingFailed("Input channel 1 has 10 samples, need at least 64".to_string()))
    );
    assert_eq!(
        MixerProcessor::check_buffers(&vec![64, 64, 64, 64], &vec![64, 32], 64),
        Err(PluginError::ProcessingFailed("Output channel 1 has 32 samples, need at least 64".to_string()))
    );
    assert_eq!(
        MixerProcessor::check_buffers(&vec![64, 64], &vec![64, 64], 64),
        Err(PluginError::ProcessingFailed("Mixer processor requires exactly 4 inputs (2 stereo), got 2".to_string()))
    );
    assert!(PanProcessor::check_channels(2, 2).is_ok());
    assert_eq!(
        PanProcessor::check_channels(1, 2),
        Err(PluginError::ProcessingFailed("Pan processor requires exactly 2 inputs (stereo), got 1".to_string()))
    );
    assert_eq!(
        PanProcessor::check_channels(2, 0),
        Err(PluginError::ProcessingFailed("Pan processor requires exactly 2 outputs (stereo), got 0".to_string()))
    );
}

#[test]
fn test_sampler_creation() {
    let audio_data = vec![0.5f32, -0.5, 0.3, -0.3];
    let sampler = vvdaw::sampler::SamplerProcessor::new(audio_data, 48000);
    assert_eq!(sampler.frame_count(), 2);
    assert_eq!(sampler.output_channels(), 2);
    assert_eq!(sampler.input_channels(), 0);
}

#[test]
fn test_sampler_playback() {
    let audio_data = vec![1.0f32, -1.0, 0.5, -0.5];
    let mut sampler = vvdaw::sampler::SamplerProcessor::new(audio_data, 48000);
    sampler.initialize(48000, 512).unwrap();

    assert!(vvdaw::sampler::SamplerProcessor::<f32>::check_outputs(&vec![4, 4], 4).is_ok());
    let (output_l, output_r) = sampler.render(4, 0.0);

    assert_eq!(output_l[0], 1.0);
    assert_eq!(output_r[0], -1.0);
    assert_eq!(output_l[1], 0.5);
    assert_eq!(output_r[1], -0.5);
    assert_eq!(output_l[2], 1.0);
    assert_eq!(output_r[2], -1.0);
    assert_eq!(output_l[3], 0.5);
    assert_eq!(output_r[3], -0.5);
}

#[test]
fn test_sampler_empty() {
    let mut sampler = vvdaw::sampler::SamplerProcessor::<f32>::new(vec![], 48000);
    sampler.initialize(48000, 512).unwrap();

    let (output_l, output_r) = sampler.render(4, 0.0);

    for i in 0..4 {
        assert_eq!(output_l[i], 0.0);
        assert_eq!(output_r[i], 0.0);
    }
}

#[test]
fn sampler_position_checks_and_parameters() {
    let mut sampler = vvdaw::sampler::SamplerProcessor::new(vec![1u32, 2, 3, 4, 5, 6, 7], 44100);
    assert_eq!(sampler.frame_count(), 3);
    assert_eq!(sampler.audio_sample_rate(), 44100);
    assert_eq!(sampler.info().unique_id, "vvdaw.builtin.sampler");
    let (l, r) = sampler.render(2, 0);
    assert_eq!((l, r), (vec![1, 3], vec![2, 4]));
    // playback continues where it stopped and loops over whole frames only
    let (l, r) = sampler.render(3, 0);
    assert_eq!((l, r), (vec![5, 1, 3], vec![6, 2, 4]));
    sampler.deactivate();
    let (l, _) = sampler.render(1, 0);
    assert_eq!(l, vec![1]);

    assert_eq!(
        vvdaw::sampler::SamplerProcessor::<u32>::check_outputs(&vec![4], 4),
        Err(PluginError::ProcessingFailed("Sampler requires exactly 2 outputs (stereo), got 1".to_string()))
    );
    assert_eq!(
        vvdaw::sampler::SamplerProcessor::<u32>::check_outputs(&vec![4, 3], 4),
        Err(PluginError::ProcessingFailed("Output channel 1 has 3 samples, need at least 4".to_string()))
    );
    assert_eq!(
        sampler.get_parameter(2),
        Err(PluginError::InvalidParameter("Sampler has no parameter with id 2".to_string()))
    );
    assert!(sampler.set_parameter(0, 0).is_err());
}
