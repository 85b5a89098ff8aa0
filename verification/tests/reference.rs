use voxtral::checkpoint::Dtype;
use voxtral::config::Activation;
use voxtral::reference::{activation, check_wav, parse_args, Masks};
use voxtral::settings::{
    load_model_config, parse_audio_config, parse_text_config, AudioReadings, AudioSettings,
    TextReadings, TextSettings,
};

fn args(given: &[&str]) -> Vec<String> {
    given.iter().map(|a| a.to_string()).collect()
}

#[test]
fn arguments_are_three_paths_and_options() {
    let read = parse_args(&args(&["m", "c.wav", "o"])).unwrap();
    assert_eq!(read.paths, ["m", "c.wav", "o"]);
    assert_eq!(read.dtype, Dtype::F32);
    assert_eq!(read.lang, "en");
    let read = parse_args(&args(&[
        "--dtype", "bf16", "m", "--lang", "fr", "c", "--dtype", "f16", "o",
    ]))
    .unwrap();
    assert_eq!(read.paths, ["m", "c", "o"]);
    assert_eq!(read.dtype, Dtype::F16);
    assert_eq!(read.lang, "fr");
}

#[test]
fn wrong_arguments_are_refused() {
    let usage = "usage: voxtral-candle-reference <model-dir> <clip.wav> <out.safetensors> \
                 [--dtype f32|f16|bf16] [--lang en]";
    assert_eq!(parse_args(&args(&["m", "c"])).unwrap_err(), usage);
    assert_eq!(parse_args(&args(&["m", "c", "o", "p"])).unwrap_err(), usage);
    assert_eq!(
        parse_args(&args(&["--dtype", "f\"64"])).unwrap_err(),
        r#"--dtype takes f32, f16 or bf16, not Some("f\"64")"#
    );
    assert_eq!(
        parse_args(&args(&["--dtype"])).unwrap_err(),
        "--dtype takes f32, f16 or bf16, not None"
    );
    assert_eq!(
        parse_args(&args(&["m", "--lang"])).unwrap_err(),
        "--lang takes a code"
    );
}

#[test]
fn a_clip_is_mono_at_the_backends_rate() {
    assert_eq!(check_wav("c.wav", 1, 16_000), Ok(()));
    assert_eq!(check_wav("c.wav", 2, 8_000).unwrap_err(), "c.wav is not mono");
    assert_eq!(
        check_wav("c.wav", 1, 44_100).unwrap_err(),
        "c.wav is 44100 Hz; the backend is sent 16000 Hz"
    );
}

#[test]
fn activations_have_names() {
    assert_eq!(activation("gelu"), Ok(Activation::Gelu));
    assert_eq!(activation("relu"), Ok(Activation::Relu));
    assert_eq!(
        activation("silu").unwrap_err(),
        "unsupported activation silu"
    );
}

#[test]
fn a_mask_hides_the_keys_after_a_query() {
    let mut masks = Masks::new();
    for _ in 0..2 {
        assert_eq!(masks.mask(3, 0), [0, 1, 1, 0, 0, 1, 0, 0, 0]);
        assert_eq!(masks.mask(2, 2), [0, 0, 0, 1, 0, 0, 0, 0]);
        assert_eq!(masks.mask(2, 1), [0, 0, 1, 0, 0, 0]);
        assert_eq!(masks.mask(1, 3), [0, 0, 0, 0]);
        assert!(masks.mask(0, 3).is_empty());
    }
}

#[test]
fn settings_have_defaults() {
    let s = load_model_config(r#"{"audio_config":{},"text_config":{}}"#).unwrap();
    assert_eq!(s.audio_token_id, 24);
    assert_eq!(s.projector_hidden_act, "gelu");
    let a = &s.audio_config;
    assert_eq!(
        (a.vocab_size, a.hidden_size, a.intermediate_size, a.num_hidden_layers),
        (51_866, 1_280, 5_120, 32)
    );
    assert_eq!((a.num_attention_heads, a.num_key_value_heads), (20, 20));
    assert_eq!((a.max_source_positions, a.num_mel_bins, a.head_dim), (1_500, 128, 64));
    assert_eq!(a.activation_function, "gelu");
    assert!(!a.scale_embedding);
    for zero in [a.dropout, a.attention_dropout, a.activation_dropout, a.layerdrop] {
        assert_eq!(f64::from_bits(zero), 0.0);
    }
    assert_eq!(f64::from_bits(a.initializer_range), 0.02);
    let t = &s.text_config;
    assert_eq!((t.vocab_size, t.hidden_size, t.intermediate_size), (131_072, 3_072, 8_192));
    assert_eq!(
        (t.num_hidden_layers, t.num_attention_heads, t.num_key_value_heads),
        (30, 32, 8)
    );
    assert_eq!((t.head_dim, t.max_position_embeddings), (None, 131_072));
    assert_eq!(f64::from_bits(t.rms_norm_eps), 1e-5);
    assert_eq!(f64::from_bits(t.rope_theta), 1e8);
    assert!(!t.use_flash_attn);
    assert!(!t.tie_word_embeddings);
}

#[test]
fn settings_are_read_value_by_value() {
    let s = load_model_config(
        r#"{"audio_token_id": 42, "projector_hidden_act": "relu",
            "audio_config": {"hidden_size": 640, "head_dim": -1, "dropout": 0.5,
                             "activation_function": "relu", "scale_embedding": true},
            "text_config": {"vocab_size": 123, "head_dim": 128, "rope_theta": 10000000,
                            "hidden_size": "wide", "attention_bias": true}}"#,
    )
    .unwrap();
    assert_eq!(s.audio_token_id, 42);
    assert_eq!(s.projector_hidden_act, "relu");
    assert_eq!(s.audio_config.hidden_size, 640);
    assert_eq!(s.audio_config.head_dim, 64);
    assert_eq!(f64::from_bits(s.audio_config.dropout), 0.5);
    assert_eq!(s.audio_config.activation_function, "relu");
    assert!(s.audio_config.scale_embedding);
    assert_eq!(s.text_config.vocab_size, 123);
    assert_eq!(s.text_config.hidden_size, 3_072);
    assert_eq!(s.text_config.head_dim, Some(128));
    assert_eq!(f64::from_bits(s.text_config.rope_theta), 1e7);
    assert!(s.text_config.tie_word_embeddings);
}

#[test]
fn documents_without_a_section_are_refused() {
    assert_eq!(
        load_model_config(r#"{"text_config":{}}"#).unwrap_err(),
        "Missing audio_config"
    );
    assert_eq!(
        load_model_config(r#"{"audio_config":{}}"#).unwrap_err(),
        "Missing text_config"
    );
    assert_eq!(load_model_config("[]").unwrap_err(), "Missing audio_config");
    let err = load_model_config("{").unwrap_err();
    assert!(err.contains("EOF while parsing"), "{err}");
    let empty: serde_json::Value = serde_json::from_str("{}").unwrap();
    assert_eq!(parse_audio_config(&empty).unwrap_err(), "Missing audio_config");
    assert_eq!(parse_text_config(&empty).unwrap_err(), "Missing text_config");
}

#[test]
fn readings_become_settings() {
    let a = AudioSettings::from_readings(AudioReadings {
        vocab_size: Some(1),
        hidden_size: Some(2),
        num_hidden_layers: Some(3),
        num_attention_heads: Some(4),
        num_key_value_heads: Some(5),
        intermediate_size: Some(6),
        max_source_positions: None,
        num_mel_bins: Some(8),
        head_dim: Some(9),
        dropout: Some(10),
        attention_dropout: Some(11),
        activation_dropout: Some(12),
        layerdrop: Some(13),
        initializer_range: Some(14),
        activation_function: Some("x".to_string()),
        scale_embedding: None,
    });
    assert_eq!((a.vocab_size, a.hidden_size, a.num_hidden_layers), (1, 2, 3));
    assert_eq!((a.num_attention_heads, a.num_key_value_heads), (4, 5));
    assert_eq!((a.intermediate_size, a.max_source_positions), (6, 1_500));
    assert_eq!((a.num_mel_bins, a.head_dim, a.dropout), (8, 9, 10));
    assert_eq!((a.attention_dropout, a.activation_dropout), (11, 12));
    assert_eq!((a.layerdrop, a.initializer_range), (13, 14));
    assert_eq!(a.activation_function, "x");
    let t = TextSettings::from_readings(TextReadings {
        vocab_size: Some(1),
        hidden_size: Some(2),
        intermediate_size: Some(3),
        num_hidden_layers: Some(4),
        num_attention_heads: None,
        num_key_value_heads: Some(6),
        max_position_embeddings: Some(7),
        head_dim: Some(8),
        rms_norm_eps: Some(9),
        rope_theta: Some(10),
        attention_bias: Some(true),
    });
    assert_eq!((t.vocab_size, t.hidden_size, t.intermediate_size), (1, 2, 3));
    assert_eq!((t.num_hidden_layers, t.num_attention_heads), (4, 32));
    assert_eq!((t.num_key_value_heads, t.max_position_embeddings), (6, 7));
    assert_eq!((t.head_dim, t.rms_norm_eps, t.rope_theta), (Some(8), 9, 10));
    assert!(t.tie_word_embeddings);
}
