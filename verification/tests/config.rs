use voxtral::config::{Activation, EncoderConfig, TextConfig, VoxtralConfig};
use voxtral::shapes::{decoder_attention, lm_head};

fn mini() -> VoxtralConfig {
    VoxtralConfig::of_sections(EncoderConfig::default(), TextConfig::default())
}

#[test]
fn defaults_are_voxtral_mini() {
    let cfg = mini();
    assert_eq!(cfg.validate(), Ok(()));
    assert_eq!(cfg.audio_token_id, 24);
    assert_eq!(cfg.projector_hidden_act, Activation::Gelu);
    assert_eq!(cfg.audio_config.num_mel_bins, 128);
    assert_eq!(cfg.text_config.hidden_act, Activation::Silu);
    assert_eq!(cfg.text_config.head_dim(), 3072 / 32);
    assert!(!cfg.text_config.tie_word_embeddings);
    assert!(!cfg.text_config.attention_bias);
    assert_eq!(cfg.audio_tokens_per_chunk(), 375);
    assert_eq!(f64::from_bits(cfg.text_config.rms_norm_eps), 1e-5);
    assert_eq!(f64::from_bits(cfg.text_config.rope_theta), 100_000_000.0);
}

#[test]
fn inconsistent_shapes_are_refused() {
    let mut cfg = mini();
    cfg.audio_config.intermediate_size = 5000;
    let err = cfg.validate().unwrap_err();
    assert!(err.contains("intermediate_size"), "{err}");
    let mut cfg = mini();
    cfg.text_config.num_key_value_heads = 5;
    let err = cfg.validate().unwrap_err();
    assert!(err.contains("grouped"), "{err}");
    let mut cfg = mini();
    cfg.text_config.rope_scaling = Some(r#"{"type":"yarn"}"#.to_string());
    let err = cfg.validate().unwrap_err();
    assert!(err.contains("rope_scaling"), "{err}");
}

#[test]
fn attention_bias_does_not_tie_embeddings() {
    let mut cfg = mini();
    cfg.text_config.attention_bias = true;
    assert!(cfg.text_config.attention_bias);
    assert!(!cfg.text_config.tie_word_embeddings);
    assert!(decoder_attention(&cfg.text_config).q.bias);
    assert!(lm_head(&cfg.text_config).is_some());
}

#[test]
fn the_shipped_sizes_of_mini_are_valid() {
    let mut cfg = mini();
    cfg.text_config.explicit_head_dim = Some(128);
    cfg.text_config.rope_scaling = Some("null".to_string());
    assert_eq!(cfg.validate(), Ok(()));
    assert_eq!(cfg.text_config.head_dim(), 128);
    assert_eq!(cfg.frames_per_audio_token(), 4);
    assert_eq!(cfg.encoder_frames_per_chunk(), 1500);
    assert_eq!(cfg.audio_tokens_per_chunk(), 375);
}

#[test]
fn each_refusal_says_what_is_wrong() {
    let mut cfg = mini();
    cfg.audio_config.num_attention_heads = 0;
    assert_eq!(
        cfg.validate().unwrap_err(),
        "audio hidden_size 1280 is not a whole number of 0 heads"
    );
    cfg.audio_config.num_attention_heads = 7;
    assert_eq!(
        cfg.validate().unwrap_err(),
        "audio hidden_size 1280 is not a whole number of 7 heads"
    );
    let mut cfg = mini();
    cfg.audio_config.intermediate_size = 5000;
    assert_eq!(
        cfg.validate().unwrap_err(),
        "audio intermediate_size 5000 is not a whole number of 1280-wide frames"
    );
    let mut cfg = mini();
    cfg.text_config.num_key_value_heads = 0;
    assert_eq!(
        cfg.validate().unwrap_err(),
        "32 query heads cannot be grouped over 0 key/value heads"
    );
    let mut cfg = mini();
    cfg.text_config.rope_scaling = Some("{}".to_string());
    assert_eq!(
        cfg.validate().unwrap_err(),
        "rope_scaling {} is not implemented"
    );
    let mut cfg = mini();
    cfg.text_config.explicit_head_dim = Some(127);
    assert_eq!(
        cfg.validate().unwrap_err(),
        "rotary positions need an even head_dim, not 127"
    );
}

#[test]
fn an_explicit_head_dim_needs_no_heads() {
    let mut cfg = mini();
    cfg.text_config.num_attention_heads = 0;
    cfg.text_config.explicit_head_dim = Some(128);
    assert_eq!(cfg.text_config.head_dim(), 128);
    assert_eq!(cfg.validate(), Ok(()));
}
