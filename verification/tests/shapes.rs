use voxtral::checkpoint::Dtype;
use voxtral::config::{EncoderConfig, TextConfig, VoxtralConfig};
use voxtral::shapes::{
    audio_tokens, cache_dims, clamps, decoder_attention, decoder_mlp, encoder_attention,
    encoder_mlp, frequency_numerators, grouped, groups, lm_head, lookup_ids, prefill_end,
    projected_rows, projector, push_row, repeated, rotate_indices, LinearShape,
};

fn linear(d_in: usize, d_out: usize, bias: bool) -> LinearShape {
    LinearShape { d_in, d_out, bias }
}

#[test]
fn minis_parameters_have_their_shapes() {
    let mut text = TextConfig::default();
    text.explicit_head_dim = Some(128);
    let a = decoder_attention(&text);
    assert_eq!(a.q, linear(3072, 4096, false));
    assert_eq!(a.k, linear(3072, 1024, false));
    assert_eq!(a.v, linear(3072, 1024, false));
    assert_eq!(a.o, linear(4096, 3072, false));
    assert_eq!((a.heads, a.kv_heads, a.head_dim), (32, 8, 128));
    text.attention_bias = true;
    assert!(decoder_attention(&text).o.bias);
    let m = decoder_mlp(&text);
    assert_eq!(m.gate, linear(3072, 8192, false));
    assert_eq!(m.up, m.gate);
    assert_eq!(m.down, linear(8192, 3072, false));
    assert_eq!(lm_head(&text), Some(linear(3072, 131_072, false)));
    text.tie_word_embeddings = true;
    assert_eq!(lm_head(&text), None);

    let audio = EncoderConfig::default();
    let a = encoder_attention(&audio);
    assert_eq!(a.q, linear(1280, 1280, true));
    assert_eq!(a.k, linear(1280, 1280, false));
    assert_eq!((a.heads, a.head_dim), (20, 64));
    assert_eq!(encoder_mlp(&audio), (linear(1280, 5120, true), linear(5120, 1280, true)));
    let cfg = VoxtralConfig::of_sections(audio, TextConfig::default());
    assert_eq!(projector(&cfg), (linear(5120, 3072, false), linear(3072, 3072, false)));
}

#[test]
fn a_group_of_query_heads_shares_a_key_value_head() {
    let mut text = TextConfig::default();
    text.explicit_head_dim = Some(128);
    assert_eq!(
        repeated([1, 8, 50, 128], 4),
        ([1, 8, 4, 50, 128], [1, 32, 50, 128])
    );
    let a = decoder_attention(&text);
    assert_eq!(groups(a.heads, a.kv_heads), 4);
    assert_eq!(grouped(1, a.heads, a.kv_heads, a.head_dim), [1, 8, 4, 128]);
    assert_eq!(cache_dims(&text, 1_536), [1, 8, 1_536, 128]);
}

#[test]
fn channels_are_rotated_with_the_other_half() {
    assert_eq!(rotate_indices(6), [3, 4, 5, 0, 1, 2]);
    assert_eq!(frequency_numerators(6), [0, 2, 4]);
    let mut table = vec!['x'];
    push_row(&mut table, &vec!['a', 'b'], &vec!['c', 'd']);
    push_row(&mut table, &vec!['e'], &vec!['f']);
    assert_eq!(table, ['x', 'a', 'b', 'c', 'd', 'e', 'f']);
}

#[test]
fn a_prefill_stays_within_the_caches() {
    assert_eq!(prefill_end(0, 758, 2_048), Ok(758));
    assert_eq!(prefill_end(2, 6, 8), Ok(8));
    assert_eq!(
        prefill_end(2, 7, 8).unwrap_err(),
        "positions 2..9 are past the 8 the state holds"
    );
}

#[test]
fn only_half_precision_is_clamped() {
    assert!(clamps(Dtype::F16));
    assert!(!clamps(Dtype::BF16));
    assert!(!clamps(Dtype::F32));
}

#[test]
fn the_audio_fills_its_placeholders() {
    let cfg = VoxtralConfig::of_sections(EncoderConfig::default(), TextConfig::default());
    for chunks in [1, 2, 5] {
        let rows = projected_rows(chunks * 1_500 * 1_280, 5_120);
        assert_eq!(rows, Some(audio_tokens(&cfg, chunks)));
    }
    assert_eq!(projected_rows(10, 4), None);
    assert_eq!(lookup_ids(&[0, 24, u32::MAX]), [0, 24, 4_294_967_295]);
}
