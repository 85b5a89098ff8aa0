//! The settings of candle's own Voxtral, read out of a `config.json` value by
//! value, each with its default.
//!
//! Candle has no bias on the projections to set: the value under
//! `attention_bias` is what ties its output head to the token embeddings.

use vstd::prelude::*;

use crate::protocol::chars;

verus! {

/// A parsed JSON document, or a part of one.
#[verifier::external_type_specification]
#[verifier::external_body]
pub struct ExValue(serde_json::Value);

/// Why a text is no JSON document.
#[verifier::external_type_specification]
#[verifier::external_body]
pub struct ExJsonError(serde_json::Error);

/// The document `text` holds.
pub uninterp spec fn document(text: Seq<char>) -> Result<serde_json::Value, serde_json::Error>;

/// What is said of a text that is no JSON document.
pub uninterp spec fn json_error_text(error: serde_json::Error) -> Seq<char>;

/// The member of an object under `key`.
pub uninterp spec fn member(value: serde_json::Value, key: Seq<char>) -> Option<serde_json::Value>;

/// A whole number that is not negative.
pub uninterp spec fn whole(value: serde_json::Value) -> Option<u64>;

/// Any number, as the bits of an IEEE 754 double.
pub uninterp spec fn number(value: serde_json::Value) -> Option<u64>;

/// A truth value.
pub uninterp spec fn truth(value: serde_json::Value) -> Option<bool>;

/// A text.
pub uninterp spec fn string(value: serde_json::Value) -> Option<Seq<char>>;

/// `serde_json::from_str` into a `Value`. Whether it succeeds and what it
/// gives is named, not said.
#[verifier::external_body]
fn parse_document(text: &str) -> (res: Result<serde_json::Value, serde_json::Error>)
    ensures
        res == document(text@),
{
    serde_json::from_str(text)
}

/// `Display` of an error that `serde_json::from_str` returned. What it says is
/// named.
#[verifier::external_body]
fn shown_json_error(error: &serde_json::Error) -> (res: String)
    requires
        exists|text: Seq<char>| #[trigger]
            document(text) == Err::<serde_json::Value, serde_json::Error>(*error),
    ensures
        res@ == json_error_text(*error),
{
    error.to_string()
}

/// `Value::get` with a key: the member of an object under it. Of anything else
/// there is none. Which member it is is named.
#[verifier::external_body]
fn get<'a>(value: &'a serde_json::Value, key: &str) -> (res: Option<&'a serde_json::Value>)
    ensures
        match res {
            Some(v) => member(*value, key@) == Some(*v),
            None => member(*value, key@) is None,
        },
{
    value.get(key)
}

/// `Value::as_u64`: a whole number that is not negative and fits. Which one it
/// is is named.
#[verifier::external_body]
fn as_whole(value: &serde_json::Value) -> (res: Option<u64>)
    ensures
        res == whole(*value),
{
    value.as_u64()
}

/// `Value::as_f64`, as the number's bits. Which number it is is named.
#[verifier::external_body]
fn as_number(value: &serde_json::Value) -> (res: Option<u64>)
    ensures
        res == number(*value),
{
    value.as_f64().map(|number| number.to_bits())
}

/// `Value::as_bool`: a truth value. Which one it is is named.
#[verifier::external_body]
fn as_truth(value: &serde_json::Value) -> (res: Option<bool>)
    ensures
        res == truth(*value),
{
    value.as_bool()
}

/// `Value::as_str`: a text. Which one it is is named.
#[verifier::external_body]
fn as_string(value: &serde_json::Value) -> (res: Option<String>)
    ensures
        chars(res) == string(*value),
{
    value.as_str().map(str::to_string)
}

/// What stands under `key`, if it is a whole number.
pub open spec fn whole_at(value: serde_json::Value, key: Seq<char>) -> Option<u64> {
    match member(value, key) {
        Some(v) => whole(v),
        None => None,
    }
}

/// What stands under `key`, if it is a number.
pub open spec fn number_at(value: serde_json::Value, key: Seq<char>) -> Option<u64> {
    match member(value, key) {
        Some(v) => number(v),
        None => None,
    }
}

/// What stands under `key`, if it is a truth value.
pub open spec fn truth_at(value: serde_json::Value, key: Seq<char>) -> Option<bool> {
    match member(value, key) {
        Some(v) => truth(v),
        None => None,
    }
}

/// What stands under `key`, if it is a text.
pub open spec fn string_at(value: serde_json::Value, key: Seq<char>) -> Option<Seq<char>> {
    match member(value, key) {
        Some(v) => string(v),
        None => None,
    }
}

fn get_whole(value: &serde_json::Value, key: &str) -> (res: Option<u64>)
    ensures
        res == whole_at(*value, key@),
{
    match get(value, key) {
        Some(v) => as_whole(v),
        None => None,
    }
}

fn get_number(value: &serde_json::Value, key: &str) -> (res: Option<u64>)
    ensures
        res == number_at(*value, key@),
{
    match get(value, key) {
        Some(v) => as_number(v),
        None => None,
    }
}

fn get_truth(value: &serde_json::Value, key: &str) -> (res: Option<bool>)
    ensures
        res == truth_at(*value, key@),
{
    match get(value, key) {
        Some(v) => as_truth(v),
        None => None,
    }
}

fn get_string(value: &serde_json::Value, key: &str) -> (res: Option<String>)
    ensures
        chars(res) == string_at(*value, key@),
{
    match get(value, key) {
        Some(v) => as_string(v),
        None => None,
    }
}

/// A size that was read, or `default` where there is none that fits.
pub open spec fn size_or(read: Option<u64>, default: usize) -> usize {
    match read {
        Some(n) if n <= usize::MAX => n as usize,
        _ => default,
    }
}

/// A size that was read, or `default` where there is none that fits.
fn size_with_default(read: Option<u64>, default: usize) -> (res: usize)
    ensures
        res == size_or(read, default),
{
    match read {
        Some(n) => if n as u128 <= usize::MAX as u128 {
            n as usize
        } else {
            default
        },
        None => default,
    }
}

/// What was read, or `default` where there is nothing.
pub open spec fn value_or<T>(read: Option<T>, default: T) -> T {
    match read {
        Some(v) => v,
        None => default,
    }
}

/// What was read, or `default` where there is nothing.
fn with_default<T>(read: Option<T>, default: T) -> (res: T)
    ensures
        res == value_or(read, default),
{
    match read {
        Some(v) => v,
        None => default,
    }
}

/// The text that was read, or `default` where there is none.
fn text_with_default(read: Option<String>, default: &str) -> (res: String)
    ensures
        res@ == value_or(chars(read), default@),
{
    match read {
        Some(v) => v,
        None => default.to_string(),
    }
}

/// What the `audio_config` of a document holds; what is not there is `None`.
#[derive(Debug)]
pub struct AudioReadings {
    pub vocab_size: Option<u64>,
    pub hidden_size: Option<u64>,
    pub num_hidden_layers: Option<u64>,
    pub num_attention_heads: Option<u64>,
    pub num_key_value_heads: Option<u64>,
    pub intermediate_size: Option<u64>,
    pub max_source_positions: Option<u64>,
    pub num_mel_bins: Option<u64>,
    pub head_dim: Option<u64>,
    /// As the bits of an IEEE 754 double.
    pub dropout: Option<u64>,
    /// As the bits of an IEEE 754 double.
    pub attention_dropout: Option<u64>,
    /// As the bits of an IEEE 754 double.
    pub activation_dropout: Option<u64>,
    /// As the bits of an IEEE 754 double.
    pub layerdrop: Option<u64>,
    /// As the bits of an IEEE 754 double.
    pub initializer_range: Option<u64>,
    pub activation_function: Option<String>,
    pub scale_embedding: Option<bool>,
}

/// Candle's settings of the audio tower.
#[derive(Debug)]
pub struct AudioSettings {
    pub vocab_size: usize,
    pub hidden_size: usize,
    pub num_hidden_layers: usize,
    pub num_attention_heads: usize,
    pub num_key_value_heads: usize,
    pub intermediate_size: usize,
    pub max_source_positions: usize,
    pub num_mel_bins: usize,
    pub head_dim: usize,
    /// As the bits of an IEEE 754 double.
    pub dropout: u64,
    /// As the bits of an IEEE 754 double.
    pub attention_dropout: u64,
    /// As the bits of an IEEE 754 double.
    pub activation_dropout: u64,
    /// As the bits of an IEEE 754 double.
    pub layerdrop: u64,
    /// As the bits of an IEEE 754 double.
    pub initializer_range: u64,
    pub activation_function: String,
    pub scale_embedding: bool,
}

/// What the `text_config` of a document holds; what is not there is `None`.
#[derive(Debug)]
pub struct TextReadings {
    pub vocab_size: Option<u64>,
    pub hidden_size: Option<u64>,
    pub intermediate_size: Option<u64>,
    pub num_hidden_layers: Option<u64>,
    pub num_attention_heads: Option<u64>,
    pub num_key_value_heads: Option<u64>,
    pub max_position_embeddings: Option<u64>,
    pub head_dim: Option<u64>,
    /// As the bits of an IEEE 754 double.
    pub rms_norm_eps: Option<u64>,
    /// As the bits of an IEEE 754 double.
    pub rope_theta: Option<u64>,
    pub attention_bias: Option<bool>,
}

/// Candle's settings of the text decoder.
#[derive(Debug)]
pub struct TextSettings {
    pub vocab_size: usize,
    pub hidden_size: usize,
    pub intermediate_size: usize,
    pub num_hidden_layers: usize,
    pub num_attention_heads: usize,
    pub num_key_value_heads: usize,
    pub max_position_embeddings: usize,
    pub head_dim: Option<usize>,
    /// As the bits of an IEEE 754 double.
    pub rms_norm_eps: u64,
    /// As the bits of an IEEE 754 double.
    pub rope_theta: u64,
    pub use_flash_attn: bool,
    pub tie_word_embeddings: bool,
}

/// Candle's settings of the whole model.
#[derive(Debug)]
pub struct Settings {
    pub audio_config: AudioSettings,
    pub text_config: TextSettings,
    pub audio_token_id: usize,
    pub projector_hidden_act: String,
}

impl AudioReadings {
    /// Whether these are what `section` holds.
    pub open spec fn of(self, section: serde_json::Value) -> bool {
        &&& self.vocab_size == whole_at(section, "vocab_size"@)
        &&& self.hidden_size == whole_at(section, "hidden_size"@)
        &&& self.num_hidden_layers == whole_at(section, "num_hidden_layers"@)
        &&& self.num_attention_heads == whole_at(section, "num_attention_heads"@)
        &&& self.num_key_value_heads == whole_at(section, "num_key_value_heads"@)
        &&& self.intermediate_size == whole_at(section, "intermediate_size"@)
        &&& self.max_source_positions == whole_at(section, "max_source_positions"@)
        &&& self.num_mel_bins == whole_at(section, "num_mel_bins"@)
        &&& self.head_dim == whole_at(section, "head_dim"@)
        &&& self.dropout == number_at(section, "dropout"@)
        &&& self.attention_dropout == number_at(section, "attention_dropout"@)
        &&& self.activation_dropout == number_at(section, "activation_dropout"@)
        &&& self.layerdrop == number_at(section, "layerdrop"@)
        &&& self.initializer_range == number_at(section, "initializer_range"@)
        &&& chars(self.activation_function) == string_at(section, "activation_function"@)
        &&& self.scale_embedding == truth_at(section, "scale_embedding"@)
    }

    /// What `section` holds.
    fn read(section: &serde_json::Value) -> (res: AudioReadings)
        ensures
            res.of(*section),
    {
        AudioReadings {
            vocab_size: get_whole(section, "vocab_size"),
            hidden_size: get_whole(section, "hidden_size"),
            num_hidden_layers: get_whole(section, "num_hidden_layers"),
            num_attention_heads: get_whole(section, "num_attention_heads"),
            num_key_value_heads: get_whole(section, "num_key_value_heads"),
            intermediate_size: get_whole(section, "intermediate_size"),
            max_source_positions: get_whole(section, "max_source_positions"),
            num_mel_bins: get_whole(section, "num_mel_bins"),
            head_dim: get_whole(section, "head_dim"),
            dropout: get_number(section, "dropout"),
            attention_dropout: get_number(section, "attention_dropout"),
            activation_dropout: get_number(section, "activation_dropout"),
            layerdrop: get_number(section, "layerdrop"),
            initializer_range: get_number(section, "initializer_range"),
            activation_function: get_string(section, "activation_function"),
            scale_embedding: get_truth(section, "scale_embedding"),
        }
    }
}

impl AudioSettings {
    /// Whether these are the settings of what was read: each value, or its
    /// default.
    pub open spec fn of(self, read: AudioReadings) -> bool {
        &&& self.vocab_size == size_or(read.vocab_size, 51_866)
        &&& self.hidden_size == size_or(read.hidden_size, 1280)
        &&& self.num_hidden_layers == size_or(read.num_hidden_layers, 32)
        &&& self.num_attention_heads == size_or(read.num_attention_heads, 20)
        &&& self.num_key_value_heads == size_or(read.num_key_value_heads, 20)
        &&& self.intermediate_size == size_or(read.intermediate_size, 5120)
        &&& self.max_source_positions == size_or(read.max_source_positions, 1500)
        &&& self.num_mel_bins == size_or(read.num_mel_bins, 128)
        &&& self.head_dim == size_or(read.head_dim, 64)
        &&& self.dropout == value_or(read.dropout, 0)
        &&& self.attention_dropout == value_or(read.attention_dropout, 0)
        &&& self.activation_dropout == value_or(read.activation_dropout, 0)
        &&& self.layerdrop == value_or(read.layerdrop, 0)
        &&& self.initializer_range == value_or(read.initializer_range, 0x3F94_7AE1_47AE_147B)
        &&& self.activation_function@ == value_or(chars(read.activation_function), "gelu"@)
        &&& self.scale_embedding == value_or(read.scale_embedding, false)
    }

    /// The settings of what was read.
    pub fn from_readings(read: AudioReadings) -> (res: AudioSettings)
        ensures
            res.of(read),
    {
        AudioSettings {
            vocab_size: size_with_default(read.vocab_size, 51_866),
            hidden_size: size_with_default(read.hidden_size, 1280),
            num_hidden_layers: size_with_default(read.num_hidden_layers, 32),
            num_attention_heads: size_with_default(read.num_attention_heads, 20),
            num_key_value_heads: size_with_default(read.num_key_value_heads, 20),
            intermediate_size: size_with_default(read.intermediate_size, 5120),
            max_source_positions: size_with_default(read.max_source_positions, 1500),
            num_mel_bins: size_with_default(read.num_mel_bins, 128),
            head_dim: size_with_default(read.head_dim, 64),
            dropout: with_default(read.dropout, 0),
            attention_dropout: with_default(read.attention_dropout, 0),
            activation_dropout: with_default(read.activation_dropout, 0),
            layerdrop: with_default(read.layerdrop, 0),
            initializer_range: with_default(read.initializer_range, 0x3F94_7AE1_47AE_147B),
            activation_function: text_with_default(read.activation_function, "gelu"),
            scale_embedding: with_default(read.scale_embedding, false),
        }
    }
}

impl TextReadings {
    /// Whether these are what `section` holds.
    pub open spec fn of(self, section: serde_json::Value) -> bool {
        &&& self.vocab_size == whole_at(section, "vocab_size"@)
        &&& self.hidden_size == whole_at(section, "hidden_size"@)
        &&& self.intermediate_size == whole_at(section, "intermediate_size"@)
        &&& self.num_hidden_layers == whole_at(section, "num_hidden_layers"@)
        &&& self.num_attention_heads == whole_at(section, "num_attention_heads"@)
        &&& self.num_key_value_heads == whole_at(section, "num_key_value_heads"@)
        &&& self.max_position_embeddings == whole_at(section, "max_position_embeddings"@)
        &&& self.head_dim == whole_at(section, "head_dim"@)
        &&& self.rms_norm_eps == number_at(section, "rms_norm_eps"@)
        &&& self.rope_theta == number_at(section, "rope_theta"@)
        &&& self.attention_bias == truth_at(section, "attention_bias"@)
    }

    /// What `section` holds.
    fn read(section: &serde_json::Value) -> (res: TextReadings)
        ensures
            res.of(*section),
    {
        TextReadings {
            vocab_size: get_whole(section, "vocab_size"),
            hidden_size: get_whole(section, "hidden_size"),
            intermediate_size: get_whole(section, "intermediate_size"),
            num_hidden_layers: get_whole(section, "num_hidden_layers"),
            num_attention_heads: get_whole(section, "num_attention_heads"),
            num_key_value_heads: get_whole(section, "num_key_value_heads"),
            max_position_embeddings: get_whole(section, "max_position_embeddings"),
            head_dim: get_whole(section, "head_dim"),
            rms_norm_eps: get_number(section, "rms_norm_eps"),
            rope_theta: get_number(section, "rope_theta"),
            attention_bias: get_truth(section, "attention_bias"),
        }
    }
}

impl TextSettings {
    /// Whether these are the settings of what was read: each value, or its
    /// default. A head dimension has no default.
    pub open spec fn of(self, read: TextReadings) -> bool {
        &&& self.vocab_size == size_or(read.vocab_size, 131_072)
        &&& self.hidden_size == size_or(read.hidden_size, 3072)
        &&& self.intermediate_size == size_or(read.intermediate_size, 8192)
        &&& self.num_hidden_layers == size_or(read.num_hidden_layers, 30)
        &&& self.num_attention_heads == size_or(read.num_attention_heads, 32)
        &&& self.num_key_value_heads == size_or(read.num_key_value_heads, 8)
        &&& self.max_position_embeddings == size_or(read.max_position_embeddings, 131_072)
        &&& self.head_dim == match read.head_dim {
            Some(n) if n <= usize::MAX => Some(n as usize),
            _ => None,
        }
        &&& self.rms_norm_eps == value_or(read.rms_norm_eps, 0x3EE4_F8B5_88E3_68F1)
        &&& self.rope_theta == value_or(read.rope_theta, 0x4197_D784_0000_0000)
        &&& !self.use_flash_attn
        &&& self.tie_word_embeddings == value_or(read.attention_bias, false)
    }

    /// The settings of what was read.
    pub fn from_readings(read: TextReadings) -> (res: TextSettings)
        ensures
            res.of(read),
    {
        let head_dim: Option<usize> = match read.head_dim {
            Some(n) => if n as u128 <= usize::MAX as u128 {
                Some(n as usize)
            } else {
                None
            },
            None => None,
        };
        TextSettings {
            vocab_size: size_with_default(read.vocab_size, 131_072),
            hidden_size: size_with_default(read.hidden_size, 3072),
            intermediate_size: size_with_default(read.intermediate_size, 8192),
            num_hidden_layers: size_with_default(read.num_hidden_layers, 30),
            num_attention_heads: size_with_default(read.num_attention_heads, 32),
            num_key_value_heads: size_with_default(read.num_key_value_heads, 8),
            max_position_embeddings: size_with_default(read.max_position_embeddings, 131_072),
            head_dim,
            rms_norm_eps: with_default(read.rms_norm_eps, 0x3EE4_F8B5_88E3_68F1),
            rope_theta: with_default(read.rope_theta, 0x4197_D784_0000_0000),
            use_flash_attn: false,
            tie_word_embeddings: with_default(read.attention_bias, false),
        }
    }
}

/// The settings under `audio_config`.
pub fn parse_audio_config(json: &serde_json::Value) -> (res: Result<AudioSettings, String>)
    ensures
        match res {
            Ok(settings) => member(*json, "audio_config"@) is Some && exists|read: AudioReadings|
                #[trigger] read.of(member(*json, "audio_config"@)->0) && settings.of(read),
            Err(e) => member(*json, "audio_config"@) is None && e@ == "Missing audio_config"@,
        },
{
    match get(json, "audio_config") {
        Some(section) => {
            let read = AudioReadings::read(section);
            assert(read.of(member(*json, "audio_config"@)->0));
            Ok(AudioSettings::from_readings(read))
        },
        None => Err("Missing audio_config".to_string()),
    }
}

/// The settings under `text_config`.
pub fn parse_text_config(json: &serde_json::Value) -> (res: Result<TextSettings, String>)
    ensures
        match res {
            Ok(settings) => member(*json, "text_config"@) is Some && exists|read: TextReadings|
                #[trigger] read.of(member(*json, "text_config"@)->0) && settings.of(read),
            Err(e) => member(*json, "text_config"@) is None && e@ == "Missing text_config"@,
        },
{
    match get(json, "text_config") {
        Some(section) => {
            let read = TextReadings::read(section);
            assert(read.of(member(*json, "text_config"@)->0));
            Ok(TextSettings::from_readings(read))
        },
        None => Err("Missing text_config".to_string()),
    }
}

impl Settings {
    /// Whether these are the settings of the document `json`.
    pub open spec fn of(self, json: serde_json::Value) -> bool {
        &&& exists|read: AudioReadings| #[trigger]
            read.of(member(json, "audio_config"@)->0) && self.audio_config.of(read)
        &&& exists|read: TextReadings| #[trigger]
            read.of(member(json, "text_config"@)->0) && self.text_config.of(read)
        &&& self.audio_token_id == size_or(whole_at(json, "audio_token_id"@), 24)
        &&& self.projector_hidden_act@ == value_or(
            string_at(json, "projector_hidden_act"@),
            "gelu"@,
        )
    }
}

/// What is wrong with a document, if anything.
pub open spec fn complaint(text: Seq<char>) -> Option<Seq<char>> {
    match document(text) {
        Err(e) => Some(json_error_text(e)),
        Ok(json) => if member(json, "audio_config"@) is None {
            Some("Missing audio_config"@)
        } else if member(json, "text_config"@) is None {
            Some("Missing text_config"@)
        } else {
            None
        },
    }
}

/// The settings of the document `text`.
pub fn load_model_config(text: &str) -> (res: Result<Settings, String>)
    ensures
        match res {
            Ok(settings) => complaint(text@) is None && settings.of(document(text@)->Ok_0),
            Err(e) => complaint(text@) == Some(e@),
        },
{
    let json = match parse_document(text) {
        Ok(json) => json,
        Err(e) => {
            return Err(shown_json_error(&e));
        },
    };
    let audio_token_id: usize = size_with_default(get_whole(&json, "audio_token_id"), 24);
    let audio_config = match parse_audio_config(&json) {
        Ok(audio) => audio,
        Err(e) => {
            return Err(e);
        },
    };
    let text_config = match parse_text_config(&json) {
        Ok(text) => text,
        Err(e) => {
            return Err(e);
        },
    };
    Ok(
        Settings {
            audio_config,
            text_config,
            audio_token_id,
            projector_hidden_act: text_with_default(
                get_string(&json, "projector_hidden_act"),
                "gelu",
            ),
        },
    )
}

/// What stands under a key is the member of that name, where it is of the kind
/// that is read.
pub proof fn law_a_value_stands_under_its_key(value: serde_json::Value, key: Seq<char>)
    ensures
        member(value, key) is None ==> whole_at(value, key) is None && number_at(value, key) is None
            && truth_at(value, key) is None && string_at(value, key) is None,
        member(value, key) is Some ==> {
            let v = member(value, key)->0;
            &&& whole_at(value, key) == whole(v) && number_at(value, key) == number(v)
            &&& truth_at(value, key) == truth(v) && string_at(value, key) == string(v)
        },
{
}

/// Every setting of the audio tower is what stands under its own key, or its
/// own default where nothing that fits stands there.
pub proof fn law_audio_settings_stand_under_their_keys(
    section: serde_json::Value,
    read: AudioReadings,
    settings: AudioSettings,
)
    requires
        read.of(section),
        settings.of(read),
    ensures
        match whole_at(section, "vocab_size"@) {
            Some(n) => settings.vocab_size == if n <= usize::MAX {
                n as int
            } else {
                51_866
            },
            None => settings.vocab_size == 51_866,
        },
        match whole_at(section, "hidden_size"@) {
            Some(n) => settings.hidden_size == if n <= usize::MAX {
                n as int
            } else {
                1280
            },
            None => settings.hidden_size == 1280,
        },
        match whole_at(section, "num_hidden_layers"@) {
            Some(n) => settings.num_hidden_layers == if n <= usize::MAX {
                n as int
            } else {
                32
            },
            None => settings.num_hidden_layers == 32,
        },
        match whole_at(section, "num_attention_heads"@) {
            Some(n) => settings.num_attention_heads == if n <= usize::MAX {
                n as int
            } else {
                20
            },
            None => settings.num_attention_heads == 20,
        },
        match whole_at(section, "num_key_value_heads"@) {
            Some(n) => settings.num_key_value_heads == if n <= usize::MAX {
                n as int
            } else {
                20
            },
            None => settings.num_key_value_heads == 20,
        },
        match whole_at(section, "intermediate_size"@) {
            Some(n) => settings.intermediate_size == if n <= usize::MAX {
                n as int
            } else {
                5120
            },
            None => settings.intermediate_size == 5120,
        },
        match whole_at(section, "max_source_positions"@) {
            Some(n) => settings.max_source_positions == if n <= usize::MAX {
                n as int
            } else {
                1500
            },
            None => settings.max_source_positions == 1500,
        },
        match whole_at(section, "num_mel_bins"@) {
            Some(n) => settings.num_mel_bins == if n <= usize::MAX {
                n as int
            } else {
                128
            },
            None => settings.num_mel_bins == 128,
        },
        match whole_at(section, "head_dim"@) {
            Some(n) => settings.head_dim == if n <= usize::MAX {
                n as int
            } else {
                64
            },
            None => settings.head_dim == 64,
        },
        match number_at(section, "dropout"@) {
            Some(v) => settings.dropout == v,
            None => settings.dropout == 0,
        },
        match number_at(section, "attention_dropout"@) {
            Some(v) => settings.attention_dropout == v,
            None => settings.attention_dropout == 0,
        },
        match number_at(section, "activation_dropout"@) {
            Some(v) => settings.activation_dropout == v,
            None => settings.activation_dropout == 0,
        },
        match number_at(section, "layerdrop"@) {
            Some(v) => settings.layerdrop == v,
            None => settings.layerdrop == 0,
        },
        match number_at(section, "initializer_range"@) {
            Some(v) => settings.initializer_range == v,
            None => settings.initializer_range == 0x3F94_7AE1_47AE_147B,
        },
        match string_at(section, "activation_function"@) {
            Some(v) => settings.activation_function@ == v,
            None => settings.activation_function@ == "gelu"@,
        },
        match truth_at(section, "scale_embedding"@) {
            Some(v) => settings.scale_embedding == v,
            None => settings.scale_embedding == false,
        },
{
}

/// Every setting of the text decoder is what stands under its own key, or its
/// own default where nothing that fits stands there. A head dimension has no
/// default, and the output head is tied by `attention_bias`.
pub proof fn law_text_settings_stand_under_their_keys(
    section: serde_json::Value,
    read: TextReadings,
    settings: TextSettings,
)
    requires
        read.of(section),
        settings.of(read),
    ensures
        match whole_at(section, "vocab_size"@) {
            Some(n) => settings.vocab_size == if n <= usize::MAX {
                n as int
            } else {
                131_072
            },
            None => settings.vocab_size == 131_072,
        },
        match whole_at(section, "hidden_size"@) {
            Some(n) => settings.hidden_size == if n <= usize::MAX {
                n as int
            } else {
                3072
            },
            None => settings.hidden_size == 3072,
        },
        match whole_at(section, "intermediate_size"@) {
            Some(n) => settings.intermediate_size == if n <= usize::MAX {
                n as int
            } else {
                8192
            },
            None => settings.intermediate_size == 8192,
        },
        match whole_at(section, "num_hidden_layers"@) {
            Some(n) => settings.num_hidden_layers == if n <= usize::MAX {
                n as int
            } else {
                30
            },
            None => settings.num_hidden_layers == 30,
        },
        match whole_at(section, "num_attention_heads"@) {
            Some(n) => settings.num_attention_heads == if n <= usize::MAX {
                n as int
            } else {
                32
            },
            None => settings.num_attention_heads == 32,
        },
        match whole_at(section, "num_key_value_heads"@) {
            Some(n) => settings.num_key_value_heads == if n <= usize::MAX {
                n as int
            } else {
                8
            },
            None => settings.num_key_value_heads == 8,
        },
        match whole_at(section, "max_position_embeddings"@) {
            Some(n) => settings.max_position_embeddings == if n <= usize::MAX {
                n as int
            } else {
                131_072
            },
            None => settings.max_position_embeddings == 131_072,
        },
        match number_at(section, "rms_norm_eps"@) {
            Some(v) => settings.rms_norm_eps == v,
            None => settings.rms_norm_eps == 0x3EE4_F8B5_88E3_68F1,
        },
        match number_at(section, "rope_theta"@) {
            Some(v) => settings.rope_theta == v,
            None => settings.rope_theta == 0x4197_D784_0000_0000,
        },
        match whole_at(section, "head_dim"@) {
            Some(n) => if n <= usize::MAX {
                settings.head_dim is Some && settings.head_dim->0 == n
            } else {
                settings.head_dim is None
            },
            None => settings.head_dim is None,
        },
        match truth_at(section, "attention_bias"@) {
            Some(v) => settings.tie_word_embeddings == v,
            None => settings.tie_word_embeddings == false,
        },
        !settings.use_flash_attn,
{
}

/// The settings of a document are those of its two sections, and the two values
/// beside them or their defaults.
pub proof fn law_a_document_has_its_two_sections(json: serde_json::Value, settings: Settings)
    requires
        settings.of(json),
    ensures
        exists|read: AudioReadings| #[trigger]
            read.of(member(json, "audio_config"@)->0) && settings.audio_config.of(read),
        exists|read: TextReadings| #[trigger]
            read.of(member(json, "text_config"@)->0) && settings.text_config.of(read),
        match whole_at(json, "audio_token_id"@) {
            Some(n) => settings.audio_token_id == if n <= usize::MAX {
                n as int
            } else {
                24
            },
            None => settings.audio_token_id == 24,
        },
        match string_at(json, "projector_hidden_act"@) {
            Some(v) => settings.projector_hidden_act@ == v,
            None => settings.projector_hidden_act@ == "gelu"@,
        },
{
}

/// A document is refused when it is no JSON, or lacks a section: the audio
/// tower's first.
pub proof fn law_a_document_is_refused_for_what_it_lacks(text: Seq<char>)
    ensures
        document(text) is Err ==> complaint(text) == Some(json_error_text(document(text)->Err_0)),
        document(text) is Ok ==> {
            let json = document(text)->Ok_0;
            let audio = member(json, "audio_config"@) is Some;
            let decoder = member(json, "text_config"@) is Some;
            &&& !audio ==> complaint(text) == Some("Missing audio_config"@)
            &&& audio && !decoder ==> complaint(text) == Some("Missing text_config"@)
            &&& audio && decoder ==> complaint(text) is None
        },
{
}

} // verus!
