//! The settings of a Voxtral checkpoint.
//!
//! Every field has a default, the Voxtral Mini 3B value.

use vstd::prelude::*;

use crate::text::{decimal, decimal_of, same_text};

verus! {

/// An activation named in the config.
#[derive(Debug, Clone, Copy, PartialEq, Eq, Structural)]
pub enum Activation {
    /// The exact, `erf`-based GELU, which is what `transformers` means by
    /// `"gelu"`.
    Gelu,
    Relu,
    Silu,
}

/// The placeholder's id in a config that names none.
pub const DEFAULT_AUDIO_TOKEN_ID: u32 = 24;

#[derive(Debug, Clone)]
pub struct VoxtralConfig {
    pub audio_config: EncoderConfig,
    pub text_config: TextConfig,
    /// The placeholder the projected audio replaces in the prompt.
    pub audio_token_id: u32,
    pub projector_hidden_act: Activation,
}

/// The audio tower.
#[derive(Debug, Clone, Copy)]
pub struct EncoderConfig {
    pub hidden_size: usize,
    pub intermediate_size: usize,
    pub num_hidden_layers: usize,
    pub num_attention_heads: usize,
    pub num_mel_bins: usize,
    /// Encoder frames per chunk: the length of the learnt position table.
    pub max_source_positions: usize,
    pub activation_function: Activation,
}

/// The text decoder, a Llama configuration.
#[derive(Debug, Clone)]
pub struct TextConfig {
    pub vocab_size: usize,
    pub hidden_size: usize,
    pub intermediate_size: usize,
    pub num_hidden_layers: usize,
    pub num_attention_heads: usize,
    pub num_key_value_heads: usize,
    /// Absent means `hidden_size / num_attention_heads`, see `head_dim`.
    pub explicit_head_dim: Option<usize>,
    /// As the bits of an IEEE 754 double.
    pub rms_norm_eps: u64,
    /// As the bits of an IEEE 754 double.
    pub rope_theta: u64,
    pub max_position_embeddings: usize,
    pub hidden_act: Activation,
    /// Whether the query, key, value and output projections carry a bias.
    pub attention_bias: bool,
    /// Whether the output head reuses the token embeddings.
    pub tie_word_embeddings: bool,
    /// Only plain rotary positions are implemented; a checkpoint asking for a
    /// scaled variant is refused rather than run with the wrong positions. The
    /// value is its JSON text.
    pub rope_scaling: Option<String>,
}

impl EncoderConfig {
    /// The audio tower of Voxtral Mini 3B.
    pub open spec fn mini() -> EncoderConfig {
        EncoderConfig {
            hidden_size: 1280,
            intermediate_size: 5120,
            num_hidden_layers: 32,
            num_attention_heads: 20,
            num_mel_bins: 128,
            max_source_positions: 1500,
            activation_function: Activation::Gelu,
        }
    }
}

impl Default for EncoderConfig {
    fn default() -> (res: Self)
        ensures
            res == EncoderConfig::mini(),
    {
        EncoderConfig {
            hidden_size: 1280,
            intermediate_size: 5120,
            num_hidden_layers: 32,
            num_attention_heads: 20,
            num_mel_bins: 128,
            max_source_positions: 1500,
            activation_function: Activation::Gelu,
        }
    }
}

impl TextConfig {
    /// The text decoder of Voxtral Mini 3B. Its two numbers with a fraction
    /// are `1e-5` and `1e8`.
    pub open spec fn mini() -> TextConfig {
        TextConfig {
            vocab_size: 131_072,
            hidden_size: 3072,
            intermediate_size: 8192,
            num_hidden_layers: 30,
            num_attention_heads: 32,
            num_key_value_heads: 8,
            explicit_head_dim: None,
            rms_norm_eps: 0x3EE4_F8B5_88E3_68F1,
            rope_theta: 0x4197_D784_0000_0000,
            max_position_embeddings: 131_072,
            hidden_act: Activation::Silu,
            attention_bias: false,
            tie_word_embeddings: false,
            rope_scaling: None,
        }
    }

    /// The width of one attention head.
    pub open spec fn head_width(&self) -> nat {
        match self.explicit_head_dim {
            Some(dim) => dim as nat,
            None => self.hidden_size as nat / self.num_attention_heads as nat,
        }
    }

    /// Whether the width of a head is told, or there are heads to split over.
    pub open spec fn has_heads(&self) -> bool {
        self.explicit_head_dim is Some || self.num_attention_heads > 0
    }

    /// The width of one attention head: the explicit one whatever the number
    /// of heads, else the decoder's width split over them.
    pub fn head_dim(&self) -> (res: usize)
        requires
            self.has_heads(),
        ensures
            res == self.head_width(),
    {
        match self.explicit_head_dim {
            Some(dim) => dim,
            None => self.hidden_size / self.num_attention_heads,
        }
    }

    /// Whether the checkpoint asks for rotary positions of another kind.
    pub open spec fn scales_positions(&self) -> bool {
        self.rope_scaling is Some && self.rope_scaling->0@ != "null"@
    }
}

impl Default for TextConfig {
    fn default() -> (res: Self)
        ensures
            res == TextConfig::mini(),
    {
        TextConfig {
            vocab_size: 131_072,
            hidden_size: 3072,
            intermediate_size: 8192,
            num_hidden_layers: 30,
            num_attention_heads: 32,
            num_key_value_heads: 8,
            explicit_head_dim: None,
            rms_norm_eps: 0x3EE4_F8B5_88E3_68F1,
            rope_theta: 0x4197_D784_0000_0000,
            max_position_embeddings: 131_072,
            hidden_act: Activation::Silu,
            attention_bias: false,
            tie_word_embeddings: false,
            rope_scaling: None,
        }
    }
}

/// Whether `n` is `d` some whole number of times; of `d` zero only zero is.
pub open spec fn is_whole(n: nat, d: nat) -> bool {
    if d == 0 {
        n == 0
    } else {
        n % d == 0
    }
}

/// `a`, `n`, `b`, `m` and `c`, one after the other.
pub open spec fn sentence(a: Seq<char>, n: nat, b: Seq<char>, m: nat, c: Seq<char>) -> Seq<char> {
    a + decimal(n) + b + decimal(m) + c
}

/// `a`, `n`, `b`, `m` and `c`, one after the other.
fn say(a: &str, n: usize, b: &str, m: usize, c: &str) -> (res: String)
    ensures
        res@ == sentence(a@, n as nat, b@, m as nat, c@),
{
    let mut res = a.to_string();
    res.append(&decimal_of(n as u64));
    res.append(b);
    res.append(&decimal_of(m as u64));
    res.append(c);
    res
}

impl VoxtralConfig {
    /// The config whose two sections are `audio` and `text` and which leaves
    /// everything else out.
    pub fn of_sections(audio: EncoderConfig, text: TextConfig) -> (res: VoxtralConfig)
        ensures
            res == (VoxtralConfig {
                audio_config: audio,
                text_config: text,
                audio_token_id: DEFAULT_AUDIO_TOKEN_ID,
                projector_hidden_act: Activation::Gelu,
            }),
    {
        VoxtralConfig {
            audio_config: audio,
            text_config: text,
            audio_token_id: DEFAULT_AUDIO_TOKEN_ID,
            projector_hidden_act: Activation::Gelu,
        }
    }

    /// What is wrong with the shapes of the audio tower and with how the
    /// decoder groups its heads.
    pub open spec fn misfit(&self) -> Option<Seq<char>> {
        let a = self.audio_config;
        let t = self.text_config;
        if a.num_attention_heads == 0 || !is_whole(
            a.hidden_size as nat,
            a.num_attention_heads as nat,
        ) {
            Some(
                sentence(
                    "audio hidden_size "@,
                    a.hidden_size as nat,
                    " is not a whole number of "@,
                    a.num_attention_heads as nat,
                    " heads"@,
                ),
            )
        } else if a.hidden_size == 0 || !is_whole(
            a.intermediate_size as nat,
            a.hidden_size as nat,
        ) {
            Some(
                sentence(
                    "audio intermediate_size "@,
                    a.intermediate_size as nat,
                    " is not a whole number of "@,
                    a.hidden_size as nat,
                    "-wide frames"@,
                ),
            )
        } else if t.num_key_value_heads == 0 || !is_whole(
            t.num_attention_heads as nat,
            t.num_key_value_heads as nat,
        ) {
            Some(
                sentence(
                    ""@,
                    t.num_attention_heads as nat,
                    " query heads cannot be grouped over "@,
                    t.num_key_value_heads as nat,
                    " key/value heads"@,
                ),
            )
        } else if t.scales_positions() {
            Some("rope_scaling "@ + t.rope_scaling->0@ + " is not implemented"@)
        } else {
            None
        }
    }

    /// What is wrong with the config, if anything.
    pub open spec fn problem(&self) -> Option<Seq<char>> {
        if self.misfit() is Some {
            self.misfit()
        } else if !is_whole(self.text_config.head_width(), 2) {
            Some(
                "rotary positions need an even head_dim, not "@ + decimal(
                    self.text_config.head_width(),
                ),
            )
        } else {
            None
        }
    }

    /// Check the shapes of the audio tower and how the decoder groups its
    /// heads.
    pub fn check_sections(&self) -> (res: Result<(), String>)
        ensures
            match res {
                Ok(()) => self.misfit() is None,
                Err(e) => self.misfit() == Some(e@),
            },
    {
        let a = &self.audio_config;
        let t = &self.text_config;
        if a.num_attention_heads == 0 || a.hidden_size % a.num_attention_heads != 0 {
            return Err(
                say(
                    "audio hidden_size ",
                    a.hidden_size,
                    " is not a whole number of ",
                    a.num_attention_heads,
                    " heads",
                ),
            );
        }
        // The projector reads `intermediate_size` values at a time out of the
        // encoder output, which is how four frames become one embedding.
        if a.hidden_size == 0 || a.intermediate_size % a.hidden_size != 0 {
            return Err(
                say(
                    "audio intermediate_size ",
                    a.intermediate_size,
                    " is not a whole number of ",
                    a.hidden_size,
                    "-wide frames",
                ),
            );
        }
        if t.num_key_value_heads == 0 || t.num_attention_heads % t.num_key_value_heads != 0 {
            return Err(
                say(
                    "",
                    t.num_attention_heads,
                    " query heads cannot be grouped over ",
                    t.num_key_value_heads,
                    " key/value heads",
                ),
            );
        }
        if let Some(scaling) = &t.rope_scaling {
            if !same_text(scaling, "null") {
                let mut e = "rope_scaling ".to_string();
                e.append(scaling);
                e.append(" is not implemented");
                return Err(e);
            }
        }
        Ok(())
    }

    /// Check that the shapes the model depends on agree with each other.
    pub fn validate(&self) -> (res: Result<(), String>)
        requires
            self.misfit() is Some || self.text_config.has_heads(),
        ensures
            match res {
                Ok(()) => self.problem() is None,
                Err(e) => self.problem() == Some(e@),
            },
    {
        match self.check_sections() {
            Ok(()) => {},
            Err(e) => {
                return Err(e);
            },
        }
        let width: usize = self.text_config.head_dim();
        if width % 2 != 0 {
            let mut e = "rotary positions need an even head_dim, not ".to_string();
            e.append(&decimal_of(width as u64));
            return Err(e);
        }
        Ok(())
    }

    /// Encoder frames folded into one audio embedding.
    pub open spec fn fold(&self) -> nat {
        self.audio_config.intermediate_size as nat / self.audio_config.hidden_size as nat
    }

    /// Encoder frames folded into one audio embedding: four for every
    /// published checkpoint.
    pub fn frames_per_audio_token(&self) -> (res: usize)
        requires
            self.audio_config.hidden_size > 0,
        ensures
            res == self.fold(),
    {
        self.audio_config.intermediate_size / self.audio_config.hidden_size
    }

    /// Encoder frames per 30-second chunk of audio: the two convolutions halve
    /// the 3000 mel frames to `max_source_positions`.
    pub fn encoder_frames_per_chunk(&self) -> (res: usize)
        ensures
            res == self.audio_config.max_source_positions,
    {
        self.audio_config.max_source_positions
    }

    /// Placeholder tokens one chunk of audio fills in the prompt.
    pub fn audio_tokens_per_chunk(&self) -> (res: usize)
        requires
            self.audio_config.hidden_size > 0,
            self.fold() > 0,
        ensures
            res == self.audio_config.max_source_positions as nat / self.fold(),
    {
        self.encoder_frames_per_chunk() / self.frames_per_audio_token()
    }
}

/// In a config that passes, every size that is divided divides: the audio
/// tower's width into its heads, the projector's width into frames, the query
/// heads into groups and a head into pairs of channels.
pub proof fn law_a_valid_config_divides_evenly(config: VoxtralConfig)
    requires
        config.problem() is None,
    ensures
        ({
            let a = config.audio_config;
            let t = config.text_config;
            let audio_head = a.hidden_size as int / a.num_attention_heads as int;
            let groups = t.num_attention_heads as int / t.num_key_value_heads as int;
            &&& a.num_attention_heads > 0 && a.num_attention_heads * audio_head == a.hidden_size
            &&& a.hidden_size > 0 && config.fold() * a.hidden_size == a.intermediate_size
            &&& t.num_key_value_heads > 0 && t.num_key_value_heads * groups
                == t.num_attention_heads
            &&& 2 * (t.head_width() / 2) == t.head_width()
            &&& !t.scales_positions()
        }),
{
    let a = config.audio_config;
    let t = config.text_config;
    vstd::arithmetic::div_mod::lemma_fundamental_div_mod(
        a.hidden_size as int,
        a.num_attention_heads as int,
    );
    vstd::arithmetic::div_mod::lemma_fundamental_div_mod(
        a.intermediate_size as int,
        a.hidden_size as int,
    );
    vstd::arithmetic::div_mod::lemma_fundamental_div_mod(
        t.num_attention_heads as int,
        t.num_key_value_heads as int,
    );
    assert(a.hidden_size * config.fold() == config.fold() * a.hidden_size) by (nonlinear_arith);
}

/// A head is as wide as the config says, or else the decoder's width over its
/// heads, rounded down.
pub proof fn law_a_head_is_as_wide_as_told(t: TextConfig)
    ensures
        t.explicit_head_dim is Some ==> t.head_width() == t.explicit_head_dim->0,
        t.explicit_head_dim is None && t.num_attention_heads > 0 ==> t.head_width()
            * t.num_attention_heads <= t.hidden_size < (t.head_width() + 1) * t.num_attention_heads,
        t.has_heads() <==> t.explicit_head_dim is Some || t.num_attention_heads > 0,
{
    if t.num_attention_heads > 0 {
        let w = t.hidden_size as int / t.num_attention_heads as int;
        let h = t.num_attention_heads as int;
        vstd::arithmetic::div_mod::lemma_fundamental_div_mod(t.hidden_size as int, h);
        assert(w * h == h * w) by (nonlinear_arith);
        assert((w + 1) * h == w * h + h) by (nonlinear_arith);
    }
}

/// Encoder frames fold into an embedding as many as make up the projector's
/// width, rounded down.
pub proof fn law_frames_fold_to_the_projectors_width(config: VoxtralConfig)
    requires
        config.audio_config.hidden_size > 0,
    ensures
        config.fold() * config.audio_config.hidden_size <= config.audio_config.intermediate_size < (
        config.fold() + 1) * config.audio_config.hidden_size,
{
    let n = config.audio_config.intermediate_size as int;
    let d = config.audio_config.hidden_size as int;
    let q = n / d;
    vstd::arithmetic::div_mod::lemma_fundamental_div_mod(n, d);
    assert(q * d == d * q) by (nonlinear_arith);
    assert((q + 1) * d == q * d + d) by (nonlinear_arith);
}

proof fn lemma_is_whole(n: nat, d: nat)
    requires
        d > 0,
    ensures
        is_whole(n, d) <==> exists|q: nat| n == #[trigger] (q * d),
{
    vstd::arithmetic::div_mod::lemma_fundamental_div_mod(n as int, d as int);
    if n % d == 0 {
        let q = n / d;
        assert(d * q == q * d) by (nonlinear_arith);
        assert(n == q * d);
    }
    if exists|q: nat| n == #[trigger] (q * d) {
        let q = choose|q: nat| n == #[trigger] (q * d);
        vstd::arithmetic::div_mod::lemma_fundamental_div_mod_converse(
            n as int,
            d as int,
            q as int,
            0,
        );
    }
}

/// A config passes exactly when its sizes come out even: the audio tower's
/// width over its heads, the projector's over frames, the query heads over the
/// key/value heads and a head over pairs of channels; and no scaled positions
/// are asked for.
pub proof fn law_a_config_passes_when_its_sizes_come_out_even(config: VoxtralConfig)
    requires
        config.text_config.explicit_head_dim is Some || config.text_config.num_attention_heads > 0,
    ensures
        config.problem() is None <==> {
            let a = config.audio_config;
            let t = config.text_config;
            &&& a.num_attention_heads > 0 && exists|q: nat|
                a.hidden_size == #[trigger] (q * a.num_attention_heads as nat)
            &&& a.hidden_size > 0 && exists|q: nat|
                a.intermediate_size == #[trigger] (q * a.hidden_size as nat)
            &&& t.num_key_value_heads > 0 && exists|q: nat|
                t.num_attention_heads == #[trigger] (q * t.num_key_value_heads as nat)
            &&& t.rope_scaling is None || t.rope_scaling->0@ == "null"@
            &&& exists|q: nat| t.head_width() == #[trigger] (q * 2)
        },
{
    let a = config.audio_config;
    let t = config.text_config;
    if a.num_attention_heads > 0 {
        lemma_is_whole(a.hidden_size as nat, a.num_attention_heads as nat);
    }
    if a.hidden_size > 0 {
        lemma_is_whole(a.intermediate_size as nat, a.hidden_size as nat);
    }
    if t.num_key_value_heads > 0 {
        lemma_is_whole(t.num_attention_heads as nat, t.num_key_value_heads as nat);
    }
    lemma_is_whole(t.head_width(), 2);
}

/// A config that does not pass is told the first of its problems, with the
/// sizes that do not fit.
pub proof fn law_a_config_is_told_its_first_problem(config: VoxtralConfig)
    ensures
        ({
            let a = config.audio_config;
            let t = config.text_config;
            let heads = a.num_attention_heads > 0 && a.hidden_size % a.num_attention_heads == 0;
            let frames = a.hidden_size > 0 && a.intermediate_size % a.hidden_size == 0;
            let groups = t.num_key_value_heads > 0 && t.num_attention_heads % t.num_key_value_heads
                == 0;
            let scaled = t.rope_scaling is Some && t.rope_scaling->0@ != "null"@;
            &&& !heads ==> config.problem() == Some(
                "audio hidden_size "@ + decimal(a.hidden_size as nat)
                    + " is not a whole number of "@ + decimal(a.num_attention_heads as nat)
                    + " heads"@,
            )
            &&& heads && !frames ==> config.problem() == Some(
                "audio intermediate_size "@ + decimal(a.intermediate_size as nat)
                    + " is not a whole number of "@ + decimal(a.hidden_size as nat)
                    + "-wide frames"@,
            )
            &&& heads && frames && !groups ==> config.problem() == Some(
                ""@ + decimal(t.num_attention_heads as nat)
                    + " query heads cannot be grouped over "@ + decimal(
                    t.num_key_value_heads as nat,
                ) + " key/value heads"@,
            )
            &&& heads && frames && groups && scaled ==> config.problem() == Some(
                "rope_scaling "@ + t.rope_scaling->0@ + " is not implemented"@,
            )
            &&& heads && frames && groups && !scaled && t.head_width() % 2 != 0
                ==> config.problem() == Some(
                "rotary positions need an even head_dim, not "@ + decimal(t.head_width()),
            )
            &&& config.misfit() is None <==> heads && frames && groups && !scaled
            &&& !(heads && frames && groups && !scaled) ==> config.misfit() == config.problem()
        }),
{
}

/// The defaults are Voxtral Mini's sizes, and they fit each other: four frames
/// fold into an embedding, four query heads share a key/value head, and a
/// chunk's 1500 frames make 375 embeddings.
pub proof fn law_the_defaults_are_voxtral_mini()
    ensures
        ({
            let a = EncoderConfig::mini();
            &&& a.hidden_size == 1280 && a.intermediate_size == 5120
            &&& a.num_hidden_layers == 32 && a.num_attention_heads == 20
            &&& a.num_mel_bins == 128 && a.max_source_positions == 1500
            &&& a.activation_function == Activation::Gelu
            &&& a.intermediate_size == 4 * a.hidden_size
            &&& a.max_source_positions == 4 * 375
        }),
        ({
            let t = TextConfig::mini();
            &&& t.vocab_size == 131_072 && t.hidden_size == 3072 && t.intermediate_size == 8192
            &&& t.num_hidden_layers == 30 && t.num_attention_heads == 32
            &&& t.num_key_value_heads == 8 && t.explicit_head_dim is None
            &&& t.rms_norm_eps == 0x3EE4_F8B5_88E3_68F1 && t.rope_theta == 0x4197_D784_0000_0000
            &&& t.max_position_embeddings == 131_072 && t.hidden_act == Activation::Silu
            &&& !t.attention_bias && !t.tie_word_embeddings && t.rope_scaling is None
            &&& t.num_attention_heads == 4 * t.num_key_value_heads
        }),
        DEFAULT_AUDIO_TOKEN_ID == 24,
{
}

} // verus!
