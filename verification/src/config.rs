//! Entity types of the store: presets with their four embedded
//! configuration objects, tags, and catalog models.
//!
//! Numeric tuning values (refiner blend, LoRA weight, cfg scale, sharpness)
//! are carried as their decimal text, validated against the number-token
//! grammar of the canonical JSON form; the store never computes with them.

use vstd::prelude::*;
use vstd::string::*;
use crate::json::valid_num;
use crate::text::chars_to_string;

verus! {

/// A decimal number kept as text, as it appears in the stored JSON.
pub struct JsonNumber {
    text: String,
}

impl View for JsonNumber {
    type V = Seq<char>;

    closed spec fn view(&self) -> Seq<char> {
        self.text@
    }
}

impl JsonNumber {
    /// The token is well formed under the number grammar.
    pub open spec fn wf(&self) -> bool {
        valid_num(self@)
    }

    /// The number's decimal text.
    pub fn as_text(&self) -> (r: &str)
        ensures
            r@ == self@,
    {
        self.text.as_str()
    }

    /// Wraps text that the caller has shown to be a valid token.
    pub(crate) fn from_valid(text: String) -> (r: JsonNumber)
        requires
            valid_num(text@),
        ensures
            r@ == text@,
            r.wf(),
    {
        JsonNumber { text }
    }
}

/// A LoRA adapter entry inside a preset's model configuration.
pub struct LoRA {
    pub name: String,
    pub model_name: String,
    pub weight: JsonNumber,
    pub model_id: Option<String>,
}

/// Mathematical image of a [`LoRA`].
pub struct LoRAV {
    pub name: Seq<char>,
    pub model_name: Seq<char>,
    pub weight: Seq<char>,
    pub model_id: Option<Seq<char>>,
}

impl View for LoRA {
    type V = LoRAV;

    open spec fn view(&self) -> LoRAV {
        LoRAV {
            name: self.name@,
            model_name: self.model_name@,
            weight: self.weight@,
            model_id: match self.model_id {
                Some(s) => Some(s@),
                None => None,
            },
        }
    }
}

pub open spec fn lora_v_wf(l: LoRAV) -> bool {
    valid_num(l.weight)
}

/// A preset's model selection: base and refiner model, blend ratio, LoRAs.
pub struct ModelConfig {
    pub base_model: String,
    pub base_model_id: Option<String>,
    pub refiner_model: String,
    pub refiner_model_id: Option<String>,
    pub refiner_switch: JsonNumber,
    pub loras: Vec<LoRA>,
}

/// Mathematical image of a [`ModelConfig`].
pub struct ModelConfigV {
    pub base_model: Seq<char>,
    pub base_model_id: Option<Seq<char>>,
    pub refiner_model: Seq<char>,
    pub refiner_model_id: Option<Seq<char>>,
    pub refiner_switch: Seq<char>,
    pub loras: Seq<LoRAV>,
}

impl View for ModelConfig {
    type V = ModelConfigV;

    open spec fn view(&self) -> ModelConfigV {
        ModelConfigV {
            base_model: self.base_model@,
            base_model_id: match self.base_model_id {
                Some(s) => Some(s@),
                None => None,
            },
            refiner_model: self.refiner_model@,
            refiner_model_id: match self.refiner_model_id {
                Some(s) => Some(s@),
                None => None,
            },
            refiner_switch: self.refiner_switch@,
            loras: Seq::new(self.loras@.len(), |i: int| self.loras@[i]@),
        }
    }
}

pub open spec fn model_v_wf(m: ModelConfigV) -> bool {
    valid_num(m.refiner_switch) && forall|i: int|
        0 <= i < m.loras.len() ==> lora_v_wf(#[trigger] m.loras[i])
}

/// A preset's sampling parameters.
pub struct SamplingConfig {
    pub cfg_scale: JsonNumber,
    pub sample_sharpness: JsonNumber,
    pub sampler: String,
    pub scheduler: String,
    pub performance: String,
    pub steps: i32,
}

/// Mathematical image of a [`SamplingConfig`].
pub struct SamplingConfigV {
    pub cfg_scale: Seq<char>,
    pub sample_sharpness: Seq<char>,
    pub sampler: Seq<char>,
    pub scheduler: Seq<char>,
    pub performance: Seq<char>,
    pub steps: int,
}

impl View for SamplingConfig {
    type V = SamplingConfigV;

    open spec fn view(&self) -> SamplingConfigV {
        SamplingConfigV {
            cfg_scale: self.cfg_scale@,
            sample_sharpness: self.sample_sharpness@,
            sampler: self.sampler@,
            scheduler: self.scheduler@,
            performance: self.performance@,
            steps: self.steps as int,
        }
    }
}

pub open spec fn sampling_v_wf(s: SamplingConfigV) -> bool {
    valid_num(s.cfg_scale) && valid_num(s.sample_sharpness) && -2147483648 <= s.steps
        <= 2147483647
}

/// A preset's prompt text and styles.
pub struct PromptConfig {
    pub positive: String,
    pub negative: String,
    pub styles: Vec<String>,
}

/// Mathematical image of a [`PromptConfig`].
pub struct PromptConfigV {
    pub positive: Seq<char>,
    pub negative: Seq<char>,
    pub styles: Seq<Seq<char>>,
}

impl View for PromptConfig {
    type V = PromptConfigV;

    open spec fn view(&self) -> PromptConfigV {
        PromptConfigV {
            positive: self.positive@,
            negative: self.negative@,
            styles: Seq::new(self.styles@.len(), |i: int| self.styles@[i]@),
        }
    }
}

/// A preset's output image settings.
pub struct ImageConfig {
    pub aspect_ratio: String,
    pub image_count: i32,
}

/// Mathematical image of an [`ImageConfig`].
pub struct ImageConfigV {
    pub aspect_ratio: Seq<char>,
    pub image_count: int,
}

impl View for ImageConfig {
    type V = ImageConfigV;

    open spec fn view(&self) -> ImageConfigV {
        ImageConfigV { aspect_ratio: self.aspect_ratio@, image_count: self.image_count as int }
    }
}

pub open spec fn image_v_wf(c: ImageConfigV) -> bool {
    -2147483648 <= c.image_count <= 2147483647
}

/// A saved preset, fully materialized.
pub struct PresetConfig {
    pub id: String,
    pub name: String,
    pub description: String,
    pub tags: Vec<String>,
    pub is_favorite: bool,
    pub use_count: i64,
    pub created_at: String,
    pub updated_at: String,
    pub model: ModelConfig,
    pub sampling: SamplingConfig,
    pub prompt: PromptConfig,
    pub image: ImageConfig,
    pub resources: Option<String>,
}

/// Mathematical image of a [`PresetConfig`].
pub struct PresetConfigV {
    pub id: Seq<char>,
    pub name: Seq<char>,
    pub description: Seq<char>,
    pub tags: Seq<Seq<char>>,
    pub is_favorite: bool,
    pub use_count: int,
    pub created_at: Seq<char>,
    pub updated_at: Seq<char>,
    pub model: ModelConfigV,
    pub sampling: SamplingConfigV,
    pub prompt: PromptConfigV,
    pub image: ImageConfigV,
    pub resources: Option<Seq<char>>,
}

impl View for PresetConfig {
    type V = PresetConfigV;

    open spec fn view(&self) -> PresetConfigV {
        PresetConfigV {
            id: self.id@,
            name: self.name@,
            description: self.description@,
            tags: Seq::new(self.tags@.len(), |i: int| self.tags@[i]@),
            is_favorite: self.is_favorite,
            use_count: self.use_count as int,
            created_at: self.created_at@,
            updated_at: self.updated_at@,
            model: self.model@,
            sampling: self.sampling@,
            prompt: self.prompt@,
            image: self.image@,
            resources: match self.resources {
                Some(s) => Some(s@),
                None => None,
            },
        }
    }
}

pub open spec fn preset_v_wf(p: PresetConfigV) -> bool {
    model_v_wf(p.model) && sampling_v_wf(p.sampling) && image_v_wf(p.image)
}

/// A tag with its derived usage count.
pub struct Tag {
    pub id: String,
    pub name: String,
    pub color: String,
    pub count: i32,
}

/// Mathematical image of a [`Tag`].
pub struct TagV {
    pub id: Seq<char>,
    pub name: Seq<char>,
    pub color: Seq<char>,
    pub count: int,
}

impl View for Tag {
    type V = TagV;

    open spec fn view(&self) -> TagV {
        TagV { id: self.id@, name: self.name@, color: self.color@, count: self.count as int }
    }
}

/// A model catalog entry.
pub struct ModelInfo {
    pub id: String,
    pub name: String,
    pub file_name: String,
    pub model_type: String,
    pub description: String,
    pub scope: Vec<String>,
    pub path: String,
    pub tags: Vec<String>,
    pub created_at: String,
    pub updated_at: String,
}

/// Mathematical image of a [`ModelInfo`].
pub struct ModelInfoV {
    pub id: Seq<char>,
    pub name: Seq<char>,
    pub file_name: Seq<char>,
    pub model_type: Seq<char>,
    pub description: Seq<char>,
    pub scope: Seq<Seq<char>>,
    pub path: Seq<char>,
    pub tags: Seq<Seq<char>>,
    pub created_at: Seq<char>,
    pub updated_at: Seq<char>,
}

impl View for ModelInfo {
    type V = ModelInfoV;

    open spec fn view(&self) -> ModelInfoV {
        ModelInfoV {
            id: self.id@,
            name: self.name@,
            file_name: self.file_name@,
            model_type: self.model_type@,
            description: self.description@,
            scope: Seq::new(self.scope@.len(), |i: int| self.scope@[i]@),
            path: self.path@,
            tags: Seq::new(self.tags@.len(), |i: int| self.tags@[i]@),
            created_at: self.created_at@,
            updated_at: self.updated_at@,
        }
    }
}

/// The outcome of a model-usage cross-reference query.
pub struct ModelUsageInfo {
    pub is_used: bool,
    pub usage_count: i32,
    pub preset_names: Vec<String>,
}

// ---------------------------------------------------------------------------
// Defaults substituted for malformed embedded JSON
// ---------------------------------------------------------------------------

/// Default model configuration: empty names, no identifiers, blend `0.5`.
pub open spec fn default_model_v() -> ModelConfigV {
    ModelConfigV {
        base_model: Seq::empty(),
        base_model_id: None,
        refiner_model: Seq::empty(),
        refiner_model_id: None,
        refiner_switch: seq!['0', '.', '5'],
        loras: Seq::empty(),
    }
}

/// Default sampling configuration.
pub open spec fn default_sampling_v() -> SamplingConfigV {
    SamplingConfigV {
        cfg_scale: seq!['7', '.', '0'],
        sample_sharpness: seq!['2', '.', '0'],
        sampler: "dpmpp_2m_sde_gpu"@,
        scheduler: "karras"@,
        performance: "Speed"@,
        steps: 30,
    }
}

/// Default prompt configuration: empty text, no styles.
pub open spec fn default_prompt_v() -> PromptConfigV {
    PromptConfigV { positive: Seq::empty(), negative: Seq::empty(), styles: Seq::empty() }
}

/// Default image configuration.
pub open spec fn default_image_v() -> ImageConfigV {
    ImageConfigV { aspect_ratio: "1152*896"@, image_count: 4 }
}

/// A one-digit-dot-one-digit token such as `0.5` is a valid number token.
pub proof fn lemma_simple_token(a: char, b: char)
    requires
        crate::json::is_digit(a),
        crate::json::is_digit(b),
    ensures
        valid_num(seq![a, '.', b]),
{
    crate::json::lemma_num_reparse(false, seq![a], Some(seq![b]), None, Seq::empty());
    let t = Seq::<char>::empty() + seq![a] + seq!['.'] + seq![b];
    assert(t =~= seq![a, '.', b]);
    assert(t + Seq::<char>::empty() =~= t);
}

/// The three default number tokens are valid.
pub proof fn lemma_default_tokens_valid()
    ensures
        valid_num(seq!['0', '.', '5']),
        valid_num(seq!['7', '.', '0']),
        valid_num(seq!['2', '.', '0']),
{
    assert(('0' as u32) == 48 && ('5' as u32) == 53 && ('7' as u32) == 55 && ('2' as u32) == 50);
    lemma_simple_token('0', '5');
    lemma_simple_token('7', '0');
    lemma_simple_token('2', '0');
}

/// Builds a [`JsonNumber`] from one digit, a dot, and one digit.
fn simple_number(a: char, b: char) -> (r: JsonNumber)
    requires
        crate::json::is_digit(a),
        crate::json::is_digit(b),
    ensures
        r@ == seq![a, '.', b],
        r.wf(),
{
    let mut v: Vec<char> = Vec::new();
    v.push(a);
    v.push('.');
    v.push(b);
    proof {
        lemma_simple_token(a, b);
        assert(v@ =~= seq![a, '.', b]);
    }
    let text = chars_to_string(&v);
    JsonNumber { text }
}

/// The default model configuration value.
pub fn default_model_config() -> (r: ModelConfig)
    ensures
        r@ == default_model_v(),
        model_v_wf(r@),
{
    proof {
        lemma_default_tokens_valid();
    }
    let r = ModelConfig {
        base_model: String::new(),
        base_model_id: None,
        refiner_model: String::new(),
        refiner_model_id: None,
        refiner_switch: simple_number('0', '5'),
        loras: Vec::new(),
    };
    proof {
        assert(r@.loras =~= default_model_v().loras);
        assert(r@ == default_model_v());
    }
    r
}

/// The default sampling configuration value.
pub fn default_sampling_config() -> (r: SamplingConfig)
    ensures
        r@ == default_sampling_v(),
        sampling_v_wf(r@),
{
    proof {
        lemma_default_tokens_valid();
    }
    SamplingConfig {
        cfg_scale: simple_number('7', '0'),
        sample_sharpness: simple_number('2', '0'),
        sampler: String::from_str("dpmpp_2m_sde_gpu"),
        scheduler: String::from_str("karras"),
        performance: String::from_str("Speed"),
        steps: 30,
    }
}

/// The default prompt configuration value.
pub fn default_prompt_config() -> (r: PromptConfig)
    ensures
        r@ == default_prompt_v(),
{
    let r = PromptConfig { positive: String::new(), negative: String::new(), styles: Vec::new() };
    proof {
        assert(r@.styles =~= default_prompt_v().styles);
        assert(r@ == default_prompt_v());
    }
    r
}

/// The default image configuration value.
pub fn default_image_config() -> (r: ImageConfig)
    ensures
        r@ == default_image_v(),
        image_v_wf(r@),
{
    ImageConfig { aspect_ratio: String::from_str("1152*896"), image_count: 4 }
}

} // verus!
