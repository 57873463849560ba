//! Round-trip and default-substitution behavior of the embedded-object
//! codec, exercised on concrete values.

use preset_store::codec::{
    decode_image_config, decode_model_config, decode_prompt_config, decode_sampling_config,
    decode_string_list, encode_image_config, encode_model_config, encode_prompt_config,
    encode_sampling_config, encode_string_list,
};
use preset_store::config::{ImageConfig, JsonNumber, LoRA, ModelConfig, PromptConfig, SamplingConfig};

fn num(s: &str) -> JsonNumber {
    JsonNumber::from_text(String::from(s)).expect("valid number token")
}

fn sample_model() -> ModelConfig {
    ModelConfig {
        base_model: String::from("juggernaut_v8.safetensors"),
        base_model_id: Some(String::from("model-1")),
        refiner_model: String::from(""),
        refiner_model_id: None,
        refiner_switch: num("0.5"),
        loras: vec![
            LoRA {
                name: String::from("detail"),
                model_name: String::from("add_detail.safetensors"),
                weight: num("0.8"),
                model_id: Some(String::from("model-7")),
            },
            LoRA {
                name: String::from("film"),
                model_name: String::from("film_grain.safetensors"),
                weight: num("-0.35"),
                model_id: None,
            },
        ],
    }
}

#[test]
fn model_config_round_trips() {
    let m = sample_model();
    let text = encode_model_config(&m);
    let back = decode_model_config(&text);
    assert_eq!(back.base_model, "juggernaut_v8.safetensors");
    assert_eq!(back.base_model_id.as_deref(), Some("model-1"));
    assert_eq!(back.refiner_model, "");
    assert_eq!(back.refiner_model_id, None);
    assert_eq!(back.refiner_switch.as_text(), "0.5");
    assert_eq!(back.loras.len(), 2);
    assert_eq!(back.loras[0].name, "detail");
    assert_eq!(back.loras[0].weight.as_text(), "0.8");
    assert_eq!(back.loras[0].model_id.as_deref(), Some("model-7"));
    assert_eq!(back.loras[1].weight.as_text(), "-0.35");
    assert_eq!(back.loras[1].model_id, None);
}

#[test]
fn model_config_encoding_shape() {
    let m = ModelConfig {
        base_model: String::from("base"),
        base_model_id: None,
        refiner_model: String::from("ref"),
        refiner_model_id: Some(String::from("r-2")),
        refiner_switch: num("0.5"),
        loras: vec![],
    };
    let text = encode_model_config(&m);
    assert_eq!(
        text,
        "{\"baseModel\":\"base\",\"baseModelId\":null,\"refinerModel\":\"ref\",\
         \"refinerModelId\":\"r-2\",\"refinerSwitch\":0.5,\"loras\":[]}"
    );
}

#[test]
fn malformed_model_json_yields_default() {
    for bad in ["", "not json", "{\"baseModel\":", "{}", "[1,2,3]", "{\"steps\":30}"] {
        let d = decode_model_config(bad);
        assert_eq!(d.base_model, "");
        assert_eq!(d.base_model_id, None);
        assert_eq!(d.refiner_model, "");
        assert_eq!(d.refiner_model_id, None);
        assert_eq!(d.refiner_switch.as_text(), "0.5");
        assert_eq!(d.loras.len(), 0);
    }
}

#[test]
fn sampling_config_round_trips() {
    let c = SamplingConfig {
        cfg_scale: num("4.5"),
        sample_sharpness: num("2.0"),
        sampler: String::from("euler_a"),
        scheduler: String::from("sgm_uniform"),
        performance: String::from("Quality"),
        steps: -3,
    };
    let text = encode_sampling_config(&c);
    let back = decode_sampling_config(&text);
    assert_eq!(back.cfg_scale.as_text(), "4.5");
    assert_eq!(back.sample_sharpness.as_text(), "2.0");
    assert_eq!(back.sampler, "euler_a");
    assert_eq!(back.scheduler, "sgm_uniform");
    assert_eq!(back.performance, "Quality");
    assert_eq!(back.steps, -3);
}

#[test]
fn malformed_sampling_json_yields_default() {
    let d = decode_sampling_config("{\"cfgScale\":oops}");
    assert_eq!(d.cfg_scale.as_text(), "7.0");
    assert_eq!(d.sample_sharpness.as_text(), "2.0");
    assert_eq!(d.sampler, "dpmpp_2m_sde_gpu");
    assert_eq!(d.scheduler, "karras");
    assert_eq!(d.performance, "Speed");
    assert_eq!(d.steps, 30);
}

#[test]
fn prompt_config_round_trips_with_escapes() {
    let c = PromptConfig {
        positive: String::from("a \"masterpiece\", 8k\nultra detailed"),
        negative: String::from("low quality, back\\slash"),
        styles: vec![String::from("Fooocus V2"), String::from("cinematic")],
    };
    let text = encode_prompt_config(&c);
    let back = decode_prompt_config(&text);
    assert_eq!(back.positive, "a \"masterpiece\", 8k\nultra detailed");
    assert_eq!(back.negative, "low quality, back\\slash");
    assert_eq!(back.styles, vec!["Fooocus V2", "cinematic"]);
}

#[test]
fn malformed_prompt_json_yields_default() {
    let d = decode_prompt_config("{\"positive\":\"unterminated");
    assert_eq!(d.positive, "");
    assert_eq!(d.negative, "");
    assert!(d.styles.is_empty());
}

#[test]
fn image_config_round_trips() {
    let c = ImageConfig { aspect_ratio: String::from("1024*1024"), image_count: 2 };
    let text = encode_image_config(&c);
    assert_eq!(text, "{\"aspectRatio\":\"1024*1024\",\"imageCount\":2}");
    let back = decode_image_config(&text);
    assert_eq!(back.aspect_ratio, "1024*1024");
    assert_eq!(back.image_count, 2);
}

#[test]
fn malformed_image_json_yields_default() {
    let d = decode_image_config("{\"aspectRatio\":\"1024*1024\",\"imageCount\":2.5}");
    assert_eq!(d.aspect_ratio, "1152*896");
    assert_eq!(d.image_count, 4);
}

#[test]
fn string_list_round_trips() {
    let v = vec![String::from("portrait"), String::from("v2"), String::from("")];
    let text = encode_string_list(&v);
    assert_eq!(text, "[\"portrait\",\"v2\",\"\"]");
    assert_eq!(decode_string_list(&text), v);
    let empty: Vec<String> = vec![];
    assert_eq!(encode_string_list(&empty), "[]");
    assert_eq!(decode_string_list("[]"), empty);
    assert_eq!(decode_string_list("not a list"), empty);
    assert_eq!(decode_string_list("[\"unclosed\""), empty);
}

#[test]
fn number_token_validation() {
    assert!(JsonNumber::from_text(String::from("0.5")).is_some());
    assert!(JsonNumber::from_text(String::from("-12.75")).is_some());
    assert!(JsonNumber::from_text(String::from("30")).is_some());
    assert!(JsonNumber::from_text(String::from("007")).is_some());
    assert!(JsonNumber::from_text(String::from("1e5")).is_some());
    assert!(JsonNumber::from_text(String::from("2.5E-3")).is_some());
    assert!(JsonNumber::from_text(String::from("-1.5e+10")).is_some());
    assert!(JsonNumber::from_text(String::from("")).is_none());
    assert!(JsonNumber::from_text(String::from("1.")).is_none());
    assert!(JsonNumber::from_text(String::from(".5")).is_none());
    assert!(JsonNumber::from_text(String::from("-")).is_none());
    assert!(JsonNumber::from_text(String::from("1e")).is_none());
    assert!(JsonNumber::from_text(String::from("1e+")).is_none());
    assert!(JsonNumber::from_text(String::from("abc")).is_none());
}

#[test]
fn exponent_numbers_round_trip() {
    let c = SamplingConfig {
        cfg_scale: num("2.5e-3"),
        sample_sharpness: num("1E+2"),
        sampler: String::from("euler_a"),
        scheduler: String::from("karras"),
        performance: String::from("Speed"),
        steps: 30,
    };
    let text = encode_sampling_config(&c);
    let back = decode_sampling_config(&text);
    assert_eq!(back.cfg_scale.as_text(), "2.5e-3");
    assert_eq!(back.sample_sharpness.as_text(), "1E+2");
}

#[test]
fn control_characters_use_short_escapes() {
    let c = PromptConfig {
        positive: String::from("a\nb\tc"),
        negative: String::from("x\u{08}y\u{0c}z\ru\u{01}v"),
        styles: vec![],
    };
    let text = encode_prompt_config(&c);
    assert_eq!(
        text,
        "{\"positive\":\"a\\nb\\tc\",\"negative\":\"x\\by\\fz\\ru\\u0001v\",\"styles\":[]}"
    );
    let back = decode_prompt_config(&text);
    assert_eq!(back.positive, "a\nb\tc");
    assert_eq!(back.negative, "x\u{08}y\u{0c}z\ru\u{01}v");
}

#[test]
fn hex_form_of_short_escape_is_not_canonical() {
    let d = decode_prompt_config(
        "{\"positive\":\"a\\u0009b\",\"negative\":\"\",\"styles\":[]}",
    );
    assert_eq!(d.positive, "");
}

#[test]
fn trailing_text_counts_as_malformed() {
    let m = sample_model();
    let mut text = encode_model_config(&m);
    text.push(' ');
    let d = decode_model_config(&text);
    assert_eq!(d.base_model, "");
    assert_eq!(d.refiner_switch.as_text(), "0.5");
}
