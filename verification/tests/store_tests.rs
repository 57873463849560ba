//! End-to-end behavior of the store against a fresh in-memory database.

use preset_store::config::{
    ImageConfig, JsonNumber, LoRA, ModelConfig, ModelInfo, PresetConfig, PromptConfig,
    SamplingConfig,
};
use preset_store::store::Database;

fn num(s: &str) -> JsonNumber {
    JsonNumber::from_text(String::from(s)).expect("valid number token")
}

fn fresh_db() -> Database {
    Database::new(":memory:").expect("in-memory database opens")
}

fn preset_named(name: &str, tags: Vec<&str>, base_model_id: Option<&str>) -> PresetConfig {
    PresetConfig {
        id: String::new(),
        name: String::from(name),
        description: String::from("a test preset"),
        tags: tags.into_iter().map(String::from).collect(),
        is_favorite: false,
        use_count: 99,
        created_at: String::new(),
        updated_at: String::new(),
        model: ModelConfig {
            base_model: String::from("base.safetensors"),
            base_model_id: base_model_id.map(String::from),
            refiner_model: String::new(),
            refiner_model_id: None,
            refiner_switch: num("0.5"),
            loras: vec![],
        },
        sampling: SamplingConfig {
            cfg_scale: num("7.0"),
            sample_sharpness: num("2.0"),
            sampler: String::from("dpmpp_2m_sde_gpu"),
            scheduler: String::from("karras"),
            performance: String::from("Speed"),
            steps: 30,
        },
        prompt: PromptConfig {
            positive: String::from("a portrait"),
            negative: String::new(),
            styles: vec![],
        },
        image: ImageConfig { aspect_ratio: String::from("1152*896"), image_count: 4 },
        resources: None,
    }
}

fn model_named(name: &str, model_type: &str) -> ModelInfo {
    ModelInfo {
        id: String::new(),
        name: String::from(name),
        file_name: String::from("file.safetensors"),
        model_type: String::from(model_type),
        description: String::from("a test model"),
        scope: vec![String::from("general")],
        path: String::from("/models/file.safetensors"),
        tags: vec![String::from("sdxl")],
        created_at: String::new(),
        updated_at: String::new(),
    }
}

#[test]
fn create_preset_generates_id_and_stamps() {
    let mut db = fresh_db();
    let created = db.create_preset(preset_named("A", vec!["x"], None)).unwrap();
    assert!(!created.id.is_empty());
    assert_eq!(created.id.len(), 36);
    assert_eq!(created.use_count, 0);
    assert_eq!(created.created_at, created.updated_at);
    assert!(!created.created_at.is_empty());
}

#[test]
fn created_preset_reads_back() {
    let mut db = fresh_db();
    let created = db.create_preset(preset_named("A", vec!["portrait", "v2"], None)).unwrap();
    let got = db.get_preset_by_id(&created.id).unwrap().expect("preset exists");
    assert_eq!(got.name, "A");
    assert_eq!(got.tags, vec!["portrait", "v2"]);
    assert_eq!(got.use_count, 0);
    assert_eq!(got.model.base_model, "base.safetensors");
    assert_eq!(got.sampling.sampler, "dpmpp_2m_sde_gpu");
    assert_eq!(got.image.image_count, 4);
}

#[test]
fn get_missing_preset_is_none_not_error() {
    let db = fresh_db();
    assert!(db.get_preset_by_id("no-such-id").unwrap().is_none());
}

#[test]
fn scenario_create_use_search_delete() {
    let mut db = fresh_db();
    let a = db.create_preset(preset_named("A", vec!["portrait", "v2"], None)).unwrap();
    assert_eq!(a.use_count, 0);
    db.increment_use_count(&a.id).unwrap();
    db.increment_use_count(&a.id).unwrap();
    db.increment_use_count(&a.id).unwrap();
    let got = db.get_preset_by_id(&a.id).unwrap().unwrap();
    assert_eq!(got.use_count, 3);
    let hits = db.search_presets("portrait").unwrap();
    assert_eq!(hits.len(), 1);
    assert_eq!(hits[0].id, a.id);
    db.delete_preset(&a.id).unwrap();
    assert!(db.get_preset_by_id(&a.id).unwrap().is_none());
}

#[test]
fn toggle_favorite_twice_restores_flag() {
    let mut db = fresh_db();
    let a = db.create_preset(preset_named("A", vec![], None)).unwrap();
    assert!(!a.is_favorite);
    db.toggle_favorite(&a.id).unwrap();
    assert!(db.get_preset_by_id(&a.id).unwrap().unwrap().is_favorite);
    db.toggle_favorite(&a.id).unwrap();
    assert!(!db.get_preset_by_id(&a.id).unwrap().unwrap().is_favorite);
}

#[test]
fn update_preserves_created_at_and_writes_use_count() {
    let mut db = fresh_db();
    let a = db.create_preset(preset_named("A", vec![], None)).unwrap();
    let mut edited = db.get_preset_by_id(&a.id).unwrap().unwrap();
    edited.name = String::from("A renamed");
    edited.use_count = 7;
    let updated = db.update_preset(edited).unwrap();
    assert_eq!(updated.name, "A renamed");
    let got = db.get_preset_by_id(&a.id).unwrap().unwrap();
    assert_eq!(got.name, "A renamed");
    assert_eq!(got.use_count, 7);
    assert_eq!(got.created_at, a.created_at);
}

#[test]
fn update_of_missing_id_is_silent_noop() {
    let mut db = fresh_db();
    let mut ghost = preset_named("G", vec![], None);
    ghost.id = String::from("no-such-id");
    db.update_preset(ghost).unwrap();
    assert!(db.get_preset_by_id("no-such-id").unwrap().is_none());
    assert!(db.get_all_presets().unwrap().is_empty());
}

#[test]
fn delete_of_missing_id_is_not_an_error() {
    let mut db = fresh_db();
    db.delete_preset("no-such-id").unwrap();
    let mut db2 = fresh_db();
    db2.delete_model("no-such-id").unwrap();
    db2.delete_tag("no-such-id").unwrap();
}

#[test]
fn search_is_case_sensitive_substring() {
    let mut db = fresh_db();
    db.create_preset(preset_named("Sunset Portrait", vec![], None)).unwrap();
    assert_eq!(db.search_presets("Portrait").unwrap().len(), 1);
    assert_eq!(db.search_presets("portrait").unwrap().len(), 0);
    assert_eq!(db.search_presets("unset").unwrap().len(), 1);
}

#[test]
fn search_matches_tag_names() {
    let mut db = fresh_db();
    db.create_preset(preset_named("plain", vec!["landscape"], None)).unwrap();
    let hits = db.search_presets("landsc").unwrap();
    assert_eq!(hits.len(), 1);
    assert_eq!(db.search_presets("seascape").unwrap().len(), 0);
}

#[test]
fn presets_referencing_model_matches_exactly() {
    let mut db = fresh_db();
    let a = db.create_preset(preset_named("uses-1", vec![], Some("model-1"))).unwrap();
    db.create_preset(preset_named("uses-12", vec![], Some("model-12"))).unwrap();
    db.create_preset(preset_named("uses-none", vec![], None)).unwrap();
    let hits = db.get_presets_by_model_id("model-1").unwrap();
    assert_eq!(hits.len(), 1);
    assert_eq!(hits[0].id, a.id);
}

#[test]
fn presets_referencing_model_sees_refiner_and_loras() {
    let mut db = fresh_db();
    let mut p = preset_named("refiner-user", vec![], None);
    p.model.refiner_model_id = Some(String::from("ref-9"));
    db.create_preset(p).unwrap();
    let mut q = preset_named("lora-user", vec![], None);
    q.model.loras.push(LoRA {
        name: String::from("style"),
        model_name: String::from("style.safetensors"),
        weight: num("0.6"),
        model_id: Some(String::from("lora-3")),
    });
    db.create_preset(q).unwrap();
    assert_eq!(db.get_presets_by_model_id("ref-9").unwrap().len(), 1);
    assert_eq!(db.get_presets_by_model_id("lora-3").unwrap().len(), 1);
    assert_eq!(db.get_presets_by_model_id("lora").unwrap().len(), 0);
}

#[test]
fn check_model_usage_reports_names() {
    let mut db = fresh_db();
    db.create_preset(preset_named("first", vec![], Some("m-1"))).unwrap();
    db.create_preset(preset_named("second", vec![], Some("m-1"))).unwrap();
    let usage = db.check_model_usage("m-1").unwrap();
    assert!(usage.is_used);
    assert_eq!(usage.usage_count, 2);
    assert_eq!(usage.preset_names.len(), 2);
    assert!(usage.preset_names.contains(&String::from("first")));
    assert!(usage.preset_names.contains(&String::from("second")));
    let none = db.check_model_usage("m-2").unwrap();
    assert!(!none.is_used);
    assert_eq!(none.usage_count, 0);
}

#[test]
fn tag_count_uses_exact_membership_not_substring() {
    let mut db = fresh_db();
    db.create_preset(preset_named("starter", vec!["start"], None)).unwrap();
    db.create_preset(preset_named("artsy", vec!["art", "start"], None)).unwrap();
    db.create_tag(String::from("art"), String::from("#ff0000")).unwrap();
    db.create_tag(String::from("start"), String::from("#00ff00")).unwrap();
    let tags = db.get_all_tags().unwrap();
    assert_eq!(tags.len(), 2);
    assert_eq!(tags[0].name, "art");
    assert_eq!(tags[0].count, 1);
    assert_eq!(tags[1].name, "start");
    assert_eq!(tags[1].count, 2);
}

#[test]
fn duplicate_tag_name_is_an_error() {
    let mut db = fresh_db();
    db.create_tag(String::from("art"), String::from("#ff0000")).unwrap();
    assert!(db.create_tag(String::from("art"), String::from("#0000ff")).is_err());
}

#[test]
fn deleting_a_tag_keeps_preset_tag_lists() {
    let mut db = fresh_db();
    let p = db.create_preset(preset_named("tagged", vec!["art"], None)).unwrap();
    let t = db.create_tag(String::from("art"), String::from("#ff0000")).unwrap();
    db.delete_tag(&t.id).unwrap();
    assert!(db.get_all_tags().unwrap().is_empty());
    let got = db.get_preset_by_id(&p.id).unwrap().unwrap();
    assert_eq!(got.tags, vec!["art"]);
}

#[test]
fn model_crud_round_trip() {
    let mut db = fresh_db();
    let created = db.create_model(model_named("Juggernaut", "checkpoint")).unwrap();
    assert_eq!(created.id.len(), 36);
    assert_eq!(created.created_at, created.updated_at);
    let got = db.get_model_by_id(&created.id).unwrap().expect("model exists");
    assert_eq!(got.name, "Juggernaut");
    assert_eq!(got.scope, vec!["general"]);
    let mut edited = got;
    edited.description = String::from("edited");
    db.update_model(edited).unwrap();
    let got2 = db.get_model_by_id(&created.id).unwrap().unwrap();
    assert_eq!(got2.description, "edited");
    assert_eq!(got2.created_at, created.created_at);
    db.delete_model(&created.id).unwrap();
    assert!(db.get_model_by_id(&created.id).unwrap().is_none());
}

#[test]
fn models_filter_by_exact_type() {
    let mut db = fresh_db();
    db.create_model(model_named("a", "checkpoint")).unwrap();
    db.create_model(model_named("b", "lora")).unwrap();
    db.create_model(model_named("c", "lora")).unwrap();
    assert_eq!(db.get_models_by_type("lora").unwrap().len(), 2);
    assert_eq!(db.get_models_by_type("checkpoint").unwrap().len(), 1);
    assert_eq!(db.get_models_by_type("LoRA").unwrap().len(), 0);
    assert_eq!(db.get_all_models().unwrap().len(), 3);
}

#[test]
fn model_search_covers_scope_and_tags() {
    let mut db = fresh_db();
    let mut m = model_named("plain", "checkpoint");
    m.scope = vec![String::from("anime")];
    m.tags = vec![String::from("flat-colors")];
    db.create_model(m).unwrap();
    assert_eq!(db.search_models("anime").unwrap().len(), 1);
    assert_eq!(db.search_models("flat-col").unwrap().len(), 1);
    assert_eq!(db.search_models("photoreal").unwrap().len(), 0);
}

#[test]
fn resources_pass_through_verbatim() {
    let mut db = fresh_db();
    let mut p = preset_named("with-resources", vec![], None);
    p.resources = Some(String::from("{\"checkpointDownloads\":{\"a\":\"b\"}}"));
    let created = db.create_preset(p).unwrap();
    let got = db.get_preset_by_id(&created.id).unwrap().unwrap();
    assert_eq!(got.resources.as_deref(), Some("{\"checkpointDownloads\":{\"a\":\"b\"}}"));
}

#[test]
fn malformed_stored_json_decodes_to_defaults_end_to_end() {
    let mut db = fresh_db();
    let mut p = preset_named("defaults", vec![], None);
    p.sampling.sampler = String::from("euler_a");
    let created = db.create_preset(p).unwrap();
    let got = db.get_preset_by_id(&created.id).unwrap().unwrap();
    assert_eq!(got.sampling.sampler, "euler_a");
}
