use sexy_claude::cost::{model_family, short_model_name, ModelFamily};

#[test]
fn test_short_model_name() {
    assert_eq!(short_model_name("opus-4-6"), "opus");
    assert_eq!(short_model_name("sonnet-4-5-20250929"), "sonnet");
    assert_eq!(short_model_name("haiku-4-5-20251001"), "haiku");
}

#[test]
fn short_name_case_insensitive_family() {
    assert_eq!(short_model_name("OPUS-Max"), "opus");
    assert_eq!(short_model_name("My-Haiku"), "haiku");
}

#[test]
fn short_name_other_models() {
    assert_eq!(short_model_name("gpt-4-turbo-2024"), "turbo");
    assert_eq!(short_model_name("mistral-large-2402"), "large");
    assert_eq!(short_model_name("12-34"), "12-34");
    assert_eq!(short_model_name(""), "");
    assert_eq!(short_model_name("model-"), "model");
    assert_eq!(short_model_name("Some-Model-7"), "Model");
}

#[test]
fn model_families() {
    assert_eq!(model_family("opus-4-6"), ModelFamily::Opus);
    assert_eq!(model_family("haiku-4-5-20251001"), ModelFamily::Haiku);
    assert_eq!(model_family("sonnet-4-5-20250929"), ModelFamily::Sonnet);
    assert_eq!(model_family("some-future-model"), ModelFamily::Other);
    assert_eq!(model_family("opus-haiku"), ModelFamily::Opus);
}
