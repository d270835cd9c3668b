use patina_core::config::{
    resolve_app_settings, AiConfigError, AppSection, AzureSection, OpenAiSection,
};
use patina_core::llm::LlmProviderKind;

#[test]
fn resolves_openai_settings() {
    let app = AppSection {
        provider: Some(LlmProviderKind::OpenAi),
        openai: Some(OpenAiSection {
            api_key: "test-key".into(),
        }),
        azure_openai: None,
    };
    let settings = resolve_app_settings(app).expect("openai settings");
    assert!(matches!(settings.provider, LlmProviderKind::OpenAi));
    assert_eq!(settings.openai.as_ref().unwrap().api_key, "test-key");
}

#[test]
fn resolves_azure_settings() {
    let app = AppSection {
        provider: Some(LlmProviderKind::AzureOpenAi),
        openai: None,
        azure_openai: Some(AzureSection {
            api_key: "azure-key".into(),
            endpoint: "https://example.azure.com".into(),
            api_version: "2024-12-01-preview".into(),
            deployment_name: "gpt-4o".into(),
        }),
    };
    let settings = resolve_app_settings(app).expect("azure settings");
    assert!(matches!(settings.provider, LlmProviderKind::AzureOpenAi));
    let azure = settings.azure.as_ref().unwrap();
    assert_eq!(azure.api_key, "azure-key");
    assert_eq!(azure.endpoint, "https://example.azure.com");
    assert_eq!(azure.api_version, "2024-12-01-preview");
    assert_eq!(azure.deployment_name, "gpt-4o");
}

#[test]
fn errors_without_credentials() {
    let app = AppSection {
        provider: Some(LlmProviderKind::OpenAi),
        openai: Some(OpenAiSection {
            api_key: String::new(),
        }),
        azure_openai: None,
    };
    let err = resolve_app_settings(app).unwrap_err();
    assert!(matches!(err, AiConfigError::Invalid(_)));
}

#[test]
fn defaults_to_openai_provider() {
    let app = AppSection {
        provider: None,
        openai: Some(OpenAiSection {
            api_key: "  padded-key  ".into(),
        }),
        azure_openai: None,
    };
    let settings = resolve_app_settings(app).expect("defaulted settings");
    assert!(matches!(settings.provider, LlmProviderKind::OpenAi));
    assert_eq!(settings.openai.as_ref().unwrap().api_key, "padded-key");
}

#[test]
fn azure_reports_first_missing_field() {
    let app = AppSection {
        provider: Some(LlmProviderKind::AzureOpenAi),
        openai: None,
        azure_openai: Some(AzureSection {
            api_key: "azure-key".into(),
            endpoint: "   ".into(),
            api_version: "v".into(),
            deployment_name: "d".into(),
        }),
    };
    let err = resolve_app_settings(app).unwrap_err();
    match err {
        AiConfigError::Invalid(detail) => {
            assert_eq!(detail, "missing Azure endpoint in patina.yaml")
        }
        AiConfigError::Missing => panic!("expected an invalid-configuration error"),
    }
}

#[test]
fn mock_provider_needs_no_credentials() {
    let app = AppSection {
        provider: Some(LlmProviderKind::Mock),
        openai: None,
        azure_openai: None,
    };
    let settings = resolve_app_settings(app).expect("mock settings");
    assert!(matches!(settings.provider, LlmProviderKind::Mock));
    assert!(settings.openai.is_none());
    assert!(settings.azure.is_none());
}

#[test]
fn user_message_names_the_detail() {
    let err = AiConfigError::Invalid("broken".into());
    let msg = err.user_message();
    assert!(msg.contains("broken"));
    assert!(msg.contains("Update patina.yaml."));
    let missing = AiConfigError::Missing;
    assert!(missing.user_message().contains("create patina.yaml"));
}
