//! Resolution of provider credentials out of the application's configuration
//! section. Reading and parsing the file itself is the shell's work; the
//! rules that decide what counts as configured live here.

use vstd::prelude::*;
use vstd::string::StringExecFns;
use crate::llm::LlmProviderKind;
use crate::strutil::{trim, trim_spec};

verus! {

/// The resolved runtime settings of the model driver.
#[derive(Debug)]
pub struct AiRuntimeSettings {
    pub provider: LlmProviderKind,
    pub openai: Option<OpenAiSettings>,
    pub azure: Option<AzureOpenAiSettings>,
    pub model: Option<String>,
}

/// Credentials for the plain backend.
#[derive(Debug)]
pub struct OpenAiSettings {
    pub api_key: String,
    pub model: Option<String>,
}

/// Credentials for the Azure-flavoured backend.
#[derive(Debug)]
pub struct AzureOpenAiSettings {
    pub api_key: String,
    pub endpoint: String,
    pub api_version: String,
    pub deployment_name: String,
}

/// Why configuration failed: no configuration at all, or one with a named
/// defect.
#[derive(Debug)]
pub enum AiConfigError {
    Missing,
    Invalid(String),
}

impl AiConfigError {
    /// The message shown to the user for this failure.
    pub fn user_message(&self) -> (r: String)
        ensures
            r@ == (match self {
                AiConfigError::Missing =>
                    "AI not configured\u{2014}create patina.yaml with provider credentials."@,
                AiConfigError::Invalid(detail) => "AI not configured\u{2014}"@ + (detail@
                    + ". Update patina.yaml."@),
            }),
    {
        match self {
            AiConfigError::Missing => {
                "AI not configured\u{2014}create patina.yaml with provider credentials.".to_owned()
            },
            AiConfigError::Invalid(detail) => {
                let mut r = String::new();
                r.append("AI not configured\u{2014}");
                r.append(detail.as_str());
                r.append(". Update patina.yaml.");
                proof {
                    assert(r@ =~= "AI not configured\u{2014}"@ + (detail@
                        + ". Update patina.yaml."@));
                }
                r
            },
        }
    }
}

/// The `app` section of the configuration file, as plain values.
#[derive(Debug)]
pub struct AppSection {
    pub provider: Option<LlmProviderKind>,
    pub openai: Option<OpenAiSection>,
    pub azure_openai: Option<AzureSection>,
}

/// The OpenAI credentials block of the configuration file.
#[derive(Debug)]
pub struct OpenAiSection {
    pub api_key: String,
}

/// The Azure credentials block of the configuration file.
#[derive(Debug)]
pub struct AzureSection {
    pub api_key: String,
    pub endpoint: String,
    pub api_version: String,
    pub deployment_name: String,
}

/// The provider assumed when the section names none.
pub open spec fn default_provider(app: AppSection) -> LlmProviderKind {
    match app.provider {
        Some(p) => p,
        None => LlmProviderKind::OpenAi,
    }
}

/// Resolves an `app` section into runtime settings.
///
/// Succeeds exactly when the selected provider's required fields are
/// non-blank after trimming: the key for OpenAI; key, endpoint, version and
/// deployment for Azure; nothing for the mock. Every field of the result is
/// the trimmed text of its source.
pub fn resolve_app_settings(app: AppSection) -> (r: Result<AiRuntimeSettings, AiConfigError>)
    ensures
        ({
            let provider = default_provider(app);
            match provider {
                LlmProviderKind::OpenAi => {
                    let key = trim_spec(
                        match app.openai {
                            Some(s) => s.api_key@,
                            None => Seq::empty(),
                        },
                    );
                    if key.len() == 0 {
                        r matches Err(e) && e matches AiConfigError::Invalid(d) && d@
                            == "missing OpenAI api key in patina.yaml"@
                    } else {
                        r matches Ok(s) && s.provider == LlmProviderKind::OpenAi && (
                        s.openai matches Some(o) && o.api_key@ == key && o.model is None)
                            && s.azure is None && s.model is None
                    }
                },
                LlmProviderKind::AzureOpenAi => {
                    let sec_key = trim_spec(
                        match app.azure_openai {
                            Some(s) => s.api_key@,
                            None => Seq::empty(),
                        },
                    );
                    let sec_endpoint = trim_spec(
                        match app.azure_openai {
                            Some(s) => s.endpoint@,
                            None => Seq::empty(),
                        },
                    );
                    let sec_version = trim_spec(
                        match app.azure_openai {
                            Some(s) => s.api_version@,
                            None => Seq::empty(),
                        },
                    );
                    let sec_deployment = trim_spec(
                        match app.azure_openai {
                            Some(s) => s.deployment_name@,
                            None => Seq::empty(),
                        },
                    );
                    if sec_key.len() == 0 {
                        r matches Err(e) && e matches AiConfigError::Invalid(d) && d@
                            == "missing Azure OpenAI api key in patina.yaml"@
                    } else if sec_endpoint.len() == 0 {
                        r matches Err(e) && e matches AiConfigError::Invalid(d) && d@
                            == "missing Azure endpoint in patina.yaml"@
                    } else if sec_version.len() == 0 {
                        r matches Err(e) && e matches AiConfigError::Invalid(d) && d@
                            == "missing Azure api version in patina.yaml"@
                    } else if sec_deployment.len() == 0 {
                        r matches Err(e) && e matches AiConfigError::Invalid(d) && d@
                            == "missing Azure deployment name in patina.yaml"@
                    } else {
                        r matches Ok(s) && s.provider == LlmProviderKind::AzureOpenAi && s.openai
                            is None && (s.azure matches Some(a) && a.api_key@ == sec_key
                            && a.endpoint@ == sec_endpoint && a.api_version@ == sec_version
                            && a.deployment_name@ == sec_deployment) && (s.model matches Some(m)
                            && m@ == sec_deployment)
                    }
                },
                LlmProviderKind::Mock => r matches Ok(s) && s.provider == LlmProviderKind::Mock
                    && s.openai is None && s.azure is None && s.model is None,
            }
        }),
{
    let provider = match app.provider {
        Some(p) => p,
        None => LlmProviderKind::OpenAi,
    };
    match provider {
        LlmProviderKind::OpenAi => {
            let api_key = match &app.openai {
                Some(section) => trim(section.api_key.as_str()),
                None => String::new(),
            };
            proof {
                if app.openai is None {
                    assert(trim_spec(Seq::<char>::empty()).len() == 0);
                }
            }
            if api_key.unicode_len() == 0 {
                return Err(
                    AiConfigError::Invalid("missing OpenAI api key in patina.yaml".to_owned()),
                );
            }
            Ok(
                AiRuntimeSettings {
                    provider,
                    openai: Some(OpenAiSettings { api_key, model: None }),
                    azure: None,
                    model: None,
                },
            )
        },
        LlmProviderKind::AzureOpenAi => {
            let (api_key, endpoint, api_version, deployment_name) = match &app.azure_openai {
                Some(section) => (
                    trim(section.api_key.as_str()),
                    trim(section.endpoint.as_str()),
                    trim(section.api_version.as_str()),
                    trim(section.deployment_name.as_str()),
                ),
                None => (String::new(), String::new(), String::new(), String::new()),
            };
            proof {
                if app.azure_openai is None {
                    assert(trim_spec(Seq::<char>::empty()).len() == 0);
                }
            }
            if api_key.unicode_len() == 0 {
                return Err(
                    AiConfigError::Invalid(
                        "missing Azure OpenAI api key in patina.yaml".to_owned(),
                    ),
                );
            }
            if endpoint.unicode_len() == 0 {
                return Err(
                    AiConfigError::Invalid("missing Azure endpoint in patina.yaml".to_owned()),
                );
            }
            if api_version.unicode_len() == 0 {
                return Err(
                    AiConfigError::Invalid("missing Azure api version in patina.yaml".to_owned()),
                );
            }
            if deployment_name.unicode_len() == 0 {
                return Err(
                    AiConfigError::Invalid(
                        "missing Azure deployment name in patina.yaml".to_owned(),
                    ),
                );
            }
            let model = deployment_name.clone();
            Ok(
                AiRuntimeSettings {
                    provider,
                    openai: None,
                    azure: Some(
                        AzureOpenAiSettings { api_key, endpoint, api_version, deployment_name },
                    ),
                    model: Some(model),
                },
            )
        },
        LlmProviderKind::Mock => Ok(
            AiRuntimeSettings { provider, openai: None, azure: None, model: None },
        ),
    }
}

} // verus!
