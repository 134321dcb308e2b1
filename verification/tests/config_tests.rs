use graph_os_cli::config::{ApiConfig, ApiProvider, AuthConfig, Config, ConfigFormat,
    EndpointConfig};

#[test]
fn test_config_format() {
    // Test extension methods
    assert_eq!(ConfigFormat::Json.extension(), "json");
    assert_eq!(ConfigFormat::Yaml.extension(), "yaml");
    assert_eq!(ConfigFormat::Toml.extension(), "toml");

    // Test from_extension
    assert_eq!(ConfigFormat::from_extension("json"), Some(ConfigFormat::Json));
    assert_eq!(ConfigFormat::from_extension("JSON"), Some(ConfigFormat::Json));
    assert_eq!(ConfigFormat::from_extension("yaml"), Some(ConfigFormat::Yaml));
    assert_eq!(ConfigFormat::from_extension("yml"), Some(ConfigFormat::Yaml));
    assert_eq!(ConfigFormat::from_extension("toml"), Some(ConfigFormat::Toml));
    assert_eq!(ConfigFormat::from_extension("TOML"), Some(ConfigFormat::Toml));
    assert_eq!(ConfigFormat::from_extension("invalid"), None);
}

fn sample_config() -> Config {
    Config {
        apis: vec![
            ApiConfig {
                provider: ApiProvider::Anthropic,
                api_key: "key-a".to_string(),
                api_url: None,
                model: Some("model-alpha".to_string()),
            },
            ApiConfig {
                provider: ApiProvider::Custom,
                api_key: "key-c".to_string(),
                api_url: Some("https://example.com/v1".to_string()),
                model: None,
            },
        ],
        default_provider: Some(ApiProvider::Anthropic),
        auth: Some(AuthConfig {
            rpc_secret: Some("test-secret".to_string()),
            endpoints: vec![(
                "default".to_string(),
                EndpointConfig {
                    url: "api.example.com".to_string(),
                    secret: Some("endpoint-secret".to_string()),
                    token: None,
                    use_tls: Some(true),
                },
            )],
        }),
    }
}

#[test]
fn test_get_api_config() {
    let config = sample_config();
    let found = config.get_api_config(ApiProvider::Anthropic).unwrap();
    assert_eq!(found.api_key, "key-a");
    assert_eq!(found.model, Some("model-alpha".to_string()));
    assert!(config.get_api_config(ApiProvider::OpenAI).is_none());
}

#[test]
fn test_get_default_api_config() {
    let config = sample_config();
    let found = config.get_default_api_config().unwrap();
    assert_eq!(found.api_key, "key-a");

    let no_default = Config { default_provider: None, ..sample_config() };
    assert!(no_default.get_default_api_config().is_none());
}

#[test]
fn test_available_providers() {
    let config = sample_config();
    let providers = config.available_providers();
    assert_eq!(providers, vec![ApiProvider::Anthropic, ApiProvider::Custom]);
}

#[test]
fn test_get_rpc_secret() {
    let config = sample_config();
    assert_eq!(config.get_rpc_secret(), Some("test-secret".to_string()));
    let bare = Config { auth: None, ..sample_config() };
    assert_eq!(bare.get_rpc_secret(), None);
}

#[test]
fn test_get_endpoint_config() {
    let config = sample_config();
    let ep = config.get_endpoint_config("default").unwrap();
    assert_eq!(ep.url, "api.example.com");
    assert_eq!(ep.secret, Some("endpoint-secret".to_string()));
    assert_eq!(ep.use_tls, Some(true));
    assert!(config.get_endpoint_config("missing").is_none());
}

#[test]
fn test_set_endpoint_overwrites() {
    let mut auth = AuthConfig::default();
    auth.set_endpoint(
        "main".to_string(),
        EndpointConfig { url: "a".to_string(), secret: None, token: None, use_tls: None },
    );
    auth.set_endpoint(
        "main".to_string(),
        EndpointConfig { url: "b".to_string(), secret: None, token: None, use_tls: Some(false) },
    );
    assert_eq!(auth.endpoints.len(), 1);
    assert_eq!(auth.endpoints[0].1.url, "b");
    auth.set_rpc_secret("s2".to_string());
    assert_eq!(auth.rpc_secret, Some("s2".to_string()));
}

#[test]
fn test_get_default_provider() {
    let config = sample_config();
    // first configured provider in the fixed order wins without an override
    assert_eq!(
        Config::get_default_provider(&config.apis, &None),
        Some(ApiProvider::Anthropic)
    );
    // a configured override wins, compared case-insensitively
    assert_eq!(
        Config::get_default_provider(&config.apis, &Some("CUSTOM".to_string())),
        Some(ApiProvider::Custom)
    );
    // an unconfigured override falls back to the first configured provider
    assert_eq!(
        Config::get_default_provider(&config.apis, &Some("openai".to_string())),
        Some(ApiProvider::Anthropic)
    );
    // an unknown name falls back too
    assert_eq!(
        Config::get_default_provider(&config.apis, &Some("nonsense".to_string())),
        Some(ApiProvider::Anthropic)
    );
    let empty: Vec<ApiConfig> = Vec::new();
    assert_eq!(Config::get_default_provider(&empty, &None), None);
}
