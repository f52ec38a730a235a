use killer::cli::{Cli, Commands, Step};
use killer::config::{Config, ConfigError};
use killer::rewriter::Substitution;

fn some(s: &str) -> Option<String> {
    Some(s.to_string())
}

#[test]
fn configuration_from_a_full_environment() {
    let config = Config::from_values(
        true,
        some("mysql://u:p@localhost/wp"),
        some("https://api.example"),
        some("SECRET"),
        some("www.opiniaosocialista.com.br"),
        some("https://pstu.org.br|,http://old|https://new"),
    );
    assert_eq!(
        config,
        Ok(Config {
            db_url: "mysql://u:p@localhost/wp".to_string(),
            api_url: "https://api.example".to_string(),
            api_token: "SECRET".to_string(),
            base_domain: Some("www.opiniaosocialista.com.br".to_string()),
            content_root: "/var/www/wordpress".to_string(),
            substitutions: vec![
                Substitution { pattern: "https://pstu.org.br".to_string(), replacement: String::new() },
                Substitution { pattern: "http://old".to_string(), replacement: "https://new".to_string() },
            ],
        })
    );
}

#[test]
fn the_list_of_substitutions_may_be_missing() {
    let config = Config::from_values(true, some("d"), some("a"), some("t"), some("b"), None).unwrap();
    assert!(config.substitutions.is_empty());
    let config =
        Config::from_values(true, some("d"), some("a"), some("t"), some("b"), some("no bar"))
            .unwrap();
    assert!(config.substitutions.is_empty());
}

#[test]
fn the_first_missing_value_is_reported() {
    assert_eq!(
        Config::from_values(false, None, None, None, None, None),
        Err(ConfigError::EnvFile)
    );
    assert_eq!(
        Config::from_values(false, some("d"), some("a"), some("t"), some("b"), some("p")),
        Err(ConfigError::EnvFile)
    );
    assert_eq!(
        Config::from_values(true, None, None, None, None, None),
        Err(ConfigError::DbUrl)
    );
    assert_eq!(
        Config::from_values(true, some("d"), None, None, None, None),
        Err(ConfigError::ApiUrl)
    );
    assert_eq!(
        Config::from_values(true, some("d"), some("a"), None, None, None),
        Err(ConfigError::ApiToken)
    );
    let config = Config::from_values(true, some("d"), some("a"), some("t"), None, some("p"));
    assert_eq!(config.unwrap().base_domain, None);
}

#[test]
fn what_is_missing_in_words() {
    assert_eq!(ConfigError::EnvFile.message(), "Arquivo .env não encontrado ou inválido.");
    assert_eq!(ConfigError::DbUrl.message(), "Variável de ambiente DB_URL não encontrada.");
    assert_eq!(ConfigError::ApiUrl.message(), "Variável de ambiente API_URL não encontrada.");
    assert_eq!(ConfigError::ApiToken.message(), "Variável de ambiente API_TOKEN não encontrada.");
}

#[test]
fn what_each_command_runs() {
    assert_eq!(Commands::Test.steps(), vec![Step::CheckSource, Step::CheckDestination]);
    assert_eq!(Commands::Authors.steps(), vec![Step::CheckSource, Step::MigrateAuthors]);
    assert_eq!(Commands::Tags.steps(), vec![Step::CheckSource, Step::MigrateTags]);
    assert_eq!(Commands::Posts.steps(), vec![Step::CheckSource, Step::MigratePosts]);
    assert_eq!(Commands::Pages.steps(), vec![Step::CheckSource]);
    assert_eq!(
        Cli { command: Commands::Posts }.steps(),
        vec![Step::CheckSource, Step::MigratePosts]
    );
}
