use vault_purge::config::{parse_parallel_jobs, Config, ConfigError, Setting};

fn some(text: &str) -> Option<String> {
    Some(text.to_string())
}

fn std_jobs(text: &str) -> Option<usize> {
    match text.parse::<usize>() {
        Ok(n) if n > 0 => Some(n),
        _ => None,
    }
}

#[test]
fn parallel_jobs_reads_a_positive_number() {
    assert_eq!(parse_parallel_jobs("1"), Ok(1));
    assert_eq!(parse_parallel_jobs("4"), Ok(4));
    assert_eq!(parse_parallel_jobs("250"), Ok(250));
    assert_eq!(parse_parallel_jobs("007"), Ok(7));
    assert_eq!(parse_parallel_jobs("+3"), Ok(3));
}

#[test]
fn parallel_jobs_refuses_zero() {
    assert_eq!(parse_parallel_jobs("0"), Err(ConfigError::InvalidParallelJobs));
    assert_eq!(parse_parallel_jobs("000"), Err(ConfigError::InvalidParallelJobs));
    assert_eq!(parse_parallel_jobs("+0"), Err(ConfigError::InvalidParallelJobs));
}

#[test]
fn parallel_jobs_refuses_negative() {
    assert_eq!(parse_parallel_jobs("-1"), Err(ConfigError::InvalidParallelJobs));
    assert_eq!(parse_parallel_jobs("-0"), Err(ConfigError::InvalidParallelJobs));
}

#[test]
fn parallel_jobs_refuses_what_is_no_number() {
    let texts =
        ["", "+", "-", "++1", "1+", "abc", "4x", "x4", " 4", "4 ", "4.0", "1_000", "\u{664}"];
    for text in texts {
        assert_eq!(parse_parallel_jobs(text), Err(ConfigError::InvalidParallelJobs), "{:?}", text);
    }
}

#[test]
fn parallel_jobs_refuses_what_does_not_fit() {
    let max = usize::MAX.to_string();
    assert_eq!(parse_parallel_jobs(&max), Ok(usize::MAX));
    let mut over = max.clone();
    over.push('0');
    assert_eq!(parse_parallel_jobs(&over), Err(ConfigError::InvalidParallelJobs));
    assert_eq!(
        parse_parallel_jobs("340282366920938463463374607431768211456"),
        Err(ConfigError::InvalidParallelJobs)
    );
    let digits: Vec<char> = max.chars().collect();
    let last = digits[digits.len() - 1].to_digit(10).unwrap();
    if last < 9 {
        let mut next: String = digits[..digits.len() - 1].iter().collect();
        next.push(char::from_digit(last + 1, 10).unwrap());
        assert_eq!(parse_parallel_jobs(&next), Err(ConfigError::InvalidParallelJobs));
    }
}

#[test]
fn parallel_jobs_agrees_with_std() {
    let texts =
        ["1", "12", "+12", "0012", "0", "", "+", "-3", "3-", "12a", "99999999999999999999999999"];
    for text in texts {
        assert_eq!(parse_parallel_jobs(text).ok(), std_jobs(text), "{:?}", text);
    }
}

#[test]
fn complete_settings_are_taken() {
    let config = match Config::from_values(
        some("deleted.log"),
        some("inventory.json"),
        some("eu-west-1"),
        some("default"),
        some("my-vault"),
        some("8"),
    ) {
        Ok(config) => config,
        Err(e) => panic!("unexpected {:?}", e),
    };
    assert_eq!(config.deleted_path, "deleted.log");
    assert_eq!(config.inventory_path, "inventory.json");
    assert_eq!(config.region, "eu-west-1");
    assert_eq!(config.profile, "default");
    assert_eq!(config.vault_name, "my-vault");
    assert_eq!(config.parallel_jobs, 8);
}

fn problem_of(
    deleted_path: Option<String>,
    inventory_path: Option<String>,
    region: Option<String>,
    profile: Option<String>,
    vault_name: Option<String>,
    parallel_jobs: Option<String>,
) -> Option<ConfigError> {
    Config::from_values(deleted_path, inventory_path, region, profile, vault_name, parallel_jobs)
        .err()
}

#[test]
fn each_missing_setting_is_named() {
    assert_eq!(
        problem_of(None, some("i"), some("r"), some("p"), some("v"), some("2")),
        Some(ConfigError::Missing(Setting::DeletedPath))
    );
    assert_eq!(
        problem_of(some("d"), None, some("r"), some("p"), some("v"), some("2")),
        Some(ConfigError::Missing(Setting::InventoryPath))
    );
    assert_eq!(
        problem_of(some("d"), some("i"), None, some("p"), some("v"), some("2")),
        Some(ConfigError::Missing(Setting::Region))
    );
    assert_eq!(
        problem_of(some("d"), some("i"), some("r"), None, some("v"), some("2")),
        Some(ConfigError::Missing(Setting::Profile))
    );
    assert_eq!(
        problem_of(some("d"), some("i"), some("r"), some("p"), None, some("2")),
        Some(ConfigError::Missing(Setting::VaultName))
    );
    assert_eq!(
        problem_of(some("d"), some("i"), some("r"), some("p"), some("v"), None),
        Some(ConfigError::Missing(Setting::ParallelJobs))
    );
}

#[test]
fn first_missing_setting_wins() {
    assert_eq!(
        problem_of(None, None, None, None, None, None),
        Some(ConfigError::Missing(Setting::DeletedPath))
    );
    assert_eq!(
        problem_of(some("d"), some("i"), None, some("p"), None, some("zero")),
        Some(ConfigError::Missing(Setting::Region))
    );
}

#[test]
fn malformed_parallel_jobs_is_refused() {
    for text in ["0", "-2", "two", ""] {
        assert_eq!(
            problem_of(some("d"), some("i"), some("r"), some("p"), some("v"), some(text)),
            Some(ConfigError::InvalidParallelJobs)
        );
    }
}

#[test]
fn settings_have_their_variable_names() {
    assert_eq!(Setting::DeletedPath.env_name(), "DELETED_PATH");
    assert_eq!(Setting::InventoryPath.env_name(), "INVENTORY_PATH");
    assert_eq!(Setting::Region.env_name(), "REGION");
    assert_eq!(Setting::Profile.env_name(), "PROFILE");
    assert_eq!(Setting::VaultName.env_name(), "VAULT_NAME");
    assert_eq!(Setting::ParallelJobs.env_name(), "PARALLEL_JOBS");
}

#[test]
fn errors_have_their_messages() {
    assert_eq!(ConfigError::Missing(Setting::Region).message(), "REGION must be set");
    assert_eq!(ConfigError::Missing(Setting::VaultName).message(), "VAULT_NAME must be set");
    assert_eq!(
        ConfigError::InvalidParallelJobs.message(),
        "PARALLEL_JOBS must be a valid number"
    );
}
