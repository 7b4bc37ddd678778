//! The settings of a run, and what is wrong with them when one is missing or
//! malformed.

use vstd::prelude::*;

verus! {

/// The settings that a run needs. Each comes from one variable of the
/// environment.
#[derive(Clone, Copy, Debug, PartialEq, Eq, Structural)]
pub enum Setting {
    DeletedPath,
    InventoryPath,
    Region,
    Profile,
    VaultName,
    ParallelJobs,
}

/// Why the settings cannot be used.
#[derive(Clone, Copy, Debug, PartialEq, Eq, Structural)]
pub enum ConfigError {
    /// A setting has no value.
    Missing(Setting),
    /// The number of parallel jobs is not a positive number that fits.
    InvalidParallelJobs,
}

/// The settings of a run, all present and well formed.
#[derive(Clone, Debug)]
pub struct Config {
    /// The place of the completion log.
    pub deleted_path: String,
    /// The place of the inventory document.
    pub inventory_path: String,
    /// The region of the remote service.
    pub region: String,
    /// The credential profile to use.
    pub profile: String,
    /// The vault whose archives are deleted.
    pub vault_name: String,
    /// The cap on the number of deletions in flight; never zero.
    pub parallel_jobs: usize,
}

impl Setting {
    /// The name of the variable that holds the setting.
    pub open spec fn name(self) -> Seq<char> {
        match self {
            Setting::DeletedPath => "DELETED_PATH"@,
            Setting::InventoryPath => "INVENTORY_PATH"@,
            Setting::Region => "REGION"@,
            Setting::Profile => "PROFILE"@,
            Setting::VaultName => "VAULT_NAME"@,
            Setting::ParallelJobs => "PARALLEL_JOBS"@,
        }
    }

    /// The name of the variable that holds the setting.
    pub fn env_name(&self) -> (name: &'static str)
        ensures
            name@ == self.name(),
    {
        match self {
            Setting::DeletedPath => "DELETED_PATH",
            Setting::InventoryPath => "INVENTORY_PATH",
            Setting::Region => "REGION",
            Setting::Profile => "PROFILE",
            Setting::VaultName => "VAULT_NAME",
            Setting::ParallelJobs => "PARALLEL_JOBS",
        }
    }
}

impl ConfigError {
    /// The text that tells a user what is wrong.
    pub open spec fn text(self) -> Seq<char> {
        match self {
            ConfigError::Missing(setting) => setting.name() + " must be set"@,
            ConfigError::InvalidParallelJobs => "PARALLEL_JOBS must be a valid number"@,
        }
    }

    /// The text that tells a user what is wrong.
    pub fn message(&self) -> (message: String)
        ensures
            message@ == self.text(),
    {
        match self {
            ConfigError::Missing(setting) => setting.env_name().to_owned().concat(" must be set"),
            ConfigError::InvalidParallelJobs => "PARALLEL_JOBS must be a valid number".to_owned(),
        }
    }
}

/// Whether a character is a decimal digit.
pub open spec fn is_digit(c: char) -> bool {
    '0' <= c <= '9'
}

/// The number that a sequence of decimal digits writes, most significant
/// digit first. The empty sequence writes zero.
pub open spec fn value_of(digits: Seq<char>) -> nat
    decreases digits.len(),
{
    if digits.len() == 0 {
        0
    } else {
        value_of(digits.drop_last()) * 10 + (digits.last() as nat - '0' as nat) as nat
    }
}

/// A text without the plus sign that may stand in front of a number.
pub open spec fn unsigned_part(text: Seq<char>) -> Seq<char> {
    if text.len() > 0 && text[0] == '+' {
        text.skip(1)
    } else {
        text
    }
}

/// Whether a text is a decimal number: digits only, at least one, with an
/// optional plus sign in front.
pub open spec fn is_number(text: Seq<char>) -> bool {
    let digits = unsigned_part(text);
    digits.len() > 0 && forall|i: int| 0 <= i < digits.len() ==> is_digit(#[trigger] digits[i])
}

/// The number of parallel jobs that a text asks for, where it asks for one:
/// a decimal number, at least one, that fits in `usize`.
pub open spec fn parallel_jobs_of(text: Seq<char>) -> Option<nat> {
    let n = value_of(unsigned_part(text));
    if is_number(text) && 0 < n <= usize::MAX {
        Some(n)
    } else {
        None
    }
}

/// A longer number is not smaller than any of its prefixes.
pub proof fn lemma_value_grows(digits: Seq<char>, k: int)
    requires
        0 <= k <= digits.len(),
        forall|i: int| 0 <= i < digits.len() ==> is_digit(#[trigger] digits[i]),
    ensures
        value_of(digits.take(k)) <= value_of(digits),
    decreases digits.len() - k,
{
    if k < digits.len() {
        lemma_value_grows(digits, k + 1);
        assert(digits.take(k + 1).drop_last() == digits.take(k));
        assert(is_digit(digits[k]));
    } else {
        assert(digits.take(k) == digits);
    }
}

/// Reads the number of parallel jobs.
pub fn parse_parallel_jobs(text: &str) -> (result: Result<usize, ConfigError>)
    ensures
        match result {
            Ok(n) => parallel_jobs_of(text@) == Some(n as nat),
            Err(e) => parallel_jobs_of(text@) is None && e == ConfigError::InvalidParallelJobs,
        },
{
    let ghost digits = unsigned_part(text@);
    let ghost sign = text@.len() - digits.len();
    let mut value: usize = 0;
    let mut any = false;
    let mut first = true;
    for c in it: text.chars()
        invariant
            it.seq() == text@,
            digits == unsigned_part(text@),
            sign == text@.len() - digits.len(),
            first <==> it.index() == 0,
            !first ==> it.index() >= sign,
            !first ==> any == (it.index() - sign > 0),
            first ==> !any && value == 0,
            !first ==> forall|i: int| 0 <= i < it.index() - sign ==> is_digit(#[trigger] digits[i]),
            !first ==> value == value_of(digits.take(it.index() - sign)),
    {
        let ghost at = it.index();
        if first && c == '+' {
            first = false;
            assert(digits.take(0) == Seq::<char>::empty());
        } else {
            first = false;
            assert(digits[at - sign] == c);
            if !(c >= '0' && c <= '9') {
                return Err(ConfigError::InvalidParallelJobs);
            }
            let digit = (c as u32 - '0' as u32) as usize;
            proof {
                assert(digits.take(at - sign + 1).drop_last() == digits.take(at - sign));
                if value * 10 + digit > usize::MAX {
                    assert(value_of(digits.take(at - sign + 1)) > usize::MAX);
                    if is_number(text@) {
                        lemma_value_grows(digits, at - sign + 1);
                    }
                }
            }
            let shifted = match value.checked_mul(10) {
                Some(shifted) => shifted,
                None => { return Err(ConfigError::InvalidParallelJobs); },
            };
            value = match shifted.checked_add(digit) {
                Some(sum) => sum,
                None => { return Err(ConfigError::InvalidParallelJobs); },
            };
            any = true;
        }
    }
    assert(digits.take(digits.len() as int) == digits);
    if any && value > 0 {
        Ok(value)
    } else {
        Err(ConfigError::InvalidParallelJobs)
    }
}

/// The first thing that is wrong with the given values, if anything is. A
/// missing value is found in the order of the parameters; a malformed number
/// of parallel jobs is found last.
pub open spec fn first_problem(
    deleted_path: Option<String>,
    inventory_path: Option<String>,
    region: Option<String>,
    profile: Option<String>,
    vault_name: Option<String>,
    parallel_jobs: Option<String>,
) -> Option<ConfigError> {
    if deleted_path is None {
        Some(ConfigError::Missing(Setting::DeletedPath))
    } else if inventory_path is None {
        Some(ConfigError::Missing(Setting::InventoryPath))
    } else if region is None {
        Some(ConfigError::Missing(Setting::Region))
    } else if profile is None {
        Some(ConfigError::Missing(Setting::Profile))
    } else if vault_name is None {
        Some(ConfigError::Missing(Setting::VaultName))
    } else if parallel_jobs is None {
        Some(ConfigError::Missing(Setting::ParallelJobs))
    } else if parallel_jobs_of(parallel_jobs->0@) is None {
        Some(ConfigError::InvalidParallelJobs)
    } else {
        None
    }
}

impl Config {
    /// Checks the values of the settings, each `None` where the environment
    /// has no value for it. Nothing is read or written before this has
    /// returned `Ok`.
    pub fn from_values(
        deleted_path: Option<String>,
        inventory_path: Option<String>,
        region: Option<String>,
        profile: Option<String>,
        vault_name: Option<String>,
        parallel_jobs: Option<String>,
    ) -> (result: Result<Config, ConfigError>)
        ensures
            match result {
                Ok(config) => {
                    &&& first_problem(
                        deleted_path,
                        inventory_path,
                        region,
                        profile,
                        vault_name,
                        parallel_jobs,
                    ) is None
                    &&& Some(config.deleted_path) == deleted_path
                    &&& Some(config.inventory_path) == inventory_path
                    &&& Some(config.region) == region
                    &&& Some(config.profile) == profile
                    &&& Some(config.vault_name) == vault_name
                    &&& Some(config.parallel_jobs as nat) == parallel_jobs_of(parallel_jobs->0@)
                },
                Err(e) => first_problem(
                    deleted_path,
                    inventory_path,
                    region,
                    profile,
                    vault_name,
                    parallel_jobs,
                ) == Some(e),
            },
    {
        let deleted_path = match deleted_path {
            Some(value) => value,
            None => { return Err(ConfigError::Missing(Setting::DeletedPath)); },
        };
        let inventory_path = match inventory_path {
            Some(value) => value,
            None => { return Err(ConfigError::Missing(Setting::InventoryPath)); },
        };
        let region = match region {
            Some(value) => value,
            None => { return Err(ConfigError::Missing(Setting::Region)); },
        };
        let profile = match profile {
            Some(value) => value,
            None => { return Err(ConfigError::Missing(Setting::Profile)); },
        };
        let vault_name = match vault_name {
            Some(value) => value,
            None => { return Err(ConfigError::Missing(Setting::VaultName)); },
        };
        let jobs_text = match parallel_jobs {
            Some(value) => value,
            None => { return Err(ConfigError::Missing(Setting::ParallelJobs)); },
        };
        let parallel_jobs = match parse_parallel_jobs(jobs_text.as_str()) {
            Ok(n) => n,
            Err(e) => { return Err(e); },
        };
        Ok(Config { deleted_path, inventory_path, region, profile, vault_name, parallel_jobs })
    }
}

} // verus!
