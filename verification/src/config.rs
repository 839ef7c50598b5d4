//! The configuration: defaults, and the values a `snitch.toml` table sets.

use vstd::prelude::*;
use crate::text::{
    lemma_parse_unsigned_in_range,
    parse_unsigned,
    parse_usize,
    str_equal,
    string_option_view,
};

verus! {

/// Declares `toml::de::Error`, the error of a text that is no TOML table.
#[verifier::external_type_specification]
#[verifier::external_body]
pub struct ExTomlError(toml::de::Error);

/// The entries of the table that `toml::from_str` reads from `text`, in the order the
/// table yields them, each with its value's text when that value is a TOML string;
/// `None` when `text` is no TOML table.
pub uninterp spec fn toml_table_entries(text: Seq<char>) -> Option<
    Seq<(Seq<char>, Option<Seq<char>>)>,
>;

/// The entries as character sequences.
pub open spec fn entries_view(entries: Seq<(String, Option<String>)>) -> Seq<
    (Seq<char>, Option<Seq<char>>),
> {
    entries.map_values(|e: (String, Option<String>)| (e.0@, string_option_view(e.1)))
}

/// Reads `text` as a TOML table with `toml::from_str::<toml::Table>` and lists its
/// entries, keeping a value's text only when it is a TOML string. Claimed: it
/// succeeds exactly when `toml_table_entries` has entries for the text, and gives
/// those entries. Which text is a table, and its entries, are left to `toml`.
#[verifier::external_body]
fn read_toml_table(text: &str) -> (res: Result<Vec<(String, Option<String>)>, toml::de::Error>)
    ensures
        res is Ok <==> toml_table_entries(text@) is Some,
        res matches Ok(entries) ==> entries_view(entries@) == toml_table_entries(text@)->0,
{
    let table: toml::Table = match toml::from_str(text) {
        Ok(table) => table,
        Err(e) => return Err(e),
    };
    let mut entries = Vec::new();
    for (key, value) in table {
        entries.push((key, match value { toml::Value::String(s) => Some(s), _ => None }));
    }
    Ok(entries)
}

/// The settings of a run.
#[derive(Clone, Debug)]
pub struct Config {
    pub total_threads: usize,
    pub prefix: String,
    pub issues_per_request: String,
    pub owner: String,
    pub repo: String,
    pub token: String,
    pub base_tracker_url: String,
}

/// The settings as character sequences.
pub struct ConfigModel {
    pub total_threads: usize,
    pub prefix: Seq<char>,
    pub issues_per_request: Seq<char>,
    pub owner: Seq<char>,
    pub repo: Seq<char>,
    pub token: Seq<char>,
    pub base_tracker_url: Seq<char>,
}

impl View for Config {
    type V = ConfigModel;

    open spec fn view(&self) -> ConfigModel {
        ConfigModel {
            total_threads: self.total_threads,
            prefix: self.prefix@,
            issues_per_request: self.issues_per_request@,
            owner: self.owner@,
            repo: self.repo@,
            token: self.token@,
            base_tracker_url: self.base_tracker_url@,
        }
    }
}

/// The settings when nothing is configured: ten threads, prefix `TODO`, ten issues
/// per request, and empty owner, repo, token and tracker url.
pub open spec fn default_config() -> ConfigModel {
    ConfigModel {
        total_threads: 10,
        prefix: "TODO"@,
        issues_per_request: "10"@,
        owner: Seq::empty(),
        repo: Seq::empty(),
        token: Seq::empty(),
        base_tracker_url: Seq::empty(),
    }
}

impl Default for Config {
    fn default() -> (c: Self)
        ensures
            c@ == default_config(),
    {
        Config {
            total_threads: 10,
            prefix: String::from_str("TODO"),
            issues_per_request: String::from_str("10"),
            owner: String::new(),
            repo: String::new(),
            token: String::new(),
            base_tracker_url: String::new(),
        }
    }
}

/// Whether an entry can be applied: its value is a string, and a thread count is a
/// number that fits a `usize`.
pub open spec fn entry_valid(entry: (Seq<char>, Option<Seq<char>>)) -> bool {
    &&& entry.1 is Some
    &&& entry.0 == "total_threads"@ ==> parse_unsigned(entry.1->0, usize::MAX as int) is Some
}

/// Whether every entry can be applied.
pub open spec fn entries_valid(entries: Seq<(Seq<char>, Option<Seq<char>>)>) -> bool {
    forall|i: int| 0 <= i < entries.len() ==> entry_valid(#[trigger] entries[i])
}

/// Whether a key names a setting.
pub open spec fn is_known_key(key: Seq<char>) -> bool {
    key == "total_threads"@ || key == "prefix"@ || key == "owner"@ || key == "repo"@ || key
        == "token"@ || key == "issues_per_request"@ || key == "base_tracker_url"@
}

/// The settings after one entry: the setting its key names takes its value; an
/// unknown key changes nothing.
pub open spec fn apply_entry(c: ConfigModel, key: Seq<char>, value: Seq<char>) -> ConfigModel {
    if key == "total_threads"@ {
        ConfigModel {
            total_threads: parse_unsigned(value, usize::MAX as int)->0 as usize,
            ..c
        }
    } else if key == "prefix"@ {
        ConfigModel { prefix: value, ..c }
    } else if key == "owner"@ {
        ConfigModel { owner: value, ..c }
    } else if key == "repo"@ {
        ConfigModel { repo: value, ..c }
    } else if key == "token"@ {
        ConfigModel { token: value, ..c }
    } else if key == "issues_per_request"@ {
        ConfigModel { issues_per_request: value, ..c }
    } else if key == "base_tracker_url"@ {
        ConfigModel { base_tracker_url: value, ..c }
    } else {
        c
    }
}

/// The settings after the first `n` entries, in order, starting from `c`.
pub open spec fn apply_entries(
    c: ConfigModel,
    entries: Seq<(Seq<char>, Option<Seq<char>>)>,
    n: int,
) -> ConfigModel
    decreases n,
{
    if n <= 0 {
        c
    } else {
        let e = entries[n - 1];
        apply_entry(apply_entries(c, entries, n - 1), e.0, e.1->0)
    }
}

/// The value of the last of the first `n` entries whose key is `key`, if any.
pub open spec fn last_value(
    entries: Seq<(Seq<char>, Option<Seq<char>>)>,
    key: Seq<char>,
    n: int,
) -> Option<Seq<char>>
    decreases n,
{
    if n <= 0 {
        None
    } else if entries[n - 1].0 == key {
        entries[n - 1].1
    } else {
        last_value(entries, key, n - 1)
    }
}

/// The text a setting ends up with: the value of the last entry that names it, or its
/// default when none does.
pub open spec fn setting(
    entries: Seq<(Seq<char>, Option<Seq<char>>)>,
    key: Seq<char>,
    default: Seq<char>,
    n: int,
) -> Seq<char> {
    match last_value(entries, key, n) {
        Some(v) => v,
        None => default,
    }
}

/// Each setting is set by the last entry that names it, whatever came before, and
/// keeps its default when no entry names it; the thread count is the number that
/// last entry spells.
pub proof fn lemma_settings_from_last_entry(entries: Seq<(Seq<char>, Option<Seq<char>>)>, n: int)
    requires
        0 <= n <= entries.len(),
        entries_valid(entries),
    ensures
        ({
            let c = apply_entries(default_config(), entries, n);
            &&& c.prefix == setting(entries, "prefix"@, "TODO"@, n)
            &&& c.owner == setting(entries, "owner"@, Seq::empty(), n)
            &&& c.repo == setting(entries, "repo"@, Seq::empty(), n)
            &&& c.token == setting(entries, "token"@, Seq::empty(), n)
            &&& c.issues_per_request == setting(entries, "issues_per_request"@, "10"@, n)
            &&& c.base_tracker_url == setting(entries, "base_tracker_url"@, Seq::empty(), n)
            &&& c.total_threads == match last_value(entries, "total_threads"@, n) {
                Some(v) => parse_unsigned(v, usize::MAX as int)->0,
                None => 10,
            }
        }),
    decreases n,
{
    reveal_strlit("prefix");
    reveal_strlit("owner");
    reveal_strlit("repo");
    reveal_strlit("token");
    reveal_strlit("issues_per_request");
    reveal_strlit("base_tracker_url");
    reveal_strlit("total_threads");
    assert("prefix"@.len() == 6 && "owner"@.len() == 5 && "repo"@.len() == 4 && "token"@.len()
        == 5 && "issues_per_request"@.len() == 18 && "base_tracker_url"@.len() == 16
        && "total_threads"@.len() == 13);
    assert("owner"@[0] != "token"@[0]);
    if n > 0 {
        lemma_settings_from_last_entry(entries, n - 1);
        assert(entry_valid(entries[n - 1]));
        if entries[n - 1].0 == "total_threads"@ {
            lemma_parse_unsigned_in_range(entries[n - 1].1->0, usize::MAX as int);
        }
    }
}

/// Applies the entries of a configuration table, in order, to the defaults.
pub fn parse_config(entries: Vec<(String, Option<String>)>) -> (c: Config)
    requires
        entries_valid(entries_view(entries@)),
    ensures
        c@ == apply_entries(
            default_config(),
            entries_view(entries@),
            entries@.len() as int,
        ),
        c@.prefix == setting(entries_view(entries@), "prefix"@, "TODO"@, entries@.len() as int),
        c@.owner == setting(entries_view(entries@), "owner"@, Seq::empty(), entries@.len() as int),
        c@.repo == setting(entries_view(entries@), "repo"@, Seq::empty(), entries@.len() as int),
        c@.token == setting(entries_view(entries@), "token"@, Seq::empty(), entries@.len() as int),
        c@.issues_per_request == setting(
            entries_view(entries@),
            "issues_per_request"@,
            "10"@,
            entries@.len() as int,
        ),
        c@.base_tracker_url == setting(
            entries_view(entries@),
            "base_tracker_url"@,
            Seq::empty(),
            entries@.len() as int,
        ),
{
    let mut config = Config::default();
    let n = entries.len();
    let mut i: usize = 0;
    while i < n
        invariant
            n == entries@.len(),
            0 <= i <= n,
            entries_valid(entries_view(entries@)),
            config@ == apply_entries(default_config(), entries_view(entries@), i as int),
        decreases n - i,
    {
        let key = entries[i].0.as_str();
        let value = match &entries[i].1 {
            Some(v) => v.clone(),
            None => String::new(),
        };
        proof {
            assert(entry_valid(entries_view(entries@)[i as int]));
            assert(entries_view(entries@)[i as int] == (key@, Some(value@)));
        }
        if str_equal(key, "total_threads") {
            match parse_usize(value.as_str()) {
                Some(v) => {
                    config.total_threads = v;
                },
                None => {},
            }
        } else if str_equal(key, "prefix") {
            config.prefix = value;
        } else if str_equal(key, "owner") {
            config.owner = value;
        } else if str_equal(key, "repo") {
            config.repo = value;
        } else if str_equal(key, "token") {
            config.token = value;
        } else if str_equal(key, "issues_per_request") {
            config.issues_per_request = value;
        } else if str_equal(key, "base_tracker_url") {
            config.base_tracker_url = value;
        }
        i = i + 1;
    }
    proof {
        lemma_settings_from_last_entry(entries_view(entries@), n as int);
    }
    config
}


/// Why a configuration text cannot be applied.
#[derive(Debug)]
pub enum ConfigError {
    /// The text is no TOML table.
    InvalidToml,
    /// The value of `key` is not a string.
    NotAString { key: String },
    /// The thread count `value` is no number that fits a `usize`.
    InvalidThreadCount { value: String },
}

/// The index of the first entry, from `i` on, that cannot be applied.
pub open spec fn first_invalid_from(entries: Seq<(Seq<char>, Option<Seq<char>>)>, i: int) -> Option<
    int,
>
    decreases entries.len() - i,
{
    if i < 0 || i >= entries.len() {
        None
    } else if !entry_valid(entries[i]) {
        Some(i)
    } else {
        first_invalid_from(entries, i + 1)
    }
}

/// Whether `e` reports what is wrong with `entry`.
pub open spec fn reports_entry(e: ConfigError, entry: (Seq<char>, Option<Seq<char>>)) -> bool {
    match e {
        ConfigError::NotAString { key } => entry.1 is None && key@ == entry.0,
        ConfigError::InvalidThreadCount { value } => entry.1 is Some && value@ == entry.1->0,
        ConfigError::InvalidToml => false,
    }
}

proof fn lemma_first_invalid_from(entries: Seq<(Seq<char>, Option<Seq<char>>)>, i: int)
    requires
        0 <= i <= entries.len(),
    ensures
        first_invalid_from(entries, i) is None <==> forall|j: int|
            i <= j < entries.len() ==> entry_valid(#[trigger] entries[j]),
        first_invalid_from(entries, i) matches Some(k) ==> i <= k < entries.len() && !entry_valid(
            entries[k],
        ),
    decreases entries.len() - i,
{
    if i < entries.len() {
        lemma_first_invalid_from(entries, i + 1);
    }
}

/// The index of the first entry that cannot be applied.
fn find_invalid_entry(entries: &Vec<(String, Option<String>)>) -> (res: Option<usize>)
    ensures
        match res {
            Some(i) => first_invalid_from(entries_view(entries@), 0) == Some(i as int),
            None => first_invalid_from(entries_view(entries@), 0) is None,
        },
{
    let n = entries.len();
    let mut i: usize = 0;
    while i < n
        invariant
            n == entries@.len(),
            0 <= i <= n,
            first_invalid_from(entries_view(entries@), 0) == first_invalid_from(
                entries_view(entries@),
                i as int,
            ),
        decreases n - i,
    {
        let ghost entry = entries_view(entries@)[i as int];
        let valid = match &entries[i].1 {
            None => false,
            Some(value) => {
                if str_equal(entries[i].0.as_str(), "total_threads") {
                    parse_usize(value.as_str()).is_some()
                } else {
                    true
                }
            },
        };
        proof {
            assert(entry == (entries[i as int].0@, string_option_view(entries[i as int].1)));
            assert(valid == entry_valid(entry));
        }
        if !valid {
            return Some(i);
        }
        i = i + 1;
    }
    None
}

/// The error that reports one entry that cannot be applied.
fn entry_error(entry: &(String, Option<String>)) -> (e: ConfigError)
    requires
        !entry_valid((entry.0@, string_option_view(entry.1))),
    ensures
        reports_entry(e, (entry.0@, string_option_view(entry.1))),
{
    match &entry.1 {
        None => ConfigError::NotAString { key: entry.0.clone() },
        Some(value) => ConfigError::InvalidThreadCount { value: value.clone() },
    }
}

/// The settings for a run. `contents` is the text of the configuration file, `None`
/// when there is none: then the defaults hold. Otherwise the text must be a TOML table
/// whose entries apply one by one to the defaults; the first entry that cannot be
/// applied, or a text that is no table, gives the error.
pub fn init(contents: Option<&str>) -> (res: Result<Config, ConfigError>)
    ensures
        match contents {
            None => res matches Ok(c) && c@ == default_config(),
            Some(text) => match toml_table_entries(text@) {
                None => res matches Err(ConfigError::InvalidToml),
                Some(entries) => if entries_valid(entries) {
                    res matches Ok(c) && c@ == apply_entries(
                        default_config(),
                        entries,
                        entries.len() as int,
                    )
                } else {
                    res matches Err(e) && reports_entry(
                        e,
                        entries[first_invalid_from(entries, 0)->0],
                    )
                },
            },
        },
{
    let text = match contents {
        None => return Ok(Config::default()),
        Some(text) => text,
    };
    let entries = match read_toml_table(text) {
        Ok(entries) => entries,
        Err(_) => return Err(ConfigError::InvalidToml),
    };
    proof {
        lemma_first_invalid_from(entries_view(entries@), 0);
    }
    match find_invalid_entry(&entries) {
        Some(i) => Err(entry_error(&entries[i])),
        None => Ok(parse_config(entries)),
    }
}

/// The keys of the first `n` entries that name no setting, in order.
pub open spec fn unknown_keys(entries: Seq<(Seq<char>, Option<Seq<char>>)>, n: int) -> Seq<
    Seq<char>,
>
    decreases n,
{
    if n <= 0 {
        Seq::empty()
    } else if is_known_key(entries[n - 1].0) {
        unknown_keys(entries, n - 1)
    } else {
        unknown_keys(entries, n - 1).push(entries[n - 1].0)
    }
}

/// The keys of a configuration text that name no setting, up to the first entry that
/// cannot be applied: those that applying the text passes over. None for a text that
/// is no TOML table.
pub fn unrecognized_keys(contents: &str) -> (res: Vec<String>)
    ensures
        res.deep_view() == match toml_table_entries(contents@) {
            None => Seq::empty(),
            Some(entries) => unknown_keys(
                entries,
                match first_invalid_from(entries, 0) {
                    Some(k) => k,
                    None => entries.len() as int,
                },
            ),
        },
{
    let mut res: Vec<String> = Vec::new();
    let entries = match read_toml_table(contents) {
        Ok(entries) => entries,
        Err(_) => {
            proof {
                assert(res.deep_view() =~= Seq::<Seq<char>>::empty());
            }
            return res;
        },
    };
    proof {
        lemma_first_invalid_from(entries_view(entries@), 0);
    }
    let end = match find_invalid_entry(&entries) {
        Some(k) => k,
        None => entries.len(),
    };
    let mut i: usize = 0;
    proof {
        assert(res.deep_view() =~= Seq::<Seq<char>>::empty());
    }
    while i < end
        invariant
            end <= entries@.len(),
            0 <= i <= end,
            res.deep_view() == unknown_keys(entries_view(entries@), i as int),
        decreases end - i,
    {
        let key = entries[i].0.as_str();
        let known = str_equal(key, "total_threads") || str_equal(key, "prefix") || str_equal(
            key,
            "owner",
        ) || str_equal(key, "repo") || str_equal(key, "token") || str_equal(
            key,
            "issues_per_request",
        ) || str_equal(key, "base_tracker_url");
        proof {
            assert(entries_view(entries@)[i as int].0 == key@);
        }
        if !known {
            let ghost before = res.deep_view();
            res.push(String::from_str(key));
            proof {
                assert(res.deep_view() =~= before.push(key@));
            }
        }
        i = i + 1;
    }
    res
}

} // verus!
