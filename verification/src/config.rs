//! The configuration: what a YAML document sets, and the defaults.

use vstd::prelude::*;

use yaml_rust::{Yaml, YamlLoader};

use crate::timing::text_view;

verus! {

/// The colours of the screen, the log file, and how much of it to show.
#[derive(Debug)]
pub struct Config {
    pub temp_low: String,
    pub temp_medium: String,
    pub temp_high: String,
    pub temp_critical: String,
    pub power: String,
    pub memory: String,
    pub util_low: String,
    pub util_medium: String,
    pub util_high: String,
    pub title: String,
    pub bar_empty: String,
    pub log_file: Option<String>,
    pub log_lines: usize,
    pub log_height: usize,
}

/// What a configuration file sets, by field.
#[derive(Debug)]
pub struct Settings {
    pub temp_low: Option<String>,
    pub temp_medium: Option<String>,
    pub temp_high: Option<String>,
    pub temp_critical: Option<String>,
    pub power: Option<String>,
    pub memory: Option<String>,
    pub util_low: Option<String>,
    pub util_medium: Option<String>,
    pub util_high: Option<String>,
    pub title: Option<String>,
    pub bar_empty: Option<String>,
    pub log_file: Option<String>,
    pub log_lines: Option<i64>,
    pub log_height: Option<i64>,
}

// ---- YAML -----------------------------------------------------------------

/// `yaml_rust::Yaml`: a YAML node.
#[verifier::external_type_specification]
#[verifier::external_body]
pub struct ExYaml(Yaml);

/// The entries of a YAML mapping whose keys and values are strings. A node
/// that is no mapping has none.
pub uninterp spec fn yaml_texts(doc: Yaml) -> Map<Seq<char>, Seq<char>>;

/// The entries of a YAML mapping whose keys are strings and whose values are
/// integers. A node that is no mapping has none.
pub uninterp spec fn yaml_integers(doc: Yaml) -> Map<Seq<char>, i64>;

/// The string entries and the integer entries of each document of a YAML
/// stream; none where the stream is not well-formed.
pub uninterp spec fn yaml_documents(content: Seq<char>) -> Option<
    Seq<(Map<Seq<char>, Seq<char>>, Map<Seq<char>, i64>)>,
>;

/// The string entries and the integer entries of some documents.
pub open spec fn document_entries(docs: Seq<Yaml>) -> Seq<
    (Map<Seq<char>, Seq<char>>, Map<Seq<char>, i64>),
> {
    Seq::new(docs.len(), |i: int| (yaml_texts(docs[i]), yaml_integers(docs[i])))
}

/// `yaml_rust::YamlLoader::load_from_str`: the documents of a YAML stream, or
/// none where it reports a scan error. What a stream holds is named, not
/// described. Nested blocks take stack, which nothing here bounds.
#[verifier::external_body]
fn load_documents(content: &str) -> (r: Option<Vec<Yaml>>)
    ensures
        yaml_documents(content@) == match r {
            Some(docs) => Some(document_entries(docs@)),
            None => None,
        },
{
    YamlLoader::load_from_str(content).ok()
}

/// `yaml_rust::Yaml` indexed by a string, read by `as_str`: the value of the
/// string entry with that key.
#[verifier::external_body]
fn text_at(doc: &Yaml, key: &str) -> (r: Option<String>)
    ensures
        text_view(r) == entry(yaml_texts(*doc), key@),
{
    doc[key].as_str().map(|text| text.to_string())
}

/// `yaml_rust::Yaml` indexed by a string, read by `as_i64`: the value of the
/// integer entry with that key.
#[verifier::external_body]
fn integer_at(doc: &Yaml, key: &str) -> (r: Option<i64>)
    ensures
        r == entry(yaml_integers(*doc), key@),
{
    doc[key].as_i64()
}

/// The value of a key in a map, where it has one.
pub open spec fn entry<V>(map: Map<Seq<char>, V>, key: Seq<char>) -> Option<V> {
    if map.dom().contains(key) {
        Some(map[key])
    } else {
        None
    }
}

// ---- settings -------------------------------------------------------------

/// `settings` is what a document with these entries sets.
pub open spec fn sets(
    texts: Map<Seq<char>, Seq<char>>,
    integers: Map<Seq<char>, i64>,
    settings: Settings,
) -> bool {
    &&& text_view(settings.temp_low) == entry(texts, "temp_low"@)
    &&& text_view(settings.temp_medium) == entry(texts, "temp_medium"@)
    &&& text_view(settings.temp_high) == entry(texts, "temp_high"@)
    &&& text_view(settings.temp_critical) == entry(texts, "temp_critical"@)
    &&& text_view(settings.power) == entry(texts, "power"@)
    &&& text_view(settings.memory) == entry(texts, "memory"@)
    &&& text_view(settings.util_low) == entry(texts, "util_low"@)
    &&& text_view(settings.util_medium) == entry(texts, "util_medium"@)
    &&& text_view(settings.util_high) == entry(texts, "util_high"@)
    &&& text_view(settings.title) == entry(texts, "title"@)
    &&& text_view(settings.bar_empty) == entry(texts, "bar_empty"@)
    &&& text_view(settings.log_file) == entry(texts, "log_file"@)
    &&& settings.log_lines == entry(integers, "log_lines"@)
    &&& settings.log_height == entry(integers, "log_height"@)
}

/// A text that is set, or the default.
pub open spec fn text_or(text: Option<String>, default: Seq<char>) -> Seq<char> {
    match text {
        Some(t) => t@,
        None => default,
    }
}

/// A count that is set, cut to the width of a count, or the default.
pub open spec fn count_or(count: Option<i64>, default: usize) -> usize {
    match count {
        Some(n) => n as usize,
        None => default,
    }
}

/// `config` has what `settings` sets, and defaults for the rest.
pub open spec fn configured(settings: Settings, config: Config) -> bool {
    &&& config.temp_low@ == text_or(settings.temp_low, "Cyan"@)
    &&& config.temp_medium@ == text_or(settings.temp_medium, "Green"@)
    &&& config.temp_high@ == text_or(settings.temp_high, "Yellow"@)
    &&& config.temp_critical@ == text_or(settings.temp_critical, "Red"@)
    &&& config.power@ == text_or(settings.power, "Green"@)
    &&& config.memory@ == text_or(settings.memory, "Cyan"@)
    &&& config.util_low@ == text_or(settings.util_low, "Green"@)
    &&& config.util_medium@ == text_or(settings.util_medium, "Yellow"@)
    &&& config.util_high@ == text_or(settings.util_high, "Red"@)
    &&& config.title@ == text_or(settings.title, "Cyan"@)
    &&& config.bar_empty@ == text_or(settings.bar_empty, "DarkGrey"@)
    &&& text_view(config.log_file) == text_view(settings.log_file)
    &&& config.log_lines == count_or(settings.log_lines, 10)
    &&& config.log_height == count_or(settings.log_height, 10)
}

/// Nothing is set.
pub open spec fn unset() -> Settings {
    Settings {
        temp_low: None,
        temp_medium: None,
        temp_high: None,
        temp_critical: None,
        power: None,
        memory: None,
        util_low: None,
        util_medium: None,
        util_high: None,
        title: None,
        bar_empty: None,
        log_file: None,
        log_lines: None,
        log_height: None,
    }
}

/// The string entries and the integer entries of the first document of a YAML
/// stream; none where it has no document or is not well-formed.
pub open spec fn first_document(content: Seq<char>) -> (
    Map<Seq<char>, Seq<char>>,
    Map<Seq<char>, i64>,
) {
    match yaml_documents(content) {
        Some(docs) => if docs.len() > 0 {
            docs[0]
        } else {
            (Map::empty(), Map::empty())
        },
        None => (Map::empty(), Map::empty()),
    }
}

/// The value of a key in a map, or the default.
pub open spec fn entry_or<V>(map: Map<Seq<char>, V>, key: Seq<char>, default: V) -> V {
    match entry(map, key) {
        Some(value) => value,
        None => default,
    }
}

/// `config` is what a YAML stream configures: what its first document sets,
/// and defaults for the rest.
pub open spec fn configured_by(content: Seq<char>, config: Config) -> bool {
    let (texts, integers) = first_document(content);
    &&& config.temp_low@ == entry_or(texts, "temp_low"@, "Cyan"@)
    &&& config.temp_medium@ == entry_or(texts, "temp_medium"@, "Green"@)
    &&& config.temp_high@ == entry_or(texts, "temp_high"@, "Yellow"@)
    &&& config.temp_critical@ == entry_or(texts, "temp_critical"@, "Red"@)
    &&& config.power@ == entry_or(texts, "power"@, "Green"@)
    &&& config.memory@ == entry_or(texts, "memory"@, "Cyan"@)
    &&& config.util_low@ == entry_or(texts, "util_low"@, "Green"@)
    &&& config.util_medium@ == entry_or(texts, "util_medium"@, "Yellow"@)
    &&& config.util_high@ == entry_or(texts, "util_high"@, "Red"@)
    &&& config.title@ == entry_or(texts, "title"@, "Cyan"@)
    &&& config.bar_empty@ == entry_or(texts, "bar_empty"@, "DarkGrey"@)
    &&& text_view(config.log_file) == entry(texts, "log_file"@)
    &&& config.log_lines == count_or(entry(integers, "log_lines"@), 10)
    &&& config.log_height == count_or(entry(integers, "log_height"@), 10)
}

/// A document with these entries sets nothing: none of them has a key of the
/// configuration.
pub open spec fn sets_nothing(
    texts: Map<Seq<char>, Seq<char>>,
    integers: Map<Seq<char>, i64>,
) -> bool {
    &&& entry(texts, "temp_low"@) is None
    &&& entry(texts, "temp_medium"@) is None
    &&& entry(texts, "temp_high"@) is None
    &&& entry(texts, "temp_critical"@) is None
    &&& entry(texts, "power"@) is None
    &&& entry(texts, "memory"@) is None
    &&& entry(texts, "util_low"@) is None
    &&& entry(texts, "util_medium"@) is None
    &&& entry(texts, "util_high"@) is None
    &&& entry(texts, "title"@) is None
    &&& entry(texts, "bar_empty"@) is None
    &&& entry(texts, "log_file"@) is None
    &&& entry(integers, "log_lines"@) is None
    &&& entry(integers, "log_height"@) is None
}

/// A YAML stream whose first document sets nothing configures the defaults.
pub proof fn law_nothing_set_is_default(content: Seq<char>, config: Config)
    requires
        configured_by(content, config),
        sets_nothing(first_document(content).0, first_document(content).1),
    ensures
        configured(unset(), config),
{
}

fn text_set(doc: Option<&Yaml>, key: &str) -> (r: Option<String>)
    ensures
        doc matches Some(d) ==> text_view(r) == entry(yaml_texts(*d), key@),
        doc is None ==> r is None,
{
    match doc {
        Some(d) => text_at(d, key),
        None => None,
    }
}

fn integer_set(doc: Option<&Yaml>, key: &str) -> (r: Option<i64>)
    ensures
        doc matches Some(d) ==> r == entry(yaml_integers(*d), key@),
        doc is None ==> r is None,
{
    match doc {
        Some(d) => integer_at(d, key),
        None => None,
    }
}

fn set_or(text: Option<String>, default: &str) -> (r: String)
    ensures
        r@ == text_or(text, default@),
{
    match text {
        Some(t) => t,
        None => default.to_string(),
    }
}

fn number_set_or(count: Option<i64>, default: usize) -> (r: usize)
    ensures
        r == count_or(count, default),
{
    match count {
        Some(n) => n as usize,
        None => default,
    }
}

impl Settings {
    /// What a document sets; nothing where there is none.
    fn read(doc: Option<&Yaml>) -> (r: Settings)
        ensures
            doc matches Some(d) ==> sets(yaml_texts(*d), yaml_integers(*d), r),
            doc is None ==> r == unset(),
    {
        Settings {
            temp_low: text_set(doc, "temp_low"),
            temp_medium: text_set(doc, "temp_medium"),
            temp_high: text_set(doc, "temp_high"),
            temp_critical: text_set(doc, "temp_critical"),
            power: text_set(doc, "power"),
            memory: text_set(doc, "memory"),
            util_low: text_set(doc, "util_low"),
            util_medium: text_set(doc, "util_medium"),
            util_high: text_set(doc, "util_high"),
            title: text_set(doc, "title"),
            bar_empty: text_set(doc, "bar_empty"),
            log_file: text_set(doc, "log_file"),
            log_lines: integer_set(doc, "log_lines"),
            log_height: integer_set(doc, "log_height"),
        }
    }
}

impl Config {
    /// What `settings` sets, and defaults for the rest.
    pub fn from_settings(settings: Settings) -> (r: Config)
        ensures
            configured(settings, r),
    {
        Config {
            temp_low: set_or(settings.temp_low, "Cyan"),
            temp_medium: set_or(settings.temp_medium, "Green"),
            temp_high: set_or(settings.temp_high, "Yellow"),
            temp_critical: set_or(settings.temp_critical, "Red"),
            power: set_or(settings.power, "Green"),
            memory: set_or(settings.memory, "Cyan"),
            util_low: set_or(settings.util_low, "Green"),
            util_medium: set_or(settings.util_medium, "Yellow"),
            util_high: set_or(settings.util_high, "Red"),
            title: set_or(settings.title, "Cyan"),
            bar_empty: set_or(settings.bar_empty, "DarkGrey"),
            log_file: settings.log_file,
            log_lines: number_set_or(settings.log_lines, 10),
            log_height: number_set_or(settings.log_height, 10),
        }
    }

    /// What the first document of a YAML stream sets, and defaults for the
    /// rest.
    pub fn from_yaml(content: &str) -> (r: Config)
        ensures
            configured_by(content@, r),
    {
        let docs = match load_documents(content) {
            Some(docs) => docs,
            None => Vec::new(),
        };
        let first = if docs.len() > 0 {
            Some(&docs[0])
        } else {
            None
        };
        let settings = Settings::read(first);
        let ghost set = settings;
        let r = Config::from_settings(settings);
        proof {
            if docs@.len() > 0 {
                let entries = document_entries(docs@);
                assert(sets(entries[0].0, entries[0].1, set));
            }
        }
        r
    }
}

impl Default for Config {
    /// The defaults.
    fn default() -> (r: Config)
        ensures
            configured(unset(), r),
    {
        Config::from_settings(
            Settings {
                temp_low: None,
                temp_medium: None,
                temp_high: None,
                temp_critical: None,
                power: None,
                memory: None,
                util_low: None,
                util_medium: None,
                util_high: None,
                title: None,
                bar_empty: None,
                log_file: None,
                log_lines: None,
                log_height: None,
            },
        )
    }
}

} // verus!
