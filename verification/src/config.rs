//! The configuration document: a YAML text that lists the remotes to watch.
//!
//! ```yaml
//! remotes:
//!   - name: Foo Bar
//!     url: https://foo.bar
//!     health:
//!       interval: 5min
//! ```
//!
//! The crate reads no text. Its caller turns the text into values, in one
//! of two ways, and the crate settles what they stand for:
//!
//! - as a list of [`RemoteEntry`] values, which still hold their intervals
//!   as text: [`Config::from_entries`];
//! - as a document of the YAML reader: [`Config::new`], which looks up the
//!   entries in it and goes on as above.
//!
//! A configuration is taken whole or not at all.
//!
//! In a document a field has to hold the kind of value it asks for. A
//! `url`, a `name` or an `interval` that YAML reads as a number or as a
//! truth value, such as `url: 8080`, is rejected: the document no longer
//! holds the text it was written as. A caller that reads the text field by
//! field, and hands in entries, has no such limit.

use crate::duration::{
    Interval,
    ParseError,
    TimeUnit,
    default_interval,
    interval_from_str,
    parse_duration,
};
use crate::health::text_of;
use crate::model::{
    Backend,
    BackendView,
    Configuration,
    HealthCheck,
    HealthCheckMethod,
    HealthCheckView,
    all_schedulable,
};
use crate::url::{split_url, url_parts};
use crate::yaml::{
    member,
    yaml_is_mapping,
    yaml_is_null,
    yaml_items,
    yaml_member,
    yaml_text,
};
use vstd::prelude::*;

verus! {

/// Health check options of a remote.
#[derive(Debug, PartialEq, Eq, Structural, Clone, Copy)]
pub struct HealthCheckConfig {
    /// Time between two checks.
    pub interval: Interval,
}

/// An upstream remote.
#[derive(Debug, Clone)]
pub struct Remote {
    /// Name of the upstream.
    pub name: Option<String>,
    /// URL of the upstream.
    pub url: String,
    /// Health check options; without them the remote is not checked.
    pub health: Option<HealthCheckConfig>,
}

/// The remotes to check.
#[derive(Debug)]
pub struct Config {
    pub remotes: Vec<Remote>,
}

/// The `health` entry of a remote as the document holds it.
#[derive(Debug, Clone)]
pub struct HealthEntry {
    /// The interval as written, if one is.
    pub interval: Option<String>,
}

/// A remote as the document holds it.
#[derive(Debug, Clone)]
pub struct RemoteEntry {
    pub name: Option<String>,
    pub url: String,
    pub health: Option<HealthEntry>,
}

/// A field of a remote in the document.
#[derive(Debug, PartialEq, Eq, Structural, Clone, Copy)]
pub enum RemoteField {
    Name,
    Url,
    Health,
    Interval,
}

/// Why a configuration could not be loaded.
#[derive(Debug)]
pub enum ConfigError {
    /// The source of the text could not be read.
    Io(std::io::Error),
    /// The YAML reader could not read the text.
    Serde(serde_yaml::Error),
    /// The document has no sequence under `remotes`.
    Remotes,
    /// A field of the remote at `position` is missing or is not of the kind
    /// it has to be.
    Field { position: usize, field: RemoteField },
    /// The interval of the remote at `position` is not a duration.
    Interval { position: usize, error: ParseError },
}

#[verifier::external_type_specification]
#[verifier::external_body]
pub struct ExIoError(std::io::Error);

impl From<serde_yaml::Error> for ConfigError {
    /// The error of the YAML reader, as a configuration error.
    fn from(v: serde_yaml::Error) -> (r: ConfigError)
        ensures
            r == ConfigError::Serde(v),
    {
        ConfigError::Serde(v)
    }
}

impl vstd::std_specs::convert::FromSpecImpl<serde_yaml::Error> for ConfigError {
    open spec fn obeys_from_spec() -> bool {
        true
    }

    open spec fn from_spec(v: serde_yaml::Error) -> ConfigError {
        ConfigError::Serde(v)
    }
}

impl From<std::io::Error> for ConfigError {
    /// An error met while the text was fetched, as a configuration error.
    fn from(v: std::io::Error) -> (r: ConfigError)
        ensures
            r == ConfigError::Io(v),
    {
        ConfigError::Io(v)
    }
}

impl vstd::std_specs::convert::FromSpecImpl<std::io::Error> for ConfigError {
    open spec fn obeys_from_spec() -> bool {
        true
    }

    open spec fn from_spec(v: std::io::Error) -> ConfigError {
        ConfigError::Io(v)
    }
}

/// A [`Remote`] as a mathematical value.
pub struct RemoteView {
    pub name: Option<Seq<char>>,
    pub url: Seq<char>,
    pub health: Option<HealthCheckConfig>,
}

/// A [`HealthEntry`] as a mathematical value.
pub struct HealthEntryView {
    pub interval: Option<Seq<char>>,
}

/// A [`RemoteEntry`] as a mathematical value.
pub struct RemoteEntryView {
    pub name: Option<Seq<char>>,
    pub url: Seq<char>,
    pub health: Option<HealthEntryView>,
}

impl View for Remote {
    type V = RemoteView;

    open spec fn view(&self) -> RemoteView {
        RemoteView { name: text_of(self.name), url: self.url@, health: self.health }
    }
}

impl View for Config {
    type V = Seq<RemoteView>;

    open spec fn view(&self) -> Seq<RemoteView> {
        self.remotes@.map_values(|r: Remote| r@)
    }
}

impl View for HealthEntry {
    type V = HealthEntryView;

    open spec fn view(&self) -> HealthEntryView {
        HealthEntryView { interval: text_of(self.interval) }
    }
}

impl View for RemoteEntry {
    type V = RemoteEntryView;

    open spec fn view(&self) -> RemoteEntryView {
        RemoteEntryView {
            name: text_of(self.name),
            url: self.url@,
            health: match self.health {
                Some(h) => Some(h@),
                None => None,
            },
        }
    }
}

/// The views of a list of entries.
pub open spec fn entry_views(entries: Seq<RemoteEntry>) -> Seq<RemoteEntryView> {
    entries.map_values(|e: RemoteEntry| e@)
}

/// The options that a `health` entry stands for. An entry without an
/// interval gets the default one; a written interval has to be a duration.
pub open spec fn health_config_of(entry: HealthEntryView) -> Result<HealthCheckConfig, ParseError> {
    match entry.interval {
        None => Ok(HealthCheckConfig { interval: default_interval() }),
        Some(text) => match parse_duration(text) {
            Ok(interval) => Ok(HealthCheckConfig { interval }),
            Err(error) => Err(error),
        },
    }
}

/// The remote that an entry stands for.
pub open spec fn remote_of(entry: RemoteEntryView) -> Result<RemoteView, ParseError> {
    match entry.health {
        None => Ok(RemoteView { name: entry.name, url: entry.url, health: None }),
        Some(health) => match health_config_of(health) {
            Ok(config) => Ok(RemoteView { name: entry.name, url: entry.url, health: Some(config) }),
            Err(error) => Err(error),
        },
    }
}

/// The remotes that a list of entries stands for, or the error of the first
/// entry whose interval is not a duration.
pub open spec fn remotes_of(entries: Seq<RemoteEntryView>) -> Result<Seq<RemoteView>, ConfigError>
    decreases entries.len(),
{
    if entries.len() == 0 {
        Ok(Seq::empty())
    } else {
        match remotes_of(entries.drop_last()) {
            Err(error) => Err(error),
            Ok(remotes) => match remote_of(entries.last()) {
                Ok(remote) => Ok(remotes.push(remote)),
                Err(error) => Err(
                    ConfigError::Interval { position: (entries.len() - 1) as usize, error },
                ),
            },
        }
    }
}

/// The text under `key` where it may be left out: nothing for a missing key
/// and for a null, and `Err` for anything that is not a string.
pub open spec fn optional_text(node: serde_yaml::Value, key: Seq<char>) -> Result<
    Option<Seq<char>>,
    (),
> {
    match yaml_member(node, key) {
        None => Ok(None),
        Some(found) => if yaml_is_null(found) {
            Ok(None)
        } else {
            match yaml_text(found) {
                Some(text) => Ok(Some(text)),
                None => Err(()),
            }
        },
    }
}

/// The `health` entry of a remote node: nothing for a missing key and for a
/// null, else a mapping whose `interval`, if it has one, is a string.
pub open spec fn health_entry_of(node: serde_yaml::Value) -> Result<
    Option<HealthEntryView>,
    RemoteField,
> {
    match yaml_member(node, "health"@) {
        None => Ok(None),
        Some(found) => if yaml_is_null(found) {
            Ok(None)
        } else if !yaml_is_mapping(found) {
            Err(RemoteField::Health)
        } else {
            match yaml_member(found, "interval"@) {
                None => Ok(Some(HealthEntryView { interval: None })),
                Some(interval) => match yaml_text(interval) {
                    Some(text) => Ok(Some(HealthEntryView { interval: Some(text) })),
                    None => Err(RemoteField::Interval),
                },
            }
        },
    }
}

/// The entry that a remote node holds, or the first field that is amiss,
/// looking at `url`, `name` and `health` in this order. The `url` must be
/// there and be a string.
pub open spec fn entry_of(node: serde_yaml::Value) -> Result<RemoteEntryView, RemoteField> {
    match yaml_member(node, "url"@) {
        None => Err(RemoteField::Url),
        Some(found) => match yaml_text(found) {
            None => Err(RemoteField::Url),
            Some(url) => match optional_text(node, "name"@) {
                Err(_) => Err(RemoteField::Name),
                Ok(name) => match health_entry_of(node) {
                    Err(field) => Err(field),
                    Ok(health) => Ok(RemoteEntryView { name, url, health }),
                },
            },
        },
    }
}

/// The entries that a run of remote nodes holds, or the error of the first
/// node that holds none.
pub open spec fn entries_of(nodes: Seq<serde_yaml::Value>) -> Result<
    Seq<RemoteEntryView>,
    ConfigError,
>
    decreases nodes.len(),
{
    if nodes.len() == 0 {
        Ok(Seq::empty())
    } else {
        match entries_of(nodes.drop_last()) {
            Err(error) => Err(error),
            Ok(entries) => match entry_of(nodes.last()) {
                Ok(entry) => Ok(entries.push(entry)),
                Err(field) => Err(
                    ConfigError::Field { position: (nodes.len() - 1) as usize, field },
                ),
            },
        }
    }
}

/// The entries of a document: those of the sequence under `remotes`.
pub open spec fn document_entries(document: serde_yaml::Value) -> Result<
    Seq<RemoteEntryView>,
    ConfigError,
> {
    match yaml_member(document, "remotes"@) {
        None => Err(ConfigError::Remotes),
        Some(found) => match yaml_items(found) {
            None => Err(ConfigError::Remotes),
            Some(nodes) => entries_of(nodes),
        },
    }
}

/// The remotes of a document.
pub open spec fn document_remotes(document: serde_yaml::Value) -> Result<
    Seq<RemoteView>,
    ConfigError,
> {
    match document_entries(document) {
        Err(error) => Err(error),
        Ok(entries) => remotes_of(entries),
    }
}

/// Whether a loaded configuration, or the error in its place, is the one
/// expected.
pub open spec fn is_outcome(
    r: Result<Config, ConfigError>,
    expected: Result<Seq<RemoteView>, ConfigError>,
) -> bool {
    match r {
        Ok(config) => expected == Ok::<Seq<RemoteView>, ConfigError>(config@),
        Err(error) => expected == Err::<Seq<RemoteView>, ConfigError>(error),
    }
}

/// Every remote that is checked has a positive interval.
pub open spec fn intervals_positive(remotes: Seq<RemoteView>) -> bool {
    forall|i: int|
        0 <= i < remotes.len() ==> match (#[trigger] remotes[i]).health {
            Some(health) => health.interval.wf(),
            None => true,
        }
}

fn clone_text(text: &Option<String>) -> (r: Option<String>)
    ensures
        text_of(r) == text_of(*text),
{
    match text {
        Some(s) => Some(s.clone()),
        None => None,
    }
}

fn read_optional_text(node: &serde_yaml::Value, key: &str) -> (r: Result<Option<String>, ()>)
    ensures
        match r {
            Ok(text) => optional_text(*node, key@) == Ok::<Option<Seq<char>>, ()>(text_of(text)),
            Err(_) => optional_text(*node, key@) is Err,
        },
{
    match member(node, key) {
        None => Ok(None),
        Some(found) => {
            if found.is_null() {
                Ok(None)
            } else {
                match found.as_str() {
                    Some(text) => Ok(Some(text.to_owned())),
                    None => Err(()),
                }
            }
        },
    }
}

impl Default for HealthCheckConfig {
    /// Options with the default interval.
    fn default() -> (r: Self)
        ensures
            r == (HealthCheckConfig { interval: default_interval() }),
    {
        HealthCheckConfig { interval: Interval::default() }
    }
}

impl HealthCheckConfig {
    /// Settles the options of a `health` entry: the written interval, read
    /// as a duration, or thirty seconds where none is written.
    pub fn from_entry(entry: &HealthEntry) -> (r: Result<HealthCheckConfig, ParseError>)
        ensures
            r == health_config_of(entry@),
            (r matches Ok(config) ==> config.interval.wf()),
    {
        match &entry.interval {
            None => Ok(HealthCheckConfig { interval: Interval::default() }),
            Some(text) => match interval_from_str(text.as_str()) {
                Ok(interval) => Ok(HealthCheckConfig { interval }),
                Err(error) => Err(error),
            },
        }
    }
}

impl HealthEntry {
    /// Reads the `health` entry of a remote node.
    pub fn from_node(node: &serde_yaml::Value) -> (r: Result<Option<HealthEntry>, RemoteField>)
        ensures
            match r {
                Ok(Some(entry)) => health_entry_of(*node) == Ok::<
                    Option<HealthEntryView>,
                    RemoteField,
                >(Some(entry@)),
                Ok(None) => health_entry_of(*node) == Ok::<Option<HealthEntryView>, RemoteField>(
                    None,
                ),
                Err(field) => health_entry_of(*node) == Err::<Option<HealthEntryView>, RemoteField>(
                    field,
                ),
            },
    {
        match member(node, "health") {
            None => Ok(None),
            Some(found) => {
                if found.is_null() {
                    Ok(None)
                } else if !found.is_mapping() {
                    Err(RemoteField::Health)
                } else {
                    match member(found, "interval") {
                        None => Ok(Some(HealthEntry { interval: None })),
                        Some(interval) => match interval.as_str() {
                            Some(text) => Ok(Some(HealthEntry { interval: Some(text.to_owned()) })),
                            None => Err(RemoteField::Interval),
                        },
                    }
                }
            },
        }
    }
}

impl RemoteEntry {
    /// Reads one remote node.
    pub fn from_node(node: &serde_yaml::Value) -> (r: Result<RemoteEntry, RemoteField>)
        ensures
            match r {
                Ok(entry) => entry_of(*node) == Ok::<RemoteEntryView, RemoteField>(entry@),
                Err(field) => entry_of(*node) == Err::<RemoteEntryView, RemoteField>(field),
            },
    {
        let url = match member(node, "url") {
            None => { return Err(RemoteField::Url); },
            Some(found) => match found.as_str() {
                None => { return Err(RemoteField::Url); },
                Some(text) => text.to_owned(),
            },
        };
        let name = match read_optional_text(node, "name") {
            Err(_) => { return Err(RemoteField::Name); },
            Ok(name) => name,
        };
        match HealthEntry::from_node(node) {
            Err(field) => Err(field),
            Ok(health) => Ok(RemoteEntry { name, url, health }),
        }
    }

    /// Reads the remotes of a document, in their order.
    pub fn read_all(document: &serde_yaml::Value) -> (r: Result<Vec<RemoteEntry>, ConfigError>)
        ensures
            match r {
                Ok(entries) => document_entries(*document) == Ok::<
                    Seq<RemoteEntryView>,
                    ConfigError,
                >(entry_views(entries@)),
                Err(error) => document_entries(*document) == Err::<
                    Seq<RemoteEntryView>,
                    ConfigError,
                >(error),
            },
    {
        let nodes = match member(document, "remotes") {
            None => { return Err(ConfigError::Remotes); },
            Some(found) => match found.as_sequence() {
                None => { return Err(ConfigError::Remotes); },
                Some(nodes) => nodes,
            },
        };
        let mut entries: Vec<RemoteEntry> = Vec::new();
        let mut i: usize = 0;
        assert(entry_views(entries@) =~= Seq::empty());
        while i < nodes.len()
            invariant
                i <= nodes@.len(),
                document_entries(*document) == entries_of(nodes@),
                entries_of(nodes@.take(i as int)) == Ok::<Seq<RemoteEntryView>, ConfigError>(
                    entry_views(entries@),
                ),
            decreases nodes@.len() - i,
        {
            proof {
                let upto = nodes@.take(i + 1);
                assert(upto.drop_last() =~= nodes@.take(i as int));
                assert(upto.last() == nodes@[i as int]);
            }
            match RemoteEntry::from_node(&nodes[i]) {
                Err(field) => {
                    proof {
                        assert(entries_of(nodes@.take(i + 1)) == Err::<
                            Seq<RemoteEntryView>,
                            ConfigError,
                        >(ConfigError::Field { position: i, field }));
                        lemma_entries_error_stays(nodes@, i + 1);
                    }
                    return Err(ConfigError::Field { position: i, field });
                },
                Ok(entry) => {
                    let ghost before = entry_views(entries@);
                    entries.push(entry);
                    assert(entry_views(entries@) =~= before.push(entry@));
                },
            }
            i = i + 1;
        }
        assert(nodes@.take(i as int) =~= nodes@);
        Ok(entries)
    }
}

/// An error found in the first nodes of a run is the error of the run.
proof fn lemma_entries_error_stays(nodes: Seq<serde_yaml::Value>, k: int)
    requires
        0 <= k <= nodes.len(),
        entries_of(nodes.take(k)) is Err,
    ensures
        entries_of(nodes) == entries_of(nodes.take(k)),
    decreases nodes.len() - k,
{
    if k < nodes.len() {
        let upto = nodes.take(k + 1);
        assert(upto.drop_last() =~= nodes.take(k));
        lemma_entries_error_stays(nodes, k + 1);
    } else {
        assert(nodes.take(k) =~= nodes);
    }
}

/// An error found in the first entries of a list is the error of the list.
proof fn lemma_remotes_error_stays(entries: Seq<RemoteEntryView>, k: int)
    requires
        0 <= k <= entries.len(),
        remotes_of(entries.take(k)) is Err,
    ensures
        remotes_of(entries) == remotes_of(entries.take(k)),
    decreases entries.len() - k,
{
    if k < entries.len() {
        let upto = entries.take(k + 1);
        assert(upto.drop_last() =~= entries.take(k));
        lemma_remotes_error_stays(entries, k + 1);
    } else {
        assert(entries.take(k) =~= entries);
    }
}

/// Every interval of a loaded configuration is positive.
pub proof fn lemma_loaded_intervals_positive(entries: Seq<RemoteEntryView>)
    requires
        remotes_of(entries) is Ok,
    ensures
        intervals_positive(remotes_of(entries).unwrap()),
        remotes_of(entries).unwrap().len() == entries.len(),
    decreases entries.len(),
{
    if entries.len() > 0 {
        lemma_loaded_intervals_positive(entries.drop_last());
    }
}

/// A list of entries that is taken gives one remote for each entry, in the
/// order of the entries, each with the name and the url of its entry.
pub proof fn lemma_remotes_keep_order(entries: Seq<RemoteEntryView>)
    requires
        remotes_of(entries) is Ok,
    ensures
        remotes_of(entries).unwrap().len() == entries.len(),
        forall|i: int|
            0 <= i < entries.len() ==> {
                let remote = #[trigger] remotes_of(entries).unwrap()[i];
                &&& remote_of(entries[i]) == Ok::<RemoteView, ParseError>(remote)
                &&& remote.url == entries[i].url
                &&& remote.name == entries[i].name
            },
    decreases entries.len(),
{
    if entries.len() > 0 {
        let earlier = entries.drop_last();
        lemma_remotes_keep_order(earlier);
        let all = remotes_of(entries).unwrap();
        let before = remotes_of(earlier).unwrap();
        assert forall|i: int| 0 <= i < entries.len() implies {
            let remote = #[trigger] all[i];
            &&& remote_of(entries[i]) == Ok::<RemoteView, ParseError>(remote)
            &&& remote.url == entries[i].url
            &&& remote.name == entries[i].name
        } by {
            if i < earlier.len() {
                assert(all[i] == before[i]);
                assert(earlier[i] == entries[i]);
            }
        }
    }
}

/// A run of nodes that is taken gives one entry for each node, in the
/// order of the nodes.
pub proof fn lemma_entries_keep_order(nodes: Seq<serde_yaml::Value>)
    requires
        entries_of(nodes) is Ok,
    ensures
        entries_of(nodes).unwrap().len() == nodes.len(),
        forall|i: int|
            0 <= i < nodes.len() ==> entry_of(nodes[i]) == Ok::<RemoteEntryView, RemoteField>(
                #[trigger] entries_of(nodes).unwrap()[i],
            ),
    decreases nodes.len(),
{
    if nodes.len() > 0 {
        let earlier = nodes.drop_last();
        lemma_entries_keep_order(earlier);
        let all = entries_of(nodes).unwrap();
        let before = entries_of(earlier).unwrap();
        assert forall|i: int| 0 <= i < nodes.len() implies entry_of(nodes[i]) == Ok::<
            RemoteEntryView,
            RemoteField,
        >(#[trigger] all[i]) by {
            if i < earlier.len() {
                assert(all[i] == before[i]);
                assert(earlier[i] == nodes[i]);
            }
        }
    }
}

/// Whether a node holds an entry whose interval, if it writes one, is a
/// duration.
pub open spec fn holds_remote(node: serde_yaml::Value) -> bool {
    match entry_of(node) {
        Ok(entry) => remote_of(entry) is Ok,
        Err(_) => false,
    }
}

/// Whether `nodes` are the items of the sequence that `document` holds
/// under `remotes`.
pub open spec fn lists_remotes(document: serde_yaml::Value, nodes: Seq<serde_yaml::Value>) -> bool {
    match yaml_member(document, "remotes"@) {
        Some(found) => yaml_items(found) == Some(nodes),
        None => false,
    }
}

/// A document whose nodes under `remotes` all hold a remote is taken, with
/// one remote for each node, in the order of the nodes, each with the url
/// and the name that its node holds.
pub proof fn lemma_document_keeps_count_and_order(
    document: serde_yaml::Value,
    nodes: Seq<serde_yaml::Value>,
)
    requires
        lists_remotes(document, nodes),
        forall|i: int| 0 <= i < nodes.len() ==> holds_remote(#[trigger] nodes[i]),
    ensures
        document_remotes(document) is Ok,
        document_remotes(document).unwrap().len() == nodes.len(),
        forall|i: int|
            0 <= i < nodes.len() ==> {
                let remote = #[trigger] document_remotes(document).unwrap()[i];
                &&& remote.url == entry_of(nodes[i]).unwrap().url
                &&& remote.name == entry_of(nodes[i]).unwrap().name
            },
{
    assert forall|i: int| 0 <= i < nodes.len() implies (#[trigger] entry_of(nodes[i])) is Ok by {
        assert(holds_remote(nodes[i]));
    }
    lemma_entries_all_taken(nodes);
    lemma_entries_keep_order(nodes);
    let entries = entries_of(nodes).unwrap();
    assert forall|i: int| 0 <= i < entries.len() implies remote_of(#[trigger] entries[i]) is Ok by {
        assert(holds_remote(nodes[i]));
        assert(entry_of(nodes[i]) == Ok::<RemoteEntryView, RemoteField>(entries[i]));
    }
    lemma_remotes_all_taken(entries);
    lemma_remotes_keep_order(entries);
    let remotes = remotes_of(entries).unwrap();
    assert(document_remotes(document) == remotes_of(entries));
    assert forall|i: int| 0 <= i < nodes.len() implies {
        let remote = #[trigger] remotes[i];
        &&& remote.url == entry_of(nodes[i]).unwrap().url
        &&& remote.name == entry_of(nodes[i]).unwrap().name
    } by {
        assert(entry_of(nodes[i]) == Ok::<RemoteEntryView, RemoteField>(entries[i]));
    }
}

/// Nodes that each hold an entry are taken as a run.
proof fn lemma_entries_all_taken(nodes: Seq<serde_yaml::Value>)
    requires
        forall|i: int| 0 <= i < nodes.len() ==> (#[trigger] entry_of(nodes[i])) is Ok,
    ensures
        entries_of(nodes) is Ok,
    decreases nodes.len(),
{
    if nodes.len() > 0 {
        let earlier = nodes.drop_last();
        assert forall|i: int| 0 <= i < earlier.len() implies (#[trigger] entry_of(earlier[i]))
            is Ok by {
            assert(earlier[i] == nodes[i]);
            assert(entry_of(nodes[i]) is Ok);
        }
        lemma_entries_all_taken(earlier);
        assert(entry_of(nodes[nodes.len() - 1]) is Ok);
    }
}

/// Entries that each stand for a remote are taken as a list.
proof fn lemma_remotes_all_taken(entries: Seq<RemoteEntryView>)
    requires
        forall|i: int| 0 <= i < entries.len() ==> remote_of(#[trigger] entries[i]) is Ok,
    ensures
        remotes_of(entries) is Ok,
    decreases entries.len(),
{
    if entries.len() > 0 {
        let earlier = entries.drop_last();
        assert forall|i: int| 0 <= i < earlier.len() implies remote_of(#[trigger] earlier[i])
            is Ok by {
            assert(earlier[i] == entries[i]);
        }
        lemma_remotes_all_taken(earlier);
        assert(remote_of(entries[entries.len() - 1]) is Ok);
    }
}

/// A checked remote whose entry writes no interval is checked every thirty
/// seconds.
pub proof fn lemma_interval_defaults_to_thirty_seconds(entry: RemoteEntryView)
    requires
        entry.health matches Some(health) && health.interval is None,
    ensures
        remote_of(entry) matches Ok(remote) && remote.name == entry.name && remote.url == entry.url
            && remote.health == Some(HealthCheckConfig { interval: default_interval() }),
        default_interval().value == 30,
        default_interval().unit == TimeUnit::Seconds,
        default_interval().spec_millis() == 30_000,
{
}

/// The backend that a remote stands for. Its host is the host of the url
/// of the remote. A remote with health options has one check, an HTTP
/// probe of the path of the url on the port of the url; a remote without
/// them has none.
pub open spec fn backend_of(remote: RemoteView) -> BackendView {
    let parts = url_parts(remote.url);
    BackendView {
        name: remote.name,
        host: parts.host,
        health: match remote.health {
            None => Seq::empty(),
            Some(options) => seq![
                HealthCheckView {
                    method: HealthCheckMethod::Http,
                    endpoint: Some(parts.path),
                    interval: options.interval,
                    port: parts.effective_port(),
                },
            ],
        },
    }
}

/// The backends that a list of remotes stands for.
pub open spec fn backends_of(remotes: Seq<RemoteView>) -> Seq<BackendView> {
    remotes.map_values(|r: RemoteView| backend_of(r))
}

impl Remote {
    /// The backend that this remote stands for.
    pub fn to_backend(&self) -> (r: Backend)
        ensures
            r@ == backend_of(self@),
    {
        let parts = split_url(self.url.as_str());
        let port = parts.effective_port();
        let mut health: Vec<HealthCheck> = Vec::new();
        match self.health {
            None => {},
            Some(options) => {
                health.push(
                    HealthCheck {
                        method: HealthCheckMethod::Http,
                        endpoint: Some(parts.path),
                        interval: options.interval,
                        port,
                    },
                );
            },
        }
        let r = Backend { name: clone_text(&self.name), host: parts.host, health };
        assert(r@.health =~= backend_of(self@).health);
        r
    }
}

impl Config {
    /// Builds the configuration that a list of entries stands for. One
    /// interval that is no duration rejects the whole list.
    pub fn from_entries(entries: &Vec<RemoteEntry>) -> (r: Result<Config, ConfigError>)
        ensures
            is_outcome(r, remotes_of(entry_views(entries@))),
            (r matches Ok(config) ==> intervals_positive(config@) && config@.len() == entries@.len()),
    {
        let ghost views = entry_views(entries@);
        let mut remotes: Vec<Remote> = Vec::new();
        let mut i: usize = 0;
        assert(remotes@.map_values(|r: Remote| r@) =~= Seq::empty());
        while i < entries.len()
            invariant
                i <= entries@.len(),
                views == entry_views(entries@),
                remotes_of(views.take(i as int)) == Ok::<Seq<RemoteView>, ConfigError>(
                    remotes@.map_values(|r: Remote| r@),
                ),
            decreases entries@.len() - i,
        {
            let entry = &entries[i];
            proof {
                let upto = views.take(i + 1);
                assert(upto.drop_last() =~= views.take(i as int));
                assert(upto.last() == entry@);
            }
            let health = match &entry.health {
                None => None,
                Some(written) => match HealthCheckConfig::from_entry(written) {
                    Ok(config) => Some(config),
                    Err(error) => {
                        proof {
                            lemma_remotes_error_stays(views, i + 1);
                        }
                        return Err(ConfigError::Interval { position: i, error });
                    },
                },
            };
            let remote = Remote { name: clone_text(&entry.name), url: entry.url.clone(), health };
            let ghost before = remotes@.map_values(|r: Remote| r@);
            remotes.push(remote);
            assert(remotes@.map_values(|r: Remote| r@) =~= before.push(remote@));
            i = i + 1;
        }
        proof {
            assert(views.take(i as int) =~= views);
            lemma_loaded_intervals_positive(views);
        }
        Ok(Config { remotes })
    }

    /// Builds the configuration that a document holds: the remotes listed
    /// under `remotes`, as many as the document lists and in its order.
    pub fn new(document: &serde_yaml::Value) -> (r: Result<Config, ConfigError>)
        ensures
            is_outcome(r, document_remotes(*document)),
            (r matches Ok(config) ==> intervals_positive(config@)),
    {
        match RemoteEntry::read_all(document) {
            Err(error) => Err(error),
            Ok(entries) => Config::from_entries(&entries),
        }
    }

    /// The topology that this configuration describes, for the engine.
    pub fn to_configuration(&self) -> (r: Configuration)
        ensures
            r@ == backends_of(self@),
            intervals_positive(self@) ==> all_schedulable(r@),
    {
        let mut backends: Vec<Backend> = Vec::new();
        let mut i: usize = 0;
        assert(backends@.map_values(|b: Backend| b@) =~= Seq::empty());
        while i < self.remotes.len()
            invariant
                i <= self.remotes@.len(),
                backends@.map_values(|b: Backend| b@) == backends_of(self@.take(i as int)),
            decreases self.remotes@.len() - i,
        {
            let backend = self.remotes[i].to_backend();
            let ghost before = backends@.map_values(|b: Backend| b@);
            backends.push(backend);
            assert(backends@.map_values(|b: Backend| b@) =~= before.push(backend@));
            assert(backends_of(self@.take(i + 1)) =~= before.push(backend@));
            i = i + 1;
        }
        assert(self@.take(i as int) =~= self@);
        let r = Configuration { backends };
        proof {
            if intervals_positive(self@) {
                assert forall|k: int| 0 <= k < r@.len() implies (#[trigger] r@[k]).wf() by {
                    assert(r@[k] == backend_of(self@[k]));
                }
            }
        }
        r
    }
}

} // verus!
