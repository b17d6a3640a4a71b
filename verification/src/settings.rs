//! How one downstream server is configured.

use crate::outside::{json_copy, json_same};
use crate::text::{copy_texts, same_texts, texts};
use vstd::prelude::*;

verus! {

/// The configuration of one downstream server.
#[derive(Debug)]
pub struct BridgeServerConfig {
    /// The command line that starts the server.
    pub cmd: Vec<String>,
    /// The languages that the server is for.
    pub languages: Vec<String>,
    /// What the server is handed when it is initialized.
    pub initialization_options: Option<serde_json::Value>,
    /// The settings that the server may ask for while it runs.
    pub settings: Option<serde_json::Value>,
    /// The files that mark a workspace root.
    pub workspace_markers: Option<Vec<String>>,
    /// The characters after which the server formats as one types.
    pub on_type_formatting_triggers: Option<Vec<String>>,
    /// Whether one instance is to serve all roots. Off, where nothing is said.
    pub prefer_shared_instance: Option<bool>,
    /// Whether the server is used at all. On, where nothing is said.
    pub enabled: Option<bool>,
}

/// What an optional list of strings says.
pub open spec fn optional_texts(list: Option<Vec<String>>) -> Option<Seq<Seq<char>>> {
    match list {
        Some(list) => Some(texts(list@)),
        None => None,
    }
}

/// The part of a configuration that a running server cannot take over: a change
/// to it needs a new process.
pub struct LaunchView {
    pub cmd: Seq<Seq<char>>,
    pub languages: Seq<Seq<char>>,
    pub initialization_options: Option<serde_json::Value>,
    pub workspace_markers: Option<Seq<Seq<char>>>,
    pub on_type_formatting_triggers: Option<Seq<Seq<char>>>,
    pub prefers_shared_instance: bool,
    pub enabled: bool,
}

impl BridgeServerConfig {
    /// Whether one instance is to serve all roots.
    pub open spec fn spec_prefers_shared_instance(self) -> bool {
        self.prefer_shared_instance == Some(true)
    }

    /// Whether the server is used at all.
    pub open spec fn spec_is_enabled(self) -> bool {
        self.enabled != Some(false)
    }

    /// The part of the configuration that needs a new process to change.
    pub open spec fn launch(self) -> LaunchView {
        LaunchView {
            cmd: texts(self.cmd@),
            languages: texts(self.languages@),
            initialization_options: self.initialization_options,
            workspace_markers: optional_texts(self.workspace_markers),
            on_type_formatting_triggers: optional_texts(self.on_type_formatting_triggers),
            prefers_shared_instance: self.spec_prefers_shared_instance(),
            enabled: self.spec_is_enabled(),
        }
    }

    /// Whether one instance is to serve all roots.
    pub fn prefers_shared_instance(&self) -> (prefers: bool)
        ensures
            prefers == self.spec_prefers_shared_instance(),
    {
        match self.prefer_shared_instance {
            Some(prefers) => prefers,
            None => false,
        }
    }

    /// Whether the server is used at all.
    pub fn is_enabled(&self) -> (enabled: bool)
        ensures
            enabled == self.spec_is_enabled(),
    {
        match self.enabled {
            Some(enabled) => enabled,
            None => true,
        }
    }

    /// Whether the server is promised settings that it may ask for. A server
    /// without settings is not: it would be answered with nothing.
    pub fn promises_settings(&self) -> (promises: bool)
        ensures
            promises == (self.settings is Some),
    {
        self.settings.is_some()
    }

    /// A second configuration that says the same, but holds no settings.
    pub fn without_settings(&self) -> (copy: BridgeServerConfig)
        ensures
            copy.launch() == self.launch(),
            copy.settings is None,
    {
        BridgeServerConfig {
            cmd: copy_texts(&self.cmd),
            languages: copy_texts(&self.languages),
            initialization_options: copy_json(&self.initialization_options),
            settings: None,
            workspace_markers: copy_list(&self.workspace_markers),
            on_type_formatting_triggers: copy_list(&self.on_type_formatting_triggers),
            prefer_shared_instance: self.prefer_shared_instance,
            enabled: self.enabled,
        }
    }
}

impl Default for BridgeServerConfig {
    /// A configuration that says nothing.
    fn default() -> (config: BridgeServerConfig)
        ensures
            config.launch() == (LaunchView {
                cmd: Seq::empty(),
                languages: Seq::empty(),
                initialization_options: None,
                workspace_markers: None,
                on_type_formatting_triggers: None,
                prefers_shared_instance: false,
                enabled: true,
            }),
            config.settings is None,
    {
        let config = BridgeServerConfig {
            cmd: Vec::new(),
            languages: Vec::new(),
            initialization_options: None,
            settings: None,
            workspace_markers: None,
            on_type_formatting_triggers: None,
            prefer_shared_instance: None,
            enabled: None,
        };
        assert(texts(config.cmd@) =~= Seq::<Seq<char>>::empty());
        assert(texts(config.languages@) =~= Seq::<Seq<char>>::empty());
        config
    }
}

/// A second value that is the same.
pub fn copy_json(value: &Option<serde_json::Value>) -> (copy: Option<serde_json::Value>)
    ensures
        copy == *value,
{
    match value {
        Some(value) => Some(json_copy(value)),
        None => None,
    }
}

/// Whether two optional values are the same.
pub fn same_json(one: &Option<serde_json::Value>, two: &Option<serde_json::Value>) -> (same: bool)
    ensures
        same == (*one == *two),
{
    match (one, two) {
        (Some(one), Some(two)) => json_same(one, two),
        (None, None) => true,
        _ => false,
    }
}

fn copy_list(list: &Option<Vec<String>>) -> (copy: Option<Vec<String>>)
    ensures
        optional_texts(copy) == optional_texts(*list),
{
    match list {
        Some(list) => Some(copy_texts(list)),
        None => None,
    }
}

fn same_list(one: &Option<Vec<String>>, two: &Option<Vec<String>>) -> (same: bool)
    ensures
        same == (optional_texts(*one) == optional_texts(*two)),
{
    match (one, two) {
        (Some(one), Some(two)) => same_texts(one, two),
        (None, None) => true,
        _ => false,
    }
}

/// Whether a server that was started with the one configuration can go on under
/// the other. The settings play no part: a running server takes them over.
pub fn same_launch_config(old_config: &BridgeServerConfig, new_config: &BridgeServerConfig) -> (same:
    bool)
    ensures
        same == (old_config.launch() == new_config.launch()),
{
    same_texts(&old_config.cmd, &new_config.cmd) && same_texts(
        &old_config.languages,
        &new_config.languages,
    ) && same_json(&old_config.initialization_options, &new_config.initialization_options)
        && same_list(&old_config.workspace_markers, &new_config.workspace_markers) && same_list(
        &old_config.on_type_formatting_triggers,
        &new_config.on_type_formatting_triggers,
    ) && old_config.prefers_shared_instance() == new_config.prefers_shared_instance()
        && old_config.is_enabled() == new_config.is_enabled()
}

/// A server can go on under another configuration exactly where every part that it
/// was started with is the same: the command line, the languages, the
/// initialization options, the markers and the triggers as they stand, and whether
/// it is shared and whether it is used by what they come to.
pub proof fn launches_agree_in_every_part(one: BridgeServerConfig, two: BridgeServerConfig)
    ensures
        one.launch() == two.launch() <==> {
            &&& texts(one.cmd@) == texts(two.cmd@)
            &&& texts(one.languages@) == texts(two.languages@)
            &&& one.initialization_options == two.initialization_options
            &&& (match (one.workspace_markers, two.workspace_markers) {
                (Some(mine), Some(theirs)) => texts(mine@) == texts(theirs@),
                (None, None) => true,
                _ => false,
            })
            &&& (match (one.on_type_formatting_triggers, two.on_type_formatting_triggers) {
                (Some(mine), Some(theirs)) => texts(mine@) == texts(theirs@),
                (None, None) => true,
                _ => false,
            })
            &&& (one.prefer_shared_instance == Some(true)) == (two.prefer_shared_instance == Some(
                true,
            ))
            &&& (one.enabled == Some(false)) == (two.enabled == Some(false))
        },
{
}

/// A running server takes other settings over: they are no part of how it is
/// started.
pub proof fn settings_need_no_new_process(
    config: BridgeServerConfig,
    settings: Option<serde_json::Value>,
)
    ensures
        (BridgeServerConfig { settings, ..config }).launch() == config.launch(),
{
}

/// What is not said about sharing means no, and what is not said about use means
/// yes.
pub proof fn unsaid_options_have_defaults(config: BridgeServerConfig)
    ensures
        config.spec_prefers_shared_instance() <==> config.prefer_shared_instance == Some(true),
        config.spec_is_enabled() <==> config.enabled is None || config.enabled == Some(true),
{
    if let Some(enabled) = config.enabled {
        assert(enabled || !enabled);
    }
}

} // verus!
