//! The settings the client keeps in its configuration file, and the
//! directories it saves into.
use vstd::prelude::*;
use crate::text::{concat_str, opt_view};

verus! {

/// The directory of conversation titles.
pub const DIR_TITLE: &'static str = "titles";

/// The directory of saved conversations.
pub const DIR_CONVERSATION: &'static str = "conversations";

/// The directory of saved assistants.
pub const DIR_ASSISTANTS: &'static str = "assistants";

/// The directory of saved threads.
pub const DIR_THREADS: &'static str = "threads";

/// The directory of uploaded files.
pub const DIR_OPEN_AI_FILES: &'static str = "files";

/// The directory of vector stores.
pub const DIR_OPEN_AI_VECTORS: &'static str = "vectors";

/// The API keys of the configuration file.
#[derive(Debug)]
pub struct Keys {
    pub chatgpt: Option<String>,
}

/// The configuration file.
#[derive(Debug)]
pub struct Config {
    pub keys: Keys,
    pub saving_directory: Option<String>,
}

impl Default for Config {
    fn default() -> (r: Self)
        ensures
            r.keys.chatgpt is None,
            r.saving_directory is None,
    {
        Config { keys: Keys { chatgpt: None }, saving_directory: None }
    }
}

/// The settings in use: the API key and the directory conversations are
/// saved in.
#[derive(Debug)]
pub struct Settings {
    pub api_key: String,
    pub saving_directory: String,
}

/// The spec value of a configuration: its key and its directory.
pub open spec fn config_view(c: Config) -> (Option<Seq<char>>, Option<Seq<char>>) {
    (opt_view(c.keys.chatgpt), opt_view(c.saving_directory))
}

/// The configuration after the key and directory given by the user are
/// saved: the key is set, and the directory too unless it is empty, in
/// which case none is recorded.
pub open spec fn saved_config(api_key: Seq<char>, saving_directory: Seq<char>) -> (
    Option<Seq<char>>,
    Option<Seq<char>>,
) {
    (Some(api_key), if saving_directory.len() == 0 {
        None
    } else {
        Some(saving_directory)
    })
}

/// The settings a configuration gives: a missing key or directory is
/// empty.
pub open spec fn loaded_settings(c: (Option<Seq<char>>, Option<Seq<char>>)) -> (
    Seq<char>,
    Seq<char>,
) {
    (
        match c.0 {
            Some(k) => k,
            None => Seq::empty(),
        },
        match c.1 {
            Some(d) => d,
            None => Seq::empty(),
        },
    )
}

/// Records a key and a directory given by the user: in the configuration,
/// and in the settings in use, where an empty directory leaves the current
/// one in place.
pub fn apply_api_key(config: Config, session: Settings, api_key: String, saving_directory: String) -> (res: (
    Config,
    Settings,
))
    ensures
        config_view(res.0) == saved_config(api_key@, saving_directory@),
        res.1.api_key@ == api_key@,
        res.1.saving_directory@ == (if saving_directory@.len() == 0 {
            session.saving_directory@
        } else {
            saving_directory@
        }),
{
    let mut config = config;
    config.keys.chatgpt = Some(api_key.clone());
    if saving_directory.as_str().is_empty() {
        config.saving_directory = None;
        (config, Settings { api_key, saving_directory: session.saving_directory })
    } else {
        config.saving_directory = Some(saving_directory.clone());
        (config, Settings { api_key, saving_directory })
    }
}

/// The settings a configuration file gives when the client starts.
pub fn settings_from_config(config: &Config) -> (res: Settings)
    ensures
        (res.api_key@, res.saving_directory@) == loaded_settings(config_view(*config)),
{
    let api_key = match &config.keys.chatgpt {
        Some(k) => k.clone(),
        None => String::new(),
    };
    let saving_directory = match &config.saving_directory {
        Some(d) => d.clone(),
        None => String::new(),
    };
    Settings { api_key, saving_directory }
}

/// The key and the directory the user saves are the ones the client starts
/// with next time.
pub proof fn lemma_saved_settings_load_back(api_key: Seq<char>, saving_directory: Seq<char>)
    ensures
        loaded_settings(saved_config(api_key, saving_directory)) == (api_key, saving_directory),
{
    if saving_directory.len() == 0 {
        assert(saving_directory =~= Seq::<char>::empty());
    }
}

/// The value of the `Authorization` header for an API key.
pub fn authorization_value(api_key: &str) -> (res: String)
    ensures
        res@ == "Bearer "@ + api_key@,
{
    concat_str("Bearer ", api_key)
}

} // verus!
