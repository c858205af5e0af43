//! The persisted configuration: the tracked paths and the preferences.
//!
//! The file is the caller's to read and to write, and so is the reading of
//! the document in its current form. Here is what the document holds, the
//! reading of its older form, a bare list of paths, which of the two readings
//! counts, and what is to be written.
use crate::collection::paths_of;
use crate::command::copy_texts;
use crate::repo::{views, Repository};
use vstd::prelude::*;

verus! {

/// The configuration that is kept between runs.
#[derive(Debug, PartialEq, Eq)]
pub struct AppConfig {
    /// The tracked paths, in order.
    pub repositories: Vec<String>,
    /// The index of the chosen theme.
    pub theme_idx: usize,
    /// Whether the whole path is shown, not only its last segment.
    pub show_full_path: bool,
}

/// The model of an [`AppConfig`].
pub struct ConfigView {
    pub repositories: Seq<Seq<char>>,
    pub theme_idx: usize,
    pub show_full_path: bool,
}

impl View for AppConfig {
    type V = ConfigView;

    open spec fn view(&self) -> ConfigView {
        ConfigView {
            repositories: self.repositories.deep_view(),
            theme_idx: self.theme_idx,
            show_full_path: self.show_full_path,
        }
    }
}

impl Clone for AppConfig {
    fn clone(&self) -> (r: Self)
        ensures
            r@ == self@,
    {
        AppConfig {
            repositories: copy_texts(self.repositories.as_slice()),
            theme_idx: self.theme_idx,
            show_full_path: self.show_full_path,
        }
    }
}

/// The configuration of a first run: nothing tracked, the first theme, whole paths.
pub open spec fn default_config() -> ConfigView {
    ConfigView { repositories: Seq::empty(), theme_idx: 0, show_full_path: true }
}

/// The configuration that a document of the older form stands for, which held
/// the paths and nothing else.
pub open spec fn legacy_config(paths: Seq<Seq<char>>) -> ConfigView {
    ConfigView { repositories: paths, theme_idx: 0, show_full_path: true }
}

/// The model of a list of paths that may be missing.
pub open spec fn paths_read(list: Option<Vec<String>>) -> Option<Seq<Seq<char>>> {
    match list {
        Some(paths) => Some(paths.deep_view()),
        None => None,
    }
}

/// The model of a configuration that may be missing.
pub open spec fn config_read(config: Option<AppConfig>) -> Option<ConfigView> {
    match config {
        Some(c) => Some(c@),
        None => None,
    }
}

/// What counts as the stored configuration, given the document as read in the
/// current form and in the older form, each if it reads so: the current form
/// first, then the older one, then the defaults.
pub open spec fn settled_config(current: Option<ConfigView>, legacy: Option<Seq<Seq<char>>>) -> ConfigView {
    match current {
        Some(config) => config,
        None => match legacy {
            Some(paths) => legacy_config(paths),
            None => default_config(),
        },
    }
}

/// The list of texts that `serde_json::from_str` reads `document` as, if it
/// reads it as a list of texts.
pub uninterp spec fn text_list_in(document: Seq<char>) -> Option<Seq<Seq<char>>>;

/// Calls `serde_json::from_str` for a `Vec<String>`, which reads a JSON array
/// of strings and fails on anything else. The result depends on the text
/// alone; the contract gives it its name and claims nothing else.
#[verifier::external_body]
fn read_text_list(document: &str) -> (list: Option<Vec<String>>)
    ensures
        paths_read(list) == text_list_in(document@),
{
    serde_json::from_str::<Vec<String>>(document).ok()
}

/// Whether whole paths are shown when the document does not say.
pub fn default_show_full_path() -> (show: bool)
    ensures
        show,
{
    true
}

/// The index of the theme when the document does not say: the first theme.
pub fn default_theme_idx() -> (idx: usize)
    ensures
        idx == 0,
{
    0
}

impl Default for AppConfig {
    fn default() -> (config: AppConfig)
        ensures
            config@ == default_config(),
    {
        let config = AppConfig {
            repositories: Vec::new(),
            theme_idx: default_theme_idx(),
            show_full_path: default_show_full_path(),
        };
        assert(config.repositories.deep_view() =~= Seq::<Seq<char>>::empty());
        config
    }
}

/// The stored configuration, from the document as read in the current form
/// and in the older form. A document that reads in neither gives the defaults.
pub fn settle_config(current: Option<AppConfig>, legacy: Option<Vec<String>>) -> (config: AppConfig)
    ensures
        config@ == settled_config(config_read(current), paths_read(legacy)),
{
    match current {
        Some(config) => config,
        None => match legacy {
            Some(paths) => AppConfig {
                repositories: paths,
                theme_idx: default_theme_idx(),
                show_full_path: default_show_full_path(),
            },
            None => AppConfig::default(),
        },
    }
}

/// The stored configuration, from the document as read in the current form,
/// if it reads so, and from the text of the document, if there is one: what
/// was read in the current form, else the text read in the older form, a bare
/// list of paths, else the defaults.
pub fn load_config(current: Option<AppConfig>, document: Option<&str>) -> (config: AppConfig)
    ensures
        config@ == settled_config(
            config_read(current),
            match document {
                Some(text) => text_list_in(text@),
                None => None,
            },
        ),
{
    if current.is_some() {
        return settle_config(current, None);
    }
    match document {
        Some(text) => settle_config(None, read_text_list(text)),
        None => settle_config(None, None),
    }
}

/// The configuration to store for the records `repos` and the preferences:
/// the paths of the records in their order, and the preferences as they are.
pub fn save_config(repos: &[Repository], theme_idx: usize, show_full_path: bool) -> (config:
    AppConfig)
    ensures
        config@ == (ConfigView {
            repositories: paths_of(views(repos@)),
            theme_idx,
            show_full_path,
        }),
{
    let mut paths: Vec<String> = Vec::new();
    let mut i: usize = 0;
    let ghost all = paths_of(views(repos@));
    assert(paths.deep_view() =~= all.take(0));
    while i < repos.len()
        invariant
            i <= repos.len(),
            all == paths_of(views(repos@)),
            paths.deep_view() == all.take(i as int),
        decreases repos.len() - i,
    {
        let ghost so_far = paths.deep_view();
        paths.push(repos[i].path.clone());
        assert(paths.deep_view() =~= so_far.push(repos[i as int].path@));
        assert(all[i as int] == repos[i as int].path@);
        assert(so_far.push(repos[i as int].path@) =~= all.take(i + 1));
        i += 1;
    }
    assert(all.take(i as int) =~= all);
    AppConfig { repositories: paths, theme_idx, show_full_path }
}

/// The preferences after a request to change them, and whether anything
/// changed. A theme index at or beyond `theme_count` is not taken.
pub open spec fn preferred(
    theme_idx: usize,
    show_full_path: bool,
    wanted_theme: usize,
    wanted_full_path: bool,
    theme_count: usize,
) -> (usize, bool, bool) {
    let theme_changes = wanted_theme < theme_count && wanted_theme != theme_idx;
    (
        if theme_changes {
            wanted_theme
        } else {
            theme_idx
        },
        wanted_full_path,
        theme_changes || wanted_full_path != show_full_path,
    )
}

/// Applies a request to change the preferences. Gives the theme index and the
/// display preference that hold from now on, and whether either changed, in
/// which case the configuration is to be stored again.
pub fn update_preferences(
    theme_idx: usize,
    show_full_path: bool,
    wanted_theme: usize,
    wanted_full_path: bool,
    theme_count: usize,
) -> (now: (usize, bool, bool))
    ensures
        now == preferred(theme_idx, show_full_path, wanted_theme, wanted_full_path, theme_count),
{
    let mut changed = false;
    let mut theme = theme_idx;
    if wanted_theme < theme_count && wanted_theme != theme_idx {
        theme = wanted_theme;
        changed = true;
    }
    if wanted_full_path != show_full_path {
        changed = true;
    }
    (theme, wanted_full_path, changed)
}

} // verus!
