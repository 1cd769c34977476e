//! Where the platform keeps what belongs to a user.

use crate::outside::{config_directory, data_directory, home_directory, state_directory};
use crate::paths::{join, joined, strip_prefix, stripped, PathStyle};
use crate::procedure::{Failure, FailureView};
use crate::text::{begins_with, chars_of, join2, same_text, starts_with, text_between};
use crate::native::{path_of_bytes, path_text, readable, readable_text};
use vstd::prelude::*;

verus! {

pub const APP_NAME: &'static str = "yesterfile";

/// Where the configuration, the snapshots and the bookkeeping lie, unless the
/// user says otherwise.
#[derive(Debug, PartialEq, Eq)]
pub struct AppPaths {
    pub config_file: String,
    pub data_dir: String,
    pub state_dir: String,
}

/// What [`AppPaths`] say.
pub struct AppPathsView {
    pub config_file: Seq<char>,
    pub data_dir: Seq<char>,
    pub state_dir: Seq<char>,
}

impl DeepView for AppPaths {
    type V = AppPathsView;

    open spec fn deep_view(&self) -> AppPathsView {
        AppPathsView {
            config_file: self.config_file@,
            data_dir: self.data_dir@,
            state_dir: self.state_dir@,
        }
    }
}

/// The paths that follow from the user's directories. A platform without a
/// directory for state has it below the data.
pub open spec fn app_paths(
    style: PathStyle,
    config: Option<Seq<char>>,
    data: Option<Seq<char>>,
    state: Option<Seq<char>>,
) -> Result<AppPathsView, FailureView> {
    match (config, data) {
        (None, _) => Err(FailureView::ConfigDirectoryUnknown),
        (Some(_), None) => Err(FailureView::DataDirectoryUnknown),
        (Some(config), Some(data)) => {
            let data_dir = joined(style, data, APP_NAME@);
            Ok(
                AppPathsView {
                    config_file: joined(
                        style,
                        joined(style, config, APP_NAME@),
                        "config.json"@,
                    ),
                    data_dir,
                    state_dir: match state {
                        Some(state) => joined(style, state, APP_NAME@),
                        None => joined(style, data_dir, "state"@),
                    },
                },
            )
        },
    }
}

impl AppPaths {
    /// The paths that follow from the user's directories.
    pub fn from_directories(
        style: PathStyle,
        config: &Option<String>,
        data: &Option<String>,
        state: &Option<String>,
    ) -> (r: Result<AppPaths, Failure>)
        ensures
            match app_paths(style, config.deep_view(), data.deep_view(), state.deep_view()) {
                Ok(paths) => r matches Ok(p) && p.deep_view() == paths,
                Err(failure) => r matches Err(f) && f.deep_view() == failure,
            },
    {
        let config = match config {
            Some(path) => path,
            None => {
                return Err(Failure::ConfigDirectoryUnknown);
            },
        };
        let data = match data {
            Some(path) => path,
            None => {
                return Err(Failure::DataDirectoryUnknown);
            },
        };
        let data_dir = join(style, data.as_str(), APP_NAME);
        let state_dir = match state {
            Some(path) => join(style, path.as_str(), APP_NAME),
            None => join(style, data_dir.as_str(), "state"),
        };
        let config_dir = join(style, config.as_str(), APP_NAME);
        Ok(
            AppPaths {
                config_file: join(style, config_dir.as_str(), "config.json"),
                data_dir,
                state_dir,
            },
        )
    }

    /// The paths for the current user.
    pub fn detect(style: PathStyle) -> (r: Result<AppPaths, Failure>)
        ensures
            exists|
                config: Option<Seq<char>>,
                data: Option<Seq<char>>,
                state: Option<Seq<char>>,
            |
                match #[trigger] app_paths(style, config, data, state) {
                    Ok(paths) => r matches Ok(p) && p.deep_view() == paths,
                    Err(failure) => r matches Err(f) && f.deep_view() == failure,
                },
    {
        let config = native(config_directory());
        let data = native(data_directory());
        let state = native(state_directory());
        AppPaths::from_directories(style, &config, &data, &state)
    }
}

/// A path with the home directory in place of a leading `~`; nothing where
/// that is needed and unknown.
pub open spec fn expanded(
    style: PathStyle,
    value: Seq<char>,
    home: Option<Seq<char>>,
) -> Option<Seq<char>> {
    if value == "~"@ {
        home
    } else if begins_with(value, "~/"@) || begins_with(value, "~\\"@) {
        match home {
            Some(home) => Some(joined(style, home, value.skip(2))),
            None => None,
        }
    } else {
        Some(value)
    }
}

/// A path with `home` in place of a leading `~`.
pub fn expand_path_from(style: PathStyle, value: &str, home: &Option<String>) -> (r: Result<
    String,
    Failure,
>)
    ensures
        match expanded(style, value@, home.deep_view()) {
            Some(path) => r matches Ok(p) && p@ == path,
            None => r matches Err(f) && f.deep_view() == FailureView::HomeUnknown,
        },
{
    if same_text(value, "~") {
        return match home {
            Some(home) => Ok(home.clone()),
            None => Err(Failure::HomeUnknown),
        };
    }
    if starts_with(value, "~/") || starts_with(value, "~\\") {
        proof {
            reveal_strlit("~/");
            reveal_strlit("~\\");
        }
        return match home {
            Some(home) => {
                let chars = chars_of(value);
                let rest = text_between(&chars, 2, chars.len());
                assert(rest@ =~= value@.skip(2));
                Ok(join(style, home.as_str(), rest.as_str()))
            },
            None => Err(Failure::HomeUnknown),
        };
    }
    Ok(value.to_owned())
}

/// A path of the platform as text, if there is one.
fn native(bytes: Option<Vec<u8>>) -> (path: Option<String>)
    ensures
        match bytes {
            Some(b) => path matches Some(p) && p@ == path_text(b@, 0),
            None => path is None,
        },
{
    match bytes {
        Some(bytes) => Some(path_of_bytes(&bytes)),
        None => None,
    }
}

/// A path with the user's home directory in place of a leading `~`.
pub fn expand_path(style: PathStyle, value: &str) -> (r: Result<String, Failure>)
    ensures
        exists|home: Option<Seq<char>>|
            match #[trigger] expanded(style, value@, home) {
                Some(path) => r matches Ok(p) && p@ == path,
                None => r matches Err(f) && f.deep_view() == FailureView::HomeUnknown,
            },
{
    let home = native(home_directory());
    expand_path_from(style, value, &home)
}

/// A path as it is shown to a user with this home directory.
pub open spec fn shown(style: PathStyle, path: Seq<char>, home: Option<Seq<char>>) -> Seq<char> {
    match home {
        Some(home) => match stripped(style, path, home) {
            Some(relative) => "~/"@ + readable(relative),
            None => readable(path),
        },
        None => readable(path),
    }
}

/// A path as it is shown to a user with this home directory.
pub fn display_path_from(style: PathStyle, path: &str, home: &Option<String>) -> (s: String)
    ensures
        s@ == shown(style, path@, home.deep_view()),
{
    if let Some(home) = home {
        if let Some(relative) = strip_prefix(style, path, home.as_str()) {
            return join2("~/", readable_text(relative.as_str()).as_str());
        }
    }
    readable_text(path)
}

/// A path as it is shown to the user.
pub fn display_path(style: PathStyle, path: &str) -> (s: String)
    ensures
        exists|home: Option<Seq<char>>| s@ == #[trigger] shown(style, path@, home),
{
    let home = native(home_directory());
    display_path_from(style, path, &home)
}

/// What the library asks the platform for, once.
#[derive(Debug, PartialEq, Eq)]
pub struct Environment {
    pub style: PathStyle,
    pub home: Option<String>,
    pub paths: AppPaths,
}

/// What an [`Environment`] says.
pub struct EnvironmentView {
    pub style: PathStyle,
    pub home: Option<Seq<char>>,
    pub paths: AppPathsView,
}

impl DeepView for Environment {
    type V = EnvironmentView;

    open spec fn deep_view(&self) -> EnvironmentView {
        EnvironmentView {
            style: self.style,
            home: self.home.deep_view(),
            paths: self.paths.deep_view(),
        }
    }
}

impl Environment {
    /// The environment of the current user.
    pub fn detect(style: PathStyle) -> (r: Result<Environment, Failure>)
        ensures
            r matches Ok(e) ==> e.style == style,
            exists|
                config: Option<Seq<char>>,
                data: Option<Seq<char>>,
                state: Option<Seq<char>>,
            |
                match #[trigger] app_paths(style, config, data, state) {
                    Ok(paths) => r matches Ok(e) && e.deep_view().paths == paths,
                    Err(failure) => r matches Err(f) && f.deep_view() == failure,
                },
    {
        let home = native(home_directory());
        match AppPaths::detect(style) {
            Ok(paths) => Ok(Environment { style, home, paths }),
            Err(f) => Err(f),
        }
    }
}

} // verus!
