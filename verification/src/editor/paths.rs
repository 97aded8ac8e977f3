//! Per-OS derivation of an editor's user-data and extensions directories from
//! the platform and the relevant environment variables.

use vstd::prelude::*;
use crate::editor::product::Product;
use crate::fspath::FsPath;

verus! {

/// The operating-system family the paths follow.
#[derive(Clone, Copy, Debug, PartialEq, Eq, Structural)]
pub enum Platform {
    Linux,
    Macos,
    Windows,
}

/// An environment variable that a path derivation needed but found unset.
#[derive(Clone, Copy, Debug, PartialEq, Eq, Structural)]
pub enum EnvVar {
    Home,
    UserProfile,
    AppData,
    LocalAppData,
}

impl EnvVar {
    /// The variable's name.
    pub fn name(&self) -> (r: &'static str)
        ensures
            *self == EnvVar::Home ==> r@ == "HOME"@,
            *self == EnvVar::UserProfile ==> r@ == "USERPROFILE"@,
            *self == EnvVar::AppData ==> r@ == "APPDATA"@,
            *self == EnvVar::LocalAppData ==> r@ == "LOCALAPPDATA"@,
    {
        match self {
            EnvVar::Home => "HOME",
            EnvVar::UserProfile => "USERPROFILE",
            EnvVar::AppData => "APPDATA",
            EnvVar::LocalAppData => "LOCALAPPDATA",
        }
    }
}

/// The environment variables editor paths are derived from (`None`: unset).
pub struct PathEnv {
    pub home: Option<String>,
    pub user_profile: Option<String>,
    pub appdata: Option<String>,
    pub xdg_config_home: Option<String>,
}

impl Default for PathEnv {
    fn default() -> (r: Self)
        ensures
            r.home is None && r.user_profile is None && r.appdata is None && r.xdg_config_home is None,
    {
        PathEnv { home: None, user_profile: None, appdata: None, xdg_config_home: None }
    }
}

/// The user's home directory: `USERPROFILE` on Windows, `HOME` elsewhere.
pub open spec fn home_spec(platform: Platform, vars: PathEnv) -> Result<Seq<Seq<char>>, EnvVar> {
    match platform {
        Platform::Windows => match vars.user_profile {
            Some(p) => Ok(seq![p@]),
            None => Err(EnvVar::UserProfile),
        },
        _ => match vars.home {
            Some(p) => Ok(seq![p@]),
            None => Err(EnvVar::Home),
        },
    }
}

/// The base under which editors keep `<nameShort>/User`: `~/Library/Application
/// Support` on macOS, `APPDATA` on Windows, a non-empty `XDG_CONFIG_HOME` or
/// else `~/.config` on Linux.
pub open spec fn user_data_base_spec(platform: Platform, vars: PathEnv) -> Result<Seq<Seq<char>>, EnvVar> {
    match platform {
        Platform::Macos => match home_spec(platform, vars) {
            Ok(h) => Ok(h.push("Library"@).push("Application Support"@)),
            Err(e) => Err(e),
        },
        Platform::Windows => match vars.appdata {
            Some(p) => Ok(seq![p@]),
            None => Err(EnvVar::AppData),
        },
        Platform::Linux => match vars.xdg_config_home {
            Some(x) if x@.len() > 0 => Ok(seq![x@]),
            _ => match home_spec(platform, vars) {
                Ok(h) => Ok(h.push(".config"@)),
                Err(e) => Err(e),
            },
        },
    }
}

pub open spec fn path_result(r: Result<FsPath, EnvVar>) -> Result<Seq<Seq<char>>, EnvVar> {
    match r {
        Ok(p) => Ok(p@),
        Err(e) => Err(e),
    }
}

fn path_of(s: &String) -> (r: FsPath)
    ensures
        r@ == seq![s@],
{
    FsPath::from_text(s.as_str())
}

/// The user's home directory.
pub fn home_dir(platform: Platform, vars: &PathEnv) -> (r: Result<FsPath, EnvVar>)
    ensures
        path_result(r) == home_spec(platform, *vars),
{
    match platform {
        Platform::Windows => match &vars.user_profile {
            Some(p) => Ok(path_of(p)),
            None => Err(EnvVar::UserProfile),
        },
        Platform::Linux | Platform::Macos => match &vars.home {
            Some(p) => Ok(path_of(p)),
            None => Err(EnvVar::Home),
        },
    }
}

/// The base directory under which editors keep their per-product user-data
/// directory (`<base>/<nameShort>/User`).
pub fn user_data_base(platform: Platform, vars: &PathEnv) -> (r: Result<FsPath, EnvVar>)
    ensures
        path_result(r) == user_data_base_spec(platform, *vars),
{
    match platform {
        Platform::Macos => {
            let home = home_dir(platform, vars)?;
            Ok(home.join("Library").join("Application Support"))
        },
        Platform::Windows => match &vars.appdata {
            Some(p) => Ok(path_of(p)),
            None => Err(EnvVar::AppData),
        },
        Platform::Linux => {
            match &vars.xdg_config_home {
                Some(x) => {
                    if !x.as_str().is_empty() {
                        return Ok(path_of(x));
                    }
                },
                None => {},
            }
            let home = home_dir(platform, vars)?;
            Ok(home.join(".config"))
        },
    }
}

/// `<base>/<nameShort>/User`.
pub open spec fn user_dir_spec(product: Product, platform: Platform, vars: PathEnv) -> Result<Seq<Seq<char>>, EnvVar> {
    match user_data_base_spec(platform, vars) {
        Ok(b) => Ok(b.push(product.name_short@).push("User"@)),
        Err(e) => Err(e),
    }
}

/// `<home>/<dataFolderName>/extensions`.
pub open spec fn extensions_dir_spec(product: Product, platform: Platform, vars: PathEnv) -> Result<Seq<Seq<char>>, EnvVar> {
    match home_spec(platform, vars) {
        Ok(h) => Ok(h.push(product.data_folder_name@).push("extensions"@)),
        Err(e) => Err(e),
    }
}

/// The `User/` directory for `product`: `<base>/<nameShort>/User`.
pub fn user_dir_for(product: &Product, platform: Platform, vars: &PathEnv) -> (r: Result<FsPath, EnvVar>)
    ensures
        path_result(r) == user_dir_spec(*product, platform, *vars),
{
    let base = user_data_base(platform, vars)?;
    Ok(base.join(product.name_short.as_str()).join("User"))
}

/// The shared extensions directory for `product`:
/// `<home>/<dataFolderName>/extensions`.
pub fn extensions_dir_for(product: &Product, platform: Platform, vars: &PathEnv) -> (r: Result<FsPath, EnvVar>)
    ensures
        path_result(r) == extensions_dir_spec(*product, platform, *vars),
{
    let home = home_dir(platform, vars)?;
    Ok(home.join(product.data_folder_name.as_str()).join("extensions"))
}

}
