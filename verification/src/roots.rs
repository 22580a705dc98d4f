//! The directories in which each platform keeps its fonts.

use crate::path::{join_path, joined};
use crate::platform::Platform;
use vstd::prelude::*;
use vstd::string::*;

verus! {

/// A directory in which a scan looks for fonts.
#[derive(Clone, Debug, PartialEq, Eq)]
pub struct FontRoot {
    pub path: String,
    /// Whether the directory serves every user of the machine.
    pub is_system: bool,
}

/// A root as a plain value.
pub struct RootView {
    pub path: Seq<char>,
    pub is_system: bool,
}

impl View for FontRoot {
    type V = RootView;

    open spec fn view(&self) -> RootView {
        RootView { path: self.path@, is_system: self.is_system }
    }
}

/// The environment variables that name font directories, each with its value
/// where it is set.
#[derive(Clone, Debug, PartialEq, Eq)]
pub struct Environment {
    /// `WINDIR`
    pub windir: Option<String>,
    /// `LOCALAPPDATA`
    pub local_app_data: Option<String>,
    /// `HOME`
    pub home: Option<String>,
}

/// An environment as a plain value.
pub struct EnvironmentView {
    pub windir: Option<Seq<char>>,
    pub local_app_data: Option<Seq<char>>,
    pub home: Option<Seq<char>>,
}

/// The value of an optional string.
pub open spec fn optional_text(s: Option<String>) -> Option<Seq<char>> {
    match s {
        Some(s) => Some(s@),
        None => None,
    }
}

impl View for Environment {
    type V = EnvironmentView;

    open spec fn view(&self) -> EnvironmentView {
        EnvironmentView {
            windir: optional_text(self.windir),
            local_app_data: optional_text(self.local_app_data),
            home: optional_text(self.home),
        }
    }
}

/// The values of a sequence of roots.
pub open spec fn root_views(roots: Seq<FontRoot>) -> Seq<RootView> {
    roots.map_values(|r: FontRoot| r@)
}

/// The home directory, empty where `HOME` is not set.
pub open spec fn home_or_empty(env: EnvironmentView) -> Seq<char> {
    match env.home {
        Some(h) => h,
        None => Seq::empty(),
    }
}

/// The font directories of Windows: `Fonts` under `WINDIR` for the system,
/// then `Microsoft\Windows\Fonts` under `LOCALAPPDATA` for the user. A
/// variable that is not set gives no root.
pub open spec fn windows_roots(env: EnvironmentView) -> Seq<RootView> {
    let system = match env.windir {
        Some(w) => seq![
            RootView { path: joined(w, "Fonts"@, Platform::Windows), is_system: true },
        ],
        None => Seq::empty(),
    };
    let user = match env.local_app_data {
        Some(l) => seq![
            RootView {
                path: joined(l, "Microsoft\\Windows\\Fonts"@, Platform::Windows),
                is_system: false,
            },
        ],
        None => Seq::empty(),
    };
    system + user
}

/// The font directories of macOS: two for the system, then the user's.
pub open spec fn macos_roots(env: EnvironmentView) -> Seq<RootView> {
    seq![
        RootView { path: "/System/Library/Fonts"@, is_system: true },
        RootView { path: "/Library/Fonts"@, is_system: true },
        RootView { path: home_or_empty(env) + "/Library/Fonts"@, is_system: false },
    ]
}

/// The font directories of Linux: two for the system, then the user's.
pub open spec fn linux_roots(env: EnvironmentView) -> Seq<RootView> {
    seq![
        RootView { path: "/usr/share/fonts"@, is_system: true },
        RootView { path: "/usr/local/share/fonts"@, is_system: true },
        RootView { path: home_or_empty(env) + "/.local/share/fonts"@, is_system: false },
    ]
}

/// The roots of a font scan on `platform`, in the order in which they are
/// scanned.
pub open spec fn platform_roots(platform: Platform, env: EnvironmentView) -> Seq<RootView> {
    match platform {
        Platform::Windows => windows_roots(env),
        Platform::MacOs => macos_roots(env),
        Platform::Linux => linux_roots(env),
    }
}

/// A root at a fixed path.
fn fixed_root(path: &str, is_system: bool) -> (root: FontRoot)
    ensures
        root@ == (RootView { path: path@, is_system }),
{
    FontRoot { path: path.to_string(), is_system }
}

/// The user's root: `suffix` behind the home directory.
fn home_root(env: &Environment, suffix: &str) -> (root: FontRoot)
    ensures
        root@ == (RootView { path: home_or_empty(env@) + suffix@, is_system: false }),
{
    let mut path = match &env.home {
        Some(h) => h.clone(),
        None => String::new(),
    };
    path.append(suffix);
    FontRoot { path, is_system: false }
}

/// Lists the directories that a font scan on `platform` goes through.
pub fn font_roots(platform: Platform, env: &Environment) -> (roots: Vec<FontRoot>)
    ensures
        root_views(roots@) == platform_roots(platform, env@),
{
    let mut roots: Vec<FontRoot> = Vec::new();
    match platform {
        Platform::Windows => {
            if let Some(windir) = &env.windir {
                let path = join_path(windir.as_str(), "Fonts", Platform::Windows);
                roots.push(FontRoot { path, is_system: true });
            }
            if let Some(local) = &env.local_app_data {
                let path = join_path(local.as_str(), "Microsoft\\Windows\\Fonts", Platform::Windows);
                roots.push(FontRoot { path, is_system: false });
            }
        },
        Platform::MacOs => {
            roots.push(fixed_root("/System/Library/Fonts", true));
            roots.push(fixed_root("/Library/Fonts", true));
            roots.push(home_root(env, "/Library/Fonts"));
        },
        Platform::Linux => {
            roots.push(fixed_root("/usr/share/fonts", true));
            roots.push(fixed_root("/usr/local/share/fonts", true));
            roots.push(home_root(env, "/.local/share/fonts"));
        },
    }
    assert(root_views(roots@) =~= platform_roots(platform, env@));
    roots
}

} // verus!
