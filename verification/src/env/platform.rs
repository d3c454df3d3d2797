//! Platform-specific install hints and display names of the tools the
//! prober knows.
use vstd::prelude::*;

use crate::env::prober::InstallHint;
use crate::text::str_eq;

verus! {

/// The install commands (macOS, Linux, Windows) of a known tool.
pub open spec fn hint_texts(id: Seq<char>) -> Option<(Seq<char>, Seq<char>, Seq<char>)> {
    if id == "node"@ {
        Some(("brew install node"@, "sudo apt install nodejs npm"@, "winget install OpenJS.NodeJS.LTS"@))
    } else if id == "git"@ {
        Some(("brew install git"@, "sudo apt install git"@, "winget install Git.Git"@))
    } else if id == "python"@ {
        Some(("brew install python"@, "sudo apt install python3"@, "winget install Python.Python.3.12"@))
    } else if id == "rustc"@ {
        Some(
            (
                "curl --proto '=https' --tlsv1.2 -sSf https://sh.rustup.rs | sh"@,
                "curl --proto '=https' --tlsv1.2 -sSf https://sh.rustup.rs | sh"@,
                "winget install Rustlang.Rustup"@,
            ),
        )
    } else if id == "docker"@ {
        Some(
            (
                "brew install --cask docker"@,
                "sudo apt install docker.io"@,
                "winget install Docker.DockerDesktop"@,
            ),
        )
    } else {
        None
    }
}

/// The hint matches the install commands of `id`: all three for a known
/// tool, none for any other.
pub open spec fn hint_matches(h: InstallHint, id: Seq<char>) -> bool {
    match hint_texts(id) {
        Some((m, l, w)) => {
            &&& h.macos matches Some(x) && x@ == m
            &&& h.linux matches Some(y) && y@ == l
            &&& h.windows matches Some(z) && z@ == w
        },
        None => h.macos is None && h.linux is None && h.windows is None,
    }
}

/// The display name of a tool id: a known tool's name, else the id itself.
pub open spec fn display_name(id: Seq<char>) -> Seq<char> {
    if id == "node"@ {
        "Node.js"@
    } else if id == "git"@ {
        "Git"@
    } else if id == "python"@ {
        "Python"@
    } else if id == "rustc"@ {
        "Rust Compiler"@
    } else if id == "docker"@ {
        "Docker"@
    } else {
        id
    }
}

fn hint(macos: &str, linux: &str, windows: &str) -> (r: InstallHint)
    ensures
        r.macos matches Some(x) && x@ == macos@,
        r.linux matches Some(y) && y@ == linux@,
        r.windows matches Some(z) && z@ == windows@,
{
    InstallHint {
        macos: Some(macos.to_owned()),
        windows: Some(windows.to_owned()),
        linux: Some(linux.to_owned()),
    }
}

/// Returns platform-specific install hints for a given tool.
pub fn install_hint_for(id: &str) -> (r: InstallHint)
    ensures
        hint_matches(r, id@),
{
    if str_eq(id, "node") {
        hint("brew install node", "sudo apt install nodejs npm", "winget install OpenJS.NodeJS.LTS")
    } else if str_eq(id, "git") {
        hint("brew install git", "sudo apt install git", "winget install Git.Git")
    } else if str_eq(id, "python") {
        hint("brew install python", "sudo apt install python3", "winget install Python.Python.3.12")
    } else if str_eq(id, "rustc") {
        hint(
            "curl --proto '=https' --tlsv1.2 -sSf https://sh.rustup.rs | sh",
            "curl --proto '=https' --tlsv1.2 -sSf https://sh.rustup.rs | sh",
            "winget install Rustlang.Rustup",
        )
    } else if str_eq(id, "docker") {
        hint("brew install --cask docker", "sudo apt install docker.io", "winget install Docker.DockerDesktop")
    } else {
        InstallHint { macos: None, windows: None, linux: None }
    }
}

/// Returns the display name for a tool id.
pub fn display_name_for<'a>(id: &'a str) -> (r: &'a str)
    ensures
        r@ == display_name(id@),
{
    if str_eq(id, "node") {
        "Node.js"
    } else if str_eq(id, "git") {
        "Git"
    } else if str_eq(id, "python") {
        "Python"
    } else if str_eq(id, "rustc") {
        "Rust Compiler"
    } else if str_eq(id, "docker") {
        "Docker"
    } else {
        id
    }
}

} // verus!
