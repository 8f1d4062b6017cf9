//! Argument records of the companion control tool.
//!
//! These are the plain, parsed forms of the tool's subcommand arguments.
//! Parsing itself is an external collaborator: the surrounding program
//! reads the command line and hands these records to the library's
//! decision functions.

use vstd::prelude::*;

verus! {

/// Arguments of the script download subcommand.
pub struct DownloadScriptArgs {
    /// Device IP or hostname.
    pub device: String,
    /// Script name.
    pub name: String,
    /// File to save the downloaded script into, if given.
    pub file: Option<String>,
    /// Print the script code instead of saving it.
    pub stdout: bool,
    /// Overwrite the file without confirmation.
    pub yes: bool,
}

/// Arguments of the script upload subcommand.
pub struct UploadScriptArgs {
    /// Device IP or hostname.
    pub device: String,
    /// Script name.
    pub name: String,
    /// Script file to upload.
    pub file: String,
    /// Overwrite the script even if one exists and is running.
    pub force: bool,
    /// Enable the script after upload.
    pub enable: bool,
}

/// Arguments of the script list subcommand.
pub struct ListScriptsArgs {
    /// Device IP or hostname.
    pub device: String,
}

/// Arguments of the network browse subcommand.
pub struct BrowseArgs {
    /// Optional comma-separated filter by device type.
    pub device_type: Option<String>,
}

/// Arguments of the configuration set subcommand.
pub struct ConfigSetArgs {
    /// Device IP or hostname.
    pub device: String,
    /// Key-value pairs to modify, each `Component.path.to.key=value`.
    pub pairs: Vec<String>,
}

/// Arguments of the configuration dump subcommand.
pub struct ConfigDumpArgs {
    /// Device IP or hostname.
    pub device: String,
    /// Optional key path naming a subtree to print, e.g. `.wifi.ap`.
    pub subtree: Option<String>,
}

/// The script subcommands.
pub enum ScriptCommand {
    Download(DownloadScriptArgs),
    Upload(UploadScriptArgs),
    List(ListScriptsArgs),
}

} // verus!
