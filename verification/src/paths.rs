//! Where the inventory lives on disk: the platform's application data directory (e.g.
//! `%APPDATA%\KodingKorp\homelab-utils` on Windows, `~/.local/share/homelab-utils` on Linux).
use vstd::prelude::*;
use crate::error::CoreError;

verus! {

#[verifier::external_type_specification]
#[verifier::external_body]
pub struct ExProjectDirs(directories::ProjectDirs);

#[verifier::external_type_specification]
#[verifier::external_body]
pub struct ExPathBuf(std::path::PathBuf);

/// Reverse-DNS qualifier of the application's data directories.
pub const QUALIFIER: &'static str = "dev";
/// Organization of the application's data directories.
pub const ORGANIZATION: &'static str = "KodingKorp";
/// Application name of the application's data directories.
pub const APPLICATION: &'static str = "homelab-utils";
/// File name of the SQLite working store.
pub const DB_FILE: &'static str = "inventory.db";
/// File name of the human-readable JSON export.
pub const EXPORT_FILE: &'static str = "inventory.json";

/// `ProjectDirs::from`: the platform's directories for the application, `None` when the
/// platform yields no home directory. They depend on the environment, so nothing is stated of
/// them.
#[verifier::external_body]
fn dirs_for(qualifier: &str, organization: &str, application: &str) -> Option<directories::ProjectDirs> {
    directories::ProjectDirs::from(qualifier, organization, application)
}

/// `ProjectDirs::data_dir` joined with a file name (`Path::join`). The separator is the
/// platform's, so nothing is stated of the path.
#[verifier::external_body]
fn data_file(dirs: &directories::ProjectDirs, file: &str) -> std::path::PathBuf {
    dirs.data_dir().join(file)
}

/// The directories the platform reported, or `NoDataDir` when it reported none.
pub fn dirs_or_error(found: Option<directories::ProjectDirs>) -> (r: Result<directories::ProjectDirs, CoreError>)
    ensures
        match found {
            Some(d) => r == Ok::<directories::ProjectDirs, CoreError>(d),
            None => r == Err::<directories::ProjectDirs, CoreError>(CoreError::NoDataDir),
        },
{
    match found {
        Some(d) => Ok(d),
        None => Err(CoreError::NoDataDir),
    }
}

/// Platform-appropriate project directories, or `NoDataDir`.
pub fn project_dirs() -> (r: Result<directories::ProjectDirs, CoreError>)
    ensures
        r matches Err(e) ==> e == CoreError::NoDataDir,
{
    dirs_or_error(dirs_for(QUALIFIER, ORGANIZATION, APPLICATION))
}

/// `file` in the data directory of the directories the platform reported, or `NoDataDir` when
/// it reported none.
pub fn data_path(found: Option<directories::ProjectDirs>, file: &str) -> (r: Result<std::path::PathBuf, CoreError>)
    ensures
        r is Ok <==> found is Some,
        found is None ==> r == Err::<std::path::PathBuf, CoreError>(CoreError::NoDataDir),
{
    match dirs_or_error(found) {
        Ok(dirs) => Ok(data_file(&dirs, file)),
        Err(e) => Err(e),
    }
}

/// Default path for the SQLite working store: `inventory.db` in the data directory.
pub fn default_db_path() -> (r: Result<std::path::PathBuf, CoreError>)
    ensures
        r matches Err(e) ==> e == CoreError::NoDataDir,
{
    data_path(dirs_for(QUALIFIER, ORGANIZATION, APPLICATION), DB_FILE)
}

/// Default path for the human-readable JSON export: `inventory.json` in the data directory.
pub fn default_export_path() -> (r: Result<std::path::PathBuf, CoreError>)
    ensures
        r matches Err(e) ==> e == CoreError::NoDataDir,
{
    data_path(dirs_for(QUALIFIER, ORGANIZATION, APPLICATION), EXPORT_FILE)
}

} // verus!
