use vstd::prelude::*;
use directories::ProjectDirs;
use crate::text::opt_view;

verus! {

/// The platform's directories for a project, from the `directories` crate.
#[verifier::external_type_specification]
#[verifier::external_body]
pub struct ExProjectDirs(directories::ProjectDirs);

/// The names this application's directories are known by: qualifier,
/// organization and application.
pub open spec fn app_names() -> (Seq<char>, Seq<char>, Seq<char>) {
    (seq!['d', 'e'], Seq::empty(), seq!['K', 'T', 'a', 'i', 'l'])
}

/// `directories::ProjectDirs::from`: the project's directories as the
/// operating system's conventions place them, or `None` where no home
/// directory can be found. The result depends on the environment, so
/// nothing is stated of it; it is asked for this application's names only.
#[verifier::external_body]
fn project_dirs(qualifier: &str, organization: &str, application: &str) -> Option<ProjectDirs>
    requires
        (qualifier@, organization@, application@) == app_names(),
{
    ProjectDirs::from(qualifier, organization, application)
}

/// `ProjectDirs::data_dir` as text, with bytes that are not UTF-8
/// replaced. The directory comes from the environment, so nothing is
/// stated of it.
#[verifier::external_body]
fn data_dir_text(dirs: &ProjectDirs) -> String {
    dirs.data_dir().to_string_lossy().into_owned()
}

/// `ProjectDirs::config_dir` as text, with bytes that are not UTF-8
/// replaced. The directory comes from the environment, so nothing is
/// stated of it.
#[verifier::external_body]
fn config_dir_text(dirs: &ProjectDirs) -> String {
    dirs.config_dir().to_string_lossy().into_owned()
}

/// The path `base` joined with `part`, as `std::path::Path::join` builds it.
pub uninterp spec fn spec_path_join(base: Seq<char>, part: Seq<char>) -> Seq<char>;

/// Joins `part` to `base` with `std::path::Path::join`, as text. The result
/// depends on the two strings alone.
#[verifier::external_body]
pub(crate) fn join_path(base: &str, part: &str) -> (r: String)
    ensures
        r@ == spec_path_join(base@, part@),
{
    std::path::Path::new(base).join(part).to_string_lossy().into_owned()
}

/// The directories of this application. Whether there are any, and where
/// they lie, the platform and the environment (the home directory) decide.
pub fn root_dir() -> Option<ProjectDirs> {
    proof {
        reveal_strlit("de");
        reveal_strlit("");
        reveal_strlit("KTail");
        assert("de"@ =~= app_names().0);
        assert(""@ =~= app_names().1);
        assert("KTail"@ =~= app_names().2);
    }
    project_dirs("de", "", "KTail")
}

/// Where the logs go, given the application's data directory: its `logs`
/// directory, or the working directory where there is none.
pub open spec fn log_dir_of(data_dir: Option<Seq<char>>) -> Seq<char> {
    match data_dir {
        Some(d) => spec_path_join(d, "logs"@),
        None => "."@,
    }
}

/// Where the logs go, given the application's data directory.
pub fn log_dir_from(data_dir: Option<String>) -> (r: String)
    ensures
        r@ == log_dir_of(opt_view(data_dir)),
{
    match data_dir {
        Some(d) => join_path(d.as_str(), "logs"),
        None => ".".to_owned(),
    }
}

/// Where the logs go: the `logs` directory in the application's data
/// directory, or the working directory where there is none.
pub fn log_dir() -> (r: String)
    ensures
        r@ == "."@ || exists|d: Seq<char>| r@ == spec_path_join(d, "logs"@),
{
    let data_dir = match root_dir() {
        Some(dirs) => Some(data_dir_text(&dirs)),
        None => None,
    };
    log_dir_from(data_dir)
}

/// The configuration file in the configuration directory `config_dir`,
/// where there is one.
pub open spec fn config_file_of(config_dir: Option<Seq<char>>) -> Option<Seq<char>> {
    match config_dir {
        Some(d) => Some(spec_path_join(d, "config.json"@)),
        None => None,
    }
}

/// The configuration file `config.json` in the configuration directory
/// `config_dir`; none where there is no such directory.
pub fn config_file_from(config_dir: Option<String>) -> (r: Option<String>)
    ensures
        opt_view(r) == config_file_of(opt_view(config_dir)),
{
    match config_dir {
        Some(d) => Some(join_path(d.as_str(), "config.json")),
        None => None,
    }
}

/// The application's configuration directory, where there is one. Like
/// `root_dir`, the platform and the environment decide it.
pub fn config_dir() -> Option<String> {
    match root_dir() {
        Some(dirs) => Some(config_dir_text(&dirs)),
        None => None,
    }
}

} // verus!
