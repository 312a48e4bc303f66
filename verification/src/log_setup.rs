//! Where the log goes, and the configuration of the logger.

use vstd::prelude::*;

use crate::text::chars_of;

verus! {

/// The directory of the log, for a program in `root` and a configured path: `/dev/null` stands for
/// no log, and without a path the log goes to where the program is.
pub open spec fn directory_of(root: Seq<char>, log_path: Option<Seq<char>>) -> Option<Seq<char>> {
    match log_path {
        None => Some(root),
        Some(path) => if path == "/dev/null"@ {
            None
        } else {
            Some(path)
        },
    }
}

/// The directory of the log, if there is to be a log. `root` is the directory of the program.
pub fn log_directory(root: &str, log_path: Option<String>) -> (r: Option<String>)
    ensures
        r.deep_view() == directory_of(root@, log_path.deep_view()),
{
    match log_path {
        None => Some(root.to_owned()),
        Some(path) => {
            let off = "/dev/null".to_owned();
            if path == off {
                None
            } else {
                Some(path)
            }
        },
    }
}

/// The logger's configuration up to the directory of the log.
pub const CONFIG_HEAD: &'static str = "refresh_rate: 30 seconds
appenders:
  rolling_file:
    kind: rolling_file
    path: ";

/// The logger's configuration between the two places that name the directory.
pub const CONFIG_MIDDLE: &'static str = "/iotnet.log
    append: true
    encoder:
      pattern: \"{d} [{f}:{L}] {h({l})} {M}:{m}{n}\"
    policy:
      kind: compound
      trigger:
        kind: size
        limit: 10 mb
      roller:
        kind: fixed_window
        pattern: ";

/// The rest of the logger's configuration.
pub const CONFIG_TAIL: &'static str = "/iotnet.{}.log
        base: 1
        count: 5

root:
  level: info
  appenders:
    - rolling_file";

/// The logger's configuration for a log in the given directory.
pub open spec fn logger_config_text(dir: Seq<char>) -> Seq<char> {
    CONFIG_HEAD@ + dir + CONFIG_MIDDLE@ + dir + CONFIG_TAIL@
}

/// The logger's configuration for a log in the given directory.
pub fn logger_config(dir: &str) -> (r: String)
    ensures
        r@ == logger_config_text(dir@),
{
    let mut s = CONFIG_HEAD.to_owned();
    s.append(dir);
    s.append(CONFIG_MIDDLE);
    s.append(dir);
    s.append(CONFIG_TAIL);
    s
}

/// The path of the logger's configuration in a directory.
pub open spec fn config_path_of(dir: Seq<char>) -> Seq<char> {
    if dir.len() == 0 || dir.last() == '/' {
        dir + "log4rs.yaml"@
    } else {
        dir + "/log4rs.yaml"@
    }
}

/// How the logger is started: the directory is created if asked for, then the configuration is
/// written if there is one to write, and then the logger starts from the configuration.
#[derive(Debug, PartialEq, Eq)]
pub struct LogPlan {
    /// Whether the directory of the log has to be created.
    pub create_dir: bool,
    /// The configuration to write, if it has to be written.
    pub write_config: Option<String>,
    /// The path of the configuration.
    pub config_path: String,
}

/// How the logger is started with its log in `dir`. What exists already is left alone: neither is
/// the directory created again nor is the configuration overwritten.
pub fn log_plan(dir: &str, dir_exists: bool, config_exists: bool) -> (r: LogPlan)
    ensures
        r.create_dir == !dir_exists,
        r.write_config.deep_view() == if config_exists {
            None
        } else {
            Some(logger_config_text(dir@))
        },
        r.config_path@ == config_path_of(dir@),
{
    let write_config = if config_exists {
        None
    } else {
        Some(logger_config(dir))
    };
    LogPlan { create_dir: !dir_exists, write_config, config_path: config_path(dir) }
}

/// The path of the logger's configuration in a directory.
pub fn config_path(dir: &str) -> (r: String)
    ensures
        r@ == config_path_of(dir@),
{
    let cs = chars_of(dir);
    let mut s = dir.to_owned();
    if cs.len() == 0 || cs[cs.len() - 1] == '/' {
        s.append("log4rs.yaml");
    } else {
        s.append("/log4rs.yaml");
    }
    s
}

/// The log goes to the configured path as it is written, unless that is `/dev/null`, which turns
/// the log off; without a path it goes to where the program is.
pub proof fn law_log_goes_where_configured(root: Seq<char>, path: Seq<char>)
    ensures
        directory_of(root, None) == Some(root),
        path != "/dev/null"@ ==> directory_of(root, Some(path)) == Some(path),
        directory_of(root, Some("/dev/null"@)) is None,
{
}

/// The logger's configuration lies in the directory of the log under its own name, and names that
/// directory for the log and for the logs that were rolled over.
pub proof fn law_configuration_names_the_directory(dir: Seq<char>)
    ensures
        dir.len() > 0 && dir.last() != '/' ==> config_path_of(dir) == dir + seq!['/']
            + "log4rs.yaml"@,
        dir.len() == 0 || dir.last() == '/' ==> config_path_of(dir) == dir + "log4rs.yaml"@,
        logger_config_text(dir).len() == CONFIG_HEAD@.len() + CONFIG_MIDDLE@.len()
            + CONFIG_TAIL@.len() + 2 * dir.len(),
        (CONFIG_HEAD@ + dir + CONFIG_MIDDLE@).is_prefix_of(logger_config_text(dir)),
        (dir + CONFIG_TAIL@).is_suffix_of(logger_config_text(dir)),
{
    reveal_strlit("/log4rs.yaml");
    reveal_strlit("log4rs.yaml");
    assert("/log4rs.yaml"@ =~= seq!['/'] + "log4rs.yaml"@);
    if dir.len() > 0 && dir.last() != '/' {
        assert(config_path_of(dir) =~= dir + seq!['/'] + "log4rs.yaml"@);
    }
}

} // verus!
