//! The paths the library works with: where the history file and the
//! configuration file are found, and where the backup of the history file
//! is kept. Paths are strings, with Unix separators.

use vstd::prelude::*;
use vstd::string::StringExecFns;

verus! {

/// What `Path::file_name` gives for a path: its last component, unless that
/// is `..` or there is none.
pub uninterp spec fn file_name_of(p: Seq<char>) -> Option<Seq<char>>;

/// What `PathBuf::pop` leaves of a path: its parent, or the path itself where
/// it has none.
pub uninterp spec fn popped_of(p: Seq<char>) -> Seq<char>;

/// What `PathBuf::push` makes of a path and a second one on Unix: the second
/// one where it is absolute; else the two, with one `/` between them where
/// the first is not empty and does not end in `/`.
pub open spec fn pushed_of(base: Seq<char>, tail: Seq<char>) -> Seq<char> {
    if tail.len() > 0 && tail[0] == '/' {
        tail
    } else if base.len() > 0 && base.last() != '/' {
        base + seq!['/'] + tail
    } else {
        base + tail
    }
}

/// Relies on `Path::file_name`: the last component of the path.
#[verifier::external_body]
fn path_file_name(p: &str) -> (r: Option<String>)
    ensures
        r matches Some(n) ==> file_name_of(p@) == Some(n@),
        r is None ==> file_name_of(p@) is None,
{
    std::path::Path::new(p).file_name().map(|n| n.to_string_lossy().into_owned())
}

/// Relies on `PathBuf::pop`: truncates the path to its parent.
#[verifier::external_body]
fn path_pop(p: &str) -> (r: String)
    ensures
        r@ == popped_of(p@),
{
    let mut b = std::path::PathBuf::from(p);
    b.pop();
    b.to_string_lossy().into_owned()
}

/// Relies on `PathBuf::push`: extends `base` with `tail`.
#[verifier::external_body]
fn path_push(base: &str, tail: &str) -> (r: String)
    ensures
        r@ == pushed_of(base@, tail@),
{
    let mut b = std::path::PathBuf::from(base);
    b.push(tail);
    b.to_string_lossy().into_owned()
}

/// The name of the backup of a file named `name`: that name with `.tmp`
/// appended, or `histfile.tmp` where the path has no file name.
pub open spec fn backup_name(name: Option<Seq<char>>) -> Seq<char> {
    match name {
        Some(n) => n + ".tmp"@,
        None => "histfile.tmp"@,
    }
}

/// The backup path of the history file at `p`: beside it, named after it.
pub open spec fn backup_path(p: Seq<char>) -> Seq<char> {
    pushed_of(popped_of(p), backup_name(file_name_of(p)))
}

/// The file name of a backup, from the file name of the history file.
pub fn backup_file_name(name: Option<String>) -> (r: String)
    ensures
        r@ == backup_name(
            match name {
                Some(n) => Some(n@),
                None => None,
            },
        ),
{
    proof {
        reveal_strlit(".tmp");
        reveal_strlit("histfile.tmp");
    }
    match name {
        Some(n) => n.concat(".tmp"),
        None => "histfile.tmp".to_owned(),
    }
}

/// The path where the history file at `hist_file` is kept while it is
/// rewritten.
pub fn get_temp_file(hist_file: &str) -> (r: String)
    ensures
        r@ == backup_path(hist_file@),
{
    let name = path_file_name(hist_file);
    let dir = path_pop(hist_file);
    let file = backup_file_name(name);
    path_push(dir.as_str(), file.as_str())
}

/// The directory that holds the user's configuration: `XDG_CONFIG_HOME`
/// where set, else `.config` in `HOME`; none where neither is set.
pub open spec fn config_dir(xdg_config_home: Option<Seq<char>>, home: Option<Seq<char>>) -> Option<
    Seq<char>,
> {
    match xdg_config_home {
        Some(x) => Some(x),
        None => match home {
            Some(h) => Some(pushed_of(h, ".config"@)),
            None => None,
        },
    }
}

/// The view of an optional string.
pub open spec fn opt_view(s: Option<String>) -> Option<Seq<char>> {
    match s {
        Some(v) => Some(v@),
        None => None,
    }
}

fn get_config_dir(xdg_config_home: Option<String>, home: Option<String>) -> (r: Option<String>)
    ensures
        opt_view(r) == config_dir(opt_view(xdg_config_home), opt_view(home)),
{
    proof {
        reveal_strlit(".config");
    }
    match xdg_config_home {
        Some(x) => Some(x),
        None => match home {
            Some(h) => Some(path_push(h.as_str(), ".config")),
            None => None,
        },
    }
}

/// Where the history file is, from the values of the environment variables
/// `HISTFILE`, `XDG_CONFIG_HOME` and `HOME`: `HISTFILE` where set, else
/// `zsh/histfile` in the configuration directory; none where none is set.
pub fn get_histfile_path(
    histfile: Option<String>,
    xdg_config_home: Option<String>,
    home: Option<String>,
) -> (r: Option<String>)
    ensures
        opt_view(r) == match histfile {
            Some(h) => Some(h@),
            None => match config_dir(opt_view(xdg_config_home), opt_view(home)) {
                Some(d) => Some(pushed_of(d, "zsh/histfile"@)),
                None => None,
            },
        },
{
    proof {
        reveal_strlit("zsh/histfile");
    }
    match histfile {
        Some(h) => Some(h),
        None => match get_config_dir(xdg_config_home, home) {
            Some(d) => Some(path_push(d.as_str(), "zsh/histfile")),
            None => None,
        },
    }
}

/// Where the configuration file is, from the values of `XDG_CONFIG_HOME` and
/// `HOME`: `clean-history/config.json` in the configuration directory; none
/// where neither is set.
pub fn get_config_path(xdg_config_home: Option<String>, home: Option<String>) -> (r: Option<
    String,
>)
    ensures
        opt_view(r) == match config_dir(opt_view(xdg_config_home), opt_view(home)) {
            Some(d) => Some(pushed_of(d, "clean-history/config.json"@)),
            None => None,
        },
{
    proof {
        reveal_strlit("clean-history/config.json");
    }
    match get_config_dir(xdg_config_home, home) {
        Some(d) => Some(path_push(d.as_str(), "clean-history/config.json")),
        None => None,
    }
}

} // verus!
