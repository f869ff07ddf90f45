//! Command-line settings of `pesto`: what the flags override in the
//! configuration, how verbose logging is, and what a run reports.

use vstd::prelude::*;

use crate::text::{decimal, push_chars, push_decimal};

verus! {

/// How much of an upload is hidden on the wire.
#[derive(Clone, Copy, PartialEq, Eq, Structural, Debug)]
pub enum ObfuscateMode {
    /// Mode `none`: the real file name appears in the subject and the yEnc
    /// header.
    Plain,
    /// Mode `subject`: random subject; the yEnc `name=` keeps the real file
    /// name.
    Subject,
    /// Mode `full`: random subject and random yEnc `name=`.
    Full,
}

/// The command-line flags of `pesto`.
pub struct CliArgs {
    /// `--config`: absent, given bare (run the setup), or given a path.
    pub config: Option<Option<std::path::PathBuf>>,
    pub host: Option<String>,
    pub port: Option<u16>,
    pub no_ssl: bool,
    pub connections: Option<usize>,
    pub username: Option<String>,
    pub password: Option<String>,
    pub from: Option<String>,
    pub groups: Vec<String>,
    pub article_size: Option<usize>,
    pub line_length: Option<usize>,
    pub retries: Option<u32>,
    pub retry_delay: Option<u64>,
    pub out: Option<std::path::PathBuf>,
    pub obfuscate: Option<ObfuscateMode>,
    pub par2: Option<u8>,
    pub par2_only: bool,
    pub dry_run: bool,
    pub files: Vec<std::path::PathBuf>,
}

/// The configuration values that flags override; `None` defers to the
/// configuration file.
pub struct Overrides {
    pub host: Option<String>,
    pub port: Option<u16>,
    pub ssl: Option<bool>,
    pub connections: Option<usize>,
    pub username: Option<String>,
    pub password: Option<String>,
    pub from: Option<String>,
    pub groups: Option<Vec<String>>,
    pub article_size: Option<usize>,
    pub line_length: Option<usize>,
    pub retries: Option<u32>,
    pub retry_delay: Option<u64>,
    pub obfuscate: Option<ObfuscateMode>,
    pub dry_run: Option<bool>,
    pub par2: Option<u8>,
    pub par2_only: Option<bool>,
}

/// The text of an optional string.
pub open spec fn opt_text(o: Option<String>) -> Option<Seq<char>> {
    match o {
        Some(s) => Some(s@),
        None => None,
    }
}

/// The texts of a list of strings.
pub open spec fn texts(v: Seq<String>) -> Seq<Seq<char>> {
    v.map_values(|s: String| s@)
}

fn copy_opt(o: &Option<String>) -> (r: Option<String>)
    ensures
        opt_text(r) == opt_text(*o),
{
    match o {
        Some(s) => Some(s.clone()),
        None => None,
    }
}

fn copy_all(v: &Vec<String>) -> (r: Vec<String>)
    ensures
        texts(r@) == texts(v@),
{
    let mut r: Vec<String> = Vec::new();
    let mut i: usize = 0;
    while i < v.len()
        invariant
            0 <= i <= v.len(),
            r@.len() == i,
            forall|k: int| 0 <= k < i ==> #[trigger] r@[k]@ == v@[k]@,
        decreases v.len() - i,
    {
        r.push(v[i].clone());
        i = i + 1;
    }
    assert(texts(r@) =~= texts(v@));
    r
}

impl CliArgs {
    /// Whether `--config` was given without a path: run the setup.
    pub fn wants_wizard(&self) -> (r: bool)
        ensures
            r == (self.config matches Some(None)),
    {
        match &self.config {
            Some(None) => true,
            _ => false,
        }
    }

    /// The configuration overrides the flags make. `--no-ssl` turns TLS off
    /// and its absence defers to the configuration; no `--groups` defers to
    /// the configuration; `--dry-run` and `--par2-only` switch their setting
    /// on and their absence defers.
    pub fn overrides(&self) -> (o: Overrides)
        ensures
            opt_text(o.host) == opt_text(self.host),
            o.port == self.port,
            o.ssl == if self.no_ssl { Some(false) } else { None::<bool> },
            o.connections == self.connections,
            opt_text(o.username) == opt_text(self.username),
            opt_text(o.password) == opt_text(self.password),
            opt_text(o.from) == opt_text(self.from),
            self.groups@.len() == 0 ==> o.groups is None,
            self.groups@.len() > 0 ==> (o.groups matches Some(g) && texts(g@) == texts(self.groups@)),
            o.article_size == self.article_size,
            o.line_length == self.line_length,
            o.retries == self.retries,
            o.retry_delay == self.retry_delay,
            o.obfuscate == self.obfuscate,
            o.dry_run == if self.dry_run { Some(true) } else { None::<bool> },
            o.par2 == self.par2,
            o.par2_only == if self.par2_only { Some(true) } else { None::<bool> },
    {
        Overrides {
            host: copy_opt(&self.host),
            port: self.port,
            ssl: if self.no_ssl { Some(false) } else { None },
            connections: self.connections,
            username: copy_opt(&self.username),
            password: copy_opt(&self.password),
            from: copy_opt(&self.from),
            groups: if self.groups.len() == 0 { None } else { Some(copy_all(&self.groups)) },
            article_size: self.article_size,
            line_length: self.line_length,
            retries: self.retries,
            retry_delay: self.retry_delay,
            obfuscate: self.obfuscate,
            dry_run: if self.dry_run { Some(true) } else { None },
            par2: self.par2,
            par2_only: if self.par2_only { Some(true) } else { None },
        }
    }
}

/// How much `-v` logging shows.
#[derive(Clone, Copy, PartialEq, Eq, Structural, Debug)]
pub enum LogLevel {
    Info,
    Debug,
    Trace,
}

/// The logging level for `verbose` `-v` flags: none for 0, INFO for one,
/// DEBUG for two, TRACE for three or more.
pub fn log_level(verbose: u8) -> (r: Option<LogLevel>)
    ensures
        verbose == 0 ==> r is None,
        verbose == 1 ==> r == Some(LogLevel::Info),
        verbose == 2 ==> r == Some(LogLevel::Debug),
        verbose >= 3 ==> r == Some(LogLevel::Trace),
{
    if verbose == 0 {
        None
    } else if verbose == 1 {
        Some(LogLevel::Info)
    } else if verbose == 2 {
        Some(LogLevel::Debug)
    } else {
        Some(LogLevel::Trace)
    }
}

/// The exit status of a run: 130 when interrupted, 1 when a segment failed,
/// 0 otherwise.
pub fn exit_code(cancelled: bool, failures: usize) -> (r: i32)
    ensures
        r == if cancelled { 130i32 } else if failures > 0 { 1i32 } else { 0i32 },
{
    if cancelled {
        130
    } else if failures > 0 {
        1
    } else {
        0
    }
}

/// Where the `.nzb` goes: a path given as such, or a file name as text.
pub enum NzbTarget {
    Path(std::path::PathBuf),
    Name(String),
}

/// The `.nzb` destination: `--out` wins, then the configuration's
/// `output.nzb`, then, for a directory upload, a name made from the root
/// folder; none when all three are missing.
pub fn nzb_destination(
    out: Option<std::path::PathBuf>,
    configured: Option<String>,
    root: Option<String>,
) -> (r: Option<NzbTarget>)
    ensures
        out is Some ==> (r matches Some(NzbTarget::Path(p)) && Some(p) == out),
        out is None && configured is Some ==> (r matches Some(NzbTarget::Name(n)) && Some(n@)
            == opt_text(configured)),
        out is None && configured is None && root is Some ==> (r matches Some(NzbTarget::Name(n))
            && Some(n@) == (match opt_text(root) {
            Some(t) => Some(t + ".nzb"@),
            None => None,
        })),
        out is None && configured is None && root is None ==> r is None,
{
    match out {
        Some(p) => Some(NzbTarget::Path(p)),
        None => match configured {
            Some(n) => Some(NzbTarget::Name(n)),
            None => match root {
                Some(r) => {
                    let mut n = r;
                    push_chars(&mut n, ".nzb");
                    Some(NzbTarget::Name(n))
                },
                None => None,
            },
        },
    }
}

/// The line summing up an upload: file count, subfolder count when there
/// are subfolders, and size, with singular or plural words.
pub open spec fn upload_line_text(files: nat, folders: nat, size: Seq<char>) -> Seq<char> {
    let files_word = if files == 1 { "file"@ } else { "files"@ };
    if folders > 0 {
        let folders_word = if folders == 1 { "subfolder"@ } else { "subfolders"@ };
        "upload: "@ + decimal(files) + " "@ + files_word + " · "@ + decimal(folders) + " "@
            + folders_word + " · "@ + size
    } else {
        "upload: "@ + decimal(files) + " "@ + files_word + " · "@ + size
    }
}

/// The line summing up an upload of `files` files in `folders` subfolders
/// whose size reads `size`.
pub fn upload_line(files: usize, folders: usize, size: &str) -> (r: String)
    ensures
        r@ == upload_line_text(files as nat, folders as nat, size@),
{
    let mut r = String::new();
    push_chars(&mut r, "upload: ");
    push_decimal(&mut r, files as u64);
    push_chars(&mut r, " ");
    if files == 1 {
        push_chars(&mut r, "file");
    } else {
        push_chars(&mut r, "files");
    }
    push_chars(&mut r, " · ");
    if folders > 0 {
        push_decimal(&mut r, folders as u64);
        push_chars(&mut r, " ");
        if folders == 1 {
            push_chars(&mut r, "subfolder");
        } else {
            push_chars(&mut r, "subfolders");
        }
        push_chars(&mut r, " · ");
    }
    push_chars(&mut r, size);
    assert(r@ =~= upload_line_text(files as nat, folders as nat, size@));
    r
}

} // verus!

verus! {

/// The orientation screen shown when `pesto` runs with nothing to post,
/// for the default configuration path (when one can be located) and
/// whether a file is there.
pub open spec fn welcome(config_path: Option<Seq<char>>, exists: bool) -> Seq<char> {
    "pesto — fast, lean Usenet poster\n\n"@
    + "Getting started:\n"@
    + "  pesto <PATH>...     post files or directories to Usenet\n"@
    + "  pesto --config      create your config with a guided wizard\n"@
    + "  pesto --help        show every option in detail\n\n"@
    + match config_path {
        Some(p) => if exists {
            "Config found: "@ + p + "\n"@
        } else {
            "No config yet. Run `pesto --config` to create one at:\n"@ + "  "@ + p + "\n"@
        },
        None => "Set $HOME or $XDG_CONFIG_HOME so pesto can locate a config file,\nor pass every setting as a flag (see `pesto --help`).\n"@,
    }
}

/// The orientation screen.
pub fn welcome_text(config_path: Option<&str>, exists: bool) -> (r: String)
    ensures
        r@ == welcome(
            match config_path {
                Some(p) => Some(p@),
                None => None,
            },
            exists,
        ),
{
    let mut r = String::new();
    push_chars(&mut r, "pesto — fast, lean Usenet poster\n\n");
    push_chars(&mut r, "Getting started:\n");
    push_chars(&mut r, "  pesto <PATH>...     post files or directories to Usenet\n");
    push_chars(&mut r, "  pesto --config      create your config with a guided wizard\n");
    push_chars(&mut r, "  pesto --help        show every option in detail\n\n");
    match config_path {
        Some(p) => {
            if exists {
                push_chars(&mut r, "Config found: ");
                push_chars(&mut r, p);
                push_chars(&mut r, "\n");
            } else {
                push_chars(&mut r, "No config yet. Run `pesto --config` to create one at:\n");
                push_chars(&mut r, "  ");
                push_chars(&mut r, p);
                push_chars(&mut r, "\n");
            }
        },
        None => {
            push_chars(
                &mut r,
                "Set $HOME or $XDG_CONFIG_HOME so pesto can locate a config file,\nor pass every setting as a flag (see `pesto --help`).\n",
            );
        },
    }
    assert(r@ =~= welcome(
        match config_path {
            Some(p) => Some(p@),
            None => None,
        },
        exists,
    ));
    r
}

} // verus!
