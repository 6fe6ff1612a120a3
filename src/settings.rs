//! Run configuration: values given on the command line win over those of a
//! configuration file, which win over the built-in defaults, field by field.

use vstd::prelude::*;
use crate::text::{append_str, chars_of, contains, occurs_at, opt_view};

verus! {

/// Values that the command line or a configuration file may give; `None`
/// where a value was not given.
#[derive(Clone, Debug)]
pub struct Args {
    /// The configuration file to read.
    pub config: Option<String>,
    /// The directory, or glob, of the page templates.
    pub templates: Option<String>,
    /// Where the generated files go.
    pub output: Option<String>,
    /// Where the markdown files are.
    pub source: Option<String>,
    /// How many files count as recent.
    pub recent: Option<u32>,
    /// The blog's base URL.
    pub url: Option<String>,
    /// A shorter base URL, if there is one.
    pub short_url: Option<String>,
    /// Order by creation time.
    pub by_time: Option<bool>,
    /// Order by file name.
    pub by_name: Option<bool>,
    /// Only create a new post.
    pub new: Option<bool>,
}

/// The settings of one run.
#[derive(Clone, Debug)]
pub struct Settings {
    /// The glob of the page templates.
    pub templates: String,
    /// Where the generated files go.
    pub output: String,
    /// Where the markdown files are.
    pub source: String,
    /// How many files count as recent.
    pub recent: u32,
    /// The blog's base URL.
    pub url: String,
    /// A shorter base URL, if there is one.
    pub short_url: Option<String>,
    /// Order by creation time.
    pub by_time: bool,
    /// Order by file name.
    pub by_name: bool,
    /// Only create a new post.
    pub new: bool,
}

/// `given` if there is one, else `fallback`.
pub open spec fn pick<T>(given: Option<T>, fallback: T) -> T {
    match given {
        Some(v) => v,
        None => fallback,
    }
}

/// `given` if there is one, else `fallback`, for an optional setting.
pub open spec fn pick_opt<T>(given: Option<T>, fallback: Option<T>) -> Option<T> {
    match given {
        Some(v) => Some(v),
        None => fallback,
    }
}

/// Whether `r` is `defaults` overlaid with the values that `value` gives.
pub open spec fn is_backfill(r: Settings, value: Args, defaults: Settings) -> bool {
    &&& r.templates == pick(value.templates, defaults.templates)
    &&& r.output == pick(value.output, defaults.output)
    &&& r.source == pick(value.source, defaults.source)
    &&& r.recent == pick(value.recent, defaults.recent)
    &&& r.url == pick(value.url, defaults.url)
    &&& r.short_url == pick_opt(value.short_url, defaults.short_url)
    &&& r.by_time == pick(value.by_time, defaults.by_time)
    &&& r.by_name == pick(value.by_name, defaults.by_name)
    &&& r.new == pick(value.new, defaults.new)
}

/// Whether `s` holds the built-in defaults.
pub open spec fn is_default(s: Settings) -> bool {
    &&& s.templates@ == "template/*"@
    &&& s.output@ == "archive"@
    &&& s.source@ == "source"@
    &&& s.recent == 10
    &&& s.url@ == "https://blog.unitedheroes.net"@
    &&& s.short_url is None
    &&& !s.by_time
    &&& s.by_name
    &&& !s.new
}

/// A templates setting that names no glob stands for every file of that
/// directory.
pub open spec fn template_glob(t: Seq<char>) -> Seq<char> {
    if t.contains('*') {
        t
    } else {
        t + seq!['/', '*']
    }
}

impl Default for Settings {
    fn default() -> (r: Settings)
        ensures
            is_default(r),
    {
        Settings {
            templates: "template/*".to_owned(),
            output: "archive".to_owned(),
            source: "source".to_owned(),
            recent: 10,
            url: "https://blog.unitedheroes.net".to_owned(),
            short_url: None,
            by_time: false,
            by_name: true,
            new: false,
        }
    }
}

impl Args {
    /// The configuration file to read: the one given, else `config.toml`.
    pub fn config_file(&self) -> (r: String)
        ensures
            r@ == pick(opt_view(self.config), "config.toml"@),
    {
        match &self.config {
            Some(c) => c.clone(),
            None => "config.toml".to_owned(),
        }
    }
}

/// No values given.
pub open spec fn no_args() -> Args {
    Args {
        config: None,
        templates: None,
        output: None,
        source: None,
        recent: None,
        url: None,
        short_url: None,
        by_time: None,
        by_name: None,
        new: None,
    }
}

/// The values of the configuration file, if one was read.
pub open spec fn file_args(file: Option<Args>) -> Args {
    match file {
        Some(a) => a,
        None => no_args(),
    }
}

/// The templates setting given by `upper`, else by `lower`, else the default.
pub open spec fn layered_templates(upper: Args, lower: Args) -> Seq<char> {
    pick(opt_view(upper.templates), pick(opt_view(lower.templates), "template/*"@))
}

/// Whether every setting of `r` but the templates is the value that `upper`
/// gives, else the one that `lower` gives, else the default.
pub open spec fn is_layered(r: Settings, upper: Args, lower: Args) -> bool {
    &&& r.output@ == pick(opt_view(upper.output), pick(opt_view(lower.output), "archive"@))
    &&& r.source@ == pick(opt_view(upper.source), pick(opt_view(lower.source), "source"@))
    &&& r.recent == pick(upper.recent, pick(lower.recent, 10))
    &&& r.url@ == pick(opt_view(upper.url), pick(opt_view(lower.url), "https://blog.unitedheroes.net"@))
    &&& opt_view(r.short_url) == pick_opt(opt_view(upper.short_url), opt_view(lower.short_url))
    &&& r.by_time == pick(upper.by_time, pick(lower.by_time, false))
    &&& r.by_name == pick(upper.by_name, pick(lower.by_name, true))
    &&& r.new == pick(upper.new, pick(lower.new, false))
}

impl Settings {
    /// `defaults`, overlaid with the values that `value` gives.
    pub fn backfill_using(value: Args, defaults: Settings) -> (r: Settings)
        ensures
            is_backfill(r, value, defaults),
    {
        Settings {
            templates: value.templates.unwrap_or(defaults.templates),
            output: value.output.unwrap_or(defaults.output),
            source: value.source.unwrap_or(defaults.source),
            recent: value.recent.unwrap_or(defaults.recent),
            url: value.url.unwrap_or(defaults.url),
            short_url: match value.short_url {
                Some(s) => Some(s),
                None => defaults.short_url,
            },
            by_time: value.by_time.unwrap_or(defaults.by_time),
            by_name: value.by_name.unwrap_or(defaults.by_name),
            new: value.new.unwrap_or(defaults.new),
        }
    }

    /// The built-in defaults, overlaid with the values that `value` gives.
    pub fn from_args(value: Args) -> (r: Settings)
        ensures
            is_layered(r, value, no_args()),
            r.templates@ == layered_templates(value, no_args()),
    {
        Self::backfill_using(value, Settings::default())
    }

    /// The settings of a run: the command line's values over the
    /// configuration file's (when one was read) over the defaults, with the
    /// templates setting turned into a glob.
    pub fn new(cli: Args, file: Option<Args>) -> (r: Settings)
        ensures
            is_layered(r, cli, file_args(file)),
            r.templates@ == template_glob(layered_templates(cli, file_args(file))),
    {
        let base = match file {
            Some(f) => Settings::from_args(f),
            None => Settings::default(),
        };
        let mut s = Settings::backfill_using(cli, base);
        let glob = chars_of(s.templates.as_str());
        let star: Vec<char> = vec!['*'];
        let has_star = contains(&glob, &star);
        assert(has_star == glob@.contains('*')) by {
            if glob@.contains('*') {
                let i = choose|i: int| 0 <= i < glob@.len() && glob@[i] == '*';
                assert(glob@.subrange(i, i + 1) =~= star@);
                assert(occurs_at(glob@, star@, i));
            }
            if has_star {
                let i = choose|i: int| occurs_at(glob@, star@, i);
                assert(glob@.subrange(i, i + 1)[0] == '*');
            }
        }
        if !has_star {
            append_str(&mut s.templates, "/*");
            proof {
                reveal_strlit("/*");
            }
        }
        s
    }

    /// The base URL for short links: the short URL if there is one, else the
    /// blog's URL.
    pub fn short_url_or_url(&self) -> (r: String)
        ensures
            r@ == pick(opt_view(self.short_url), self.url@),
    {
        match &self.short_url {
            Some(s) => s.clone(),
            None => self.url.clone(),
        }
    }
}

} // verus!
