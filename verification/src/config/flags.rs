//! The flags of the command line.

use crate::config::{ConfigCaching, ConfigFiles, Runtime};
use crate::paths::{expand_path, home_expanded};
use crate::text::{duplicate, str_eq};
use vstd::prelude::*;

verus! {

/// What the command line asked for.
#[derive(Debug)]
pub struct SherlockFlags {
    pub config_dir: Option<String>,
    pub config: Option<String>,
    pub fallback: Option<String>,
    pub style: Option<String>,
    pub ignore: Option<String>,
    pub alias: Option<String>,
    pub display_raw: bool,
    pub center_raw: bool,
    pub cache: Option<String>,
    pub daemonize: bool,
    pub method: Option<String>,
    pub field: Option<String>,
    pub sub_menu: Option<String>,
    pub multi: bool,
    pub photo_mode: bool,
    pub input: Option<bool>,
    pub placeholder: Option<String>,
}

/// The index of the first argument from `from` on that is `flag`, or `-1`.
pub open spec fn position_of(args: Seq<Seq<char>>, flag: Seq<char>, from: int) -> int
    decreases args.len() - from,
{
    if from < 0 || from >= args.len() {
        -1
    } else if args[from] == flag {
        from
    } else {
        position_of(args, flag, from + 1)
    }
}

/// Whether `flag` is among the arguments.
pub open spec fn flag_given(args: Seq<Seq<char>>, flag: Seq<char>) -> bool {
    position_of(args, flag, 0) >= 0
}

/// The argument after the first `flag`, if both are there.
pub open spec fn value_after(args: Seq<Seq<char>>, flag: Seq<char>) -> Option<Seq<char>> {
    let at = position_of(args, flag, 0);
    if at >= 0 && at + 1 < args.len() {
        Some(args[at + 1])
    } else {
        None
    }
}

/// The value of a flag: what follows its long form, else what follows its
/// short form.
pub open spec fn flag_value(args: Seq<Seq<char>>, flag: Seq<char>, short: Option<Seq<char>>) -> Option<
    Seq<char>,
> {
    if value_after(args, flag) is Some {
        value_after(args, flag)
    } else {
        match short {
            Some(s) => value_after(args, s),
            None => None,
        }
    }
}

/// What a text says as a truth value: `true`, `false`, or nothing.
pub open spec fn truth_of(text: Seq<char>) -> Option<bool> {
    if text == "true"@ {
        Some(true)
    } else if text == "false"@ {
        Some(false)
    } else {
        None
    }
}

/// The truth value of a flag: what follows its long form where that is a
/// truth value, else what follows its short form.
pub open spec fn flag_truth(args: Seq<Seq<char>>, flag: Seq<char>, short: Option<Seq<char>>) -> Option<
    bool,
> {
    let long = match value_after(args, flag) {
        Some(v) => truth_of(v),
        None => None,
    };
    if long is Some {
        long
    } else {
        match short {
            Some(s) => match value_after(args, s) {
                Some(v) => truth_of(v),
                None => None,
            },
            None => None,
        }
    }
}

fn find_flag(args: &Vec<String>, flag: &str) -> (found: Option<usize>)
    ensures
        match found {
            Some(i) => i < args@.len() && i == position_of(args.deep_view(), flag@, 0),
            None => position_of(args.deep_view(), flag@, 0) == -1,
        },
{
    let mut i: usize = 0;
    while i < args.len()
        invariant
            i <= args@.len(),
            position_of(args.deep_view(), flag@, 0) == position_of(args.deep_view(), flag@, i as int),
        decreases args@.len() - i,
    {
        assert(args.deep_view()[i as int] == args@[i as int]@);
        if str_eq(args[i].as_str(), flag) {
            return Some(i);
        }
        i += 1;
    }
    None
}

fn next_after<'a>(args: &'a Vec<String>, flag: &str) -> (value: Option<&'a str>)
    ensures
        value.deep_view() == value_after(args.deep_view(), flag@),
{
    match find_flag(args, flag) {
        Some(i) => {
            if args.len() - i > 1 {
                assert(args.deep_view()[i + 1] == args@[i + 1]@);
                Some(args[i + 1].as_str())
            } else {
                None
            }
        },
        None => None,
    }
}

fn parse_truth(text: &str) -> (truth: Option<bool>)
    ensures
        truth == truth_of(text@),
{
    if str_eq(text, "true") {
        Some(true)
    } else if str_eq(text, "false") {
        Some(false)
    } else {
        None
    }
}

impl SherlockFlags {
    /// Whether `flag` is among the arguments.
    pub fn has_flag(args: &Vec<String>, flag: &str) -> (given: bool)
        ensures
            given == flag_given(args.deep_view(), flag@),
    {
        find_flag(args, flag).is_some()
    }

    /// The value of a flag: the argument after `flag`, else the argument
    /// after `short`.
    pub fn extract_flag_value(args: &Vec<String>, flag: &str, short: Option<&str>) -> (value: Option<
        String,
    >)
        ensures
            value.deep_view() == flag_value(args.deep_view(), flag@, short.deep_view()),
    {
        match next_after(args, flag) {
            Some(v) => Some(duplicate(v)),
            None => match short {
                Some(s) => match next_after(args, s) {
                    Some(v) => Some(duplicate(v)),
                    None => None,
                },
                None => None,
            },
        }
    }

    /// The truth value of a flag.
    pub fn extract_flag_truth(args: &Vec<String>, flag: &str, short: Option<&str>) -> (value: Option<
        bool,
    >)
        ensures
            value == flag_truth(args.deep_view(), flag@, short.deep_view()),
    {
        let long = match next_after(args, flag) {
            Some(v) => parse_truth(v),
            None => None,
        };
        match long {
            Some(_) => long,
            None => match short {
                Some(s) => match next_after(args, s) {
                    Some(v) => parse_truth(v),
                    None => None,
                },
                None => None,
            },
        }
    }

    /// Reads the flags from the arguments of the command line.
    pub fn new(args: &Vec<String>) -> (flags: Self)
        ensures
            flags.config_dir.deep_view() == flag_value(args.deep_view(), "--config-dir"@, None),
            flags.config.deep_view() == flag_value(args.deep_view(), "--config"@, None),
            flags.fallback.deep_view() == flag_value(args.deep_view(), "--fallback"@, None),
            flags.style.deep_view() == flag_value(args.deep_view(), "--style"@, None),
            flags.ignore.deep_view() == flag_value(args.deep_view(), "--ignore"@, None),
            flags.alias.deep_view() == flag_value(args.deep_view(), "--alias"@, None),
            flags.cache.deep_view() == flag_value(args.deep_view(), "--cache"@, None),
            flags.display_raw == flag_given(args.deep_view(), "--display-raw"@),
            flags.center_raw == flag_given(args.deep_view(), "--center"@),
            flags.daemonize == flag_given(args.deep_view(), "--daemonize"@),
            flags.multi == flag_given(args.deep_view(), "--multi"@),
            flags.photo_mode == flag_given(args.deep_view(), "--photo"@),
            flags.sub_menu.deep_view() == flag_value(args.deep_view(), "--sub-menu"@, Some("-sm"@)),
            flags.method.deep_view() == flag_value(args.deep_view(), "--method"@, None),
            flags.field.deep_view() == flag_value(args.deep_view(), "--field"@, None),
            flags.input == flag_truth(args.deep_view(), "--input"@, None),
            flags.placeholder.deep_view() == flag_value(
                args.deep_view(),
                "--placeholder"@,
                Some("-p"@),
            ),
    {
        SherlockFlags {
            config_dir: SherlockFlags::extract_flag_value(args, "--config-dir", None),
            config: SherlockFlags::extract_flag_value(args, "--config", None),
            fallback: SherlockFlags::extract_flag_value(args, "--fallback", None),
            style: SherlockFlags::extract_flag_value(args, "--style", None),
            ignore: SherlockFlags::extract_flag_value(args, "--ignore", None),
            alias: SherlockFlags::extract_flag_value(args, "--alias", None),
            display_raw: SherlockFlags::has_flag(args, "--display-raw"),
            center_raw: SherlockFlags::has_flag(args, "--center"),
            cache: SherlockFlags::extract_flag_value(args, "--cache", None),
            daemonize: SherlockFlags::has_flag(args, "--daemonize"),
            sub_menu: SherlockFlags::extract_flag_value(args, "--sub-menu", Some("-sm")),
            method: SherlockFlags::extract_flag_value(args, "--method", None),
            field: SherlockFlags::extract_flag_value(args, "--field", None),
            multi: SherlockFlags::has_flag(args, "--multi"),
            photo_mode: SherlockFlags::has_flag(args, "--photo"),
            input: SherlockFlags::extract_flag_truth(args, "--input", None),
            placeholder: SherlockFlags::extract_flag_value(args, "--placeholder", Some("-p")),
        }
    }

    /// Lets the flags override the configuration. A path that the flags
    /// give takes the place of the configured one, and every path has a
    /// leading `~/` replaced by `home`. The settings of this run are taken
    /// from the flags, which give them up.
    pub fn apply_flags(
        &mut self,
        files: &mut ConfigFiles,
        caching: &mut ConfigCaching,
        runtime: &mut Runtime,
        placeholder: &mut String,
        home: &str,
    )
        ensures
            final(files).config@ == home_expanded(
                chosen(old(self).config.deep_view(), old(files).config@),
                home@,
            ),
            final(files).fallback@ == home_expanded(
                chosen(old(self).fallback.deep_view(), old(files).fallback@),
                home@,
            ),
            final(files).css@ == home_expanded(
                chosen(old(self).style.deep_view(), old(files).css@),
                home@,
            ),
            final(files).alias@ == home_expanded(
                chosen(old(self).alias.deep_view(), old(files).alias@),
                home@,
            ),
            final(files).ignore@ == home_expanded(
                chosen(old(self).ignore.deep_view(), old(files).ignore@),
                home@,
            ),
            final(files).actions == old(files).actions,
            final(caching).cache@ == home_expanded(
                chosen(old(self).cache.deep_view(), old(caching).cache@),
                home@,
            ),
            final(caching).enable == old(caching).enable,
            final(runtime).sub_menu == old(self).sub_menu,
            final(runtime).method == old(self).method,
            final(runtime).input == old(self).input,
            final(runtime).field == old(self).field,
            final(runtime).center == old(self).center_raw,
            final(runtime).multi == old(self).multi,
            final(runtime).display_raw == old(self).display_raw,
            final(runtime).photo_mode == old(self).photo_mode,
            final(runtime).daemonize == old(self).daemonize,
            final(placeholder)@ == chosen(old(self).placeholder.deep_view(), old(placeholder)@),
            final(self).sub_menu is None,
            final(self).method is None,
            final(self).input is None,
            final(self).field is None,
            final(self).placeholder is None,
    {
        files.config = expand_path(pick(&self.config, files.config.as_str()), home);
        files.fallback = expand_path(pick(&self.fallback, files.fallback.as_str()), home);
        files.css = expand_path(pick(&self.style, files.css.as_str()), home);
        files.alias = expand_path(pick(&self.alias, files.alias.as_str()), home);
        files.ignore = expand_path(pick(&self.ignore, files.ignore.as_str()), home);
        caching.cache = expand_path(pick(&self.cache, caching.cache.as_str()), home);
        runtime.sub_menu = self.sub_menu.take();
        runtime.method = self.method.take();
        runtime.input = self.input.take();
        runtime.center = self.center_raw;
        runtime.multi = self.multi;
        runtime.display_raw = self.display_raw;
        runtime.photo_mode = self.photo_mode;
        runtime.field = self.field.take();
        runtime.daemonize = self.daemonize;
        match self.placeholder.take() {
            Some(text) => {
                *placeholder = text;
            },
            None => {},
        }
    }
}

/// The given text, or else the configured one.
pub open spec fn chosen(given: Option<Seq<char>>, configured: Seq<char>) -> Seq<char> {
    match given {
        Some(g) => g,
        None => configured,
    }
}

fn pick<'a>(given: &'a Option<String>, configured: &'a str) -> (text: &'a str)
    ensures
        text@ == chosen(given.deep_view(), configured@),
{
    match given {
        Some(g) => g.as_str(),
        None => configured,
    }
}

} // verus!
