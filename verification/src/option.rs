//! Mount options, parsed from command-line style arguments with getopts.
use vstd::prelude::*;
use crate::errno::Errno;
use vstd::string::StrSliceExecFns;

verus! {

#[verifier::external_type_specification]
#[verifier::external_body]
pub struct ExGetoptsOptions(getopts::Options);

#[verifier::external_type_specification]
#[verifier::external_body]
pub struct ExGetoptsMatches(getopts::Matches);

/// The option names (short and long) that a set of getopts options defines.
pub uninterp spec fn options_names(o: getopts::Options) -> Set<Seq<char>>;

/// The option names that the result of a getopts parse knows.
pub uninterp spec fn matches_names(m: getopts::Matches) -> Set<Seq<char>>;

/// The options a set of getopts options declares, in order: short name,
/// long name, and whether the option takes an argument. The sets of options
/// here are only ever made by `getopts::Options::new`, `optflag` and
/// `optopt`, so they keep getopts' default parsing style, its default
/// occurrence rules and its short-and-long mode; these names describe such
/// sets and nothing else.
pub uninterp spec fn options_decls(o: getopts::Options) -> Seq<(Seq<char>, Seq<char>, bool)>;

/// Whether a getopts parse result holds the option `name`
/// (`getopts::Matches::opt_present`).
pub uninterp spec fn matches_present(m: getopts::Matches, name: Seq<char>) -> bool;

/// The first argument a getopts parse result holds for the option `name`
/// (`getopts::Matches::opt_str`).
pub uninterp spec fn matches_str(m: getopts::Matches, name: Seq<char>) -> Option<Seq<char>>;

/// Every declaration has a name: getopts panics on parsing under one whose
/// short and long names are both empty.
pub open spec fn decls_named(decls: Seq<(Seq<char>, Seq<char>, bool)>) -> bool {
    forall|i: int| 0 <= i < decls.len() ==> (#[trigger] decls[i]).0.len() > 0 || decls[i].1.len() > 0
}

/// Whether getopts accepts the arguments `args` under the declarations
/// `decls` (`getopts::Options::parse`).
pub uninterp spec fn getopts_parses(decls: Seq<(Seq<char>, Seq<char>, bool)>, args: Seq<Seq<char>>) -> bool;

/// Whether the option `name` was given, as getopts finds it in `args` under
/// `decls` (`getopts::Matches::opt_present`).
pub uninterp spec fn getopts_present(
    decls: Seq<(Seq<char>, Seq<char>, bool)>,
    args: Seq<Seq<char>>,
    name: Seq<char>,
) -> bool;

/// The argument of the option `name`, as getopts finds it in `args` under
/// `decls` (`getopts::Matches::opt_str`).
pub uninterp spec fn getopts_str(
    decls: Seq<(Seq<char>, Seq<char>, bool)>,
    args: Seq<Seq<char>>,
    name: Seq<char>,
) -> Option<Seq<char>>;

/// A name getopts accepts as a short name: none (empty) or one byte, that
/// is, one ASCII character.
pub open spec fn short_name_ok(s: Seq<char>) -> bool {
    s.len() == 0 || (s.len() == 1 && (s[0] as u32) < 0x80)
}

/// A name getopts accepts as a long name: anything but one byte.
pub open spec fn long_name_ok(s: Seq<char>) -> bool {
    !(s.len() == 1 && (s[0] as u32) < 0x80)
}

/// The arguments as strings.
pub open spec fn args_view(args: Seq<&str>) -> Seq<Seq<char>> {
    args.map_values(|a: &str| a@)
}

/// `names` with the non-empty ones of `short_name` and `long_name` added.
pub open spec fn add_names(names: Set<Seq<char>>, short_name: Seq<char>, long_name: Seq<char>) -> Set<
    Seq<char>,
> {
    let a = if short_name.len() > 0 {
        names.insert(short_name)
    } else {
        names
    };
    if long_name.len() > 0 {
        a.insert(long_name)
    } else {
        a
    }
}

/// A blank set of options, by `getopts::Options::new`; it defines no name.
#[verifier::external_body]
fn options_new() -> (r: getopts::Options)
    ensures
        options_names(r) == Set::<Seq<char>>::empty(),
        options_decls(r) == Seq::<(Seq<char>, Seq<char>, bool)>::empty(),
{
    getopts::Options::new()
}

/// Adds a flag by `getopts::Options::optflag`, which panics unless the short
/// name is at most one byte and the long name is not one byte; a flag with
/// no name at all is left out, since a parse would panic on it. The flag's
/// names become defined and it is declared last.
#[verifier::external_body]
fn options_optflag(o: &mut getopts::Options, short_name: &str, long_name: &str, desc: &str)
    requires
        short_name_ok(short_name@),
        long_name_ok(long_name@),
        short_name@.len() + long_name@.len() > 0,
    ensures
        options_names(*final(o)) == add_names(options_names(*old(o)), short_name@, long_name@),
        options_decls(*final(o)) == options_decls(*old(o)).push((short_name@, long_name@, false)),
{
    o.optflag(short_name, long_name, desc);
}

/// Adds an option that takes an argument by `getopts::Options::optopt`,
/// with the same rule on names as for flags; its names become defined.
#[verifier::external_body]
fn options_optopt(
    o: &mut getopts::Options,
    short_name: &str,
    long_name: &str,
    desc: &str,
    hint: &str,
)
    requires
        short_name_ok(short_name@),
        long_name_ok(long_name@),
        short_name@.len() + long_name@.len() > 0,
    ensures
        options_names(*final(o)) == add_names(options_names(*old(o)), short_name@, long_name@),
        options_decls(*final(o)) == options_decls(*old(o)).push((short_name@, long_name@, true)),
{
    o.optopt(short_name, long_name, desc, hint);
}

/// Parses arguments by `getopts::Options::parse`, which panics on a
/// declaration without a name; `None` when getopts refuses the arguments.
/// The result knows the names the options define, and for each of them holds
/// what getopts finds of it in the arguments under the declarations.
#[verifier::external_body]
fn options_parse(o: &getopts::Options, args: &[&str]) -> (r: Option<getopts::Matches>)
    requires
        decls_named(options_decls(*o)),
    ensures
        r is Some <==> getopts_parses(options_decls(*o), args_view(args@)),
        r matches Some(m) ==> matches_names(m) == options_names(*o),
        r matches Some(m) ==> forall|n: Seq<char>|
            #![trigger matches_present(m, n)]
            #![trigger matches_str(m, n)]
            matches_names(m).contains(n) ==> matches_present(m, n) == getopts_present(
                options_decls(*o),
                args_view(args@),
                n,
            ) && matches_str(m, n) == getopts_str(options_decls(*o), args_view(args@), n),
{
    o.parse(args).ok()
}

/// Whether the option `name` was given, by `getopts::Matches::opt_present`,
/// which panics on a name that is not defined.
#[verifier::external_body]
fn matches_opt_present(m: &getopts::Matches, name: &str) -> (r: bool)
    requires
        matches_names(*m).contains(name@),
    ensures
        r == matches_present(*m, name@),
{
    m.opt_present(name)
}

/// The argument given to the option `name`, by `getopts::Matches::opt_str`,
/// which panics on a name that is not defined.
#[verifier::external_body]
fn matches_opt_str(m: &getopts::Matches, name: &str) -> (r: Option<String>)
    requires
        matches_names(*m).contains(name@),
    ensures
        match r {
            Some(v) => matches_str(*m, name@) == Some(v@),
            None => matches_str(*m, name@) is None,
        },
{
    m.opt_str(name)
}

/// The layout of a getopts help text: the brief, a blank line, the
/// `Options:` heading, the lines for the options, and a final newline.
pub open spec fn usage_layout(text: Seq<char>, brief: Seq<char>) -> bool {
    exists|rows: Seq<char>| text == brief + "\n\nOptions:\n"@ + rows + "\n"@
}

/// The help text for a set of options, by `getopts::Options::usage`, which
/// formats the brief, a blank line, the `Options:` heading and one line per
/// option, and ends with a newline. What the option lines say is left
/// unstated.
#[verifier::external_body]
fn options_usage(o: &getopts::Options, brief: &str) -> (r: String)
    ensures
        usage_layout(r@, brief@),
{
    o.usage(brief)
}

/// How chain ids are allocated.
#[derive(Debug, Clone, Copy, PartialEq, Eq, Structural)]
pub enum CidAllocMode {
    Linear,
    Bitmap,
}

/// Mount options.
#[derive(Debug, Clone, Copy, PartialEq, Eq, Structural)]
pub struct Opt {
    pub nodatacache: bool,
    pub cidalloc: CidAllocMode,
    pub debug: bool,
}

/// The allocation mode a `--cidalloc` argument names.
pub open spec fn cidalloc_mode(arg: Option<Seq<char>>) -> Option<CidAllocMode> {
    match arg {
        None => Some(CidAllocMode::Linear),
        Some(s) => if s == "linear"@ {
            Some(CidAllocMode::Linear)
        } else if s == "bitmap"@ {
            Some(CidAllocMode::Bitmap)
        } else {
            None
        },
    }
}

/// What the options are, given what was parsed: help asked for gives
/// `UnknownErrno` (error number 0), an unknown allocation mode `EINVAL`.
pub open spec fn opt_from(help: bool, nodatacache: bool, cidalloc: Option<Seq<char>>, debug: bool) -> Result<
    Opt,
    Errno,
> {
    if help {
        Err(Errno::UnknownErrno)
    } else {
        match cidalloc_mode(cidalloc) {
            Some(mode) => Ok(Opt { nodatacache, cidalloc: mode, debug }),
            None => Err(Errno::EINVAL),
        }
    }
}

/// The declarations of the mount options, in the order they are made.
pub open spec fn mount_decls() -> Seq<(Seq<char>, Seq<char>, bool)> {
    seq![
        (""@, "nodatacache"@, false),
        (""@, "cidalloc"@, true),
        ("h"@, "help"@, false),
        (""@, "debug"@, false),
    ]
}

/// What parsing `args` as mount options gives: `EINVAL` when getopts refuses
/// them, else the options from what getopts found.
pub open spec fn opt_parse(args: Seq<Seq<char>>) -> Result<Opt, Errno> {
    let d = mount_decls();
    if !getopts_parses(d, args) {
        Err(Errno::EINVAL)
    } else {
        opt_from(
            getopts_present(d, args, "h"@),
            getopts_present(d, args, "nodatacache"@),
            getopts_str(d, args, "cidalloc"@),
            getopts_present(d, args, "debug"@),
        )
    }
}

/// The options known to the mount: `--nodatacache`, `--cidalloc <mode>`,
/// `-h`/`--help` and `--debug`.
fn newopt() -> (r: getopts::Options)
    ensures
        options_names(r).contains("nodatacache"@),
        options_names(r).contains("cidalloc"@),
        options_names(r).contains("h"@),
        options_names(r).contains("debug"@),
        options_decls(r) == mount_decls(),
{
    proof {
        reveal_strlit("");
        reveal_strlit("h");
        reveal_strlit("help");
        reveal_strlit("nodatacache");
        reveal_strlit("cidalloc");
        reveal_strlit("debug");
    }
    let mut gopt = options_new();
    options_optflag(&mut gopt, "", "nodatacache", "");
    options_optopt(&mut gopt, "", "cidalloc", "", "<linear|bitmap>");
    options_optflag(&mut gopt, "h", "help", "");
    options_optflag(&mut gopt, "", "debug", "");
    gopt
}

impl Opt {
    /// The options, from what was parsed.
    pub fn from_parsed(help: bool, nodatacache: bool, cidalloc: Option<&str>, debug: bool) -> (r:
        Result<Opt, Errno>)
        ensures
            r == opt_from(
                help,
                nodatacache,
                match cidalloc {
                    Some(s) => Some(s@),
                    None => None,
                },
                debug,
            ),
    {
        if help {
            return Err(Errno::UnknownErrno);
        }
        let cidalloc = match cidalloc {
            Some(v) => {
                proof {
                    reveal_strlit("linear");
                    reveal_strlit("bitmap");
                }
                if v.to_string() == "linear".to_string() {
                    CidAllocMode::Linear
                } else if v.to_string() == "bitmap".to_string() {
                    CidAllocMode::Bitmap
                } else {
                    return Err(Errno::EINVAL);
                }
            },
            None => CidAllocMode::Linear,
        };
        Ok(Opt { nodatacache, cidalloc, debug })
    }

    /// Parses mount options. Arguments getopts refuses give `EINVAL`; the
    /// rest is decided by [`Opt::from_parsed`] on what was parsed.
    pub fn new(args: &[&str]) -> (r: Result<Opt, Errno>)
        ensures
            r == opt_parse(args_view(args@)),
    {
        let gopt = newopt();
        proof {
            reveal_strlit("nodatacache");
            reveal_strlit("cidalloc");
            reveal_strlit("h");
            reveal_strlit("debug");
            assert(decls_named(mount_decls()));
        }
        let matches = match options_parse(&gopt, args) {
            Some(v) => v,
            None => {
                return Err(Errno::EINVAL);
            },
        };
        let help = matches_opt_present(&matches, "h");
        let nodatacache = matches_opt_present(&matches, "nodatacache");
        let cidalloc = matches_opt_str(&matches, "cidalloc");
        let debug = matches_opt_present(&matches, "debug");
        let r = match &cidalloc {
            Some(s) => Opt::from_parsed(help, nodatacache, Some(s.as_str()), debug),
            None => Opt::from_parsed(help, nodatacache, None, debug),
        };
        proof {
            let c = match cidalloc {
                Some(s) => Some(s@),
                None => None,
            };
            assert(r == opt_from(help, nodatacache, c, debug));
        }
        r
    }

    /// The help text of the mount options.
    pub fn usage() -> (r: String)
        ensures
            usage_layout(r@, "HAMMER2 options"@),
    {
        let gopt = newopt();
        options_usage(&gopt, "HAMMER2 options")
    }
}

} // verus!
