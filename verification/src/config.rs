//! Configuration resolution: build the immutable run parameters from the
//! invocation arguments and the environment, and dispatch a search with
//! them.

use vstd::prelude::*;
use vstd::string::StringExecFns;
use crate::matcher::search_case_insensitive;
use crate::matcher::search_case_sensitive;
use crate::matcher::search_insensitive_spec;
use crate::matcher::search_sensitive_spec;
use crate::text::views_of;

verus! {

/// Resolved, immutable run parameters: the pattern to search for, the file
/// to search in, and whether the search is case-sensitive.
#[derive(Debug)]
pub struct Config {
    pub pattern: String,
    pub file: String,
    pub case_sensitive: bool,
}

/// A required positional argument was absent.
#[derive(Debug, PartialEq, Eq, Structural, Clone, Copy)]
pub enum ConfigError {
    MissingPattern,
    MissingFile,
}

/// The flag that forces a case-sensitive search.
pub open spec fn flag_force_sensitive() -> Seq<char> {
    "--case-sensitive"@
}

/// The flag that forces a case-insensitive search.
pub open spec fn flag_force_insensitive() -> Seq<char> {
    "--no-case-sensitive"@
}

/// The views of a sequence of strings.
pub open spec fn string_views(args: Seq<String>) -> Seq<Seq<char>> {
    args.map_values(|s: String| s@)
}

/// Whether `flag` stands anywhere among the arguments after the two
/// positional ones.
pub open spec fn has_flag(args: Seq<Seq<char>>, flag: Seq<char>) -> bool {
    exists|i: int| 3 <= i < args.len() && args[i] == flag
}

/// The case-sensitivity the arguments and the environment resolve to, in
/// falling precedence: the force-insensitive flag, the force-sensitive
/// flag, the presence of the case-insensitivity environment variable, and
/// the case-sensitive default.
pub open spec fn resolved_case_sensitive(args: Seq<Seq<char>>, env_case_insensitive: bool) -> bool {
    if has_flag(args, flag_force_insensitive()) {
        false
    } else if has_flag(args, flag_force_sensitive()) {
        true
    } else {
        !env_case_insensitive
    }
}

impl ConfigError {
    /// The diagnostic line for this error.
    pub open spec fn message_spec(&self) -> Seq<char> {
        match self {
            ConfigError::MissingPattern => "Missing the 'pattern' argument"@,
            ConfigError::MissingFile => "Missing the 'file' argument"@,
        }
    }

    /// A diagnostic line naming the absent argument.
    pub fn message(&self) -> (m: String)
        ensures
            m@ == self.message_spec(),
    {
        match self {
            ConfigError::MissingPattern => String::from_str("Missing the 'pattern' argument"),
            ConfigError::MissingFile => String::from_str("Missing the 'file' argument"),
        }
    }
}

impl Config {
    /// Build a `Config` from the ordered invocation arguments (the program
    /// name first, then the pattern, then the file path, then optional
    /// flags) and from whether the case-insensitivity environment variable
    /// is set. Fails, naming the absent argument, when fewer than two
    /// positional arguments are given; performs no input or output.
    pub fn new(args: Vec<String>, env_case_insensitive: bool) -> (r: Result<Config, ConfigError>)
        ensures
            args@.len() < 2 ==> r == Err::<Config, ConfigError>(ConfigError::MissingPattern),
            args@.len() == 2 ==> r == Err::<Config, ConfigError>(ConfigError::MissingFile),
            r matches Ok(c) ==> {
                &&& args@.len() >= 3
                &&& c.pattern@ == args@[1]@
                &&& c.file@ == args@[2]@
                &&& c.case_sensitive == resolved_case_sensitive(
                    string_views(args@),
                    env_case_insensitive,
                )
            },
            args@.len() >= 3 ==> r is Ok,
    {
        if args.len() < 2 {
            return Err(ConfigError::MissingPattern);
        }
        if args.len() < 3 {
            return Err(ConfigError::MissingFile);
        }
        let pattern: String = args[1].clone();
        let file: String = args[2].clone();
        let force_sensitive: String = String::from_str("--case-sensitive");
        let force_insensitive: String = String::from_str("--no-case-sensitive");
        let ghost av = string_views(args@);
        let mut saw_force_sensitive: bool = false;
        let mut saw_force_insensitive: bool = false;
        let mut i: usize = 3;
        while i < args.len()
            invariant
                3 <= i <= args@.len(),
                av == string_views(args@),
                force_sensitive@ == flag_force_sensitive(),
                force_insensitive@ == flag_force_insensitive(),
                saw_force_insensitive == (exists|j: int|
                    3 <= j < i && av[j] == flag_force_insensitive()),
                saw_force_sensitive == (exists|j: int|
                    3 <= j < i && av[j] == flag_force_sensitive()),
            decreases args@.len() - i,
        {
            let is_insensitive_flag = args[i].eq(&force_insensitive);
            let is_sensitive_flag = args[i].eq(&force_sensitive);
            proof {
                assert(av[i as int] == args@[i as int]@);
                if is_insensitive_flag {
                    assert(3 <= i as int && (i as int) < av.len() && av[i as int] == flag_force_insensitive());
                }
                if is_sensitive_flag {
                    assert(3 <= i as int && (i as int) < av.len() && av[i as int] == flag_force_sensitive());
                }
            }
            let ghost old_saw_insensitive = saw_force_insensitive;
            let ghost old_saw_sensitive = saw_force_sensitive;
            if is_insensitive_flag {
                saw_force_insensitive = true;
            }
            if is_sensitive_flag {
                saw_force_sensitive = true;
            }
            proof {
                assert(saw_force_insensitive == (exists|j: int|
                    3 <= j < i + 1 && av[j] == flag_force_insensitive())) by {
                    if saw_force_insensitive {
                        if old_saw_insensitive {
                            let j = choose|j: int| 3 <= j < i && av[j] == flag_force_insensitive();
                            assert(3 <= j < i + 1 && av[j] == flag_force_insensitive());
                        } else {
                            assert(av[i as int] == flag_force_insensitive());
                        }
                    }
                }
                assert(saw_force_sensitive == (exists|j: int|
                    3 <= j < i + 1 && av[j] == flag_force_sensitive())) by {
                    if saw_force_sensitive {
                        if old_saw_sensitive {
                            let j = choose|j: int| 3 <= j < i && av[j] == flag_force_sensitive();
                            assert(3 <= j < i + 1 && av[j] == flag_force_sensitive());
                        } else {
                            assert(av[i as int] == flag_force_sensitive());
                        }
                    }
                }
            }
            i += 1;
        }
        let case_sensitive: bool = if saw_force_insensitive {
            false
        } else if saw_force_sensitive {
            true
        } else {
            !env_case_insensitive
        };
        proof {
            assert(saw_force_insensitive == has_flag(av, flag_force_insensitive()));
            assert(saw_force_sensitive == has_flag(av, flag_force_sensitive()));
        }
        Ok(Config { pattern, file, case_sensitive })
    }
}

/// The matching lines that `c` asks for in a text: the case-sensitive or
/// the case-insensitive matches, as `c.case_sensitive` selects.
pub open spec fn config_matches(c: Config, t: Seq<char>) -> Seq<Seq<char>> {
    if c.case_sensitive {
        search_sensitive_spec(c.pattern@, t)
    } else {
        search_insensitive_spec(c.pattern@, t)
    }
}

/// Run the matcher variant that the configuration selects on `text`.
pub fn search_with_config<'a>(config: &Config, text: &'a str) -> (r: Vec<&'a str>)
    ensures
        views_of(r@) == config_matches(*config, text@),
{
    if config.case_sensitive {
        search_case_sensitive(config.pattern.as_str(), text)
    } else {
        search_case_insensitive(config.pattern.as_str(), text)
    }
}

} // verus!
