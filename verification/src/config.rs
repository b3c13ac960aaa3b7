//! Startup configuration: flags, environment fallbacks, and what is
//! required before the process may serve.
//!
//! The surrounding program reads the argument list and the environment
//! and hands them here as plain values; this module owns the parsing
//! rules. A missing required value is a configuration error, fatal at
//! startup.

use vstd::prelude::*;
use vstd::string::StrSliceExecFns;
use crate::strutil::{chars_of, spec_views, string_from_chars};

verus! {

/// How the process serves: an interactive terminal loop, or HTTP and
/// WebSocket endpoints.
#[derive(Clone, Copy, PartialEq, Eq, Structural, Debug)]
pub enum Mode {
    Offline,
    Online,
}

impl Default for Mode {
    /// The mode when none is asked for.
    fn default() -> (r: Mode)
        ensures
            r is Offline,
    {
        Mode::Offline
    }
}

/// The resolved startup configuration.
#[derive(Debug)]
pub struct Config {
    pub path: String,
    pub mode: Mode,
    pub index: String,
}

/// Which required startup value is missing.
#[derive(Clone, Copy, PartialEq, Eq, Structural, Debug)]
pub enum ConfigError {
    MissingDataDir,
    MissingIndexPath,
}

/// The index of the first `=` in `s`; the length when there is none.
pub open spec fn spec_first_eq(s: Seq<char>) -> nat
    decreases s.len(),
{
    if s.len() == 0 {
        0
    } else if s[0] == '=' {
        0
    } else {
        1 + spec_first_eq(s.drop_first())
    }
}

/// `s` with its leading `=` characters removed.
pub open spec fn spec_trim_leading_eq(s: Seq<char>) -> Seq<char>
    decreases s.len(),
{
    if s.len() > 0 && s[0] == '=' {
        spec_trim_leading_eq(s.drop_first())
    } else {
        s
    }
}

/// One argument split at its first `=`: the key before it, and the value
/// after it with any run of leading `=` removed. An argument without `=`
/// splits into an empty key and itself, and so assigns nothing.
pub open spec fn spec_split_arg(s: Seq<char>) -> (Seq<char>, Seq<char>) {
    let i = if spec_first_eq(s) < s.len() {
        spec_first_eq(s) as int
    } else {
        0
    };
    (s.take(i), spec_trim_leading_eq(s.skip(i)))
}

/// The configuration as a specification value: data path, mode, index
/// path.
pub type ConfigView = (Seq<char>, Mode, Seq<char>);

/// One argument applied to the accumulated configuration: `--data-dir`
/// and `--index-path` assign their value, `--mode` turns serving online
/// when its value is `online`; anything else changes nothing.
pub open spec fn spec_apply_arg(acc: ConfigView, arg: Seq<char>) -> ConfigView {
    let (k, v) = spec_split_arg(arg);
    if k == "--data-dir"@ {
        (v, acc.1, acc.2)
    } else if k == "--index-path"@ {
        (acc.0, acc.1, v)
    } else if k == "--mode"@ {
        if v == "online"@ {
            (acc.0, Mode::Online, acc.2)
        } else {
            acc
        }
    } else {
        acc
    }
}

/// All arguments applied in order over the default configuration.
pub open spec fn spec_fold_args(args: Seq<Seq<char>>, acc: ConfigView) -> ConfigView
    decreases args.len(),
{
    if args.len() == 0 {
        acc
    } else {
        spec_fold_args(args.drop_first(), spec_apply_arg(acc, args[0]))
    }
}

/// The parse as a whole: flags folded in order, then — in offline mode —
/// the environment fallbacks, and an error exactly when a required value
/// is still empty: the data directory first, then the index path.
pub open spec fn spec_parse_args(
    args: Seq<Seq<char>>,
    env_path: Seq<char>,
    env_index: Seq<char>,
) -> Result<ConfigView, ConfigError> {
    let folded = spec_fold_args(args, (Seq::empty(), Mode::Offline, Seq::empty()));
    if folded.1 is Offline {
        let path = if folded.0.len() > 0 {
            folded.0
        } else {
            env_path
        };
        if path.len() == 0 {
            Err(ConfigError::MissingDataDir)
        } else {
            let index = if folded.2.len() > 0 {
                folded.2
            } else {
                env_index
            };
            if index.len() == 0 {
                Err(ConfigError::MissingIndexPath)
            } else {
                Ok((path, folded.1, index))
            }
        }
    } else {
        Ok(folded)
    }
}

/// Compares a character vector to a string slice.
fn chars_eq_str(v: &Vec<char>, s: &str) -> (r: bool)
    ensures
        r == (v@ == s@),
{
    let n = s.unicode_len();
    if v.len() != n {
        return false;
    }
    let mut i: usize = 0;
    while i < n
        invariant
            i <= n,
            n == s@.len(),
            n == v@.len(),
            forall|j: int| 0 <= j < i ==> v@[j] == s@[j],
        decreases n - i,
    {
        if v[i] != s.get_char(i) {
            return false;
        }
        i = i + 1;
    }
    proof {
        assert(v@ =~= s@);
    }
    true
}

/// The position of the first `=` in `v`, or its length.
fn find_first_eq(v: &Vec<char>) -> (r: usize)
    ensures
        r == spec_first_eq(v@),
        r <= v@.len(),
{
    let n = v.len();
    let mut i: usize = 0;
    proof {
        assert(v@.skip(0) =~= v@);
        lemma_first_eq_len(v@);
    }
    while i < n
        invariant
            i <= n,
            n == v@.len(),
            spec_first_eq(v@) == i + spec_first_eq(v@.skip(i as int)),
            spec_first_eq(v@.skip(i as int)) <= v@.skip(i as int).len(),
        decreases n - i,
    {
        if v[i] == '=' {
            proof {
                assert(v@.skip(i as int)[0] == '=');
            }
            return i;
        }
        proof {
            assert(v@.skip(i as int)[0] != '=');
            assert(v@.skip(i as int).drop_first() =~= v@.skip(i as int + 1));
            lemma_first_eq_len(v@.skip(i as int + 1));
        }
        i = i + 1;
    }
    proof {
        assert(v@.skip(n as int) =~= Seq::<char>::empty());
    }
    n
}

/// The first `=` never lies past the end.
proof fn lemma_first_eq_len(s: Seq<char>)
    ensures
        spec_first_eq(s) <= s.len(),
    decreases s.len(),
{
    if s.len() > 0 && s[0] != '=' {
        lemma_first_eq_len(s.drop_first());
    }
}

/// Splits one argument into its key and value.
fn split_arg(arg: &String) -> (r: (Vec<char>, Vec<char>))
    ensures
        (r.0@, r.1@) == spec_split_arg(arg@),
{
    let a = chars_of(arg.as_str());
    let eq = find_first_eq(&a);
    let idx = if eq < a.len() {
        eq
    } else {
        0
    };
    let mut key: Vec<char> = Vec::new();
    let mut i: usize = 0;
    while i < idx
        invariant
            i <= idx,
            idx <= a@.len(),
            key@ == a@.take(i as int),
        decreases idx - i,
    {
        key.push(a[i]);
        i = i + 1;
        proof {
            assert(key@ =~= a@.take(i as int));
        }
    }
    let mut j: usize = idx;
    let n = a.len();
    let mut done = false;
    while !done
        invariant
            idx <= j <= n,
            n == a@.len(),
            spec_trim_leading_eq(a@.skip(idx as int)) == spec_trim_leading_eq(a@.skip(j as int)),
            done ==> (j == n || a@[j as int] != '='),
        decreases n - j + (if done { 0int } else { 1int }),
    {
        if j == n {
            done = true;
        } else if a[j] != '=' {
            done = true;
        } else {
            proof {
                assert(a@.skip(j as int)[0] == '=');
                assert(a@.skip(j as int).drop_first() =~= a@.skip(j as int + 1));
            }
            j = j + 1;
        }
    }
    proof {
        if j < n {
            assert(a@.skip(j as int)[0] != '=');
        } else {
            assert(a@.skip(j as int) =~= Seq::<char>::empty());
        }
    }
    let mut value: Vec<char> = Vec::new();
    let mut k: usize = j;
    while k < n
        invariant
            j <= k <= n,
            n == a@.len(),
            value@ == a@.subrange(j as int, k as int),
        decreases n - k,
    {
        value.push(a[k]);
        k = k + 1;
        proof {
            assert(value@ =~= a@.subrange(j as int, k as int));
        }
    }
    proof {
        assert(value@ =~= a@.skip(j as int));
        assert(key@ =~= a@.take(idx as int));
    }
    (key, value)
}

/// Parses the argument list with the two environment fallbacks: exactly
/// the fold of `spec_parse_args`. Offline serving requires a data
/// directory and an index path, from a flag or from the environment;
/// the error names the first one missing.
pub fn parse_args(args: Vec<String>, data_dir_env: String, index_path_env: String) -> (r: Result<
    Config,
    ConfigError,
>)
    ensures
        match spec_parse_args(spec_views(args@), data_dir_env@, index_path_env@) {
            Ok(c) => {
                &&& r is Ok
                &&& r.unwrap().path@ == c.0
                &&& r.unwrap().mode == c.1
                &&& r.unwrap().index@ == c.2
            },
            Err(e) => r == Err::<Config, ConfigError>(e),
        },
{
    let mut path: Vec<char> = Vec::new();
    let mut mode = Mode::Offline;
    let mut index: Vec<char> = Vec::new();
    let n = args.len();
    let mut i: usize = 0;
    proof {
        assert(spec_views(args@).take(0) =~= Seq::<Seq<char>>::empty());
    }
    while i < n
        invariant
            i <= n,
            n == args@.len(),
            (path@, mode, index@) == spec_fold_args(
                spec_views(args@).take(i as int),
                (Seq::<char>::empty(), Mode::Offline, Seq::<char>::empty()),
            ),
        decreases n - i,
    {
        let (key, value) = split_arg(&args[i]);
        if chars_eq_str(&key, "--data-dir") {
            path = value;
        } else if chars_eq_str(&key, "--index-path") {
            index = value;
        } else if chars_eq_str(&key, "--mode") {
            if chars_eq_str(&value, "online") {
                mode = Mode::Online;
            }
        }
        i = i + 1;
        proof {
            lemma_fold_args_snoc(
                spec_views(args@).take(i as int),
                (Seq::<char>::empty(), Mode::Offline, Seq::<char>::empty()),
            );
            assert(spec_views(args@).take(i as int).drop_last() =~= spec_views(args@).take(
                i as int - 1,
            ));
            assert(spec_views(args@).take(i as int).last() == args@[i as int - 1]@);
        }
    }
    proof {
        assert(spec_views(args@).take(n as int) =~= spec_views(args@));
    }
    if matches!(mode, Mode::Offline) {
        let path = if path.len() > 0 {
            string_from_chars(&path)
        } else {
            data_dir_env
        };
        if path.as_str().unicode_len() == 0 {
            proof {
                assert(path@.len() == 0);
            }
            return Err(ConfigError::MissingDataDir);
        }
        let index = if index.len() > 0 {
            string_from_chars(&index)
        } else {
            index_path_env
        };
        if index.as_str().unicode_len() == 0 {
            return Err(ConfigError::MissingIndexPath);
        }
        Ok(Config { path, mode, index })
    } else {
        Ok(Config { path: string_from_chars(&path), mode, index: string_from_chars(&index) })
    }
}

/// Folding one more argument is applying it to the fold of the rest.
proof fn lemma_fold_args_snoc(args: Seq<Seq<char>>, acc: ConfigView)
    requires
        args.len() > 0,
    ensures
        spec_fold_args(args, acc) == spec_apply_arg(
            spec_fold_args(args.drop_last(), acc),
            args.last(),
        ),
    decreases args.len(),
{
    if args.len() == 1 {
        assert(args.drop_last() =~= Seq::<Seq<char>>::empty());
        assert(args.drop_first() =~= Seq::<Seq<char>>::empty());
        assert(args.last() == args[0]);
        assert(spec_fold_args(args, acc) == spec_fold_args(
            args.drop_first(),
            spec_apply_arg(acc, args[0]),
        ));
        assert(spec_fold_args(args.drop_first(), spec_apply_arg(acc, args[0])) == spec_apply_arg(
            acc,
            args[0],
        ));
        assert(spec_fold_args(args.drop_last(), acc) == acc);
    } else {
        lemma_fold_args_snoc(args.drop_first(), spec_apply_arg(acc, args[0]));
        assert(args.drop_first().drop_last() =~= args.drop_last().drop_first());
        assert(args.drop_first().last() == args.last());
        assert(args.drop_last()[0] == args[0]);
        assert(spec_fold_args(args, acc) == spec_fold_args(
            args.drop_first(),
            spec_apply_arg(acc, args[0]),
        ));
        assert(spec_fold_args(args.drop_last(), acc) == spec_fold_args(
            args.drop_last().drop_first(),
            spec_apply_arg(acc, args[0]),
        ));
    }
}

} // verus!
