//! The configuration of one run: query, file paths and case mode.
//!
//! The raw command-line words arrive as plain strings.  The first word is
//! the program name and the second the query; every later word is either
//! the switch `-i` (case-insensitive search), the word `.` (search every
//! entry of the working directory), or a file path.  Listing the working
//! directory is the caller's business: it hands in the listing as a value,
//! each entry either a name or the mark of a name that is not valid text.
//! A missing listing makes `.` expand to nothing; a listing with an
//! unreadable name makes the scan fail.

use crate::textutil::str_eq;
use vstd::prelude::*;

verus! {

/// A directory listing as handed to the argument scan: `None` when no
/// listing could be obtained, otherwise one entry per directory entry,
/// `None` standing for a name that is not valid text.
pub open spec fn dir_ok(dir: Option<Seq<Option<String>>>) -> bool {
    match dir {
        None => true,
        Some(entries) => forall|e: int| 0 <= e < entries.len() ==> entries[e] is Some,
    }
}

/// The names a readable directory listing contributes for one `.`
/// argument, in listing order; a missing listing contributes nothing.
pub open spec fn dir_names(dir: Option<Seq<Option<String>>>) -> Seq<Seq<char>> {
    match dir {
        None => Seq::empty(),
        Some(entries) => entries.map(
            |_e: int, entry: Option<String>|
                match entry {
                    Some(name) => name@,
                    None => Seq::empty(),
                },
        ),
    }
}

/// The views of a sequence of strings.
pub open spec fn string_views(ss: Seq<String>) -> Seq<Seq<char>> {
    ss.map(|_i: int, s: String| s@)
}

/// The view of an optional directory listing.
pub open spec fn dir_view(d: Option<Vec<Option<String>>>) -> Option<Seq<Option<String>>> {
    match d {
        None => None,
        Some(v) => Some(v@),
    }
}

/// The file paths the argument scan accumulates, left to right: `-i`
/// contributes nothing, `.` contributes the directory listing's names, and
/// any other word contributes itself.
pub open spec fn parsed_paths(args: Seq<Seq<char>>, dir: Option<Seq<Option<String>>>) -> Seq<
    Seq<char>,
>
    decreases args.len(),
{
    if args.len() == 0 {
        Seq::empty()
    } else {
        let rest = parsed_paths(args.drop_last(), dir);
        let a = args.last();
        if a == "-i"@ {
            rest
        } else if a == "."@ {
            rest + dir_names(dir)
        } else {
            rest + seq![a]
        }
    }
}

/// Whether the argument scan ends up case-insensitive: true exactly when
/// some argument is the switch `-i`.
pub open spec fn parsed_ignore_case(args: Seq<Seq<char>>) -> bool
    decreases args.len(),
{
    if args.len() == 0 {
        false
    } else {
        parsed_ignore_case(args.drop_last()) || args.last() == "-i"@
    }
}

/// Whether the argument scan fails: true exactly when some argument is `.`
/// while the directory listing holds a name that is not valid text.
pub open spec fn parse_rejects(args: Seq<Seq<char>>, dir: Option<Seq<Option<String>>>) -> bool
    decreases args.len(),
{
    if args.len() == 0 {
        false
    } else {
        parse_rejects(args.drop_last(), dir) || (args.last() == "."@ && !dir_ok(dir))
    }
}

/// Appending a string appends its view.
proof fn lemma_string_views_push(ss: Seq<String>, s: String)
    ensures
        string_views(ss.push(s)) == string_views(ss).push(s@),
{
    assert(string_views(ss.push(s)) =~= string_views(ss).push(s@));
}

/// A rejection already visible in a prefix of the arguments stands for the
/// whole argument list.
proof fn lemma_rejects_extend(args: Seq<Seq<char>>, k: int, dir: Option<Seq<Option<String>>>)
    requires
        0 <= k <= args.len(),
        parse_rejects(args.take(k), dir),
    ensures
        parse_rejects(args, dir),
    decreases args.len() - k,
{
    if k == args.len() {
        assert(args.take(k) =~= args);
    } else {
        assert(args.take(k + 1).drop_last() =~= args.take(k));
        assert(parse_rejects(args.take(k + 1), dir));
        lemma_rejects_extend(args, k + 1, dir);
    }
}

/// Scans the argument words after the query: gathers the file paths in
/// order, notes the case switch, expands `.` to the given directory
/// listing, and fails exactly when `.` is present while the listing holds
/// a name that is not valid text.
#[verifier::loop_isolation(false)]
pub fn parse_arguments(args: &[String], dir_entries: &Option<Vec<Option<String>>>) -> (r: Result<
    (Vec<String>, bool),
    &'static str,
>)
    ensures
        r is Err <==> parse_rejects(string_views(args@), dir_view(*dir_entries)),
        r matches Ok(p) ==> {
            &&& string_views(p.0@) == parsed_paths(string_views(args@), dir_view(*dir_entries))
            &&& p.1 == parsed_ignore_case(string_views(args@))
        },
        r matches Err(e) ==> e@ == "Failed to convert file path to string"@,
{
    let ghost all = string_views(args@);
    let ghost dir = dir_view(*dir_entries);
    let mut file_paths: Vec<String> = Vec::new();
    let mut ignore_case: bool = false;
    let mut idx: usize = 0;
    while idx < args.len()
        invariant
            all == string_views(args@),
            dir == dir_view(*dir_entries),
            idx <= args@.len(),
            string_views(file_paths@) == parsed_paths(all.take(idx as int), dir),
            ignore_case == parsed_ignore_case(all.take(idx as int)),
            !parse_rejects(all.take(idx as int), dir),
        decreases args@.len() - idx,
    {
        let ghost pre = all.take(idx as int);
        let ghost cur = all.take(idx as int + 1);
        proof {
            reveal_strlit("-i");
            reveal_strlit(".");
            assert(cur.drop_last() =~= pre);
            assert(cur.last() == args@[idx as int]@);
        }
        let arg = &args[idx];
        if str_eq(arg.as_str(), "-i") {
            ignore_case = true;
        } else if str_eq(arg.as_str(), ".") {
            match dir_entries {
                None => {
                    proof {
                        assert(dir_names(dir) =~= Seq::<Seq<char>>::empty());
                        assert(parsed_paths(pre, dir) + dir_names(dir) =~= parsed_paths(
                            pre,
                            dir,
                        ));
                    }
                },
                Some(entries) => {
                    let mut e: usize = 0;
                    while e < entries.len()
                        invariant
                            dir == dir_view(*dir_entries),
                            dir_entries matches Some(v) && v@ == entries@,
                            e <= entries@.len(),
                            forall|j: int| 0 <= j < e ==> entries@[j] is Some,
                            string_views(file_paths@) == parsed_paths(pre, dir) + dir_names(
                                dir,
                            ).take(e as int),
                        decreases entries@.len() - e,
                    {
                        let entry = &entries[e];
                        match entry {
                            Some(name) => {
                                proof {
                                    assert(entries@[e as int] == Some(*name));
                                    assert(dir_names(dir)[e as int] == name@);
                                }
                                let ghost fp_before = file_paths@;
                                file_paths.push(name.clone());
                                proof {
                                    lemma_string_views_push(fp_before, *name);
                                    assert(dir_names(dir).take(e as int + 1) =~= dir_names(
                                        dir,
                                    ).take(e as int).push(name@));
                                    assert(string_views(file_paths@) =~= parsed_paths(pre, dir)
                                        + dir_names(dir).take(e as int + 1));
                                }
                            },
                            None => {
                                proof {
                                    reveal_strlit(".");
                                    assert(entries@[e as int] is None);
                                    assert(!dir_ok(dir));
                                    assert(parse_rejects(cur, dir));
                                    lemma_rejects_extend(all, idx as int + 1, dir);
                                }
                                return Err("Failed to convert file path to string");
                            },
                        }
                        e = e + 1;
                    }
                    proof {
                        assert(dir_ok(dir));
                        assert(dir_names(dir).take(entries@.len() as int) =~= dir_names(dir));
                    }
                },
            }
        } else {
            file_paths.push(arg.clone());
            proof {
                assert(string_views(file_paths@) =~= parsed_paths(pre, dir) + seq![
                    args@[idx as int]@,
                ]);
            }
        }
        idx = idx + 1;
    }
    proof {
        assert(all.take(args@.len() as int) =~= all);
    }
    Ok((file_paths, ignore_case))
}

/// The configuration of one run.
#[derive(Clone)]
pub struct Config {
    /// The query string searched for in every file.
    pub query: String,
    /// The files to scan, in the order they were named.
    pub file_paths: Vec<String>,
    /// Whether comparison folds ASCII letter case.
    pub ignore_case: bool,
}

impl Config {
    /// Builds the configuration from the raw command-line words: the word
    /// after the program name is the query, the rest are switches and
    /// paths.  Fewer than two words is a usage error.  A failure of the
    /// argument scan is swallowed: the run then has no files and is
    /// case-sensitive.
    pub fn build(args: &[String], dir_entries: &Option<Vec<Option<String>>>) -> (r: Result<
        Config,
        &'static str,
    >)
        ensures
            r is Err <==> args@.len() < 2,
            r matches Err(e) ==> e@
                == "Usage: [query] [file path(s) or . for current directory] \n\n Optional arguments: \n\n -i \t Case insensitive search"@,
            r matches Ok(c) ==> {
                &&& c.query@ == args@[1]@
                &&& if parse_rejects(string_views(args@.skip(2)), dir_view(*dir_entries)) {
                    c.file_paths@.len() == 0 && c.ignore_case == false
                } else {
                    &&& string_views(c.file_paths@) == parsed_paths(
                        string_views(args@.skip(2)),
                        dir_view(*dir_entries),
                    )
                    &&& c.ignore_case == parsed_ignore_case(string_views(args@.skip(2)))
                }
            },
    {
        if args.len() < 2 {
            return Err(
                "Usage: [query] [file path(s) or . for current directory] \n\n Optional arguments: \n\n -i \t Case insensitive search",
            );
        }
        let query = args[1].clone();
        let rest = vstd::slice::slice_subrange(args, 2, args.len());
        proof {
            assert(rest@ =~= args@.skip(2));
            assert(string_views(rest@) =~= string_views(args@.skip(2)));
        }
        let (file_paths, ignore_case) = match parse_arguments(rest, dir_entries) {
            Ok(p) => p,
            Err(_) => (Vec::new(), false),
        };
        Ok(Config { query, file_paths, ignore_case })
    }
}

} // verus!
