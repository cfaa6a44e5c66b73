//! The declarative template: which files to retrieve from which URLs, and
//! how downloaded archives are extracted. Reading and deserializing the
//! template file is plumbing done by the caller; this module holds the
//! data and plans the extraction.

use vstd::prelude::*;
use vstd::string::StrSliceExecFns;

verus! {

/// Represents a template file.
#[derive(Debug)]
pub struct Template {
    /// The files to download: destination path and source URL, in template
    /// order.
    pub retrieve: Vec<(String, String)>,
    /// The file archives that should be extracted, each with how.
    pub extract: Vec<(String, ExtractInfo)>,
}

/// Indicates how the files in an archive should be extracted.
#[derive(Debug)]
pub enum ExtractInfo {
    /// All files in the archive should be extracted to the given directory.
    Directory(String),
    /// The files named by the mapping (archive name to destination path,
    /// names unique) should be extracted to the mapped locations.
    Mapping(Vec<(String, String)>),
}

/// Relies on `String::push_str`: appends the given string slice onto the
/// end of this string.
pub assume_specification[ String::push_str ](s: &mut String, other: &str)
    ensures
        final(s)@ == old(s)@ + other@,
;

/// Whether a name ends in `/` — an archive entry that is a directory, not
/// a file.
pub open spec fn ends_with_slash_spec(s: Seq<char>) -> bool {
    s.len() > 0 && s[s.len() - 1] == '/'
}

/// A path under a directory: the directory, a separator unless the
/// directory already ends in one, then the name.
pub open spec fn join_spec(dir: Seq<char>, name: Seq<char>) -> Seq<char> {
    if ends_with_slash_spec(dir) {
        dir + name
    } else {
        dir + seq!['/'] + name
    }
}

/// The character sequences of a list of string pairs.
pub open spec fn pairs_view(ps: Seq<(String, String)>) -> Seq<(Seq<char>, Seq<char>)> {
    ps.map_values(|p: (String, String)| (p.0@, p.1@))
}

/// The character sequences of a list of strings.
pub open spec fn names_view(ns: Seq<String>) -> Seq<Seq<char>> {
    ns.map_values(|s: String| s@)
}

/// The value of the first pair whose key is the name, if any.
pub open spec fn lookup_spec(pairs: Seq<(Seq<char>, Seq<char>)>, name: Seq<char>) -> Option<
    Seq<char>,
>
    decreases pairs.len(),
{
    if pairs.len() == 0 {
        None
    } else if pairs[0].0 == name {
        Some(pairs[0].1)
    } else {
        lookup_spec(pairs.drop_first(), name)
    }
}

/// The plan for extracting a whole archive into one directory: every entry
/// that is a file (does not end in `/`) goes to its name joined under the
/// directory, in archive order.
pub open spec fn dir_plan(names: Seq<Seq<char>>, dir: Seq<char>) -> Seq<(usize, Seq<char>)>
    decreases names.len(),
{
    if names.len() == 0 {
        Seq::empty()
    } else {
        dir_plan(names.drop_last(), dir) + if !ends_with_slash_spec(names.last()) {
            seq![(((names.len() - 1) as usize), join_spec(dir, names.last()))]
        } else {
            Seq::empty()
        }
    }
}

/// The plan for extracting mapped entries: every entry whose name the
/// mapping lists goes to its mapped destination, in archive order.
pub open spec fn map_plan(
    names: Seq<Seq<char>>,
    pairs: Seq<(Seq<char>, Seq<char>)>,
) -> Seq<(usize, Seq<char>)>
    decreases names.len(),
{
    if names.len() == 0 {
        Seq::empty()
    } else {
        map_plan(names.drop_last(), pairs) + match lookup_spec(pairs, names.last()) {
            Some(dest) => seq![(((names.len() - 1) as usize), dest)],
            None => Seq::empty(),
        }
    }
}

/// Which archive entries are extracted where, by entry index.
pub open spec fn extract_plan_spec(names: Seq<Seq<char>>, info: ExtractInfo) -> Seq<
    (usize, Seq<char>),
> {
    match info {
        ExtractInfo::Directory(d) => dir_plan(names, d@),
        ExtractInfo::Mapping(m) => map_plan(names, pairs_view(m@)),
    }
}

/// The built plan lists the same indices and spells the same destinations
/// as the specification plan.
pub open spec fn plan_matches(r: Seq<(usize, String)>, plan: Seq<(usize, Seq<char>)>) -> bool {
    &&& r.len() == plan.len()
    &&& forall|j: int|
        0 <= j < r.len() ==> (#[trigger] r[j]).0 == plan[j].0 && r[j].1@ == plan[j].1
}

/// Whether the name ends in `/`.
fn ends_with_slash(s: &str) -> (r: bool)
    ensures
        r == ends_with_slash_spec(s@),
{
    let n: usize = s.unicode_len();
    if n == 0 {
        false
    } else {
        let c = s.get_char(n - 1);
        c == '/'
    }
}

/// Joins a name under a directory with a `/` separator.
fn join_path(dir: &str, name: &str) -> (r: String)
    ensures
        r@ == join_spec(dir@, name@),
{
    let mut out: String = dir.to_owned();
    if !ends_with_slash(dir) {
        out.push_str("/");
        proof {
            reveal_strlit("/");
            assert(("/")@ =~= seq!['/']);
        }
    }
    out.push_str(name);
    out
}

/// Finds the destination mapped for a name, if the mapping lists it.
fn lookup(pairs: &Vec<(String, String)>, name: &String) -> (r: Option<String>)
    ensures
        ({
            let found = lookup_spec(pairs_view(pairs@), name@);
            match r {
                Some(v) => found == Some(v@),
                None => found is None,
            }
        }),
{
    let n: usize = pairs.len();
    let mut i: usize = 0;
    proof {
        assert(pairs_view(pairs@).skip(0) =~= pairs_view(pairs@));
    }
    while i < n
        invariant
            i <= n,
            n == pairs@.len(),
            lookup_spec(pairs_view(pairs@), name@) == lookup_spec(
                pairs_view(pairs@).skip(i as int),
                name@,
            ),
        decreases n - i,
    {
        proof {
            assert(pairs_view(pairs@).skip(i as int)[0] == pairs_view(pairs@)[i as int]);
        }
        if pairs[i].0 == *name {
            return Some(pairs[i].1.clone());
        }
        proof {
            assert(pairs_view(pairs@).skip(i as int).drop_first() =~= pairs_view(pairs@).skip(
                i + 1,
            ));
        }
        i = i + 1;
    }
    proof {
        assert(pairs_view(pairs@).skip(n as int) =~= Seq::<(Seq<char>, Seq<char>)>::empty());
    }
    None
}

/// Plans an extraction: given the names of an archive's entries in order
/// and the extraction instruction, returns which entries to extract and
/// the destination path of each. Entries the instruction does not cover —
/// directories for a whole-archive extraction, unmapped names for a mapped
/// one — are left out.
pub fn extract_plan(entry_names: &Vec<String>, info: &ExtractInfo) -> (r: Vec<(usize, String)>)
    ensures
        plan_matches(r@, extract_plan_spec(names_view(entry_names@), *info)),
{
    let n: usize = entry_names.len();
    let ghost nv = names_view(entry_names@);
    let mut r: Vec<(usize, String)> = Vec::new();
    match info {
        ExtractInfo::Directory(d) => {
            let mut i: usize = 0;
            while i < n
                invariant
                    i <= n,
                    n == entry_names@.len(),
                    nv == names_view(entry_names@),
                    plan_matches(r@, dir_plan(nv.take(i as int), d@)),
                decreases n - i,
            {
                proof {
                    assert(nv.take(i + 1).drop_last() =~= nv.take(i as int));
                    assert(nv.take(i + 1).last() == nv[i as int]);
                    assert(nv[i as int] == entry_names@[i as int]@);
                }
                let name = &entry_names[i];
                if !ends_with_slash(name.as_str()) {
                    let dest = join_path(d.as_str(), name.as_str());
                    r.push((i, dest));
                }
                i = i + 1;
            }
            proof {
                assert(nv.take(n as int) =~= nv);
            }
        },
        ExtractInfo::Mapping(m) => {
            let mut i: usize = 0;
            while i < n
                invariant
                    i <= n,
                    n == entry_names@.len(),
                    nv == names_view(entry_names@),
                    plan_matches(r@, map_plan(nv.take(i as int), pairs_view(m@))),
                decreases n - i,
            {
                proof {
                    assert(nv.take(i + 1).drop_last() =~= nv.take(i as int));
                    assert(nv.take(i + 1).last() == nv[i as int]);
                    assert(nv[i as int] == entry_names@[i as int]@);
                }
                match lookup(m, &entry_names[i]) {
                    Some(dest) => {
                        r.push((i, dest));
                    },
                    None => {},
                }
                i = i + 1;
            }
            proof {
                assert(nv.take(n as int) =~= nv);
            }
        },
    }
    r
}

} // verus!
