use crate::token::str_equal;
use vstd::prelude::*;
use vstd::string::StringExecFns;

verus! {

/// First-match lookup of `key` among (path, text) entries.
pub open spec fn lookup(entries: Seq<(String, String)>, key: Seq<char>) -> Option<Seq<char>>
    decreases entries.len(),
{
    if entries.len() == 0 {
        None
    } else if entries[0].0@ == key {
        Some(entries[0].1@)
    } else {
        lookup(entries.drop_first(), key)
    }
}

/// Resolves a standard-library module: the stored text filed under the given
/// path with the source-file suffix appended, or nothing when no module
/// bears that name.  The embedded (path, text) table itself comes from the
/// build of the surrounding program; the lookup is a flat map.
#[verifier::loop_isolation(false)]
pub fn resolve(modules: &Vec<(String, String)>, path: &str) -> (r: Option<String>)
    ensures
        match r {
            Some(text) => lookup(modules@, path@ + ".ab"@) == Some(text@),
            None => lookup(modules@, path@ + ".ab"@) is None,
        },
{
    let full = path.to_owned().concat(".ab");
    proof {
        assert(modules@.subrange(0, modules@.len() as int) =~= modules@);
    }
    let mut i: usize = 0;
    while i < modules.len()
        invariant
            i <= modules@.len(),
            lookup(modules@, full@) == lookup(
                modules@.subrange(i as int, modules@.len() as int),
                full@,
            ),
        decreases modules@.len() - i,
    {
        proof {
            let suffix = modules@.subrange(i as int, modules@.len() as int);
            assert(suffix[0] == modules@[i as int]);
            assert(suffix.drop_first() =~= modules@.subrange(i + 1, modules@.len() as int));
        }
        if str_equal(modules[i].0.as_str(), full.as_str()) {
            return Some(modules[i].1.clone());
        }
        i = i + 1;
    }
    None
}

} // verus!
