use vstd::prelude::*;

verus! {

/// Which entries a search may report.
#[derive(Clone, Copy, Debug, PartialEq, Eq, Structural)]
pub enum Kind {
    /// Every entry, file or directory, is eligible.
    File,
    /// Only directories are eligible.
    Directory,
}

/// What `find` looks for: a base name and the kind of entry.
#[derive(Clone, Debug)]
pub struct SearchQuery {
    pub name: String,
    pub kind: Kind,
}

/// The name matcher: an empty query name matches every name, any other
/// matches only itself, exactly.
pub open spec fn name_matches_spec(entry_name: Seq<char>, query_name: Seq<char>) -> bool {
    query_name.len() == 0 || query_name == entry_name
}

/// Whether an entry with this name and directory flag belongs in the result
/// of a search of `kind` for `query_name`.
pub open spec fn eligible_spec(
    entry_name: Seq<char>,
    is_dir: bool,
    query_name: Seq<char>,
    kind: Kind,
) -> bool {
    (kind == Kind::File || is_dir) && name_matches_spec(entry_name, query_name)
}

/// Decides whether an entry's base name satisfies the query name.
pub fn name_matches(entry_name: &String, query_name: &String) -> (r: bool)
    ensures
        r == name_matches_spec(entry_name@, query_name@),
{
    query_name.as_str().is_empty() || *query_name == *entry_name
}

impl SearchQuery {
    /// Whether an entry with this name and directory flag is reported.
    pub fn admits(&self, entry_name: &String, is_dir: bool) -> (r: bool)
        ensures
            r == eligible_spec(entry_name@, is_dir, self.name@, self.kind),
    {
        let kind_ok = match self.kind {
            Kind::File => true,
            Kind::Directory => is_dir,
        };
        kind_ok && name_matches(entry_name, &self.name)
    }
}

} // verus!
