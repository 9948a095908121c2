use vstd::prelude::*;

use crate::errors::SearchError;

verus! {

/// A validated search request: the directory to search under and the term
/// to look for. Both come verbatim from the process arguments.
#[derive(Debug)]
pub struct SearchRequest {
    pub root_path: String,
    pub term: String,
}

/// Whether an argument vector is well-formed: at least three elements
/// (program name, root path, term), with a non-empty path and term.
pub open spec fn args_valid(args: Seq<Seq<char>>) -> bool {
    &&& args.len() >= 3
    &&& args[1].len() > 0
    &&& args[2].len() > 0
}

/// Validates the full process argument vector and builds the request from
/// arguments 1 (root path) and 2 (term), unmodified. Fails with
/// `InvalidArguments` exactly when an argument is missing or empty.
pub fn parse_args(args: &Vec<String>) -> (r: Result<SearchRequest, SearchError>)
    ensures
        !args_valid(args@.map_values(|s: String| s@)) ==> r == Err::<
            SearchRequest,
            SearchError,
        >(SearchError::InvalidArguments),
        args_valid(args@.map_values(|s: String| s@)) ==> (r matches Ok(req) && req.root_path@
            == args@[1]@ && req.term@ == args@[2]@),
{
    if args.len() < 3 {
        return Err(SearchError::InvalidArguments);
    }
    if args[1].as_str().is_empty() {
        return Err(SearchError::InvalidArguments);
    }
    if args[2].as_str().is_empty() {
        return Err(SearchError::InvalidArguments);
    }
    Ok(SearchRequest { root_path: args[1].clone(), term: args[2].clone() })
}

} // verus!
