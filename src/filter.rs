use crate::naming::{chars_of, has_prefix};
use vstd::prelude::*;

verus! {

/// What a filter says of a record.
#[derive(Clone, Copy, Debug, PartialEq, Eq, Structural)]
pub enum FilterResponse {
    Accept,
    Reject,
    /// Leave the decision to the pipeline's level check.
    Neutral,
}

/// Which records a filter lets through, chosen once at start-up.
#[derive(Clone, Copy, Debug, PartialEq, Eq, Structural)]
pub enum VerbosityScope {
    /// Only records from this crate's own modules.
    Restricted,
    /// All records; the level check alone decides.
    Unrestricted,
}

/// The module path of this crate.
pub open spec fn crate_namespace() -> Seq<char> {
    seq!['s', 'e', 'r', 'v', 'e', 'r']
}

/// Whether a module path is this crate's root or one of its modules.
pub open spec fn within_crate(path: Seq<char>) -> bool {
    path == crate_namespace() || (crate_namespace() + seq![':', ':']).is_prefix_of(path)
}

/// The filter's answer for a record whose module path is `origin`.
pub open spec fn filter_response(scope: VerbosityScope, origin: Option<Seq<char>>) -> FilterResponse {
    match scope {
        VerbosityScope::Unrestricted => FilterResponse::Neutral,
        VerbosityScope::Restricted => match origin {
            Some(path) => if within_crate(path) {
                FilterResponse::Accept
            } else {
                FilterResponse::Reject
            },
            None => FilterResponse::Reject,
        },
    }
}

/// Keeps third-party records off the sinks when restricted.
#[derive(Clone, Copy, Debug)]
pub struct CrateFilter {
    pub scope: VerbosityScope,
}

impl CrateFilter {
    pub fn new(scope: VerbosityScope) -> (r: CrateFilter)
        ensures
            r.scope == scope,
    {
        CrateFilter { scope }
    }

    /// When restricted, accepts a record whose module path is `server` or lies
    /// under `server::`, and rejects any other, one without a module path too;
    /// when unrestricted, is neutral.
    pub fn filter(&self, origin: Option<&str>) -> (r: FilterResponse)
        ensures
            r == filter_response(
                self.scope,
                match origin {
                    Some(p) => Some(p@),
                    None => None,
                },
            ),
    {
        match self.scope {
            VerbosityScope::Unrestricted => FilterResponse::Neutral,
            VerbosityScope::Restricted => match origin {
                Some(path) => {
                    proof {
                        reveal_strlit("server");
                        reveal_strlit("server::");
                    }
                    let root = chars_of("server");
                    let modules = chars_of("server::");
                    let p = chars_of(path);
                    let is_root = p.len() == root.len() && has_prefix(&p, &root);
                    proof {
                        assert(modules@ =~= crate_namespace() + seq![':', ':']);
                        assert(root@ =~= crate_namespace());
                        if is_root {
                            assert(p@ =~= root@);
                        } else if p@ == root@ {
                            assert(p@.subrange(0, root@.len() as int) =~= root@);
                        }
                    }
                    if is_root || has_prefix(&p, &modules) {
                        FilterResponse::Accept
                    } else {
                        FilterResponse::Reject
                    }
                },
                None => FilterResponse::Reject,
            },
        }
    }
}

} // verus!
