//! The host/path base under which the service is reachable.

use vstd::prelude::*;
use vstd::string::StrSliceExecFns;

verus! {

/// A hostname and a path prefix, without a scheme.  The path starts with a
/// slash and does not end with one, except for the bare root `/`.
pub struct HostingUrlBaseWithoutSchema {
    hostname: String,
    paths: String,
}

impl HostingUrlBaseWithoutSchema {
    /// The accepted shape of a path prefix.
    pub open spec fn path_ok(path: Seq<char>) -> bool {
        &&& path.len() >= 1
        &&& path[0] == '/'
        &&& (path[path.len() - 1] != '/' || path.len() == 1)
    }

    /// The hostname this base carries.
    pub closed spec fn spec_host(self) -> Seq<char> {
        self.hostname@
    }

    /// The path prefix this base carries.
    pub closed spec fn spec_path(self) -> Seq<char> {
        self.paths@
    }

    /// Accepts a path that starts with a slash and does not end with one,
    /// with the bare root `/` as the one exception.
    pub fn new(hostname: String, path: String) -> (r: Result<Self, ()>)
        ensures
            match r {
                Ok(b) => Self::path_ok(path@) && b.spec_host() == hostname@
                    && b.spec_path() == path@,
                Err(()) => !Self::path_ok(path@),
            },
    {
        let n = path.as_str().unicode_len();
        if n >= 1 && path.as_str().get_char(0) == '/'
            && (path.as_str().get_char(n - 1) != '/' || n == 1) {
            Ok(Self { hostname, paths: path })
        } else {
            Err(())
        }
    }

    pub fn host(&self) -> (r: &str)
        ensures
            r@ == self.spec_host(),
    {
        self.hostname.as_str()
    }

    pub fn path(&self) -> (r: &str)
        ensures
            r@ == self.spec_path(),
    {
        self.paths.as_str()
    }
}

/// Whether links are to be rewritten to `https`.
pub struct DoRewriteHttps {
    pub rewrite: bool,
}

} // verus!
