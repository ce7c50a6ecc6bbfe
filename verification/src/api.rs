//! The service endpoints the app talks to, and the shapes of the replies
//! the library reads. The requests themselves are made by the app.

use vstd::prelude::*;
use crate::text::{chars_of, string_of, strip_suffixes, strip_suffixes_end};
use vstd::string::StringExecFns;

verus! {

/// A signed-in session as the auth service returns it.
#[derive(Debug, Clone)]
pub struct AuthResponse {
    pub access_token: String,
    pub user: AuthUser,
}

#[derive(Debug, Clone)]
pub struct AuthUser {
    pub id: String,
    pub email: Option<String>,
}

/// The message the database service sends with a refusal.
#[derive(Debug, Clone)]
pub struct SupabaseError {
    pub message: String,
}

/// The database project's root: the configured URL without trailing
/// slashes, without a trailing `/rest/v1`, and without the slashes that
/// leaves.
pub open spec fn base_url_of(url: Seq<char>) -> Seq<char> {
    strip_suffixes(strip_suffixes(strip_suffixes(url, "/"@), "/rest/v1"@), "/"@)
}

/// The project's root for `supabase_url` (see [`base_url_of`]).
pub fn base_url(supabase_url: &str) -> (r: String)
    ensures
        r@ == base_url_of(supabase_url@),
{
    let cs = chars_of(supabase_url);
    let slash = vec!['/'];
    let rest = vec!['/', 'r', 'e', 's', 't', '/', 'v', '1'];
    proof {
        reveal_strlit("/");
        reveal_strlit("/rest/v1");
        assert(slash@ == "/"@);
        assert(rest@ == "/rest/v1"@);
        assert(cs@.subrange(0, cs.len() as int) == cs@);
    }
    let e1 = strip_suffixes_end(&cs, 0, cs.len(), &slash);
    let e2 = strip_suffixes_end(&cs, 0, e1, &rest);
    let e3 = strip_suffixes_end(&cs, 0, e2, &slash);
    string_of(&cs, 0, e3)
}

/// The REST endpoint of `table`: the project's root, `/rest/v1/`, the table.
pub fn rest_url(supabase_url: &str, table: &str) -> (r: String)
    ensures
        r@ == base_url_of(supabase_url@) + "/rest/v1/"@ + table@,
{
    let mut out = base_url(supabase_url);
    out.append("/rest/v1/");
    out.append(table);
    out
}

/// The worker's root: the configured URL without trailing slashes.
pub fn worker_base(worker_url: &str) -> (r: String)
    ensures
        r@ == strip_suffixes(worker_url@, "/"@),
{
    let cs = chars_of(worker_url);
    let slash = vec!['/'];
    proof {
        reveal_strlit("/");
        assert(slash@ == "/"@);
        assert(cs@.subrange(0, cs.len() as int) == cs@);
    }
    let e = strip_suffixes_end(&cs, 0, cs.len(), &slash);
    string_of(&cs, 0, e)
}

} // verus!
