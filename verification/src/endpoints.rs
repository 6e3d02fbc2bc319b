//! The fixed-format REST endpoints, the authorization header, and the names
//! of the files a run writes.

use vstd::prelude::*;

verus! {

/// The URL that lists all keys of a namespace.
pub open spec fn keys_url_of(account: Seq<char>, namespace: Seq<char>) -> Seq<char> {
    "https://api.cloudflare.com/client/v4/accounts/"@ + account
        + "/storage/kv/namespaces/"@ + namespace + "/keys"@
}

/// The URL that returns the raw value of one key. The key name is embedded
/// verbatim: no escaping is performed.
pub open spec fn value_url_of(account: Seq<char>, namespace: Seq<char>, key: Seq<char>) -> Seq<
    char,
> {
    "https://api.cloudflare.com/client/v4/accounts/"@ + account
        + "/storage/kv/namespaces/"@ + namespace + "/values/"@ + key
}

/// The value every request carries in its authorization header: a fixed
/// prefix followed by the bearer token.
pub open spec fn auth_header_of(token: Seq<char>) -> Seq<char> {
    "Bearer "@ + token
}

/// The path, relative to the working directory, at which the value of `key`
/// is persisted.
pub open spec fn value_file_of(key: Seq<char>) -> Seq<char> {
    "kv-data/"@ + key + ".json"@
}

/// The directory all output files are written into.
pub open spec fn output_dir_of() -> Seq<char> {
    "kv-data"@
}

/// Builds the key-listing URL for one account and namespace.
pub fn keys_url(account_id: &str, namespace_id: &str) -> (r: String)
    ensures
        r@ == keys_url_of(account_id@, namespace_id@),
{
    let r = String::from_str("https://api.cloudflare.com/client/v4/accounts/").concat(
        account_id,
    ).concat("/storage/kv/namespaces/").concat(namespace_id).concat("/keys");
    proof {
        assert(r@ =~= keys_url_of(account_id@, namespace_id@));
    }
    r
}

/// Builds the value URL for one key of one namespace.
pub fn value_url(account_id: &str, namespace_id: &str, key: &str) -> (r: String)
    ensures
        r@ == value_url_of(account_id@, namespace_id@, key@),
{
    let r = String::from_str("https://api.cloudflare.com/client/v4/accounts/").concat(
        account_id,
    ).concat("/storage/kv/namespaces/").concat(namespace_id).concat("/values/").concat(key);
    proof {
        assert(r@ =~= value_url_of(account_id@, namespace_id@, key@));
    }
    r
}

/// Builds the authorization header value for one bearer token.
pub fn auth_header(token: &str) -> (r: String)
    ensures
        r@ == auth_header_of(token@),
{
    let r = String::from_str("Bearer ").concat(token);
    proof {
        assert(r@ =~= auth_header_of(token@));
    }
    r
}

/// Builds the output file path for one key.
pub fn value_file(key: &str) -> (r: String)
    ensures
        r@ == value_file_of(key@),
{
    let r = String::from_str("kv-data/").concat(key).concat(".json");
    proof {
        assert(r@ =~= value_file_of(key@));
    }
    r
}

/// The name of the output directory.
pub fn output_dir() -> (r: String)
    ensures
        r@ == output_dir_of(),
{
    String::from_str("kv-data")
}

/// Distinct keys are persisted at distinct paths: a run never writes one file
/// for two different keys, so no output is lost to a name collision within a
/// run.
pub proof fn lemma_value_file_injective(k1: Seq<char>, k2: Seq<char>)
    requires
        value_file_of(k1) == value_file_of(k2),
    ensures
        k1 == k2,
{
    let p = "kv-data/"@;
    let s = ".json"@;
    assert((p + k1 + s).len() == (p + k2 + s).len());
    assert(k1.len() == k2.len());
    assert forall|i: int| 0 <= i < k1.len() implies k1[i] == k2[i] by {
        assert((p + k1 + s)[p.len() + i] == k1[i]);
        assert((p + k2 + s)[p.len() + i] == k2[i]);
    }
    assert(k1 =~= k2);
}

} // verus!
