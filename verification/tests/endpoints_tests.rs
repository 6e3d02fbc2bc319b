use kv_fetch::endpoints::auth_header;
use kv_fetch::endpoints::keys_url;
use kv_fetch::endpoints::output_dir;
use kv_fetch::endpoints::value_file;
use kv_fetch::endpoints::value_url;

#[test]
fn keys_url_is_the_fixed_listing_endpoint() {
    assert_eq!(
        keys_url("acc", "ns"),
        "https://api.cloudflare.com/client/v4/accounts/acc/storage/kv/namespaces/ns/keys"
    );
}

#[test]
fn value_url_embeds_the_key_verbatim() {
    assert_eq!(
        value_url("acc", "ns", "alpha-1"),
        "https://api.cloudflare.com/client/v4/accounts/acc/storage/kv/namespaces/ns/values/alpha-1"
    );
}

#[test]
fn auth_header_prefixes_the_bearer_token() {
    assert_eq!(auth_header("tok123"), "Bearer tok123");
    assert_eq!(auth_header(""), "Bearer ");
}

#[test]
fn value_file_lives_in_the_output_directory() {
    assert_eq!(value_file("alpha-1"), "kv-data/alpha-1.json");
    assert_eq!(output_dir(), "kv-data");
}

#[test]
fn distinct_keys_get_distinct_files() {
    assert_ne!(value_file("a"), value_file("b"));
    assert_ne!(value_file("a.json"), value_file("a"));
}
