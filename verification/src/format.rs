//! Rewriting an SSH-style remote (`user@host:path`) into the HTTPS address of
//! the same repository.

use vstd::prelude::*;
use vstd::string::StrSliceExecFns;
use vstd::string::StringExecFns;
use crate::text::{chars_of, find_char, index_of, lemma_position_is};

verus! {

/// The scheme that every rewritten address starts with: `https://`.
pub open spec fn https_prefix() -> Seq<char> {
    seq!['h', 't', 't', 'p', 's', ':', '/', '/']
}

/// `https://{domain}/{path}`.
pub open spec fn https_address(domain: Seq<char>, path: Seq<char>) -> Seq<char> {
    https_prefix() + domain + seq!['/'] + path
}

/// What precedes the first colon of `url`; all of `url` when it has no colon.
pub open spec fn before_colon(url: Seq<char>) -> Seq<char> {
    url.subrange(0, index_of(url, ':'))
}

/// What follows the first colon of `url`. Only meaningful when `url` has a colon.
pub open spec fn after_colon(url: Seq<char>) -> Seq<char> {
    url.subrange(index_of(url, ':') + 1, url.len() as int)
}

/// What follows the first `@` of `prefix`. Only meaningful when `prefix` has one.
pub open spec fn after_at(prefix: Seq<char>) -> Seq<char> {
    prefix.subrange(index_of(prefix, '@') + 1, prefix.len() as int)
}

/// Whether `url` is rewritten: it has a colon, an `@` stands before the first
/// colon, and both the host after that `@` and the path after the colon are
/// non-empty.
pub open spec fn is_ssh_style(url: Seq<char>) -> bool {
    &&& index_of(url, ':') < url.len()
    &&& index_of(before_colon(url), '@') < before_colon(url).len()
    &&& after_at(before_colon(url)).len() > 0
    &&& after_colon(url).len() > 0
}

/// The address that `format_url` gives for `url`.
pub open spec fn spec_format_url(url: Seq<char>) -> Seq<char> {
    if is_ssh_style(url) {
        https_address(after_at(before_colon(url)), after_colon(url))
    } else {
        url
    }
}

/// Rewrites `user@host:path` to `https://host/path` and hands every other
/// input back unchanged.
pub fn format_url(url: &str) -> (out: String)
    ensures
        out@ == spec_format_url(url@),
{
    let chars = chars_of(url);
    let len = chars.len();
    let colon = find_char(chars.as_slice(), ':', 0, len);
    assert(chars@.subrange(0, len as int) =~= url@);
    if colon < len {
        let at = find_char(chars.as_slice(), '@', 0, colon);
        assert(chars@.subrange(0, colon as int) =~= before_colon(url@));
        if at < colon && at + 1 < colon && colon + 1 < len {
            let domain = url.substring_char(at + 1, colon);
            let path = url.substring_char(colon + 1, len);
            let mut out = String::from_str("https://");
            out.append(domain);
            out.append("/");
            out.append(path);
            proof {
                reveal_strlit("https://");
                reveal_strlit("/");
                assert("https://"@ =~= https_prefix());
                assert("/"@ =~= seq!['/']);
                assert(domain@ =~= after_at(before_colon(url@)));
                assert(path@ =~= after_colon(url@));
            }
            return out;
        }
    }
    String::from_str(url)
}

/// An address that starts with `https://` is not SSH-style: its first colon
/// follows `https`, which holds no `@`.
pub proof fn lemma_https_is_not_ssh_style(url: Seq<char>)
    requires
        url.len() >= https_prefix().len(),
        url.subrange(0, https_prefix().len() as int) == https_prefix(),
    ensures
        !is_ssh_style(url),
{
    let head = url.subrange(0, 8);
    assert(forall|j: int| 0 <= j < 8 ==> url[j] == head[j]);
    lemma_position_is(url, ':', 0, 5);
    let prefix = before_colon(url);
    assert(prefix.len() == 5);
    assert(forall|j: int| 0 <= j < 5 ==> prefix[j] == url[j]);
    lemma_position_is(prefix, '@', 0, 5);
}

/// An address that already has the form `https://host/path` is handed back
/// unchanged.
pub proof fn lemma_format_url_keeps_https(url: Seq<char>)
    requires
        url.len() >= https_prefix().len(),
        url.subrange(0, https_prefix().len() as int) == https_prefix(),
    ensures
        spec_format_url(url) == url,
{
    lemma_https_is_not_ssh_style(url);
}

/// Formatting is idempotent: formatting a formatted address changes nothing.
pub proof fn lemma_format_url_idempotent(url: Seq<char>)
    ensures
        spec_format_url(spec_format_url(url)) == spec_format_url(url),
{
    if is_ssh_style(url) {
        let out = spec_format_url(url);
        assert(out.subrange(0, 8) =~= https_prefix());
        lemma_format_url_keeps_https(out);
    }
}

/// A rewritten address names the host and the path of the remote it came from:
/// for `user@host:path` with a non-empty `host` and `path`, no colon in `user`
/// or `host` and no `@` in `user`, the result is `https://host/path`.
pub proof fn lemma_format_url_rewrites(user: Seq<char>, host: Seq<char>, path: Seq<char>)
    requires
        host.len() > 0,
        path.len() > 0,
        !user.contains(':'),
        !user.contains('@'),
        !host.contains(':'),
    ensures
        spec_format_url(user + seq!['@'] + host + seq![':'] + path) == https_address(host, path),
{
    let url = user + seq!['@'] + host + seq![':'] + path;
    let colon = user.len() + 1 + host.len();
    assert forall|j: int| 0 <= j < colon implies url[j] != ':' by {
        if j < user.len() {
            assert(user.contains(url[j]));
        } else if j > user.len() {
            assert(host[j - user.len() - 1] == url[j]);
            assert(host.contains(url[j]));
        }
    }
    lemma_position_is(url, ':', 0, colon as int);
    let prefix = before_colon(url);
    assert(prefix =~= user + seq!['@'] + host);
    assert forall|j: int| 0 <= j < user.len() implies prefix[j] != '@' by {
        assert(user.contains(prefix[j]));
    }
    lemma_position_is(prefix, '@', 0, user.len() as int);
    assert(after_at(prefix) =~= host);
    assert(after_colon(url) =~= path);
}

} // verus!
