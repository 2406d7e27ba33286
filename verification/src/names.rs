//! The byte strings the engine compares against: header names, directive
//! names and a few fixed tokens. Each has a specification-level value and an
//! executable twin that allocates it.

use vstd::prelude::*;
use crate::bytes::spec_lower;

verus! {

/// The byte string `"cache-control"`.
pub open spec fn nm_cache_control() -> Seq<u8> {
    seq!['c' as u8, 'a' as u8, 'c' as u8, 'h' as u8, 'e' as u8, '-' as u8, 'c' as u8, 'o' as u8, 'n' as u8, 't' as u8, 'r' as u8, 'o' as u8, 'l' as u8]
}

/// Allocates the byte string `"cache-control"`.
pub fn cache_control_bytes() -> (r: Vec<u8>)
    ensures
        r@ == nm_cache_control(),
{
    let r: Vec<u8> = vec!['c' as u8, 'a' as u8, 'c' as u8, 'h' as u8, 'e' as u8, '-' as u8, 'c' as u8, 'o' as u8, 'n' as u8, 't' as u8, 'r' as u8, 'o' as u8, 'l' as u8];
    proof {
        assert(r@ =~= nm_cache_control());
    }
    r
}

/// The byte string `"pragma"`.
pub open spec fn nm_pragma() -> Seq<u8> {
    seq!['p' as u8, 'r' as u8, 'a' as u8, 'g' as u8, 'm' as u8, 'a' as u8]
}

/// Allocates the byte string `"pragma"`.
pub fn pragma_bytes() -> (r: Vec<u8>)
    ensures
        r@ == nm_pragma(),
{
    let r: Vec<u8> = vec!['p' as u8, 'r' as u8, 'a' as u8, 'g' as u8, 'm' as u8, 'a' as u8];
    proof {
        assert(r@ =~= nm_pragma());
    }
    r
}

/// The byte string `"expires"`.
pub open spec fn nm_expires() -> Seq<u8> {
    seq!['e' as u8, 'x' as u8, 'p' as u8, 'i' as u8, 'r' as u8, 'e' as u8, 's' as u8]
}

/// Allocates the byte string `"expires"`.
pub fn expires_bytes() -> (r: Vec<u8>)
    ensures
        r@ == nm_expires(),
{
    let r: Vec<u8> = vec!['e' as u8, 'x' as u8, 'p' as u8, 'i' as u8, 'r' as u8, 'e' as u8, 's' as u8];
    proof {
        assert(r@ =~= nm_expires());
    }
    r
}

/// The byte string `"age"`.
pub open spec fn nm_age() -> Seq<u8> {
    seq!['a' as u8, 'g' as u8, 'e' as u8]
}

/// Allocates the byte string `"age"`.
pub fn age_bytes() -> (r: Vec<u8>)
    ensures
        r@ == nm_age(),
{
    let r: Vec<u8> = vec!['a' as u8, 'g' as u8, 'e' as u8];
    proof {
        assert(r@ =~= nm_age());
    }
    r
}

/// The byte string `"date"`.
pub open spec fn nm_date() -> Seq<u8> {
    seq!['d' as u8, 'a' as u8, 't' as u8, 'e' as u8]
}

/// Allocates the byte string `"date"`.
pub fn date_bytes() -> (r: Vec<u8>)
    ensures
        r@ == nm_date(),
{
    let r: Vec<u8> = vec!['d' as u8, 'a' as u8, 't' as u8, 'e' as u8];
    proof {
        assert(r@ =~= nm_date());
    }
    r
}

/// The byte string `"vary"`.
pub open spec fn nm_vary() -> Seq<u8> {
    seq!['v' as u8, 'a' as u8, 'r' as u8, 'y' as u8]
}

/// Allocates the byte string `"vary"`.
pub fn vary_bytes() -> (r: Vec<u8>)
    ensures
        r@ == nm_vary(),
{
    let r: Vec<u8> = vec!['v' as u8, 'a' as u8, 'r' as u8, 'y' as u8];
    proof {
        assert(r@ =~= nm_vary());
    }
    r
}

/// The byte string `"set-cookie"`.
pub open spec fn nm_set_cookie() -> Seq<u8> {
    seq!['s' as u8, 'e' as u8, 't' as u8, '-' as u8, 'c' as u8, 'o' as u8, 'o' as u8, 'k' as u8, 'i' as u8, 'e' as u8]
}

/// Allocates the byte string `"set-cookie"`.
pub fn set_cookie_bytes() -> (r: Vec<u8>)
    ensures
        r@ == nm_set_cookie(),
{
    let r: Vec<u8> = vec!['s' as u8, 'e' as u8, 't' as u8, '-' as u8, 'c' as u8, 'o' as u8, 'o' as u8, 'k' as u8, 'i' as u8, 'e' as u8];
    proof {
        assert(r@ =~= nm_set_cookie());
    }
    r
}

/// The byte string `"authorization"`.
pub open spec fn nm_authorization() -> Seq<u8> {
    seq!['a' as u8, 'u' as u8, 't' as u8, 'h' as u8, 'o' as u8, 'r' as u8, 'i' as u8, 'z' as u8, 'a' as u8, 't' as u8, 'i' as u8, 'o' as u8, 'n' as u8]
}

/// Allocates the byte string `"authorization"`.
pub fn authorization_bytes() -> (r: Vec<u8>)
    ensures
        r@ == nm_authorization(),
{
    let r: Vec<u8> = vec!['a' as u8, 'u' as u8, 't' as u8, 'h' as u8, 'o' as u8, 'r' as u8, 'i' as u8, 'z' as u8, 'a' as u8, 't' as u8, 'i' as u8, 'o' as u8, 'n' as u8];
    proof {
        assert(r@ =~= nm_authorization());
    }
    r
}

/// The byte string `"host"`.
pub open spec fn nm_host() -> Seq<u8> {
    seq!['h' as u8, 'o' as u8, 's' as u8, 't' as u8]
}

/// Allocates the byte string `"host"`.
pub fn host_bytes() -> (r: Vec<u8>)
    ensures
        r@ == nm_host(),
{
    let r: Vec<u8> = vec!['h' as u8, 'o' as u8, 's' as u8, 't' as u8];
    proof {
        assert(r@ =~= nm_host());
    }
    r
}

/// The byte string `"etag"`.
pub open spec fn nm_etag() -> Seq<u8> {
    seq!['e' as u8, 't' as u8, 'a' as u8, 'g' as u8]
}

/// Allocates the byte string `"etag"`.
pub fn etag_bytes() -> (r: Vec<u8>)
    ensures
        r@ == nm_etag(),
{
    let r: Vec<u8> = vec!['e' as u8, 't' as u8, 'a' as u8, 'g' as u8];
    proof {
        assert(r@ =~= nm_etag());
    }
    r
}

/// The byte string `"last-modified"`.
pub open spec fn nm_last_modified() -> Seq<u8> {
    seq!['l' as u8, 'a' as u8, 's' as u8, 't' as u8, '-' as u8, 'm' as u8, 'o' as u8, 'd' as u8, 'i' as u8, 'f' as u8, 'i' as u8, 'e' as u8, 'd' as u8]
}

/// Allocates the byte string `"last-modified"`.
pub fn last_modified_bytes() -> (r: Vec<u8>)
    ensures
        r@ == nm_last_modified(),
{
    let r: Vec<u8> = vec!['l' as u8, 'a' as u8, 's' as u8, 't' as u8, '-' as u8, 'm' as u8, 'o' as u8, 'd' as u8, 'i' as u8, 'f' as u8, 'i' as u8, 'e' as u8, 'd' as u8];
    proof {
        assert(r@ =~= nm_last_modified());
    }
    r
}

/// The byte string `"if-none-match"`.
pub open spec fn nm_if_none_match() -> Seq<u8> {
    seq!['i' as u8, 'f' as u8, '-' as u8, 'n' as u8, 'o' as u8, 'n' as u8, 'e' as u8, '-' as u8, 'm' as u8, 'a' as u8, 't' as u8, 'c' as u8, 'h' as u8]
}

/// Allocates the byte string `"if-none-match"`.
pub fn if_none_match_bytes() -> (r: Vec<u8>)
    ensures
        r@ == nm_if_none_match(),
{
    let r: Vec<u8> = vec!['i' as u8, 'f' as u8, '-' as u8, 'n' as u8, 'o' as u8, 'n' as u8, 'e' as u8, '-' as u8, 'm' as u8, 'a' as u8, 't' as u8, 'c' as u8, 'h' as u8];
    proof {
        assert(r@ =~= nm_if_none_match());
    }
    r
}

/// The byte string `"if-modified-since"`.
pub open spec fn nm_if_modified_since() -> Seq<u8> {
    seq!['i' as u8, 'f' as u8, '-' as u8, 'm' as u8, 'o' as u8, 'd' as u8, 'i' as u8, 'f' as u8, 'i' as u8, 'e' as u8, 'd' as u8, '-' as u8, 's' as u8, 'i' as u8, 'n' as u8, 'c' as u8, 'e' as u8]
}

/// Allocates the byte string `"if-modified-since"`.
pub fn if_modified_since_bytes() -> (r: Vec<u8>)
    ensures
        r@ == nm_if_modified_since(),
{
    let r: Vec<u8> = vec!['i' as u8, 'f' as u8, '-' as u8, 'm' as u8, 'o' as u8, 'd' as u8, 'i' as u8, 'f' as u8, 'i' as u8, 'e' as u8, 'd' as u8, '-' as u8, 's' as u8, 'i' as u8, 'n' as u8, 'c' as u8, 'e' as u8];
    proof {
        assert(r@ =~= nm_if_modified_since());
    }
    r
}

/// The byte string `"if-range"`.
pub open spec fn nm_if_range() -> Seq<u8> {
    seq!['i' as u8, 'f' as u8, '-' as u8, 'r' as u8, 'a' as u8, 'n' as u8, 'g' as u8, 'e' as u8]
}

/// Allocates the byte string `"if-range"`.
pub fn if_range_bytes() -> (r: Vec<u8>)
    ensures
        r@ == nm_if_range(),
{
    let r: Vec<u8> = vec!['i' as u8, 'f' as u8, '-' as u8, 'r' as u8, 'a' as u8, 'n' as u8, 'g' as u8, 'e' as u8];
    proof {
        assert(r@ =~= nm_if_range());
    }
    r
}

/// The byte string `"if-match"`.
pub open spec fn nm_if_match() -> Seq<u8> {
    seq!['i' as u8, 'f' as u8, '-' as u8, 'm' as u8, 'a' as u8, 't' as u8, 'c' as u8, 'h' as u8]
}

/// Allocates the byte string `"if-match"`.
pub fn if_match_bytes() -> (r: Vec<u8>)
    ensures
        r@ == nm_if_match(),
{
    let r: Vec<u8> = vec!['i' as u8, 'f' as u8, '-' as u8, 'm' as u8, 'a' as u8, 't' as u8, 'c' as u8, 'h' as u8];
    proof {
        assert(r@ =~= nm_if_match());
    }
    r
}

/// The byte string `"if-unmodified-since"`.
pub open spec fn nm_if_unmodified_since() -> Seq<u8> {
    seq!['i' as u8, 'f' as u8, '-' as u8, 'u' as u8, 'n' as u8, 'm' as u8, 'o' as u8, 'd' as u8, 'i' as u8, 'f' as u8, 'i' as u8, 'e' as u8, 'd' as u8, '-' as u8, 's' as u8, 'i' as u8, 'n' as u8, 'c' as u8, 'e' as u8]
}

/// Allocates the byte string `"if-unmodified-since"`.
pub fn if_unmodified_since_bytes() -> (r: Vec<u8>)
    ensures
        r@ == nm_if_unmodified_since(),
{
    let r: Vec<u8> = vec!['i' as u8, 'f' as u8, '-' as u8, 'u' as u8, 'n' as u8, 'm' as u8, 'o' as u8, 'd' as u8, 'i' as u8, 'f' as u8, 'i' as u8, 'e' as u8, 'd' as u8, '-' as u8, 's' as u8, 'i' as u8, 'n' as u8, 'c' as u8, 'e' as u8];
    proof {
        assert(r@ =~= nm_if_unmodified_since());
    }
    r
}

/// The byte string `"accept-ranges"`.
pub open spec fn nm_accept_ranges() -> Seq<u8> {
    seq!['a' as u8, 'c' as u8, 'c' as u8, 'e' as u8, 'p' as u8, 't' as u8, '-' as u8, 'r' as u8, 'a' as u8, 'n' as u8, 'g' as u8, 'e' as u8, 's' as u8]
}

/// Allocates the byte string `"accept-ranges"`.
pub fn accept_ranges_bytes() -> (r: Vec<u8>)
    ensures
        r@ == nm_accept_ranges(),
{
    let r: Vec<u8> = vec!['a' as u8, 'c' as u8, 'c' as u8, 'e' as u8, 'p' as u8, 't' as u8, '-' as u8, 'r' as u8, 'a' as u8, 'n' as u8, 'g' as u8, 'e' as u8, 's' as u8];
    proof {
        assert(r@ =~= nm_accept_ranges());
    }
    r
}

/// The byte string `"connection"`.
pub open spec fn nm_connection() -> Seq<u8> {
    seq!['c' as u8, 'o' as u8, 'n' as u8, 'n' as u8, 'e' as u8, 'c' as u8, 't' as u8, 'i' as u8, 'o' as u8, 'n' as u8]
}

/// Allocates the byte string `"connection"`.
pub fn connection_bytes() -> (r: Vec<u8>)
    ensures
        r@ == nm_connection(),
{
    let r: Vec<u8> = vec!['c' as u8, 'o' as u8, 'n' as u8, 'n' as u8, 'e' as u8, 'c' as u8, 't' as u8, 'i' as u8, 'o' as u8, 'n' as u8];
    proof {
        assert(r@ =~= nm_connection());
    }
    r
}

/// The byte string `"warning"`.
pub open spec fn nm_warning() -> Seq<u8> {
    seq!['w' as u8, 'a' as u8, 'r' as u8, 'n' as u8, 'i' as u8, 'n' as u8, 'g' as u8]
}

/// Allocates the byte string `"warning"`.
pub fn warning_bytes() -> (r: Vec<u8>)
    ensures
        r@ == nm_warning(),
{
    let r: Vec<u8> = vec!['w' as u8, 'a' as u8, 'r' as u8, 'n' as u8, 'i' as u8, 'n' as u8, 'g' as u8];
    proof {
        assert(r@ =~= nm_warning());
    }
    r
}

/// The byte string `"keep-alive"`.
pub open spec fn nm_keep_alive() -> Seq<u8> {
    seq!['k' as u8, 'e' as u8, 'e' as u8, 'p' as u8, '-' as u8, 'a' as u8, 'l' as u8, 'i' as u8, 'v' as u8, 'e' as u8]
}

/// Allocates the byte string `"keep-alive"`.
pub fn keep_alive_bytes() -> (r: Vec<u8>)
    ensures
        r@ == nm_keep_alive(),
{
    let r: Vec<u8> = vec!['k' as u8, 'e' as u8, 'e' as u8, 'p' as u8, '-' as u8, 'a' as u8, 'l' as u8, 'i' as u8, 'v' as u8, 'e' as u8];
    proof {
        assert(r@ =~= nm_keep_alive());
    }
    r
}

/// The byte string `"proxy-authenticate"`.
pub open spec fn nm_proxy_authenticate() -> Seq<u8> {
    seq!['p' as u8, 'r' as u8, 'o' as u8, 'x' as u8, 'y' as u8, '-' as u8, 'a' as u8, 'u' as u8, 't' as u8, 'h' as u8, 'e' as u8, 'n' as u8, 't' as u8, 'i' as u8, 'c' as u8, 'a' as u8, 't' as u8, 'e' as u8]
}

/// Allocates the byte string `"proxy-authenticate"`.
pub fn proxy_authenticate_bytes() -> (r: Vec<u8>)
    ensures
        r@ == nm_proxy_authenticate(),
{
    let r: Vec<u8> = vec!['p' as u8, 'r' as u8, 'o' as u8, 'x' as u8, 'y' as u8, '-' as u8, 'a' as u8, 'u' as u8, 't' as u8, 'h' as u8, 'e' as u8, 'n' as u8, 't' as u8, 'i' as u8, 'c' as u8, 'a' as u8, 't' as u8, 'e' as u8];
    proof {
        assert(r@ =~= nm_proxy_authenticate());
    }
    r
}

/// The byte string `"proxy-authorization"`.
pub open spec fn nm_proxy_authorization() -> Seq<u8> {
    seq!['p' as u8, 'r' as u8, 'o' as u8, 'x' as u8, 'y' as u8, '-' as u8, 'a' as u8, 'u' as u8, 't' as u8, 'h' as u8, 'o' as u8, 'r' as u8, 'i' as u8, 'z' as u8, 'a' as u8, 't' as u8, 'i' as u8, 'o' as u8, 'n' as u8]
}

/// Allocates the byte string `"proxy-authorization"`.
pub fn proxy_authorization_bytes() -> (r: Vec<u8>)
    ensures
        r@ == nm_proxy_authorization(),
{
    let r: Vec<u8> = vec!['p' as u8, 'r' as u8, 'o' as u8, 'x' as u8, 'y' as u8, '-' as u8, 'a' as u8, 'u' as u8, 't' as u8, 'h' as u8, 'o' as u8, 'r' as u8, 'i' as u8, 'z' as u8, 'a' as u8, 't' as u8, 'i' as u8, 'o' as u8, 'n' as u8];
    proof {
        assert(r@ =~= nm_proxy_authorization());
    }
    r
}

/// The byte string `"te"`.
pub open spec fn nm_te() -> Seq<u8> {
    seq!['t' as u8, 'e' as u8]
}

/// Allocates the byte string `"te"`.
pub fn te_bytes() -> (r: Vec<u8>)
    ensures
        r@ == nm_te(),
{
    let r: Vec<u8> = vec!['t' as u8, 'e' as u8];
    proof {
        assert(r@ =~= nm_te());
    }
    r
}

/// The byte string `"trailer"`.
pub open spec fn nm_trailer() -> Seq<u8> {
    seq!['t' as u8, 'r' as u8, 'a' as u8, 'i' as u8, 'l' as u8, 'e' as u8, 'r' as u8]
}

/// Allocates the byte string `"trailer"`.
pub fn trailer_bytes() -> (r: Vec<u8>)
    ensures
        r@ == nm_trailer(),
{
    let r: Vec<u8> = vec!['t' as u8, 'r' as u8, 'a' as u8, 'i' as u8, 'l' as u8, 'e' as u8, 'r' as u8];
    proof {
        assert(r@ =~= nm_trailer());
    }
    r
}

/// The byte string `"transfer-encoding"`.
pub open spec fn nm_transfer_encoding() -> Seq<u8> {
    seq!['t' as u8, 'r' as u8, 'a' as u8, 'n' as u8, 's' as u8, 'f' as u8, 'e' as u8, 'r' as u8, '-' as u8, 'e' as u8, 'n' as u8, 'c' as u8, 'o' as u8, 'd' as u8, 'i' as u8, 'n' as u8, 'g' as u8]
}

/// Allocates the byte string `"transfer-encoding"`.
pub fn transfer_encoding_bytes() -> (r: Vec<u8>)
    ensures
        r@ == nm_transfer_encoding(),
{
    let r: Vec<u8> = vec!['t' as u8, 'r' as u8, 'a' as u8, 'n' as u8, 's' as u8, 'f' as u8, 'e' as u8, 'r' as u8, '-' as u8, 'e' as u8, 'n' as u8, 'c' as u8, 'o' as u8, 'd' as u8, 'i' as u8, 'n' as u8, 'g' as u8];
    proof {
        assert(r@ =~= nm_transfer_encoding());
    }
    r
}

/// The byte string `"upgrade"`.
pub open spec fn nm_upgrade() -> Seq<u8> {
    seq!['u' as u8, 'p' as u8, 'g' as u8, 'r' as u8, 'a' as u8, 'd' as u8, 'e' as u8]
}

/// Allocates the byte string `"upgrade"`.
pub fn upgrade_bytes() -> (r: Vec<u8>)
    ensures
        r@ == nm_upgrade(),
{
    let r: Vec<u8> = vec!['u' as u8, 'p' as u8, 'g' as u8, 'r' as u8, 'a' as u8, 'd' as u8, 'e' as u8];
    proof {
        assert(r@ =~= nm_upgrade());
    }
    r
}

/// The byte string `"content-length"`.
pub open spec fn nm_content_length() -> Seq<u8> {
    seq!['c' as u8, 'o' as u8, 'n' as u8, 't' as u8, 'e' as u8, 'n' as u8, 't' as u8, '-' as u8, 'l' as u8, 'e' as u8, 'n' as u8, 'g' as u8, 't' as u8, 'h' as u8]
}

/// Allocates the byte string `"content-length"`.
pub fn content_length_bytes() -> (r: Vec<u8>)
    ensures
        r@ == nm_content_length(),
{
    let r: Vec<u8> = vec!['c' as u8, 'o' as u8, 'n' as u8, 't' as u8, 'e' as u8, 'n' as u8, 't' as u8, '-' as u8, 'l' as u8, 'e' as u8, 'n' as u8, 'g' as u8, 't' as u8, 'h' as u8];
    proof {
        assert(r@ =~= nm_content_length());
    }
    r
}

/// The byte string `"content-encoding"`.
pub open spec fn nm_content_encoding() -> Seq<u8> {
    seq!['c' as u8, 'o' as u8, 'n' as u8, 't' as u8, 'e' as u8, 'n' as u8, 't' as u8, '-' as u8, 'e' as u8, 'n' as u8, 'c' as u8, 'o' as u8, 'd' as u8, 'i' as u8, 'n' as u8, 'g' as u8]
}

/// Allocates the byte string `"content-encoding"`.
pub fn content_encoding_bytes() -> (r: Vec<u8>)
    ensures
        r@ == nm_content_encoding(),
{
    let r: Vec<u8> = vec!['c' as u8, 'o' as u8, 'n' as u8, 't' as u8, 'e' as u8, 'n' as u8, 't' as u8, '-' as u8, 'e' as u8, 'n' as u8, 'c' as u8, 'o' as u8, 'd' as u8, 'i' as u8, 'n' as u8, 'g' as u8];
    proof {
        assert(r@ =~= nm_content_encoding());
    }
    r
}

/// The byte string `"content-range"`.
pub open spec fn nm_content_range() -> Seq<u8> {
    seq!['c' as u8, 'o' as u8, 'n' as u8, 't' as u8, 'e' as u8, 'n' as u8, 't' as u8, '-' as u8, 'r' as u8, 'a' as u8, 'n' as u8, 'g' as u8, 'e' as u8]
}

/// Allocates the byte string `"content-range"`.
pub fn content_range_bytes() -> (r: Vec<u8>)
    ensures
        r@ == nm_content_range(),
{
    let r: Vec<u8> = vec!['c' as u8, 'o' as u8, 'n' as u8, 't' as u8, 'e' as u8, 'n' as u8, 't' as u8, '-' as u8, 'r' as u8, 'a' as u8, 'n' as u8, 'g' as u8, 'e' as u8];
    proof {
        assert(r@ =~= nm_content_range());
    }
    r
}

/// The byte string `"no-store"`.
pub open spec fn nm_no_store() -> Seq<u8> {
    seq!['n' as u8, 'o' as u8, '-' as u8, 's' as u8, 't' as u8, 'o' as u8, 'r' as u8, 'e' as u8]
}

/// Allocates the byte string `"no-store"`.
pub fn no_store_bytes() -> (r: Vec<u8>)
    ensures
        r@ == nm_no_store(),
{
    let r: Vec<u8> = vec!['n' as u8, 'o' as u8, '-' as u8, 's' as u8, 't' as u8, 'o' as u8, 'r' as u8, 'e' as u8];
    proof {
        assert(r@ =~= nm_no_store());
    }
    r
}

/// The byte string `"no-cache"`.
pub open spec fn nm_no_cache() -> Seq<u8> {
    seq!['n' as u8, 'o' as u8, '-' as u8, 'c' as u8, 'a' as u8, 'c' as u8, 'h' as u8, 'e' as u8]
}

/// Allocates the byte string `"no-cache"`.
pub fn no_cache_bytes() -> (r: Vec<u8>)
    ensures
        r@ == nm_no_cache(),
{
    let r: Vec<u8> = vec!['n' as u8, 'o' as u8, '-' as u8, 'c' as u8, 'a' as u8, 'c' as u8, 'h' as u8, 'e' as u8];
    proof {
        assert(r@ =~= nm_no_cache());
    }
    r
}

/// The byte string `"private"`.
pub open spec fn nm_private() -> Seq<u8> {
    seq!['p' as u8, 'r' as u8, 'i' as u8, 'v' as u8, 'a' as u8, 't' as u8, 'e' as u8]
}

/// Allocates the byte string `"private"`.
pub fn private_bytes() -> (r: Vec<u8>)
    ensures
        r@ == nm_private(),
{
    let r: Vec<u8> = vec!['p' as u8, 'r' as u8, 'i' as u8, 'v' as u8, 'a' as u8, 't' as u8, 'e' as u8];
    proof {
        assert(r@ =~= nm_private());
    }
    r
}

/// The byte string `"public"`.
pub open spec fn nm_public() -> Seq<u8> {
    seq!['p' as u8, 'u' as u8, 'b' as u8, 'l' as u8, 'i' as u8, 'c' as u8]
}

/// Allocates the byte string `"public"`.
pub fn public_bytes() -> (r: Vec<u8>)
    ensures
        r@ == nm_public(),
{
    let r: Vec<u8> = vec!['p' as u8, 'u' as u8, 'b' as u8, 'l' as u8, 'i' as u8, 'c' as u8];
    proof {
        assert(r@ =~= nm_public());
    }
    r
}

/// The byte string `"must-revalidate"`.
pub open spec fn nm_must_revalidate() -> Seq<u8> {
    seq!['m' as u8, 'u' as u8, 's' as u8, 't' as u8, '-' as u8, 'r' as u8, 'e' as u8, 'v' as u8, 'a' as u8, 'l' as u8, 'i' as u8, 'd' as u8, 'a' as u8, 't' as u8, 'e' as u8]
}

/// Allocates the byte string `"must-revalidate"`.
pub fn must_revalidate_bytes() -> (r: Vec<u8>)
    ensures
        r@ == nm_must_revalidate(),
{
    let r: Vec<u8> = vec!['m' as u8, 'u' as u8, 's' as u8, 't' as u8, '-' as u8, 'r' as u8, 'e' as u8, 'v' as u8, 'a' as u8, 'l' as u8, 'i' as u8, 'd' as u8, 'a' as u8, 't' as u8, 'e' as u8];
    proof {
        assert(r@ =~= nm_must_revalidate());
    }
    r
}

/// The byte string `"proxy-revalidate"`.
pub open spec fn nm_proxy_revalidate() -> Seq<u8> {
    seq!['p' as u8, 'r' as u8, 'o' as u8, 'x' as u8, 'y' as u8, '-' as u8, 'r' as u8, 'e' as u8, 'v' as u8, 'a' as u8, 'l' as u8, 'i' as u8, 'd' as u8, 'a' as u8, 't' as u8, 'e' as u8]
}

/// Allocates the byte string `"proxy-revalidate"`.
pub fn proxy_revalidate_bytes() -> (r: Vec<u8>)
    ensures
        r@ == nm_proxy_revalidate(),
{
    let r: Vec<u8> = vec!['p' as u8, 'r' as u8, 'o' as u8, 'x' as u8, 'y' as u8, '-' as u8, 'r' as u8, 'e' as u8, 'v' as u8, 'a' as u8, 'l' as u8, 'i' as u8, 'd' as u8, 'a' as u8, 't' as u8, 'e' as u8];
    proof {
        assert(r@ =~= nm_proxy_revalidate());
    }
    r
}

/// The byte string `"max-age"`.
pub open spec fn nm_max_age() -> Seq<u8> {
    seq!['m' as u8, 'a' as u8, 'x' as u8, '-' as u8, 'a' as u8, 'g' as u8, 'e' as u8]
}

/// Allocates the byte string `"max-age"`.
pub fn max_age_bytes() -> (r: Vec<u8>)
    ensures
        r@ == nm_max_age(),
{
    let r: Vec<u8> = vec!['m' as u8, 'a' as u8, 'x' as u8, '-' as u8, 'a' as u8, 'g' as u8, 'e' as u8];
    proof {
        assert(r@ =~= nm_max_age());
    }
    r
}

/// The byte string `"s-maxage"`.
pub open spec fn nm_s_maxage() -> Seq<u8> {
    seq!['s' as u8, '-' as u8, 'm' as u8, 'a' as u8, 'x' as u8, 'a' as u8, 'g' as u8, 'e' as u8]
}

/// Allocates the byte string `"s-maxage"`.
pub fn s_maxage_bytes() -> (r: Vec<u8>)
    ensures
        r@ == nm_s_maxage(),
{
    let r: Vec<u8> = vec!['s' as u8, '-' as u8, 'm' as u8, 'a' as u8, 'x' as u8, 'a' as u8, 'g' as u8, 'e' as u8];
    proof {
        assert(r@ =~= nm_s_maxage());
    }
    r
}

/// The byte string `"immutable"`.
pub open spec fn nm_immutable() -> Seq<u8> {
    seq!['i' as u8, 'm' as u8, 'm' as u8, 'u' as u8, 't' as u8, 'a' as u8, 'b' as u8, 'l' as u8, 'e' as u8]
}

/// Allocates the byte string `"immutable"`.
pub fn immutable_bytes() -> (r: Vec<u8>)
    ensures
        r@ == nm_immutable(),
{
    let r: Vec<u8> = vec!['i' as u8, 'm' as u8, 'm' as u8, 'u' as u8, 't' as u8, 'a' as u8, 'b' as u8, 'l' as u8, 'e' as u8];
    proof {
        assert(r@ =~= nm_immutable());
    }
    r
}

/// The byte string `"pre-check"`.
pub open spec fn nm_pre_check() -> Seq<u8> {
    seq!['p' as u8, 'r' as u8, 'e' as u8, '-' as u8, 'c' as u8, 'h' as u8, 'e' as u8, 'c' as u8, 'k' as u8]
}

/// Allocates the byte string `"pre-check"`.
pub fn pre_check_bytes() -> (r: Vec<u8>)
    ensures
        r@ == nm_pre_check(),
{
    let r: Vec<u8> = vec!['p' as u8, 'r' as u8, 'e' as u8, '-' as u8, 'c' as u8, 'h' as u8, 'e' as u8, 'c' as u8, 'k' as u8];
    proof {
        assert(r@ =~= nm_pre_check());
    }
    r
}

/// The byte string `"post-check"`.
pub open spec fn nm_post_check() -> Seq<u8> {
    seq!['p' as u8, 'o' as u8, 's' as u8, 't' as u8, '-' as u8, 'c' as u8, 'h' as u8, 'e' as u8, 'c' as u8, 'k' as u8]
}

/// Allocates the byte string `"post-check"`.
pub fn post_check_bytes() -> (r: Vec<u8>)
    ensures
        r@ == nm_post_check(),
{
    let r: Vec<u8> = vec!['p' as u8, 'o' as u8, 's' as u8, 't' as u8, '-' as u8, 'c' as u8, 'h' as u8, 'e' as u8, 'c' as u8, 'k' as u8];
    proof {
        assert(r@ =~= nm_post_check());
    }
    r
}

/// The byte string `"min-fresh"`.
pub open spec fn nm_min_fresh() -> Seq<u8> {
    seq!['m' as u8, 'i' as u8, 'n' as u8, '-' as u8, 'f' as u8, 'r' as u8, 'e' as u8, 's' as u8, 'h' as u8]
}

/// Allocates the byte string `"min-fresh"`.
pub fn min_fresh_bytes() -> (r: Vec<u8>)
    ensures
        r@ == nm_min_fresh(),
{
    let r: Vec<u8> = vec!['m' as u8, 'i' as u8, 'n' as u8, '-' as u8, 'f' as u8, 'r' as u8, 'e' as u8, 's' as u8, 'h' as u8];
    proof {
        assert(r@ =~= nm_min_fresh());
    }
    r
}

/// The byte string `"max-stale"`.
pub open spec fn nm_max_stale() -> Seq<u8> {
    seq!['m' as u8, 'a' as u8, 'x' as u8, '-' as u8, 's' as u8, 't' as u8, 'a' as u8, 'l' as u8, 'e' as u8]
}

/// Allocates the byte string `"max-stale"`.
pub fn max_stale_bytes() -> (r: Vec<u8>)
    ensures
        r@ == nm_max_stale(),
{
    let r: Vec<u8> = vec!['m' as u8, 'a' as u8, 'x' as u8, '-' as u8, 's' as u8, 't' as u8, 'a' as u8, 'l' as u8, 'e' as u8];
    proof {
        assert(r@ =~= nm_max_stale());
    }
    r
}

/// The byte string `"GET"`.
pub open spec fn nm_get() -> Seq<u8> {
    seq!['G' as u8, 'E' as u8, 'T' as u8]
}

/// Allocates the byte string `"GET"`.
pub fn get_bytes() -> (r: Vec<u8>)
    ensures
        r@ == nm_get(),
{
    let r: Vec<u8> = vec!['G' as u8, 'E' as u8, 'T' as u8];
    proof {
        assert(r@ =~= nm_get());
    }
    r
}

/// The byte string `"HEAD"`.
pub open spec fn nm_head() -> Seq<u8> {
    seq!['H' as u8, 'E' as u8, 'A' as u8, 'D' as u8]
}

/// Allocates the byte string `"HEAD"`.
pub fn head_bytes() -> (r: Vec<u8>)
    ensures
        r@ == nm_head(),
{
    let r: Vec<u8> = vec!['H' as u8, 'E' as u8, 'A' as u8, 'D' as u8];
    proof {
        assert(r@ =~= nm_head());
    }
    r
}

/// The byte string `"POST"`.
pub open spec fn nm_post() -> Seq<u8> {
    seq!['P' as u8, 'O' as u8, 'S' as u8, 'T' as u8]
}

/// Allocates the byte string `"POST"`.
pub fn post_bytes() -> (r: Vec<u8>)
    ensures
        r@ == nm_post(),
{
    let r: Vec<u8> = vec!['P' as u8, 'O' as u8, 'S' as u8, 'T' as u8];
    proof {
        assert(r@ =~= nm_post());
    }
    r
}

/// The byte string `"W/"`.
pub open spec fn nm_weak_prefix() -> Seq<u8> {
    seq!['W' as u8, '/' as u8]
}

/// Allocates the byte string `"W/"`.
pub fn weak_prefix_bytes() -> (r: Vec<u8>)
    ensures
        r@ == nm_weak_prefix(),
{
    let r: Vec<u8> = vec!['W' as u8, '/' as u8];
    proof {
        assert(r@ =~= nm_weak_prefix());
    }
    r
}

/// The byte string `"*"`.
pub open spec fn nm_star() -> Seq<u8> {
    seq!['*' as u8]
}

/// Allocates the byte string `"*"`.
pub fn star_bytes() -> (r: Vec<u8>)
    ensures
        r@ == nm_star(),
{
    let r: Vec<u8> = vec!['*' as u8];
    proof {
        assert(r@ =~= nm_star());
    }
    r
}

/// The byte string `"113 - \"rfc7234 5.5.4\""`.
pub open spec fn nm_warning_113() -> Seq<u8> {
    seq!['1' as u8, '1' as u8, '3' as u8, ' ' as u8, '-' as u8, ' ' as u8, '"' as u8, 'r' as u8, 'f' as u8, 'c' as u8, '7' as u8, '2' as u8, '3' as u8, '4' as u8, ' ' as u8, '5' as u8, '.' as u8, '5' as u8, '.' as u8, '4' as u8, '"' as u8]
}

/// Allocates the byte string `"113 - \"rfc7234 5.5.4\""`.
pub fn warning_113_bytes() -> (r: Vec<u8>)
    ensures
        r@ == nm_warning_113(),
{
    let r: Vec<u8> = vec!['1' as u8, '1' as u8, '3' as u8, ' ' as u8, '-' as u8, ' ' as u8, '"' as u8, 'r' as u8, 'f' as u8, 'c' as u8, '7' as u8, '2' as u8, '3' as u8, '4' as u8, ' ' as u8, '5' as u8, '.' as u8, '5' as u8, '.' as u8, '4' as u8, '"' as u8];
    proof {
        assert(r@ =~= nm_warning_113());
    }
    r
}


/// Each of these names is already lowercase, so folding it changes nothing.
pub proof fn lemma_names_lower()
    ensures
        spec_lower(nm_cache_control()) == nm_cache_control(),
        spec_lower(nm_pragma()) == nm_pragma(),
        spec_lower(nm_expires()) == nm_expires(),
        spec_lower(nm_age()) == nm_age(),
        spec_lower(nm_date()) == nm_date(),
        spec_lower(nm_vary()) == nm_vary(),
        spec_lower(nm_set_cookie()) == nm_set_cookie(),
        spec_lower(nm_authorization()) == nm_authorization(),
        spec_lower(nm_host()) == nm_host(),
        spec_lower(nm_etag()) == nm_etag(),
        spec_lower(nm_last_modified()) == nm_last_modified(),
        spec_lower(nm_if_none_match()) == nm_if_none_match(),
        spec_lower(nm_if_modified_since()) == nm_if_modified_since(),
        spec_lower(nm_if_range()) == nm_if_range(),
        spec_lower(nm_if_match()) == nm_if_match(),
        spec_lower(nm_if_unmodified_since()) == nm_if_unmodified_since(),
        spec_lower(nm_accept_ranges()) == nm_accept_ranges(),
        spec_lower(nm_connection()) == nm_connection(),
        spec_lower(nm_warning()) == nm_warning(),
        spec_lower(nm_keep_alive()) == nm_keep_alive(),
        spec_lower(nm_proxy_authenticate()) == nm_proxy_authenticate(),
        spec_lower(nm_proxy_authorization()) == nm_proxy_authorization(),
        spec_lower(nm_te()) == nm_te(),
        spec_lower(nm_trailer()) == nm_trailer(),
        spec_lower(nm_transfer_encoding()) == nm_transfer_encoding(),
        spec_lower(nm_upgrade()) == nm_upgrade(),
        spec_lower(nm_content_length()) == nm_content_length(),
        spec_lower(nm_content_encoding()) == nm_content_encoding(),
        spec_lower(nm_content_range()) == nm_content_range(),
        spec_lower(nm_no_store()) == nm_no_store(),
        spec_lower(nm_no_cache()) == nm_no_cache(),
        spec_lower(nm_private()) == nm_private(),
        spec_lower(nm_public()) == nm_public(),
        spec_lower(nm_must_revalidate()) == nm_must_revalidate(),
        spec_lower(nm_proxy_revalidate()) == nm_proxy_revalidate(),
        spec_lower(nm_max_age()) == nm_max_age(),
        spec_lower(nm_s_maxage()) == nm_s_maxage(),
        spec_lower(nm_immutable()) == nm_immutable(),
        spec_lower(nm_pre_check()) == nm_pre_check(),
        spec_lower(nm_post_check()) == nm_post_check(),
        spec_lower(nm_min_fresh()) == nm_min_fresh(),
        spec_lower(nm_max_stale()) == nm_max_stale(),
        spec_lower(nm_star()) == nm_star(),
{
    assert(spec_lower(nm_cache_control()) =~= nm_cache_control());
    assert(spec_lower(nm_pragma()) =~= nm_pragma());
    assert(spec_lower(nm_expires()) =~= nm_expires());
    assert(spec_lower(nm_age()) =~= nm_age());
    assert(spec_lower(nm_date()) =~= nm_date());
    assert(spec_lower(nm_vary()) =~= nm_vary());
    assert(spec_lower(nm_set_cookie()) =~= nm_set_cookie());
    assert(spec_lower(nm_authorization()) =~= nm_authorization());
    assert(spec_lower(nm_host()) =~= nm_host());
    assert(spec_lower(nm_etag()) =~= nm_etag());
    assert(spec_lower(nm_last_modified()) =~= nm_last_modified());
    assert(spec_lower(nm_if_none_match()) =~= nm_if_none_match());
    assert(spec_lower(nm_if_modified_since()) =~= nm_if_modified_since());
    assert(spec_lower(nm_if_range()) =~= nm_if_range());
    assert(spec_lower(nm_if_match()) =~= nm_if_match());
    assert(spec_lower(nm_if_unmodified_since()) =~= nm_if_unmodified_since());
    assert(spec_lower(nm_accept_ranges()) =~= nm_accept_ranges());
    assert(spec_lower(nm_connection()) =~= nm_connection());
    assert(spec_lower(nm_warning()) =~= nm_warning());
    assert(spec_lower(nm_keep_alive()) =~= nm_keep_alive());
    assert(spec_lower(nm_proxy_authenticate()) =~= nm_proxy_authenticate());
    assert(spec_lower(nm_proxy_authorization()) =~= nm_proxy_authorization());
    assert(spec_lower(nm_te()) =~= nm_te());
    assert(spec_lower(nm_trailer()) =~= nm_trailer());
    assert(spec_lower(nm_transfer_encoding()) =~= nm_transfer_encoding());
    assert(spec_lower(nm_upgrade()) =~= nm_upgrade());
    assert(spec_lower(nm_content_length()) =~= nm_content_length());
    assert(spec_lower(nm_content_encoding()) =~= nm_content_encoding());
    assert(spec_lower(nm_content_range()) =~= nm_content_range());
    assert(spec_lower(nm_no_store()) =~= nm_no_store());
    assert(spec_lower(nm_no_cache()) =~= nm_no_cache());
    assert(spec_lower(nm_private()) =~= nm_private());
    assert(spec_lower(nm_public()) =~= nm_public());
    assert(spec_lower(nm_must_revalidate()) =~= nm_must_revalidate());
    assert(spec_lower(nm_proxy_revalidate()) =~= nm_proxy_revalidate());
    assert(spec_lower(nm_max_age()) =~= nm_max_age());
    assert(spec_lower(nm_s_maxage()) =~= nm_s_maxage());
    assert(spec_lower(nm_immutable()) =~= nm_immutable());
    assert(spec_lower(nm_pre_check()) =~= nm_pre_check());
    assert(spec_lower(nm_post_check()) =~= nm_post_check());
    assert(spec_lower(nm_min_fresh()) =~= nm_min_fresh());
    assert(spec_lower(nm_max_stale()) =~= nm_max_stale());
    assert(spec_lower(nm_star()) =~= nm_star());
}

} // verus!
