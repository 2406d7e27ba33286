//! The boundary to the `httpdate` crate, which parses and formats the
//! RFC 7231 HTTP-date formats (IMF-fixdate, RFC 850, asctime). Times are
//! carried as whole seconds since the Unix epoch; `httpdate` itself neither
//! represents instants before the epoch nor formats the year 10000 and later.

use vstd::prelude::*;

verus! {

/// One past the largest second since the epoch that an HTTP-date can carry:
/// the first instant of the year 10000. `httpdate` panics when asked to
/// format anything at or past it, and never parses to it.
pub const HTTP_DATE_LIMIT: u64 = 253402300800;

/// The instant, in seconds since the epoch, that `httpdate` parses the byte
/// string to, or `None` where it rejects the string. A function of the bytes
/// alone.
pub uninterp spec fn http_date_value(s: Seq<u8>) -> Option<u64>;

/// The IMF-fixdate byte string that `httpdate` formats the instant to.
/// A function of the instant alone.
pub uninterp spec fn http_date_string(t: u64) -> Seq<u8>;

/// Relies on `httpdate::parse_http_date`: it accepts the three HTTP-date
/// formats, validates the fields, and only returns instants from 1970 up to
/// the end of the year 9999.
#[verifier::external_body]
pub fn parse_http_date_bytes(s: &[u8]) -> (r: Option<u64>)
    ensures
        r == http_date_value(s@),
        r is Some ==> r.unwrap() < HTTP_DATE_LIMIT,
{
    match std::str::from_utf8(s) {
        Ok(text) => match httpdate::parse_http_date(text) {
            Ok(t) => match t.duration_since(std::time::UNIX_EPOCH) {
                Ok(d) => Some(d.as_secs()),
                Err(_) => None,
            },
            Err(_) => None,
        },
        Err(_) => None,
    }
}

/// Relies on `httpdate::fmt_http_date`: the 29-byte IMF-fixdate for the
/// instant, defined for every instant before the year 10000.
#[verifier::external_body]
pub fn fmt_http_date_bytes(t: u64) -> (r: Vec<u8>)
    requires
        t < HTTP_DATE_LIMIT,
    ensures
        r@ == http_date_string(t),
        r@.len() == 29,
{
    let instant = std::time::UNIX_EPOCH + std::time::Duration::from_secs(t);
    httpdate::fmt_http_date(instant).into_bytes()
}

} // verus!
