//! The name that a client authenticates a mail server by in the TLS handshake.

use vstd::prelude::*;
use crate::error::Error;
use crate::text::owned;

verus! {

/// `rustls::ServerName`, carried unopened to the handshake.
#[verifier::external_type_specification]
#[verifier::external_body]
pub struct ExServerName(rustls::ServerName);

/// `rustls::client::InvalidDnsNameError`, the refusal of a name.
#[verifier::external_type_specification]
#[verifier::external_body]
pub struct ExInvalidDnsNameError(rustls::client::InvalidDnsNameError);

/// Whether rustls takes `s` as the name of a server: a DNS name, or else an
/// IP address.
pub uninterp spec fn server_name_ok(s: Seq<char>) -> bool;

/// Relies on `rustls::ServerName::try_from(&str)`: a name when `s` is a DNS
/// name or an IP address, an `InvalidDnsNameError` otherwise.
#[verifier::external_body]
fn parse_server_name(s: &str) -> (r: Result<rustls::ServerName, rustls::client::InvalidDnsNameError>)
    ensures
        r is Ok <==> server_name_ok(s@),
{
    rustls::ServerName::try_from(s)
}

/// The name to authenticate the mail server `mail_server` by, or the error
/// that ends the attempt when rustls refuses it.
pub fn tls_server_name(mail_server: &str) -> (r: Result<rustls::ServerName, Error>)
    ensures
        r is Ok <==> server_name_ok(mail_server@),
        r matches Err(e) ==> e is String,
{
    match parse_server_name(mail_server) {
        Ok(name) => Ok(name),
        Err(_) => Err(Error::String(owned("Error tls"))),
    }
}

} // verus!
