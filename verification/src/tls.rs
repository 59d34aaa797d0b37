//! The settings of a TLS connection.
use vstd::prelude::*;

verus! {

/// The settings of the TLS connections of a protocol.
#[derive(Clone, Debug)]
pub struct TlsSettings {
    /// The names of the protocols that are offered, in the order of preference.
    pub protocols: Vec<Vec<u8>>,
    /// The certificate of the server is verified.
    pub verifies: bool,
}

/// The name under which a version of HTTP is offered.
pub open spec fn protocol_name(http2: bool) -> Seq<u8> {
    vstd::utf8::encode_utf8(
        if http2 {
            "h2"@
        } else {
            "http/1.1"@
        },
    )
}

/// Whether settings are those of a version of HTTP: it alone is offered, and the
/// certificate of the server is verified unless the user does not want it.
pub open spec fn settings_for(s: TlsSettings, http2: bool, insecure: bool) -> bool {
    &&& s.protocols@.len() == 1
    &&& s.protocols@[0]@ == protocol_name(http2)
    &&& s.verifies == !insecure
}

/// The settings for a version of HTTP.
pub fn settings(http2: bool, insecure: bool) -> (s: TlsSettings)
    ensures
        settings_for(s, http2, insecure),
{
    let name = if http2 {
        "h2"
    } else {
        "http/1.1"
    };
    let mut protocols: Vec<Vec<u8>> = Vec::new();
    protocols.push(vstd::slice::slice_to_vec(name.as_bytes()));
    TlsSettings { protocols, verifies: !insecure }
}

/// The settings for HTTP/1.1 and for HTTP/2.
pub fn init(insecure: bool) -> (r: (TlsSettings, TlsSettings))
    ensures
        settings_for(r.0, false, insecure),
        settings_for(r.1, true, insecure),
{
    (settings(false, insecure), settings(true, insecure))
}

/// A connection offers one protocol, under its registered name, and verifies the server
/// unless that is not wanted.
pub proof fn law_one_protocol_is_offered(s: TlsSettings, http2: bool, insecure: bool)
    requires
        settings_for(s, http2, insecure),
    ensures
        s.protocols@.len() == 1,
        http2 ==> s.protocols@[0]@ == seq![104u8, 50],
        !http2 ==> s.protocols@[0]@ == seq![104u8, 116, 116, 112, 47, 49, 46, 49],
        s.verifies <==> !insecure,
{
    reveal_strlit("h2");
    reveal_strlit("http/1.1");
    vstd::utf8::is_ascii_chars_encode_utf8("h2"@);
    vstd::utf8::is_ascii_chars_encode_utf8("http/1.1"@);
    assert(vstd::utf8::encode_utf8("h2"@) == seq![104u8, 50]);
    assert(vstd::utf8::encode_utf8("http/1.1"@) == seq![104u8, 116, 116, 112, 47, 49, 46, 49]);
}

} // verus!
