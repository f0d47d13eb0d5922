//! The credentials of a wireless network and what a device reports of its network, as sent
//! over USB and stored by the device.

use vstd::prelude::*;
use crate::codec::{at, encode_str, lemma_at_first, lemma_at_one, lemma_at_split, lemma_varint_prefix_free, read_varint, varint, write_str, write_varint};
use crate::discovery::{SsidSpec, WiFiDetails};
use crate::handshake::{lemma_str_prefix_free, read_str};

verus! {

/// The bytes of network credentials: name, password and security, each as a string.
pub open spec fn ssid_bytes(name: Seq<char>, pass: Seq<char>, security: Seq<char>) -> Seq<u8> {
    encode_str(name) + encode_str(pass) + encode_str(security)
}

pub open spec fn ssid_spec_bytes(spec: SsidSpec) -> Seq<u8> {
    ssid_bytes(spec.ssid_name@, spec.ssid_pass@, spec.ssid_security@)
}

/// No credentials, or a flag then the credentials.
pub open spec fn encode_option_ssid(s: Option<SsidSpec>) -> Seq<u8> {
    match s {
        None => seq![0u8],
        Some(x) => seq![1u8] + ssid_spec_bytes(x),
    }
}

/// No listener, or a flag, the four octets of the address, then the port as a varint.
pub open spec fn encode_option_tcp(t: Option<([u8; 4], u16)>) -> Seq<u8> {
    match t {
        None => seq![0u8],
        Some((ip, port)) => seq![1u8] + ip@ + varint(port as nat),
    }
}

/// The answer to a get-wifi-details request: the credentials the device joins with, then
/// the TCP listener it has, if any.
pub open spec fn encode_wifi(w: WiFiDetails) -> Seq<u8> {
    encode_option_ssid(w.ssid_spec) + encode_option_tcp(w.tcp)
}

fn write_ssid(out: &mut Vec<u8>, spec: &SsidSpec)
    ensures
        final(out)@ == old(out)@ + ssid_spec_bytes(*spec),
{
    let ghost before = out@;
    write_str(out, &spec.ssid_name);
    write_str(out, &spec.ssid_pass);
    write_str(out, &spec.ssid_security);
    assert(out@ =~= before + ssid_spec_bytes(*spec));
}

/// The bytes of `spec`.
pub fn encode_ssid_spec(spec: &SsidSpec) -> (r: Vec<u8>)
    ensures
        r@ == ssid_bytes(spec.ssid_name@, spec.ssid_pass@, spec.ssid_security@),
{
    let mut out: Vec<u8> = Vec::new();
    write_ssid(&mut out, spec);
    assert(out@ =~= ssid_spec_bytes(*spec));
    out
}

/// The bytes of what a device reports of its network.
pub fn encode_wifi_details(w: &WiFiDetails) -> (r: Vec<u8>)
    ensures
        r@ == encode_wifi(*w),
{
    let mut out: Vec<u8> = Vec::new();
    match &w.ssid_spec {
        None => out.push(0),
        Some(spec) => {
            out.push(1);
            write_ssid(&mut out, spec);
        },
    }
    let ghost mid = out@;
    match w.tcp {
        None => out.push(0),
        Some((ip, port)) => {
            out.push(1);
            out.push(ip[0]);
            out.push(ip[1]);
            out.push(ip[2]);
            out.push(ip[3]);
            assert(out@ =~= mid + seq![1u8] + ip@);
            write_varint(&mut out, port as u64);
        },
    }
    assert(out@ =~= encode_wifi(*w));
    out
}

proof fn lemma_ssid_parts(b: Seq<u8>, pos: int, x: Seq<char>, y: Seq<char>, z: Seq<char>)
    ensures
        at(b, pos, ssid_bytes(x, y, z)) <==> at(b, pos, encode_str(x)) && at(
            b,
            pos + encode_str(x).len(),
            encode_str(y),
        ) && at(b, pos + encode_str(x).len() + encode_str(y).len(), encode_str(z)),
{
    lemma_at_split(b, pos, encode_str(x) + encode_str(y), encode_str(z));
    lemma_at_split(b, pos, encode_str(x), encode_str(y));
}

proof fn lemma_ssid_prefix_free(b: Seq<u8>, pos: int, x: Seq<char>, y: Seq<char>, z: Seq<char>, u: Seq<char>, v: Seq<char>, w: Seq<char>)
    requires
        at(b, pos, ssid_bytes(x, y, z)),
        at(b, pos, ssid_bytes(u, v, w)),
    ensures
        ssid_bytes(x, y, z) == ssid_bytes(u, v, w),
{
    lemma_ssid_parts(b, pos, x, y, z);
    lemma_ssid_parts(b, pos, u, v, w);
    lemma_str_prefix_free(b, pos, x, u);
    lemma_str_prefix_free(b, pos + encode_str(x).len(), y, v);
    lemma_str_prefix_free(b, pos + encode_str(x).len() + encode_str(y).len(), z, w);
}

fn read_ssid(b: &[u8], pos: usize) -> (r: Option<(SsidSpec, usize)>)
    requires
        pos <= b@.len(),
    ensures
        match r {
            Some((spec, p)) => p == pos + ssid_spec_bytes(spec).len() && at(b@, pos as int, ssid_spec_bytes(spec)),
            None => forall|x: Seq<char>, y: Seq<char>, z: Seq<char>| !#[trigger] at(b@, pos as int, ssid_bytes(x, y, z)),
        },
{
    let (ssid_name, p1) = match read_str(b, pos) {
        Some(v) => v,
        None => {
            proof {
                assert forall|x: Seq<char>, y: Seq<char>, z: Seq<char>| !#[trigger] at(b@, pos as int, ssid_bytes(x, y, z)) by {
                    lemma_ssid_parts(b@, pos as int, x, y, z);
                }
            }
            return None;
        },
    };
    let (ssid_pass, p2) = match read_str(b, p1) {
        Some(v) => v,
        None => {
            proof {
                assert forall|x: Seq<char>, y: Seq<char>, z: Seq<char>| !#[trigger] at(b@, pos as int, ssid_bytes(x, y, z)) by {
                    lemma_ssid_parts(b@, pos as int, x, y, z);
                    if at(b@, pos as int, ssid_bytes(x, y, z)) {
                        lemma_str_prefix_free(b@, pos as int, ssid_name@, x);
                    }
                }
            }
            return None;
        },
    };
    let (ssid_security, p3) = match read_str(b, p2) {
        Some(v) => v,
        None => {
            proof {
                assert forall|x: Seq<char>, y: Seq<char>, z: Seq<char>| !#[trigger] at(b@, pos as int, ssid_bytes(x, y, z)) by {
                    lemma_ssid_parts(b@, pos as int, x, y, z);
                    if at(b@, pos as int, ssid_bytes(x, y, z)) {
                        lemma_str_prefix_free(b@, pos as int, ssid_name@, x);
                        lemma_str_prefix_free(b@, p1 as int, ssid_pass@, y);
                    }
                }
            }
            return None;
        },
    };
    let spec = SsidSpec { ssid_name, ssid_pass, ssid_security };
    proof {
        lemma_ssid_parts(b@, pos as int, spec.ssid_name@, spec.ssid_pass@, spec.ssid_security@);
    }
    Some((spec, p3))
}

/// Read network credentials that fill `b` exactly; `None` when `b` is not such credentials.
pub fn decode_ssid_spec(b: &[u8]) -> (r: Option<SsidSpec>)
    ensures
        match r {
            Some(spec) => ssid_bytes(spec.ssid_name@, spec.ssid_pass@, spec.ssid_security@) == b@,
            None => forall|x: Seq<char>, y: Seq<char>, z: Seq<char>| #[trigger] ssid_bytes(x, y, z) != b@,
        },
{
    proof {
        assert(b@.subrange(0, b@.len() as int) =~= b@);
    }
    match read_ssid(b, 0) {
        Some((spec, p)) => {
            if p == b.len() {
                return Some(spec);
            }
            proof {
                assert forall|x: Seq<char>, y: Seq<char>, z: Seq<char>| #[trigger] ssid_bytes(x, y, z) != b@ by {
                    if ssid_bytes(x, y, z) == b@ {
                        assert(at(b@, 0, ssid_bytes(x, y, z)));
                        lemma_ssid_prefix_free(b@, 0, spec.ssid_name@, spec.ssid_pass@, spec.ssid_security@, x, y, z);
                    }
                }
            }
            None
        },
        None => {
            proof {
                assert forall|x: Seq<char>, y: Seq<char>, z: Seq<char>| #[trigger] ssid_bytes(x, y, z) != b@ by {
                    if ssid_bytes(x, y, z) == b@ {
                        assert(at(b@, 0, ssid_bytes(x, y, z)));
                    }
                }
            }
            None
        },
    }
}

fn read_option_ssid(b: &[u8], pos: usize) -> (r: Option<(Option<SsidSpec>, usize)>)
    requires
        pos <= b@.len(),
    ensures
        match r {
            Some((s, p)) => p == pos + encode_option_ssid(s).len() && at(b@, pos as int, encode_option_ssid(s)),
            None => forall|s: Option<SsidSpec>| !#[trigger] at(b@, pos as int, encode_option_ssid(s)),
        },
{
    if pos < b.len() {
        proof {
            lemma_at_one(b@, pos as int);
        }
        if b[pos] == 0 {
            return Some((None, pos + 1));
        }
        if b[pos] == 1 {
            match read_ssid(b, pos + 1) {
                Some((spec, p)) => {
                    proof {
                        lemma_at_split(b@, pos as int, seq![1u8], ssid_spec_bytes(spec));
                    }
                    return Some((Some(spec), p));
                },
                None => {},
            }
        }
    }
    proof {
        assert forall|s: Option<SsidSpec>| !#[trigger] at(b@, pos as int, encode_option_ssid(s)) by {
            if at(b@, pos as int, encode_option_ssid(s)) {
                lemma_at_first(b@, pos as int, encode_option_ssid(s));
                if let Some(x) = s {
                    lemma_at_split(b@, pos as int, seq![1u8], ssid_spec_bytes(x));
                }
            }
        }
    }
    None
}

proof fn lemma_option_ssid_prefix_free(b: Seq<u8>, pos: int, s: Option<SsidSpec>, t: Option<SsidSpec>)
    requires
        at(b, pos, encode_option_ssid(s)),
        at(b, pos, encode_option_ssid(t)),
    ensures
        encode_option_ssid(s) == encode_option_ssid(t),
{
    lemma_at_first(b, pos, encode_option_ssid(s));
    lemma_at_first(b, pos, encode_option_ssid(t));
    if let (Some(x), Some(y)) = (s, t) {
        lemma_at_split(b, pos, seq![1u8], ssid_spec_bytes(x));
        lemma_at_split(b, pos, seq![1u8], ssid_spec_bytes(y));
        lemma_ssid_prefix_free(b, pos + 1, x.ssid_name@, x.ssid_pass@, x.ssid_security@, y.ssid_name@, y.ssid_pass@, y.ssid_security@);
    }
}

fn read_option_tcp(b: &[u8], pos: usize) -> (r: Option<(Option<([u8; 4], u16)>, usize)>)
    requires
        pos <= b@.len(),
    ensures
        match r {
            Some((t, p)) => p == pos + encode_option_tcp(t).len() && at(b@, pos as int, encode_option_tcp(t)),
            None => forall|t: Option<([u8; 4], u16)>| !#[trigger] at(b@, pos as int, encode_option_tcp(t)),
        },
{
    proof {
        assert forall|t: Option<([u8; 4], u16)>| #[trigger] at(b@, pos as int, encode_option_tcp(t)) && t is Some implies
            at(b@, pos as int, seq![1u8] + t->Some_0.0@) && at(b@, pos + 5, varint(t->Some_0.1 as nat)) by {
            lemma_at_split(b@, pos as int, seq![1u8] + t->Some_0.0@, varint(t->Some_0.1 as nat));
        }
    }
    if pos < b.len() {
        proof {
            lemma_at_one(b@, pos as int);
        }
        if b[pos] == 0 {
            return Some((None, pos + 1));
        }
        if b[pos] == 1 && b.len() >= 5 && pos < b.len() - 4 {
            let ip: [u8; 4] = [b[pos + 1], b[pos + 2], b[pos + 3], b[pos + 4]];
            proof {
                assert(ip@ =~= seq![b@[pos + 1], b@[pos + 2], b@[pos + 3], b@[pos + 4]]);
                assert(b@.subrange(pos as int, pos + 5) =~= seq![1u8] + ip@);
            }
            match read_varint(b, pos + 5, u16::MAX as u64) {
                Some((port, p)) => {
                    proof {
                        lemma_at_split(b@, pos as int, seq![1u8] + ip@, varint(port as nat));
                    }
                    return Some((Some((ip, port as u16)), p));
                },
                None => {
                    proof {
                        assert forall|t: Option<([u8; 4], u16)>| !#[trigger] at(b@, pos as int, encode_option_tcp(t)) by {
                            if at(b@, pos as int, encode_option_tcp(t)) {
                                lemma_at_first(b@, pos as int, encode_option_tcp(t));
                            }
                        }
                    }
                    return None;
                },
            }
        }
    }
    proof {
        assert forall|t: Option<([u8; 4], u16)>| !#[trigger] at(b@, pos as int, encode_option_tcp(t)) by {
            if at(b@, pos as int, encode_option_tcp(t)) {
                lemma_at_first(b@, pos as int, encode_option_tcp(t));
            }
        }
    }
    None
}

/// Read what a device reports of its network, filling `b` exactly; `None` when `b` is not
/// such a report.
pub fn decode_wifi_details(b: &[u8]) -> (r: Option<WiFiDetails>)
    ensures
        match r {
            Some(w) => encode_wifi(w) == b@,
            None => forall|w: WiFiDetails| #[trigger] encode_wifi(w) != b@,
        },
{
    proof {
        assert(b@.subrange(0, b@.len() as int) =~= b@);
        assert forall|w: WiFiDetails| #[trigger] encode_wifi(w) == b@ implies at(b@, 0, encode_option_ssid(w.ssid_spec))
            && at(b@, encode_option_ssid(w.ssid_spec).len() as int, encode_option_tcp(w.tcp)) by {
            lemma_at_split(b@, 0, encode_option_ssid(w.ssid_spec), encode_option_tcp(w.tcp));
        }
    }
    let (ssid_spec, p1) = match read_option_ssid(b, 0) {
        Some(x) => x,
        None => return None,
    };
    let (tcp, p2) = match read_option_tcp(b, p1) {
        Some(x) => x,
        None => {
            proof {
                assert forall|w: WiFiDetails| #[trigger] encode_wifi(w) != b@ by {
                    if encode_wifi(w) == b@ {
                        lemma_option_ssid_prefix_free(b@, 0, ssid_spec, w.ssid_spec);
                    }
                }
            }
            return None;
        },
    };
    if p2 != b.len() {
        proof {
            assert forall|w: WiFiDetails| #[trigger] encode_wifi(w) != b@ by {
                if encode_wifi(w) == b@ {
                    lemma_option_ssid_prefix_free(b@, 0, ssid_spec, w.ssid_spec);
                    lemma_option_tcp_prefix_free(b@, p1 as int, tcp, w.tcp);
                }
            }
        }
        return None;
    }
    let w = WiFiDetails { ssid_spec, tcp };
    proof {
        lemma_at_split(b@, 0, encode_option_ssid(w.ssid_spec), encode_option_tcp(w.tcp));
    }
    Some(w)
}

proof fn lemma_option_tcp_prefix_free(b: Seq<u8>, pos: int, s: Option<([u8; 4], u16)>, t: Option<([u8; 4], u16)>)
    requires
        at(b, pos, encode_option_tcp(s)),
        at(b, pos, encode_option_tcp(t)),
    ensures
        encode_option_tcp(s) == encode_option_tcp(t),
{
    lemma_at_first(b, pos, encode_option_tcp(s));
    lemma_at_first(b, pos, encode_option_tcp(t));
    if let (Some((ip, port)), Some((jp, qort))) = (s, t) {
        lemma_at_split(b, pos, seq![1u8] + ip@, varint(port as nat));
        lemma_at_split(b, pos, seq![1u8] + jp@, varint(qort as nat));
        assert(b.subrange(pos, pos + 5) == seq![1u8] + ip@);
        assert(b.subrange(pos, pos + 5) == seq![1u8] + jp@);
        lemma_varint_prefix_free(b, pos + 5, port as nat, qort as nat);
    }
}

} // verus!
