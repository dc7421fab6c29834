//! Pairing a new device: the QR payload, the short authentication code, and the
//! certificate issued once both sides agree on the code.

use vstd::prelude::*;
use vstd::string::StringSliceAdditionalSpecFns;
use crate::bytes::push_all;
use crate::crypto::{sha256_spec, tagged, hash_tagged, ed25519_public_key, ed25519_public_from_seed};
use crate::encoding::{lemma_hex_lower_decodes, hex_encode, hex_lower, hex_decode, hex_decodable, hex_bytes, hex_decode_error, hex_error_display};
use crate::text::{lemma_split_no_sep, lemma_split_append, lemma_decimal_digits, lemma_parse_decimal, split_on, split_on_exec, chars_of, string_of, decimal_text, decimal, parse_u64, parse_u64_text};
use crate::identity::master::NexMasterIdentity;
use crate::identity::types::DeviceCertificate;
use crate::identity::authority::actor_id_spec;

verus! {

#[derive(Debug, Clone, PartialEq, Eq)]
pub struct PairingPayload {
    pub session_id: [u8; 16],
    pub ephemeral_pubkey: [u8; 32],
    pub nonce: [u8; 16],
    pub expires_at_epoch: u64,
    pub rendezvous: String,
}

/// The scheme and path every pairing URI starts with: `nex://pair/v1?`.
pub open spec fn pair_prefix() -> Seq<char> {
    seq!['n', 'e', 'x', ':', '/', '/', 'p', 'a', 'i', 'r', '/', 'v', '1', '?']
}

/// The URI a payload is shown as.
pub open spec fn pairing_uri(p: PairingPayload) -> Seq<char> {
    pair_prefix() + "sid="@ + hex_lower(p.session_id@) + "&pk="@ + hex_lower(p.ephemeral_pubkey@)
        + "&nonce="@ + hex_lower(p.nonce@) + "&exp="@ + decimal(p.expires_at_epoch as nat) + "&rdv="@ + p.rendezvous@
}

/// The fields read so far: session id, ephemeral key, nonce, expiry, rendezvous.
pub type QrFields = (Option<Seq<u8>>, Option<Seq<u8>>, Option<Seq<u8>>, Option<u64>, Option<Seq<char>>);

/// A hex value of `n` bytes, or why it is not: the decoder's message for text that
/// is not hex, else the length message.
pub open spec fn hex_field(val: Seq<char>, n: nat, len_msg: Seq<char>) -> Result<Seq<u8>, Option<Seq<char>>> {
    let b = vstd::utf8::encode_utf8(val);
    if !hex_decodable(b) {
        Err(Some(hex_error_display(hex_decode_error(b))))
    } else if hex_bytes(b).len() != n {
        Err(Some(len_msg))
    } else {
        Ok(hex_bytes(b))
    }
}

/// Reads one `key=value` parameter into the fields.
pub open spec fn qr_param(f: QrFields, piece: Seq<char>) -> Result<QrFields, Option<Seq<char>>> {
    let kv = split_on(piece, '=');
    let (sid, pk, nonce, exp, rdv) = f;
    if kv.len() < 2 {
        Err(Some("MalformedParam"@))
    } else {
        let (key, val) = (kv[0], kv[1]);
        if key == "sid"@ {
            match hex_field(val, 16, "InvalidSidLen"@) { Ok(b) => Ok((Some(b), pk, nonce, exp, rdv)), Err(e) => Err(e) }
        } else if key == "pk"@ {
            match hex_field(val, 32, "InvalidPkLen"@) { Ok(b) => Ok((sid, Some(b), nonce, exp, rdv)), Err(e) => Err(e) }
        } else if key == "nonce"@ {
            match hex_field(val, 16, "InvalidNonceLen"@) { Ok(b) => Ok((sid, pk, Some(b), exp, rdv)), Err(e) => Err(e) }
        } else if key == "exp"@ {
            match parse_u64(val) { Some(v) => Ok((sid, pk, nonce, Some(v), rdv)), None => Err(None) }
        } else if key == "rdv"@ {
            Ok((sid, pk, nonce, exp, Some(val)))
        } else {
            Ok(f)
        }
    }
}

/// Reads the parameters in order, stopping at the first bad one.
pub open spec fn qr_params(pieces: Seq<Seq<char>>) -> Result<QrFields, Option<Seq<char>>>
    decreases pieces.len(),
{
    if pieces.len() == 0 {
        Ok((None, None, None, None, None))
    } else {
        match qr_params(pieces.drop_last()) {
            Ok(f) => qr_param(f, pieces.last()),
            Err(e) => Err(e),
        }
    }
}

/// The first missing field's message, if any.
pub open spec fn qr_missing(f: QrFields) -> Option<Seq<char>> {
    if f.0 is None {
        Some("MissingSid"@)
    } else if f.1 is None {
        Some("MissingPk"@)
    } else if f.2 is None {
        Some("MissingNonce"@)
    } else if f.3 is None {
        Some("MissingExp"@)
    } else if f.4 is None {
        Some("MissingRdv"@)
    } else {
        None
    }
}

/// Whether `p` holds exactly the fields read.
pub open spec fn payload_of(p: PairingPayload, f: QrFields) -> bool {
    &&& f.0 == Some(p.session_id@)
    &&& f.1 == Some(p.ephemeral_pubkey@)
    &&& f.2 == Some(p.nonce@)
    &&& f.3 == Some(p.expires_at_epoch)
    &&& f.4 == Some(p.rendezvous@)
}

fn copy16(v: &[u8]) -> (r: [u8; 16])
    requires
        v@.len() == 16,
    ensures
        r@ == v@,
{
    let mut a = [0u8; 16];
    let mut i: usize = 0;
    while i < 16
        invariant
            i <= 16,
            v@.len() == 16,
            forall|j: int| 0 <= j < i ==> a@[j] == v@[j],
        decreases 16 - i,
    {
        a[i] = v[i];
        i = i + 1;
    }
    assert(a@ =~= v@);
    a
}

/// Reads a hex parameter of `n` bytes.
fn read_hex_field(val: &str, n: usize, len_msg: &str) -> (r: Result<Vec<u8>, String>)
    ensures
        match (r, hex_field(val@, n as nat, len_msg@)) {
            (Ok(b), Ok(sb)) => b@ == sb,
            (Err(e), Err(Some(m))) => e@ == m,
            (Err(_), Err(None)) => true,
            _ => false,
        },
{
    match hex_decode(val) {
        Ok(b) => {
            if b.len() != n {
                Err(len_msg.to_string())
            } else {
                Ok(b)
            }
        }
        Err(e) => Err(e.display_text()),
    }
}

impl PairingPayload {
    /// `nex://pair/v1?sid=..&pk=..&nonce=..&exp=..&rdv=..`, the byte fields in lowercase hex.
    pub fn encode_qr_uri(&self) -> (r: String)
        ensures
            r@ == pairing_uri(*self),
    {
        let mut s = "nex://pair/v1?sid=".to_string();
        proof {
            reveal_strlit("nex://pair/v1?sid=");
            reveal_strlit("sid=");
            assert("nex://pair/v1?sid="@ =~= pair_prefix() + "sid="@);
        }
        let h = hex_encode(self.session_id.as_slice());
        vstd::string::StringExecFns::append(&mut s, h.as_str());
        vstd::string::StringExecFns::append(&mut s, "&pk=");
        let h = hex_encode(self.ephemeral_pubkey.as_slice());
        vstd::string::StringExecFns::append(&mut s, h.as_str());
        vstd::string::StringExecFns::append(&mut s, "&nonce=");
        let h = hex_encode(self.nonce.as_slice());
        vstd::string::StringExecFns::append(&mut s, h.as_str());
        vstd::string::StringExecFns::append(&mut s, "&exp=");
        let d = decimal_text(self.expires_at_epoch);
        vstd::string::StringExecFns::append(&mut s, d.as_str());
        vstd::string::StringExecFns::append(&mut s, "&rdv=");
        vstd::string::StringExecFns::append(&mut s, self.rendezvous.as_str());
        s
    }

    /// Reads a pairing URI: the `nex://pair/v1?` prefix, then `&`-separated
    /// `key=value` parameters (a later one wins; unknown keys are ignored), all five
    /// of which must be present.
    pub fn decode_qr_uri(uri: &str) -> (r: Result<Self, String>)
        ensures
            ({
                let s = uri@;
                let prefixed = s.len() >= 14 && s.take(14) == pair_prefix();
                let scanned = qr_params(split_on(s.skip(14), '&'));
                &&& !prefixed ==> (r matches Err(e) && e@ == "InvalidUriScheme"@)
                &&& prefixed ==> match scanned {
                    Err(Some(m)) => (r matches Err(e) && e@ == m),
                    Err(None) => r is Err,
                    Ok(f) => match qr_missing(f) {
                        Some(m) => (r matches Err(e) && e@ == m),
                        None => (r matches Ok(p) && payload_of(p, f)),
                    },
                }
            }),
    {
        let v = chars_of(uri);
        let prefixed = v.len() >= 14 && v[0] == 'n' && v[1] == 'e' && v[2] == 'x' && v[3] == ':' && v[4] == '/'
            && v[5] == '/' && v[6] == 'p' && v[7] == 'a' && v[8] == 'i' && v[9] == 'r' && v[10] == '/'
            && v[11] == 'v' && v[12] == '1' && v[13] == '?';
        proof {
            if v@.len() >= 14 {
                if prefixed {
                    assert(v@.take(14) =~= pair_prefix());
                } else if v@.take(14) == pair_prefix() {
                    assert(v@.take(14)[0] == 'n');
                }
            }
        }
        if !prefixed {
            return Err("InvalidUriScheme".to_string());
        }
        let mut query: Vec<char> = Vec::new();
        let mut q: usize = 14;
        while q < v.len()
            invariant
                14 <= q <= v@.len(),
                query@ == v@.subrange(14, q as int),
            decreases v@.len() - q,
        {
            query.push(v[q]);
            q = q + 1;
            assert(query@ =~= v@.subrange(14, q as int));
        }
        assert(query@ =~= uri@.skip(14));
        let pieces = split_on_exec(&query, '&');
        let ghost pv = pieces@.map_values(|w: Vec<char>| w@);
        let mut sid: Option<[u8; 16]> = None;
        let mut pk: Option<[u8; 32]> = None;
        let mut nonce: Option<[u8; 16]> = None;
        let mut exp: Option<u64> = None;
        let mut rdv: Option<String> = None;
        let mut i: usize = 0;
        while i < pieces.len()
            invariant
                i <= pieces@.len(),
                pv == pieces@.map_values(|w: Vec<char>| w@),
                pv == split_on(uri@.skip(14), '&'),
                uri@.len() >= 14 && uri@.take(14) == pair_prefix(),
                qr_params(pv.take(i as int)) == Ok::<QrFields, Option<Seq<char>>>((
                    match sid { Some(a) => Some(a@), None => None },
                    match pk { Some(a) => Some(a@), None => None },
                    match nonce { Some(a) => Some(a@), None => None },
                    exp,
                    match rdv { Some(t) => Some(t@), None => None },
                )),
            decreases pieces@.len() - i,
        {
            proof {
                assert(pv.take(i + 1).drop_last() =~= pv.take(i as int));
                assert(pv.take(i + 1).last() == pieces@[i as int]@);
            }
            let kv = split_on_exec(&pieces[i], '=');
            if kv.len() < 2 {
                proof {
                    assert(kv@.map_values(|w: Vec<char>| w@).len() == kv@.len());
                    assert(pv.take(i + 1).len() == i + 1);
                    lemma_qr_params_err_stays(pv, i as int + 1);
                }
                return Err("MalformedParam".to_string());
            }
            let key = string_of(&kv[0]);
            let val = string_of(&kv[1]);
            proof {
                assert(kv@.map_values(|w: Vec<char>| w@)[0] == key@);
                assert(kv@.map_values(|w: Vec<char>| w@)[1] == val@);
            }
            if str_is(key.as_str(), "sid") {
                match read_hex_field(val.as_str(), 16, "InvalidSidLen") {
                    Ok(b) => {
                        sid = Some(copy16(b.as_slice()));
                    }
                    Err(e) => {
                        proof {
                            lemma_qr_params_err_stays(pv, i as int + 1);
                        }
                        return Err(e);
                    }
                }
            } else if str_is(key.as_str(), "pk") {
                match read_hex_field(val.as_str(), 32, "InvalidPkLen") {
                    Ok(b) => {
                        pk = Some(crate::bytes::arr32(b.as_slice()));
                    }
                    Err(e) => {
                        proof {
                            lemma_qr_params_err_stays(pv, i as int + 1);
                        }
                        return Err(e);
                    }
                }
            } else if str_is(key.as_str(), "nonce") {
                match read_hex_field(val.as_str(), 16, "InvalidNonceLen") {
                    Ok(b) => {
                        nonce = Some(copy16(b.as_slice()));
                    }
                    Err(e) => {
                        proof {
                            lemma_qr_params_err_stays(pv, i as int + 1);
                        }
                        return Err(e);
                    }
                }
            } else if str_is(key.as_str(), "exp") {
                match parse_u64_text(val.as_str()) {
                    Ok(x) => {
                        exp = Some(x);
                    }
                    Err(e) => {
                        proof {
                            lemma_qr_params_err_stays(pv, i as int + 1);
                        }
                        return Err(e);
                    }
                }
            } else if str_is(key.as_str(), "rdv") {
                rdv = Some(val);
            }
            i = i + 1;
        }
        proof {
            assert(pv.take(pieces@.len() as int) =~= pv);
        }
        let session_id = match sid {
            Some(a) => a,
            None => {
                return Err("MissingSid".to_string());
            }
        };
        let ephemeral_pubkey = match pk {
            Some(a) => a,
            None => {
                return Err("MissingPk".to_string());
            }
        };
        let nonce = match nonce {
            Some(a) => a,
            None => {
                return Err("MissingNonce".to_string());
            }
        };
        let expires_at_epoch = match exp {
            Some(x) => x,
            None => {
                return Err("MissingExp".to_string());
            }
        };
        let rendezvous = match rdv {
            Some(t) => t,
            None => {
                return Err("MissingRdv".to_string());
            }
        };
        Ok(PairingPayload { session_id, ephemeral_pubkey, nonce, expires_at_epoch, rendezvous })
    }
}


/// Lowercase hex holds neither `&` nor `=`.
proof fn lemma_hex_lower_plain(s: Seq<u8>)
    ensures
        !hex_lower(s).contains('&'),
        !hex_lower(s).contains('='),
{
    lemma_hex_lower_decodes(s);
    let h = hex_lower(s);
    if h.contains('&') {
        let i = choose|i: int| 0 <= i < h.len() && h[i] == '&';
        assert(('0' <= h[i] <= '9') || ('a' <= h[i] <= 'f'));
    }
    if h.contains('=') {
        let i = choose|i: int| 0 <= i < h.len() && h[i] == '=';
        assert(('0' <= h[i] <= '9') || ('a' <= h[i] <= 'f'));
    }
}

/// A decimal numeral holds neither `&` nor `=`.
proof fn lemma_decimal_plain(n: nat)
    ensures
        !decimal(n).contains('&'),
        !decimal(n).contains('='),
{
    lemma_decimal_digits(n);
    let d = decimal(n);
    if d.contains('&') {
        let i = choose|i: int| 0 <= i < d.len() && d[i] == '&';
        assert('0' <= d[i] <= '9');
    }
    if d.contains('=') {
        let i = choose|i: int| 0 <= i < d.len() && d[i] == '=';
        assert('0' <= d[i] <= '9');
    }
}

/// A hex field written by the encoder reads back as the bytes it was written from.
proof fn lemma_hex_field_back(b: Seq<u8>, n: nat, len_msg: Seq<char>)
    requires
        b.len() == n,
    ensures
        hex_field(hex_lower(b), n, len_msg) == Ok::<Seq<u8>, Option<Seq<char>>>(b),
{
    lemma_hex_lower_decodes(b);
}

/// `key=value` with a value free of `=` splits into the key and the value.
proof fn lemma_param_split(key: Seq<char>, val: Seq<char>)
    requires
        !key.contains('='),
        !val.contains('='),
    ensures
        split_on(key.push('=') + val, '=') == seq![key, val],
{
    lemma_split_append(key, val, '=');
    lemma_split_no_sep(key, '=');
}

/// One `key=value` parameter.
spec fn param(key: Seq<char>, val: Seq<char>) -> Seq<char> {
    key.push('=') + val
}

/// The five parameters of a payload's URI, in the order the encoder writes them.
spec fn uri_params(p: PairingPayload) -> Seq<Seq<char>> {
    seq![
        param("sid"@, hex_lower(p.session_id@)),
        param("pk"@, hex_lower(p.ephemeral_pubkey@)),
        param("nonce"@, hex_lower(p.nonce@)),
        param("exp"@, decimal(p.expires_at_epoch as nat)),
        param("rdv"@, p.rendezvous@),
    ]
}

proof fn lemma_param_keys()
    ensures
        !"sid"@.contains('&') && !"pk"@.contains('&') && !"nonce"@.contains('&') && !"exp"@.contains('&') && !"rdv"@.contains('&'),
        !"sid"@.contains('=') && !"pk"@.contains('=') && !"nonce"@.contains('=') && !"exp"@.contains('=') && !"rdv"@.contains('='),
        "pk"@ != "sid"@,
        "nonce"@ != "sid"@ && "nonce"@ != "pk"@,
        "exp"@ != "sid"@ && "exp"@ != "pk"@ && "exp"@ != "nonce"@,
        "rdv"@ != "sid"@ && "rdv"@ != "pk"@ && "rdv"@ != "nonce"@ && "rdv"@ != "exp"@,
{
    reveal_strlit("sid");
    reveal_strlit("pk");
    reveal_strlit("nonce");
    reveal_strlit("exp");
    reveal_strlit("rdv");
    assert("exp"@[0] != "sid"@[0]);
    assert("rdv"@[0] != "sid"@[0] && "rdv"@[0] != "exp"@[0]);
}

/// A parameter whose key and value hold no `&` holds none.
proof fn lemma_param_plain(k: Seq<char>, v: Seq<char>)
    requires
        !k.contains('&'),
        !v.contains('&'),
    ensures
        !param(k, v).contains('&'),
{
    let w = param(k, v);
    if w.contains('&') {
        let i = choose|i: int| 0 <= i < w.len() && w[i] == '&';
        if i < k.len() {
            assert(k[i] == '&');
        } else if i > k.len() {
            assert(v[i - k.len() - 1] == '&');
        }
    }
}

/// The URI of a payload is the prefix, then its parameters joined by `&`.
proof fn lemma_uri_pieces(p: PairingPayload)
    requires
        !p.rendezvous@.contains('&'),
    ensures
        pairing_uri(p).len() >= 14,
        pairing_uri(p).take(14) == pair_prefix(),
        split_on(pairing_uri(p).skip(14), '&') == uri_params(p),
{
    reveal_strlit("sid=");
    reveal_strlit("&pk=");
    reveal_strlit("&nonce=");
    reveal_strlit("&exp=");
    reveal_strlit("&rdv=");
    reveal_strlit("sid");
    reveal_strlit("pk");
    reveal_strlit("nonce");
    reveal_strlit("exp");
    reveal_strlit("rdv");
    lemma_param_keys();
    let ps = uri_params(p);
    let (p1, p2, p3, p4, p5) = (ps[0], ps[1], ps[2], ps[3], ps[4]);
    lemma_hex_lower_plain(p.session_id@);
    lemma_hex_lower_plain(p.ephemeral_pubkey@);
    lemma_hex_lower_plain(p.nonce@);
    lemma_decimal_plain(p.expires_at_epoch as nat);
    lemma_param_plain("sid"@, hex_lower(p.session_id@));
    lemma_param_plain("pk"@, hex_lower(p.ephemeral_pubkey@));
    lemma_param_plain("nonce"@, hex_lower(p.nonce@));
    lemma_param_plain("exp"@, decimal(p.expires_at_epoch as nat));
    lemma_param_plain("rdv"@, p.rendezvous@);
    let a2 = p1.push('&') + p2;
    let a3 = a2.push('&') + p3;
    let a4 = a3.push('&') + p4;
    let q = a4.push('&') + p5;
    assert(pairing_uri(p) =~= pair_prefix() + q);
    assert((pair_prefix() + q).take(14) =~= pair_prefix());
    assert((pair_prefix() + q).skip(14) =~= q);
    lemma_split_no_sep(p1, '&');
    lemma_split_append(p1, p2, '&');
    lemma_split_append(a2, p3, '&');
    lemma_split_append(a3, p4, '&');
    lemma_split_append(a4, p5, '&');
    assert(split_on(q, '&') =~= ps);
}

/// The parameters of a payload's URI read as exactly its fields.
proof fn lemma_uri_fields(p: PairingPayload)
    requires
        !p.rendezvous@.contains('='),
    ensures
        qr_params(uri_params(p)) == Ok::<QrFields, Option<Seq<char>>>(
            (Some(p.session_id@), Some(p.ephemeral_pubkey@), Some(p.nonce@), Some(p.expires_at_epoch), Some(p.rendezvous@))),
{
    lemma_param_keys();
    let ps = uri_params(p);
    let (p1, p2, p3, p4, p5) = (ps[0], ps[1], ps[2], ps[3], ps[4]);
    lemma_hex_lower_plain(p.session_id@);
    lemma_hex_lower_plain(p.ephemeral_pubkey@);
    lemma_hex_lower_plain(p.nonce@);
    lemma_decimal_plain(p.expires_at_epoch as nat);
    lemma_param_split("sid"@, hex_lower(p.session_id@));
    lemma_param_split("pk"@, hex_lower(p.ephemeral_pubkey@));
    lemma_param_split("nonce"@, hex_lower(p.nonce@));
    lemma_param_split("exp"@, decimal(p.expires_at_epoch as nat));
    lemma_param_split("rdv"@, p.rendezvous@);
    lemma_hex_field_back(p.session_id@, 16, "InvalidSidLen"@);
    lemma_hex_field_back(p.ephemeral_pubkey@, 32, "InvalidPkLen"@);
    lemma_hex_field_back(p.nonce@, 16, "InvalidNonceLen"@);
    lemma_parse_decimal(p.expires_at_epoch);
    let e: Seq<Seq<char>> = Seq::empty();
    assert(seq![p1].drop_last() =~= e);
    assert(seq![p1, p2].drop_last() =~= seq![p1]);
    assert(seq![p1, p2, p3].drop_last() =~= seq![p1, p2]);
    assert(seq![p1, p2, p3, p4].drop_last() =~= seq![p1, p2, p3]);
    assert(ps.drop_last() =~= seq![p1, p2, p3, p4]);
    let f1: QrFields = (Some(p.session_id@), None, None, None, None);
    let f2: QrFields = (Some(p.session_id@), Some(p.ephemeral_pubkey@), None, None, None);
    let f3: QrFields = (Some(p.session_id@), Some(p.ephemeral_pubkey@), Some(p.nonce@), None, None);
    let f4: QrFields = (Some(p.session_id@), Some(p.ephemeral_pubkey@), Some(p.nonce@), Some(p.expires_at_epoch), None);
    assert(qr_params(e) == Ok::<QrFields, Option<Seq<char>>>((None, None, None, None, None)));
    assert(qr_params(seq![p1]) == Ok::<QrFields, Option<Seq<char>>>(f1));
    assert(qr_params(seq![p1, p2]) == Ok::<QrFields, Option<Seq<char>>>(f2));
    assert(qr_params(seq![p1, p2, p3]) == Ok::<QrFields, Option<Seq<char>>>(f3));
    assert(qr_params(seq![p1, p2, p3, p4]) == Ok::<QrFields, Option<Seq<char>>>(f4));
}

/// Decoding the URI of a payload whose rendezvous holds neither `&` nor `=` reads
/// back every field of the payload: the URI carries the pairing prefix, and its
/// parameters read as exactly the payload's session id, ephemeral key, nonce,
/// expiry and rendezvous.
pub proof fn lemma_qr_uri_round_trip(p: PairingPayload)
    requires
        !p.rendezvous@.contains('&'),
        !p.rendezvous@.contains('='),
    ensures
        pairing_uri(p).len() >= 14,
        pairing_uri(p).take(14) == pair_prefix(),
        qr_params(split_on(pairing_uri(p).skip(14), '&')) == Ok::<QrFields, Option<Seq<char>>>(
            (Some(p.session_id@), Some(p.ephemeral_pubkey@), Some(p.nonce@), Some(p.expires_at_epoch), Some(p.rendezvous@))),
{
    lemma_uri_pieces(p);
    lemma_uri_fields(p);
}

/// Once a prefix of the parameters fails, so do all of them, with the same error.
proof fn lemma_qr_params_err_stays(pieces: Seq<Seq<char>>, k: int)
    requires
        0 <= k <= pieces.len(),
        qr_params(pieces.take(k)) is Err,
    ensures
        qr_params(pieces) == qr_params(pieces.take(k)),
    decreases pieces.len() - k,
{
    if k < pieces.len() {
        assert(pieces.take(k + 1).drop_last() =~= pieces.take(k));
        lemma_qr_params_err_stays(pieces, k + 1);
    } else {
        assert(pieces.take(k) =~= pieces);
    }
}

fn str_is(a: &str, b: &str) -> (r: bool)
    ensures
        r == (a@ == b@),
{
    let x = chars_of(a);
    let y = chars_of(b);
    if x.len() != y.len() {
        return false;
    }
    let mut i: usize = 0;
    while i < x.len()
        invariant
            i <= x@.len(),
            x@.len() == y@.len(),
            x@ == a@,
            y@ == b@,
            forall|j: int| 0 <= j < i ==> x@[j] == y@[j],
        decreases x@.len() - i,
    {
        if x[i] != y[i] {
            return false;
        }
        i = i + 1;
    }
    assert(x@ =~= y@);
    true
}

/// The bytes the short authentication code is hashed from.
pub open spec fn sas_preimage(initiator_pk: Seq<u8>, candidate_pk: Seq<u8>, nonce_a: Seq<u8>, nonce_b: Seq<u8>) -> Seq<u8> {
    initiator_pk + candidate_pk + nonce_a + nonce_b
}

/// The six-digit code both devices show: the first four bytes of the hash,
/// big-endian, modulo one million.
pub open spec fn sas_code(initiator_pk: Seq<u8>, candidate_pk: Seq<u8>, nonce_a: Seq<u8>, nonce_b: Seq<u8>) -> u32 {
    let h = sha256_spec(tagged("NEX/PAIRING_SAS/v1", sas_preimage(initiator_pk, candidate_pk, nonce_a, nonce_b)));
    (((h[0] as nat) * 0x100_0000 + (h[1] as nat) * 0x1_0000 + (h[2] as nat) * 0x100 + (h[3] as nat)) % 1000000) as u32
}

pub fn compute_sas_code(initiator_pk: &[u8; 32], candidate_pk: &[u8; 32], nonce_a: &[u8; 16], nonce_b: &[u8; 16]) -> (r: u32)
    ensures
        r == sas_code(initiator_pk@, candidate_pk@, nonce_a@, nonce_b@),
        r < 1000000,
{
    let mut buf: Vec<u8> = Vec::new();
    push_all(&mut buf, initiator_pk.as_slice());
    push_all(&mut buf, candidate_pk.as_slice());
    push_all(&mut buf, nonce_a.as_slice());
    push_all(&mut buf, nonce_b.as_slice());
    assert(buf@ =~= sas_preimage(initiator_pk@, candidate_pk@, nonce_a@, nonce_b@));
    let hash = hash_tagged("NEX/PAIRING_SAS/v1", buf.as_slice());
    let num: u32 = (hash[0] as u32) * 0x100_0000 + (hash[1] as u32) * 0x1_0000 + (hash[2] as u32) * 0x100 + (hash[3] as u32);
    num % 1000000
}

/// The initiating side of a pairing: the session, its ephemeral key (held as its
/// seed) and nonce, and when it expires.
pub struct PairingSessionInitiator {
    pub session_id: [u8; 16],
    pub local_ephemeral_seed: [u8; 32],
    pub local_ephemeral_pubkey: [u8; 32],
    pub local_nonce: [u8; 16],
    pub expires_at_epoch: u64,
}

impl PairingSessionInitiator {
    pub fn new(session_id: [u8; 16], key_seed: &[u8; 32], local_nonce: [u8; 16], expires_at_epoch: u64) -> (r: Self)
        ensures
            r.session_id == session_id,
            r.local_ephemeral_seed == *key_seed,
            r.local_ephemeral_pubkey@ == ed25519_public_key(key_seed@),
            r.local_nonce == local_nonce,
            r.expires_at_epoch == expires_at_epoch,
    {
        let pk = ed25519_public_from_seed(key_seed);
        PairingSessionInitiator {
            session_id,
            local_ephemeral_seed: *key_seed,
            local_ephemeral_pubkey: pk,
            local_nonce,
            expires_at_epoch,
        }
    }

    /// The payload to show: this session, its ephemeral public key, nonce and expiry.
    pub fn generate_payload(&self, rendezvous: &str) -> (r: PairingPayload)
        ensures
            r.session_id == self.session_id,
            r.ephemeral_pubkey == self.local_ephemeral_pubkey,
            r.nonce == self.local_nonce,
            r.expires_at_epoch == self.expires_at_epoch,
            r.rendezvous@ == rendezvous@,
    {
        PairingPayload {
            session_id: self.session_id,
            ephemeral_pubkey: self.local_ephemeral_pubkey,
            nonce: self.local_nonce,
            expires_at_epoch: self.expires_at_epoch,
            rendezvous: rendezvous.to_string(),
        }
    }

    /// Completes the pairing: refused after the session expires or when the code
    /// the candidate shows differs from ours; otherwise returns the code and a
    /// certificate for the candidate device valid for `validity_duration` epochs
    /// from now.
    pub fn complete_pairing(
        &self,
        master: &NexMasterIdentity,
        candidate_device_pubkey: &[u8; 32],
        candidate_ephemeral_pk: &[u8; 32],
        candidate_nonce: &[u8; 16],
        expected_sas: u32,
        current_epoch: u64,
        validity_duration: u64,
    ) -> (r: Result<(u32, DeviceCertificate), String>)
        requires
            master.wf(),
            current_epoch + validity_duration <= u64::MAX,
        ensures
            ({
                let code = sas_code(self.local_ephemeral_pubkey@, candidate_ephemeral_pk@, self.local_nonce@, candidate_nonce@);
                &&& current_epoch > self.expires_at_epoch ==> (r matches Err(e) && e@ == "PairingSessionExpired"@)
                &&& current_epoch <= self.expires_at_epoch && code != expected_sas ==> (r matches Err(e) && e@ == "SasMismatch"@)
                &&& current_epoch <= self.expires_at_epoch && code == expected_sas ==> (r matches Ok((c, cert))
                    && c == code
                    && cert.master_actor_id == master.root_id()
                    && cert.device_actor_id@ == actor_id_spec(1, candidate_device_pubkey@)
                    && cert.not_before_epoch == current_epoch
                    && cert.expires_at_epoch == current_epoch + validity_duration)
            }),
    {
        if current_epoch > self.expires_at_epoch {
            return Err("PairingSessionExpired".to_string());
        }
        let calculated_sas = compute_sas_code(&self.local_ephemeral_pubkey, candidate_ephemeral_pk, &self.local_nonce, candidate_nonce);
        if calculated_sas != expected_sas {
            return Err("SasMismatch".to_string());
        }
        match master.issue_device_certificate(candidate_device_pubkey, current_epoch, current_epoch + validity_duration) {
            Ok(cert) => Ok((calculated_sas, cert)),
            Err(e) => Err(e),
        }
    }
}

} // verus!
