use vstd::prelude::*;
use vstd::slice::slice_subrange;
use vstd::string::StringSliceAdditionalSpecFns;

use crate::credentials::Credentials;

use base64::Engine;
use cipher::{BlockEncryptMut, KeyIvInit};
use md5::Digest;

verus! {

/// The vendor's fixed public key: an uncompressed SEC1 point, in hex
/// 04c5c00c4f8d1197cc7c3167c52bf7acb054d722f0ef08dcd7e0883236e0d72a38
/// 68d9750cb47fa4619248f3d83f0f662671dadc6e2d31c2f41db0161651c7c076.
pub open spec fn server_key() -> Seq<u8> {
    seq![
        0x04, 0xc5, 0xc0, 0x0c, 0x4f, 0x8d, 0x11, 0x97, 0xcc, 0x7c,
        0x31, 0x67, 0xc5, 0x2b, 0xf7, 0xac, 0xb0, 0x54, 0xd7, 0x22,
        0xf0, 0xef, 0x08, 0xdc, 0xd7, 0xe0, 0x88, 0x32, 0x36, 0xe0,
        0xd7, 0x2a, 0x38, 0x68, 0xd9, 0x75, 0x0c, 0xb4, 0x7f, 0xa4,
        0x61, 0x92, 0x48, 0xf3, 0xd8, 0x3f, 0x0f, 0x66, 0x26, 0x71,
        0xda, 0xdc, 0x6e, 0x2d, 0x31, 0xc2, 0xf4, 0x1d, 0xb0, 0x16,
        0x16, 0x51, 0xc7, 0xc0, 0x76,
    ]
}

fn server_key_bytes() -> (r: Vec<u8>)
    ensures
        r@ == server_key(),
{
    let v: Vec<u8> = vec![
        0x04, 0xc5, 0xc0, 0x0c, 0x4f, 0x8d, 0x11, 0x97, 0xcc, 0x7c,
        0x31, 0x67, 0xc5, 0x2b, 0xf7, 0xac, 0xb0, 0x54, 0xd7, 0x22,
        0xf0, 0xef, 0x08, 0xdc, 0xd7, 0xe0, 0x88, 0x32, 0x36, 0xe0,
        0xd7, 0x2a, 0x38, 0x68, 0xd9, 0x75, 0x0c, 0xb4, 0x7f, 0xa4,
        0x61, 0x92, 0x48, 0xf3, 0xd8, 0x3f, 0x0f, 0x66, 0x26, 0x71,
        0xda, 0xdc, 0x6e, 0x2d, 0x31, 0xc2, 0xf4, 0x1d, 0xb0, 0x16,
        0x16, 0x51, 0xc7, 0xc0, 0x76,
    ];
    assert(v@ =~= server_key());
    v
}

/// The host that every request goes to.
pub const API_HOST: &'static str = "https://ankerpower-api-eu.anker.com";

/// The vendor code of a request that it could not make sense of.
pub const INVALID_REQUEST_CODE: u32 = 10000;

/// How a request failed.
#[derive(Debug, Clone)]
pub enum Error {
    /// The session is absent, expired, or was rejected.
    InvalidCredentials,
    /// The vendor answered with a business error: its code and message.
    Api(u32, String),
    /// The request did not complete: connection, TLS, timeout, or an HTTP
    /// status other than 401.
    Request(String),
    /// The answer did not match the expected document.
    Decode(String),
}

/// A vendor reply: with `data` on success, without it on failure.
#[derive(Debug)]
pub enum Response<T> {
    Data { code: u32, data: T, msg: String },
    NoData { code: u32, msg: String },
}

impl<T> Response<T> {
    /// Tells the two shapes of a reply apart by whether `data` is present.
    pub fn from_envelope(code: u32, msg: String, data: Option<T>) -> (r: Self)
        ensures
            match data {
                Some(d) => r == (Response::Data { code, data: d, msg }),
                None => r == (Response::NoData::<T> { code, msg }),
            },
    {
        match data {
            Some(data) => Response::Data { code, data, msg },
            None => Response::NoData { code, msg },
        }
    }

    /// The payload of a successful reply, or the vendor's error.
    pub fn into_result(self) -> (r: Result<T, Error>)
        ensures
            match self {
                Response::Data { data, .. } => r == Ok::<T, Error>(data),
                Response::NoData { code, msg } => (r matches Err(Error::Api(c, m)) && c == code
                    && m@ == msg@),
            },
    {
        match self {
            Response::Data { data, .. } => Ok(data),
            Response::NoData { code, msg } => Err(Error::Api(code, msg)),
        }
    }
}

/// Classifies an HTTP status that the server answered with instead of a reply.
pub fn status_error(status: u16, message: String) -> (r: Error)
    ensures
        status == 401 ==> r is InvalidCredentials,
        status != 401 ==> (r matches Error::Request(m) && m@ == message@),
{
    if status == 401 {
        Error::InvalidCredentials
    } else {
        Error::Request(message)
    }
}

/// The lower-case hex digit of `n`, for `0 <= n < 16`.
pub open spec fn hex_digit(n: int) -> char {
    if n < 10 {
        ((48 + n) as u8) as char
    } else {
        ((87 + n) as u8) as char
    }
}

/// Lower-case hex, two digits per byte, high nibble first.
pub open spec fn hex_of(b: Seq<u8>) -> Seq<char>
    decreases b.len(),
{
    if b.len() == 0 {
        seq![]
    } else {
        hex_of(b.drop_last()) + seq![
            hex_digit(b.last() as int / 16),
            hex_digit(b.last() as int % 16),
        ]
    }
}

/// The MD5 digest of a string's UTF-8 bytes.
pub uninterp spec fn md5_of(s: Seq<char>) -> Seq<u8>;

/// AES-256 in CBC mode with PKCS#7 padding, of `msg` under `key` and `iv`.
pub uninterp spec fn aes256_cbc_pkcs7_of(key: Seq<u8>, iv: Seq<u8>, msg: Seq<u8>) -> Seq<u8>;

/// Whether bytes are the SEC1 encoding of a point of P-256 that is a valid
/// public key.
pub uninterp spec fn sec1_point_ok(b: Seq<u8>) -> bool;

/// The raw Diffie-Hellman secret between the holder of the P-256 key whose
/// SEC1 point is `own` and the peer whose point is `peer`. It is fixed by the
/// two points.
pub uninterp spec fn ecdh_secret_of(own: Seq<u8>, peer: Seq<u8>) -> Seq<u8>;

/// Standard base64, with padding.
pub uninterp spec fn base64_of(b: Seq<u8>) -> Seq<char>;

proof fn lemma_hex_len(b: Seq<u8>)
    ensures
        hex_of(b).len() == 2 * b.len(),
    decreases b.len(),
{
    if b.len() > 0 {
        lemma_hex_len(b.drop_last());
    }
}

/// The first two digits are those of the first byte.
proof fn lemma_hex_first(b: Seq<u8>)
    requires
        b.len() >= 1,
    ensures
        hex_of(b).take(2) == seq![hex_digit(b[0] as int / 16), hex_digit(b[0] as int % 16)],
    decreases b.len(),
{
    lemma_hex_len(b);
    if b.len() == 1 {
        assert(b.drop_last() =~= Seq::<u8>::empty());
        assert(hex_of(b).take(2) =~= seq![hex_digit(b[0] as int / 16), hex_digit(b[0] as int % 16)]);
    } else {
        lemma_hex_first(b.drop_last());
        lemma_hex_len(b.drop_last());
        assert(hex_of(b).take(2) =~= hex_of(b.drop_last()).take(2));
    }
}

/// Relies on hex::encode: lower-case hex, two digits per byte.
#[verifier::external_body]
fn hex_encode(b: &[u8]) -> (r: String)
    ensures
        r@ == hex_of(b@),
{
    hex::encode(b)
}


/// Relies on md5::Md5::digest: the 16-byte digest of the string's bytes.
#[verifier::external_body]
fn md5_digest(s: &str) -> (r: Vec<u8>)
    ensures
        r@ == md5_of(s@),
        r@.len() == 16,
{
    md5::Md5::digest(s.as_bytes()).to_vec()
}

/// Relies on cbc::Encryptor<aes::Aes256> with cipher's Pkcs7 padding. PKCS#7
/// always adds between 1 and 16 bytes, up to the next whole block.
#[verifier::external_body]
fn aes256_cbc_encrypt(key: &[u8], iv: &[u8], msg: &[u8]) -> (r: Vec<u8>)
    requires
        key@.len() == 32,
        iv@.len() == 16,
    ensures
        r@ == aes256_cbc_pkcs7_of(key@, iv@, msg@),
        r@.len() == msg@.len() / 16 * 16 + 16,
{
    cbc::Encryptor::<aes::Aes256>::new_from_slices(key, iv)
        .expect("key and iv lengths")
        .encrypt_padded_vec_mut::<cipher::block_padding::Pkcs7>(msg)
}

/// Relies on base64's STANDARD engine: padded standard base64.
#[verifier::external_body]
fn base64_encode(b: &[u8]) -> (r: String)
    ensures
        r@ == base64_of(b@),
{
    base64::engine::general_purpose::STANDARD.encode(b)
}

/// Relies on p256: draws a fresh ephemeral secret from the OS
/// (`EphemeralSecret::random`), reads the peer's key
/// (`PublicKey::from_sec1_bytes`), and returns our public key as SEC1 bytes
/// (`to_sec1_bytes`: uncompressed on P-256, so 65 bytes led by 0x04) with the
/// raw 32-byte Diffie-Hellman secret; `None` exactly when the peer's key
/// does not read.
#[verifier::external_body]
fn ephemeral_key_exchange(peer: &[u8]) -> (r: Option<(Vec<u8>, Vec<u8>)>)
    ensures
        r is Some <==> sec1_point_ok(peer@),
        r matches Some((own, secret)) ==> secret@.len() == 32 && own@.len() == 65 && own@[0]
            == 4 && secret@ == ecdh_secret_of(own@, peer@),
{
    let own = p256::ecdh::EphemeralSecret::random(&mut p256::elliptic_curve::rand_core::OsRng);
    let peer = p256::PublicKey::from_sec1_bytes(peer).ok()?;
    let secret = own.diffie_hellman(&peer);
    Some((own.public_key().to_sec1_bytes().to_vec(), secret.raw_secret_bytes().to_vec()))
}

/// Header names and values as character sequences.
pub open spec fn headers_view(h: Seq<(String, String)>) -> Seq<(Seq<char>, Seq<char>)> {
    h.map_values(|p: (String, String)| (p.0@, p.1@))
}

/// The body of a login request.
pub struct LoginRequest {
    pub ab: String,
    pub public_key: String,
    pub enc: u32,
    pub email: String,
    pub password: String,
    pub transaction: u64,
}

/// The protocol client: where the account lives, and the key material of this
/// process's key exchange with the vendor.
pub struct SolixApi {
    country: String,
    timezone: String,
    shared_secret: Vec<u8>,
    public_key: String,
}

/// The raw ciphertext of a password: the shared secret is the AES-256 key and
/// its first 16 bytes are the IV, as the vendor requires.
pub open spec fn password_ciphertext(secret: Seq<u8>, password: Seq<u8>) -> Seq<u8> {
    aes256_cbc_pkcs7_of(secret, secret.take(16), password)
}

impl SolixApi {
    pub closed spec fn country_view(&self) -> Seq<char> {
        self.country@
    }

    pub closed spec fn timezone_view(&self) -> Seq<char> {
        self.timezone@
    }

    pub closed spec fn secret(&self) -> Seq<u8> {
        self.shared_secret@
    }

    pub closed spec fn public_key_view(&self) -> Seq<char> {
        self.public_key@
    }

    pub open spec fn wf(&self) -> bool {
        self.secret().len() == 32
    }

    /// Runs a fresh key exchange against the vendor's key. `None` only if the
    /// vendor's key is not a valid point. The key exposed for the login is
    /// our uncompressed SEC1 point in hex: 130 digits, led by "04".
    pub fn new(country: String, timezone: String) -> (r: Option<Self>)
        ensures
            r is Some <==> sec1_point_ok(server_key()),
            r matches Some(a) ==> a.wf() && a.country_view() == country@ && a.timezone_view()
                == timezone@ && a.public_key_view().len() == 130 && a.public_key_view().take(2)
                == "04"@,
            r matches Some(a) ==> exists|k: Seq<u8>|
                k.len() == 65 && k[0] == 4 && a.public_key_view() == #[trigger] hex_of(k)
                    && a.secret() == ecdh_secret_of(k, server_key()),
    {
        let server = server_key_bytes();
        match ephemeral_key_exchange(server.as_slice()) {
            Some((own, secret)) => {
                let public_key = hex_encode(own.as_slice());
                proof {
                    lemma_hex_len(own@);
                    lemma_hex_first(own@);
                    reveal_strlit("04");
                    assert(hex_digit(0) == '0');
                    assert(hex_digit(4) == '4');
                    assert(public_key@.take(2) =~= "04"@);
                    assert(hex_of(own@) == public_key@);
                }
                Some(SolixApi { country, timezone, shared_secret: secret, public_key })
            },
            None => None,
        }
    }

    /// A client over key material already agreed: `None` unless the secret
    /// is 32 bytes.
    pub fn from_parts(country: String, timezone: String, shared_secret: Vec<u8>, public_key: String) -> (r:
        Option<Self>)
        ensures
            r is Some <==> shared_secret@.len() == 32,
            r matches Some(a) ==> a.wf() && a.country_view() == country@ && a.timezone_view()
                == timezone@ && a.secret() == shared_secret@ && a.public_key_view()
                == public_key@,
    {
        if shared_secret.len() == 32 {
            Some(SolixApi { country, timezone, shared_secret, public_key })
        } else {
            None
        }
    }

    /// Our public key, in hex, as the login request carries it.
    pub fn public_key(&self) -> (r: &String)
        ensures
            r@ == self.public_key_view(),
    {
        &self.public_key
    }

    /// The password, encrypted but not yet encoded. Its length is the next
    /// whole number of 16-byte blocks above the password's.
    pub fn password_ciphertext(&self, password: &str) -> (r: Vec<u8>)
        requires
            self.wf(),
        ensures
            r@ == password_ciphertext(self.secret(), password.spec_bytes()),
            r@.len() % 16 == 0,
            password.spec_bytes().len() < r@.len() <= password.spec_bytes().len() + 16,
    {
        let key = self.shared_secret.as_slice();
        let iv = slice_subrange(key, 0, 16);
        assert(iv@ == self.secret().take(16));
        aes256_cbc_encrypt(key, iv, password.as_bytes())
    }

    /// The password as the login request carries it: encrypted, then base64.
    pub fn encrypt_password(&self, password: &str) -> (r: String)
        requires
            self.wf(),
        ensures
            r@ == base64_of(password_ciphertext(self.secret(), password.spec_bytes())),
    {
        let c = self.password_ciphertext(password);
        base64_encode(c.as_slice())
    }

    /// The login request for an account, stamped with `now_ms`.
    pub fn login_request(&self, username: &str, password: &str, now_ms: u64) -> (r: LoginRequest)
        requires
            self.wf(),
        ensures
            r.ab@ == self.country_view(),
            r.public_key@ == self.public_key_view(),
            r.enc == 0,
            r.email@ == username@,
            r.password@ == base64_of(password_ciphertext(self.secret(), password.spec_bytes())),
            r.transaction == now_ms,
    {
        LoginRequest {
            ab: self.country.clone(),
            public_key: self.public_key.clone(),
            enc: 0,
            email: username.to_owned(),
            password: self.encrypt_password(password),
            transaction: now_ms,
        }
    }

    /// The headers that every request carries.
    pub fn base_headers(&self) -> (r: Vec<(String, String)>)
        ensures
            headers_view(r@) == seq![
                ("Country"@, self.country_view()),
                ("Timezone"@, self.timezone_view()),
                ("Model-Type"@, "DESKTOP"@),
                ("App-Name"@, "anker_power"@),
                ("Os-Type"@, "android"@),
            ],
    {
        let mut h: Vec<(String, String)> = Vec::new();
        h.push(("Country".to_owned(), self.country.clone()));
        h.push(("Timezone".to_owned(), self.timezone.clone()));
        h.push(("Model-Type".to_owned(), "DESKTOP".to_owned()));
        h.push(("App-Name".to_owned(), "anker_power".to_owned()));
        h.push(("Os-Type".to_owned(), "android".to_owned()));
        assert(headers_view(h@) =~= seq![
            ("Country"@, self.country_view()),
            ("Timezone"@, self.timezone_view()),
            ("Model-Type"@, "DESKTOP"@),
            ("App-Name"@, "anker_power"@),
            ("Os-Type"@, "android"@),
        ]);
        h
    }
}

/// The headers that attach a session to a request, taken at `now` (epoch
/// seconds): refused as `InvalidCredentials` once the session has expired.
pub fn auth_headers(creds: &Credentials, now: u64) -> (r: Result<Vec<(String, String)>, Error>)
    ensures
        creds.remaining(now) <= 0 <==> r is Err,
        r is Err ==> r matches Err(Error::InvalidCredentials),
        r matches Ok(h) ==> headers_view(h@) == seq![
            ("X-Auth-Token"@, creds.auth_token@),
            ("gtoken"@, hex_of(md5_of(creds.user_id@))),
        ],
{
    if creds.token_expires_at <= now {
        return Err(Error::InvalidCredentials);
    }
    let digest = md5_digest(creds.user_id.as_str());
    let mut h: Vec<(String, String)> = Vec::new();
    h.push(("X-Auth-Token".to_owned(), creds.auth_token.clone()));
    h.push(("gtoken".to_owned(), hex_encode(digest.as_slice())));
    assert(headers_view(h@) =~= seq![
        ("X-Auth-Token"@, creds.auth_token@),
        ("gtoken"@, hex_of(md5_of(creds.user_id@))),
    ]);
    Ok(h)
}

} // verus!
