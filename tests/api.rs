use base64::Engine;
use cipher::{BlockDecryptMut, KeyIvInit};
use solix_exporter::api::{auth_headers, status_error, Error, Response, SolixApi};
use solix_exporter::credentials::Credentials;

fn client(secret: Vec<u8>) -> SolixApi {
    SolixApi::from_parts("DE".to_string(), "GMT+01:00".to_string(), secret, "04ab".to_string())
        .unwrap()
}

fn secret() -> Vec<u8> {
    (0u8..32).collect()
}

fn decrypt(secret: &[u8], ciphertext: &[u8]) -> Vec<u8> {
    cbc::Decryptor::<aes::Aes256>::new_from_slices(secret, &secret[..16])
        .unwrap()
        .decrypt_padded_vec_mut::<cipher::block_padding::Pkcs7>(ciphertext)
        .unwrap()
}

#[test]
fn status_401_is_invalid_credentials() {
    assert!(matches!(status_error(401, "unauthorized".to_string()), Error::InvalidCredentials));
}

#[test]
fn other_status_is_a_request_error() {
    match status_error(500, "server error".to_string()) {
        Error::Request(m) => assert_eq!(m, "server error"),
        other => panic!("unexpected {other:?}"),
    }
}

#[test]
fn envelope_without_data_is_a_vendor_error() {
    let r: Response<u32> = Response::from_envelope(10000, "invalid request".to_string(), None);
    match r.into_result() {
        Err(Error::Api(code, msg)) => {
            assert_eq!(code, 10000);
            assert_eq!(msg, "invalid request");
        }
        other => panic!("unexpected {other:?}"),
    }
}

#[test]
fn envelope_with_data_is_the_payload() {
    let r: Response<u32> = Response::from_envelope(0, "ok".to_string(), Some(7));
    assert!(matches!(r, Response::Data { code: 0, data: 7, .. }));
    assert_eq!(r.into_result().unwrap(), 7);
}

#[test]
fn expired_session_gets_no_headers() {
    let c = Credentials::new("u".to_string(), "t".to_string(), 100);
    assert!(matches!(auth_headers(&c, 100), Err(Error::InvalidCredentials)));
    assert!(matches!(auth_headers(&c, 200), Err(Error::InvalidCredentials)));
}

#[test]
fn session_headers_carry_token_and_md5_of_owner() {
    let c = Credentials::new("abc".to_string(), "tok".to_string(), 100);
    let h = auth_headers(&c, 99).unwrap();
    assert_eq!(
        h,
        vec![
            ("X-Auth-Token".to_string(), "tok".to_string()),
            ("gtoken".to_string(), "900150983cd24fb0d6963f7d28e17f72".to_string()),
        ]
    );
}

#[test]
fn base_headers_are_fixed() {
    let h = client(secret()).base_headers();
    let want: Vec<(String, String)> = [
        ("Country", "DE"),
        ("Timezone", "GMT+01:00"),
        ("Model-Type", "DESKTOP"),
        ("App-Name", "anker_power"),
        ("Os-Type", "android"),
    ]
    .iter()
    .map(|(a, b)| (a.to_string(), b.to_string()))
    .collect();
    assert_eq!(h, want);
}

#[test]
fn from_parts_needs_a_32_byte_secret() {
    assert!(SolixApi::from_parts("DE".into(), "tz".into(), vec![0u8; 31], String::new()).is_none());
    assert!(SolixApi::from_parts("DE".into(), "tz".into(), vec![0u8; 32], String::new()).is_some());
}

#[test]
fn encryption_is_deterministic_and_decrypts_back() {
    let api = client(secret());
    for p in ["", "password", "exactly16bytes!!", "a longer password with ünïcödé"] {
        let a = api.encrypt_password(p);
        assert_eq!(a, api.encrypt_password(p));
        let ct = api.password_ciphertext(p);
        assert_eq!(ct.len() % 16, 0);
        assert!(ct.len() > p.len());
        assert_eq!(decrypt(&secret(), &ct), p.as_bytes());
        assert_eq!(base64::engine::general_purpose::STANDARD.decode(&a).unwrap(), ct);
    }
}

#[test]
fn block_sized_password_gets_a_full_padding_block() {
    let api = client(secret());
    assert_eq!(api.password_ciphertext("exactly16bytes!!").len(), 32);
    assert_eq!(api.password_ciphertext("").len(), 16);
}

#[test]
fn login_request_carries_the_account() {
    let api = client(secret());
    let r = api.login_request("me@example.com", "pw", 1_700_000_000_123);
    assert_eq!(r.ab, "DE");
    assert_eq!(r.public_key, "04ab");
    assert_eq!(r.enc, 0);
    assert_eq!(r.email, "me@example.com");
    assert_eq!(r.password, api.encrypt_password("pw"));
    assert_eq!(r.transaction, 1_700_000_000_123);
}

#[test]
fn new_runs_a_key_exchange() {
    let api = SolixApi::new("DE".to_string(), "tz".to_string()).expect("server key is valid");
    let pk = api.public_key();
    assert_eq!(pk.len(), 130);
    assert!(pk.starts_with("04"));
    assert_eq!(api.password_ciphertext("pw").len(), 16);
}
