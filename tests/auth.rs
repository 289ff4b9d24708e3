use solix_exporter::api::{status_error, Error};
use solix_exporter::auth::{snapshot_ready, Action, AuthController, Outcome};
use solix_exporter::credentials::Credentials;
use solix_exporter::data::{Login, SiteHomepage, SiteList};

const NOW: u64 = 1_700_000_000;

fn creds(at: u64) -> Credentials {
    Credentials::new("user".to_string(), "token".to_string(), at)
}

#[test]
fn valid_credentials_skip_login() {
    let mut c = AuthController::new(Some(creds(NOW + 100)));
    assert!(!c.needs_login(NOW, false));
    assert!(c.needs_login(NOW, true));
    assert_eq!(c.begin(NOW), Action::Fetch);
}

#[test]
fn no_credentials_need_login() {
    let mut c = AuthController::new(None);
    assert!(c.needs_login(NOW, false));
    assert_eq!(c.begin(NOW), Action::Login { force: false });
}

#[test]
fn expired_credentials_force_relogin_next_cycle() {
    let mut c = AuthController::new(Some(creds(NOW - 10)));
    assert!(c.needs_login(NOW, false));
    assert_eq!(c.begin(NOW), Action::Login { force: false });
}

#[test]
fn credentials_expiring_now_need_login() {
    let c = AuthController::new(Some(creds(NOW)));
    assert!(c.needs_login(NOW, false));
}

#[test]
fn successful_login_yields_unexpired_credentials() {
    let login = Login {
        auth_token: "fresh".to_string(),
        token_expires_at: NOW + 3600,
        user_id: "user".to_string(),
    };
    let fresh = Credentials::from(login);
    let mut c = AuthController::new(None);
    assert_eq!(c.begin(NOW), Action::Login { force: false });
    assert_eq!(c.after_login(Ok(fresh)), Action::Fetch);
    let held = c.credentials().as_ref().unwrap();
    assert_eq!(held.auth_token, "fresh");
    assert!(held.token_expires_at > NOW);
    assert!(held.expires_in(NOW).unwrap() > 0);
}

#[test]
fn refused_login_leaves_no_credentials() {
    let mut c = AuthController::new(Some(creds(NOW - 10)));
    assert_eq!(c.begin(NOW), Action::Login { force: false });
    assert_eq!(c.after_login(Err(Error::InvalidCredentials)), Action::Done(Outcome::NoCredentials));
    assert!(c.credentials().is_none());
}

#[test]
fn failed_login_keeps_stale_credentials() {
    let mut c = AuthController::new(Some(creds(NOW - 10)));
    assert_eq!(c.begin(NOW), Action::Login { force: false });
    assert_eq!(c.after_login(Err(Error::Request("timeout".to_string()))), Action::Fetch);
    assert_eq!(c.credentials().as_ref().unwrap().token_expires_at, NOW - 10);
}

#[test]
fn unauthorized_fetch_relogs_once_and_retries() {
    let mut c = AuthController::new(Some(creds(NOW + 100)));
    assert_eq!(c.begin(NOW), Action::Fetch);
    let err = status_error(401, "unauthorized".to_string());
    assert!(matches!(err, Error::InvalidCredentials));
    assert_eq!(c.after_fetch(Some(err)), Action::Login { force: true });
    assert_eq!(c.after_login(Ok(creds(NOW + 3600))), Action::Fetch);
    assert_eq!(c.after_fetch(None), Action::Done(Outcome::Fetched));
}

#[test]
fn second_refusal_ends_the_cycle() {
    let mut c = AuthController::new(Some(creds(NOW + 100)));
    let mut runs = 0;
    let mut logins = 0;
    let mut action = c.begin(NOW);
    let outcome = loop {
        action = match action {
            Action::Login { force } => {
                if force {
                    logins += 1;
                }
                c.after_login(Ok(creds(NOW + 3600)))
            }
            Action::Fetch => {
                runs += 1;
                c.after_fetch(Some(Error::InvalidCredentials))
            }
            Action::Done(o) => break o,
        };
    };
    assert_eq!(outcome, Outcome::Rejected);
    assert_eq!(runs, 2);
    assert_eq!(logins, 1);
}

#[test]
fn invalid_request_is_not_retried() {
    let mut c = AuthController::new(Some(creds(NOW + 100)));
    assert_eq!(c.begin(NOW), Action::Fetch);
    let err = Error::Api(10000, "invalid request".to_string());
    assert_eq!(c.after_fetch(Some(err)), Action::Done(Outcome::BadRequest));
}

#[test]
fn other_errors_fail_the_cycle() {
    let mut c = AuthController::new(Some(creds(NOW + 100)));
    assert_eq!(c.begin(NOW), Action::Fetch);
    assert_eq!(c.after_fetch(Some(Error::Api(26050, "busy".to_string()))), Action::Done(Outcome::Failed));
    assert_eq!(c.begin(NOW), Action::Fetch);
    assert_eq!(c.after_fetch(Some(Error::Request("reset".to_string()))), Action::Done(Outcome::Failed));
    assert_eq!(c.begin(NOW), Action::Fetch);
    assert_eq!(c.after_fetch(Some(Error::Decode("missing field".to_string()))), Action::Done(Outcome::Failed));
}

#[test]
fn site_list_replaces_known_sites() {
    let mut c = AuthController::new(None);
    let home = SiteHomepage {
        site_list: vec![
            SiteList { site_id: "s1".to_string(), site_name: "Home".to_string() },
            SiteList { site_id: "s2".to_string(), site_name: "Cabin".to_string() },
        ],
    };
    c.record_sites(home);
    assert_eq!(c.site_ids(), &vec!["s1".to_string(), "s2".to_string()]);
    c.record_sites(SiteHomepage { site_list: vec![] });
    assert!(c.site_ids().is_empty());
}

#[test]
fn snapshot_needs_one_refreshed_site() {
    assert!(!snapshot_ready(&vec![]));
    assert!(!snapshot_ready(&vec![false, false]));
    assert!(snapshot_ready(&vec![false, true]));
}
