use vstd::prelude::*;

use crate::api::{Error, INVALID_REQUEST_CODE};
use crate::credentials::Credentials;
use crate::data::{ScenInfo, SiteHomepage};
use crate::metrics::{apply, projection, Metrics, SeriesKey};

verus! {

/// How a refresh cycle ended.
#[derive(Clone, Copy, Debug, PartialEq, Eq, Structural)]
pub enum Outcome {
    /// The operation succeeded.
    Fetched,
    /// No session could be had: the login was refused.
    NoCredentials,
    /// The session was refused again after a fresh login.
    Rejected,
    /// The vendor could not make sense of the request: the country, time zone
    /// or site id is likely wrong.
    BadRequest,
    /// Any other failure: transport, decoding, or a vendor error.
    Failed,
}

/// What the host should do next in a refresh cycle.
#[derive(Clone, Copy, Debug, PartialEq, Eq, Structural)]
pub enum Action {
    /// Log in, and hand the result to `after_login`.
    Login { force: bool },
    /// Run the operation with the current credentials, and hand its error, if
    /// any, to `after_fetch`.
    Fetch,
    /// The cycle is over.
    Done(Outcome),
}

/// Whether a session must be (re)established before a request.
pub open spec fn login_needed(creds: Option<Credentials>, now: u64, force: bool) -> bool {
    match creds {
        Some(c) => force || c.remaining(now) <= 0,
        None => true,
    }
}

/// The credentials held after a login attempt: a fresh session replaces the
/// old one, a refused login leaves none, and any other failure keeps what was
/// there, even if stale.
pub open spec fn after_login_credentials(
    held: Option<Credentials>,
    result: Result<Credentials, Error>,
) -> Option<Credentials> {
    match result {
        Ok(c) => Some(c),
        Err(Error::InvalidCredentials) => None,
        Err(_) => held,
    }
}

/// The step after a login, given whether credentials are held and how many
/// times the operation has run this cycle.
pub open spec fn login_decision(has_credentials: bool, attempts: u8) -> Action {
    if !has_credentials {
        Action::Done(Outcome::NoCredentials)
    } else if attempts < 2 {
        Action::Fetch
    } else {
        Action::Done(Outcome::Failed)
    }
}

/// The step after the operation ran, given how many times it has run and how
/// many forced logins there were this cycle.
pub open spec fn fetch_decision(attempts: u8, relogins: u8, err: Option<Error>) -> Action {
    match err {
        None => Action::Done(Outcome::Fetched),
        Some(Error::InvalidCredentials) => if attempts == 1 && relogins == 0 {
            Action::Login { force: true }
        } else {
            Action::Done(Outcome::Rejected)
        },
        Some(Error::Api(code, _)) => if code == INVALID_REQUEST_CODE {
            Action::Done(Outcome::BadRequest)
        } else {
            Action::Done(Outcome::Failed)
        },
        Some(Error::Request(_)) | Some(Error::Decode(_)) => Action::Done(Outcome::Failed),
    }
}

/// Unforced, the login step does nothing exactly when the credentials held
/// have time left.
pub proof fn lemma_unforced_login(creds: Credentials, now: u64)
    ensures
        !login_needed(Some(creds), now, false) <==> creds.remaining(now) > 0,
{
}

/// A cycle runs the operation at most twice. The first refused session forces
/// exactly one fresh login and one more run; a second refusal ends the cycle
/// as `Rejected`, and a run never follows the second.
pub proof fn lemma_retry_bounded(attempts: u8, relogins: u8, err: Option<Error>, held: bool)
    requires
        attempts <= 2,
        relogins <= 1,
    ensures
        login_decision(held, attempts) is Fetch ==> attempts < 2,
        fetch_decision(attempts, relogins, err) is Login ==> (attempts == 1 && relogins == 0
            && (err matches Some(Error::InvalidCredentials))),
        (attempts == 1 && relogins == 0 && (err matches Some(Error::InvalidCredentials)))
            ==> fetch_decision(attempts, relogins, err) == (Action::Login { force: true }),
        (attempts == 2 && (err matches Some(Error::InvalidCredentials))) ==> fetch_decision(
            attempts,
            relogins,
            err,
        ) == Action::Done(Outcome::Rejected),
        login_decision(held, 2) is Done,
{
}

/// How many times the operation runs from a point of a cycle on, where the
/// cycle is at `action` with the given counters, each login leaves credentials
/// held or not as `logins` says in turn, and each run fails as `errs` says in
/// turn (`None` for success). The cycle stops early when either runs out.
pub open spec fn runs_from(
    attempts: u8,
    relogins: u8,
    action: Action,
    logins: Seq<bool>,
    errs: Seq<Option<Error>>,
) -> nat
    decreases logins.len() + errs.len(),
{
    match action {
        Action::Done(_) => 0,
        Action::Login { .. } => if logins.len() == 0 {
            0
        } else {
            let next = login_decision(logins[0], attempts);
            let a = if next is Fetch {
                (attempts + 1) as u8
            } else {
                attempts
            };
            runs_from(a, relogins, next, logins.drop_first(), errs)
        },
        Action::Fetch => if errs.len() == 0 {
            1
        } else {
            let next = fetch_decision(attempts, relogins, errs[0]);
            let r = if next is Login {
                (relogins + 1) as u8
            } else {
                relogins
            };
            1 + runs_from(attempts, r, next, logins, errs.drop_first())
        },
    }
}

proof fn lemma_runs_bound(
    attempts: u8,
    relogins: u8,
    action: Action,
    logins: Seq<bool>,
    errs: Seq<Option<Error>>,
)
    requires
        attempts <= 2,
        relogins <= 1,
        action is Fetch ==> attempts >= 1,
    ensures
        runs_from(attempts, relogins, action, logins, errs) <= 2 - attempts + if action is Fetch {
            1int
        } else {
            0
        },
    decreases logins.len() + errs.len(),
{
    match action {
        Action::Done(_) => {},
        Action::Login { .. } => {
            if logins.len() > 0 {
                let next = login_decision(logins[0], attempts);
                let a = if next is Fetch {
                    (attempts + 1) as u8
                } else {
                    attempts
                };
                lemma_runs_bound(a, relogins, next, logins.drop_first(), errs);
            }
        },
        Action::Fetch => {
            if errs.len() > 0 {
                let next = fetch_decision(attempts, relogins, errs[0]);
                let r = if next is Login {
                    (relogins + 1) as u8
                } else {
                    relogins
                };
                lemma_runs_bound(attempts, r, next, logins, errs.drop_first());
            }
        },
    }
}

/// Whatever the logins and the runs return, a cycle that `begin` started runs
/// the operation at most twice.
pub proof fn lemma_cycle_runs_at_most_twice(
    held: Option<Credentials>,
    now: u64,
    logins: Seq<bool>,
    errs: Seq<Option<Error>>,
)
    ensures
        ({
            let first = if login_needed(held, now, false) {
                Action::Login { force: false }
            } else {
                Action::Fetch
            };
            let attempts: u8 = if login_needed(held, now, false) {
                0
            } else {
                1
            };
            runs_from(attempts, 0, first, logins, errs) <= 2
        }),
{
    if login_needed(held, now, false) {
        lemma_runs_bound(0, 0, Action::Login { force: false }, logins, errs);
    } else {
        lemma_runs_bound(1, 0, Action::Fetch, logins, errs);
    }
}

/// Whether a scrape is answered with a snapshot: only when at least one site
/// refreshed; otherwise the scrape fails.
pub fn snapshot_ready(refreshed: &Vec<bool>) -> (r: bool)
    ensures
        r == refreshed@.contains(true),
{
    let mut i: usize = 0;
    while i < refreshed.len()
        invariant
            i <= refreshed@.len(),
            forall|j: int| 0 <= j < i ==> !refreshed@[j],
        decreases refreshed.len() - i,
    {
        if refreshed[i] {
            assert(refreshed@[i as int] == true);
            return true;
        }
        i = i + 1;
    }
    false
}

/// Owns the session, the site list and the metrics, and decides each step of
/// a refresh cycle: log in when needed, run the operation, and on a refused
/// session log in again once and run it once more.
pub struct AuthController {
    credentials: Option<Credentials>,
    metrics: Metrics,
    site_ids: Vec<String>,
    attempts: u8,
    relogins: u8,
}

impl AuthController {
    pub closed spec fn held(&self) -> Option<Credentials> {
        self.credentials
    }

    /// How many times the operation has run in the current cycle.
    pub closed spec fn attempts(&self) -> u8 {
        self.attempts
    }

    /// How many forced logins the current cycle has made.
    pub closed spec fn relogins(&self) -> u8 {
        self.relogins
    }

    pub closed spec fn series(&self) -> Map<SeriesKey, int> {
        self.metrics.series()
    }

    pub closed spec fn sites(&self) -> Seq<Seq<char>> {
        self.site_ids@.map_values(|s: String| s@)
    }

    pub closed spec fn metrics_wf(&self) -> bool {
        self.metrics.wf()
    }

    pub open spec fn wf(&self) -> bool {
        self.attempts() <= 2 && self.relogins() <= 1 && self.metrics_wf()
    }

    /// Starts with the credentials found in storage, if any.
    pub fn new(credentials: Option<Credentials>) -> (r: Self)
        ensures
            r.wf(),
            r.held() == credentials,
            r.series() == Map::<SeriesKey, int>::empty(),
            r.sites() == Seq::<Seq<char>>::empty(),
    {
        let r = AuthController {
            credentials,
            metrics: Metrics::new(),
            site_ids: Vec::new(),
            attempts: 0,
            relogins: 0,
        };
        assert(r.sites() =~= Seq::<Seq<char>>::empty());
        r
    }

    pub fn credentials(&self) -> (r: &Option<Credentials>)
        ensures
            *r == self.held(),
    {
        &self.credentials
    }

    pub fn metrics(&self) -> (r: &Metrics)
        ensures
            r.series() == self.series(),
            r.wf() == self.metrics_wf(),
    {
        &self.metrics
    }

    pub fn site_ids(&self) -> (r: &Vec<String>)
        ensures
            r@.map_values(|s: String| s@) == self.sites(),
    {
        &self.site_ids
    }

    /// Whether `ensure_login(force)` would log in at `now`: it does nothing
    /// only when unforced with credentials that have time left.
    pub fn needs_login(&self, now: u64, force: bool) -> (r: bool)
        ensures
            r == login_needed(self.held(), now, force),
    {
        match &self.credentials {
            Some(c) => force || c.token_expires_at <= now,
            None => true,
        }
    }

    /// Takes in the result of a login; true when a fresh session is now held.
    pub fn apply_login(&mut self, result: Result<Credentials, Error>) -> (r: bool)
        ensures
            final(self).held() == after_login_credentials(old(self).held(), result),
            r == result is Ok,
            final(self).metrics_wf() == old(self).metrics_wf(),
            final(self).attempts() == old(self).attempts(),
            final(self).relogins() == old(self).relogins(),
            final(self).series() == old(self).series(),
            final(self).sites() == old(self).sites(),
    {
        match result {
            Ok(c) => {
                self.credentials = Some(c);
                true
            },
            Err(Error::InvalidCredentials) => {
                self.credentials = None;
                false
            },
            Err(_) => false,
        }
    }

    /// Starts a cycle at `now`: logs in first unless the credentials held are
    /// still valid.
    pub fn begin(&mut self, now: u64) -> (r: Action)
        requires
            old(self).wf(),
        ensures
            final(self).wf(),
            final(self).held() == old(self).held(),
            final(self).series() == old(self).series(),
            final(self).sites() == old(self).sites(),
            final(self).relogins() == 0,
            login_needed(old(self).held(), now, false) ==> r == (Action::Login { force: false })
                && final(self).attempts() == 0,
            !login_needed(old(self).held(), now, false) ==> r == Action::Fetch
                && final(self).attempts() == 1,
    {
        self.relogins = 0;
        if self.needs_login(now, false) {
            self.attempts = 0;
            Action::Login { force: false }
        } else {
            self.attempts = 1;
            Action::Fetch
        }
    }

    /// Takes in the result of the login that the cycle asked for.
    pub fn after_login(&mut self, result: Result<Credentials, Error>) -> (r: Action)
        requires
            old(self).wf(),
        ensures
            final(self).wf(),
            final(self).held() == after_login_credentials(old(self).held(), result),
            r == login_decision(final(self).held() is Some, old(self).attempts()),
            r is Fetch ==> final(self).attempts() == old(self).attempts() + 1,
            !(r is Fetch) ==> final(self).attempts() == old(self).attempts(),
            final(self).relogins() == old(self).relogins(),
            final(self).series() == old(self).series(),
            final(self).sites() == old(self).sites(),
    {
        self.apply_login(result);
        if self.credentials.is_none() {
            Action::Done(Outcome::NoCredentials)
        } else if self.attempts < 2 {
            self.attempts = self.attempts + 1;
            Action::Fetch
        } else {
            Action::Done(Outcome::Failed)
        }
    }

    /// Takes in how the operation went: `None` for success, else its error.
    pub fn after_fetch(&mut self, err: Option<Error>) -> (r: Action)
        requires
            old(self).wf(),
        ensures
            final(self).wf(),
            r == fetch_decision(old(self).attempts(), old(self).relogins(), err),
            final(self).relogins() == if r is Login {
                old(self).relogins() + 1
            } else {
                old(self).relogins() as int
            },
            final(self).attempts() == old(self).attempts(),
            final(self).held() == old(self).held(),
            final(self).series() == old(self).series(),
            final(self).sites() == old(self).sites(),
    {
        match err {
            None => Action::Done(Outcome::Fetched),
            Some(Error::InvalidCredentials) => {
                if self.attempts == 1 && self.relogins == 0 {
                    self.relogins = 1;
                    Action::Login { force: true }
                } else {
                    Action::Done(Outcome::Rejected)
                }
            },
            Some(Error::Api(code, _)) => {
                if code == INVALID_REQUEST_CODE {
                    Action::Done(Outcome::BadRequest)
                } else {
                    Action::Done(Outcome::Failed)
                }
            },
            Some(Error::Request(_)) | Some(Error::Decode(_)) => Action::Done(Outcome::Failed),
        }
    }

    /// Writes a site's telemetry into the metrics.
    pub fn record_telemetry(&mut self, site_id: &String, doc: &ScenInfo)
        requires
            old(self).wf(),
        ensures
            final(self).wf(),
            final(self).series() == apply(old(self).series(), projection(site_id@, *doc)),
            final(self).held() == old(self).held(),
            final(self).attempts() == old(self).attempts(),
            final(self).relogins() == old(self).relogins(),
            final(self).sites() == old(self).sites(),
    {
        self.metrics.update(site_id, doc);
    }

    /// Replaces the known sites with those of the account's home page.
    pub fn record_sites(&mut self, home: SiteHomepage)
        ensures
            final(self).metrics_wf() == old(self).metrics_wf(),
            final(self).sites() == home.site_list@.map_values(|s: crate::data::SiteList| s.site_id@),
            final(self).held() == old(self).held(),
            final(self).attempts() == old(self).attempts(),
            final(self).relogins() == old(self).relogins(),
            final(self).series() == old(self).series(),
    {
        let mut list = home.site_list;
        let ghost all = list@;
        let ghost want = all.map_values(|s: crate::data::SiteList| s.site_id@);
        let mut ids: Vec<String> = Vec::new();
        let len0 = list.len();
        let mut n: usize = 0;
        while list.len() > 0
            invariant
                n + list@.len() == len0,
                len0 == all.len(),
                list@ == all.subrange(n as int, len0 as int),
                ids@.map_values(|s: String| s@) == want.take(n as int),
                want == all.map_values(|s: crate::data::SiteList| s.site_id@),
            decreases list.len(),
        {
            let site = list.remove(0);
            proof {
                assert(site == all[n as int]);
                assert(list@ =~= all.subrange(n + 1, len0 as int));
            }
            let ghost prev = ids@;
            let ghost sid = site.site_id@;
            ids.push(site.site_id);
            proof {
                assert(want[n as int] == sid);
                assert(ids@ == prev.push(ids@.last()));
                assert(ids@.map_values(|s: String| s@) =~= prev.map_values(|s: String| s@).push(sid));
                assert(ids@.map_values(|s: String| s@) =~= want.take(n + 1));
            }
            n = n + 1;
        }
        assert(want.take(len0 as int) =~= want);
        self.site_ids = ids;
    }
}

} // verus!
