//! The credential-exchange state machine and the interpretation of the
//! provider's responses.
//!
//! The provider authenticates in stages: an OTP request (which may be
//! rejected as automated traffic), redemption of the mailed passphrase
//! for a session token, and a dashboard fetch that yields the
//! long-lived access token. The HTTP calls live in the driver; the
//! library holds the client's state and applies each call's outcome,
//! so every transition and every failure is pinned down.

use vstd::prelude::*;

use crate::config::{sv_get, ConfigValue, DdConfig, SpecValue};
use crate::email::Email;
use crate::otp::spec_extract;

verus! {

/// Where the exchange stands.
#[derive(Debug, PartialEq, Eq, Structural, Clone, Copy)]
pub enum ExchangeState {
    /// Nothing has been requested yet.
    Unauthenticated,
    /// The provider accepted the OTP request and will mail a passphrase.
    OtpRequested,
    /// The provider rejected the OTP request as automated traffic; a
    /// one-time manual login must clear the suspicion. Not a failure:
    /// polling proceeds after the manual step.
    BotChallenge,
    /// An OTP was redeemed; the session token is held.
    SessionEstablished,
    /// The dashboard was read; the access token is held.
    FullyAuthenticated,
}

/// A failure of one stage of the exchange.
#[derive(Debug, PartialEq, Eq)]
pub enum ExchangeError {
    /// OTP redemption was refused with this HTTP status. Fatal for the
    /// attempt: passphrases are single-use, so redemption is never
    /// retried with the same token.
    RedemptionFailure(u16),
    /// The dashboard fetch failed with this HTTP status. Fatal for the
    /// session; the exchange must restart from the OTP request.
    SessionFailure(u16),
    /// No passphrase could be extracted; carries the body that failed
    /// to parse, for diagnostics.
    ParseFailure(String),
    /// Minting an alias was refused with this HTTP status. Fatal:
    /// issuance is not retried, since provider rate limits apply.
    IssuanceFailure(u16),
}

/// The provider's answer to OTP redemption.
pub struct LoginResponse {
    /// The reported status word.
    pub status: String,
    /// The session token.
    pub token: String,
    /// The account name the provider echoes back.
    pub user: String,
}

/// The per-account counters of the dashboard.
pub struct Stats {
    /// How many aliases the account has minted.
    pub addresses_generated: i32,
}

/// The account block of the dashboard.
pub struct User {
    /// The long-lived access token.
    pub access_token: String,
    /// The provider's cohort label for the account.
    pub cohort: String,
    /// The verified real address behind the account.
    pub email: String,
    /// The account name.
    pub username: String,
}

/// The provider's dashboard document.
pub struct DashboardResponse {
    /// Outstanding invites.
    pub invites: Vec<String>,
    /// The account counters.
    pub stats: Stats,
    /// The account block.
    pub user: User,
}

/// The login response a document describes: its `status`, `token` and
/// `user` string fields.
pub open spec fn spec_login_response_of(sv: SpecValue) -> Option<
    (Seq<char>, Seq<char>, Seq<char>),
> {
    match (sv_get(sv, "status"@), sv_get(sv, "token"@), sv_get(sv, "user"@)) {
        (
            Some(SpecValue::Str(s)),
            Some(SpecValue::Str(t)),
            Some(SpecValue::Str(u)),
        ) => Some((s, t, u)),
        _ => None,
    }
}

impl LoginResponse {
    /// Read a login response from a parsed document: an object with
    /// string `status`, `token` and `user` fields.
    pub fn from_value(v: &ConfigValue) -> (r: Option<LoginResponse>)
        ensures
            match r {
                Some(lr) => spec_login_response_of(v@) == Some((lr.status@, lr.token@, lr.user@)),
                None => spec_login_response_of(v@) is None,
            },
    {
        let status = match v.get("status") {
            Some(ConfigValue::Str(s)) => s.clone(),
            _ => {
                return None;
            },
        };
        let token = match v.get("token") {
            Some(ConfigValue::Str(s)) => s.clone(),
            _ => {
                return None;
            },
        };
        let user = match v.get("user") {
            Some(ConfigValue::Str(s)) => s.clone(),
            _ => {
                return None;
            },
        };
        Some(LoginResponse { status, token, user })
    }
}

/// The user block a document describes: its `access_token`, `cohort`,
/// `email` and `username` string fields.
pub open spec fn spec_user_of(sv: SpecValue) -> Option<
    (Seq<char>, Seq<char>, Seq<char>, Seq<char>),
> {
    match (
        sv_get(sv, "access_token"@),
        sv_get(sv, "cohort"@),
        sv_get(sv, "email"@),
        sv_get(sv, "username"@),
    ) {
        (
            Some(SpecValue::Str(a)),
            Some(SpecValue::Str(c)),
            Some(SpecValue::Str(e)),
            Some(SpecValue::Str(u)),
        ) => Some((a, c, e, u)),
        _ => None,
    }
}

impl User {
    /// Read the user block from a parsed document.
    pub fn from_value(v: &ConfigValue) -> (r: Option<User>)
        ensures
            match r {
                Some(u) => spec_user_of(v@) == Some((u.access_token@, u.cohort@, u.email@, u.username@)),
                None => spec_user_of(v@) is None,
            },
    {
        let access_token = match v.get("access_token") {
            Some(ConfigValue::Str(s)) => s.clone(),
            _ => {
                return None;
            },
        };
        let cohort = match v.get("cohort") {
            Some(ConfigValue::Str(s)) => s.clone(),
            _ => {
                return None;
            },
        };
        let email = match v.get("email") {
            Some(ConfigValue::Str(s)) => s.clone(),
            _ => {
                return None;
            },
        };
        let username = match v.get("username") {
            Some(ConfigValue::Str(s)) => s.clone(),
            _ => {
                return None;
            },
        };
        Some(User { access_token, cohort, email, username })
    }
}

/// The counter a document's `stats` block describes: an integer
/// `addresses_generated` within `i32` range.
pub open spec fn spec_stats_of(sv: SpecValue) -> Option<int> {
    match sv_get(sv, "addresses_generated"@) {
        Some(SpecValue::Int(n)) => if i32::MIN <= n <= i32::MAX {
            Some(n)
        } else {
            None
        },
        _ => None,
    }
}

/// The list of strings a document describes.
pub open spec fn spec_str_list_of(sv: SpecValue) -> Option<Seq<Seq<char>>> {
    match sv {
        SpecValue::List(xs) => if forall|i: int| 0 <= i < xs.len() ==> xs[i] is Str {
            Some(Seq::new(xs.len(), |i: int| xs[i]->Str_0))
        } else {
            None
        },
        _ => None,
    }
}

/// The dashboard a document describes: string `invites`, the `stats`
/// counter, and the `user` block.
pub open spec fn spec_dashboard_of(sv: SpecValue) -> Option<
    (Seq<Seq<char>>, int, (Seq<char>, Seq<char>, Seq<char>, Seq<char>)),
> {
    match (sv_get(sv, "invites"@), sv_get(sv, "stats"@), sv_get(sv, "user"@)) {
        (Some(iv), Some(stv), Some(uv)) => match (
            spec_str_list_of(iv),
            spec_stats_of(stv),
            spec_user_of(uv),
        ) {
            (Some(inv), Some(n), Some(u)) => Some((inv, n, u)),
            _ => None,
        },
        _ => None,
    }
}

impl DashboardResponse {
    /// Read a dashboard from a parsed document.
    #[verifier::loop_isolation(false)]
    pub fn from_value(v: &ConfigValue) -> (r: Option<DashboardResponse>)
        ensures
            match r {
                Some(d) => spec_dashboard_of(v@) == Some(
                    (
                        Seq::new(d.invites@.len(), |i: int| d.invites@[i]@),
                        d.stats.addresses_generated as int,
                        (d.user.access_token@, d.user.cohort@, d.user.email@, d.user.username@),
                    ),
                ),
                None => spec_dashboard_of(v@) is None,
            },
    {
        let invites_v = match v.get("invites") {
            Some(iv) => iv,
            None => {
                return None;
            },
        };
        let stats_v = match v.get("stats") {
            Some(sv) => sv,
            None => {
                return None;
            },
        };
        let user_v = match v.get("user") {
            Some(uv) => uv,
            None => {
                return None;
            },
        };
        let invites: Vec<String> = match invites_v {
            ConfigValue::List(xs) => {
                let mut out: Vec<String> = Vec::new();
                let mut i: usize = 0;
                while i < xs.len()
                    invariant
                        0 <= i <= xs@.len(),
                        out@.len() == i,
                        forall|q: int| 0 <= q < i ==> crate::config::spec_value_of(xs@[q]) is Str,
                        forall|q: int|
                            0 <= q < i ==> out@[q]@ == crate::config::spec_value_of(xs@[q])->Str_0,
                    decreases xs@.len() - i,
                {
                    match &xs[i] {
                        ConfigValue::Str(s) => {
                            out.push(s.clone());
                        },
                        _ => {
                            proof {
                                assert(invites_v@->List_0[i as int]
                                    == crate::config::spec_value_of(xs@[i as int]));
                                assert(!(invites_v@->List_0[i as int] is Str));
                            }
                            return None;
                        },
                    }
                    i += 1;
                }
                proof {
                    assert forall|q: int|
                        0 <= q < invites_v@->List_0.len() implies invites_v@->List_0[q] is Str by {
                        assert(invites_v@->List_0[q] == crate::config::spec_value_of(xs@[q]));
                    }
                }
                out
            },
            _ => {
                return None;
            },
        };
        let gen = match stats_v.get("addresses_generated") {
            Some(ConfigValue::Int(n)) => {
                let n = *n;
                if n < (i32::MIN as i64) || n > (i32::MAX as i64) {
                    return None;
                }
                n as i32
            },
            _ => {
                return None;
            },
        };
        let user = match User::from_value(user_v) {
            Some(u) => u,
            None => {
                return None;
            },
        };
        proof {
            assert(spec_str_list_of(invites_v@) == Some(
                Seq::new(invites@.len(), |i: int| invites@[i]@),
            )) by {
                assert(Seq::new(invites_v@->List_0.len(), |i: int| invites_v@->List_0[i]->Str_0)
                    =~= Seq::new(invites@.len(), |i: int| invites@[i]@));
            }
        }
        Some(DashboardResponse { invites, stats: Stats { addresses_generated: gen }, user })
    }
}

/// One account's exchange in progress: the tokens held so far and the
/// stage reached. Escalation is monotonic: the access token is only
/// ever set by applying a successful dashboard response, which needs
/// the session token.
pub struct Client {
    /// The account name.
    pub username: String,
    /// The session token, once an OTP was redeemed (or restored from a
    /// stored credential).
    pub token: Option<String>,
    /// The long-lived access token, once the dashboard was read (or
    /// restored from a stored credential).
    pub access_token: Option<String>,
    /// The alias counter from the dashboard, once read.
    pub generated_addresses: Option<i32>,
    /// The verified real address from the dashboard, once read.
    pub real_email: Option<String>,
    /// Whether a full login has completed (or both tokens were
    /// restored).
    pub logged_in: bool,
    /// The stage the exchange has reached.
    pub state: ExchangeState,
}

impl Client {
    /// A logged-in client holds both tokens, and only a logged-in
    /// client is fully authenticated.
    pub open spec fn wf(self) -> bool {
        &&& (self.logged_in ==> self.token is Some && self.access_token is Some)
        &&& (self.state == ExchangeState::FullyAuthenticated ==> self.logged_in)
    }

    /// A fresh client, optionally restored from stored tokens. It
    /// counts as logged in only when both tokens are present.
    pub fn new(username: String, token: Option<String>, access_token: Option<String>) -> (r:
        Client)
        ensures
            r.username@ == username@,
            r.token == token,
            r.access_token == access_token,
            r.generated_addresses is None,
            r.real_email is None,
            r.logged_in == (token is Some && access_token is Some),
            r.state == ExchangeState::Unauthenticated,
            r.wf(),
    {
        let logged_in = token.is_some() && access_token.is_some();
        Client {
            username,
            token,
            access_token,
            generated_addresses: None,
            real_email: None,
            logged_in,
            state: ExchangeState::Unauthenticated,
        }
    }

    /// Apply the outcome of the OTP-request call: acceptance means a
    /// passphrase is on its way; rejection is the provider's bot
    /// challenge, to be cleared by a one-time manual login. Tokens are
    /// untouched either way.
    pub fn apply_otp_request(&mut self, accepted: bool)
        ensures
            final(self).state == (if accepted {
                ExchangeState::OtpRequested
            } else {
                ExchangeState::BotChallenge
            }),
            final(self).username == old(self).username,
            final(self).token == old(self).token,
            final(self).access_token == old(self).access_token,
            final(self).generated_addresses == old(self).generated_addresses,
            final(self).real_email == old(self).real_email,
            final(self).logged_in == old(self).logged_in,
            old(self).wf() ==> final(self).wf(),
    {
        self.state = if accepted {
            ExchangeState::OtpRequested
        } else {
            ExchangeState::BotChallenge
        };
    }

    /// Apply the outcome of OTP redemption. Success stores the session
    /// token and establishes the session; any non-success HTTP status
    /// is a fatal `RedemptionFailure` that leaves the client exactly as
    /// it was — in particular, a previously stored access token is
    /// never touched by a failed redemption.
    pub fn apply_login_response(&mut self, resp: Result<LoginResponse, u16>) -> (r: Result<
        (),
        ExchangeError,
    >)
        ensures
            match resp {
                Ok(lr) => {
                    &&& r is Ok
                    &&& final(self).token == Some(lr.token)
                    &&& final(self).state == ExchangeState::SessionEstablished
                    &&& final(self).username == old(self).username
                    &&& final(self).access_token == old(self).access_token
                    &&& final(self).generated_addresses == old(self).generated_addresses
                    &&& final(self).real_email == old(self).real_email
                    &&& final(self).logged_in == old(self).logged_in
                },
                Err(status) => {
                    &&& r == Err::<(), ExchangeError>(ExchangeError::RedemptionFailure(status))
                    &&& *final(self) == *old(self)
                },
            },
            old(self).wf() ==> final(self).wf(),
    {
        match resp {
            Ok(lr) => {
                self.token = Some(lr.token);
                self.state = ExchangeState::SessionEstablished;
                Ok(())
            },
            Err(status) => Err(ExchangeError::RedemptionFailure(status)),
        }
    }

    /// Apply the outcome of the dashboard fetch, made with the session
    /// token as bearer. Success stores the access token, the verified
    /// address and the alias counter, and completes the login; any
    /// non-success HTTP status is a fatal `SessionFailure` that leaves
    /// the client exactly as it was.
    pub fn apply_dashboard_response(&mut self, resp: Result<DashboardResponse, u16>) -> (r: Result<
        (),
        ExchangeError,
    >)
        requires
            old(self).token is Some,
        ensures
            match resp {
                Ok(d) => {
                    &&& r is Ok
                    &&& final(self).access_token == Some(d.user.access_token)
                    &&& final(self).real_email == Some(d.user.email)
                    &&& final(self).generated_addresses == Some(d.stats.addresses_generated)
                    &&& final(self).logged_in == true
                    &&& final(self).state == ExchangeState::FullyAuthenticated
                    &&& final(self).username == old(self).username
                    &&& final(self).token == old(self).token
                },
                Err(status) => {
                    &&& r == Err::<(), ExchangeError>(ExchangeError::SessionFailure(status))
                    &&& *final(self) == *old(self)
                },
            },
            old(self).wf() ==> final(self).wf(),
    {
        match resp {
            Ok(d) => {
                self.access_token = Some(d.user.access_token);
                self.real_email = Some(d.user.email);
                self.generated_addresses = Some(d.stats.addresses_generated);
                self.logged_in = true;
                self.state = ExchangeState::FullyAuthenticated;
                Ok(())
            },
            Err(status) => Err(ExchangeError::SessionFailure(status)),
        }
    }

    /// The client as a credential record, ready to persist.
    pub fn to_config(&self) -> (r: DdConfig)
        ensures
            r.username@ == self.username@,
            r.token == self.token,
            r.access_token == self.access_token,
    {
        DdConfig::new(
            self.username.clone(),
            match &self.token {
                Some(t) => Some(t.clone()),
                None => None,
            },
            match &self.access_token {
                Some(t) => Some(t.clone()),
                None => None,
            },
        )
    }

    /// A client restored from a stored credential record.
    pub fn from_config(cfg: DdConfig) -> (r: Client)
        ensures
            r.username@ == cfg.username@,
            r.token == cfg.token,
            r.access_token == cfg.access_token,
            r.state == ExchangeState::Unauthenticated,
            r.logged_in == (cfg.token is Some && cfg.access_token is Some),
            r.wf(),
    {
        Client::new(cfg.username, cfg.token, cfg.access_token)
    }
}

/// The alias a response document carries: its string `address` field.
pub open spec fn spec_alias_of(sv: SpecValue) -> Option<Seq<char>> {
    match sv_get(sv, "address"@) {
        Some(SpecValue::Str(s)) => Some(s),
        _ => None,
    }
}

/// The local part of a newly minted alias, read from the issuance
/// response document.
pub fn alias_address_of(v: &ConfigValue) -> (r: Option<String>)
    ensures
        match r {
            Some(s) => spec_alias_of(v@) == Some(s@),
            None => spec_alias_of(v@) is None,
        },
{
    match v.get("address") {
        Some(ConfigValue::Str(s)) => Some(s.clone()),
        _ => None,
    }
}

/// Decide the outcome of the alias-minting call: a minted local part
/// passes through; any non-success HTTP status is a fatal
/// `IssuanceFailure`, and so is a success response without a string
/// `address` field.
pub fn issue_alias_outcome(resp: Result<ConfigValue, u16>) -> (r: Result<String, ExchangeError>)
    ensures
        match resp {
            Ok(body) => {
                match spec_alias_of(body@) {
                    Some(addr) => r matches Ok(s) && s@ == addr,
                    None => r == Err::<String, ExchangeError>(ExchangeError::IssuanceFailure(0)),
                }
            },
            Err(status) => r == Err::<String, ExchangeError>(
                ExchangeError::IssuanceFailure(status),
            ),
        },
{
    match resp {
        Ok(body) => match alias_address_of(&body) {
            Some(addr) => Ok(addr),
            None => Err(ExchangeError::IssuanceFailure(0)),
        },
        Err(status) => Err(ExchangeError::IssuanceFailure(status)),
    }
}

/// The decision after a successful poll: only the newest matching
/// message is trusted, since the OTP request was just issued. Its body
/// either yields the passphrase or is surfaced whole as a parse
/// failure; older messages are never retried.
pub fn otp_from_messages(emails: &Vec<Email>) -> (r: Result<String, ExchangeError>)
    requires
        emails@.len() > 0,
    ensures
        match r {
            Ok(s) => spec_extract(emails@.last().body@) == Some(s@),
            Err(e) => {
                &&& e matches ExchangeError::ParseFailure(b)
                &&& e->ParseFailure_0@ == emails@.last().body@
                &&& spec_extract(emails@.last().body@) is None
            },
        },
{
    let last = &emails[emails.len() - 1];
    match crate::otp::get_otp_via_mail(last.body.as_str()) {
        Some(s) => Ok(s),
        None => Err(ExchangeError::ParseFailure(last.body.clone())),
    }
}

} // verus!
