//! The conditional fetcher's decision procedure: given what is on disk (the
//! artifact and its side-car token file) decide whether a network request is
//! needed and with which revalidation precondition, and given the origin's
//! response decide how to reconcile the on-disk cache. The blocking I/O that
//! gathers the probe, sends the request and applies the action lives outside
//! the library; every decision is taken here.

use vstd::prelude::*;

verus! {

use vstd::string::StringExecFns;

/// What a look at the disk found, gathered before deciding on a request.
pub struct CacheProbe {
    /// The artifact file exists at the target path.
    pub artifact_exists: bool,
    /// The side-car token file exists next to it.
    pub sidecar_exists: bool,
    /// Seconds since the side-car's last modification; `None` when the
    /// timestamp could not be read.
    pub sidecar_age: Option<u64>,
    /// The first line of the side-car, trimmed; `None` when the file could
    /// not be read or holds no line.
    pub sidecar_token: Option<String>,
    /// The artifact's last modification time, seconds since the Unix epoch;
    /// `None` when unavailable.
    pub artifact_mtime: Option<i64>,
}

/// Mathematical image of a probe.
pub struct ProbeModel {
    pub artifact_exists: bool,
    pub sidecar_exists: bool,
    pub sidecar_age: Option<u64>,
    pub sidecar_token: Option<Seq<char>>,
    pub artifact_mtime: Option<i64>,
}

impl View for CacheProbe {
    type V = ProbeModel;

    open spec fn view(&self) -> ProbeModel {
        ProbeModel {
            artifact_exists: self.artifact_exists,
            sidecar_exists: self.sidecar_exists,
            sidecar_age: self.sidecar_age,
            sidecar_token: match self.sidecar_token {
                Some(t) => Some(t@),
                None => None,
            },
            artifact_mtime: self.artifact_mtime,
        }
    }
}

/// The revalidation precondition attached to an outgoing request.
pub enum Precondition {
    /// No precondition: a full, unconditional request.
    Unconditional,
    /// `If-None-Match` carrying the stored entity tag.
    IfNoneMatch(String),
    /// `If-Modified-Since` carrying an RFC 2822 timestamp.
    IfModifiedSince(String),
}

/// A network request the fetch decided to make.
pub struct RequestPlan {
    /// The precondition header to attach.
    pub precondition: Precondition,
    /// Delete the side-car before the request resolves: the cache is
    /// inconsistent or corrupt until then.
    pub drop_sidecar: bool,
}

/// The decision taken before any network traffic.
pub enum FetchPlan {
    /// The side-car is fresh: report a cache hit without any request.
    UseCache,
    /// Perform one request as planned.
    Request(RequestPlan),
}

/// Mathematical image of a precondition.
pub enum PrecondModel {
    Unconditional,
    IfNoneMatch(Seq<char>),
    IfModifiedSince(Seq<char>),
}

/// Mathematical image of a request plan.
pub struct RequestModel {
    pub precondition: PrecondModel,
    pub drop_sidecar: bool,
}

/// Mathematical image of a fetch plan.
pub enum PlanModel {
    UseCache,
    Request(RequestModel),
}

impl View for Precondition {
    type V = PrecondModel;

    open spec fn view(&self) -> PrecondModel {
        match self {
            Precondition::Unconditional => PrecondModel::Unconditional,
            Precondition::IfNoneMatch(t) => PrecondModel::IfNoneMatch(t@),
            Precondition::IfModifiedSince(t) => PrecondModel::IfModifiedSince(t@),
        }
    }
}

impl View for FetchPlan {
    type V = PlanModel;

    open spec fn view(&self) -> PlanModel {
        match self {
            FetchPlan::UseCache => PlanModel::UseCache,
            FetchPlan::Request(rq) => PlanModel::Request(
                RequestModel { precondition: rq.precondition@, drop_sidecar: rq.drop_sidecar },
            ),
        }
    }
}

/// Whether a token is acceptable as a transport-header value.
pub uninterp spec fn header_ok_of(s: Seq<char>) -> bool;

/// Relies on reqwest's HeaderValue::from_str: whether a token is a valid
/// header value depends on its characters alone.
#[verifier::external_body]
fn header_value_ok(s: &str) -> (r: bool)
    ensures
        r == header_ok_of(s@),
{
    reqwest::header::HeaderValue::from_str(s).is_ok()
}

/// The RFC 2822 text of a timestamp (seconds since the Unix epoch).
pub uninterp spec fn rfc2822_of(t: int) -> Seq<char>;

/// The last timestamp whose year stays within 0..=9999, where the RFC 2822
/// formatter is defined.
pub const RFC2822_MAX_UNIX: i64 = 253402300799;

/// Relies on chrono's DateTime::from_timestamp and to_rfc2822: the RFC 2822
/// text of a timestamp depends on the timestamp alone. The bounds keep the
/// year within 0..=9999, on which both calls are defined.
#[verifier::external_body]
fn format_rfc2822(t: i64) -> (r: String)
    requires
        0 <= t <= RFC2822_MAX_UNIX,
    ensures
        r@ == rfc2822_of(t as int),
{
    chrono::DateTime::<chrono::Utc>::from_timestamp(t, 0).unwrap().to_rfc2822()
}

/// The timestamp an RFC 2822 text denotes, if it parses.
pub uninterp spec fn rfc2822_timestamp_of(s: Seq<char>) -> Option<i64>;

/// Relies on chrono's DateTime::parse_from_rfc2822: the parsed timestamp
/// depends on the text alone.
#[verifier::external_body]
fn parse_rfc2822(s: &str) -> (r: Option<i64>)
    ensures
        r == rfc2822_timestamp_of(s@),
{
    match chrono::DateTime::parse_from_rfc2822(s) {
        Ok(d) => Some(d.timestamp()),
        Err(_) => None,
    }
}

/// The decision procedure, on the mathematical image of the probe: an absent
/// artifact forces an unconditional request and marks the cache inconsistent;
/// a side-car within the window is a cache hit with no request; a stale
/// side-car revalidates with its token when the token is a valid header
/// value and is otherwise discarded; an artifact without a side-car tries a
/// timestamp precondition, best effort.
pub open spec fn fetch_plan_spec(p: ProbeModel, window: u64) -> PlanModel {
    if !p.artifact_exists {
        PlanModel::Request(
            RequestModel { precondition: PrecondModel::Unconditional, drop_sidecar: true },
        )
    } else if p.sidecar_exists {
        match p.sidecar_age {
            Some(age) => if age <= window {
                PlanModel::UseCache
            } else {
                match p.sidecar_token {
                    Some(t) => if header_ok_of(t) {
                        PlanModel::Request(
                            RequestModel {
                                precondition: PrecondModel::IfNoneMatch(t),
                                drop_sidecar: false,
                            },
                        )
                    } else {
                        PlanModel::Request(
                            RequestModel {
                                precondition: PrecondModel::Unconditional,
                                drop_sidecar: true,
                            },
                        )
                    },
                    None => PlanModel::Request(
                        RequestModel {
                            precondition: PrecondModel::Unconditional,
                            drop_sidecar: true,
                        },
                    ),
                }
            },
            None => PlanModel::Request(
                RequestModel { precondition: PrecondModel::Unconditional, drop_sidecar: true },
            ),
        }
    } else {
        match p.artifact_mtime {
            Some(m) => if 0 <= m <= RFC2822_MAX_UNIX {
                PlanModel::Request(
                    RequestModel {
                        precondition: PrecondModel::IfModifiedSince(rfc2822_of(m as int)),
                        drop_sidecar: false,
                    },
                )
            } else {
                PlanModel::Request(
                    RequestModel { precondition: PrecondModel::Unconditional, drop_sidecar: false },
                )
            },
            None => PlanModel::Request(
                RequestModel { precondition: PrecondModel::Unconditional, drop_sidecar: false },
            ),
        }
    }
}

/// Decides whether a network round trip is needed for the cached artifact
/// described by `probe`, and with which precondition, following the decision
/// procedure of `fetch_plan_spec` exactly.
pub fn plan_fetch(probe: &CacheProbe, window_secs: u64) -> (r: FetchPlan)
    ensures
        r@ == fetch_plan_spec(probe@, window_secs),
{
    if !probe.artifact_exists {
        return FetchPlan::Request(
            RequestPlan { precondition: Precondition::Unconditional, drop_sidecar: true },
        );
    }
    if probe.sidecar_exists {
        match &probe.sidecar_age {
            Some(age) => {
                if *age <= window_secs {
                    FetchPlan::UseCache
                } else {
                    match &probe.sidecar_token {
                        Some(t) => {
                            if header_value_ok(t.as_str()) {
                                FetchPlan::Request(
                                    RequestPlan {
                                        precondition: Precondition::IfNoneMatch(t.clone()),
                                        drop_sidecar: false,
                                    },
                                )
                            } else {
                                FetchPlan::Request(
                                    RequestPlan {
                                        precondition: Precondition::Unconditional,
                                        drop_sidecar: true,
                                    },
                                )
                            }
                        },
                        None => FetchPlan::Request(
                            RequestPlan {
                                precondition: Precondition::Unconditional,
                                drop_sidecar: true,
                            },
                        ),
                    }
                }
            },
            None => FetchPlan::Request(
                RequestPlan { precondition: Precondition::Unconditional, drop_sidecar: true },
            ),
        }
    } else {
        match &probe.artifact_mtime {
            Some(m) => {
                if 0 <= *m && *m <= RFC2822_MAX_UNIX {
                    let s = format_rfc2822(*m);
                    FetchPlan::Request(
                        RequestPlan {
                            precondition: Precondition::IfModifiedSince(s),
                            drop_sidecar: false,
                        },
                    )
                } else {
                    FetchPlan::Request(
                        RequestPlan { precondition: Precondition::Unconditional, drop_sidecar: false },
                    )
                }
            },
            None => FetchPlan::Request(
                RequestPlan { precondition: Precondition::Unconditional, drop_sidecar: false },
            ),
        }
    }
}

/// How to reconcile the on-disk cache with the origin's response.
pub enum ResponseAction {
    /// Not-modified with a side-car present: refresh the side-car's
    /// modification time so the trust window restarts; report a cache hit.
    TouchSidecar,
    /// Not-modified without a side-car but with a fresh server token: create
    /// the side-car with it; report a cache hit.
    CreateSidecar(String),
    /// Not-modified with nothing to update; report a cache hit.
    KeepAsIs,
    /// Success: stream the body over the artifact; then set the artifact's
    /// modification time when the origin supplied a usable timestamp, and
    /// persist the token when it supplied one. Report a download.
    StoreArtifact { set_mtime: Option<i64>, token: Option<String> },
    /// Any other status: delete both artifact and side-car and fail with the
    /// status embedded.
    Purge(u16),
}

/// Mathematical image of a response action.
pub enum ActionModel {
    TouchSidecar,
    CreateSidecar(Seq<char>),
    KeepAsIs,
    StoreArtifact { set_mtime: Option<i64>, token: Option<Seq<char>> },
    Purge(u16),
}

impl View for ResponseAction {
    type V = ActionModel;

    open spec fn view(&self) -> ActionModel {
        match self {
            ResponseAction::TouchSidecar => ActionModel::TouchSidecar,
            ResponseAction::CreateSidecar(t) => ActionModel::CreateSidecar(t@),
            ResponseAction::KeepAsIs => ActionModel::KeepAsIs,
            ResponseAction::StoreArtifact { set_mtime, token } => ActionModel::StoreArtifact {
                set_mtime: *set_mtime,
                token: match token {
                    Some(t) => Some(t@),
                    None => None,
                },
            },
            ResponseAction::Purge(s) => ActionModel::Purge(*s),
        }
    }
}

/// The response handling rule: 304 restarts the trust window (creating the
/// side-car when the origin handed a token and none exists), 200 stores the
/// body and whatever revalidation material came with it, and anything else
/// purges the cache.
pub open spec fn response_action_spec(
    status: u16,
    sidecar_exists: bool,
    etag: Option<Seq<char>>,
    last_modified: Option<Seq<char>>,
) -> ActionModel {
    if status == 304 {
        if sidecar_exists {
            ActionModel::TouchSidecar
        } else {
            match etag {
                Some(t) => ActionModel::CreateSidecar(t),
                None => ActionModel::KeepAsIs,
            }
        }
    } else if status == 200 {
        ActionModel::StoreArtifact {
            set_mtime: match last_modified {
                Some(s) => rfc2822_timestamp_of(s),
                None => None,
            },
            token: etag,
        }
    } else {
        ActionModel::Purge(status)
    }
}

/// The mathematical image of an optional owned string.
pub open spec fn opt_view(o: Option<String>) -> Option<Seq<char>> {
    match o {
        Some(t) => Some(t@),
        None => None,
    }
}

/// Decides how to reconcile the cache with a response of the given status
/// and revalidation headers, following `response_action_spec` exactly.
pub fn plan_response(
    status: u16,
    sidecar_exists: bool,
    etag: &Option<String>,
    last_modified: &Option<String>,
) -> (r: ResponseAction)
    ensures
        r@ == response_action_spec(status, sidecar_exists, opt_view(*etag), opt_view(*last_modified)),
{
    if status == 304 {
        if sidecar_exists {
            ResponseAction::TouchSidecar
        } else {
            match etag {
                Some(t) => ResponseAction::CreateSidecar(t.clone()),
                None => ResponseAction::KeepAsIs,
            }
        }
    } else if status == 200 {
        let set_mtime: Option<i64> = match last_modified {
            Some(s) => parse_rfc2822(s.as_str()),
            None => None,
        };
        let token: Option<String> = match etag {
            Some(t) => Some(t.clone()),
            None => None,
        };
        ResponseAction::StoreArtifact { set_mtime, token }
    } else {
        ResponseAction::Purge(status)
    }
}

/// What a fetch reports once its plan and, if any, its response action have
/// run their course.
pub enum FetchOutcome {
    /// The artifact on disk is current; no download happened.
    Cached,
    /// The artifact was downloaded anew.
    Downloaded,
}

/// The action rewrites the artifact's bytes.
pub open spec fn writes_artifact(a: ActionModel) -> bool {
    a is StoreArtifact
}

/// The action deletes the artifact.
pub open spec fn deletes_artifact(a: ActionModel) -> bool {
    a is Purge
}

/// The outcome each response action reports; `None` is the failure of the
/// purge path.
pub fn action_outcome(action: &ResponseAction) -> (r: Option<FetchOutcome>)
    ensures
        action@ is Purge <==> r is None,
        (action@ is TouchSidecar || action@ is CreateSidecar || action@ is KeepAsIs) <==> (
        r matches Some(o) && o is Cached),
        action@ is StoreArtifact <==> (r matches Some(o) && o is Downloaded),
{
    match action {
        ResponseAction::TouchSidecar => Some(FetchOutcome::Cached),
        ResponseAction::CreateSidecar(_) => Some(FetchOutcome::Cached),
        ResponseAction::KeepAsIs => Some(FetchOutcome::Cached),
        ResponseAction::StoreArtifact { .. } => Some(FetchOutcome::Downloaded),
        ResponseAction::Purge(_) => None,
    }
}

/// The side-car token file's path for an artifact at `artifact`: the same
/// path with ".etag" appended — never the artifact's own path.
pub fn sidecar_path(artifact: &str) -> (r: String)
    ensures
        r@ == artifact@ + ".etag"@,
        r@ != artifact@,
{
    proof {
        reveal_strlit(".etag");
    }
    let mut s = artifact.to_owned();
    s.append(".etag");
    proof {
        assert(s@.len() == artifact@.len() + 5);
    }
    s
}

/// Idempotence of caching: while the side-car's age stays within the
/// revalidation window, every fetch decision is a cache hit — no network
/// request and no change to the files on disk — so, the files being left as
/// they are, a repeated fetch within the window is a cache hit again,
/// whatever its age reads.
pub proof fn lemma_cache_idempotence(p: ProbeModel, window: u64, age2: u64)
    requires
        p.artifact_exists,
        p.sidecar_exists,
        p.sidecar_age matches Some(age) && age <= window,
        age2 <= window,
    ensures
        fetch_plan_spec(p, window) == PlanModel::UseCache,
        fetch_plan_spec(ProbeModel { sidecar_age: Some(age2), ..p }, window)
            == PlanModel::UseCache,
{
}

/// Revalidation correctness: a stale side-car holding a valid token yields
/// exactly one request, conditional on that token; a not-modified answer
/// then only refreshes the side-car's timestamp — the artifact's bytes are
/// neither rewritten nor deleted — and the fetch reports a cache hit.
pub proof fn lemma_revalidation_correctness(
    p: ProbeModel,
    window: u64,
    etag: Option<Seq<char>>,
    last_modified: Option<Seq<char>>,
)
    requires
        p.artifact_exists,
        p.sidecar_exists,
        p.sidecar_age matches Some(age) && age > window,
        p.sidecar_token matches Some(t) && header_ok_of(t),
    ensures
        fetch_plan_spec(p, window) == PlanModel::Request(
            RequestModel {
                precondition: PrecondModel::IfNoneMatch(p.sidecar_token->Some_0),
                drop_sidecar: false,
            },
        ),
        response_action_spec(304, true, etag, last_modified) == ActionModel::TouchSidecar,
        !writes_artifact(ActionModel::TouchSidecar),
        !deletes_artifact(ActionModel::TouchSidecar),
{
}

/// Cache corruption recovery: when the stale side-car's token is unreadable
/// or no valid header value, the decision discards the side-car and fetches
/// unconditionally — the corruption is healed locally, and no decision path
/// reports it as an error.
pub proof fn lemma_corruption_recovery(p: ProbeModel, window: u64)
    requires
        p.artifact_exists,
        p.sidecar_exists,
        p.sidecar_age matches Some(age) && age > window,
        p.sidecar_token is None || !header_ok_of(p.sidecar_token->Some_0),
    ensures
        fetch_plan_spec(p, window) == PlanModel::Request(
            RequestModel { precondition: PrecondModel::Unconditional, drop_sidecar: true },
        ),
{
}

} // verus!
