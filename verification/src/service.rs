//! The decisions of the service: which endpoint a request is for, and what each step of
//! answering a stats request leads to.
use vstd::prelude::*;

use crate::processor::{
    all_edges, bytes_total, build_stats, color_in, contributed_repos, counted_edges, is_top, kept,
    language_view, languages_ranked, optional_text, process_repos, shown_languages, shown_name,
    star_sum, user_repos,
};
use crate::rate_limit::{
    is_rate_write, rate_write, stored_at, GlobalCheckResult, PendingWrite, RateDecision,
};
use crate::text::{cap_u32, contains_text, has_substring, same_text};
use crate::types::{
    is_valid_login, lowercase, GitHubStats, GqlResp, GqlUser, Repo, RepoContribution, Username,
};

verus! {

/// Seconds a computed answer is kept in the shared cache.
pub const CACHE_TTL: u64 = 300;

/// The version the service reports.
pub const VERSION: &'static str = "1.0.0";

/// The endpoints of the service.
#[derive(Debug, Clone, Copy, PartialEq, Eq, Structural)]
pub enum Route {
    /// A cross-origin preflight request.
    Preflight,
    /// The service description.
    Root,
    /// The health check.
    Health,
    /// The statistics of one user.
    Stats,
    /// Anything else.
    NotFound,
}

/// The endpoint a request is for: any `OPTIONS` request is a preflight; otherwise by path.
pub open spec fn route_of(is_options: bool, path: Seq<char>) -> Route {
    if is_options {
        Route::Preflight
    } else if path == "/"@ || path.len() == 0 {
        Route::Root
    } else if path == "/health"@ {
        Route::Health
    } else if path == "/v1/stats"@ {
        Route::Stats
    } else {
        Route::NotFound
    }
}

/// The endpoint a request with method `OPTIONS` (or not) and path `path` is for.
pub fn route(is_options: bool, path: &str) -> (r: Route)
    ensures
        r == route_of(is_options, path@),
{
    if is_options {
        Route::Preflight
    } else if same_text(path, "/") || path.is_empty() {
        Route::Root
    } else if same_text(path, "/health") {
        Route::Health
    } else if same_text(path, "/v1/stats") {
        Route::Stats
    } else {
        Route::NotFound
    }
}

/// An error answer: its status, its message, and the rate-limit headers it carries, if any.
#[derive(Debug)]
pub struct ErrorReply {
    pub status: u16,
    pub message: String,
    pub rate_info: Option<(u32, u64)>,
}

fn reply(status: u16, message: &str, rate_info: Option<(u32, u64)>) -> (e: ErrorReply)
    ensures
        e.status == status,
        e.message@ == message@,
        e.rate_info == rate_info,
{
    ErrorReply { status, message: message.to_owned(), rate_info }
}

/// Why a stats request is refused.
#[derive(Debug, Clone, Copy, PartialEq, Eq, Structural)]
pub enum Refusal {
    /// The login is malformed.
    InvalidLogin,
    /// The service has no GitHub token.
    MissingToken,
    /// The client has used its requests of the minute.
    ClientLimit,
    /// The minute's distinct logins are used up and this one is new.
    LoginLimit,
    /// The client has used its budget for this login, or is blocked for it.
    RateLimit,
    /// GitHub's own rate limit stopped the request.
    GitHubRateLimited,
    /// GitHub could not be asked.
    GitHubUnavailable,
    /// GitHub does not know the user.
    UserNotFound,
}

/// The status, the message and the rate-limit headers of each refusal.
pub open spec fn refusal_answer(r: Refusal) -> (u16, Seq<char>, Option<(u32, u64)>) {
    match r {
        Refusal::InvalidLogin => (400, "Invalid username format"@, None),
        Refusal::MissingToken => (500, "Server configuration error"@, None),
        Refusal::ClientLimit => (429, "Too many requests. Slow down."@, Some((0u32, 60u64))),
        Refusal::LoginLimit => (
            429,
            "Too many requests for this user. Try again in a minute."@,
            Some((0u32, 60u64)),
        ),
        Refusal::RateLimit => (
            429,
            "Rate limit exceeded. Try again in 5 minutes."@,
            Some((0u32, 300u64)),
        ),
        Refusal::GitHubRateLimited => (503, "GitHub API rate limit exceeded"@, None),
        Refusal::GitHubUnavailable => (502, "Failed to fetch data from GitHub"@, None),
        Refusal::UserNotFound => (404, "User not found"@, None),
    }
}

/// The answer refusing a stats request for `r`.
pub fn refusal_reply(r: Refusal) -> (e: ErrorReply)
    ensures
        (e.status, e.message@, e.rate_info) == refusal_answer(r),
{
    match r {
        Refusal::InvalidLogin => reply(400, "Invalid username format", None),
        Refusal::MissingToken => reply(500, "Server configuration error", None),
        Refusal::ClientLimit => reply(429, "Too many requests. Slow down.", Some((0, 60))),
        Refusal::LoginLimit => reply(
            429,
            "Too many requests for this user. Try again in a minute.",
            Some((0, 60)),
        ),
        Refusal::RateLimit => reply(
            429,
            "Rate limit exceeded. Try again in 5 minutes.",
            Some((0, 300)),
        ),
        Refusal::GitHubRateLimited => reply(503, "GitHub API rate limit exceeded", None),
        Refusal::GitHubUnavailable => reply(502, "Failed to fetch data from GitHub", None),
        Refusal::UserNotFound => reply(404, "User not found", None),
    }
}

/// The answer for a path that names no endpoint.
pub fn not_found() -> (e: ErrorReply)
    ensures
        e.status == 404,
        e.message@ == "Not found"@,
        e.rate_info is None,
{
    reply(404, "Not found", None)
}

/// The requested login, or the answer refusing a malformed one.
pub fn requested_user(raw: &str) -> (r: Result<Username, ErrorReply>)
    ensures
        r is Ok <==> is_valid_login(raw@),
        r matches Ok(u) ==> u@ == lowercase(raw@),
        r matches Err(e) ==> e.status == 400 && e.message@ == "Invalid username format"@
            && e.rate_info is None,
{
    match Username::new(raw) {
        Some(u) => Ok(u),
        None => Err(refusal_reply(Refusal::InvalidLogin)),
    }
}

/// The key under which the answer for `user` is cached.
pub fn cache_key(user: &Username) -> (k: String)
    ensures
        k@ == "cache:"@ + user@,
{
    let mut k = "cache:".to_owned();
    k.append(user.as_str());
    k
}

/// The shared-cache write of the answer computed for `user`: its JSON text `json` under the
/// user's cache key, kept for `CACHE_TTL` seconds.
pub fn shared_cache_write(user: &Username, json: String) -> (w: PendingWrite)
    ensures
        w.key@ == "cache:"@ + user@,
        w.value@ == json@,
        w.ttl == CACHE_TTL,
{
    PendingWrite { key: cache_key(user), value: json, ttl: CACHE_TTL }
}

/// The answer when the service has no GitHub token to ask with.
pub fn missing_token(token: &str) -> (r: Option<ErrorReply>)
    ensures
        r is Some <==> token@.len() == 0,
        r matches Some(e) ==> e.status == 500 && e.message@ == "Server configuration error"@
            && e.rate_info is None,
{
    if token.is_empty() {
        Some(refusal_reply(Refusal::MissingToken))
    } else {
        None
    }
}

/// The answer when a global limit refuses the request: the client's limit first, then the
/// login's; nothing when neither does.
pub fn global_limit_reply(res: &GlobalCheckResult) -> (r: Option<ErrorReply>)
    ensures
        r is None <==> !res.global_ip_blocked && !res.username_blocked,
        res.global_ip_blocked ==> (r matches Some(e) && e.status == 429 && e.message@
            == "Too many requests. Slow down."@ && e.rate_info == Some((0u32, 60u64))),
        !res.global_ip_blocked && res.username_blocked ==> (r matches Some(e) && e.status == 429
            && e.message@ == "Too many requests for this user. Try again in a minute."@
            && e.rate_info == Some((0u32, 60u64))),
{
    if res.global_ip_blocked {
        Some(refusal_reply(Refusal::ClientLimit))
    } else if res.username_blocked {
        Some(refusal_reply(Refusal::LoginLimit))
    } else {
        None
    }
}

/// What the per-client, per-login decision leads to: the rate-limit figures to answer with
/// when the request is admitted, else the refusal for five minutes; and the store write the
/// decision calls for (the new counter, or the block).
pub fn rate_limit_outcome(decision: RateDecision) -> (r: (
    Result<(u32, u64), ErrorReply>,
    Option<PendingWrite>,
))
    ensures
        r.0 is Ok <==> decision is Admitted,
        r.0 matches Err(e) ==> e.status == 429 && e.message@
            == "Rate limit exceeded. Try again in 5 minutes."@ && e.rate_info == Some(
            (0u32, 300u64),
        ),
        decision is Blocked ==> r.1 is None,
        decision matches RateDecision::LimitReached(ws) ==> is_rate_write(ws, r.1),
        decision matches RateDecision::Admitted(info, ws) ==> (r.0 matches Ok(i) && i == info
            && is_rate_write(ws, r.1)),
{
    match decision {
        RateDecision::Blocked => (Err(refusal_reply(Refusal::RateLimit)), None),
        RateDecision::LimitReached(writes) => (
            Err(refusal_reply(Refusal::RateLimit)),
            rate_write(writes),
        ),
        RateDecision::Admitted(info, writes) => (Ok(info), rate_write(writes)),
    }
}

/// The answer when GitHub could not be asked: its own rate limit (the failure mentions
/// `rate limit`) is a 503, anything else a 502.
pub fn github_failure(msg: &str) -> (e: ErrorReply)
    ensures
        e.rate_info is None,
        has_substring(msg@, "rate limit"@) ==> e.status == 503 && e.message@
            == "GitHub API rate limit exceeded"@,
        !has_substring(msg@, "rate limit"@) ==> e.status == 502 && e.message@
            == "Failed to fetch data from GitHub"@,
{
    if contains_text(msg, "rate limit") {
        refusal_reply(Refusal::GitHubRateLimited)
    } else {
        refusal_reply(Refusal::GitHubUnavailable)
    }
}

fn repositories_of(contribs: Vec<RepoContribution>) -> (v: Vec<Repo>)
    ensures
        v@ == contributed_repos(contribs@),
{
    let ghost all = contributed_repos(contribs@);
    let mut rest = contribs;
    let mut out: Vec<Repo> = Vec::new();
    while rest.len() > 0
        invariant
            out@ + contributed_repos(rest@) == all,
        decreases rest@.len(),
    {
        let ghost before = rest@;
        let c = rest.remove(0);
        proof {
            before.remove_ensures(0);
            assert(contributed_repos(before) == seq![c.repository] + contributed_repos(rest@));
        }
        let ghost out_before = out@;
        out.push(c.repository);
        proof {
            assert(out@ + contributed_repos(rest@) == out_before + contributed_repos(before));
        }
    }
    proof {
        assert(out@ + contributed_repos(rest@) == out@);
    }
    out
}

fn contributions_of(repos: Vec<Repo>) -> (v: Vec<RepoContribution>)
    ensures
        contributed_repos(v@) == repos@,
{
    let ghost all = repos@;
    let mut rest = repos;
    let mut out: Vec<RepoContribution> = Vec::new();
    while rest.len() > 0
        invariant
            contributed_repos(out@) + rest@ == all,
        decreases rest@.len(),
    {
        let ghost before = rest@;
        let r = rest.remove(0);
        proof {
            before.remove_ensures(0);
            assert(before == seq![r] + rest@);
        }
        let ghost out_before = out@;
        out.push(RepoContribution { repository: r });
        proof {
            assert(contributed_repos(out@) == contributed_repos(out_before).push(r));
            assert(contributed_repos(out@) + rest@ == contributed_repos(out_before) + before);
        }
    }
    proof {
        assert(contributed_repos(out@) + rest@ == contributed_repos(out@));
    }
    out
}

/// The statistics answered for `user` from GitHub's reply, or the answer for a user GitHub
/// does not know.
pub fn stats_from_response(resp: GqlResp, user: &Username) -> (r: Result<GitHubStats, ErrorReply>)
    ensures
        r is Err <==> resp.data is None,
        r matches Err(e) ==> e.status == 404 && e.message@ == "User not found"@
            && e.rate_info is None,
        r matches Ok(s) ==> {
            let u = resp.data->0.user;
            let k = kept(user_repos(u));
            &&& s.total_repos == k.len() as u32
            &&& s.total_stars == cap_u32(star_sum(k))
            &&& is_top(s.most_starred_repo, k)
            &&& exists|langs: Seq<(String, u64)>|
                languages_ranked(langs, counted_edges(k)) && language_view(s.languages@)
                    == shown_languages(langs, bytes_total(langs))
            &&& forall|i: int|
                0 <= i < s.languages@.len() ==> optional_text(#[trigger] s.languages@[i].color)
                    == color_in(all_edges(user_repos(u)), s.languages@[i].name@)
            &&& s.total_contributions
                == u.contributions_collection.contribution_calendar.total_contributions
            &&& s.followers == u.followers.total_count
            &&& s.following == u.following.total_count
            &&& s.total_commits == u.contributions_collection.total_commit_contributions
            &&& s.total_prs == u.contributions_collection.total_pull_request_contributions
            &&& s.total_issues == u.contributions_collection.total_issue_contributions
            &&& s.account_created_at@ == u.created_at@
            &&& s.avatar_url@ == u.avatar_url@
            &&& s.display_name@ == shown_name(u.name, user@)
            &&& s.bio@ == (match u.bio {
                Some(b) => b@,
                None => Seq::<char>::empty(),
            })
        },
{
    let mut u = match resp.data {
        Some(d) => d.user,
        None => {
            return Err(refusal_reply(Refusal::UserNotFound));
        },
    };
    let ghost u0 = u;
    let mut contribs: Vec<RepoContribution> = Vec::new();
    std::mem::swap(&mut contribs, &mut u.contributions_collection.commit_contributions_by_repository);
    let contributed = repositories_of(contribs);
    let (repo_cnt, stars, langs, top) = process_repos(
        u.repositories.nodes.as_slice(),
        u.public_repositories.nodes.as_slice(),
        contributed.as_slice(),
    );
    let ghost lv = langs@;
    proof {
        assert(u.repositories.nodes@ + u.public_repositories.nodes@ + contributed@ == user_repos(u0));
    }
    u.contributions_collection.commit_contributions_by_repository = contributions_of(contributed);
    proof {
        assert(user_repos(u) == user_repos(u0));
    }
    let s = build_stats(u, user.as_str(), repo_cnt, stars, langs, top);
    proof {
        assert(languages_ranked(lv, counted_edges(kept(user_repos(u0)))));
    }
    Ok(s)
}

// ---------------------------------------------------------------------------------------
// Answering a stats request, step by step
// ---------------------------------------------------------------------------------------

/// What the service reports of the rate limit when the limits are not consulted: an answer
/// from the shared cache, or a service without a store for the limits.
pub const UNMETERED_REMAINING: u32 = 10;

/// The reset reported with `UNMETERED_REMAINING`, in seconds.
pub const UNMETERED_RESET: u64 = 60;

/// Where answering a stats request stands.
#[derive(Debug, Clone, Copy, PartialEq, Eq, Structural)]
pub enum StatsStage {
    /// The requested login is being checked.
    CheckingLogin,
    /// The edge cache is being looked in.
    CheckingEdgeCache,
    /// The shared cache is being looked in.
    CheckingSharedCache,
    /// The GitHub token is being read; `metered` when a store holds the rate limits.
    CheckingToken { metered: bool },
    /// The client's and the login's limits of the minute are being checked.
    CheckingGlobalLimits,
    /// The client's budget for the login is being checked.
    CheckingRateLimit,
    /// GitHub is being asked; the rate limit to report with its answer.
    AskingGitHub { remaining: u32, reset: u64 },
    /// The request has been answered.
    Answered,
}

/// What the last step found out.
#[derive(Debug, Clone, Copy, PartialEq, Eq, Structural)]
pub enum StatsEvent {
    LoginChecked { valid: bool },
    EdgeCacheLooked { hit: bool, store_bound: bool },
    SharedCacheLooked { found: bool },
    TokenRead { present: bool },
    GlobalLimitsChecked { client_blocked: bool, login_blocked: bool },
    RateLimitChecked { refused: bool, remaining: u32, reset: u64 },
    GitHubFailed { rate_limited: bool },
    GitHubAnswered { user_found: bool },
}

/// What to do next.
#[derive(Debug, Clone, Copy, PartialEq, Eq, Structural)]
pub enum StatsAction {
    CheckLogin,
    CheckEdgeCache,
    CheckSharedCache,
    ReadToken,
    CheckGlobalLimits,
    CheckRateLimit,
    AskGitHub,
    /// Answer with what the edge cache holds.
    AnswerFromEdgeCache,
    /// Answer with the statistics, the rate limit to report, and whether they came from the
    /// shared cache.
    AnswerStats { remaining: u32, reset: u64, cached: bool },
    Refuse(Refusal),
    /// Nothing: the request has been answered.
    Stop,
}

/// The action a stage waits to have done.
pub open spec fn pending_action(stage: StatsStage) -> StatsAction {
    match stage {
        StatsStage::CheckingLogin => StatsAction::CheckLogin,
        StatsStage::CheckingEdgeCache => StatsAction::CheckEdgeCache,
        StatsStage::CheckingSharedCache => StatsAction::CheckSharedCache,
        StatsStage::CheckingToken { .. } => StatsAction::ReadToken,
        StatsStage::CheckingGlobalLimits => StatsAction::CheckGlobalLimits,
        StatsStage::CheckingRateLimit => StatsAction::CheckRateLimit,
        StatsStage::AskingGitHub { .. } => StatsAction::AskGitHub,
        StatsStage::Answered => StatsAction::Stop,
    }
}

/// The order of the steps: the login, the edge cache, the shared cache (when a store is
/// bound), the token, then (when a store is bound) the client's and the login's limits of the
/// minute and the client's budget for the login, and only then GitHub. A cached answer
/// reports `UNMETERED_REMAINING` and `UNMETERED_RESET`, as does an answer of a service
/// without a store; an admitted request reports its budget. Each refusal ends the request.
/// An event that does not answer the stage's step changes nothing.
pub open spec fn stats_step(stage: StatsStage, event: StatsEvent) -> (StatsStage, StatsAction) {
    match (stage, event) {
        (StatsStage::CheckingLogin, StatsEvent::LoginChecked { valid }) => if valid {
            (StatsStage::CheckingEdgeCache, StatsAction::CheckEdgeCache)
        } else {
            (StatsStage::Answered, StatsAction::Refuse(Refusal::InvalidLogin))
        },
        (StatsStage::CheckingEdgeCache, StatsEvent::EdgeCacheLooked { hit, store_bound }) => if hit {
            (StatsStage::Answered, StatsAction::AnswerFromEdgeCache)
        } else if store_bound {
            (StatsStage::CheckingSharedCache, StatsAction::CheckSharedCache)
        } else {
            (StatsStage::CheckingToken { metered: false }, StatsAction::ReadToken)
        },
        (StatsStage::CheckingSharedCache, StatsEvent::SharedCacheLooked { found }) => if found {
            (
                StatsStage::Answered,
                StatsAction::AnswerStats {
                    remaining: UNMETERED_REMAINING,
                    reset: UNMETERED_RESET,
                    cached: true,
                },
            )
        } else {
            (StatsStage::CheckingToken { metered: true }, StatsAction::ReadToken)
        },
        (StatsStage::CheckingToken { metered }, StatsEvent::TokenRead { present }) => if !present {
            (StatsStage::Answered, StatsAction::Refuse(Refusal::MissingToken))
        } else if metered {
            (StatsStage::CheckingGlobalLimits, StatsAction::CheckGlobalLimits)
        } else {
            (
                StatsStage::AskingGitHub { remaining: UNMETERED_REMAINING, reset: UNMETERED_RESET },
                StatsAction::AskGitHub,
            )
        },
        (
            StatsStage::CheckingGlobalLimits,
            StatsEvent::GlobalLimitsChecked { client_blocked, login_blocked },
        ) => if client_blocked {
            (StatsStage::Answered, StatsAction::Refuse(Refusal::ClientLimit))
        } else if login_blocked {
            (StatsStage::Answered, StatsAction::Refuse(Refusal::LoginLimit))
        } else {
            (StatsStage::CheckingRateLimit, StatsAction::CheckRateLimit)
        },
        (
            StatsStage::CheckingRateLimit,
            StatsEvent::RateLimitChecked { refused, remaining, reset },
        ) => if refused {
            (StatsStage::Answered, StatsAction::Refuse(Refusal::RateLimit))
        } else {
            (StatsStage::AskingGitHub { remaining, reset }, StatsAction::AskGitHub)
        },
        (StatsStage::AskingGitHub { .. }, StatsEvent::GitHubFailed { rate_limited }) => (
            StatsStage::Answered,
            StatsAction::Refuse(
                if rate_limited {
                    Refusal::GitHubRateLimited
                } else {
                    Refusal::GitHubUnavailable
                },
            ),
        ),
        (StatsStage::AskingGitHub { remaining, reset }, StatsEvent::GitHubAnswered { user_found }) => {
            if user_found {
                (
                    StatsStage::Answered,
                    StatsAction::AnswerStats { remaining, reset, cached: false },
                )
            } else {
                (StatsStage::Answered, StatsAction::Refuse(Refusal::UserNotFound))
            }
        },
        _ => (stage, pending_action(stage)),
    }
}

/// Where a stats request starts, and its first step.
pub fn stats_start() -> (r: (StatsStage, StatsAction))
    ensures
        r == (StatsStage::CheckingLogin, StatsAction::CheckLogin),
{
    (StatsStage::CheckingLogin, StatsAction::CheckLogin)
}

fn pending(stage: StatsStage) -> (a: StatsAction)
    ensures
        a == pending_action(stage),
{
    match stage {
        StatsStage::CheckingLogin => StatsAction::CheckLogin,
        StatsStage::CheckingEdgeCache => StatsAction::CheckEdgeCache,
        StatsStage::CheckingSharedCache => StatsAction::CheckSharedCache,
        StatsStage::CheckingToken { .. } => StatsAction::ReadToken,
        StatsStage::CheckingGlobalLimits => StatsAction::CheckGlobalLimits,
        StatsStage::CheckingRateLimit => StatsAction::CheckRateLimit,
        StatsStage::AskingGitHub { .. } => StatsAction::AskGitHub,
        StatsStage::Answered => StatsAction::Stop,
    }
}

/// The next stage of a stats request, and what to do, once the step of `stage` found `event`.
pub fn next_step(stage: StatsStage, event: StatsEvent) -> (r: (StatsStage, StatsAction))
    ensures
        r == stats_step(stage, event),
{
    match (stage, event) {
        (StatsStage::CheckingLogin, StatsEvent::LoginChecked { valid }) => if valid {
            (StatsStage::CheckingEdgeCache, StatsAction::CheckEdgeCache)
        } else {
            (StatsStage::Answered, StatsAction::Refuse(Refusal::InvalidLogin))
        },
        (StatsStage::CheckingEdgeCache, StatsEvent::EdgeCacheLooked { hit, store_bound }) => if hit {
            (StatsStage::Answered, StatsAction::AnswerFromEdgeCache)
        } else if store_bound {
            (StatsStage::CheckingSharedCache, StatsAction::CheckSharedCache)
        } else {
            (StatsStage::CheckingToken { metered: false }, StatsAction::ReadToken)
        },
        (StatsStage::CheckingSharedCache, StatsEvent::SharedCacheLooked { found }) => if found {
            (
                StatsStage::Answered,
                StatsAction::AnswerStats {
                    remaining: UNMETERED_REMAINING,
                    reset: UNMETERED_RESET,
                    cached: true,
                },
            )
        } else {
            (StatsStage::CheckingToken { metered: true }, StatsAction::ReadToken)
        },
        (StatsStage::CheckingToken { metered }, StatsEvent::TokenRead { present }) => if !present {
            (StatsStage::Answered, StatsAction::Refuse(Refusal::MissingToken))
        } else if metered {
            (StatsStage::CheckingGlobalLimits, StatsAction::CheckGlobalLimits)
        } else {
            (
                StatsStage::AskingGitHub { remaining: UNMETERED_REMAINING, reset: UNMETERED_RESET },
                StatsAction::AskGitHub,
            )
        },
        (
            StatsStage::CheckingGlobalLimits,
            StatsEvent::GlobalLimitsChecked { client_blocked, login_blocked },
        ) => if client_blocked {
            (StatsStage::Answered, StatsAction::Refuse(Refusal::ClientLimit))
        } else if login_blocked {
            (StatsStage::Answered, StatsAction::Refuse(Refusal::LoginLimit))
        } else {
            (StatsStage::CheckingRateLimit, StatsAction::CheckRateLimit)
        },
        (
            StatsStage::CheckingRateLimit,
            StatsEvent::RateLimitChecked { refused, remaining, reset },
        ) => if refused {
            (StatsStage::Answered, StatsAction::Refuse(Refusal::RateLimit))
        } else {
            (StatsStage::AskingGitHub { remaining, reset }, StatsAction::AskGitHub)
        },
        (StatsStage::AskingGitHub { .. }, StatsEvent::GitHubFailed { rate_limited }) => (
            StatsStage::Answered,
            StatsAction::Refuse(
                if rate_limited {
                    Refusal::GitHubRateLimited
                } else {
                    Refusal::GitHubUnavailable
                },
            ),
        ),
        (StatsStage::AskingGitHub { remaining, reset }, StatsEvent::GitHubAnswered { user_found }) => {
            if user_found {
                (
                    StatsStage::Answered,
                    StatsAction::AnswerStats { remaining, reset, cached: false },
                )
            } else {
                (StatsStage::Answered, StatsAction::Refuse(Refusal::UserNotFound))
            }
        },
        _ => (stage, pending(stage)),
    }
}

/// What the global checks found, as a step of a stats request.
pub fn global_limits_event(res: &GlobalCheckResult) -> (e: StatsEvent)
    ensures
        e == (StatsEvent::GlobalLimitsChecked {
            client_blocked: res.global_ip_blocked,
            login_blocked: res.username_blocked,
        }),
{
    StatsEvent::GlobalLimitsChecked {
        client_blocked: res.global_ip_blocked,
        login_blocked: res.username_blocked,
    }
}

/// What the per-client, per-login check found, as a step of a stats request: refused unless
/// admitted, with the budget left and the end of the window when admitted.
pub fn rate_limit_event(decision: &RateDecision) -> (e: StatsEvent)
    ensures
        decision matches RateDecision::Admitted(info, _) ==> e == (StatsEvent::RateLimitChecked {
            refused: false,
            remaining: info.0,
            reset: info.1,
        }),
        !(decision is Admitted) ==> e == (StatsEvent::RateLimitChecked {
            refused: true,
            remaining: 0,
            reset: 0,
        }),
{
    match decision {
        RateDecision::Admitted(info, _) => StatsEvent::RateLimitChecked {
            refused: false,
            remaining: info.0,
            reset: info.1,
        },
        _ => StatsEvent::RateLimitChecked { refused: true, remaining: 0, reset: 0 },
    }
}

/// A failure to ask GitHub, as a step of a stats request: GitHub's own rate limit when the
/// failure mentions `rate limit`.
pub fn github_failure_event(msg: &str) -> (e: StatsEvent)
    ensures
        e == (StatsEvent::GitHubFailed { rate_limited: has_substring(msg@, "rate limit"@) }),
{
    StatsEvent::GitHubFailed { rate_limited: contains_text(msg, "rate limit") }
}

/// Where a stats request stands after the events `es`, and what to do then.
pub open spec fn stats_run(es: Seq<StatsEvent>) -> (StatsStage, StatsAction)
    decreases es.len(),
{
    if es.len() == 0 {
        (StatsStage::CheckingLogin, StatsAction::CheckLogin)
    } else {
        stats_step(stats_run(es.drop_last()).0, es.last())
    }
}

/// The token was found among the events.
pub open spec fn token_found(es: Seq<StatsEvent>) -> bool {
    exists|i: int| 0 <= i < es.len() && es[i] == (StatsEvent::TokenRead { present: true })
}

/// The requests were not metered: no store was bound.
pub open spec fn unmetered(es: Seq<StatsEvent>) -> bool {
    exists|i: int|
        0 <= i < es.len() && es[i] == (StatsEvent::EdgeCacheLooked { hit: false, store_bound: false })
}

/// The global limits let the request through.
pub open spec fn global_limits_passed(es: Seq<StatsEvent>) -> bool {
    exists|i: int|
        0 <= i < es.len() && es[i] == (StatsEvent::GlobalLimitsChecked {
            client_blocked: false,
            login_blocked: false,
        })
}

/// The client's budget for the login admitted the request.
pub open spec fn rate_limit_passed(es: Seq<StatsEvent>) -> bool {
    exists|i: int|
        0 <= i < es.len() && (#[trigger] es[i]) matches StatsEvent::RateLimitChecked { refused: false, .. }
}

/// What has been established by the time a stats request reaches each stage.
spec fn stage_established(stage: StatsStage, es: Seq<StatsEvent>) -> bool {
    match stage {
        StatsStage::CheckingToken { metered } => !metered ==> unmetered(es),
        StatsStage::CheckingGlobalLimits => token_found(es),
        StatsStage::CheckingRateLimit => token_found(es) && global_limits_passed(es),
        StatsStage::AskingGitHub { .. } => token_found(es) && (unmetered(es) || (
        global_limits_passed(es) && rate_limit_passed(es))),
        _ => true,
    }
}

proof fn lemma_established_grows(es: Seq<StatsEvent>, e: StatsEvent)
    ensures
        token_found(es) ==> token_found(es.push(e)),
        unmetered(es) ==> unmetered(es.push(e)),
        global_limits_passed(es) ==> global_limits_passed(es.push(e)),
        rate_limit_passed(es) ==> rate_limit_passed(es.push(e)),
        e == (StatsEvent::TokenRead { present: true }) ==> token_found(es.push(e)),
        e == (StatsEvent::EdgeCacheLooked { hit: false, store_bound: false }) ==> unmetered(
            es.push(e),
        ),
        e == (StatsEvent::GlobalLimitsChecked { client_blocked: false, login_blocked: false })
            ==> global_limits_passed(es.push(e)),
        (e matches StatsEvent::RateLimitChecked { refused: false, .. }) ==> rate_limit_passed(
            es.push(e),
        ),
{
    let n = es.push(e);
    assert(n[es.len() as int] == e);
    if token_found(es) {
        let i = choose|i: int| 0 <= i < es.len() && es[i] == (StatsEvent::TokenRead { present: true });
        assert(n[i] == es[i]);
    }
    if unmetered(es) {
        let i = choose|i: int|
            0 <= i < es.len() && es[i] == (StatsEvent::EdgeCacheLooked {
                hit: false,
                store_bound: false,
            });
        assert(n[i] == es[i]);
    }
    if global_limits_passed(es) {
        let i = choose|i: int|
            0 <= i < es.len() && es[i] == (StatsEvent::GlobalLimitsChecked {
                client_blocked: false,
                login_blocked: false,
            });
        assert(n[i] == es[i]);
    }
    if rate_limit_passed(es) {
        let i = choose|i: int|
            0 <= i < es.len() && (#[trigger] es[i]) matches StatsEvent::RateLimitChecked {
                refused: false,
                ..
            };
        assert(n[i] == es[i]);
    }
}

proof fn lemma_stage_established(es: Seq<StatsEvent>)
    ensures
        stage_established(stats_run(es).0, es),
    decreases es.len(),
{
    if es.len() > 0 {
        let p = es.drop_last();
        let e = es.last();
        lemma_stage_established(p);
        lemma_established_grows(p, e);
        assert(p.push(e) == es);
    }
}

/// GitHub is asked only with the token in hand, and, when a store holds the rate limits,
/// only after the client's and the login's limits of the minute and the client's budget for
/// the login have all let the request through: a request refused by any limit never reaches
/// GitHub.
pub proof fn lemma_github_only_after_limits(es: Seq<StatsEvent>)
    requires
        stats_run(es).1 == StatsAction::AskGitHub,
    ensures
        token_found(es),
        unmetered(es) || (global_limits_passed(es) && rate_limit_passed(es)),
{
    lemma_stage_established(es);
    if es.len() > 0 {
        let p = es.drop_last();
        lemma_stage_established(p);
        lemma_established_grows(p, es.last());
        assert(p.push(es.last()) == es);
    }
}

/// No step of the run of `es`, at any point, checks a limit or asks GitHub.
pub open spec fn leaves_limits_and_github(es: Seq<StatsEvent>) -> bool {
    forall|k: int|
        0 <= k <= es.len() ==> {
            let a = #[trigger] stats_run(es.take(k)).1;
            &&& a != StatsAction::CheckGlobalLimits
            &&& a != StatsAction::CheckRateLimit
            &&& a != StatsAction::AskGitHub
        }
}

/// The store, after `w` was written at second `at`, holds an entry under `key` at second
/// `t`.
pub open spec fn holds_entry(w: PendingWrite, at: nat, key: Seq<char>, t: nat) -> bool {
    w.key@ == key && stored_at(at, w.ttl as nat, t)
}

/// The run of a request for a valid login whose edge-cache look misses, with a store bound,
/// and whose shared-cache look finds what it finds.
pub open spec fn shared_cache_run(found: bool) -> Seq<StatsEvent> {
    seq![
        StatsEvent::LoginChecked { valid: true },
        StatsEvent::EdgeCacheLooked { hit: false, store_bound: true },
        StatsEvent::SharedCacheLooked { found },
    ]
}

/// The run of a request for a valid login whose edge-cache look hits.
pub open spec fn edge_cache_run(store_bound: bool) -> Seq<StatsEvent> {
    seq![
        StatsEvent::LoginChecked { valid: true },
        StatsEvent::EdgeCacheLooked { hit: true, store_bound },
    ]
}

/// A repeated request within `CACHE_TTL` seconds is answered from a cache, with no limit
/// checked and GitHub not asked: once the answer for `login` is written to the shared cache
/// (under its cache key, for `CACHE_TTL` seconds, as `shared_cache_write` does) at second
/// `at`, a request for `login` at a second `t` before `at + CACHE_TTL` whose edge-cache look
/// misses finds the entry and is answered with it, reporting `UNMETERED_REMAINING` and
/// `UNMETERED_RESET`; one whose edge-cache look hits is answered from the edge cache.
pub proof fn lemma_cached_answer_skips_limits_and_github(
    login: Seq<char>,
    w: PendingWrite,
    at: nat,
    t: nat,
    store_bound: bool,
)
    requires
        w.key@ == "cache:"@ + login,
        w.ttl == CACHE_TTL,
        at <= t < at + CACHE_TTL,
    ensures
        holds_entry(w, at, "cache:"@ + login, t),
        stats_run(shared_cache_run(holds_entry(w, at, "cache:"@ + login, t))) == (
        StatsStage::Answered,
        StatsAction::AnswerStats {
            remaining: UNMETERED_REMAINING,
            reset: UNMETERED_RESET,
            cached: true,
        }),
        leaves_limits_and_github(shared_cache_run(holds_entry(w, at, "cache:"@ + login, t))),
        stats_run(edge_cache_run(store_bound)) == (
        StatsStage::Answered,
        StatsAction::AnswerFromEdgeCache),
        leaves_limits_and_github(edge_cache_run(store_bound)),
{
    let es = shared_cache_run(true);
    assert(es.take(0) == Seq::<StatsEvent>::empty());
    assert(es.take(1).drop_last() == es.take(0));
    assert(es.take(2).drop_last() == es.take(1));
    assert(es.take(3).drop_last() == es.take(2));
    assert(es.take(3) == es);
    assert(stats_run(es.take(0)).1 == StatsAction::CheckLogin);
    assert(stats_run(es.take(1)).1 == StatsAction::CheckEdgeCache);
    assert(stats_run(es.take(2)).1 == StatsAction::CheckSharedCache);
    assert(stats_run(es.take(3)).1 == (StatsAction::AnswerStats {
        remaining: UNMETERED_REMAINING,
        reset: UNMETERED_RESET,
        cached: true,
    }));
    let ed = edge_cache_run(store_bound);
    assert(ed.take(0) == Seq::<StatsEvent>::empty());
    assert(ed.take(1).drop_last() == ed.take(0));
    assert(ed.take(2).drop_last() == ed.take(1));
    assert(ed.take(2) == ed);
    assert(stats_run(ed.take(0)).1 == StatsAction::CheckLogin);
    assert(stats_run(ed.take(1)).1 == StatsAction::CheckEdgeCache);
    assert(stats_run(ed.take(2)).1 == StatsAction::AnswerFromEdgeCache);
}

/// What GitHub's reply decides, whatever budget the request was admitted with: a user found
/// is answered with the statistics and that budget (not from the cache); a reply that finds
/// no user is the 404 `User not found`; a failure is the 503 when it is GitHub's own rate
/// limit and the 502 otherwise.
pub proof fn lemma_github_reply_decides(remaining: u32, reset: u64, rate_limited: bool)
    ensures
        stats_step(
            StatsStage::AskingGitHub { remaining, reset },
            StatsEvent::GitHubAnswered { user_found: true },
        ) == (StatsStage::Answered, StatsAction::AnswerStats { remaining, reset, cached: false }),
        stats_step(
            StatsStage::AskingGitHub { remaining, reset },
            StatsEvent::GitHubAnswered { user_found: false },
        ) == (StatsStage::Answered, StatsAction::Refuse(Refusal::UserNotFound)),
        refusal_answer(Refusal::UserNotFound) == (404u16, "User not found"@, None::<(u32, u64)>),
        rate_limited ==> stats_step(
            StatsStage::AskingGitHub { remaining, reset },
            StatsEvent::GitHubFailed { rate_limited },
        ) == (StatsStage::Answered, StatsAction::Refuse(Refusal::GitHubRateLimited)),
        !rate_limited ==> stats_step(
            StatsStage::AskingGitHub { remaining, reset },
            StatsEvent::GitHubFailed { rate_limited },
        ) == (StatsStage::Answered, StatsAction::Refuse(Refusal::GitHubUnavailable)),
        refusal_answer(Refusal::GitHubRateLimited).0 == 503,
        refusal_answer(Refusal::GitHubUnavailable).0 == 502,
{
}

/// The refusals that follow GitHub come from GitHub's reply alone, at any stage and on any
/// event: the 503 exactly on a failure that is GitHub's rate limit, the 502 exactly on any
/// other failure, and the 404 `User not found` exactly on a reply that finds no user, each
/// only while GitHub is being asked.
pub proof fn lemma_github_refusals_follow_the_reply(stage: StatsStage, event: StatsEvent)
    ensures
        stats_step(stage, event).1 == StatsAction::Refuse(Refusal::GitHubRateLimited) <==> (
        stage is AskingGitHub && event == StatsEvent::GitHubFailed { rate_limited: true }),
        stats_step(stage, event).1 == StatsAction::Refuse(Refusal::GitHubUnavailable) <==> (
        stage is AskingGitHub && event == StatsEvent::GitHubFailed { rate_limited: false }),
        stats_step(stage, event).1 == StatsAction::Refuse(Refusal::UserNotFound) <==> (
        stage is AskingGitHub && event == StatsEvent::GitHubAnswered { user_found: false }),
{
}

} // verus!
