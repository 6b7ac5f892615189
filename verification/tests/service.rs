use ghfetch::rate_limit::{decide_globals, decide_rate};
use ghfetch::service::{
    cache_key, github_failure, global_limit_reply, missing_token, not_found, rate_limit_outcome,
    github_failure_event, global_limits_event, next_step, rate_limit_event, refusal_reply,
    requested_user, route, shared_cache_write, stats_from_response, stats_start, Refusal, Route,
    StatsAction, StatsEvent, StatsStage, CACHE_TTL, VERSION,
};
use ghfetch::types::{
    Calendar, ClientId, ContribColl, CountConn, GqlData, GqlResp, GqlUser, LangConn, LangEdge,
    LangNode, RateConfig, Repo, RepoConn, RepoContribution, Username,
};

#[test]
fn routes() {
    assert_eq!(route(true, "/v1/stats"), Route::Preflight);
    assert_eq!(route(false, "/"), Route::Root);
    assert_eq!(route(false, ""), Route::Root);
    assert_eq!(route(false, "/health"), Route::Health);
    assert_eq!(route(false, "/v1/stats"), Route::Stats);
    assert_eq!(route(false, "/v1/stat"), Route::NotFound);
    let e = not_found();
    assert_eq!((e.status, e.message.as_str()), (404, "Not found"));
}

#[test]
fn constants() {
    assert_eq!(CACHE_TTL, 300);
    assert_eq!(VERSION, "1.0.0");
}

#[test]
fn malformed_login_is_a_400() {
    let e = requested_user("bad name").unwrap_err();
    assert_eq!(e.status, 400);
    assert_eq!(e.message, "Invalid username format");
    assert!(e.rate_info.is_none());
    assert_eq!(requested_user("Torvalds").unwrap().as_str(), "torvalds");
}

#[test]
fn cache_key_names_login() {
    assert_eq!(cache_key(&Username::new("Octo").unwrap()), "cache:octo");
}

#[test]
fn missing_token_is_a_500() {
    let e = missing_token("").unwrap();
    assert_eq!((e.status, e.message.as_str()), (500, "Server configuration error"));
    assert!(missing_token("t").is_none());
}

fn logins(n: usize) -> String {
    (0..n).map(|i| format!("user{i}")).collect::<Vec<_>>().join(",")
}

#[test]
fn global_limits_answer_429() {
    let c = ClientId("1.2.3.4".to_string());
    let u = Username::new("octo").unwrap();
    let r = decide_globals(0, &c, &u, Some("100"), Some(&logins(60)));
    let e = global_limit_reply(&r).unwrap();
    assert_eq!(e.status, 429);
    assert_eq!(e.message, "Too many requests. Slow down.");
    assert_eq!(e.rate_info, Some((0, 60)));
    let r = decide_globals(0, &c, &u, Some("5"), Some(&logins(60)));
    let e = global_limit_reply(&r).unwrap();
    assert_eq!(e.message, "Too many requests for this user. Try again in a minute.");
    assert_eq!(e.rate_info, Some((0, 60)));
    let r = decide_globals(0, &c, &u, Some("5"), Some(&logins(59)));
    assert!(global_limit_reply(&r).is_none());
}

#[test]
fn rate_limit_answers() {
    let c = ClientId("1.2.3.4".to_string());
    let u = Username::new("octo").unwrap();

    // A stored block refuses, with nothing to write.
    let (r, w) = rate_limit_outcome(decide_rate(61, &c, &u, RateConfig::default(), true, None));
    let e = r.unwrap_err();
    assert_eq!(e.status, 429);
    assert_eq!(e.message, "Rate limit exceeded. Try again in 5 minutes.");
    assert_eq!(e.rate_info, Some((0, 300)));
    assert!(w.is_none());

    // Reaching the limit refuses too, and stores the block.
    let (r, w) =
        rate_limit_outcome(decide_rate(150, &c, &u, RateConfig::default(), false, Some("30")));
    let e = r.unwrap_err();
    assert_eq!((e.status, e.rate_info), (429, Some((0, 300))));
    let w = w.unwrap();
    assert_eq!((w.key.as_str(), w.value.as_str(), w.ttl), ("block:1.2.3.4:octo", "blocked", 300));

    // An admitted request reports its budget and counts up.
    let (r, w) =
        rate_limit_outcome(decide_rate(61, &c, &u, RateConfig::default(), false, Some("2")));
    assert_eq!(r.unwrap(), (27, 120));
    let w = w.unwrap();
    assert_eq!((w.key.as_str(), w.value.as_str()), ("rl:1.2.3.4:octo:60", "3"));
}

#[test]
fn refusal_answers() {
    let cases = [
        (Refusal::InvalidLogin, 400, "Invalid username format", None),
        (Refusal::MissingToken, 500, "Server configuration error", None),
        (Refusal::ClientLimit, 429, "Too many requests. Slow down.", Some((0, 60))),
        (Refusal::LoginLimit, 429, "Too many requests for this user. Try again in a minute.", Some((0, 60))),
        (Refusal::RateLimit, 429, "Rate limit exceeded. Try again in 5 minutes.", Some((0, 300))),
        (Refusal::GitHubRateLimited, 503, "GitHub API rate limit exceeded", None),
        (Refusal::GitHubUnavailable, 502, "Failed to fetch data from GitHub", None),
        (Refusal::UserNotFound, 404, "User not found", None),
    ];
    for (r, status, msg, info) in cases {
        let e = refusal_reply(r);
        assert_eq!((e.status, e.message.as_str(), e.rate_info), (status, msg, info));
    }
}

fn run(events: &[StatsEvent]) -> Vec<StatsAction> {
    let (mut stage, first) = stats_start();
    let mut actions = vec![first];
    for &e in events {
        let (s, a) = next_step(stage, e);
        stage = s;
        actions.push(a);
    }
    actions
}

#[test]
fn metered_request_checks_every_limit_before_github() {
    let actions = run(&[
        StatsEvent::LoginChecked { valid: true },
        StatsEvent::EdgeCacheLooked { hit: false, store_bound: true },
        StatsEvent::SharedCacheLooked { found: false },
        StatsEvent::TokenRead { present: true },
        StatsEvent::GlobalLimitsChecked { client_blocked: false, login_blocked: false },
        StatsEvent::RateLimitChecked { refused: false, remaining: 29, reset: 120 },
        StatsEvent::GitHubAnswered { user_found: true },
    ]);
    assert_eq!(
        actions,
        vec![
            StatsAction::CheckLogin,
            StatsAction::CheckEdgeCache,
            StatsAction::CheckSharedCache,
            StatsAction::ReadToken,
            StatsAction::CheckGlobalLimits,
            StatsAction::CheckRateLimit,
            StatsAction::AskGitHub,
            StatsAction::AnswerStats { remaining: 29, reset: 120, cached: false },
        ]
    );
}

#[test]
fn refused_limits_never_reach_github() {
    let start = [
        StatsEvent::LoginChecked { valid: true },
        StatsEvent::EdgeCacheLooked { hit: false, store_bound: true },
        StatsEvent::SharedCacheLooked { found: false },
        StatsEvent::TokenRead { present: true },
    ];
    let mut es = start.to_vec();
    es.push(StatsEvent::GlobalLimitsChecked { client_blocked: true, login_blocked: false });
    assert_eq!(run(&es).last(), Some(&StatsAction::Refuse(Refusal::ClientLimit)));
    let mut es = start.to_vec();
    es.push(StatsEvent::GlobalLimitsChecked { client_blocked: false, login_blocked: true });
    assert_eq!(run(&es).last(), Some(&StatsAction::Refuse(Refusal::LoginLimit)));
    let mut es = start.to_vec();
    es.push(StatsEvent::GlobalLimitsChecked { client_blocked: false, login_blocked: false });
    es.push(StatsEvent::RateLimitChecked { refused: true, remaining: 0, reset: 0 });
    let actions = run(&es);
    assert_eq!(actions.last(), Some(&StatsAction::Refuse(Refusal::RateLimit)));
    assert!(!actions.contains(&StatsAction::AskGitHub));
    // An event out of turn changes nothing.
    es.push(StatsEvent::GitHubAnswered { user_found: true });
    assert!(!run(&es).contains(&StatsAction::AskGitHub));
}

#[test]
fn caches_and_unmetered_service() {
    let a = run(&[
        StatsEvent::LoginChecked { valid: true },
        StatsEvent::EdgeCacheLooked { hit: true, store_bound: true },
    ]);
    assert_eq!(a.last(), Some(&StatsAction::AnswerFromEdgeCache));
    let a = run(&[
        StatsEvent::LoginChecked { valid: true },
        StatsEvent::EdgeCacheLooked { hit: false, store_bound: true },
        StatsEvent::SharedCacheLooked { found: true },
    ]);
    assert_eq!(
        a.last(),
        Some(&StatsAction::AnswerStats { remaining: 10, reset: 60, cached: true })
    );
    let a = run(&[
        StatsEvent::LoginChecked { valid: true },
        StatsEvent::EdgeCacheLooked { hit: false, store_bound: false },
        StatsEvent::TokenRead { present: true },
        StatsEvent::GitHubFailed { rate_limited: true },
    ]);
    assert_eq!(a[3], StatsAction::AskGitHub);
    assert_eq!(a.last(), Some(&StatsAction::Refuse(Refusal::GitHubRateLimited)));
    let a = run(&[
        StatsEvent::LoginChecked { valid: false },
    ]);
    assert_eq!(a.last(), Some(&StatsAction::Refuse(Refusal::InvalidLogin)));
    let a = run(&[
        StatsEvent::LoginChecked { valid: true },
        StatsEvent::EdgeCacheLooked { hit: false, store_bound: false },
        StatsEvent::TokenRead { present: false },
    ]);
    assert_eq!(a.last(), Some(&StatsAction::Refuse(Refusal::MissingToken)));
}

#[test]
fn events_from_checks() {
    let c = ClientId("1.2.3.4".to_string());
    let u = Username::new("octo").unwrap();
    let g = decide_globals(0, &c, &u, Some("100"), None);
    assert_eq!(
        global_limits_event(&g),
        StatsEvent::GlobalLimitsChecked { client_blocked: true, login_blocked: false }
    );
    let d = decide_rate(61, &c, &u, RateConfig::default(), false, Some("2"));
    assert_eq!(
        rate_limit_event(&d),
        StatsEvent::RateLimitChecked { refused: false, remaining: 27, reset: 120 }
    );
    let d = decide_rate(61, &c, &u, RateConfig::default(), false, Some("30"));
    assert_eq!(
        rate_limit_event(&d),
        StatsEvent::RateLimitChecked { refused: true, remaining: 0, reset: 0 }
    );
    assert_eq!(
        github_failure_event("API rate limit exceeded"),
        StatsEvent::GitHubFailed { rate_limited: true }
    );
    assert_eq!(github_failure_event("timeout"), StatsEvent::GitHubFailed { rate_limited: false });
}

#[test]
fn github_failures() {
    let e = github_failure("GitHub API rate limit exceeded for 1.2.3.4");
    assert_eq!((e.status, e.message.as_str()), (503, "GitHub API rate limit exceeded"));
    let e = github_failure("connection reset");
    assert_eq!((e.status, e.message.as_str()), (502, "Failed to fetch data from GitHub"));
}

fn repo(name: &str, stars: u32, langs: Vec<(&str, u64)>) -> Repo {
    Repo {
        name: name.to_string(),
        stargazer_count: stars,
        url: format!("https://github.com/octo/{name}"),
        languages: LangConn {
            edges: langs
                .into_iter()
                .map(|(n, s)| LangEdge { size: s, node: LangNode { name: n.to_string(), color: color_of(n) } })
                .collect(),
        },
    }
}

#[test]
fn unknown_user_is_a_404() {
    let e = stats_from_response(GqlResp { data: None }, &Username::new("octo").unwrap()).unwrap_err();
    assert_eq!((e.status, e.message.as_str()), (404, "User not found"));
}

#[test]
fn stats_from_a_full_reply() {
    let user = GqlUser {
        avatar_url: "a.png".to_string(),
        name: None,
        bio: Some("bio".to_string()),
        created_at: "2020-01-01T00:00:00Z".to_string(),
        followers: CountConn { total_count: 10 },
        following: CountConn { total_count: 2 },
        contributions_collection: ContribColl {
            contribution_calendar: Calendar { total_contributions: 500 },
            total_commit_contributions: 400,
            total_pull_request_contributions: 30,
            total_issue_contributions: 20,
            commit_contributions_by_repository: vec![
                RepoContribution { repository: repo("lib", 50, vec![("C", 250)]) },
                RepoContribution { repository: repo("own", 1, vec![]) },
            ],
        },
        repositories: RepoConn {
            total_count: 2,
            nodes: vec![repo("own", 8, vec![("Rust", 700)]), repo("priv", 0, vec![("Rust", 50)])],
        },
        public_repositories: RepoConn { total_count: 1, nodes: vec![repo("own", 8, vec![("Rust", 700)])] },
    };
    let s = stats_from_response(GqlResp { data: Some(GqlData { user }) }, &Username::new("Octo").unwrap())
        .unwrap();
    assert_eq!(s.total_repos, 3);
    assert_eq!(s.total_stars, 58);
    assert_eq!(s.most_starred_repo.as_ref().unwrap().name, "lib");
    let langs: Vec<(&str, u32)> = s.languages.iter().map(|l| (l.name.as_str(), l.percentage)).collect();
    assert_eq!(langs, vec![("Rust", 75), ("C", 25)]);
    let colors: Vec<Option<&str>> = s.languages.iter().map(|l| l.color.as_deref()).collect();
    assert_eq!(colors, vec![Some("#dea584"), Some("#555555")]);
    assert_eq!(s.display_name, "octo");
    assert_eq!(s.bio, "bio");
    assert_eq!(s.total_contributions, 500);
    assert_eq!(s.total_prs, 30);
    assert_eq!(s.total_issues, 20);
    assert_eq!(s.followers, 10);
}

fn color_of(lang: &str) -> Option<String> {
    match lang {
        "Rust" => Some("#dea584".to_string()),
        "C" => Some("#555555".to_string()),
        _ => None,
    }
}

#[test]
fn answered_request_has_nothing_left_to_do() {
    for e in [
        StatsEvent::LoginChecked { valid: true },
        StatsEvent::SharedCacheLooked { found: false },
        StatsEvent::GitHubAnswered { user_found: true },
    ] {
        assert_eq!(next_step(StatsStage::Answered, e), (StatsStage::Answered, StatsAction::Stop));
    }
    // An event that does not answer the pending step leaves the stage and repeats its step.
    assert_eq!(
        next_step(StatsStage::CheckingLogin, StatsEvent::TokenRead { present: true }),
        (StatsStage::CheckingLogin, StatsAction::CheckLogin)
    );
}

#[test]
fn shared_cache_write_keeps_the_answer_for_five_minutes() {
    let w = shared_cache_write(&Username::new("Octo").unwrap(), "{\"ok\":true}".to_string());
    assert_eq!(w.key, "cache:octo");
    assert_eq!(w.value, "{\"ok\":true}");
    assert_eq!(w.ttl, 300);
    assert_eq!(w.ttl, CACHE_TTL);
}

#[test]
fn repeated_request_within_five_minutes_is_answered_from_cache() {
    // The first request reaches GitHub and its answer is cached at second 1000.
    let first = run(&[
        StatsEvent::LoginChecked { valid: true },
        StatsEvent::EdgeCacheLooked { hit: false, store_bound: true },
        StatsEvent::SharedCacheLooked { found: false },
        StatsEvent::TokenRead { present: true },
        StatsEvent::GlobalLimitsChecked { client_blocked: false, login_blocked: false },
        StatsEvent::RateLimitChecked { refused: false, remaining: 29, reset: 1020 },
        StatsEvent::GitHubAnswered { user_found: true },
    ]);
    assert_eq!(
        first.last(),
        Some(&StatsAction::AnswerStats { remaining: 29, reset: 1020, cached: false })
    );
    let w = shared_cache_write(&Username::new("octo").unwrap(), "{}".to_string());
    let at = 1000u64;
    for t in [1000u64, 1150, 1299] {
        let found = w.key == "cache:octo" && at <= t && t < at + w.ttl;
        assert!(found);
        let second = run(&[
            StatsEvent::LoginChecked { valid: true },
            StatsEvent::EdgeCacheLooked { hit: false, store_bound: true },
            StatsEvent::SharedCacheLooked { found },
        ]);
        assert_eq!(
            second.last(),
            Some(&StatsAction::AnswerStats { remaining: 10, reset: 60, cached: true })
        );
        assert!(!second.contains(&StatsAction::AskGitHub));
        assert!(!second.contains(&StatsAction::CheckGlobalLimits));
        assert!(!second.contains(&StatsAction::CheckRateLimit));
    }
    // At second 1300 the entry has expired.
    assert!(!(1300 < at + w.ttl));
}
