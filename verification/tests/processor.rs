use ghfetch::processor::{build_stats, display_name, process_repos};
use ghfetch::types::{
    Calendar, ContribColl, CountConn, GqlUser, LangConn, LangEdge, LangNode, MostStarredRepo, Repo,
    RepoConn,
};

fn make_repo(name: &str, stars: u32, langs: Vec<(&str, u64)>) -> Repo {
    Repo {
        name: name.to_string(),
        stargazer_count: stars,
        url: format!("https://github.com/test/{name}"),
        languages: LangConn {
            edges: langs
                .into_iter()
                .map(|(n, s)| LangEdge { size: s, node: LangNode { name: n.to_string(), color: color_of(n) } })
                .collect(),
        },
    }
}

#[test]
fn counts_unique_repos() {
    let repos = vec![make_repo("repo-a", 5, vec![]), make_repo("repo-b", 3, vec![])];
    let (cnt, _, _, _) = process_repos(&repos, &[], &[]);
    assert_eq!(cnt, 2);
}

#[test]
fn deduplicates_repos_by_name() {
    let private = vec![make_repo("repo-a", 5, vec![])];
    let public = vec![make_repo("repo-a", 5, vec![])];
    let (cnt, _, _, _) = process_repos(&private, &public, &[]);
    assert_eq!(cnt, 1);
}

#[test]
fn sums_stars() {
    let repos = vec![make_repo("repo-a", 10, vec![]), make_repo("repo-b", 20, vec![])];
    let (_, stars, _, _) = process_repos(&repos, &[], &[]);
    assert_eq!(stars, 30);
}

#[test]
fn finds_most_starred() {
    let repos = vec![
        make_repo("low", 1, vec![]),
        make_repo("high", 99, vec![]),
        make_repo("mid", 50, vec![]),
    ];
    let (_, _, _, top) = process_repos(&repos, &[], &[]);
    assert_eq!(top.unwrap().name, "high");
}

#[test]
fn aggregates_language_bytes() {
    let repos = vec![
        make_repo("repo-a", 0, vec![("Rust", 1000), ("C", 500)]),
        make_repo("repo-b", 0, vec![("Rust", 500)]),
    ];
    let (_, _, langs, _) = process_repos(&repos, &[], &[]);
    let rust = langs.iter().find(|(n, _)| n == "Rust").unwrap();
    assert_eq!(rust.1, 1500);
}

#[test]
fn sorts_languages_by_bytes_descending() {
    let repos = vec![make_repo("repo", 0, vec![("C", 100), ("Rust", 900), ("Python", 500)])];
    let (_, _, langs, _) = process_repos(&repos, &[], &[]);
    assert_eq!(langs[0].0, "Rust");
    assert_eq!(langs[1].0, "Python");
    assert_eq!(langs[2].0, "C");
}

#[test]
fn handles_empty_repos() {
    let (cnt, stars, langs, top) = process_repos(&[], &[], &[]);
    assert_eq!(cnt, 0);
    assert_eq!(stars, 0);
    assert!(langs.is_empty());
    assert!(top.is_none());
}

#[test]
fn no_overflow_on_large_stars() {
    let repos = vec![make_repo("a", u32::MAX, vec![]), make_repo("b", u32::MAX, vec![])];
    let (_, stars, _, _) = process_repos(&repos, &[], &[]);
    assert_eq!(stars, u32::MAX);
}

#[test]
fn duplicates_across_all_three_lists_count_once() {
    let private = vec![make_repo("a", 3, vec![("Go", 10)]), make_repo("b", 4, vec![])];
    let public = vec![make_repo("a", 100, vec![("Go", 1000)])];
    let contributed = vec![make_repo("b", 7, vec![]), make_repo("c", 2, vec![("Go", 5)])];
    let (cnt, stars, langs, top) = process_repos(&private, &public, &contributed);
    assert_eq!(cnt, 3);
    // Only the first repository of each name counts: 3 + 4 + 2.
    assert_eq!(stars, 9);
    assert_eq!(langs.len(), 1);
    assert_eq!(langs[0], ("Go".to_string(), 15));
    assert_eq!(top.unwrap().name, "b");
}

#[test]
fn first_of_equally_starred_is_most_starred() {
    let repos = vec![make_repo("x", 5, vec![]), make_repo("y", 5, vec![])];
    let (_, _, _, top) = process_repos(&repos, &[], &[]);
    let top = top.unwrap();
    assert_eq!(top.name, "x");
    assert_eq!(top.stars, 5);
    assert_eq!(top.url, "https://github.com/test/x");
}

#[test]
fn no_most_starred_without_stars() {
    let repos = vec![make_repo("x", 0, vec![]), make_repo("y", 0, vec![])];
    let (_, _, _, top) = process_repos(&repos, &[], &[]);
    assert!(top.is_none());
}

#[test]
fn equal_language_totals_keep_first_appearance_order() {
    let repos = vec![
        make_repo("r1", 0, vec![("Zig", 10), ("Ada", 30)]),
        make_repo("r2", 0, vec![("Lua", 10), ("Ada", 0)]),
    ];
    let (_, _, langs, _) = process_repos(&repos, &[], &[]);
    let names: Vec<&str> = langs.iter().map(|(n, _)| n.as_str()).collect();
    assert_eq!(names, vec!["Ada", "Zig", "Lua"]);
}

#[test]
fn repos_without_language_bytes_add_no_languages() {
    let repos = vec![make_repo("r", 0, vec![("Rust", 0), ("C", 0)])];
    let (_, _, langs, _) = process_repos(&repos, &[], &[]);
    assert!(langs.is_empty());
}

#[test]
fn language_bytes_saturate() {
    let repos = vec![
        make_repo("r1", 0, vec![("C", u64::MAX)]),
        make_repo("r2", 0, vec![("C", 10)]),
    ];
    let (_, _, langs, _) = process_repos(&repos, &[], &[]);
    assert_eq!(langs, vec![("C".to_string(), u64::MAX)]);
}

fn make_user(name: Option<&str>, bio: Option<&str>) -> GqlUser {
    GqlUser {
        avatar_url: "https://avatars.example/u.png".to_string(),
        name: name.map(|s| s.to_string()),
        bio: bio.map(|s| s.to_string()),
        created_at: "2011-01-25T18:44:36Z".to_string(),
        followers: CountConn { total_count: 7 },
        following: CountConn { total_count: 3 },
        contributions_collection: ContribColl {
            contribution_calendar: Calendar { total_contributions: 120 },
            total_commit_contributions: 90,
            total_pull_request_contributions: 12,
            total_issue_contributions: 5,
            commit_contributions_by_repository: vec![],
        },
        repositories: RepoConn { total_count: 0, nodes: vec![] },
        public_repositories: RepoConn { total_count: 0, nodes: vec![] },
    }
}

#[test]
fn build_stats_rounds_percentages_and_drops_tiny_ones() {
    let langs = vec![
        ("Rust".to_string(), 600u64),
        ("C".to_string(), 395u64),
        ("Make".to_string(), 4u64),
        ("Shell".to_string(), 1u64),
    ];
    let top = Some(MostStarredRepo { name: "a".to_string(), stars: 4, url: "u".to_string() });
    let s = build_stats(make_user(None, None), "octo", 9, 44, langs, top);
    let got: Vec<(&str, u32)> = s.languages.iter().map(|l| (l.name.as_str(), l.percentage)).collect();
    // 60%, 39.5% rounds up to 40%, 0.4% rounds to 0 and is left out, 0.1% too.
    assert_eq!(got, vec![("Rust", 60), ("C", 40)]);
    assert_eq!(s.total_repos, 9);
    assert_eq!(s.total_stars, 44);
    assert_eq!(s.display_name, "octo");
    assert_eq!(s.bio, "");
    assert_eq!(s.total_contributions, 120);
    assert_eq!(s.total_commits, 90);
    assert_eq!(s.total_prs, 12);
    assert_eq!(s.total_issues, 5);
    assert_eq!(s.followers, 7);
    assert_eq!(s.following, 3);
    assert_eq!(s.account_created_at, "2011-01-25T18:44:36Z");
    assert_eq!(s.most_starred_repo.unwrap().name, "a");
}

#[test]
fn build_stats_half_percent_rounds_up() {
    let langs = vec![("A".to_string(), 995u64), ("B".to_string(), 5u64)];
    let s = build_stats(make_user(Some("The Octocat"), Some("hi")), "octo", 0, 0, langs, None);
    let got: Vec<(&str, u32)> = s.languages.iter().map(|l| (l.name.as_str(), l.percentage)).collect();
    assert_eq!(got, vec![("A", 100), ("B", 1)]);
    assert_eq!(s.display_name, "The Octocat");
    assert_eq!(s.bio, "hi");
}

#[test]
fn build_stats_without_bytes_shows_no_languages() {
    let langs = vec![("A".to_string(), 0u64)];
    let s = build_stats(make_user(None, None), "octo", 0, 0, langs, None);
    assert!(s.languages.is_empty());
}

#[test]
fn display_name_falls_back_to_login() {
    assert_eq!(display_name(None, "octo"), "octo");
    assert_eq!(display_name(Some("Octo Cat".to_string()), "octo"), "Octo Cat");
}

fn color_of(lang: &str) -> Option<String> {
    match lang {
        "Rust" => Some("#dea584".to_string()),
        "C" => Some("#555555".to_string()),
        _ => None,
    }
}

#[test]
fn build_stats_gives_each_language_its_colour() {
    let mut user = make_user(None, None);
    user.repositories = RepoConn {
        total_count: 2,
        nodes: vec![
            make_repo("r1", 0, vec![("Rust", 600), ("Make", 10)]),
            make_repo("r2", 0, vec![("C", 390)]),
        ],
    };
    let langs = vec![
        ("Rust".to_string(), 600u64),
        ("C".to_string(), 390u64),
        ("Make".to_string(), 10u64),
    ];
    let s = build_stats(user, "octo", 2, 0, langs, None);
    let got: Vec<(&str, u32, Option<&str>)> = s
        .languages
        .iter()
        .map(|l| (l.name.as_str(), l.percentage, l.color.as_deref()))
        .collect();
    assert_eq!(
        got,
        vec![("Rust", 60, Some("#dea584")), ("C", 39, Some("#555555")), ("Make", 1, None)]
    );
}

#[test]
fn language_colour_comes_from_its_first_edge() {
    let mut user = make_user(None, None);
    let mut first = make_repo("r1", 0, vec![("Go", 5)]);
    first.languages.edges[0].node.color = Some("#00ADD8".to_string());
    let mut second = make_repo("r2", 0, vec![("Go", 5)]);
    second.languages.edges[0].node.color = Some("#000000".to_string());
    user.public_repositories = RepoConn { total_count: 2, nodes: vec![first, second] };
    let s = build_stats(user, "octo", 2, 0, vec![("Go".to_string(), 10u64)], None);
    assert_eq!(s.languages[0].color.as_deref(), Some("#00ADD8"));
}

#[test]
fn language_colour_absent_from_the_repositories_is_none() {
    let s = build_stats(make_user(None, None), "octo", 0, 0, vec![("Rust".to_string(), 10u64)], None);
    assert_eq!(s.languages[0].name, "Rust");
    assert_eq!(s.languages[0].color, None);
}
