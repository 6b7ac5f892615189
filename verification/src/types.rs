//! The data the service works on: the GitHub GraphQL reply, the aggregated statistics it
//! answers with, the rate-limit settings, and validated user names.
use vstd::prelude::*;

use crate::text::chars_of;

verus! {

/// A repository's most-starred summary, as the dashboard shows it.
#[derive(Debug)]
pub struct RepoInfo {
    pub name: String,
    pub stars: u32,
    pub url: String,
}

/// The GraphQL reply envelope; `data` is absent when GitHub found nothing to answer.
pub struct GqlResp {
    pub data: Option<GqlData>,
}

pub struct GqlData {
    pub user: GqlUser,
}

/// The user record the GraphQL query asks for.
pub struct GqlUser {
    pub avatar_url: String,
    pub name: Option<String>,
    pub bio: Option<String>,
    pub created_at: String,
    pub followers: CountConn,
    pub following: CountConn,
    pub contributions_collection: ContribColl,
    /// Repositories the user owns or collaborates on (private ones included).
    pub repositories: RepoConn,
    /// The user's public repositories.
    pub public_repositories: RepoConn,
}

pub struct CountConn {
    pub total_count: u32,
}

pub struct ContribColl {
    pub contribution_calendar: Calendar,
    pub total_commit_contributions: u32,
    pub total_pull_request_contributions: u32,
    pub total_issue_contributions: u32,
    pub commit_contributions_by_repository: Vec<RepoContribution>,
}

/// One entry of the commit contributions of the user, grouped by repository.
pub struct RepoContribution {
    pub repository: Repo,
}

pub struct Calendar {
    pub total_contributions: u32,
}

pub struct RepoConn {
    pub total_count: u32,
    pub nodes: Vec<Repo>,
}

#[derive(Debug)]
pub struct Repo {
    pub name: String,
    pub stargazer_count: u32,
    pub url: String,
    pub languages: LangConn,
}

#[derive(Debug)]
pub struct LangConn {
    pub edges: Vec<LangEdge>,
}

/// `size` bytes of the repository are written in the language of `node`.
#[derive(Debug)]
pub struct LangEdge {
    pub size: u64,
    pub node: LangNode,
}

#[derive(Debug)]
pub struct LangNode {
    pub name: String,
    /// The colour GitHub shows for the language, when it has one.
    pub color: Option<String>,
}

/// The most starred repository among those counted.
#[derive(Debug)]
pub struct MostStarredRepo {
    pub name: String,
    pub stars: u32,
    pub url: String,
}

/// One language with its whole-number share of the counted bytes, in percent, and its
/// colour.
#[derive(Debug)]
pub struct GitHubLanguage {
    pub name: String,
    pub percentage: u32,
    /// The colour GitHub shows for the language, when it has one.
    pub color: Option<String>,
}

/// The statistics the service answers with.
#[derive(Debug)]
pub struct GitHubStats {
    pub total_repos: u32,
    pub total_contributions: u32,
    pub total_stars: u32,
    pub followers: u32,
    pub following: u32,
    pub total_commits: u32,
    pub total_prs: u32,
    pub total_issues: u32,
    pub account_created_at: String,
    pub most_starred_repo: Option<MostStarredRepo>,
    pub avatar_url: String,
    pub display_name: String,
    pub bio: String,
    pub languages: Vec<GitHubLanguage>,
}

/// Who is asking: the connecting address as the edge reports it.
#[derive(Debug)]
pub struct ClientId(pub String);

/// Per-client, per-user request budget: `max_req` requests per window of `window_secs`
/// seconds, after which the pair is blocked for `block_secs` seconds.
#[derive(Debug, Clone, Copy)]
pub struct RateConfig {
    pub max_req: u32,
    pub window_secs: u64,
    pub block_secs: u64,
}

impl Default for RateConfig {
    /// 30 requests per minute, then a five-minute block.
    fn default() -> (cfg: Self)
        ensures
            cfg.max_req == 30,
            cfg.window_secs == 60,
            cfg.block_secs == 300,
    {
        RateConfig { max_req: 30, window_secs: 60, block_secs: 300 }
    }
}

/// Longest GitHub login, in characters.
pub const MAX_LOGIN_LEN: usize = 39;

/// The characters a GitHub login is made of: ASCII letters, digits and `-`.
pub open spec fn is_login_char(c: char) -> bool {
    ||| 'a' <= c <= 'z'
    ||| 'A' <= c <= 'Z'
    ||| '0' <= c <= '9'
    ||| c == '-'
}

/// A well-formed GitHub login: 1 to 39 letters, digits and hyphens, neither starting nor
/// ending with a hyphen, and with no two hyphens in a row.
pub open spec fn is_valid_login(s: Seq<char>) -> bool {
    &&& 1 <= s.len() <= MAX_LOGIN_LEN
    &&& forall|i: int| 0 <= i < s.len() ==> is_login_char(#[trigger] s[i])
    &&& s[0] != '-'
    &&& s[s.len() - 1] != '-'
    &&& forall|i: int| 0 <= i < s.len() - 1 ==> !(#[trigger] s[i] == '-' && s[i + 1] == '-')
}

/// ASCII lower-casing of one character; other characters are unchanged.
pub open spec fn lower_char(c: char) -> char {
    if 'A' <= c <= 'Z' {
        (c as int + 32) as char
    } else {
        c
    }
}

/// ASCII lower-casing of a text.
pub open spec fn lowercase(s: Seq<char>) -> Seq<char> {
    s.map_values(|c: char| lower_char(c))
}

/// A validated GitHub login, kept in lower case.
#[derive(Debug)]
pub struct Username(String);

impl View for Username {
    type V = Seq<char>;

    closed spec fn view(&self) -> Seq<char> {
        self.0@
    }
}

impl Username {
    /// A username always holds a well-formed login in lower case.
    #[verifier::type_invariant]
    spec fn is_normalized_login(self) -> bool {
        is_valid_login(self.0@) && lowercase(self.0@) == self.0@
    }

    /// Accepts `s` exactly when it is a well-formed GitHub login, and keeps it in lower case.
    pub fn new(s: &str) -> (r: Option<Self>)
        ensures
            r is Some <==> is_valid_login(s@),
            r matches Some(u) ==> u@ == lowercase(s@),
    {
        let n = s.unicode_len();
        if n == 0 || n > MAX_LOGIN_LEN {
            return None;
        }
        let cs = chars_of(s);
        let mut i: usize = 0;
        while i < n
            invariant
                n == cs@.len(),
                cs@ == s@,
                1 <= n <= MAX_LOGIN_LEN,
                i <= n,
                forall|k: int| 0 <= k < i ==> is_login_char(#[trigger] cs@[k]),
                i > 0 ==> cs@[0] != '-',
                forall|k: int| 0 <= k < i && k < n - 1 ==> !(#[trigger] cs@[k] == '-' && cs@[k + 1]
                    == '-'),
                i == n ==> cs@[n - 1] != '-',
            decreases n - i,
        {
            let c = cs[i];
            let ok = ('a' <= c && c <= 'z') || ('A' <= c && c <= 'Z') || ('0' <= c && c <= '9')
                || c == '-';
            if !ok {
                proof {
                    assert(!is_login_char(s@[i as int]));
                }
                return None;
            }
            if c == '-' {
                if i == 0 || i == n - 1 {
                    return None;
                }
                if cs[i + 1] == '-' {
                    proof {
                        assert(s@[i as int] == '-' && s@[i + 1] == '-');
                    }
                    return None;
                }
            }
            i = i + 1;
        }
        let lower = "abcdefghijklmnopqrstuvwxyz";
        proof {
            reveal_strlit("abcdefghijklmnopqrstuvwxyz");
            assert forall|k: int| 0 <= k < 26 implies #[trigger] lower@[k] == (k + 97) as char by {}
        }
        let mut out = String::new();
        let mut j: usize = 0;
        while j < n
            invariant
                n == cs@.len(),
                cs@ == s@,
                j <= n,
                lower@.len() == 26,
                forall|k: int| 0 <= k < 26 ==> #[trigger] lower@[k] == (k + 97) as char,
                out@ == lowercase(s@).take(j as int),
            decreases n - j,
        {
            let c = cs[j];
            let piece = if 'A' <= c && c <= 'Z' {
                let k = (c as u32 - 65) as usize;
                lower.substring_char(k, k + 1)
            } else {
                s.substring_char(j, j + 1)
            };
            proof {
                assert(piece@ == seq![lower_char(c)]);
                assert(lowercase(s@).take(j + 1) == lowercase(s@).take(j as int).push(
                    lower_char(c),
                ));
            }
            out.append(piece);
            j = j + 1;
        }
        proof {
            assert(lowercase(s@).take(n as int) == lowercase(s@));
            assert(is_valid_login(s@));
            lemma_login_normalization_idempotent(s@);
        }
        Some(Username(out))
    }

    /// The login, in lower case.
    pub fn as_str(&self) -> (r: &str)
        ensures
            r@ == self@,
            is_valid_login(r@),
            lowercase(r@) == r@,
    {
        proof {
            use_type_invariant(self);
        }
        self.0.as_str()
    }
}

/// A validated login is accepted again as it stands and is already in lower case: the
/// normalisation is a fixed point.
pub proof fn lemma_login_normalization_idempotent(s: Seq<char>)
    requires
        is_valid_login(s),
    ensures
        is_valid_login(lowercase(s)),
        lowercase(lowercase(s)) == lowercase(s),
{
    let l = lowercase(s);
    assert forall|i: int| 0 <= i < l.len() implies is_login_char(#[trigger] l[i]) by {
        assert(is_login_char(s[i]));
    }
    assert forall|i: int| 0 <= i < l.len() - 1 implies !(#[trigger] l[i] == '-' && l[i + 1] == '-') by {
        assert(is_login_char(s[i]));
        assert(is_login_char(s[i + 1]));
        assert(!(s[i] == '-' && s[i + 1] == '-'));
    }
    assert(is_login_char(s[0]));
    assert(is_login_char(s[s.len() - 1]));
    assert(lowercase(l) =~= l);
}

} // verus!
