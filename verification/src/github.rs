//! What the GitHub GraphQL request is made of, and what is taken from its reply.
use vstd::prelude::*;

use crate::types::{is_login_char, Repo, RepoInfo, Username};

verus! {

/// The GitHub GraphQL endpoint.
pub const API_URL: &'static str = "https://api.github.com/graphql";

/// The query for one user: profile, contribution totals, the owned and collaborated
/// repositories (most starred first), the public repositories, and the repositories
/// contributed to.
pub const QUERY: &'static str = "
query($u: String!) {
  user(login: $u) {
    avatarUrl name bio createdAt
    followers { totalCount }
    following { totalCount }
    contributionsCollection {
      contributionCalendar { totalContributions }
      totalCommitContributions
      totalPullRequestContributions
      totalIssueContributions
      commitContributionsByRepository(maxRepositories: 100) {
        repository {
          name stargazerCount url
          languages(first: 10, orderBy: {field: SIZE, direction: DESC}) {
            edges { size node { name color } }
          }
        }
      }
    }
    repositories(
      first: 100, 
      ownerAffiliations: [OWNER, COLLABORATOR], 
      orderBy: {field: STARGAZERS, direction: DESC}
    ) {
      totalCount
      nodes {
        name stargazerCount url
        languages(first: 10, orderBy: {field: SIZE, direction: DESC}) {
          edges { size node { name color } }
        }
      }
    }
    publicRepositories: repositories(
      first: 100,
      privacy: PUBLIC,
      orderBy: {field: STARGAZERS, direction: DESC}
    ) {
      totalCount
      nodes {
        name stargazerCount url
        languages(first: 10, orderBy: {field: SIZE, direction: DESC}) {
          edges { size node { name color } }
        }
      }
    }
  }
}";

/// A lower-case hexadecimal digit (`0 <= d < 16`).
pub open spec fn hex_digit(d: int) -> char {
    if d < 10 {
        (48 + d) as char
    } else {
        (87 + d) as char
    }
}

/// How one character is written inside a JSON string: `"` and `\` behind a backslash,
/// backspace, tab, line feed, form feed and carriage return as `\b \t \n \f \r`, any other
/// control character below `0x20` as `\u00` and two lower-case hex digits, and everything
/// else as it is.
pub open spec fn json_escape(c: char) -> Seq<char> {
    if c == '"' {
        seq!['\\', '"']
    } else if c == '\\' {
        seq!['\\', '\\']
    } else if c == '\x08' {
        seq!['\\', 'b']
    } else if c == '\t' {
        seq!['\\', 't']
    } else if c == '\n' {
        seq!['\\', 'n']
    } else if c == '\x0c' {
        seq!['\\', 'f']
    } else if c == '\r' {
        seq!['\\', 'r']
    } else if (c as int) < 0x20 {
        seq!['\\', 'u', '0', '0', hex_digit(c as int / 16), hex_digit(c as int % 16)]
    } else {
        seq![c]
    }
}

/// The characters of `s`, each written as a JSON string requires.
pub open spec fn json_escaped(s: Seq<char>) -> Seq<char>
    decreases s.len(),
{
    if s.len() == 0 {
        seq![]
    } else {
        json_escaped(s.drop_last()) + json_escape(s.last())
    }
}

/// The JSON text of a string value: the string in double quotes, escaped as JSON requires.
pub open spec fn json_string_literal(s: Seq<char>) -> Seq<char> {
    seq!['"'] + json_escaped(s) + seq!['"']
}

/// A login (letters, digits and hyphens) needs no escaping: its JSON text is the login in
/// double quotes.
pub proof fn lemma_login_json_verbatim(s: Seq<char>)
    requires
        forall|i: int| 0 <= i < s.len() ==> is_login_char(#[trigger] s[i]),
    ensures
        json_escaped(s) == s,
        json_string_literal(s) == seq!['"'] + s + seq!['"'],
    decreases s.len(),
{
    if s.len() > 0 {
        let p = s.drop_last();
        assert forall|i: int| 0 <= i < p.len() implies is_login_char(#[trigger] p[i]) by {
            assert(p[i] == s[i]);
        }
        lemma_login_json_verbatim(p);
        assert(is_login_char(s[s.len() - 1]));
        assert(json_escape(s.last()) == seq![s.last()]);
        assert(json_escaped(p) == p);
        assert(json_escaped(s) == p + seq![s.last()]);
        assert(p + seq![s.last()] =~= s);
    } else {
        assert(json_escaped(s) =~= s);
    }
}

/// `serde_json::to_string` on a string: its JSON text. In serde_json's source a string is
/// serialised by `format_escaped_str` into the `Vec<u8>` that `to_vec` allocates, and the only
/// errors on that path are those of the writer; writing into a `Vec<u8>` never fails, so a
/// text always comes back, and it is the JSON text of `s`.
#[verifier::external_body]
fn json_string(s: &str) -> (r: Option<String>)
    ensures
        r is Some,
        r matches Some(j) ==> j@ == json_string_literal(s@),
{
    serde_json::to_string(s).ok()
}

/// The request body for a GraphQL query with the one variable `u`, from the JSON texts of
/// the query and of the login.
pub open spec fn graphql_body(query_json: Seq<char>, login_json: Seq<char>) -> Seq<char> {
    "{\"query\":"@ + query_json + ",\"variables\":{\"u\":"@ + login_json + "}}"@
}

/// Frames the request body around the JSON texts of the query and of the login.
pub fn frame_graphql_body(query_json: &str, login_json: &str) -> (r: String)
    ensures
        r@ == graphql_body(query_json@, login_json@),
{
    let mut body = "{\"query\":".to_owned();
    body.append(query_json);
    body.append(",\"variables\":{\"u\":");
    body.append(login_json);
    body.append("}}");
    body
}

/// The body of the stats request for `user`: the query and the login, each as JSON text.
pub fn request_body(user: &Username) -> (r: Option<String>)
    ensures
        r is Some,
        r matches Some(b) ==> b@ == graphql_body(
            json_string_literal(QUERY@),
            json_string_literal(user@),
        ),
        r matches Some(b) ==> b@ == graphql_body(
            json_string_literal(QUERY@),
            seq!['"'] + user@ + seq!['"'],
        ),
{
    let q = json_string(QUERY);
    let login = user.as_str();
    proof {
        assert(forall|i: int| 0 <= i < login@.len() ==> is_login_char(#[trigger] login@[i]));
        lemma_login_json_verbatim(user@);
    }
    let l = json_string(login);
    match (q, l) {
        (Some(q), Some(l)) => Some(frame_graphql_body(q.as_str(), l.as_str())),
        _ => None,
    }
}

/// Talks to the GitHub API with a personal access token.
pub struct GitHubClient {
    token: String,
}

impl View for GitHubClient {
    type V = Seq<char>;

    /// The token.
    closed spec fn view(&self) -> Seq<char> {
        self.token@
    }
}

/// The headers of the stats request made with `token`.
pub open spec fn request_headers_for(token: Seq<char>) -> Seq<(Seq<char>, Seq<char>)> {
    seq![
        ("Authorization"@, "Bearer "@ + token),
        ("Content-Type"@, "application/json"@),
        ("User-Agent"@, "portfolio-worker/1.0"@),
    ]
}

/// The names and values of a header list.
pub open spec fn headers_view(h: Seq<(String, String)>) -> Seq<(Seq<char>, Seq<char>)> {
    h.map_values(|p: (String, String)| (p.0@, p.1@))
}

impl GitHubClient {
    pub fn new(token: String) -> (c: Self)
        ensures
            c@ == token@,
    {
        Self { token }
    }

    /// The headers of the stats request: the token as a bearer credential, JSON content,
    /// and the user agent.
    pub fn request_headers(&self) -> (h: Vec<(String, String)>)
        ensures
            headers_view(h@) == request_headers_for(self@),
    {
        let mut auth = "Bearer ".to_owned();
        auth.append(self.token.as_str());
        let mut h: Vec<(String, String)> = Vec::new();
        h.push(("Authorization".to_owned(), auth));
        h.push(("Content-Type".to_owned(), "application/json".to_owned()));
        h.push(("User-Agent".to_owned(), "portfolio-worker/1.0".to_owned()));
        proof {
            assert(headers_view(h@) =~= request_headers_for(self@));
        }
        h
    }
}

/// The most starred repository of a list that the query returns most starred first: its
/// first entry, when there is one.
pub fn most_starred_first(repos: &[Repo]) -> (r: Option<RepoInfo>)
    ensures
        r is None <==> repos@.len() == 0,
        r matches Some(i) ==> i.name@ == repos@[0].name@ && i.stars == repos@[0].stargazer_count
            && i.url@ == repos@[0].url@,
{
    if repos.len() == 0 {
        None
    } else {
        let r = &repos[0];
        Some(RepoInfo { name: r.name.clone(), stars: r.stargazer_count, url: r.url.clone() })
    }
}

/// The stats request carries the whole token: its first header is `Authorization`, whose
/// value is `Bearer `, then exactly the token, for a token of any length.
pub proof fn lemma_authorization_carries_the_token(token: Seq<char>)
    ensures
        request_headers_for(token)[0].0 == "Authorization"@,
        request_headers_for(token)[0].1.len() == 7 + token.len(),
        request_headers_for(token)[0].1.subrange(0, 7) == "Bearer "@,
        request_headers_for(token)[0].1.subrange(7, 7 + token.len() as int) == token,
{
    reveal_strlit("Bearer ");
    let v = request_headers_for(token)[0].1;
    assert(v == "Bearer "@ + token);
    assert(v.subrange(0, 7) =~= "Bearer "@);
    assert(v.subrange(7, 7 + token.len() as int) =~= token);
}

} // verus!
