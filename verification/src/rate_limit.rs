//! Rate limiting over counters kept in a key-value store: the keys, the decisions taken from
//! what was read, and the writes those decisions call for.
use vstd::prelude::*;

use crate::processor::{distinct_in_order, lemma_distinct_in_order};
use crate::text::{
    cap_u32, chars_of, decimal, decimal_string, lemma_parse_decimal_roundtrip, parse_count, parse_u32,
};
use crate::types::{is_login_char, is_valid_login, ClientId, RateConfig, Username};

verus! {

/// Requests for one login, from anyone, allowed per minute.
pub const GLOBAL_USERNAME_MAX: u32 = 60;

/// Requests from one client, for any login, allowed per minute.
pub const GLOBAL_IP_MAX: u32 = 100;

/// The window of the global counters, in seconds.
pub const GLOBAL_WINDOW_SECS: u64 = 60;

/// A counter update that a check calls for.
#[derive(Debug)]
pub struct PendingWrites {
    pub key: String,
    pub count_value: String,
    pub count_ttl: u64,
    pub block_key: Option<String>,
    pub block_ttl: Option<u64>,
}

/// The outcome of the two global checks, with the counter writes they call for.
#[derive(Debug)]
pub struct GlobalCheckResult {
    pub global_ip_blocked: bool,
    pub username_blocked: bool,
    pub global_ip_write: Option<PendingWrite>,
    pub username_write: Option<PendingWrite>,
}

/// One value to store under `key` for `ttl` seconds.
#[derive(Debug)]
pub struct PendingWrite {
    pub key: String,
    pub value: String,
    pub ttl: u64,
}

/// The start of the window of `window` seconds that holds second `now`.
pub open spec fn window_of(now: nat, window: nat) -> nat {
    ((now / window) * window) as nat
}

/// Seconds a counter of the window starting at `win` is kept: what is left of the window,
/// but never under a minute.
pub open spec fn expiry(window: nat, now: nat, win: nat) -> nat {
    let left = if window >= now - win {
        window - (now - win)
    } else {
        0
    };
    if left >= 60 {
        left as nat
    } else {
        60
    }
}

/// The counter a stored text stands for: its value when it reads as a `u32`, else 0.
pub open spec fn stored_count(t: Option<Seq<char>>) -> nat {
    match t {
        Some(s) => match parse_u32(s) {
            Some(n) => n as nat,
            None => 0,
        },
        None => 0,
    }
}

/// The text of an optional string.
pub open spec fn text_of(t: Option<&str>) -> Option<Seq<char>> {
    match t {
        Some(s) => Some(s@),
        None => None,
    }
}

/// Key of the per-minute counter of one client.
pub open spec fn global_ip_key_text(client: Seq<char>, win: nat) -> Seq<char> {
    "rl:gl:"@ + client + ":"@ + decimal(win)
}

/// Key of the counter of one client for one login in one window.
pub open spec fn rate_key_text(client: Seq<char>, login: Seq<char>, win: nat) -> Seq<char> {
    "rl:"@ + client + ":"@ + login + ":"@ + decimal(win)
}

/// Key of the block of one client for one login.
pub open spec fn block_key_text(client: Seq<char>, login: Seq<char>) -> Seq<char> {
    "block:"@ + client + ":"@ + login
}

/// The start of the window of `window` seconds that holds second `now`.
pub fn window_start(now: u64, window: u64) -> (win: u64)
    requires
        window > 0,
    ensures
        win == window_of(now as nat, window as nat),
        win <= now,
        now - win < window,
{
    proof {
        assert((now / window) * window <= now && now - (now / window) * window < window)
            by (nonlinear_arith)
            requires
                window > 0,
        ;
    }
    (now / window) * window
}

/// The counter stored as `t`, or 0 when there is none or it does not read as a `u32`.
pub fn read_count(t: Option<&str>) -> (n: u32)
    ensures
        n == stored_count(text_of(t)),
{
    match t {
        Some(s) => match parse_count(s) {
            Some(n) => n,
            None => 0,
        },
        None => 0,
    }
}

fn keep_at_least_a_minute(window: u64, now: u64, win: u64) -> (ttl: u64)
    requires
        win <= now,
    ensures
        ttl == expiry(window as nat, now as nat, win as nat),
{
    let left = window.saturating_sub(now - win);
    if left >= 60 {
        left
    } else {
        60
    }
}

/// Key of the per-minute counter of one client.
pub fn global_ip_key(client: &ClientId, win: u64) -> (k: String)
    ensures
        k@ == global_ip_key_text(client.0@, win as nat),
{
    let mut k = "rl:gl:".to_owned();
    k.append(client.0.as_str());
    k.append(":");
    k.append(decimal_string(win).as_str());
    k
}

/// Key of the counter of one client for one login in one window.
pub fn rate_key(client: &ClientId, user: &Username, win: u64) -> (k: String)
    ensures
        k@ == rate_key_text(client.0@, user@, win as nat),
{
    let mut k = "rl:".to_owned();
    k.append(client.0.as_str());
    k.append(":");
    k.append(user.as_str());
    k.append(":");
    k.append(decimal_string(win).as_str());
    k
}

/// Key of the block of one client for one login.
pub fn block_key(client: &ClientId, user: &Username) -> (k: String)
    ensures
        k@ == block_key_text(client.0@, user@),
{
    let mut k = "block:".to_owned();
    k.append(client.0.as_str());
    k.append(":");
    k.append(user.as_str());
    k
}

/// The logins listed in a stored text: its comma-separated entries, in order.
pub open spec fn split_at_commas(s: Seq<char>) -> Seq<Seq<char>>
    decreases s.len(),
{
    if s.len() == 0 {
        seq![seq![]]
    } else {
        let rest = split_at_commas(s.drop_last());
        if s.last() == ',' {
            rest.push(seq![])
        } else {
            rest.update(rest.len() - 1, rest.last().push(s.last()))
        }
    }
}

/// The logins asked for in the current minute, as stored: nothing when nothing is stored or
/// the text is empty, else its comma-separated entries.
pub open spec fn logins_of(t: Option<Seq<char>>) -> Seq<Seq<char>> {
    match t {
        Some(s) => if s.len() == 0 {
            seq![]
        } else {
            split_at_commas(s)
        },
        None => seq![],
    }
}

/// The stored text with one more login: the login alone when nothing is stored, else the
/// text, a comma and the login.
pub open spec fn with_login(t: Option<Seq<char>>, login: Seq<char>) -> Seq<char> {
    match t {
        Some(s) => if s.len() == 0 {
            login
        } else {
            s + ","@ + login
        },
        None => login,
    }
}

/// Key of the list of logins asked for in one minute, by any client.
pub open spec fn logins_key_text(win: nat) -> Seq<char> {
    "rl:ugl:"@ + decimal(win)
}

/// A text without commas is one entry.
proof fn lemma_split_plain(s: Seq<char>)
    requires
        forall|i: int| 0 <= i < s.len() ==> #[trigger] s[i] != ',',
    ensures
        split_at_commas(s) == seq![s],
    decreases s.len(),
{
    if s.len() > 0 {
        let p = s.drop_last();
        assert forall|i: int| 0 <= i < p.len() implies #[trigger] p[i] != ',' by {
            assert(p[i] == s[i]);
        }
        lemma_split_plain(p);
        assert(s.last() == s[s.len() - 1]);
        assert(s.last() != ',');
        assert(s.drop_last() == p);
        assert(split_at_commas(s) == split_at_commas(p).update(0, p.push(s.last())));
        assert(p.push(s.last()) == s);
        assert(seq![p].update(0, p.push(s.last())) =~= seq![s]);
    } else {
        assert(s =~= Seq::<char>::empty());
    }
}

/// The entries of a text never run out: there is always at least one.
proof fn lemma_split_nonempty(s: Seq<char>)
    ensures
        split_at_commas(s).len() >= 1,
    decreases s.len(),
{
    if s.len() > 0 {
        lemma_split_nonempty(s.drop_last());
    }
}

/// Characters without commas appended to a text extend its last entry.
proof fn lemma_split_extend(x: Seq<char>, y: Seq<char>)
    requires
        forall|i: int| 0 <= i < y.len() ==> #[trigger] y[i] != ',',
    ensures
        split_at_commas(x + y) == split_at_commas(x).update(
            split_at_commas(x).len() - 1,
            split_at_commas(x).last() + y,
        ),
    decreases y.len(),
{
    lemma_split_nonempty(x);
    let sx = split_at_commas(x);
    if y.len() == 0 {
        assert(x + y == x);
        assert(sx.last() + y == sx.last());
        assert(sx.update(sx.len() - 1, sx.last()) =~= sx);
    } else {
        let y0 = y.drop_last();
        let c = y.last();
        assert forall|i: int| 0 <= i < y0.len() implies #[trigger] y0[i] != ',' by {
            assert(y0[i] == y[i]);
        }
        lemma_split_extend(x, y0);
        assert(c == y[y.len() - 1]);
        assert((x + y).drop_last() == x + y0);
        assert((x + y).last() == c);
        lemma_split_nonempty(x + y0);
        let r0 = split_at_commas(x + y0);
        assert(r0 == sx.update(sx.len() - 1, sx.last() + y0));
        assert(r0.last() == sx.last() + y0);
        assert((sx.last() + y0).push(c) == sx.last() + y);
        assert(r0.update(r0.len() - 1, r0.last().push(c)) =~= sx.update(
            sx.len() - 1,
            sx.last() + y,
        ));
    }
}

/// Adding a login (a non-empty text without commas) to the stored list lists it last.
pub proof fn lemma_with_login_lists_it(t: Option<Seq<char>>, login: Seq<char>)
    requires
        login.len() > 0,
        forall|i: int| 0 <= i < login.len() ==> #[trigger] login[i] != ',',
    ensures
        logins_of(Some(with_login(t, login))) == logins_of(t).push(login),
{
    lemma_split_plain(login);
    match t {
        Some(s) => {
            if s.len() > 0 {
                reveal_strlit(",");
                let x = s + ","@;
                assert(x.drop_last() == s);
                assert(x.last() == ',');
                assert(split_at_commas(x) == split_at_commas(s).push(seq![]));
                lemma_split_extend(x, login);
                assert(s + ","@ + login == x + login);
                assert(Seq::<char>::empty() + login == login);
                assert(split_at_commas(s).push(seq![]).update(
                    split_at_commas(s).len() as int,
                    Seq::<char>::empty() + login,
                ) =~= split_at_commas(s).push(login));
            } else {
                assert(seq![login] =~= Seq::<Seq<char>>::empty().push(login));
            }
        },
        None => {
            assert(seq![login] =~= Seq::<Seq<char>>::empty().push(login));
        },
    }
}

/// The entries of a text, each as its characters.
pub open spec fn entries_view(v: Seq<Vec<char>>) -> Seq<Seq<char>> {
    v.map_values(|e: Vec<char>| e@)
}

/// The comma-separated entries of `text`.
fn listed_logins(text: &str) -> (v: Vec<Vec<char>>)
    ensures
        entries_view(v@) == split_at_commas(text@),
{
    let cs = chars_of(text);
    let mut v: Vec<Vec<char>> = Vec::new();
    v.push(Vec::new());
    let mut i: usize = 0;
    proof {
        assert(cs@.take(0) == Seq::<char>::empty());
        assert(entries_view(v@) =~= seq![Seq::<char>::empty()]);
    }
    while i < cs.len()
        invariant
            cs@ == text@,
            i <= cs@.len(),
            v@.len() >= 1,
            entries_view(v@) == split_at_commas(cs@.take(i as int)),
        decreases cs@.len() - i,
    {
        let c = cs[i];
        let ghost before = v@;
        proof {
            assert(cs@.take(i + 1).drop_last() == cs@.take(i as int));
            assert(cs@.take(i + 1).last() == c);
        }
        if c == ',' {
            v.push(Vec::new());
            proof {
                assert(entries_view(v@) =~= entries_view(before).push(seq![]));
            }
        } else {
            let mut last = v.pop().unwrap();
            let ghost old_last = last@;
            last.push(c);
            v.push(last);
            proof {
                assert(before.drop_last() == v@.drop_last());
                assert(entries_view(before)[before.len() - 1] == old_last);
                assert(entries_view(v@) =~= entries_view(before).update(
                    before.len() - 1,
                    old_last.push(c),
                ));
            }
        }
        i = i + 1;
    }
    proof {
        assert(cs@.take(i as int) == cs@);
    }
    v
}

/// Whether two character lists are the same.
fn same_chars(a: &Vec<char>, b: &Vec<char>) -> (r: bool)
    ensures
        r == (a@ == b@),
{
    if a.len() != b.len() {
        return false;
    }
    let mut i: usize = 0;
    while i < a.len()
        invariant
            a@.len() == b@.len(),
            i <= a@.len(),
            forall|k: int| 0 <= k < i ==> a@[k] == b@[k],
        decreases a@.len() - i,
    {
        if a[i] != b[i] {
            return false;
        }
        i = i + 1;
    }
    proof {
        assert(a@ =~= b@);
    }
    true
}

/// Whether `login` is one of the entries.
fn is_listed(entries: &Vec<Vec<char>>, login: &Vec<char>) -> (r: bool)
    ensures
        r == entries_view(entries@).contains(login@),
{
    let mut i: usize = 0;
    while i < entries.len()
        invariant
            i <= entries@.len(),
            forall|k: int| 0 <= k < i ==> #[trigger] entries@[k]@ != login@,
        decreases entries@.len() - i,
    {
        if same_chars(&entries[i], login) {
            proof {
                assert(entries_view(entries@)[i as int] == login@);
            }
            return true;
        }
        i = i + 1;
    }
    proof {
        if entries_view(entries@).contains(login@) {
            let k = choose|k: int|
                0 <= k < entries_view(entries@).len() && entries_view(entries@)[k] == login@;
            assert(entries@[k]@ == login@);
        }
    }
    false
}

/// Key of the list of logins asked for in one minute.
pub fn logins_key(win: u64) -> (k: String)
    ensures
        k@ == logins_key_text(win as nat),
{
    let mut k = "rl:ugl:".to_owned();
    k.append(decimal_string(win).as_str());
    k
}

/// The global checks at second `now`, from the text stored under the client's per-minute
/// counter and the text listing the logins asked for in this minute by any client.
///
/// The client is blocked once its counter has reached `GLOBAL_IP_MAX`, and its counter is
/// written back one higher (saturating). The login is blocked when it is not listed and
/// `GLOBAL_USERNAME_MAX` distinct logins already are; a login not listed and not blocked is
/// added to the list. What is written is kept for at least a minute.
pub fn decide_globals(
    now: u64,
    client: &ClientId,
    user: &Username,
    global_ip_text: Option<&str>,
    logins_text: Option<&str>,
) -> (r: GlobalCheckResult)
    ensures
        ({
            let win = window_of(now as nat, GLOBAL_WINDOW_SECS as nat);
            let ip_cnt = stored_count(text_of(global_ip_text));
            let seen = logins_of(text_of(logins_text));
            let listed = seen.contains(user@);
            &&& r.global_ip_blocked == (ip_cnt >= GLOBAL_IP_MAX)
            &&& r.username_blocked == (!listed && seen.len() >= GLOBAL_USERNAME_MAX)
            &&& r.global_ip_write matches Some(w) && w.key@ == global_ip_key_text(client.0@, win)
                && w.value@ == decimal(cap_u32(ip_cnt + 1) as nat) && w.ttl == expiry(
                GLOBAL_WINDOW_SECS as nat,
                now as nat,
                win,
            )
            &&& (listed || r.username_blocked) ==> r.username_write is None
            &&& (!listed && !r.username_blocked) ==> (r.username_write matches Some(w) && w.key@
                == logins_key_text(win) && w.value@ == with_login(text_of(logins_text), user@)
                && logins_of(Some(w.value@)) == seen.push(user@) && w.ttl == expiry(
                GLOBAL_WINDOW_SECS as nat,
                now as nat,
                win,
            ))
        }),
{
    let win = window_start(now, GLOBAL_WINDOW_SECS);
    let ttl = keep_at_least_a_minute(GLOBAL_WINDOW_SECS, now, win);
    let ip_cnt = read_count(global_ip_text);
    let global_ip_write = PendingWrite {
        key: global_ip_key(client, win),
        value: decimal_string(ip_cnt.saturating_add(1) as u64),
        ttl,
    };
    let login = user.as_str();
    let login_chars = chars_of(login);
    let (count, listed) = match logins_text {
        Some(t) => {
            if t.is_empty() {
                (0usize, false)
            } else {
                let entries = listed_logins(t);
                let listed = is_listed(&entries, &login_chars);
                (entries.len(), listed)
            }
        },
        None => (0usize, false),
    };
    let username_blocked = !listed && count >= GLOBAL_USERNAME_MAX as usize;
    let username_write = if listed || username_blocked {
        None
    } else {
        let value = match logins_text {
            Some(t) => {
                if t.is_empty() {
                    login.to_owned()
                } else {
                    let mut v = t.to_owned();
                    v.append(",");
                    v.append(login);
                    v
                }
            },
            None => login.to_owned(),
        };
        proof {
            assert(is_valid_login(login@));
            assert forall|i: int| 0 <= i < login@.len() implies #[trigger] login@[i] != ',' by {
                assert(is_login_char(login@[i]));
            }
            lemma_with_login_lists_it(text_of(logins_text), login@);
        }
        Some(PendingWrite { key: logins_key(win), value, ttl })
    };
    GlobalCheckResult {
        global_ip_blocked: ip_cnt >= GLOBAL_IP_MAX,
        username_blocked,
        global_ip_write: Some(global_ip_write),
        username_write,
    }
}

/// The per-client, per-login check refuses a request when a block is stored for the pair or
/// its counter for the window has reached the limit.
pub open spec fn rate_refuses(blocked: bool, cnt: nat, max: u32) -> bool {
    blocked || cnt >= max
}

/// What the per-client, per-login check decides.
#[derive(Debug)]
pub enum RateDecision {
    /// A block is stored for the pair: the request is refused and nothing is written.
    Blocked,
    /// The pair has used its budget for the window: the request is refused, and the block is
    /// to be stored (the counter is left as it is).
    LimitReached(PendingWrites),
    /// The request is admitted, with what is left of the budget and when the window ends, and
    /// the counter written back one higher.
    Admitted((u32, u64), PendingWrites),
}

/// What the per-client, per-login check decides at second `now` under `cfg`, for the client
/// `client` and the login `login`, from whether a block is stored for the pair and the text
/// `count` stored under its counter for the current window.
///
/// A stored block refuses the request, with nothing to write. A counter that has reached
/// `max_req` refuses it too, and calls for the block to be stored for `block_secs` (the
/// counter is written back as it was). Otherwise the request is admitted: the counter is
/// written back one higher, and the answer is what is left of the budget and when the window
/// ends.
pub open spec fn rate_decided(
    now: nat,
    client: Seq<char>,
    login: Seq<char>,
    cfg: RateConfig,
    blocked: bool,
    count: Option<Seq<char>>,
    r: RateDecision,
) -> bool {
    let win = window_of(now, cfg.window_secs as nat);
    let cnt = stored_count(count);
    &&& (r is Admitted) <==> !rate_refuses(blocked, cnt, cfg.max_req)
    &&& blocked ==> r is Blocked
    &&& !blocked && cnt >= cfg.max_req ==> (r matches RateDecision::LimitReached(w) && {
        &&& w.key@ == rate_key_text(client, login, win)
        &&& w.count_value@ == decimal(cnt)
        &&& w.count_ttl == cfg.window_secs
        &&& w.block_key matches Some(b) && b@ == block_key_text(client, login)
        &&& w.block_ttl == Some(cfg.block_secs)
    })
    &&& !blocked && cnt < cfg.max_req ==> (r matches RateDecision::Admitted(info, w) && {
        &&& info.0 == cfg.max_req - (cnt + 1)
        &&& info.1 == win + cfg.window_secs
        &&& w.key@ == rate_key_text(client, login, win)
        &&& w.count_value@ == decimal(cnt + 1)
        &&& w.count_ttl == expiry(cfg.window_secs as nat, now, win)
        &&& w.block_key is None
        &&& w.block_ttl is None
    })
}

/// The per-client, per-login check at second `now` under `cfg`, from whether a block is
/// stored for the pair and the text stored under its counter for the current window (see
/// `rate_decided`). The window must not be empty, and the end of the window of an admitted
/// request must be a representable second.
pub fn decide_rate(
    now: u64,
    client: &ClientId,
    user: &Username,
    cfg: RateConfig,
    blocked: bool,
    count_text: Option<&str>,
) -> (r: RateDecision)
    requires
        cfg.window_secs > 0,
        !blocked && stored_count(text_of(count_text)) < cfg.max_req ==> window_of(
            now as nat,
            cfg.window_secs as nat,
        ) + cfg.window_secs <= u64::MAX,
    ensures
        rate_decided(now as nat, client.0@, user@, cfg, blocked, text_of(count_text), r),
{
    let win = window_start(now, cfg.window_secs);
    let key = rate_key(client, user, win);
    if blocked {
        return RateDecision::Blocked;
    }
    let cnt = read_count(count_text);
    if cnt >= cfg.max_req {
        let writes = PendingWrites {
            key,
            count_value: decimal_string(cnt as u64),
            count_ttl: cfg.window_secs,
            block_key: Some(block_key(client, user)),
            block_ttl: Some(cfg.block_secs),
        };
        return RateDecision::LimitReached(writes);
    }
    let new_cnt = cnt + 1;
    let ttl = keep_at_least_a_minute(cfg.window_secs, now, win);
    let remaining = cfg.max_req - new_cnt;
    let reset = win + cfg.window_secs;
    let writes = PendingWrites {
        key,
        count_value: decimal_string(new_cnt as u64),
        count_ttl: ttl,
        block_key: None,
        block_ttl: None,
    };
    RateDecision::Admitted((remaining, reset), writes)
}

/// `w` is the store write that `writes` calls for: the block, when one is set (with its
/// duration), else the new counter.
pub open spec fn is_rate_write(writes: PendingWrites, w: Option<PendingWrite>) -> bool {
    &&& writes.block_key is Some ==> (match (writes.block_key, writes.block_ttl) {
        (Some(k), Some(t)) => w matches Some(p) && p.key@ == k@ && p.value@ == "blocked"@
            && p.ttl == t,
        _ => w is None,
    })
    &&& writes.block_key is None ==> (w matches Some(p) && p.key@ == writes.key@ && p.value@
        == writes.count_value@ && p.ttl == writes.count_ttl)
}

/// The store write that a per-client, per-login decision calls for: the block, when one is
/// set (with its duration), else the new counter.
pub fn rate_write(writes: PendingWrites) -> (w: Option<PendingWrite>)
    ensures
        is_rate_write(writes, w),
{
    match writes.block_key {
        Some(block_key) => match writes.block_ttl {
            Some(block_ttl) => Some(
                PendingWrite { key: block_key, value: "blocked".to_owned(), ttl: block_ttl },
            ),
            None => None,
        },
        None => Some(
            PendingWrite { key: writes.key, value: writes.count_value, ttl: writes.count_ttl },
        ),
    }
}

/// The store writes that the global checks call for, the client's counter first.
pub fn global_writes(res: GlobalCheckResult) -> (ws: Vec<PendingWrite>)
    ensures
        ws@.len() == (if res.global_ip_write is Some { 1int } else { 0int }) + (
        if res.username_write is Some {
            1int
        } else {
            0int
        }),
        res.global_ip_write matches Some(w) ==> ws@[0] == w,
        res.username_write matches Some(w) ==> ws@[ws@.len() - 1] == w,
{
    let mut ws: Vec<PendingWrite> = Vec::new();
    if let Some(w) = res.global_ip_write {
        ws.push(w);
    }
    if let Some(w) = res.username_write {
        ws.push(w);
    }
    ws
}

// ---------------------------------------------------------------------------------------
// Counters over successive requests
// ---------------------------------------------------------------------------------------

/// What is stored under a client's counter for one login after `n` requests in one window,
/// starting from nothing, when each request reads what the previous one left: an admitted
/// request stores its counter one higher, and a request at the limit stores the block and
/// leaves the counter as it was.
pub open spec fn rate_counter_after(max: u32, n: nat) -> Option<Seq<char>>
    decreases n,
{
    if n == 0 {
        None
    } else {
        let prev = rate_counter_after(max, (n - 1) as nat);
        let c = stored_count(prev);
        if c >= max {
            prev
        } else {
            Some(decimal(c + 1))
        }
    }
}

/// Within one window, the counter after `n` requests is `n` until it reaches `max_req`, and
/// stays there: so the requests that find `0 .. max_req - 1` earlier ones are admitted with
/// `max_req - 1, ..., 0` left, and the one that finds `max_req` earlier ones, and every later
/// one in the window, is refused.
pub proof fn lemma_rate_counter_replay(max: u32, n: nat)
    ensures
        rate_refuses(false, stored_count(rate_counter_after(max, n)), max) <==> n >= max,
        stored_count(rate_counter_after(max, n)) == if n <= max {
            n
        } else {
            max as nat
        },
    decreases n,
{
    if n > 0 {
        lemma_rate_counter_replay(max, (n - 1) as nat);
        let c = stored_count(rate_counter_after(max, (n - 1) as nat));
        if c < max {
            lemma_parse_decimal_roundtrip((c + 1) as u32);
        }
    }
}

/// What is stored under a client's per-minute counter after `n` requests in one minute,
/// starting from nothing, when each request reads what the previous one left.
pub open spec fn global_counter_after(n: nat) -> Option<Seq<char>>
    decreases n,
{
    if n == 0 {
        None
    } else {
        Some(decimal(cap_u32(stored_count(global_counter_after((n - 1) as nat)) + 1) as nat))
    }
}

/// A client's per-minute counter counts every request of the minute (up to `u32::MAX`): the
/// request that finds `n` earlier ones is blocked exactly when `n` has reached the limit.
pub proof fn lemma_global_counter_replay(n: nat)
    ensures
        stored_count(global_counter_after(n)) == cap_u32(n),
    decreases n,
{
    if n > 0 {
        lemma_global_counter_replay((n - 1) as nat);
        lemma_parse_decimal_roundtrip(cap_u32(stored_count(global_counter_after((n - 1) as nat)) + 1));
    }
}

/// Whether an entry written at second `at` with a time-to-live of `ttl` seconds is still in
/// the store at second `t`: from the second it is written until its time-to-live runs out.
pub open spec fn stored_at(at: nat, ttl: nat, t: nat) -> bool {
    at <= t < at + ttl
}

/// An admitted request leaves one less for the next request of the same window: a request
/// of the pair later in the window (with no block stored) reads back the counter the first
/// one wrote, under the same key, and is admitted with one less left and the same end of the
/// window, or, when nothing was left, is refused and calls for the block of the pair.
pub proof fn lemma_remaining_pays_down(
    now1: nat,
    now2: nat,
    client: Seq<char>,
    login: Seq<char>,
    cfg: RateConfig,
    count1: Option<Seq<char>>,
    r1: RateDecision,
    r2: RateDecision,
)
    requires
        cfg.window_secs > 0,
        now1 / (cfg.window_secs as nat) == now2 / (cfg.window_secs as nat),
        rate_decided(now1, client, login, cfg, false, count1, r1),
        r1 is Admitted,
        rate_decided(now2, client, login, cfg, false, Some(r1->Admitted_1.count_value@), r2),
    ensures
        r1->Admitted_1.key@ == rate_key_text(client, login, window_of(now2, cfg.window_secs as nat)),
        r1->Admitted_0.0 > 0 ==> (r2 matches RateDecision::Admitted(info2, w2) && info2.0
            == r1->Admitted_0.0 - 1 && info2.1 == r1->Admitted_0.1 && w2.key@ == r1->Admitted_1.key@),
        r1->Admitted_0.0 == 0 ==> (r2 matches RateDecision::LimitReached(w2) && w2.block_key matches Some(
            b,
        ) && b@ == block_key_text(client, login) && w2.block_ttl == Some(cfg.block_secs)),
{
    let cnt = stored_count(count1);
    lemma_parse_decimal_roundtrip((cnt + 1) as u32);
}

/// The block holds for `block_secs`: when a check of the pair finds the limit reached, the
/// write it calls for is the block of the pair, kept for `block_secs`; written at second
/// `at`, it is found by every check of the pair during the next `block_secs` seconds, and
/// each of those checks refuses with nothing to write, whatever the counter says.
pub proof fn lemma_block_holds(
    now1: nat,
    client: Seq<char>,
    login: Seq<char>,
    cfg: RateConfig,
    blocked1: bool,
    count1: Option<Seq<char>>,
    r1: RateDecision,
    p: PendingWrite,
    at: nat,
    t: nat,
    count2: Option<Seq<char>>,
    r2: RateDecision,
)
    requires
        rate_decided(now1, client, login, cfg, blocked1, count1, r1),
        r1 matches RateDecision::LimitReached(w) && is_rate_write(w, Some(p)),
        at <= t < at + cfg.block_secs,
        rate_decided(t, client, login, cfg, stored_at(at, p.ttl as nat, t), count2, r2),
    ensures
        p.key@ == block_key_text(client, login),
        p.ttl == cfg.block_secs,
        stored_at(at, p.ttl as nat, t),
        r2 is Blocked,
{
}

/// The logins admitted in one minute, in order, when the logins `reqs` are asked for one
/// after another: a login already admitted is admitted again, a new one only while fewer
/// than `GLOBAL_USERNAME_MAX` are.
pub open spec fn admitted_logins(reqs: Seq<Seq<char>>) -> Seq<Seq<char>>
    decreases reqs.len(),
{
    if reqs.len() == 0 {
        seq![]
    } else {
        let a = admitted_logins(reqs.drop_last());
        let l = reqs.last();
        if a.contains(l) || a.len() >= GLOBAL_USERNAME_MAX {
            a
        } else {
            a.push(l)
        }
    }
}

/// What is stored under the list of logins after the logins `reqs` are asked for one after
/// another in one minute, starting from nothing, each check reading what the previous one
/// left and writing what `decide_globals` asks for.
pub open spec fn logins_stored_after(reqs: Seq<Seq<char>>) -> Option<Seq<char>>
    decreases reqs.len(),
{
    if reqs.len() == 0 {
        None
    } else {
        let prev = logins_stored_after(reqs.drop_last());
        let seen = logins_of(prev);
        let l = reqs.last();
        if seen.contains(l) || seen.len() >= GLOBAL_USERNAME_MAX {
            prev
        } else {
            Some(with_login(prev, l))
        }
    }
}

/// The stored list of logins is the list of logins admitted so far.
pub proof fn lemma_logins_stored(reqs: Seq<Seq<char>>)
    requires
        forall|i: int| 0 <= i < reqs.len() ==> is_valid_login(#[trigger] reqs[i]),
    ensures
        logins_of(logins_stored_after(reqs)) == admitted_logins(reqs),
    decreases reqs.len(),
{
    if reqs.len() > 0 {
        let p = reqs.drop_last();
        assert forall|i: int| 0 <= i < p.len() implies is_valid_login(#[trigger] p[i]) by {
            assert(p[i] == reqs[i]);
        }
        lemma_logins_stored(p);
        let l = reqs.last();
        assert(is_valid_login(reqs[reqs.len() - 1]));
        assert forall|i: int| 0 <= i < l.len() implies #[trigger] l[i] != ',' by {
            assert(is_login_char(l[i]));
        }
        lemma_with_login_lists_it(logins_stored_after(p), l);
    }
}

/// The logins admitted in a minute are the first `GLOBAL_USERNAME_MAX` distinct logins asked
/// for, in the order in which they were first asked for: the next new login is refused.
pub proof fn lemma_first_distinct_logins_admitted(reqs: Seq<Seq<char>>)
    ensures
        admitted_logins(reqs) == distinct_in_order(reqs).take(
            if distinct_in_order(reqs).len() < GLOBAL_USERNAME_MAX {
                distinct_in_order(reqs).len() as int
            } else {
                GLOBAL_USERNAME_MAX as int
            },
        ),
    decreases reqs.len(),
{
    if reqs.len() == 0 {
        assert(distinct_in_order(reqs).take(0) =~= Seq::<Seq<char>>::empty());
    } else {
        let p = reqs.drop_last();
        let l = reqs.last();
        lemma_first_distinct_logins_admitted(p);
        lemma_distinct_in_order(p);
        let d = distinct_in_order(p);
        let a = admitted_logins(p);
        assert(reqs[reqs.len() - 1] == l);
        if d.len() >= GLOBAL_USERNAME_MAX {
            assert(a.len() == GLOBAL_USERNAME_MAX);
            let d2 = distinct_in_order(reqs);
            if d.contains(l) {
                assert(d2 == d);
            } else {
                assert(d2 == d.push(l));
                assert(d2.take(GLOBAL_USERNAME_MAX as int) =~= d.take(GLOBAL_USERNAME_MAX as int));
            }
        } else {
            assert(a =~= d);
            if d.contains(l) {
                assert(distinct_in_order(reqs) == d);
            } else {
                assert(distinct_in_order(reqs) == d.push(l));
                assert(d.push(l).take(d.len() + 1int) =~= d.push(l));
            }
            assert(distinct_in_order(reqs).take(distinct_in_order(reqs).len() as int)
                =~= distinct_in_order(reqs));
        }
    }
}

} // verus!
