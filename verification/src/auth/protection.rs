//! Which mutating requests may run, and the throttles on expensive
//! authentication work.
use vstd::prelude::*;

use crate::auth::session::{hash_token, token_digest};
use crate::error::{joined, owned, ApiError};
use crate::text::{same_text, starts_with};

verus! {

/// How long an attempt window lasts, in milliseconds.
pub const WINDOW_MS: u64 = 60_000;

/// How many windows are held at most; beyond that a new key is refused.
pub const MAX_WINDOWS: usize = 4096;

/// Attempts a peer may make on the authentication routes per window.
pub const PEER_LIMIT: u32 = 30;

/// Attempts one account may take per window.
pub const ACCOUNT_LIMIT: u32 = 10;

pub open spec fn read_method(m: Seq<char>) -> bool {
    m == "GET"@ || m == "HEAD"@ || m == "OPTIONS"@
}

pub open spec fn bearer_header(a: Option<Seq<char>>) -> bool {
    match a {
        Some(t) => t.len() >= 7 && t.subrange(0, 7) == "Bearer "@,
        None => false,
    }
}

/// Whether a request may go on: reads always; a write must come from a
/// trusted origin when it names one, and on a hosted deployment it must
/// either come from a trusted origin or be a bearer client without cookies,
/// which carries no ambient browser authority.
pub open spec fn origin_allows(
    method: Seq<char>,
    origin_present: bool,
    origin: Option<Seq<char>>,
    trusted_origins: Seq<Seq<char>>,
    authorization: Option<Seq<char>>,
    has_cookie: bool,
    hosted: bool,
) -> bool {
    let trusted = match origin {
        Some(o) => trusted_origins.contains(o),
        None => false,
    };
    let bearer = bearer_header(authorization) && !has_cookie;
    read_method(method) || !((origin_present && !trusted) || (hosted && !trusted && !bearer))
}

pub open spec fn opt_text(o: Option<&str>) -> Option<Seq<char>> {
    match o {
        Some(s) => Some(s@),
        None => None,
    }
}

/// The origin check on mutating requests. `origin` and `authorization` are
/// the headers' text where they are readable as text; `origin_present` says
/// whether an `Origin` header was sent at all.
pub fn origin_permitted(
    method: &str,
    origin_present: bool,
    origin: Option<&str>,
    trusted_origins: &[String],
    authorization: Option<&str>,
    has_cookie: bool,
    hosted: bool,
) -> (r: bool)
    ensures
        r == origin_allows(
            method@,
            origin_present,
            opt_text(origin),
            crate::text::views(trusted_origins@),
            opt_text(authorization),
            has_cookie,
            hosted,
        ),
{
    if same_text(method, "GET") || same_text(method, "HEAD") || same_text(method, "OPTIONS") {
        return true;
    }
    let trusted = match origin {
        Some(o) => {
            let mut found = false;
            let mut i: usize = 0;
            while i < trusted_origins.len() && !found
                invariant
                    i <= trusted_origins@.len(),
                    found ==> crate::text::views(trusted_origins@).contains(o@),
                    !found ==> forall|j: int| 0 <= j < i ==> trusted_origins@[j]@ != o@,
                decreases trusted_origins@.len() - i,
            {
                if same_text(trusted_origins[i].as_str(), o) {
                    assert(crate::text::views(trusted_origins@)[i as int] == o@);
                    found = true;
                }
                i = i + 1;
            }
            proof {
                if !found && crate::text::views(trusted_origins@).contains(o@) {
                    let k = choose|k: int|
                        0 <= k < trusted_origins@.len() && crate::text::views(trusted_origins@)[k]
                            == o@;
                    assert(trusted_origins@[k]@ == o@);
                }
            }
            found
        },
        None => false,
    };
    let bearer = match authorization {
        Some(a) => starts_with(a, "Bearer "),
        None => false,
    } && !has_cookie;
    proof {
        reveal_strlit("Bearer ");
    }
    !((origin_present && !trusted) || (hosted && !trusted && !bearer))
}

/// The attempt throttle guards a hosted deployment's authentication posts.
pub fn throttle_applies(hosted: bool, method: &str, path: &str) -> (r: bool)
    ensures
        r == (hosted && method@ == "POST"@ && path@.len() >= 10 && path@.subrange(0, 10)
            == "/api/auth/"@),
{
    proof {
        reveal_strlit("/api/auth/");
    }
    hosted && same_text(method, "POST") && starts_with(path, "/api/auth/")
}

/// One key's attempts within a window that began at `started_ms`.
pub struct Window {
    pub key: String,
    pub started_ms: u64,
    pub attempts: u32,
}

pub open spec fn window_views(v: Seq<Window>) -> Seq<(Seq<char>, u64, u32)> {
    v.map_values(|w: Window| (w.key@, w.started_ms, w.attempts))
}

/// A window still counts while less than a minute has passed since it
/// began (a clock that went backwards counts as no time passed).
pub open spec fn live(started: u64, now: u64) -> bool {
    now < started + WINDOW_MS
}

/// The windows still live at `now`, in order.
pub open spec fn retained(v: Seq<(Seq<char>, u64, u32)>, now: u64) -> Seq<(Seq<char>, u64, u32)>
    decreases v.len(),
{
    if v.len() == 0 {
        v
    } else {
        let before = retained(v.drop_last(), now);
        if live(v.last().1, now) {
            before.push(v.last())
        } else {
            before
        }
    }
}

pub open spec fn has_key(v: Seq<(Seq<char>, u64, u32)>, key: Seq<char>) -> bool {
    exists|i: int| 0 <= i < v.len() && v[i].0 == key
}

pub open spec fn key_index(v: Seq<(Seq<char>, u64, u32)>, key: Seq<char>) -> int {
    choose|i: int| 0 <= i < v.len() && v[i].0 == key
}

pub open spec fn bump(a: u32) -> u32 {
    if a < u32::MAX {
        (a + 1) as u32
    } else {
        a
    }
}

/// One attempt under `key` at `now`: expired windows are dropped; a key
/// without a window gets none once `MAX_WINDOWS` are held, and is refused;
/// otherwise its window counts the attempt, and it is refused past `limit`.
pub open spec fn attempt(v: Seq<(Seq<char>, u64, u32)>, key: Seq<char>, now: u64, limit: u32) -> (
    Seq<(Seq<char>, u64, u32)>,
    bool,
) {
    let r = retained(v, now);
    if r.len() >= MAX_WINDOWS && !has_key(r, key) {
        (r, true)
    } else if has_key(r, key) {
        let i = key_index(r, key);
        let a = bump(r[i].2);
        (r.update(i, (key, r[i].1, a)), a > limit)
    } else {
        (r.push((key, now, 1u32)), 1 > limit)
    }
}

/// Attempt windows keyed by peer address or by account.
pub struct AttemptWindows {
    windows: Vec<Window>,
}

impl AttemptWindows {
    pub closed spec fn state(&self) -> Seq<(Seq<char>, u64, u32)> {
        window_views(self.windows@)
    }

    /// Each key has one window, and no more than `MAX_WINDOWS` are held.
    pub open spec fn wf(&self) -> bool {
        &&& self.state().len() <= MAX_WINDOWS
        &&& forall|i: int, j: int|
            0 <= i < j < self.state().len() ==> #[trigger] self.state()[i].0
                != #[trigger] self.state()[j].0
    }

    pub fn new() -> (r: Self)
        ensures
            r.wf(),
            r.state() == Seq::<(Seq<char>, u64, u32)>::empty(),
    {
        let r = AttemptWindows { windows: Vec::new() };
        assert(r.state() == Seq::<(Seq<char>, u64, u32)>::empty());
        r
    }

    /// Count one attempt under `key`; true when it is refused.
    pub fn record(&mut self, key: &str, now_ms: u64, limit: u32) -> (limited: bool)
        requires
            old(self).wf(),
        ensures
            final(self).wf(),
            (final(self).state(), limited) == attempt(old(self).state(), key@, now_ms, limit),
    {
        let ghost before = self.state();
        let mut kept: Vec<Window> = Vec::new();
        let mut i: usize = 0;
        while i < self.windows.len()
            invariant
                i <= self.windows@.len(),
                window_views(self.windows@) == before,
                window_views(kept@) == retained(before.subrange(0, i as int), now_ms),
                kept@.len() <= i,
            decreases self.windows@.len() - i,
        {
            let w = &self.windows[i];
            assert(before.subrange(0, i + 1).drop_last() == before.subrange(0, i as int));
            assert(before[i as int] == (w.key@, w.started_ms, w.attempts));
            if (now_ms as u128) < (w.started_ms as u128) + (WINDOW_MS as u128) {
                let ghost old_kept = kept@;
                kept.push(Window { key: owned(w.key.as_str()), started_ms: w.started_ms, attempts: w.attempts });
                assert(window_views(kept@) == window_views(old_kept).push(before[i as int]));
            }
            i = i + 1;
        }
        assert(before.subrange(0, before.len() as int) == before);
        let ghost r = retained(before, now_ms);
        proof {
            lemma_retained_sub(before, now_ms);
        }
        let mut found: Option<usize> = None;
        let mut j: usize = 0;
        while j < kept.len() && found.is_none()
            invariant
                j <= kept@.len(),
                window_views(kept@) == r,
                found matches Some(k) ==> k < kept@.len() && r[k as int].0 == key@,
                found is None ==> forall|m: int| 0 <= m < j ==> r[m].0 != key@,
            decreases kept@.len() - j,
        {
            if same_text(kept[j].key.as_str(), key) {
                found = Some(j);
            }
            j = j + 1;
        }
        proof {
            lemma_retained_distinct(before, now_ms);
        }
        match found {
            None => {
                proof {
                    assert(!has_key(r, key@));
                }
                if kept.len() >= MAX_WINDOWS {
                    self.windows = kept;
                    return true;
                }
                let ghost old_kept = kept@;
                kept.push(Window { key: owned(key), started_ms: now_ms, attempts: 1 });
                assert(window_views(kept@) == r.push((key@, now_ms, 1u32)));
                self.windows = kept;
                proof {
                    assert forall|a: int, b: int|
                        0 <= a < b < self.state().len() implies #[trigger] self.state()[a].0
                        != #[trigger] self.state()[b].0 by {
                        if b == r.len() {
                            assert(r[a].0 != key@);
                        }
                    }
                }
                1 > limit
            },
            Some(k) => {
                proof {
                    let c = choose|c: int| 0 <= c < r.len() && r[c].0 == key@;
                    if c != k {
                        if c < k {
                            assert(r[c].0 != r[k as int].0);
                        } else {
                            assert(r[k as int].0 != r[c].0);
                        }
                    }
                    assert(key_index(r, key@) == k);
                }
                let mut w = kept.remove(k);
                let a = if w.attempts < u32::MAX {
                    w.attempts + 1
                } else {
                    w.attempts
                };
                w.attempts = a;
                let ghost started = w.started_ms;
                let ghost wkey = w.key@;
                kept.insert(k, w);
                assert(window_views(kept@) == r.update(k as int, (key@, started, a)));
                self.windows = kept;
                proof {
                    assert forall|x: int, y: int|
                        0 <= x < y < self.state().len() implies #[trigger] self.state()[x].0
                        != #[trigger] self.state()[y].0 by {
                        assert(self.state()[x].0 == r[x].0);
                        assert(self.state()[y].0 == r[y].0);
                    }
                }
                a > limit
            },
        }
    }

    /// Count one attempt from a peer on the authentication routes; true when
    /// it is refused.
    pub fn peer_attempt(&mut self, peer: &str, now_ms: u64) -> (limited: bool)
        requires
            old(self).wf(),
        ensures
            final(self).wf(),
            (final(self).state(), limited) == attempt(old(self).state(), peer@, now_ms, PEER_LIMIT),
    {
        self.record(peer, now_ms, PEER_LIMIT)
    }

    /// Count one attempt on an account, keyed by the digest of its address so
    /// the address itself is never held.
    pub fn account_attempt(&mut self, email: &str, now_ms: u64) -> (r: Result<(), ApiError>)
        requires
            old(self).wf(),
        ensures
            final(self).wf(),
            ({
                let (s, limited) = attempt(
                    old(self).state(),
                    "account:"@ + token_digest(email@),
                    now_ms,
                    ACCOUNT_LIMIT,
                );
                &&& final(self).state() == s
                &&& (r is Ok <==> !limited)
                &&& (r is Err ==> (r matches Err(ApiError::Conflict(m)) && m@
                    == "Too many attempts. Retry in one minute."@))
            }),
    {
        let digest = hash_token(email);
        let key = joined("account:", digest.as_str());
        if self.record(key.as_str(), now_ms, ACCOUNT_LIMIT) {
            return Err(ApiError::Conflict(owned("Too many attempts. Retry in one minute.")));
        }
        Ok(())
    }
}

/// Keys are held once each.
pub open spec fn distinct_keys(v: Seq<(Seq<char>, u64, u32)>) -> bool {
    forall|i: int, j: int| 0 <= i < j < v.len() ==> #[trigger] v[i].0 != #[trigger] v[j].0
}

/// A run of attempts under one key, in order: the windows afterwards and how
/// many of the attempts were let through.
pub open spec fn attempt_run(v: Seq<(Seq<char>, u64, u32)>, key: Seq<char>, times: Seq<u64>, limit: u32) -> (
    Seq<(Seq<char>, u64, u32)>,
    nat,
)
    decreases times.len(),
{
    if times.len() == 0 {
        (v, 0)
    } else {
        let (s, n) = attempt_run(v, key, times.drop_last(), limit);
        let (t, refused) = attempt(s, key, times.last(), limit);
        (t, if refused { n } else { n + 1 })
    }
}

/// What holds between the attempts of a run that began at `t0`: the key's
/// windows either began at `t0` or later, or were already over at `t0`; and
/// the attempts let through are counted in a window that began no earlier
/// than `t0`.
spec fn run_inv(
    s: Seq<(Seq<char>, u64, u32)>,
    key: Seq<char>,
    t0: u64,
    limit: u32,
    n: nat,
) -> bool {
    &&& distinct_keys(s)
    &&& forall|i: int| 0 <= i < s.len() && #[trigger] s[i].0 == key ==> t0 <= s[i].1 || !live(s[i].1, t0)
    &&& n <= limit
    &&& n > 0 ==> exists|i: int| 0 <= i < s.len() && #[trigger] s[i].0 == key && t0 <= s[i].1 && n <= s[i].2
}

proof fn lemma_retained_keeps_live(v: Seq<(Seq<char>, u64, u32)>, now: u64, i: int)
    requires
        0 <= i < v.len(),
        live(v[i].1, now),
    ensures
        retained(v, now).contains(v[i]),
    decreases v.len(),
{
    if i < v.len() - 1 {
        lemma_retained_keeps_live(v.drop_last(), now, i);
        let before = retained(v.drop_last(), now);
        let k = choose|k: int| 0 <= k < before.len() && before[k] == v.drop_last()[i];
        assert(retained(v, now)[k] == v[i]);
    } else {
        let r = retained(v, now);
        assert(r[r.len() - 1] == v.last());
    }
}

proof fn lemma_retained_live(v: Seq<(Seq<char>, u64, u32)>, now: u64)
    ensures
        forall|j: int| 0 <= j < retained(v, now).len() ==> live(#[trigger] retained(v, now)[j].1, now),
    decreases v.len(),
{
    if v.len() > 0 {
        lemma_retained_live(v.drop_last(), now);
        let before = retained(v.drop_last(), now);
        assert forall|j: int| 0 <= j < retained(v, now).len() implies live(#[trigger] retained(v, now)[j].1, now) by {
            if j < before.len() {
                assert(retained(v, now)[j] == before[j]);
            }
        }
    }
}

proof fn lemma_run_step(
    s: Seq<(Seq<char>, u64, u32)>,
    key: Seq<char>,
    t0: u64,
    t: u64,
    limit: u32,
    n: nat,
)
    requires
        run_inv(s, key, t0, limit, n),
        t0 <= t,
        t < t0 + WINDOW_MS,
        limit < u32::MAX,
    ensures
        ({
            let (s2, refused) = attempt(s, key, t, limit);
            run_inv(s2, key, t0, limit, if refused { n } else { n + 1 })
        }),
{
    let r = retained(s, t);
    lemma_retained_sub(s, t);
    lemma_retained_distinct(s, t);
    lemma_retained_live(s, t);
    // Every window of `r` under the key began at `t0` or later.
    assert forall|j: int| 0 <= j < r.len() && #[trigger] r[j].0 == key implies t0 <= r[j].1 by {
        let k = choose|k: int| 0 <= k < s.len() && s[k] == r[j];
        assert(s[k].0 == key);
        assert(live(r[j].1, t));
    }
    if n > 0 {
        let i = choose|i: int| 0 <= i < s.len() && #[trigger] s[i].0 == key && t0 <= s[i].1 && n <= s[i].2;
        assert(live(s[i].1, t));
        lemma_retained_keeps_live(s, t, i);
        let j = choose|j: int| 0 <= j < r.len() && r[j] == s[i];
        assert(r[j].0 == key);
        assert(has_key(r, key));
        let m = key_index(r, key);
        if m != j {
            if m < j {
                assert(r[m].0 != r[j].0);
            } else {
                assert(r[j].0 != r[m].0);
            }
        }
    }
    let (s2, refused) = attempt(s, key, t, limit);
    let n2: nat = if refused { n } else { n + 1 };
    if r.len() >= MAX_WINDOWS && !has_key(r, key) {
        assert(s2 == r);
    } else if has_key(r, key) {
        let m = key_index(r, key);
        let a = bump(r[m].2);
        assert(s2 == r.update(m, (key, r[m].1, a)));
        assert forall|x: int, y: int| 0 <= x < y < s2.len() implies #[trigger] s2[x].0 != #[trigger] s2[y].0 by {
            assert(s2[x].0 == r[x].0);
            assert(s2[y].0 == r[y].0);
        }
        assert forall|x: int| 0 <= x < s2.len() && #[trigger] s2[x].0 == key implies t0 <= s2[x].1 || !live(s2[x].1, t0) by {
            assert(s2[x].1 == r[x].1);
            assert(r[x].0 == key);
        }
        if n2 > 0 {
            assert(s2[m].0 == key && t0 <= s2[m].1 && n2 <= s2[m].2);
        }
    } else {
        assert(s2 == r.push((key, t, 1u32)));
        assert forall|x: int, y: int| 0 <= x < y < s2.len() implies #[trigger] s2[x].0 != #[trigger] s2[y].0 by {
            if y == r.len() {
                assert(s2[x] == r[x]);
                assert(r[x].0 != key);
            } else {
                assert(s2[x] == r[x] && s2[y] == r[y]);
            }
        }
        assert forall|x: int| 0 <= x < s2.len() && #[trigger] s2[x].0 == key implies t0 <= s2[x].1 || !live(s2[x].1, t0) by {
            if x < r.len() {
                assert(s2[x] == r[x]);
            }
        }
        if n2 > 0 {
            let l = r.len() as int;
            assert(s2[l].0 == key && t0 <= s2[l].1 && n2 <= s2[l].2);
        }
    }
}

proof fn lemma_run_inv(
    v: Seq<(Seq<char>, u64, u32)>,
    key: Seq<char>,
    times: Seq<u64>,
    t0: u64,
    limit: u32,
)
    requires
        distinct_keys(v),
        !has_key(retained(v, t0), key),
        forall|i: int| 0 <= i < times.len() ==> t0 <= #[trigger] times[i] < t0 + WINDOW_MS,
        limit < u32::MAX,
    ensures
        run_inv(attempt_run(v, key, times, limit).0, key, t0, limit, attempt_run(v, key, times, limit).1),
    decreases times.len(),
{
    if times.len() == 0 {
        assert forall|i: int| 0 <= i < v.len() && #[trigger] v[i].0 == key implies t0 <= v[i].1 || !live(v[i].1, t0) by {
            if live(v[i].1, t0) {
                lemma_retained_keeps_live(v, t0, i);
                let j = choose|j: int| 0 <= j < retained(v, t0).len() && retained(v, t0)[j] == v[i];
                assert(retained(v, t0)[j].0 == key);
            }
        }
    } else {
        let d = times.drop_last();
        assert forall|i: int| 0 <= i < d.len() implies t0 <= #[trigger] d[i] < t0 + WINDOW_MS by {
            assert(d[i] == times[i]);
        }
        lemma_run_inv(v, key, d, t0, limit);
        let (s, n) = attempt_run(v, key, d, limit);
        assert(times.last() == times[times.len() - 1]);
        lemma_run_step(s, key, t0, times.last(), limit, n);
    }
}

/// Of any run of attempts under one key that starts when the key has no
/// live window and stays within one minute of its start, at most `limit`
/// are let through, whatever other keys do meanwhile.
pub proof fn attempts_per_window_are_capped(
    v: Seq<(Seq<char>, u64, u32)>,
    key: Seq<char>,
    times: Seq<u64>,
    t0: u64,
    limit: u32,
)
    requires
        distinct_keys(v),
        !has_key(retained(v, t0), key),
        forall|i: int| 0 <= i < times.len() ==> t0 <= #[trigger] times[i] < t0 + WINDOW_MS,
        limit < u32::MAX,
    ensures
        attempt_run(v, key, times, limit).1 <= limit,
{
    lemma_run_inv(v, key, times, t0, limit);
}

proof fn lemma_retained_sub(v: Seq<(Seq<char>, u64, u32)>, now: u64)
    ensures
        retained(v, now).len() <= v.len(),
        forall|i: int| 0 <= i < retained(v, now).len() ==> v.contains(#[trigger] retained(v, now)[i]),
    decreases v.len(),
{
    if v.len() > 0 {
        lemma_retained_sub(v.drop_last(), now);
        let before = retained(v.drop_last(), now);
        assert forall|i: int| 0 <= i < retained(v, now).len() implies v.contains(#[trigger] retained(v, now)[i]) by {
            if i < before.len() {
                assert(retained(v, now)[i] == before[i]);
                let k = choose|k: int| 0 <= k < v.len() - 1 && v.drop_last()[k] == before[i];
                assert(v[k] == before[i]);
            } else {
                assert(retained(v, now)[i] == v.last());
                assert(v[v.len() - 1] == v.last());
            }
        }
    }
}

proof fn lemma_retained_distinct(v: Seq<(Seq<char>, u64, u32)>, now: u64)
    requires
        forall|i: int, j: int| 0 <= i < j < v.len() ==> #[trigger] v[i].0 != #[trigger] v[j].0,
    ensures
        forall|i: int, j: int|
            0 <= i < j < retained(v, now).len() ==> #[trigger] retained(v, now)[i].0
                != #[trigger] retained(v, now)[j].0,
    decreases v.len(),
{
    if v.len() > 0 {
        let d = v.drop_last();
        assert forall|i: int, j: int| 0 <= i < j < d.len() implies #[trigger] d[i].0 != #[trigger] d[j].0 by {
            assert(d[i] == v[i] && d[j] == v[j]);
        }
        lemma_retained_distinct(d, now);
        lemma_retained_sub(d, now);
        let before = retained(d, now);
        if live(v.last().1, now) {
            assert forall|i: int| 0 <= i < before.len() implies before[i].0 != v.last().0 by {
                assert(d.contains(before[i]));
                let k = choose|k: int| 0 <= k < d.len() && d[k] == before[i];
                assert(v[k] == before[i]);
                assert(v[k].0 != v[v.len() - 1].0);
            }
        }
    }
}

/// Windows only run out as time passes: later, no more windows are live,
/// and a key without a live window still has none.
proof fn lemma_retained_later(v: Seq<(Seq<char>, u64, u32)>, t0: u64, t1: u64, key: Seq<char>)
    requires
        t0 <= t1,
    ensures
        retained(v, t1).len() <= retained(v, t0).len(),
        has_key(retained(v, t1), key) ==> has_key(retained(v, t0), key),
    decreases v.len(),
{
    if v.len() > 0 {
        let d = v.drop_last();
        lemma_retained_later(d, t0, t1, key);
        let b0 = retained(d, t0);
        let b1 = retained(d, t1);
        if has_key(retained(v, t1), key) {
            let i = choose|i: int| 0 <= i < retained(v, t1).len() && retained(v, t1)[i].0 == key;
            if i < b1.len() {
                assert(retained(v, t1)[i] == b1[i]);
                assert(has_key(b1, key));
                let j = choose|j: int| 0 <= j < b0.len() && b0[j].0 == key;
                assert(retained(v, t0)[j] == b0[j]);
            } else {
                assert(retained(v, t1)[i] == v.last());
                assert(live(v.last().1, t0));
                let l = b0.len() as int;
                assert(retained(v, t0)[l] == v.last());
            }
        }
    }
}

/// The attempts let through of a run: all of them up to the limit.
pub open spec fn let_through(k: nat, limit: u32) -> nat {
    if k <= limit {
        k
    } else {
        limit as nat
    }
}

/// What holds after the first `j` attempts of a run that opened the key's
/// window at `t1`: the key has exactly that window, counting the attempts.
spec fn open_inv(s: Seq<(Seq<char>, u64, u32)>, key: Seq<char>, t1: u64, j: nat) -> bool {
    &&& distinct_keys(s)
    &&& has_key(s, key)
    &&& s[key_index(s, key)].1 == t1
    &&& s[key_index(s, key)].2 == (if j <= u32::MAX {
        j
    } else {
        u32::MAX as nat
    })
}

proof fn lemma_key_index(s: Seq<(Seq<char>, u64, u32)>, key: Seq<char>, m: int)
    requires
        distinct_keys(s),
        0 <= m < s.len(),
        s[m].0 == key,
    ensures
        has_key(s, key),
        key_index(s, key) == m,
{
    let c = key_index(s, key);
    if c != m {
        if c < m {
            assert(s[c].0 != s[m].0);
        } else {
            assert(s[m].0 != s[c].0);
        }
    }
}

proof fn lemma_open_run(
    v: Seq<(Seq<char>, u64, u32)>,
    key: Seq<char>,
    times: Seq<u64>,
    t0: u64,
    limit: u32,
)
    requires
        distinct_keys(v),
        !has_key(retained(v, t0), key),
        retained(v, t0).len() < MAX_WINDOWS,
        times.len() >= 1,
        forall|i: int| 0 <= i < times.len() ==> t0 <= #[trigger] times[i] < t0 + WINDOW_MS,
        limit < u32::MAX,
    ensures
        open_inv(attempt_run(v, key, times, limit).0, key, times[0], times.len()),
        attempt_run(v, key, times, limit).1 == let_through(times.len(), limit),
    decreases times.len(),
{
    let d = times.drop_last();
    let t = times.last();
    assert(t == times[times.len() - 1]);
    if times.len() == 1 {
        assert(d.len() == 0);
        lemma_retained_later(v, t0, t, key);
        lemma_retained_distinct(v, t);
        let r = retained(v, t);
        let (s2, refused) = attempt(v, key, t, limit);
        assert(s2 == r.push((key, t, 1u32)));
        assert forall|x: int, y: int| 0 <= x < y < s2.len() implies #[trigger] s2[x].0 != #[trigger] s2[y].0 by {
            if y == r.len() {
                assert(s2[x] == r[x]);
                assert(r[x].0 != key);
            } else {
                assert(s2[x] == r[x] && s2[y] == r[y]);
            }
        }
        lemma_key_index(s2, key, r.len() as int);
    } else {
        assert forall|i: int| 0 <= i < d.len() implies t0 <= #[trigger] d[i] < t0 + WINDOW_MS by {
            assert(d[i] == times[i]);
        }
        lemma_open_run(v, key, d, t0, limit);
        assert(d[0] == times[0]);
        let (s, n) = attempt_run(v, key, d, limit);
        let t1 = times[0];
        let m = key_index(s, key);
        // The key's window, opened at `t1`, is still live at `t`.
        assert(live(s[m].1, t));
        lemma_retained_keeps_live(s, t, m);
        lemma_retained_sub(s, t);
        lemma_retained_distinct(s, t);
        let r = retained(s, t);
        let j = choose|j: int| 0 <= j < r.len() && r[j] == s[m];
        lemma_key_index(r, key, j);
        let a = bump(r[j].2);
        let (s2, refused) = attempt(s, key, t, limit);
        assert(s2 == r.update(j, (key, r[j].1, a)));
        assert forall|x: int, y: int| 0 <= x < y < s2.len() implies #[trigger] s2[x].0 != #[trigger] s2[y].0 by {
            assert(s2[x].0 == r[x].0);
            assert(s2[y].0 == r[y].0);
        }
        lemma_key_index(s2, key, j);
    }
}

/// Of a run of attempts under one key that starts when the key has no live
/// window and room is left for one, and that stays within a minute of its
/// start, the first `limit` are let through and every later one is refused,
/// whatever other keys held meanwhile: the `k`-th attempt passes exactly
/// when `k <= limit`.
pub proof fn first_attempts_in_a_window_pass(
    v: Seq<(Seq<char>, u64, u32)>,
    key: Seq<char>,
    times: Seq<u64>,
    t0: u64,
    limit: u32,
)
    requires
        distinct_keys(v),
        !has_key(retained(v, t0), key),
        retained(v, t0).len() < MAX_WINDOWS,
        forall|i: int| 0 <= i < times.len() ==> t0 <= #[trigger] times[i] < t0 + WINDOW_MS,
        limit < u32::MAX,
    ensures
        attempt_run(v, key, times, limit).1 == let_through(times.len(), limit),
        times.len() >= 1 ==> {
            let (s, refused) = attempt(
                attempt_run(v, key, times.drop_last(), limit).0,
                key,
                times.last(),
                limit,
            );
            refused <==> times.len() > limit
        },
{
    if times.len() >= 1 {
        lemma_open_run(v, key, times, t0, limit);
        let d = times.drop_last();
        if d.len() >= 1 {
            assert forall|i: int| 0 <= i < d.len() implies t0 <= #[trigger] d[i] < t0 + WINDOW_MS by {
                assert(d[i] == times[i]);
            }
            lemma_open_run(v, key, d, t0, limit);
        }
    }
}

/// A minute after a key's window began, its next attempt opens a fresh
/// window that counts it as the first, so long as room is left for one.
pub proof fn a_window_resets_after_a_minute(
    s: Seq<(Seq<char>, u64, u32)>,
    key: Seq<char>,
    now: u64,
    limit: u32,
)
    requires
        forall|i: int| 0 <= i < s.len() && #[trigger] s[i].0 == key ==> !live(s[i].1, now),
        retained(s, now).len() < MAX_WINDOWS,
    ensures
        attempt(s, key, now, limit) == (retained(s, now).push((key, now, 1u32)), 1 > limit),
{
    lemma_retained_sub(s, now);
    lemma_retained_live(s, now);
    let r = retained(s, now);
    if has_key(r, key) {
        let i = choose|i: int| 0 <= i < r.len() && r[i].0 == key;
        assert(live(r[i].1, now));
        let k = choose|k: int| 0 <= k < s.len() && s[k] == r[i];
        assert(s[k].0 == key);
    }
}

} // verus!
