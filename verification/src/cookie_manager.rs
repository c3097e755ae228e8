//! The token codec and the session store: tokens are issued with the time of
//! issue and stay valid for a fixed time to live.

use sha2::Digest;
use vstd::prelude::*;
use crate::text::{chars_of, hex_lower, is_hex_digit, lemma_hex_lower_shape, to_hex_lower};

verus! {

broadcast use vstd::string::group_string_axioms;

/// How long a token stays valid after it was issued, in seconds.
pub const EXPIRATION_SECS: u64 = 600;

/// The pause between two background sweeps of the store, in seconds.
pub const SWEEP_INTERVAL_SECS: u64 = 60;

/// The number of characters of a token.
pub const TOKEN_LENGTH: usize = 64;

/// The model of the store: each record is a token and the second at which it
/// was issued.
pub type Records = Seq<(Seq<char>, u64)>;

/// The SHA-256 digest of a byte sequence, as the `sha2` crate computes it.
pub uninterp spec fn sha256(data: Seq<u8>) -> Seq<u8>;

/// Computes the SHA-256 digest of `data`.
///
/// Trusted: feeds `data` to a fresh `sha2::Sha256` with `Digest::update` and
/// takes `Digest::finalize`. The contract names the digest `sha256` and
/// claims that it has 32 bytes, the output size that the crate declares for
/// this hash.
#[verifier::external_body]
pub(crate) fn sha256_digest(data: &[u8]) -> (out: Vec<u8>)
    ensures
        out@ == sha256(data@),
        out@.len() == 32,
{
    let mut hasher = sha2::Sha256::new();
    hasher.update(data);
    hasher.finalize().to_vec()
}

/// A fresh random identifier in text form.
///
/// Trusted: calls `uuid::Uuid::new_v4` and renders the value with
/// `to_string`. Nothing is claimed of the text: it differs from call to call.
#[verifier::external_body]
pub(crate) fn random_seed() -> (out: String) {
    uuid::Uuid::new_v4().to_string()
}

/// The surface syntax of a token: 64 hexadecimal digits.
pub open spec fn valid_format(token: Seq<char>) -> bool {
    token.len() == TOKEN_LENGTH && forall|i: int|
        0 <= i < token.len() ==> is_hex_digit(#[trigger] token[i])
}

/// The token that belongs to a seed: the digest of the seed's bytes in
/// lower-case hexadecimal.
pub open spec fn token_of_seed(seed: Seq<char>) -> Seq<char> {
    hex_lower(sha256(vstd::utf8::encode_utf8(seed)))
}

/// The seconds that have passed at `now` since `issued_at`. A clock reading
/// before the time of issue counts as no time passed.
pub open spec fn age(issued_at: u64, now: u64) -> u64 {
    if now >= issued_at {
        (now - issued_at) as u64
    } else {
        0
    }
}

/// Whether a record issued at `issued_at` is still valid at `now`.
pub open spec fn is_live(issued_at: u64, now: u64, ttl: u64) -> bool {
    age(issued_at, now) < ttl
}

/// The seconds that have passed at `now` since `issued_at`.
pub fn age_at(issued_at: u64, now: u64) -> (out: u64)
    ensures
        out == age(issued_at, now),
{
    if now >= issued_at {
        now - issued_at
    } else {
        0
    }
}

/// The records that `keep` accepts, in their order.
pub open spec fn kept(records: Records, keep: spec_fn((Seq<char>, u64)) -> bool) -> Records
    decreases records.len(),
{
    if records.len() == 0 {
        records
    } else if keep(records.last()) {
        kept(records.drop_last(), keep).push(records.last())
    } else {
        kept(records.drop_last(), keep)
    }
}

/// The test that a sweep at `now` applies to a record.
pub open spec fn live_at(now: u64, ttl: u64) -> spec_fn((Seq<char>, u64)) -> bool {
    |r: (Seq<char>, u64)| is_live(r.1, now, ttl)
}

/// The test that accepts every record but that of `token`.
pub open spec fn other_than(token: Seq<char>) -> spec_fn((Seq<char>, u64)) -> bool {
    |r: (Seq<char>, u64)| r.0 != token
}

/// The store after a sweep at `now`: the records that are still valid.
pub open spec fn sweep(records: Records, now: u64, ttl: u64) -> Records {
    kept(records, live_at(now, ttl))
}

/// The store without the record of `token`.
pub open spec fn without_token(records: Records, token: Seq<char>) -> Records {
    kept(records, other_than(token))
}

/// The store after `token` was issued at `now`: an earlier record of the
/// token is overwritten.
pub open spec fn issue(records: Records, token: Seq<char>, now: u64) -> Records {
    without_token(records, token).push((token, now))
}

/// Whether the store holds a record of `token` that is valid at `now`.
pub open spec fn valid(records: Records, token: Seq<char>, now: u64, ttl: u64) -> bool {
    exists|i: int|
        0 <= i < records.len() && (#[trigger] records[i]).0 == token && is_live(
            records[i].1,
            now,
            ttl,
        )
}

/// Whether the store holds a record of `token`.
pub open spec fn has_token(records: Records, token: Seq<char>) -> bool {
    exists|i: int| 0 <= i < records.len() && (#[trigger] records[i]).0 == token
}

/// No token has two records.
pub open spec fn unique_tokens(records: Records) -> bool {
    forall|i: int, j: int|
        0 <= i < j < records.len() ==> (#[trigger] records[i]).0 != (#[trigger] records[j]).0
}

/// A record is in `kept(records, keep)` exactly if it is in `records` and
/// `keep` accepts it; and what is kept is no longer than what was there.
pub proof fn lemma_kept_members(records: Records, keep: spec_fn((Seq<char>, u64)) -> bool)
    ensures
        kept(records, keep).len() <= records.len(),
        forall|r: (Seq<char>, u64)| #[trigger]
            kept(records, keep).contains(r) <==> records.contains(r) && keep(r),
    decreases records.len(),
{
    if records.len() > 0 {
        let front = records.drop_last();
        let last = records.last();
        lemma_kept_members(front, keep);
        let out = kept(records, keep);
        assert forall|r: (Seq<char>, u64)| #[trigger] out.contains(r) implies records.contains(r)
            && keep(r) by {
            let k = choose|k: int| 0 <= k < out.len() && out[k] == r;
            if keep(last) && k == out.len() - 1 {
                assert(records[records.len() - 1] == r);
            } else {
                assert(kept(front, keep)[k] == r);
                assert(kept(front, keep).contains(r));
                let m = choose|m: int| 0 <= m < front.len() && front[m] == r;
                assert(records[m] == r);
            }
        }
        assert forall|r: (Seq<char>, u64)| records.contains(r) && keep(r) implies #[trigger]
            out.contains(r) by {
            let k = choose|k: int| 0 <= k < records.len() && records[k] == r;
            if k < front.len() {
                assert(front[k] == r);
                assert(front.contains(r));
                assert(kept(front, keep).contains(r));
                let m = choose|m: int| 0 <= m < kept(front, keep).len() && kept(front, keep)[m] == r;
                assert(out[m] == r);
            } else {
                assert(out[out.len() - 1] == r);
            }
        }
    }
}

/// Keeping some of the records keeps the tokens unique.
pub proof fn lemma_kept_unique(records: Records, keep: spec_fn((Seq<char>, u64)) -> bool)
    requires
        unique_tokens(records),
    ensures
        unique_tokens(kept(records, keep)),
    decreases records.len(),
{
    if records.len() > 0 {
        let front = records.drop_last();
        let last = records.last();
        assert forall|i: int, j: int| 0 <= i < j < front.len() implies (#[trigger] front[i]).0 != (
        #[trigger] front[j]).0 by {
            assert(front[i] == records[i] && front[j] == records[j]);
        }
        lemma_kept_unique(front, keep);
        lemma_kept_members(front, keep);
        if keep(last) {
            let out = kept(records, keep);
            assert forall|i: int, j: int| 0 <= i < j < out.len() implies (#[trigger] out[i]).0 != (
            #[trigger] out[j]).0 by {
                if j < out.len() - 1 {
                    assert(out[i] == kept(front, keep)[i] && out[j] == kept(front, keep)[j]);
                } else {
                    assert(out[i] == kept(front, keep)[i]);
                    assert(kept(front, keep).contains(out[i]));
                    assert(front.contains(out[i]));
                    let k = choose|k: int| 0 <= k < front.len() && front[k] == out[i];
                    assert(records[k] == out[i]);
                    assert(records[records.len() - 1] == last);
                }
            }
        }
    }
}

/// Once a token's record is taken out, the store holds none of that token.
pub proof fn lemma_without_token_absent(records: Records, token: Seq<char>)
    ensures
        !has_token(without_token(records, token), token),
{
    let rest = without_token(records, token);
    lemma_kept_members(records, other_than(token));
    assert forall|i: int| 0 <= i < rest.len() implies (#[trigger] rest[i]).0 != token by {
        assert(rest.contains(rest[i]));
    }
}

/// Issuing a token keeps the tokens unique.
pub proof fn lemma_issue_unique(records: Records, token: Seq<char>, now: u64)
    requires
        unique_tokens(records),
    ensures
        unique_tokens(issue(records, token, now)),
{
    let keep = other_than(token);
    let rest = without_token(records, token);
    lemma_kept_unique(records, keep);
    lemma_without_token_absent(records, token);
    let out = issue(records, token, now);
    assert forall|i: int, j: int| 0 <= i < j < out.len() implies (#[trigger] out[i]).0 != (
    #[trigger] out[j]).0 by {
        assert(out[i] == rest[i]);
        if j < rest.len() {
            assert(out[j] == rest[j]);
        }
    }
}

/// A freshly issued token is valid at once, is not valid at any time from
/// the end of its time to live on, and is not valid at any time at all once
/// a sweep has run at or after that end.
pub proof fn lemma_freshness(
    records: Records,
    token: Seq<char>,
    now: u64,
    ttl: u64,
    later: u64,
    query: u64,
)
    requires
        ttl > 0,
        later - now >= ttl,
    ensures
        valid(issue(records, token, now), token, now, ttl),
        !valid(issue(records, token, now), token, later, ttl),
        !valid(sweep(issue(records, token, now), later, ttl), token, query, ttl),
{
    let issued = issue(records, token, now);
    let rest = without_token(records, token);
    lemma_without_token_absent(records, token);
    assert(issued[issued.len() - 1] == (token, now));
    assert forall|i: int| 0 <= i < issued.len() && (#[trigger] issued[i]).0 == token implies issued[i].1
        == now by {
        if i < rest.len() {
            assert(issued[i] == rest[i]);
        }
    }
    let swept = sweep(issued, later, ttl);
    lemma_kept_members(issued, live_at(later, ttl));
    assert forall|i: int| 0 <= i < swept.len() implies (#[trigger] swept[i]).0 != token by {
        assert(swept.contains(swept[i]));
        assert(issued.contains(swept[i]));
        let k = choose|k: int| 0 <= k < issued.len() && issued[k] == swept[i];
        assert(issued[k].0 == token ==> issued[k].1 == now);
    }
}

/// The store as the mapping that it stands for: from each token it holds to
/// the second at which the token was issued.
pub open spec fn store_map(records: Records) -> Map<Seq<char>, u64> {
    Map::new(
        |token: Seq<char>| has_token(records, token),
        |token: Seq<char>|
            records[choose|i: int| 0 <= i < records.len() && (#[trigger] records[i]).0 == token].1,
    )
}

/// In a store with unique tokens the mapping holds exactly the records.
pub proof fn lemma_store_map_records(records: Records, token: Seq<char>, issued_at: u64)
    requires
        unique_tokens(records),
    ensures
        records.contains((token, issued_at)) <==> store_map(records).dom().contains(token)
            && store_map(records)[token] == issued_at,
{
    if records.contains((token, issued_at)) {
        let k = choose|k: int| 0 <= k < records.len() && records[k] == (token, issued_at);
        assert(records[k].0 == token);
        let i = choose|i: int| 0 <= i < records.len() && (#[trigger] records[i]).0 == token;
        assert(i == k);
    }
    if store_map(records).dom().contains(token) && store_map(records)[token] == issued_at {
        let i = choose|i: int| 0 <= i < records.len() && (#[trigger] records[i]).0 == token;
        assert(records[i] == (token, issued_at));
    }
}

/// Over the mapping, the store's three operations read as follows: a token
/// is valid if it has an entry that is young enough, issuing a token inserts
/// its entry, and a sweep keeps the entries that are young enough.
pub proof fn lemma_store_map_operations(records: Records, token: Seq<char>, now: u64, ttl: u64)
    requires
        unique_tokens(records),
    ensures
        valid(records, token, now, ttl) <==> store_map(records).dom().contains(token) && is_live(
            store_map(records)[token],
            now,
            ttl,
        ),
        store_map(issue(records, token, now)) == store_map(records).insert(token, now),
        store_map(sweep(records, now, ttl)) == Map::new(
            |t: Seq<char>|
                store_map(records).dom().contains(t) && is_live(store_map(records)[t], now, ttl),
            |t: Seq<char>| store_map(records)[t],
        ),
{
    if valid(records, token, now, ttl) {
        let i = choose|i: int|
            0 <= i < records.len() && (#[trigger] records[i]).0 == token && is_live(
                records[i].1,
                now,
                ttl,
            );
        lemma_store_map_records(records, token, records[i].1);
    }
    if store_map(records).dom().contains(token) {
        lemma_store_map_records(records, token, store_map(records)[token]);
        let k = choose|k: int|
            0 <= k < records.len() && records[k] == (token, store_map(records)[token]);
        assert(records[k].0 == token);
    }
    let issued = issue(records, token, now);
    lemma_issue_unique(records, token, now);
    lemma_kept_members(records, other_than(token));
    assert(issued[issued.len() - 1] == (token, now));
    assert forall|t: Seq<char>| #[trigger]
        store_map(issued).dom().contains(t) <==> store_map(records).insert(
            token,
            now,
        ).dom().contains(t) by {
        if store_map(issued).dom().contains(t) {
            let i = choose|i: int| 0 <= i < issued.len() && (#[trigger] issued[i]).0 == t;
            if i < issued.len() - 1 {
                assert(issued[i] == without_token(records, token)[i]);
                assert(without_token(records, token).contains(issued[i]));
                let k = choose|k: int| 0 <= k < records.len() && records[k] == issued[i];
                assert(records[k].0 == t);
            }
        }
        if t != token && store_map(records).dom().contains(t) {
            let k = choose|k: int| 0 <= k < records.len() && (#[trigger] records[k]).0 == t;
            assert(records.contains(records[k]));
            assert(without_token(records, token).contains(records[k]));
            let m = choose|m: int|
                0 <= m < without_token(records, token).len() && without_token(records, token)[m]
                    == records[k];
            assert(issued[m].0 == t);
        }
    }
    assert forall|t: Seq<char>| #[trigger] store_map(issued).dom().contains(t) implies store_map(
        issued,
    )[t] == store_map(records).insert(token, now)[t] by {
        let v = store_map(issued)[t];
        lemma_store_map_records(issued, t, v);
        let i = choose|i: int| 0 <= i < issued.len() && issued[i] == (t, v);
        if i < issued.len() - 1 {
            assert(issued[i] == without_token(records, token)[i]);
            assert(without_token(records, token).contains((t, v)));
            lemma_store_map_records(records, t, v);
        }
    }
    assert(store_map(issued) =~= store_map(records).insert(token, now));
    let swept = sweep(records, now, ttl);
    let young = Map::new(
        |t: Seq<char>|
            store_map(records).dom().contains(t) && is_live(store_map(records)[t], now, ttl),
        |t: Seq<char>| store_map(records)[t],
    );
    lemma_kept_unique(records, live_at(now, ttl));
    lemma_kept_members(records, live_at(now, ttl));
    assert forall|t: Seq<char>| #[trigger]
        store_map(swept).dom().contains(t) <==> young.dom().contains(t) by {
        if store_map(swept).dom().contains(t) {
            let v = store_map(swept)[t];
            lemma_store_map_records(swept, t, v);
            lemma_store_map_records(records, t, v);
        }
        if young.dom().contains(t) {
            let v = store_map(records)[t];
            lemma_store_map_records(records, t, v);
            assert(swept.contains((t, v)));
            lemma_store_map_records(swept, t, v);
        }
    }
    assert forall|t: Seq<char>| #[trigger] store_map(swept).dom().contains(t) implies store_map(
        swept,
    )[t] == young[t] by {
        let v = store_map(swept)[t];
        lemma_store_map_records(swept, t, v);
        lemma_store_map_records(records, t, v);
    }
    assert(store_map(swept) =~= young);
}

/// Every record of `token` in the store was issued at `bound` or earlier.
pub open spec fn issued_by(records: Records, token: Seq<char>, bound: u64) -> bool {
    forall|i: int|
        0 <= i < records.len() && (#[trigger] records[i]).0 == token ==> records[i].1 <= bound
}

/// Right after a token was issued, its only record is that of this issue; a
/// sweep, and the issue of any other token, leave the token with no record
/// that is younger than the records it had.
pub proof fn lemma_issued_by_kept(
    records: Records,
    token: Seq<char>,
    bound: u64,
    now: u64,
    ttl: u64,
    other: Seq<char>,
)
    ensures
        issued_by(issue(records, token, now), token, now),
        issued_by(records, token, bound) ==> issued_by(sweep(records, now, ttl), token, bound),
        issued_by(records, token, bound) && other != token ==> issued_by(
            issue(records, other, now),
            token,
            bound,
        ),
{
    let issued = issue(records, token, now);
    let rest = without_token(records, token);
    lemma_without_token_absent(records, token);
    assert forall|i: int| 0 <= i < issued.len() && (#[trigger] issued[i]).0 == token implies issued[i].1
        <= now by {
        if i < rest.len() {
            assert(issued[i] == rest[i]);
        }
    }
    if issued_by(records, token, bound) {
        let swept = sweep(records, now, ttl);
        lemma_kept_members(records, live_at(now, ttl));
        assert forall|i: int| 0 <= i < swept.len() && (#[trigger] swept[i]).0 == token implies swept[i].1
            <= bound by {
            assert(swept.contains(swept[i]));
            let k = choose|k: int| 0 <= k < records.len() && records[k] == swept[i];
            assert(records[k].0 == token);
        }
        if other != token {
            let more = issue(records, other, now);
            let others = without_token(records, other);
            lemma_kept_members(records, other_than(other));
            assert forall|i: int| 0 <= i < more.len() && (#[trigger] more[i]).0 == token implies more[i].1
                <= bound by {
                if i < others.len() {
                    assert(more[i] == others[i]);
                    assert(others.contains(others[i]));
                    let k = choose|k: int| 0 <= k < records.len() && records[k] == others[i];
                    assert(records[k].0 == token);
                }
            }
        }
    }
}

/// A token whose records are all older than the time to live is not valid,
/// at that time and at any later one.
pub proof fn lemma_expired_is_invalid(
    records: Records,
    token: Seq<char>,
    bound: u64,
    ttl: u64,
    later: u64,
)
    requires
        issued_by(records, token, bound),
        later - bound >= ttl,
        ttl > 0,
    ensures
        !valid(records, token, later, ttl),
{
}

/// A sweep makes no token valid: what is valid after it was valid before.
pub proof fn lemma_sweep_no_resurrection(
    records: Records,
    swept_at: u64,
    token: Seq<char>,
    query: u64,
    ttl: u64,
)
    ensures
        valid(sweep(records, swept_at, ttl), token, query, ttl) ==> valid(
            records,
            token,
            query,
            ttl,
        ),
        valid(sweep(records, query, ttl), token, query, ttl) == valid(records, token, query, ttl),
{
    let swept = sweep(records, swept_at, ttl);
    lemma_kept_members(records, live_at(swept_at, ttl));
    if valid(swept, token, query, ttl) {
        let i = choose|i: int|
            0 <= i < swept.len() && (#[trigger] swept[i]).0 == token && is_live(
                swept[i].1,
                query,
                ttl,
            );
        assert(swept.contains(swept[i]));
        let k = choose|k: int| 0 <= k < records.len() && records[k] == swept[i];
        assert(records[k].0 == token);
    }
    let same = sweep(records, query, ttl);
    lemma_kept_members(records, live_at(query, ttl));
    if valid(same, token, query, ttl) {
        let i = choose|i: int|
            0 <= i < same.len() && (#[trigger] same[i]).0 == token && is_live(same[i].1, query, ttl);
        assert(same.contains(same[i]));
        let k = choose|k: int| 0 <= k < records.len() && records[k] == same[i];
        assert(records[k].0 == token);
    }
    if valid(records, token, query, ttl) {
        let i = choose|i: int|
            0 <= i < records.len() && (#[trigger] records[i]).0 == token && is_live(
                records[i].1,
                query,
                ttl,
            );
        assert(records.contains(records[i]));
        assert(same.contains(records[i]));
        let k = choose|k: int| 0 <= k < same.len() && same[k] == records[i];
        assert(same[k].0 == token);
    }
}

/// One session: a token and the second at which it was issued.
pub struct SessionRecord {
    pub token: String,
    pub issued_at: u64,
}

/// The session store.
pub struct CookieStorage {
    cookies: Vec<SessionRecord>,
    expiration_time: u64,
}

/// The model of a list of sessions.
pub open spec fn records_of(sessions: Seq<SessionRecord>) -> Records {
    Seq::new(sessions.len(), |i: int| (sessions[i].token@, sessions[i].issued_at))
}

impl View for CookieStorage {
    type V = Records;

    closed spec fn view(&self) -> Records {
        records_of(self.cookies@)
    }
}

impl CookieStorage {
    /// The store's invariant: no token has two records, and the time to
    /// live is the standard one.
    #[verifier::type_invariant]
    spec fn wf(self) -> bool {
        unique_tokens(self@) && self.expiration_time == EXPIRATION_SECS
    }

    /// The time to live of a token, in seconds.
    pub fn expiration_time(&self) -> (ttl: u64)
        ensures
            ttl == EXPIRATION_SECS,
    {
        proof {
            use_type_invariant(self);
        }
        self.expiration_time
    }

    /// An empty store with the standard time to live.
    pub fn new() -> (out: CookieStorage)
        ensures
            out@ == Seq::<(Seq<char>, u64)>::empty(),
            unique_tokens(out@),
    {
        let out = CookieStorage { cookies: Vec::new(), expiration_time: EXPIRATION_SECS };
        assert(out@ =~= Seq::<(Seq<char>, u64)>::empty());
        out
    }

    /// Records that `cookie` was issued at `now`, in place of any earlier
    /// record of it.
    pub fn add_cookie(&mut self, cookie: String, now: u64)
        ensures
            final(self)@ == issue(old(self)@, cookie@, now),
            unique_tokens(final(self)@),
    {
        proof {
            use_type_invariant(&*self);
        }
        let ghost keep = other_than(cookie@);
        let mut rest: Vec<SessionRecord> = Vec::new();
        let mut i: usize = 0;
        while i < self.cookies.len()
            invariant
                i <= self.cookies.len(),
                *self == *old(self),
                keep == other_than(cookie@),
                records_of(rest@) == kept(
                    self@.take(i as int),
                    keep,
                ),
            decreases self.cookies.len() - i,
        {
            let ghost before = records_of(rest@);
            proof {
                assert(self@.take(i as int + 1).drop_last() =~= self@.take(i as int));
                assert(self@.take(i as int + 1).last() == self@[i as int]);
            }
            if self.cookies[i].token != cookie {
                rest.push(
                    SessionRecord {
                        token: self.cookies[i].token.clone(),
                        issued_at: self.cookies[i].issued_at,
                    },
                );
                assert(records_of(rest@) =~= before.push(
                    self@[i as int],
                ));
            }
            i += 1;
        }
        assert(self@.take(i as int) =~= self@);
        let ghost before = records_of(rest@);
        let ghost token = cookie@;
        rest.push(SessionRecord { token: cookie, issued_at: now });
        proof {
            assert(records_of(rest@) =~= before.push((token, now)));
            lemma_issue_unique(old(self)@, token, now);
        }
        self.cookies = rest;
    }

    /// Whether the store holds a record of `cookie` that is valid at `now`.
    pub fn is_valid(&self, cookie: &str, now: u64) -> (r: bool)
        ensures
            r == valid(self@, cookie@, now, EXPIRATION_SECS),
    {
        proof {
            use_type_invariant(self);
        }
        let wanted: String = cookie.to_owned();
        let ttl: u64 = self.expiration_time;
        let mut i: usize = 0;
        while i < self.cookies.len()
            invariant
                i <= self.cookies.len(),
                wanted@ == cookie@,
                ttl == EXPIRATION_SECS,
                forall|k: int|
                    0 <= k < i ==> !((#[trigger] self@[k]).0 == cookie@ && is_live(
                        self@[k].1,
                        now,
                        ttl,
                    )),
            decreases self.cookies.len() - i,
        {
            if self.cookies[i].token == wanted {
                let issued_at: u64 = self.cookies[i].issued_at;
                if age_at(issued_at, now) < ttl {
                    assert(self@[i as int].0 == cookie@);
                    return true;
                }
            }
            assert(!(self@[i as int].0 == cookie@ && is_live(self@[i as int].1, now, ttl)));
            i += 1;
        }
        false
    }

    /// Removes every record that is no longer valid at `now`.
    pub fn cleanup_expired(&mut self, now: u64)
        ensures
            final(self)@ == sweep(old(self)@, now, EXPIRATION_SECS),
            unique_tokens(final(self)@),
    {
        proof {
            use_type_invariant(&*self);
        }
        let ttl: u64 = self.expiration_time;
        let ghost keep = live_at(now, ttl);
        let mut live: Vec<SessionRecord> = Vec::new();
        let mut i: usize = 0;
        while i < self.cookies.len()
            invariant
                i <= self.cookies.len(),
                *self == *old(self),
                ttl == EXPIRATION_SECS,
                keep == live_at(now, ttl),
                records_of(live@) == kept(
                    self@.take(i as int),
                    keep,
                ),
            decreases self.cookies.len() - i,
        {
            let ghost before = records_of(live@);
            proof {
                assert(self@.take(i as int + 1).drop_last() =~= self@.take(i as int));
                assert(self@.take(i as int + 1).last() == self@[i as int]);
            }
            let issued_at: u64 = self.cookies[i].issued_at;
            if age_at(issued_at, now) < ttl {
                live.push(SessionRecord { token: self.cookies[i].token.clone(), issued_at });
                assert(records_of(live@) =~= before.push(
                    self@[i as int],
                ));
            }
            i += 1;
        }
        proof {
            assert(self@.take(i as int) =~= self@);
            lemma_kept_unique(old(self)@, keep);
        }
        self.cookies = live;
    }

    /// The number of records, expired ones included. No two of them are of
    /// the same token.
    pub fn len(&self) -> (n: usize)
        ensures
            n == self@.len(),
            unique_tokens(self@),
    {
        proof {
            use_type_invariant(self);
        }
        self.cookies.len()
    }
}

/// Whether `cookie` has the surface syntax of a token. The store is not
/// consulted.
pub fn is_valid_format(cookie: &str) -> (r: bool)
    ensures
        r == valid_format(cookie@),
{
    let chars: Vec<char> = chars_of(cookie);
    if chars.len() != TOKEN_LENGTH {
        return false;
    }
    let mut i: usize = 0;
    while i < chars.len()
        invariant
            i <= chars.len(),
            chars@ == cookie@,
            forall|k: int| 0 <= k < i ==> is_hex_digit(chars@[k]),
        decreases chars.len() - i,
    {
        let c: char = chars[i];
        let hex: bool = ('0' <= c && c <= '9') || ('a' <= c && c <= 'f') || ('A' <= c && c <= 'F');
        if !hex {
            assert(!is_hex_digit(cookie@[i as int]));
            return false;
        }
        i += 1;
    }
    true
}

/// The token of a seed: always of valid format.
pub fn token_from_seed(seed: &str) -> (token: String)
    ensures
        token@ == token_of_seed(seed@),
        valid_format(token@),
{
    let digest: Vec<u8> = sha256_digest(seed.as_bytes());
    proof {
        lemma_hex_lower_shape(digest@);
    }
    to_hex_lower(&digest)
}

/// A new token from a fresh random seed.
pub fn generate_cookie() -> (token: String)
    ensures
        valid_format(token@),
        exists|seed: Seq<char>| token@ == token_of_seed(seed),
{
    let seed: String = random_seed();
    token_from_seed(seed.as_str())
}

/// Sweeps the store at `now` and says whether `cookie` is valid then.
/// Validation does not renew the record.
pub fn validate_cookie(storage: &mut CookieStorage, cookie: &str, now: u64) -> (r: bool)
    ensures
        final(storage)@ == sweep(old(storage)@, now, EXPIRATION_SECS),
        unique_tokens(final(storage)@),
        r == valid(old(storage)@, cookie@, now, EXPIRATION_SECS),
{
    proof {
        lemma_sweep_no_resurrection(old(storage)@, now, cookie@, now, EXPIRATION_SECS);
    }
    storage.cleanup_expired(now);
    storage.is_valid(cookie, now)
}

/// Stores `cookie` as issued at `now`.
pub fn store_cookie(storage: &mut CookieStorage, cookie: String, now: u64)
    ensures
        final(storage)@ == issue(old(storage)@, cookie@, now),
        unique_tokens(final(storage)@),
{
    storage.add_cookie(cookie, now);
}

/// Sweeps the store at `now` and counts the sessions that are left.
pub fn get_active_user_count(storage: &mut CookieStorage, now: u64) -> (n: usize)
    ensures
        final(storage)@ == sweep(old(storage)@, now, EXPIRATION_SECS),
        unique_tokens(final(storage)@),
        n == final(storage)@.len(),
{
    storage.cleanup_expired(now);
    storage.len()
}

} // verus!
