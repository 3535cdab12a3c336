//! Translation between stable database ids and the dense `u16` indices the
//! simulation engine uses: the engine indexes its tables directly by them, so
//! each kind of entity must be numbered `0..n` without gaps.
use vstd::prelude::*;

use crate::error::{joined, ApiError};
use crate::text::{format_i64, signed_decimal};

verus! {

/// The engine's ids are `u16`, so a plan holds at most this many of any one
/// entity; more is refused rather than truncated.
pub const MAX_ENTITIES: usize = 65535;

/// One kind of entity: the database id behind each dense index, in order.
pub struct DenseIds {
    ids: Vec<i64>,
}

pub open spec fn index_in(s: Seq<i64>, id: i64) -> int {
    if s.contains(id) {
        choose|i: int| 0 <= i < s.len() && s[i] == id
    } else {
        -1
    }
}

pub open spec fn too_many_message(what: Seq<char>) -> Seq<char> {
    "scenario has too many "@ + what + " (limit 65535)"@
}

impl DenseIds {
    /// The database ids, by dense index.
    pub closed spec fn rows(&self) -> Seq<i64> {
        self.ids@
    }

    /// No database id is numbered twice, and every index fits in a `u16`.
    pub open spec fn wf(&self) -> bool {
        &&& self.rows().no_duplicates()
        &&& self.rows().len() <= MAX_ENTITIES
    }

    pub fn new() -> (r: Self)
        ensures
            r.wf(),
            r.rows() == Seq::<i64>::empty(),
    {
        DenseIds { ids: Vec::new() }
    }

    /// The dense index of an id already numbered.
    pub fn dense(&self, db_id: i64) -> (r: Option<u16>)
        requires
            self.wf(),
        ensures
            match r {
                Some(i) => i < self.rows().len() && self.rows()[i as int] == db_id && index_in(
                    self.rows(),
                    db_id,
                ) == i,
                None => !self.rows().contains(db_id),
            },
    {
        let mut i: usize = 0;
        while i < self.ids.len()
            invariant
                i <= self.ids@.len(),
                self.wf(),
                forall|j: int| 0 <= j < i ==> self.ids@[j] != db_id,
            decreases self.ids@.len() - i,
        {
            if self.ids[i] == db_id {
                proof {
                    let k = choose|k: int| 0 <= k < self.rows().len() && self.rows()[k] == db_id;
                    assert(self.rows()[k] == self.rows()[i as int]);
                }
                return Some(i as u16);
            }
            i = i + 1;
        }
        None
    }

    /// The database id behind a dense index.
    pub fn db_id(&self, dense: u16) -> (r: Option<i64>)
        ensures
            r == (if (dense as int) < self.rows().len() {
                Some(self.rows()[dense as int])
            } else {
                None
            }),
    {
        if (dense as usize) < self.ids.len() {
            Some(self.ids[dense as usize])
        } else {
            None
        }
    }

    /// The dense index of `db_id`, numbering it next if it is new.
    pub fn intern(&mut self, db_id: i64, what: &str) -> (r: Result<u16, ApiError>)
        requires
            old(self).wf(),
        ensures
            final(self).wf(),
            old(self).rows().contains(db_id) ==> final(self).rows() == old(self).rows() && r
                == Ok::<u16, ApiError>(index_in(old(self).rows(), db_id) as u16),
            !old(self).rows().contains(db_id) && old(self).rows().len() < MAX_ENTITIES ==> final(self).rows() == old(self).rows().push(db_id) && r == Ok::<u16, ApiError>(
                old(self).rows().len() as u16,
            ),
            !old(self).rows().contains(db_id) && old(self).rows().len() >= MAX_ENTITIES ==> final(self).rows() == old(self).rows() && (r matches Err(ApiError::Unprocessable(m)) && m@
                == too_many_message(what@)),
    {
        if let Some(i) = self.dense(db_id) {
            return Ok(i);
        }
        if self.ids.len() >= MAX_ENTITIES {
            let mut m = joined("scenario has too many ", what);
            m.append(" (limit 65535)");
            return Err(ApiError::Unprocessable(m));
        }
        let idx = self.ids.len() as u16;
        let ghost before = self.ids@;
        self.ids.push(db_id);
        proof {
            assert forall|a: int, b: int|
                0 <= a < self.ids@.len() && 0 <= b < self.ids@.len() && a != b implies self.ids@[a]
                != self.ids@[b] by {
                if a < before.len() && b < before.len() {
                } else if a == before.len() {
                    assert(self.ids@[b] == before[b]);
                } else {
                    assert(self.ids@[a] == before[a]);
                }
            }
        }
        Ok(idx)
    }
}

/// Numbering an id twice gives the same index and changes nothing; the
/// indices handed out are exactly `0..n`; each reads back as its id.
pub proof fn interning_laws(rows: Seq<i64>, id: i64)
    requires
        rows.no_duplicates(),
        rows.contains(id),
    ensures
        0 <= index_in(rows, id) < rows.len(),
        rows[index_in(rows, id)] == id,
        forall|j: int| 0 <= j < rows.len() && rows[j] == id ==> j == index_in(rows, id),
{
    let k = index_in(rows, id);
    assert forall|j: int| 0 <= j < rows.len() && rows[j] == id implies j == k by {
        if j != k {
            assert(rows[j] == rows[k]);
        }
    }
}

/// The dense numbering of every kind of entity in one plan.
pub struct IdMap {
    pub accounts: DenseIds,
    pub assets: DenseIds,
    pub events: DenseIds,
    pub profiles: DenseIds,
}

pub open spec fn missing_message(what: Seq<char>, id: i64, tail: Seq<char>) -> Seq<char> {
    what + " "@ + signed_decimal(id as int) + tail
}

fn lookup(ids: &DenseIds, db_id: i64, what: &str, tail: &str) -> (r: Result<u16, ApiError>)
    requires
        ids.wf(),
    ensures
        match r {
            Ok(i) => ids.rows().contains(db_id) && i == index_in(ids.rows(), db_id),
            Err(e) => !ids.rows().contains(db_id) && (e matches ApiError::Unprocessable(m) && m@
                == missing_message(what@, db_id, tail@)),
        },
{
    match ids.dense(db_id) {
        Some(i) => {
            proof {
                assert(ids.rows().contains(db_id));
            }
            Ok(i)
        },
        None => {
            let mut m = joined(what, " ");
            let n = format_i64(db_id);
            m.append(n.as_str());
            m.append(tail);
            Err(ApiError::Unprocessable(m))
        },
    }
}

impl IdMap {
    pub open spec fn wf(&self) -> bool {
        self.accounts.wf() && self.assets.wf() && self.events.wf() && self.profiles.wf()
    }

    pub fn new() -> (r: Self)
        ensures
            r.wf(),
            r.accounts.rows().len() == 0 && r.assets.rows().len() == 0 && r.events.rows().len()
                == 0 && r.profiles.rows().len() == 0,
    {
        IdMap {
            accounts: DenseIds::new(),
            assets: DenseIds::new(),
            events: DenseIds::new(),
            profiles: DenseIds::new(),
        }
    }

    /// Resolve an account the first pass numbered; a miss means the row
    /// points outside the plan.
    pub fn account(&self, db_id: i64) -> (r: Result<u16, ApiError>)
        requires
            self.wf(),
        ensures
            match r {
                Ok(i) => self.accounts.rows().contains(db_id) && i == index_in(
                    self.accounts.rows(),
                    db_id,
                ),
                Err(e) => !self.accounts.rows().contains(db_id) && (e matches ApiError::Unprocessable(
                    m,
                ) && m@ == missing_message("account"@, db_id, " is not part of this scenario"@)),
            },
    {
        lookup(&self.accounts, db_id, "account", " is not part of this scenario")
    }

    pub fn asset(&self, db_id: i64) -> (r: Result<u16, ApiError>)
        requires
            self.wf(),
        ensures
            match r {
                Ok(i) => self.assets.rows().contains(db_id) && i == index_in(
                    self.assets.rows(),
                    db_id,
                ),
                Err(e) => !self.assets.rows().contains(db_id) && (e matches ApiError::Unprocessable(
                    m,
                ) && m@ == missing_message("asset"@, db_id, " is not part of this scenario"@)),
            },
    {
        lookup(&self.assets, db_id, "asset", " is not part of this scenario")
    }

    pub fn event(&self, db_id: i64) -> (r: Result<u16, ApiError>)
        requires
            self.wf(),
        ensures
            match r {
                Ok(i) => self.events.rows().contains(db_id) && i == index_in(
                    self.events.rows(),
                    db_id,
                ),
                Err(e) => !self.events.rows().contains(db_id) && (e matches ApiError::Unprocessable(
                    m,
                ) && m@ == missing_message("event"@, db_id, " is not part of this scenario"@)),
            },
    {
        lookup(&self.events, db_id, "event", " is not part of this scenario")
    }

    pub fn profile(&self, db_id: i64) -> (r: Result<u16, ApiError>)
        requires
            self.wf(),
        ensures
            match r {
                Ok(i) => self.profiles.rows().contains(db_id) && i == index_in(
                    self.profiles.rows(),
                    db_id,
                ),
                Err(e) => !self.profiles.rows().contains(db_id) && (e matches ApiError::Unprocessable(
                    m,
                ) && m@ == missing_message("return profile"@, db_id, " is not available"@)),
            },
    {
        lookup(&self.profiles, db_id, "return profile", " is not available")
    }
}

/// What numbering `db_id` did to a list of ids: an id already there keeps
/// its index; a new one is numbered next; past the limit nothing changes and
/// the plan is refused.
pub open spec fn interned(
    before: Seq<i64>,
    after: Seq<i64>,
    db_id: i64,
    what: Seq<char>,
    r: Result<u16, ApiError>,
) -> bool {
    &&& before.contains(db_id) ==> after == before && r == Ok::<u16, ApiError>(
        index_in(before, db_id) as u16,
    )
    &&& !before.contains(db_id) && before.len() < MAX_ENTITIES ==> after == before.push(db_id) && r
        == Ok::<u16, ApiError>(before.len() as u16)
    &&& !before.contains(db_id) && before.len() >= MAX_ENTITIES ==> after == before && (r matches Err(
        ApiError::Unprocessable(m),
    ) && m@ == too_many_message(what))
}

/// The database id behind a dense index of a list.
pub open spec fn row_at(rows: Seq<i64>, dense: u16) -> Option<i64> {
    if (dense as int) < rows.len() {
        Some(rows[dense as int])
    } else {
        None
    }
}

impl IdMap {
    /// Number an account, as [`DenseIds::intern`] does.
    pub fn intern_account(&mut self, db_id: i64) -> (r: Result<u16, ApiError>)
        requires
            old(self).wf(),
        ensures
            final(self).wf(),
            interned(old(self).accounts.rows(), final(self).accounts.rows(), db_id, "accounts"@, r),
            final(self).assets == old(self).assets,
            final(self).events == old(self).events,
            final(self).profiles == old(self).profiles,
    {
        self.accounts.intern(db_id, "accounts")
    }

    /// Number an asset, as [`DenseIds::intern`] does.
    pub fn intern_asset(&mut self, db_id: i64) -> (r: Result<u16, ApiError>)
        requires
            old(self).wf(),
        ensures
            final(self).wf(),
            interned(old(self).assets.rows(), final(self).assets.rows(), db_id, "assets"@, r),
            final(self).accounts == old(self).accounts,
            final(self).events == old(self).events,
            final(self).profiles == old(self).profiles,
    {
        self.assets.intern(db_id, "assets")
    }

    /// Number an event, as [`DenseIds::intern`] does.
    pub fn intern_event(&mut self, db_id: i64) -> (r: Result<u16, ApiError>)
        requires
            old(self).wf(),
        ensures
            final(self).wf(),
            interned(old(self).events.rows(), final(self).events.rows(), db_id, "events"@, r),
            final(self).accounts == old(self).accounts,
            final(self).assets == old(self).assets,
            final(self).profiles == old(self).profiles,
    {
        self.events.intern(db_id, "events")
    }

    /// Number a return profile, as [`DenseIds::intern`] does.
    pub fn intern_profile(&mut self, db_id: i64) -> (r: Result<u16, ApiError>)
        requires
            old(self).wf(),
        ensures
            final(self).wf(),
            interned(old(self).profiles.rows(), final(self).profiles.rows(), db_id, "return profiles"@, r),
            final(self).accounts == old(self).accounts,
            final(self).assets == old(self).assets,
            final(self).events == old(self).events,
    {
        self.profiles.intern(db_id, "return profiles")
    }

    /// The database id of a numbered account, for attributing results.
    pub fn account_db_id(&self, dense: u16) -> (r: Option<i64>)
        ensures
            r == row_at(self.accounts.rows(), dense),
    {
        self.accounts.db_id(dense)
    }

    /// The database id of a numbered asset.
    pub fn asset_db_id(&self, dense: u16) -> (r: Option<i64>)
        ensures
            r == row_at(self.assets.rows(), dense),
    {
        self.assets.db_id(dense)
    }

    /// The database id of a numbered event.
    pub fn event_db_id(&self, dense: u16) -> (r: Option<i64>)
        ensures
            r == row_at(self.events.rows(), dense),
    {
        self.events.db_id(dense)
    }

    /// The database id of a numbered return profile.
    pub fn profile_db_id(&self, dense: u16) -> (r: Option<i64>)
        ensures
            r == row_at(self.profiles.rows(), dense),
    {
        self.profiles.db_id(dense)
    }
}

} // verus!
