//! Realms: a named backup collection applies a key-prefix and a
//! substring filter on top of one bucket. `push` validates and plans an
//! upload, `pull` selects the object to download, `stat` aggregates the
//! matching objects of a listing.

use vstd::prelude::*;
use crate::errors::Error;
use crate::s3::{Bucket, RegionV, S3Object, S3Region, region_ok};
use crate::strutil::{basename, contains_str, spec_basename, spec_contains, str_eq};

verus! {

/// Spec-level shape of a `RealmLocation`.
pub enum LocationV {
    S3 { access_key: Seq<char>, secret_access_key: Seq<char>, bucket: Seq<char>, region: RegionV },
}

/// The region designation of a location.
pub open spec fn loc_region(l: LocationV) -> RegionV {
    match l {
        LocationV::S3 { region, .. } => region,
    }
}

/// The backend credentials of a realm: a closed set of transport
/// variants, of which the object-store variant is the one implemented.
#[derive(Debug, PartialEq, Eq)]
pub enum RealmLocation {
    S3 { access_key: String, secret_access_key: String, bucket: String, region: S3Region },
}

impl View for RealmLocation {
    type V = LocationV;

    open spec fn view(&self) -> LocationV {
        match self {
            RealmLocation::S3 { access_key, secret_access_key, bucket, region } => LocationV::S3 {
                access_key: access_key@,
                secret_access_key: secret_access_key@,
                bucket: bucket@,
                region: region@,
            },
        }
    }
}

impl RealmLocation {
    /// Whether this location is backed by the object-store transport.
    pub fn is_s3(&self) -> (r: bool)
        ensures
            r == (self@ is S3),
    {
        match self {
            RealmLocation::S3 { .. } => true,
        }
    }

    /// The bucket handle these credentials denote; fails with a config
    /// error exactly when the region is not acceptable.
    pub fn get_bucket(&self) -> (r: Result<Bucket, Error>)
        ensures
            match r {
                Ok(b) => region_ok(loc_region(self@)) && (self@ matches LocationV::S3 {
                    access_key,
                    secret_access_key,
                    bucket,
                    region,
                } && b.access_key@ == access_key && b.secret_access_key@ == secret_access_key
                    && b.bucket@ == bucket && b.region@ == region),
                Err(e) => !region_ok(loc_region(self@)) && e is Config,
            },
    {
        match self {
            RealmLocation::S3 { access_key, secret_access_key, bucket, region } => Bucket::new(
                access_key.as_str(),
                secret_access_key.as_str(),
                bucket.as_str(),
                region,
            ),
        }
    }
}

/// Aggregate statistics of one realm: total size and count of the
/// matching objects, and the newest modification time among them.
#[derive(Debug, Clone, Copy, PartialEq, Eq, Structural)]
pub struct StatResult {
    pub total_size: i64,
    pub total_count: u32,
    pub latest: i64,
}

/// Sum of the sizes of the objects whose key passes the filter.
pub open spec fn sum_matching(l: Seq<S3Object>, c: Seq<char>) -> int
    decreases l.len(),
{
    if l.len() == 0 {
        0
    } else {
        sum_matching(l.drop_last(), c) + if spec_contains(l.last().key@, c) {
            l.last().size as int
        } else {
            0
        }
    }
}

/// How many objects' keys pass the filter.
pub open spec fn count_matching(l: Seq<S3Object>, c: Seq<char>) -> int
    decreases l.len(),
{
    if l.len() == 0 {
        0
    } else {
        count_matching(l.drop_last(), c) + if spec_contains(l.last().key@, c) {
            1int
        } else {
            0int
        }
    }
}

/// The newest modification time among the objects whose key passes the
/// filter; the smallest time representable when none does.
pub open spec fn latest_matching(l: Seq<S3Object>, c: Seq<char>) -> int
    decreases l.len(),
{
    if l.len() == 0 {
        i64::MIN as int
    } else {
        let rest = latest_matching(l.drop_last(), c);
        if spec_contains(l.last().key@, c) && l.last().last_modified > rest {
            l.last().last_modified as int
        } else {
            rest
        }
    }
}

/// Index of the last listing entry whose key passes the filter, `-1` when
/// none does.
pub open spec fn last_match(l: Seq<S3Object>, c: Seq<char>) -> int
    decreases l.len(),
{
    if l.len() == 0 {
        -1
    } else if spec_contains(l.last().key@, c) {
        l.len() - 1
    } else {
        last_match(l.drop_last(), c)
    }
}

/// `last_match` is the unique matching position with no match after it.
pub proof fn lemma_last_match_of(l: Seq<S3Object>, c: Seq<char>, k: int)
    requires
        -1 <= k < l.len(),
        k >= 0 ==> spec_contains(l[k].key@, c),
        forall|j: int| k < j < l.len() ==> !spec_contains(l[j].key@, c),
    ensures
        last_match(l, c) == k,
    decreases l.len(),
{
    if l.len() == 0 {
    } else if spec_contains(l.last().key@, c) {
        if k < l.len() - 1 {
            assert(!spec_contains(l[l.len() - 1].key@, c));
            assert(false);
        }
    } else {
        assert(k < l.len() - 1);
        assert forall|j: int| k < j < l.drop_last().len() implies !spec_contains(
            l.drop_last()[j].key@,
            c,
        ) by {
            assert(l.drop_last()[j] == l[j]);
        }
        lemma_last_match_of(l.drop_last(), c, k);
    }
}

/// Every partial sum of matching sizes is non-negative and bounded by the
/// total, provided no listed size is negative.
pub proof fn lemma_sum_prefix(l: Seq<S3Object>, c: Seq<char>, i: int)
    requires
        0 <= i <= l.len(),
        forall|j: int| 0 <= j < l.len() ==> l[j].size >= 0,
    ensures
        0 <= sum_matching(l.take(i), c) <= sum_matching(l, c),
        count_matching(l.take(i), c) <= i,
        count_matching(l.take(i), c) >= 0,
    decreases l.len() - i,
{
    assert forall|j: int| 0 <= j < l.take(i).len() implies l.take(i)[j].size >= 0 by {
        assert(l.take(i)[j] == l[j]);
    }
    lemma_sum_nonneg(l.take(i), c);
    lemma_count_bounds(l.take(i), c);
    if i == l.len() {
        assert(l.take(i) =~= l);
    } else {
        assert(l.take(i + 1).drop_last() =~= l.take(i));
        assert(l.take(i + 1).last() == l[i]);
        assert(l[i].size >= 0);
        lemma_sum_prefix(l, c, i + 1);
        assert(sum_matching(l.take(i + 1), c) == sum_matching(l.take(i), c) + if spec_contains(
            l[i].key@,
            c,
        ) {
            l[i].size as int
        } else {
            0
        });
    }
}

/// With no negative sizes, the sum of matching sizes is non-negative.
proof fn lemma_sum_nonneg(l: Seq<S3Object>, c: Seq<char>)
    requires
        forall|j: int| 0 <= j < l.len() ==> l[j].size >= 0,
    ensures
        sum_matching(l, c) >= 0,
    decreases l.len(),
{
    if l.len() > 0 {
        assert forall|j: int| 0 <= j < l.drop_last().len() implies l.drop_last()[j].size >= 0 by {
            assert(l.drop_last()[j] == l[j]);
        }
        lemma_sum_nonneg(l.drop_last(), c);
    }
}

/// The matching count lies between zero and the listing length.
proof fn lemma_count_bounds(l: Seq<S3Object>, c: Seq<char>)
    ensures
        0 <= count_matching(l, c) <= l.len(),
    decreases l.len(),
{
    if l.len() > 0 {
        lemma_count_bounds(l.drop_last(), c);
    }
}

/// A realm: a key prefix that scopes uploads, a substring filter that
/// decides which objects belong to the realm, and the backend location.
#[derive(Debug, PartialEq, Eq)]
pub struct Realm {
    pub prefix: String,
    pub contains: String,
    pub location: RealmLocation,
}

/// The upload coordinates a push resolves to, before any backend call.
#[derive(Debug)]
pub struct PushPlan {
    pub bucket: Bucket,
    pub remote_key: String,
}

/// The decision a pull makes: which remote key to download and the local
/// path to write it to.
#[derive(Debug)]
pub struct PullPlan {
    pub remote_key: String,
    pub local_path: String,
}

impl Realm {
    /// Plans an upload into the realm. The file's basename must hold the
    /// realm's `contains` filter — validated before any backend call —
    /// and the remote key is the realm prefix followed by the basename.
    /// Fails with a config error when the realm's region is unknown, and
    /// otherwise with a validation error exactly when the filter does not
    /// match.
    pub fn push(&self, file_path: &str) -> (r: Result<PushPlan, Error>)
        ensures
            match r {
                Ok(p) => region_ok(loc_region(self.location@)) && spec_contains(
                    spec_basename(file_path@),
                    self.contains@,
                ) && p.remote_key@ == self.prefix@ + spec_basename(file_path@)
                    && (self.location@ matches LocationV::S3 {
                    access_key,
                    secret_access_key,
                    bucket,
                    region,
                } && p.bucket.access_key@ == access_key
                    && p.bucket.secret_access_key@ == secret_access_key && p.bucket.bucket@
                    == bucket && p.bucket.region@ == region),
                Err(e) => (e is Config && !region_ok(loc_region(self.location@))) || (e
                    is Validation && region_ok(loc_region(self.location@)) && !spec_contains(
                    spec_basename(file_path@),
                    self.contains@,
                )),
            },
    {
        let bucket = match self.location.get_bucket() {
            Ok(b) => b,
            Err(e) => {
                return Err(e);
            },
        };
        let base = basename(file_path);
        if !contains_str(base.as_str(), self.contains.as_str()) {
            return Err(Error::Validation);
        }
        let mut remote_key = self.prefix.clone();
        remote_key.append(base.as_str());
        Ok(PushPlan { bucket, remote_key })
    }

    /// Selects the object a pull downloads: the last entry in listing
    /// order whose key passes the filter — deliberately not the newest by
    /// timestamp — and the local path `exchange_dir` + `/` + key. Fails
    /// with a not-found error exactly when no listed key matches.
    pub fn pull(&self, listing: &Vec<S3Object>, exchange_dir: &str) -> (r: Result<PullPlan, Error>)
        ensures
            match r {
                Ok(p) => {
                    let m = last_match(listing@, self.contains@);
                    m >= 0 && p.remote_key@ == listing@[m].key@ && p.local_path@ == exchange_dir@
                        + seq!['/'] + listing@[m].key@
                },
                Err(e) => e is NotFound && last_match(listing@, self.contains@) == -1,
            },
    {
        let mut i: usize = listing.len();
        while i > 0
            invariant
                i <= listing@.len(),
                forall|j: int| i <= j < listing@.len() ==> !spec_contains(
                    listing@[j].key@,
                    self.contains@,
                ),
            decreases i,
        {
            if contains_str(listing[i - 1].key.as_str(), self.contains.as_str()) {
                proof {
                    lemma_last_match_of(listing@, self.contains@, i - 1);
                }
                let remote_key = listing[i - 1].key.clone();
                let mut local_path = exchange_dir.to_owned();
                local_path.append("/");
                local_path.append(remote_key.as_str());
                proof {
                    reveal_strlit("/");
                    assert("/"@ =~= seq!['/']);
                }
                return Ok(PullPlan { remote_key, local_path });
            }
            i -= 1;
        }
        proof {
            lemma_last_match_of(listing@, self.contains@, -1);
        }
        Err(Error::NotFound)
    }

    /// Aggregates the listed objects that pass the realm's filter: the
    /// sum of their sizes, their count, and the newest modification time
    /// among them (zero when nothing matches). The listing must fit the
    /// result's machine types: no negative sizes, a total below the
    /// signed 64-bit bound, and at most `u32::MAX` entries.
    pub fn stat(&self, listing: &Vec<S3Object>) -> (r: Result<StatResult, Error>)
        requires
            forall|j: int| 0 <= j < listing@.len() ==> listing@[j].size >= 0,
            sum_matching(listing@, self.contains@) <= i64::MAX,
            listing@.len() <= u32::MAX,
        ensures
            match r {
                Ok(st) => (self.location@ is S3) && st.total_size == sum_matching(
                    listing@,
                    self.contains@,
                ) && st.total_count == count_matching(listing@, self.contains@) && (st.total_count
                    == 0 ==> st.latest == 0) && (st.total_count > 0 ==> st.latest
                    == latest_matching(listing@, self.contains@)),
                Err(e) => !(self.location@ is S3) && e is UnsupportedTransport,
            },
    {
        if !self.location.is_s3() {
            return Err(Error::UnsupportedTransport);
        }
        let mut total_size: i64 = 0;
        let mut total_count: u32 = 0;
        let mut latest: i64 = i64::MIN;
        let mut i: usize = 0;
        let len = listing.len();
        while i < len
            invariant
                len == listing@.len(),
                i <= len,
                len <= u32::MAX,
                forall|j: int| 0 <= j < listing@.len() ==> listing@[j].size >= 0,
                sum_matching(listing@, self.contains@) <= i64::MAX,
                total_size == sum_matching(listing@.take(i as int), self.contains@),
                total_count == count_matching(listing@.take(i as int), self.contains@),
                total_count <= i,
                latest == latest_matching(listing@.take(i as int), self.contains@),
            decreases len - i,
        {
            proof {
                assert(listing@.take(i + 1).drop_last() =~= listing@.take(i as int));
                assert(listing@.take(i + 1).last() == listing@[i as int]);
                lemma_sum_prefix(listing@, self.contains@, i + 1);
            }
            let obj = &listing[i];
            if contains_str(obj.key.as_str(), self.contains.as_str()) {
                total_size = total_size + obj.size;
                total_count = total_count + 1;
                if obj.last_modified > latest {
                    latest = obj.last_modified;
                }
            }
            i += 1;
        }
        proof {
            assert(listing@.take(len as int) =~= listing@);
        }
        if total_count == 0 {
            latest = 0;
        }
        Ok(StatResult { total_size, total_count, latest })
    }
}

/// Spec-level shape of a `Realm`.
pub struct RealmV {
    pub prefix: Seq<char>,
    pub contains: Seq<char>,
    pub location: LocationV,
}

impl View for Realm {
    type V = RealmV;

    open spec fn view(&self) -> RealmV {
        RealmV { prefix: self.prefix@, contains: self.contains@, location: self.location@ }
    }
}

/// Spec-level shape of a realm table: name/realm pairs in appearance
/// order.
pub open spec fn realms_v(s: Seq<(String, Realm)>) -> Seq<(Seq<char>, RealmV)> {
    s.map_values(|p: (String, Realm)| (p.0@, p.1@))
}

/// The static mapping from realm name to realm, parsed once from
/// configuration text and immutable afterwards.
#[derive(Debug, PartialEq, Eq)]
pub struct RealmsConfig {
    pub realms: Vec<(String, Realm)>,
}

impl View for RealmsConfig {
    type V = Seq<(Seq<char>, RealmV)>;

    open spec fn view(&self) -> Seq<(Seq<char>, RealmV)> {
        realms_v(self.realms@)
    }
}

impl RealmsConfig {
    /// Realm names are unique.
    pub open spec fn wf(&self) -> bool {
        forall|i: int, j: int| 0 <= i < j < self@.len() ==> self@[i].0 != self@[j].0
    }

    /// The realm configured under `name`; fails with a not-found error
    /// that carries every known realm name, exactly when no realm has
    /// that name.
    pub fn lookup(&self, name: &str) -> (r: Result<&Realm, Error>)
        ensures
            match r {
                Ok(realm) => exists|i: int|
                    0 <= i < self@.len() && #[trigger] self@[i].0 == name@ && realm@ == self@[i].1,
                Err(e) => (forall|i: int| 0 <= i < self@.len() ==> #[trigger] self@[i].0 != name@)
                    && (e matches Error::RealmNotFound { known } && known@.len() == self@.len()
                    && (forall|i: int|
                    0 <= i < self@.len() ==> #[trigger] known@[i]@ == self@[i].0)),
            },
    {
        let mut i: usize = 0;
        while i < self.realms.len()
            invariant
                i <= self.realms@.len(),
                forall|j: int| 0 <= j < i ==> #[trigger] self@[j].0 != name@,
            decreases self.realms@.len() - i,
        {
            if str_eq(self.realms[i].0.as_str(), name) {
                proof {
                    assert(self@[i as int] == (self.realms@[i as int].0@, self.realms@[i as int].1@));
                    assert(self@[i as int].0 == name@);
                }
                return Ok(&self.realms[i].1);
            }
            i += 1;
        }
        let mut known: Vec<String> = Vec::new();
        let mut j: usize = 0;
        while j < self.realms.len()
            invariant
                j <= self.realms@.len(),
                known@.len() == j,
                forall|k: int| 0 <= k < j ==> #[trigger] known@[k]@ == self@[k].0,
            decreases self.realms@.len() - j,
        {
            known.push(self.realms[j].0.clone());
            j += 1;
        }
        Err(Error::RealmNotFound { known })
    }
}

/// Splitting one entry out of a listing splits each aggregate: the entry
/// contributes its size and count when it matches, and the latest time is
/// the maximum of its time and the rest's.
proof fn lemma_agg_remove(l: Seq<S3Object>, c: Seq<char>, j: int)
    requires
        0 <= j < l.len(),
    ensures
        sum_matching(l, c) == sum_matching(l.remove(j), c) + if spec_contains(l[j].key@, c) {
            l[j].size as int
        } else {
            0
        },
        count_matching(l, c) == count_matching(l.remove(j), c) + if spec_contains(l[j].key@, c) {
            1int
        } else {
            0int
        },
        latest_matching(l, c) == if spec_contains(l[j].key@, c) && l[j].last_modified as int
            > latest_matching(l.remove(j), c) {
            l[j].last_modified as int
        } else {
            latest_matching(l.remove(j), c)
        },
    decreases l.len(),
{
    if j == l.len() - 1 {
        assert(l.remove(j) =~= l.drop_last());
    } else {
        let inner = l.drop_last();
        assert(l.remove(j).drop_last() =~= inner.remove(j));
        assert(l.remove(j).last() == l.last());
        lemma_agg_remove(inner, c, j);
        assert(inner[j] == l[j]);
    }
}

/// LAW: realm statistics are invariant to listing order. Two listings
/// that hold the same objects — as a multiset, in any order — have the
/// same matching-size sum, the same matching count and the same newest
/// matching modification time.
pub proof fn lemma_stat_order_invariant(l1: Seq<S3Object>, l2: Seq<S3Object>, c: Seq<char>)
    requires
        l1.to_multiset() == l2.to_multiset(),
    ensures
        sum_matching(l1, c) == sum_matching(l2, c),
        count_matching(l1, c) == count_matching(l2, c),
        latest_matching(l1, c) == latest_matching(l2, c),
    decreases l1.len(),
{
    broadcast use vstd::seq_lib::group_to_multiset_ensures;

    if l1.len() == 0 {
        assert(l2.to_multiset().len() == 0);
        assert(l2.len() == 0);
    } else {
        let x = l1.last();
        assert(l1 =~= l1.drop_last().push(x));
        assert(l1.to_multiset().count(x) > 0);
        assert(l2.to_multiset().count(x) > 0);
        assert(l2.contains(x));
        let j = l2.lemma_contains_to_index(x);
        assert(l1.drop_last() =~= l1.remove(l1.len() - 1));
        assert(l1.remove(l1.len() - 1).to_multiset() =~= l1.to_multiset().remove(x));
        assert(l2.remove(j).to_multiset() =~= l2.to_multiset().remove(x));
        lemma_stat_order_invariant(l1.drop_last(), l2.remove(j), c);
        lemma_agg_remove(l2, c, j);
        lemma_agg_remove(l1, c, l1.len() - 1);
        assert(l1.remove(l1.len() - 1) =~= l1.drop_last());
    }
}

} // verus!
