//! The issuer registry and its propose-and-tally voting engine.
//!
//! [`Pallet`] owns five logical tables: issuer metadata by domain, the
//! active JWKS by domain, a deduplicated blob store keyed by content hash,
//! the per-domain list of voters that proposed in the current round, and
//! the per-domain vote counters keyed by content hash.  Every operation is
//! atomic: it either commits all of its writes or returns an error and
//! leaves the registry untouched.

use vstd::pervasive::VecAdditionalExecFns;
use vstd::prelude::*;

use crate::hashing::{blake2b_256, hash_of};
use crate::json::{canon_of, canonicalize, json_valid};
use crate::storage::{
    bytes_eq, clone_bytes, contains_u64, kv_find, kv_map, kv_unique, lemma_accounts_deep_view,
    lemma_bytes_deep_view, lemma_kv_dom, lemma_kv_index, lemma_kv_push, lemma_kv_remove,
    lemma_kv_update,
};
use crate::types::{Config, Error, Event, EventV, Issuer, IssuerV};

verus! {

broadcast use lemma_bytes_deep_view, lemma_accounts_deep_view;

/// The view of an optional byte string.
pub open spec fn opt_bytes(o: Option<Vec<u8>>) -> Option<Seq<u8>> {
    match o {
        Some(v) => Some(v@),
        None => None,
    }
}

/// An update interval forced into the configured clamp range.
pub open spec fn clamp_interval(c: Config, interval_update: Option<u32>) -> Option<u32> {
    match interval_update {
        Some(v) => Some(
            if v < c.min_update_interval {
                c.min_update_interval
            } else if v > c.max_update_interval {
                c.max_update_interval
            } else {
                v
            },
        ),
        None => None,
    }
}

/// The clamp equals `max(Min, min(v, Max))`, and its result always lies in
/// the configured range.
pub proof fn lemma_clamp_formula(c: Config, v: u32)
    requires
        c.wf(),
    ensures
        clamp_interval(c, Some(v)) == Some(
            (vstd::math::max(
                c.min_update_interval as int,
                vstd::math::min(v as int, c.max_update_interval as int),
            ) as u32),
        ),
        c.min_update_interval <= clamp_interval(c, Some(v))->0 <= c.max_update_interval,
{
}

/// The error `register_issuer` returns on the given inputs, if any, with
/// the checks in the order they are made.
pub open spec fn register_error(
    s: Pallet,
    domain: Seq<u8>,
    open_id_url: Option<Seq<u8>>,
    jwks: Option<Seq<u8>>,
) -> Option<Error> {
    if domain.len() > s.config.max_length_issuer_domain {
        Some(Error::IssuerDomainTooLong)
    } else if s.issuers().contains_key(domain) {
        Some(Error::IssuerAlreadyExists)
    } else if open_id_url is Some && open_id_url->0.len() > s.config.max_length_issuer_open_id_url {
        Some(Error::IssuerOpenIdURLTooLong)
    } else if jwks is Some && jwks->0.len() > s.config.max_length_issuer_jwks {
        Some(Error::IssuerJWKSTooLong)
    } else if jwks is Some && !json_valid(jwks->0) {
        Some(Error::InvalidJson)
    } else if jwks is Some && canon_of(jwks->0).len() > s.config.max_length_issuer_jwks {
        Some(Error::JsonTooLong)
    } else {
        None
    }
}

/// The error `update_issuer` returns on the given inputs, if any, with
/// the checks in the order they are made.
pub open spec fn update_error(
    s: Pallet,
    domain: Seq<u8>,
    open_id_url: Option<Seq<u8>>,
    jwks: Option<Seq<u8>>,
) -> Option<Error> {
    if !s.issuers().contains_key(domain) {
        Some(Error::IssuerDoesNotExist)
    } else if open_id_url is Some && open_id_url->0.len() > s.config.max_length_issuer_open_id_url {
        Some(Error::IssuerOpenIdURLTooLong)
    } else if jwks is Some && jwks->0.len() > s.config.max_length_issuer_jwks {
        Some(Error::IssuerJWKSTooLong)
    } else if jwks is Some && !json_valid(jwks->0) {
        Some(Error::InvalidJson)
    } else if jwks is Some && canon_of(jwks->0).len() > s.config.max_length_issuer_jwks {
        Some(Error::JsonTooLong)
    } else {
        None
    }
}

/// A vote counter bumped without wrapping: it saturates at the maximum.
pub open spec fn sat_inc(c: u32) -> u32 {
    if c == u32::MAX {
        c
    } else {
        (c + 1) as u32
    }
}

/// A domain's counter list after one more proposal of content hash `h`:
/// the entry for `h` is bumped, or appended with count 1 when `h` is new.
pub open spec fn bump_counts(s: Seq<(Seq<u8>, u32)>, h: Seq<u8>) -> Seq<(Seq<u8>, u32)> {
    if exists|i: int| 0 <= i < s.len() && s[i].0 == h {
        let i = choose|i: int| 0 <= i < s.len() && s[i].0 == h;
        s.update(i, (h, sat_inc(s[i].1)))
    } else {
        s.push((h, 1u32))
    }
}

/// The index the tally scan settles on: the first entry whose count equals
/// the maximum.  A later entry replaces the running best only with a
/// strictly greater count.
pub open spec fn winner_index(s: Seq<(Seq<u8>, u32)>) -> int
    decreases s.len(),
{
    if s.len() <= 1 {
        0
    } else {
        let w = winner_index(s.drop_last());
        if s.last().1 > s[w].1 {
            s.len() - 1
        } else {
            w
        }
    }
}

/// The tally winner holds a count no other entry exceeds, and every
/// earlier entry's count is strictly smaller: the scan keeps the first of
/// the tied maxima.
pub proof fn lemma_winner_is_max(s: Seq<(Seq<u8>, u32)>)
    requires
        s.len() > 0,
    ensures
        0 <= winner_index(s) < s.len(),
        forall|i: int| 0 <= i < s.len() ==> (#[trigger] s[i].1) <= s[winner_index(s)].1,
        forall|i: int| 0 <= i < winner_index(s) ==> (#[trigger] s[i].1) < s[winner_index(s)].1,
    decreases s.len(),
{
    if s.len() > 1 {
        lemma_winner_is_max(s.drop_last());
        let w0 = winner_index(s.drop_last());
        assert(s.drop_last()[w0] == s[w0]);
        assert forall|i: int| 0 <= i < s.len() implies (#[trigger] s[i].1) <= s[winner_index(
            s,
        )].1 by {
            if i < s.len() - 1 {
                assert(s.drop_last()[i] == s[i]);
            }
        }
        assert forall|i: int| 0 <= i < winner_index(s) implies (#[trigger] s[i].1) < s[winner_index(
            s,
        )].1 by {
            assert(s.drop_last()[i] == s[i]);
        }
    }
}

/// The bytes a tally of `domain` installs: the blob stored under the hash
/// with the highest count, or the empty string when the domain has no
/// proposals (installing it then clears the active JWKS).
pub open spec fn tally_winner(s: Pallet, domain: Seq<u8>) -> Seq<u8> {
    if !s.vote_counts().contains_key(domain) || s.vote_counts()[domain].len() == 0 {
        Seq::empty()
    } else {
        let cs = s.vote_counts()[domain];
        let h = cs[winner_index(cs)].0;
        if s.blobs().contains_key(h) {
            s.blobs()[h]
        } else {
            Seq::empty()
        }
    }
}

/// Proposing canonically identical JWKS content twice — whether for the
/// same domain or for two different ones — stores its bytes exactly
/// once: given the blob-store transitions of two successful proposals,
/// the second leaves the blob store unchanged.
pub proof fn lemma_identical_content_stored_once(
    pre: Pallet,
    mid: Pallet,
    post: Pallet,
    jwks1: Seq<u8>,
    jwks2: Seq<u8>,
)
    requires
        canon_of(jwks1) == canon_of(jwks2),
        mid.blobs() == (if pre.blobs().contains_key(hash_of(canon_of(jwks1))) {
            pre.blobs()
        } else {
            pre.blobs().insert(hash_of(canon_of(jwks1)), canon_of(jwks1))
        }),
        post.blobs() == (if mid.blobs().contains_key(hash_of(canon_of(jwks2))) {
            mid.blobs()
        } else {
            mid.blobs().insert(hash_of(canon_of(jwks2)), canon_of(jwks2))
        }),
    ensures
        post.blobs() == mid.blobs(),
{
    assert(mid.blobs().contains_key(hash_of(canon_of(jwks2))));
}

/// The proposer list of `domain`, or the empty list before the first
/// proposal of the round.
pub open spec fn proposer_list(s: Pallet, domain: Seq<u8>) -> Seq<u64> {
    if s.proposers().contains_key(domain) {
        s.proposers()[domain]
    } else {
        Seq::empty()
    }
}

/// The counter list of `domain`, or the empty list before the first
/// proposal of the round.
pub open spec fn counter_list(s: Pallet, domain: Seq<u8>) -> Seq<(Seq<u8>, u32)> {
    if s.vote_counts().contains_key(domain) {
        s.vote_counts()[domain]
    } else {
        Seq::empty()
    }
}

/// The error `propose_jwks` returns on the given inputs, if any, with the
/// checks in the order they are made.
pub open spec fn propose_error(s: Pallet, who: u64, domain: Seq<u8>, jwks: Seq<u8>) -> Option<
    Error,
> {
    if !s.voters().contains(who) {
        Some(Error::OnlyValidatorsCanProposeJWKS)
    } else if !s.issuers().contains_key(domain) {
        Some(Error::IssuerDoesNotExist)
    } else if jwks.len() > s.config.max_length_issuer_jwks {
        Some(Error::IssuerJWKSTooLong)
    } else if !json_valid(jwks) {
        Some(Error::InvalidJson)
    } else if canon_of(jwks).len() > s.config.max_length_issuer_jwks {
        Some(Error::JsonTooLong)
    } else if proposer_list(s, domain).contains(who) {
        Some(Error::AlreadyProposedForJWKS)
    } else if proposer_list(s, domain).len() >= s.config.max_proposers_per_issuer {
        Some(Error::MaxProposersPerIssuerExceeded)
    } else {
        None
    }
}

/// After an operation touched at most the `domain` entry of the active
/// JWKS table: keys are still distinct, every entry fits the JWKS bound,
/// and every key other than `domain` was registered before the operation.
spec fn jwks_table_ok(post: Pallet, pre: Pallet, domain: Seq<u8>) -> bool {
    &&& kv_unique(post.jwks_map@)
    &&& forall|k: int| 0 <= k < post.jwks_map@.len() ==> {
        let p = #[trigger] post.jwks_map@[k];
        p.1@.len() <= pre.config.max_length_issuer_jwks && (p.0@ == domain
            || pre.issuers().contains_key(p.0@))
    }
}

/// An issuer record that obeys the configured bounds.
pub open spec fn issuer_wf(c: Config, v: IssuerV) -> bool {
    &&& (v.open_id_url is Some ==> v.open_id_url->0.len() <= c.max_length_issuer_open_id_url)
    &&& (v.interval_update is Some ==> c.min_update_interval <= v.interval_update->0
        <= c.max_update_interval)
}

/// The replicated trust-anchor registry: issuer metadata, active key sets,
/// the deduplicating blob store, and the voting state of the current round.
pub struct Pallet {
    /// Deployment-time bounds; never mutated.
    pub config: Config,
    /// The authorized voter set for `propose_jwks` and `set_jwks`.
    pub validators: Vec<u64>,
    /// Issuer domain -> issuer metadata.
    pub issuer_map: Vec<(Vec<u8>, Issuer)>,
    /// Issuer domain -> active (canonical) JWKS bytes.
    pub jwks_map: Vec<(Vec<u8>, Vec<u8>)>,
    /// Content hash -> JWKS bytes, stored once per distinct document.
    pub jwks_hash: Vec<(Vec<u8>, Vec<u8>)>,
    /// Issuer domain -> voters that proposed in the current round.
    pub accounts_proposed: Vec<(Vec<u8>, Vec<u64>)>,
    /// Issuer domain -> (content hash, vote count) in first-seen order.
    pub counter_proposed: Vec<(Vec<u8>, Vec<(Vec<u8>, u32)>)>,
    /// Notifications emitted by successful operations, oldest first.
    pub events: Vec<Event>,
}

impl Pallet {
    /// Issuer metadata by domain.
    pub open spec fn issuers(self) -> Map<Seq<u8>, IssuerV> {
        kv_map(self.issuer_map@)
    }

    /// The active JWKS of each domain that has one.
    pub open spec fn active_jwks(self) -> Map<Seq<u8>, Seq<u8>> {
        kv_map(self.jwks_map@)
    }

    /// The deduplicated blob store: content hash -> stored bytes.
    pub open spec fn blobs(self) -> Map<Seq<u8>, Seq<u8>> {
        kv_map(self.jwks_hash@)
    }

    /// The voters that have proposed for each domain this round.
    pub open spec fn proposers(self) -> Map<Seq<u8>, Seq<u64>> {
        kv_map(self.accounts_proposed@)
    }

    /// The (content hash, vote count) pairs of each domain, in the order
    /// the hashes were first proposed.
    pub open spec fn vote_counts(self) -> Map<Seq<u8>, Seq<(Seq<u8>, u32)>> {
        kv_map(self.counter_proposed@)
    }

    /// The authorized voter set.
    pub open spec fn voters(self) -> Seq<u64> {
        self.validators@
    }

    /// The notifications emitted so far.
    pub open spec fn events_view(self) -> Seq<EventV> {
        Seq::new(self.events@.len(), |i: int| self.events@[i]@)
    }

    /// The registered domains, in storage order.
    pub open spec fn domains(self) -> Seq<Seq<u8>> {
        Seq::new(self.issuer_map@.len(), |i: int| self.issuer_map@[i].0@)
    }

    /// Well-formedness: all tables have distinct keys and obey the
    /// configured bounds, every satellite entry points at a registered
    /// issuer, and every counted hash resolves in the blob store.
    pub open spec fn wf(self) -> bool {
        &&& self.config.wf()
        &&& kv_unique(self.issuer_map@)
        &&& kv_unique(self.jwks_map@)
        &&& kv_unique(self.jwks_hash@)
        &&& kv_unique(self.accounts_proposed@)
        &&& kv_unique(self.counter_proposed@)
        &&& forall|i: int| 0 <= i < self.issuer_map@.len() ==> {
            let p = #[trigger] self.issuer_map@[i];
            p.0@.len() <= self.config.max_length_issuer_domain && issuer_wf(self.config, p.1@)
        }
        &&& forall|i: int| 0 <= i < self.jwks_map@.len() ==> {
            let p = #[trigger] self.jwks_map@[i];
            self.issuers().contains_key(p.0@) && p.1@.len() <= self.config.max_length_issuer_jwks
        }
        &&& forall|i: int| 0 <= i < self.jwks_hash@.len() ==> {
            let p = #[trigger] self.jwks_hash@[i];
            p.0@ == hash_of(p.1@) && p.1@.len() <= self.config.max_length_issuer_jwks
        }
        &&& forall|i: int| 0 <= i < self.accounts_proposed@.len() ==> {
            let p = #[trigger] self.accounts_proposed@[i];
            &&& self.issuers().contains_key(p.0@)
            &&& p.1@.len() <= self.config.max_proposers_per_issuer
            &&& (forall|a: int, b: int| 0 <= a < b < p.1@.len() ==> p.1@[a] != p.1@[b])
        }
        &&& forall|i: int| 0 <= i < self.counter_proposed@.len() ==> {
            let p = #[trigger] self.counter_proposed@[i];
            &&& self.issuers().contains_key(p.0@)
            &&& kv_unique(p.1@)
            &&& (forall|j: int| 0 <= j < p.1@.len() ==> self.blobs().contains_key(
                #[trigger] p.1@[j].0@,
            ))
        }
    }

    /// An empty registry with the given bounds and voter set.
    pub fn new(config: Config, validators: Vec<u64>) -> (r: Pallet)
        requires
            config.wf(),
        ensures
            r.wf(),
            r.config == config,
            r.voters() == validators@,
            r.issuers() == Map::<Seq<u8>, IssuerV>::empty(),
            r.active_jwks() == Map::<Seq<u8>, Seq<u8>>::empty(),
            r.blobs() == Map::<Seq<u8>, Seq<u8>>::empty(),
            r.proposers() == Map::<Seq<u8>, Seq<u64>>::empty(),
            r.vote_counts() == Map::<Seq<u8>, Seq<(Seq<u8>, u32)>>::empty(),
            r.events_view() == Seq::<EventV>::empty(),
    {
        let r = Pallet {
            config,
            validators,
            issuer_map: Vec::new(),
            jwks_map: Vec::new(),
            jwks_hash: Vec::new(),
            accounts_proposed: Vec::new(),
            counter_proposed: Vec::new(),
            events: Vec::new(),
        };
        proof {
            assert(r.events_view() =~= Seq::<EventV>::empty());
        }
        r
    }

    /// Clamps an update interval into the configured range, in place; `None`
    /// (no periodic update) is left as it is.  Out-of-range values are
    /// silently corrected, never rejected.
    pub fn validate_interval_update(&self, interval_update: &mut Option<u32>)
        ensures
            *final(interval_update) == clamp_interval(self.config, *old(interval_update)),
    {
        match interval_update {
            Some(v) => {
                if *v < self.config.min_update_interval {
                    *v = self.config.min_update_interval;
                } else if *v > self.config.max_update_interval {
                    *v = self.config.max_update_interval;
                }
            },
            None => {},
        }
    }

    /// The active JWKS stored for `domain`, if any.
    pub fn get_jwks_url(&self, domain: &Vec<u8>) -> (r: Option<Vec<u8>>)
        requires
            self.wf(),
        ensures
            match r {
                Some(jwks) => self.active_jwks().contains_key(domain@) && jwks@
                    == self.active_jwks()[domain@],
                None => !self.active_jwks().contains_key(domain@),
            },
    {
        proof {
            lemma_kv_dom(self.jwks_map@, domain@);
        }
        match kv_find(&self.jwks_map, domain) {
            Some(i) => {
                proof {
                    lemma_kv_index(self.jwks_map@, i as int);
                }
                Some(clone_bytes(&self.jwks_map[i].1))
            },
            None => None,
        }
    }

    /// The OpenID discovery URL of `domain`'s issuer, if the issuer exists
    /// and has one.
    pub fn get_open_id_url(&self, domain: &Vec<u8>) -> (r: Option<Vec<u8>>)
        requires
            self.wf(),
        ensures
            match r {
                Some(url) => self.issuers().contains_key(domain@)
                    && self.issuers()[domain@].open_id_url == Some(url@),
                None => !self.issuers().contains_key(domain@)
                    || self.issuers()[domain@].open_id_url is None,
            },
    {
        proof {
            lemma_kv_dom(self.issuer_map@, domain@);
        }
        match kv_find(&self.issuer_map, domain) {
            Some(i) => {
                proof {
                    lemma_kv_index(self.issuer_map@, i as int);
                }
                match &self.issuer_map[i].1.open_id_url {
                    Some(url) => Some(clone_bytes(url)),
                    None => None,
                }
            },
            None => None,
        }
    }

    /// All registered issuer domains, in storage order.
    pub fn get_issuers_vec(&self) -> (r: Vec<Vec<u8>>)
        requires
            self.wf(),
        ensures
            r.deep_view() == self.domains(),
            forall|d: Seq<u8>| #[trigger]
                r.deep_view().contains(d) <==> self.issuers().contains_key(d),
    {
        let mut r: Vec<Vec<u8>> = Vec::new();
        let mut i: usize = 0;
        while i < self.issuer_map.len()
            invariant
                i <= self.issuer_map@.len(),
                r@.len() == i,
                forall|j: int| 0 <= j < i ==> #[trigger] r@[j]@ == self.issuer_map@[j].0@,
            decreases self.issuer_map@.len() - i,
        {
            r.push(clone_bytes(&self.issuer_map[i].0));
            i = i + 1;
        }
        proof {
            assert forall|j: int| 0 <= j < r@.len() implies r.deep_view()[j] == self.domains()[j] by {
                lemma_bytes_deep_view(r@[j]);
            }
            assert(r.deep_view() =~= self.domains());
            assert forall|d: Seq<u8>| #[trigger] r.deep_view().contains(d) implies self.issuers()
                .contains_key(d) by {
                let j = choose|j: int| 0 <= j < r.deep_view().len() && r.deep_view()[j] == d;
                lemma_kv_dom(self.issuer_map@, d);
                assert(self.issuer_map@[j].0.deep_view() == d);
            }
            assert forall|d: Seq<u8>| self.issuers().contains_key(d) implies #[trigger] r
                .deep_view()
                .contains(d) by {
                lemma_kv_dom(self.issuer_map@, d);
                let j = choose|j: int|
                    0 <= j < self.issuer_map@.len() && self.issuer_map@[j].0.deep_view() == d;
                assert(r.deep_view()[j] == d);
            }
        }
        r
    }

    /// Canonicalizes a JSON document in place: rejects bytes that do not
    /// parse with `InvalidJson`, and a canonical form longer than the JWKS
    /// bound with `JsonTooLong`; on either error the bytes are untouched.
    pub fn validate_json(&self, json: &mut Vec<u8>) -> (r: Result<(), Error>)
        ensures
            match r {
                Ok(()) => json_valid(old(json)@) && canon_of(old(json)@).len()
                    <= self.config.max_length_issuer_jwks && final(json)@ == canon_of(old(json)@),
                Err(e) => *final(json) == *old(json) && if !json_valid(old(json)@) {
                    e == Error::InvalidJson
                } else {
                    e == Error::JsonTooLong && canon_of(old(json)@).len()
                        > self.config.max_length_issuer_jwks
                },
            },
    {
        match canonicalize(json) {
            None => Err(Error::InvalidJson),
            Some(canon) => {
                if canon.len() > self.config.max_length_issuer_jwks as usize {
                    Err(Error::JsonTooLong)
                } else {
                    *json = canon;
                    Ok(())
                }
            },
        }
    }

    /// Registers a new issuer domain.  Atomic: on any error nothing
    /// changes; on success the issuer is inserted enabled with its interval
    /// clamped, and a supplied JWKS is canonicalized and installed as the
    /// domain's active key set.
    pub fn register_issuer(
        &mut self,
        who: u64,
        domain: Vec<u8>,
        open_id_url: Option<Vec<u8>>,
        jwks: Option<Vec<u8>>,
        interval_update: Option<u32>,
    ) -> (r: Result<(), Error>)
        requires
            old(self).wf(),
        ensures
            final(self).wf(),
            final(self).config == old(self).config,
            final(self).voters() == old(self).voters(),
            match r {
                Err(e) => Some(e) == register_error(
                    *old(self),
                    domain@,
                    opt_bytes(open_id_url),
                    opt_bytes(jwks),
                ) && *final(self) == *old(self),
                Ok(()) => register_error(
                    *old(self),
                    domain@,
                    opt_bytes(open_id_url),
                    opt_bytes(jwks),
                ) is None && {
                    let issuer = IssuerV {
                        open_id_url: opt_bytes(open_id_url),
                        interval_update: clamp_interval(old(self).config, interval_update),
                        is_enabled: true,
                    };
                    &&& final(self).issuers() == old(self).issuers().insert(domain@, issuer)
                    &&& final(self).active_jwks() == (match opt_bytes(jwks) {
                        Some(j) => old(self).active_jwks().insert(domain@, canon_of(j)),
                        None => old(self).active_jwks(),
                    })
                    &&& final(self).blobs() == old(self).blobs()
                    &&& final(self).proposers() == old(self).proposers()
                    &&& final(self).vote_counts() == old(self).vote_counts()
                    &&& final(self).events_view() == old(self).events_view().push(
                        EventV::IssuerRegistered { who, domain: domain@ },
                    )
                },
            },
    {
        let ghost dv = domain@;
        let ghost url_v = opt_bytes(open_id_url);
        if domain.len() > self.config.max_length_issuer_domain as usize {
            return Err(Error::IssuerDomainTooLong);
        }
        proof {
            lemma_kv_dom(self.issuer_map@, dv);
        }
        match kv_find(&self.issuer_map, &domain) {
            Some(_) => {
                return Err(Error::IssuerAlreadyExists);
            },
            None => {},
        }
        match &open_id_url {
            Some(url) => {
                if url.len() > self.config.max_length_issuer_open_id_url as usize {
                    return Err(Error::IssuerOpenIdURLTooLong);
                }
            },
            None => {},
        }
        let canon: Option<Vec<u8>> = match &jwks {
            Some(j) => {
                if j.len() > self.config.max_length_issuer_jwks as usize {
                    return Err(Error::IssuerJWKSTooLong);
                }
                match canonicalize(j) {
                    None => {
                        return Err(Error::InvalidJson);
                    },
                    Some(c) => {
                        if c.len() > self.config.max_length_issuer_jwks as usize {
                            return Err(Error::JsonTooLong);
                        }
                        Some(c)
                    },
                }
            },
            None => None,
        };
        let mut interval = interval_update;
        self.validate_interval_update(&mut interval);
        let ghost pre = *self;
        let issuer = Issuer { open_id_url, interval_update: interval, is_enabled: true };
        let ghost issuer_v = issuer@;
        proof {
            assert(issuer_v == IssuerV {
                open_id_url: url_v,
                interval_update: clamp_interval(pre.config, interval_update),
                is_enabled: true,
            });
        }
        self.issuer_map.push((clone_bytes(&domain), issuer));
        proof {
            let p = self.issuer_map@.last();
            assert(self.issuer_map@ == pre.issuer_map@.push(p));
            lemma_kv_push(pre.issuer_map@, p.0, p.1);
            assert(self.issuers() == pre.issuers().insert(dv, issuer_v));
            assert(kv_unique(self.issuer_map@)) by {
                assert(forall|j: int| 0 <= j < pre.issuer_map@.len() ==> #[trigger] pre
                    .issuer_map@[j].0.deep_view() != dv);
            }
        }
        let ghost mid = *self;
        match canon {
            Some(c) => {
                proof {
                    assert forall|j: int| 0 <= j < self.jwks_map@.len() implies #[trigger] self
                        .jwks_map@[j].0.deep_view() != dv by {
                        assert(pre.issuers().contains_key(pre.jwks_map@[j].0@));
                    }
                }
                self.jwks_map.push((clone_bytes(&domain), c));
                proof {
                    let q = self.jwks_map@.last();
                    assert(self.jwks_map@ == mid.jwks_map@.push(q));
                    lemma_kv_push(mid.jwks_map@, q.0, q.1);
                    assert(self.active_jwks() == pre.active_jwks().insert(
                        dv,
                        canon_of(opt_bytes(jwks)->0),
                    ));
                }
            },
            None => {},
        }
        self.events.push(Event::IssuerRegistered { who, domain });
        proof {
            let post = *self;
            assert(post.events_view() =~= pre.events_view().push(
                EventV::IssuerRegistered { who, domain: dv },
            ));
            assert(post.wf()) by {
                assert(post.issuers() == pre.issuers().insert(dv, issuer_v));
                assert forall|i: int| 0 <= i < post.jwks_map@.len() implies {
                    let p = #[trigger] post.jwks_map@[i];
                    post.issuers().contains_key(p.0@) && p.1@.len()
                        <= post.config.max_length_issuer_jwks
                } by {
                    if i < pre.jwks_map@.len() {
                        assert(pre.issuers().contains_key(pre.jwks_map@[i].0@));
                    }
                }
                assert forall|i: int| 0 <= i < post.accounts_proposed@.len() implies {
                    let p = #[trigger] post.accounts_proposed@[i];
                    &&& post.issuers().contains_key(p.0@)
                    &&& p.1@.len() <= post.config.max_proposers_per_issuer
                    &&& (forall|a: int, b: int| 0 <= a < b < p.1@.len() ==> p.1@[a] != p.1@[b])
                } by {
                    assert(pre.issuers().contains_key(pre.accounts_proposed@[i].0@));
                    assert(pre.accounts_proposed@[i].1@.len()
                        <= pre.config.max_proposers_per_issuer);
                }
                assert forall|i: int| 0 <= i < post.counter_proposed@.len() implies {
                    let p = #[trigger] post.counter_proposed@[i];
                    &&& post.issuers().contains_key(p.0@)
                    &&& kv_unique(p.1@)
                    &&& (forall|j: int| 0 <= j < p.1@.len() ==> post.blobs().contains_key(
                        #[trigger] p.1@[j].0@,
                    ))
                } by {
                    assert(pre.issuers().contains_key(pre.counter_proposed@[i].0@));
                    assert(kv_unique(pre.counter_proposed@[i].1@));
                    assert(forall|j: int| 0 <= j < pre.counter_proposed@[i].1@.len() ==> pre
                        .blobs().contains_key(#[trigger] pre.counter_proposed@[i].1@[j].0@));
                }
            }
        }
        Ok(())
    }

    /// Replaces every mutable field of an existing issuer, including
    /// clearing the URL or the active JWKS when the input is absent
    /// (full-replace semantics, not a partial patch).  Atomic.
    pub fn update_issuer(
        &mut self,
        who: u64,
        domain: Vec<u8>,
        open_id_url: Option<Vec<u8>>,
        jwks: Option<Vec<u8>>,
        interval_update: Option<u32>,
        is_enabled: bool,
    ) -> (r: Result<(), Error>)
        requires
            old(self).wf(),
        ensures
            final(self).wf(),
            final(self).config == old(self).config,
            final(self).voters() == old(self).voters(),
            match r {
                Err(e) => Some(e) == update_error(
                    *old(self),
                    domain@,
                    opt_bytes(open_id_url),
                    opt_bytes(jwks),
                ) && *final(self) == *old(self),
                Ok(()) => update_error(
                    *old(self),
                    domain@,
                    opt_bytes(open_id_url),
                    opt_bytes(jwks),
                ) is None && {
                    let issuer = IssuerV {
                        open_id_url: opt_bytes(open_id_url),
                        interval_update: clamp_interval(old(self).config, interval_update),
                        is_enabled,
                    };
                    &&& final(self).issuers() == old(self).issuers().insert(domain@, issuer)
                    &&& final(self).active_jwks() == (match opt_bytes(jwks) {
                        Some(j) => old(self).active_jwks().insert(domain@, canon_of(j)),
                        None => old(self).active_jwks().remove(domain@),
                    })
                    &&& final(self).blobs() == old(self).blobs()
                    &&& final(self).proposers() == old(self).proposers()
                    &&& final(self).vote_counts() == old(self).vote_counts()
                    &&& final(self).events_view() == old(self).events_view().push(
                        EventV::IssuerUpdated { who, domain: domain@ },
                    )
                },
            },
    {
        let ghost dv = domain@;
        let ghost url_v = opt_bytes(open_id_url);
        proof {
            lemma_kv_dom(self.issuer_map@, dv);
        }
        let i = match kv_find(&self.issuer_map, &domain) {
            Some(i) => i,
            None => {
                return Err(Error::IssuerDoesNotExist);
            },
        };
        match &open_id_url {
            Some(url) => {
                if url.len() > self.config.max_length_issuer_open_id_url as usize {
                    return Err(Error::IssuerOpenIdURLTooLong);
                }
            },
            None => {},
        }
        let canon: Option<Vec<u8>> = match &jwks {
            Some(j) => {
                if j.len() > self.config.max_length_issuer_jwks as usize {
                    return Err(Error::IssuerJWKSTooLong);
                }
                match canonicalize(j) {
                    None => {
                        return Err(Error::InvalidJson);
                    },
                    Some(c) => {
                        if c.len() > self.config.max_length_issuer_jwks as usize {
                            return Err(Error::JsonTooLong);
                        }
                        Some(c)
                    },
                }
            },
            None => None,
        };
        let mut interval = interval_update;
        self.validate_interval_update(&mut interval);
        let ghost pre = *self;
        let issuer = Issuer { open_id_url, interval_update: interval, is_enabled };
        let ghost issuer_v = issuer@;
        proof {
            assert(issuer_v == IssuerV {
                open_id_url: url_v,
                interval_update: clamp_interval(pre.config, interval_update),
                is_enabled,
            });
        }
        self.issuer_map.set(i, (clone_bytes(&domain), issuer));
        proof {
            let p = self.issuer_map@[i as int];
            lemma_kv_update(pre.issuer_map@, i as int, p.0, p.1);
            assert(self.issuers() == pre.issuers().insert(dv, issuer_v));
        }
        let ghost mid = *self;
        match canon {
            Some(c) => {
                proof {
                    lemma_kv_dom(self.jwks_map@, dv);
                }
                match kv_find(&self.jwks_map, &domain) {
                    Some(j) => {
                        self.jwks_map.set(j, (clone_bytes(&domain), c));
                        proof {
                            let q = self.jwks_map@[j as int];
                            lemma_kv_update(mid.jwks_map@, j as int, q.0, q.1);
                            assert(self.active_jwks() == pre.active_jwks().insert(
                                dv,
                                canon_of(opt_bytes(jwks)->0),
                            ));
                            assert(jwks_table_ok(*self, pre, dv));
                        }
                    },
                    None => {
                        self.jwks_map.push((clone_bytes(&domain), c));
                        proof {
                            let q = self.jwks_map@.last();
                            assert(self.jwks_map@ == mid.jwks_map@.push(q));
                            lemma_kv_push(mid.jwks_map@, q.0, q.1);
                            assert(self.active_jwks() == pre.active_jwks().insert(
                                dv,
                                canon_of(opt_bytes(jwks)->0),
                            ));
                            assert(kv_unique(self.jwks_map@));
                            assert(jwks_table_ok(*self, pre, dv));
                        }
                    },
                }
            },
            None => {
                proof {
                    lemma_kv_dom(self.jwks_map@, dv);
                }
                match kv_find(&self.jwks_map, &domain) {
                    Some(j) => {
                        self.jwks_map.remove(j);
                        proof {
                            lemma_kv_remove(mid.jwks_map@, j as int);
                            assert(self.active_jwks() == pre.active_jwks().remove(dv));
                            assert(jwks_table_ok(*self, pre, dv));
                        }
                    },
                    None => {
                        proof {
                            assert(pre.active_jwks().remove(dv) =~= pre.active_jwks());
                            assert(jwks_table_ok(*self, pre, dv));
                        }
                    },
                }
            },
        }
        self.events.push(Event::IssuerUpdated { who, domain });
        proof {
            let post = *self;
            assert(post.events_view() =~= pre.events_view().push(
                EventV::IssuerUpdated { who, domain: dv },
            ));
            assert(post.wf()) by {
                assert(post.issuers() == pre.issuers().insert(dv, issuer_v));
                assert(pre.issuers().contains_key(dv));
                assert forall|k: int| 0 <= k < post.issuer_map@.len() implies {
                    let p = #[trigger] post.issuer_map@[k];
                    p.0@.len() <= post.config.max_length_issuer_domain && issuer_wf(
                        post.config,
                        p.1@,
                    )
                } by {
                    if k != i {
                        assert(pre.issuer_map@[k] == post.issuer_map@[k]);
                    }
                }
                assert(jwks_table_ok(post, pre, dv));
                assert forall|k: int| 0 <= k < post.jwks_map@.len() implies {
                    let p = #[trigger] post.jwks_map@[k];
                    post.issuers().contains_key(p.0@) && p.1@.len()
                        <= post.config.max_length_issuer_jwks
                } by {
                    assert(post.jwks_map@[k].0@ == dv || pre.issuers().contains_key(
                        post.jwks_map@[k].0@,
                    ));
                }
                assert forall|k: int| 0 <= k < post.accounts_proposed@.len() implies {
                    let p = #[trigger] post.accounts_proposed@[k];
                    &&& post.issuers().contains_key(p.0@)
                    &&& p.1@.len() <= post.config.max_proposers_per_issuer
                    &&& (forall|a: int, b: int| 0 <= a < b < p.1@.len() ==> p.1@[a] != p.1@[b])
                } by {
                    assert(pre.issuers().contains_key(pre.accounts_proposed@[k].0@));
                    assert(pre.accounts_proposed@[k].1@.len()
                        <= pre.config.max_proposers_per_issuer);
                }
                assert forall|k: int| 0 <= k < post.counter_proposed@.len() implies {
                    let p = #[trigger] post.counter_proposed@[k];
                    &&& post.issuers().contains_key(p.0@)
                    &&& kv_unique(p.1@)
                    &&& (forall|j: int| 0 <= j < p.1@.len() ==> post.blobs().contains_key(
                        #[trigger] p.1@[j].0@,
                    ))
                } by {
                    assert(pre.issuers().contains_key(pre.counter_proposed@[k].0@));
                    assert(kv_unique(pre.counter_proposed@[k].1@));
                    assert(forall|j: int| 0 <= j < pre.counter_proposed@[k].1@.len() ==> pre
                        .blobs().contains_key(#[trigger] pre.counter_proposed@[k].1@[j].0@));
                }
            }
        }
        Ok(())
    }

    /// Deletes an issuer together with its active JWKS, its proposer list
    /// and its vote counters.  The content-addressed blob store is shared
    /// between domains and is left untouched.  Atomic.
    pub fn delete_issuer(&mut self, who: u64, domain: Vec<u8>) -> (r: Result<(), Error>)
        requires
            old(self).wf(),
        ensures
            final(self).wf(),
            final(self).config == old(self).config,
            final(self).voters() == old(self).voters(),
            match r {
                Err(e) => e == Error::IssuerDoesNotExist && !old(self).issuers().contains_key(
                    domain@,
                ) && *final(self) == *old(self),
                Ok(()) => old(self).issuers().contains_key(domain@) && {
                    &&& final(self).issuers() == old(self).issuers().remove(domain@)
                    &&& final(self).active_jwks() == old(self).active_jwks().remove(domain@)
                    &&& final(self).proposers() == old(self).proposers().remove(domain@)
                    &&& final(self).vote_counts() == old(self).vote_counts().remove(domain@)
                    &&& final(self).blobs() == old(self).blobs()
                    &&& final(self).events_view() == old(self).events_view().push(
                        EventV::IssuerDeleted { who, domain: domain@ },
                    )
                },
            },
    {
        let ghost dv = domain@;
        proof {
            lemma_kv_dom(self.issuer_map@, dv);
        }
        let i = match kv_find(&self.issuer_map, &domain) {
            Some(i) => i,
            None => {
                return Err(Error::IssuerDoesNotExist);
            },
        };
        let ghost pre = *self;
        self.issuer_map.remove(i);
        proof {
            lemma_kv_remove(pre.issuer_map@, i as int);
            pre.issuer_map@.remove_ensures(i as int);
            assert(self.issuers() == pre.issuers().remove(dv));
            assert forall|k: int| 0 <= k < self.issuer_map@.len() implies {
                let p = #[trigger] self.issuer_map@[k];
                p.0@.len() <= self.config.max_length_issuer_domain && issuer_wf(
                    self.config,
                    p.1@,
                )
            } by {
                if k < i {
                    assert(self.issuer_map@[k] == pre.issuer_map@[k]);
                } else {
                    assert(self.issuer_map@[k] == pre.issuer_map@[k + 1]);
                }
            }
        }
        proof {
            lemma_kv_dom(self.jwks_map@, dv);
        }
        match kv_find(&self.jwks_map, &domain) {
            Some(j) => {
                self.jwks_map.remove(j);
                proof {
                    lemma_kv_remove(pre.jwks_map@, j as int);
                    pre.jwks_map@.remove_ensures(j as int);
                    assert(self.active_jwks() == pre.active_jwks().remove(dv));
                    assert forall|k: int| 0 <= k < self.jwks_map@.len() implies {
                        let p = #[trigger] self.jwks_map@[k];
                        self.issuers().contains_key(p.0@) && p.1@.len()
                            <= self.config.max_length_issuer_jwks
                    } by {
                        let m: int = if k < j { k } else { k + 1 };
                        assert(self.jwks_map@[k] == pre.jwks_map@[m]);
                        assert(pre.jwks_map@[m].0.deep_view() != pre.jwks_map@[j as int]
                            .0.deep_view());
                        assert(pre.issuers().contains_key(pre.jwks_map@[m].0@));
                    }
                }
            },
            None => {
                proof {
                    assert(pre.active_jwks().remove(dv) =~= pre.active_jwks());
                    assert forall|k: int| 0 <= k < self.jwks_map@.len() implies {
                        let p = #[trigger] self.jwks_map@[k];
                        self.issuers().contains_key(p.0@) && p.1@.len()
                            <= self.config.max_length_issuer_jwks
                    } by {
                        assert(pre.issuers().contains_key(pre.jwks_map@[k].0@));
                        assert(pre.jwks_map@[k].0@ != dv);
                    }
                }
            },
        }
        proof {
            lemma_kv_dom(self.accounts_proposed@, dv);
        }
        match kv_find(&self.accounts_proposed, &domain) {
            Some(j) => {
                self.accounts_proposed.remove(j);
                proof {
                    lemma_kv_remove(pre.accounts_proposed@, j as int);
                    pre.accounts_proposed@.remove_ensures(j as int);
                    assert(self.proposers() == pre.proposers().remove(dv));
                    assert forall|k: int| 0 <= k < self.accounts_proposed@.len() implies {
                        let p = #[trigger] self.accounts_proposed@[k];
                        &&& self.issuers().contains_key(p.0@)
                        &&& p.1@.len() <= self.config.max_proposers_per_issuer
                        &&& (forall|a: int, b: int|
                            0 <= a < b < p.1@.len() ==> p.1@[a] != p.1@[b])
                    } by {
                        let m: int = if k < j { k } else { k + 1 };
                        assert(self.accounts_proposed@[k] == pre.accounts_proposed@[m]);
                        assert(pre.accounts_proposed@[m].0.deep_view()
                            != pre.accounts_proposed@[j as int].0.deep_view());
                        assert(pre.issuers().contains_key(pre.accounts_proposed@[m].0@));
                        assert(pre.accounts_proposed@[m].1@.len()
                            <= pre.config.max_proposers_per_issuer);
                    }
                }
            },
            None => {
                proof {
                    assert(pre.proposers().remove(dv) =~= pre.proposers());
                    assert forall|k: int| 0 <= k < self.accounts_proposed@.len() implies {
                        let p = #[trigger] self.accounts_proposed@[k];
                        &&& self.issuers().contains_key(p.0@)
                        &&& p.1@.len() <= self.config.max_proposers_per_issuer
                        &&& (forall|a: int, b: int|
                            0 <= a < b < p.1@.len() ==> p.1@[a] != p.1@[b])
                    } by {
                        assert(pre.issuers().contains_key(pre.accounts_proposed@[k].0@));
                        assert(pre.accounts_proposed@[k].1@.len()
                            <= pre.config.max_proposers_per_issuer);
                        assert(pre.accounts_proposed@[k].0@ != dv);
                    }
                }
            },
        }
        proof {
            lemma_kv_dom(self.counter_proposed@, dv);
        }
        match kv_find(&self.counter_proposed, &domain) {
            Some(j) => {
                self.counter_proposed.remove(j);
                proof {
                    lemma_kv_remove(pre.counter_proposed@, j as int);
                    pre.counter_proposed@.remove_ensures(j as int);
                    assert(self.vote_counts() == pre.vote_counts().remove(dv));
                    assert forall|k: int| 0 <= k < self.counter_proposed@.len() implies {
                        let p = #[trigger] self.counter_proposed@[k];
                        &&& self.issuers().contains_key(p.0@)
                        &&& kv_unique(p.1@)
                        &&& (forall|q: int| 0 <= q < p.1@.len() ==> self.blobs().contains_key(
                            #[trigger] p.1@[q].0@,
                        ))
                    } by {
                        let m: int = if k < j { k } else { k + 1 };
                        assert(self.counter_proposed@[k] == pre.counter_proposed@[m]);
                        assert(pre.counter_proposed@[m].0.deep_view()
                            != pre.counter_proposed@[j as int].0.deep_view());
                        assert(pre.issuers().contains_key(pre.counter_proposed@[m].0@));
                        assert(kv_unique(pre.counter_proposed@[m].1@));
                        assert(forall|q: int| 0 <= q < pre.counter_proposed@[m].1@.len() ==> pre
                            .blobs().contains_key(#[trigger] pre.counter_proposed@[m].1@[q].0@));
                    }
                }
            },
            None => {
                proof {
                    assert(pre.vote_counts().remove(dv) =~= pre.vote_counts());
                    assert forall|k: int| 0 <= k < self.counter_proposed@.len() implies {
                        let p = #[trigger] self.counter_proposed@[k];
                        &&& self.issuers().contains_key(p.0@)
                        &&& kv_unique(p.1@)
                        &&& (forall|q: int| 0 <= q < p.1@.len() ==> self.blobs().contains_key(
                            #[trigger] p.1@[q].0@,
                        ))
                    } by {
                        assert(pre.issuers().contains_key(pre.counter_proposed@[k].0@));
                        assert(kv_unique(pre.counter_proposed@[k].1@));
                        assert(forall|q: int| 0 <= q < pre.counter_proposed@[k].1@.len() ==> pre
                            .blobs().contains_key(#[trigger] pre.counter_proposed@[k].1@[q].0@));
                        assert(pre.counter_proposed@[k].0@ != dv);
                    }
                }
            },
        }
        self.events.push(Event::IssuerDeleted { who, domain });
        proof {
            let post = *self;
            assert(post.events_view() =~= pre.events_view().push(
                EventV::IssuerDeleted { who, domain: dv },
            ));
            assert(post.wf());
        }
        Ok(())
    }

    /// Overwrites an issuer's update interval, clamped into the configured
    /// range; `None` switches periodic updates off.  Atomic.
    pub fn set_update_interval(
        &mut self,
        who: u64,
        domain: Vec<u8>,
        interval_update: Option<u32>,
    ) -> (r: Result<(), Error>)
        requires
            old(self).wf(),
        ensures
            final(self).wf(),
            final(self).config == old(self).config,
            final(self).voters() == old(self).voters(),
            match r {
                Err(e) => e == Error::IssuerDoesNotExist && !old(self).issuers().contains_key(
                    domain@,
                ) && *final(self) == *old(self),
                Ok(()) => old(self).issuers().contains_key(domain@) && {
                    let v0 = old(self).issuers()[domain@];
                    let v1 = IssuerV {
                        open_id_url: v0.open_id_url,
                        interval_update: clamp_interval(old(self).config, interval_update),
                        is_enabled: v0.is_enabled,
                    };
                    &&& final(self).issuers() == old(self).issuers().insert(domain@, v1)
                    &&& final(self).active_jwks() == old(self).active_jwks()
                    &&& final(self).blobs() == old(self).blobs()
                    &&& final(self).proposers() == old(self).proposers()
                    &&& final(self).vote_counts() == old(self).vote_counts()
                    &&& final(self).events_view() == old(self).events_view().push(
                        (EventV::IssuerIntervalUpdateUpdated {
                            who,
                            domain: domain@,
                            interval_update: clamp_interval(old(self).config, interval_update),
                        }),
                    )
                },
            },
    {
        let ghost dv = domain@;
        proof {
            lemma_kv_dom(self.issuer_map@, dv);
        }
        let i = match kv_find(&self.issuer_map, &domain) {
            Some(i) => i,
            None => {
                return Err(Error::IssuerDoesNotExist);
            },
        };
        proof {
            lemma_kv_index(self.issuer_map@, i as int);
        }
        let mut interval = interval_update;
        self.validate_interval_update(&mut interval);
        let ghost pre = *self;
        let url_clone = match &self.issuer_map[i].1.open_id_url {
            Some(u) => Some(clone_bytes(u)),
            None => None,
        };
        let enabled = self.issuer_map[i].1.is_enabled;
        let issuer = Issuer { open_id_url: url_clone, interval_update: interval, is_enabled: enabled };
        let ghost issuer_v = issuer@;
        self.issuer_map.set(i, (clone_bytes(&domain), issuer));
        proof {
            let p = self.issuer_map@[i as int];
            lemma_kv_update(pre.issuer_map@, i as int, p.0, p.1);
            assert(self.issuers() == pre.issuers().insert(dv, issuer_v));
        }
        self.events.push(Event::IssuerIntervalUpdateUpdated { who, domain, interval_update: interval });
        proof {
            let post = *self;
            assert(post.events_view() =~= pre.events_view().push(
                (EventV::IssuerIntervalUpdateUpdated {
                    who,
                    domain: dv,
                    interval_update: clamp_interval(pre.config, interval_update),
                }),
            ));
            self.lemma_wf_after_issuer_replace(pre, dv, issuer_v, i as int);
        }
        Ok(())
    }

    /// After only the issuer entry at `i` (keyed `dv`) was replaced by a
    /// well-formed record and an event was pushed, the registry is still
    /// well-formed.
    proof fn lemma_wf_after_issuer_replace(self, pre: Pallet, dv: Seq<u8>, issuer_v: IssuerV, i: int)
        requires
            pre.wf(),
            0 <= i < pre.issuer_map@.len(),
            pre.issuer_map@[i].0@ == dv,
            self.config == pre.config,
            self.issuers() == pre.issuers().insert(dv, issuer_v),
            issuer_wf(pre.config, issuer_v),
            kv_unique(self.issuer_map@),
            self.issuer_map@.len() == pre.issuer_map@.len(),
            forall|k: int| 0 <= k < self.issuer_map@.len() && k != i ==> #[trigger] self
                .issuer_map@[k] == pre.issuer_map@[k],
            self.issuer_map@[i].0@ == dv,
            self.issuer_map@[i].1@ == issuer_v,
            self.jwks_map == pre.jwks_map,
            self.jwks_hash == pre.jwks_hash,
            self.accounts_proposed == pre.accounts_proposed,
            self.counter_proposed == pre.counter_proposed,
        ensures
            self.wf(),
    {
        assert forall|k: int| 0 <= k < self.issuer_map@.len() implies {
            let p = #[trigger] self.issuer_map@[k];
            p.0@.len() <= self.config.max_length_issuer_domain && issuer_wf(self.config, p.1@)
        } by {
            if k != i {
                assert(self.issuer_map@[k] == pre.issuer_map@[k]);
            } else {
                assert(pre.issuer_map@[i].0@.len() <= pre.config.max_length_issuer_domain);
            }
        }
        assert forall|k: int| 0 <= k < self.jwks_map@.len() implies {
            let p = #[trigger] self.jwks_map@[k];
            self.issuers().contains_key(p.0@) && p.1@.len() <= self.config.max_length_issuer_jwks
        } by {
            assert(pre.issuers().contains_key(pre.jwks_map@[k].0@));
        }
        assert forall|k: int| 0 <= k < self.accounts_proposed@.len() implies {
            let p = #[trigger] self.accounts_proposed@[k];
            &&& self.issuers().contains_key(p.0@)
            &&& p.1@.len() <= self.config.max_proposers_per_issuer
            &&& (forall|a: int, b: int| 0 <= a < b < p.1@.len() ==> p.1@[a] != p.1@[b])
        } by {
            assert(pre.issuers().contains_key(pre.accounts_proposed@[k].0@));
            assert(pre.accounts_proposed@[k].1@.len() <= pre.config.max_proposers_per_issuer);
        }
        assert forall|k: int| 0 <= k < self.counter_proposed@.len() implies {
            let p = #[trigger] self.counter_proposed@[k];
            &&& self.issuers().contains_key(p.0@)
            &&& kv_unique(p.1@)
            &&& (forall|q: int| 0 <= q < p.1@.len() ==> self.blobs().contains_key(
                #[trigger] p.1@[q].0@,
            ))
        } by {
            assert(pre.issuers().contains_key(pre.counter_proposed@[k].0@));
            assert(kv_unique(pre.counter_proposed@[k].1@));
            assert(forall|q: int| 0 <= q < pre.counter_proposed@[k].1@.len() ==> pre
                .blobs().contains_key(#[trigger] pre.counter_proposed@[k].1@[q].0@));
        }
    }

    /// Switches an issuer on or off for token validation.  When the flag
    /// already has the requested value nothing is written and no event is
    /// emitted.  Atomic.
    pub fn set_enabled(&mut self, who: u64, domain: Vec<u8>, is_enabled: bool) -> (r: Result<
        (),
        Error,
    >)
        requires
            old(self).wf(),
        ensures
            final(self).wf(),
            final(self).config == old(self).config,
            final(self).voters() == old(self).voters(),
            match r {
                Err(e) => e == Error::IssuerDoesNotExist && !old(self).issuers().contains_key(
                    domain@,
                ) && *final(self) == *old(self),
                Ok(()) => old(self).issuers().contains_key(domain@) && {
                    let v0 = old(self).issuers()[domain@];
                    if v0.is_enabled == is_enabled {
                        *final(self) == *old(self)
                    } else {
                        let v1 = IssuerV {
                            open_id_url: v0.open_id_url,
                            interval_update: v0.interval_update,
                            is_enabled,
                        };
                        &&& final(self).issuers() == old(self).issuers().insert(domain@, v1)
                        &&& final(self).active_jwks() == old(self).active_jwks()
                        &&& final(self).blobs() == old(self).blobs()
                        &&& final(self).proposers() == old(self).proposers()
                        &&& final(self).vote_counts() == old(self).vote_counts()
                        &&& final(self).events_view() == old(self).events_view().push(
                            (EventV::IssuerEnabledUpdated { who, domain: domain@, is_enabled }),
                        )
                    }
                },
            },
    {
        let ghost dv = domain@;
        proof {
            lemma_kv_dom(self.issuer_map@, dv);
        }
        let i = match kv_find(&self.issuer_map, &domain) {
            Some(i) => i,
            None => {
                return Err(Error::IssuerDoesNotExist);
            },
        };
        proof {
            lemma_kv_index(self.issuer_map@, i as int);
        }
        if self.issuer_map[i].1.is_enabled == is_enabled {
            return Ok(());
        }
        let ghost pre = *self;
        let url_clone = match &self.issuer_map[i].1.open_id_url {
            Some(u) => Some(clone_bytes(u)),
            None => None,
        };
        let interval = self.issuer_map[i].1.interval_update;
        let issuer = Issuer { open_id_url: url_clone, interval_update: interval, is_enabled };
        let ghost issuer_v = issuer@;
        self.issuer_map.set(i, (clone_bytes(&domain), issuer));
        proof {
            let p = self.issuer_map@[i as int];
            lemma_kv_update(pre.issuer_map@, i as int, p.0, p.1);
            assert(self.issuers() == pre.issuers().insert(dv, issuer_v));
        }
        self.events.push(Event::IssuerEnabledUpdated { who, domain, is_enabled });
        proof {
            let post = *self;
            assert(post.events_view() =~= pre.events_view().push(
                (EventV::IssuerEnabledUpdated { who, domain: dv, is_enabled }),
            ));
            self.lemma_wf_after_issuer_replace(pre, dv, issuer_v, i as int);
        }
        Ok(())
    }

    /// Sets an issuer's OpenID discovery URL.  When the stored URL already
    /// equals the given one nothing is written and no event is emitted.
    /// Atomic.
    pub fn set_open_id_url(&mut self, who: u64, domain: Vec<u8>, open_id_url: Vec<u8>) -> (r:
        Result<(), Error>)
        requires
            old(self).wf(),
        ensures
            final(self).wf(),
            final(self).config == old(self).config,
            final(self).voters() == old(self).voters(),
            match r {
                Err(e) => *final(self) == *old(self) && if !old(self).issuers().contains_key(
                    domain@,
                ) {
                    e == Error::IssuerDoesNotExist
                } else {
                    e == Error::IssuerOpenIdURLTooLong && open_id_url@.len() > old(
                        self,
                    ).config.max_length_issuer_open_id_url
                },
                Ok(()) => old(self).issuers().contains_key(domain@) && open_id_url@.len() <= old(
                    self,
                ).config.max_length_issuer_open_id_url && {
                    let v0 = old(self).issuers()[domain@];
                    if v0.open_id_url == Some(open_id_url@) {
                        *final(self) == *old(self)
                    } else {
                        let v1 = IssuerV {
                            open_id_url: Some(open_id_url@),
                            interval_update: v0.interval_update,
                            is_enabled: v0.is_enabled,
                        };
                        &&& final(self).issuers() == old(self).issuers().insert(domain@, v1)
                        &&& final(self).active_jwks() == old(self).active_jwks()
                        &&& final(self).blobs() == old(self).blobs()
                        &&& final(self).proposers() == old(self).proposers()
                        &&& final(self).vote_counts() == old(self).vote_counts()
                        &&& final(self).events_view() == old(self).events_view().push(
                            (EventV::IssuerOpenIdURLUpdated { who, domain: domain@ }),
                        )
                    }
                },
            },
    {
        let ghost dv = domain@;
        proof {
            lemma_kv_dom(self.issuer_map@, dv);
        }
        let i = match kv_find(&self.issuer_map, &domain) {
            Some(i) => i,
            None => {
                return Err(Error::IssuerDoesNotExist);
            },
        };
        if open_id_url.len() > self.config.max_length_issuer_open_id_url as usize {
            return Err(Error::IssuerOpenIdURLTooLong);
        }
        proof {
            lemma_kv_index(self.issuer_map@, i as int);
        }
        let unchanged = match &self.issuer_map[i].1.open_id_url {
            Some(u) => bytes_eq(u, &open_id_url),
            None => false,
        };
        if unchanged {
            return Ok(());
        }
        let ghost pre = *self;
        let interval = self.issuer_map[i].1.interval_update;
        let enabled = self.issuer_map[i].1.is_enabled;
        let issuer = Issuer {
            open_id_url: Some(open_id_url),
            interval_update: interval,
            is_enabled: enabled,
        };
        let ghost issuer_v = issuer@;
        self.issuer_map.set(i, (clone_bytes(&domain), issuer));
        proof {
            let p = self.issuer_map@[i as int];
            lemma_kv_update(pre.issuer_map@, i as int, p.0, p.1);
            assert(self.issuers() == pre.issuers().insert(dv, issuer_v));
        }
        self.events.push(Event::IssuerOpenIdURLUpdated { who, domain });
        proof {
            let post = *self;
            assert(post.events_view() =~= pre.events_view().push(
                (EventV::IssuerOpenIdURLUpdated { who, domain: dv }),
            ));
            self.lemma_wf_after_issuer_replace(pre, dv, issuer_v, i as int);
        }
        Ok(())
    }

    /// Records one voter's JWKS proposal for a domain: the canonical bytes
    /// are stored once in the deduplicating blob store, the voter joins the
    /// domain's bounded proposer list, and the (domain, content hash)
    /// counter is bumped without wrapping.  Atomic: on any error, including
    /// malformed JSON, no blob is stored, no counter moves and the proposer
    /// list is untouched.
    pub fn propose_jwks(&mut self, who: u64, domain: Vec<u8>, jwks: Vec<u8>) -> (r: Result<
        (),
        Error,
    >)
        requires
            old(self).wf(),
        ensures
            final(self).wf(),
            final(self).config == old(self).config,
            final(self).voters() == old(self).voters(),
            match r {
                Err(e) => Some(e) == propose_error(*old(self), who, domain@, jwks@) && *final(self)
                    == *old(self),
                Ok(()) => propose_error(*old(self), who, domain@, jwks@) is None && {
                    let canon = canon_of(jwks@);
                    let h = hash_of(canon);
                    &&& final(self).issuers() == old(self).issuers()
                    &&& final(self).active_jwks() == old(self).active_jwks()
                    &&& final(self).blobs() == (if old(self).blobs().contains_key(h) {
                        old(self).blobs()
                    } else {
                        old(self).blobs().insert(h, canon)
                    })
                    &&& final(self).proposers() == old(self).proposers().insert(
                        domain@,
                        proposer_list(*old(self), domain@).push(who),
                    )
                    &&& final(self).vote_counts() == old(self).vote_counts().insert(
                        domain@,
                        bump_counts(counter_list(*old(self), domain@), h),
                    )
                    &&& final(self).events_view() == old(self).events_view().push(
                        EventV::IssuerJWKSUpdated { who, domain: domain@ },
                    )
                },
            },
    {
        let ghost dv = domain@;
        if !contains_u64(&self.validators, who) {
            return Err(Error::OnlyValidatorsCanProposeJWKS);
        }
        proof {
            lemma_kv_dom(self.issuer_map@, dv);
        }
        match kv_find(&self.issuer_map, &domain) {
            Some(_) => {},
            None => {
                return Err(Error::IssuerDoesNotExist);
            },
        }
        if jwks.len() > self.config.max_length_issuer_jwks as usize {
            return Err(Error::IssuerJWKSTooLong);
        }
        let canon = match canonicalize(&jwks) {
            None => {
                return Err(Error::InvalidJson);
            },
            Some(c) => c,
        };
        if canon.len() > self.config.max_length_issuer_jwks as usize {
            return Err(Error::JsonTooLong);
        }
        proof {
            lemma_kv_dom(self.accounts_proposed@, dv);
        }
        let prop_idx = kv_find(&self.accounts_proposed, &domain);
        match prop_idx {
            Some(j) => {
                proof {
                    lemma_kv_index(self.accounts_proposed@, j as int);
                }
                if contains_u64(&self.accounts_proposed[j].1, who) {
                    return Err(Error::AlreadyProposedForJWKS);
                }
                if self.accounts_proposed[j].1.len()
                    >= self.config.max_proposers_per_issuer as usize {
                    return Err(Error::MaxProposersPerIssuerExceeded);
                }
            },
            None => {
                if self.config.max_proposers_per_issuer == 0 {
                    return Err(Error::MaxProposersPerIssuerExceeded);
                }
            },
        }
        let ghost pre = *self;
        let hash = blake2b_256(&canon);
        let ghost h = hash@;
        proof {
            lemma_kv_dom(self.jwks_hash@, h);
        }
        match kv_find(&self.jwks_hash, &hash) {
            Some(_) => {
                proof {
                    assert(pre.blobs().contains_key(h));
                }
            },
            None => {
                self.jwks_hash.push((clone_bytes(&hash), clone_bytes(&canon)));
                proof {
                    let p = self.jwks_hash@.last();
                    assert(self.jwks_hash@ == pre.jwks_hash@.push(p));
                    lemma_kv_push(pre.jwks_hash@, p.0, p.1);
                    assert(self.blobs() == pre.blobs().insert(h, canon_of(jwks@)));
                    assert(kv_unique(self.jwks_hash@));
                }
            },
        }
        proof {
            assert(self.blobs().contains_key(h));
            assert(forall|k: Seq<u8>| pre.blobs().contains_key(k) ==> #[trigger] self.blobs()
                .contains_key(k));
        }
        let ghost mid1 = *self;
        let (dkey, mut lst) = match prop_idx {
            Some(j) => {
                proof {
                    lemma_kv_remove(mid1.accounts_proposed@, j as int);
                }
                self.accounts_proposed.remove(j)
            },
            None => (clone_bytes(&domain), Vec::new()),
        };
        let ghost lst0 = lst@;
        proof {
            assert(lst0 == proposer_list(pre, dv));
            assert(dkey@ == dv);
            assert(forall|k: int| 0 <= k < self.accounts_proposed@.len() ==> #[trigger] self
                .accounts_proposed@[k].0.deep_view() != dv);
        }
        let ghost acc_mid = self.accounts_proposed@;
        lst.push(who);
        self.accounts_proposed.push((dkey, lst));
        proof {
            let p = self.accounts_proposed@.last();
            assert(self.accounts_proposed@ == acc_mid.push(p));
            lemma_kv_push(acc_mid, p.0, p.1);
            assert(p.1@ == lst0.push(who));
            match prop_idx {
                Some(j) => {
                    assert(kv_map(acc_mid) == pre.proposers().remove(dv));
                    assert(self.proposers() =~= pre.proposers().insert(dv, lst0.push(who)));
                },
                None => {
                    assert(self.proposers() =~= pre.proposers().insert(dv, lst0.push(who)));
                },
            }
            assert(kv_unique(self.accounts_proposed@));
        }
        let ghost mid3 = *self;
        proof {
            lemma_kv_dom(self.counter_proposed@, dv);
        }
        let cnt_idx = kv_find(&self.counter_proposed, &domain);
        let (ckey, mut cl) = match cnt_idx {
            Some(j) => {
                proof {
                    lemma_kv_index(mid3.counter_proposed@, j as int);
                    lemma_kv_remove(mid3.counter_proposed@, j as int);
                }
                self.counter_proposed.remove(j)
            },
            None => (clone_bytes(&domain), Vec::new()),
        };
        let ghost cl0 = cl.deep_view();
        proof {
            assert(cl0 =~= counter_list(pre, dv));
            assert(ckey@ == dv);
            assert(kv_unique(cl@));
            assert(forall|q: int| 0 <= q < cl@.len() ==> pre.blobs().contains_key(
                #[trigger] cl@[q].0@,
            ));
            assert(forall|k: int| 0 <= k < self.counter_proposed@.len() ==> #[trigger] self
                .counter_proposed@[k].0.deep_view() != dv);
        }
        let ghost cnt_mid = self.counter_proposed@;
        match kv_find(&cl, &hash) {
            Some(q) => {
                let c = cl[q].1;
                let bumped: u32 = if c == u32::MAX {
                    c
                } else {
                    c + 1
                };
                let ghost cl_pre = cl@;
                cl.set(q, (clone_bytes(&hash), bumped));
                proof {
                    assert(cl0[q as int].0 == h);
                    let i0 = choose|i: int| 0 <= i < cl0.len() && cl0[i].0 == h;
                    assert(i0 == q as int);
                    assert(cl.deep_view() =~= bump_counts(cl0, h));
                    assert(kv_unique(cl@)) by {
                        assert(forall|a: int| 0 <= a < cl@.len() && a != q ==> #[trigger] cl@[a]
                            == cl_pre[a]);
                    }
                }
            },
            None => {
                cl.push((clone_bytes(&hash), 1));
                proof {
                    assert(forall|i: int| 0 <= i < cl0.len() ==> (#[trigger] cl0[i].0) != h);
                    assert(cl.deep_view() =~= cl0.push((h, 1u32)));
                    assert(cl.deep_view() == bump_counts(cl0, h));
                    assert(kv_unique(cl@));
                }
            },
        }
        proof {
            assert(forall|q: int| 0 <= q < cl@.len() ==> self.blobs().contains_key(
                #[trigger] cl@[q].0@,
            ));
        }
        self.counter_proposed.push((ckey, cl));
        proof {
            let p = self.counter_proposed@.last();
            assert(self.counter_proposed@ == cnt_mid.push(p));
            lemma_kv_push(cnt_mid, p.0, p.1);
            match cnt_idx {
                Some(j) => {
                    assert(kv_map(cnt_mid) == pre.vote_counts().remove(dv));
                    assert(self.vote_counts() =~= pre.vote_counts().insert(
                        dv,
                        bump_counts(counter_list(pre, dv), h),
                    ));
                },
                None => {
                    assert(self.vote_counts() =~= pre.vote_counts().insert(
                        dv,
                        bump_counts(counter_list(pre, dv), h),
                    ));
                },
            }
            assert(kv_unique(self.counter_proposed@));
        }
        self.events.push(Event::IssuerJWKSUpdated { who, domain });
        proof {
            let post = *self;
            assert(post.events_view() =~= pre.events_view().push(
                EventV::IssuerJWKSUpdated { who, domain: dv },
            ));
            assert(post.wf()) by {
                assert(post.issuers() == pre.issuers());
                assert forall|k: int| 0 <= k < post.jwks_map@.len() implies {
                    let p = #[trigger] post.jwks_map@[k];
                    post.issuers().contains_key(p.0@) && p.1@.len()
                        <= post.config.max_length_issuer_jwks
                } by {
                    assert(pre.issuers().contains_key(pre.jwks_map@[k].0@));
                }
                assert forall|k: int| 0 <= k < post.jwks_hash@.len() implies {
                    let p = #[trigger] post.jwks_hash@[k];
                    p.0@ == hash_of(p.1@) && p.1@.len() <= post.config.max_length_issuer_jwks
                } by {
                    if k < pre.jwks_hash@.len() {
                        assert(post.jwks_hash@[k] == pre.jwks_hash@[k]);
                    }
                }
                assert forall|k: int| 0 <= k < post.accounts_proposed@.len() implies {
                    let p = #[trigger] post.accounts_proposed@[k];
                    &&& post.issuers().contains_key(p.0@)
                    &&& p.1@.len() <= post.config.max_proposers_per_issuer
                    &&& (forall|a: int, b: int| 0 <= a < b < p.1@.len() ==> p.1@[a] != p.1@[b])
                } by {
                    if k < post.accounts_proposed@.len() - 1 {
                        assert(post.accounts_proposed@[k] == acc_mid[k]);
                        match prop_idx {
                            Some(j) => {
                                pre.accounts_proposed@.remove_ensures(j as int);
                                let m: int = if k < j { k } else { k + 1 };
                                assert(acc_mid[k] == pre.accounts_proposed@[m]);
                                assert(pre.issuers().contains_key(
                                    pre.accounts_proposed@[m].0@,
                                ));
                                assert(pre.accounts_proposed@[m].1@.len()
                                    <= pre.config.max_proposers_per_issuer);
                            },
                            None => {
                                assert(acc_mid[k] == pre.accounts_proposed@[k]);
                                assert(pre.issuers().contains_key(
                                    pre.accounts_proposed@[k].0@,
                                ));
                                assert(pre.accounts_proposed@[k].1@.len()
                                    <= pre.config.max_proposers_per_issuer);
                            },
                        }
                    } else {
                        assert(post.accounts_proposed@[k].0@ == dv);
                        assert(post.accounts_proposed@[k].1@ == lst0.push(who));
                        assert(!lst0.contains(who));
                        assert(forall|a: int| 0 <= a < lst0.len() ==> lst0[a] != who);
                    }
                }
                assert forall|k: int| 0 <= k < post.counter_proposed@.len() implies {
                    let p = #[trigger] post.counter_proposed@[k];
                    &&& post.issuers().contains_key(p.0@)
                    &&& kv_unique(p.1@)
                    &&& (forall|q: int| 0 <= q < p.1@.len() ==> post.blobs().contains_key(
                        #[trigger] p.1@[q].0@,
                    ))
                } by {
                    if k < post.counter_proposed@.len() - 1 {
                        assert(post.counter_proposed@[k] == cnt_mid[k]);
                        match cnt_idx {
                            Some(j) => {
                                mid3.counter_proposed@.remove_ensures(j as int);
                                let m: int = if k < j { k } else { k + 1 };
                                assert(cnt_mid[k] == pre.counter_proposed@[m]);
                                assert(pre.issuers().contains_key(
                                    pre.counter_proposed@[m].0@,
                                ));
                                assert(kv_unique(pre.counter_proposed@[m].1@));
                                assert(forall|q: int|
                                    0 <= q < pre.counter_proposed@[m].1@.len() ==> pre.blobs()
                                        .contains_key(
                                        #[trigger] pre.counter_proposed@[m].1@[q].0@,
                                    ));
                            },
                            None => {
                                assert(cnt_mid[k] == pre.counter_proposed@[k]);
                                assert(pre.issuers().contains_key(
                                    pre.counter_proposed@[k].0@,
                                ));
                                assert(kv_unique(pre.counter_proposed@[k].1@));
                                assert(forall|q: int|
                                    0 <= q < pre.counter_proposed@[k].1@.len() ==> pre.blobs()
                                        .contains_key(
                                        #[trigger] pre.counter_proposed@[k].1@[q].0@,
                                    ));
                            },
                        }
                    }
                }
            }
        }
        Ok(())
    }

    /// Tally correctness: for a domain with at least one proposal
    /// recorded, the tally resolves the hash whose count no other entry
    /// of that domain exceeds — the first of the tied maxima — and
    /// installs exactly the bytes the blob store holds for it.
    pub proof fn lemma_tally_installs_highest_count(self, domain: Seq<u8>)
        requires
            self.wf(),
            self.vote_counts().contains_key(domain),
            self.vote_counts()[domain].len() > 0,
        ensures
            ({
                let cs = self.vote_counts()[domain];
                let w = winner_index(cs);
                &&& 0 <= w < cs.len()
                &&& forall|i: int| 0 <= i < cs.len() ==> (#[trigger] cs[i].1) <= cs[w].1
                &&& self.blobs().contains_key(cs[w].0)
                &&& tally_winner(self, domain) == self.blobs()[cs[w].0]
            }),
    {
        let cs = self.vote_counts()[domain];
        lemma_winner_is_max(cs);
        let w = winner_index(cs);
        lemma_kv_dom(self.counter_proposed@, domain);
        let j = choose|j: int|
            0 <= j < self.counter_proposed@.len() && self.counter_proposed@[j].0.deep_view()
                == domain;
        lemma_kv_index(self.counter_proposed@, j);
        let entry = self.counter_proposed@[j];
        assert(entry.1.deep_view() == cs);
        assert(cs[w] == (entry.1@[w].0@, entry.1@[w].1));
        assert(self.blobs().contains_key(entry.1@[w].0@));
    }

    /// A stored blob never exceeds the configured JWKS bound.
    proof fn lemma_blob_len(self, h: Seq<u8>)
        requires
            self.wf(),
            self.blobs().contains_key(h),
        ensures
            self.blobs()[h].len() <= self.config.max_length_issuer_jwks,
    {
        lemma_kv_dom(self.jwks_hash@, h);
        let i = choose|i: int| 0 <= i < self.jwks_hash@.len() && self.jwks_hash@[i].0.deep_view()
            == h;
        lemma_kv_index(self.jwks_hash@, i);
    }

    /// The JWKS document with the highest proposal count for the domain,
    /// resolved to its stored bytes.  With no proposals recorded the result
    /// is empty, which a caller may read as "no winner".  Ties keep the
    /// hash encountered first in storage order.
    pub fn get_jwks_with_higher_count(&self, domain: &Vec<u8>) -> (r: Vec<u8>)
        requires
            self.wf(),
        ensures
            r@ == tally_winner(*self, domain@),
    {
        proof {
            lemma_kv_dom(self.counter_proposed@, domain@);
        }
        let j = match kv_find(&self.counter_proposed, domain) {
            Some(j) => j,
            None => {
                return Vec::new();
            },
        };
        proof {
            lemma_kv_index(self.counter_proposed@, j as int);
        }
        let cl = &self.counter_proposed[j].1;
        let ghost cs = cl.deep_view();
        proof {
            assert(cs == self.vote_counts()[domain@]);
            assert(forall|x: int| 0 <= x < cl@.len() ==> cs[x] == (cl@[x].0@, #[trigger] cl@[x].1));
        }
        if cl.len() == 0 {
            return Vec::new();
        }
        let mut w: usize = 0;
        let mut k: usize = 1;
        proof {
            assert(cs.take(1).len() == 1);
        }
        while k < cl.len()
            invariant
                0 <= w < k <= cl@.len(),
                cl@.len() == cs.len(),
                cs == cl.deep_view(),
                forall|x: int| 0 <= x < cl@.len() ==> cs[x] == (cl@[x].0@, #[trigger] cl@[x].1),
                w as int == winner_index(cs.take(k as int)),
            decreases cl@.len() - k,
        {
            proof {
                assert(cs.take(k + 1).drop_last() =~= cs.take(k as int));
                assert(cs.take(k + 1).last() == cs[k as int]);
            }
            if cl[k].1 > cl[w].1 {
                w = k;
            }
            k = k + 1;
        }
        proof {
            assert(cs.take(cl@.len() as int) =~= cs);
            assert(w as int == winner_index(cs));
        }
        let hv = clone_bytes(&cl[w].0);
        proof {
            assert(hv@ == cs[w as int].0);
            lemma_kv_dom(self.jwks_hash@, hv@);
        }
        match kv_find(&self.jwks_hash, &hv) {
            Some(b) => {
                proof {
                    lemma_kv_index(self.jwks_hash@, b as int);
                }
                clone_bytes(&self.jwks_hash[b].1)
            },
            None => Vec::new(),
        }
    }

    /// Promotes the tally winner of `domain` to its active JWKS.  When the
    /// active JWKS already equals the winner, nothing is written and no
    /// event is emitted.  A domain with no proposals has the empty winner
    /// installed, which clears its active JWKS.  Atomic.
    pub fn set_jwks(&mut self, who: u64, domain: Vec<u8>) -> (r: Result<(), Error>)
        requires
            old(self).wf(),
        ensures
            final(self).wf(),
            final(self).config == old(self).config,
            final(self).voters() == old(self).voters(),
            match r {
                Err(e) => *final(self) == *old(self) && if !old(self).voters().contains(who) {
                    e == Error::OnlyValidatorsCanProposeJWKS
                } else {
                    e == Error::IssuerDoesNotExist && !old(self).issuers().contains_key(domain@)
                },
                Ok(()) => old(self).voters().contains(who) && old(self).issuers().contains_key(
                    domain@,
                ) && {
                    let win = tally_winner(*old(self), domain@);
                    if old(self).active_jwks().contains_key(domain@) && old(self).active_jwks()[domain@]
                        == win {
                        *final(self) == *old(self)
                    } else {
                        &&& final(self).issuers() == old(self).issuers()
                        &&& final(self).active_jwks() == old(self).active_jwks().insert(
                            domain@,
                            win,
                        )
                        &&& final(self).blobs() == old(self).blobs()
                        &&& final(self).proposers() == old(self).proposers()
                        &&& final(self).vote_counts() == old(self).vote_counts()
                        &&& final(self).events_view() == old(self).events_view().push(
                            EventV::IssuerJWKSUpdated { who, domain: domain@ },
                        )
                    }
                },
            },
    {
        let ghost dv = domain@;
        if !contains_u64(&self.validators, who) {
            return Err(Error::OnlyValidatorsCanProposeJWKS);
        }
        proof {
            lemma_kv_dom(self.issuer_map@, dv);
        }
        match kv_find(&self.issuer_map, &domain) {
            Some(_) => {},
            None => {
                return Err(Error::IssuerDoesNotExist);
            },
        }
        let win = self.get_jwks_with_higher_count(&domain);
        proof {
            if self.vote_counts().contains_key(dv) && self.vote_counts()[dv].len() > 0 {
                let cs = self.vote_counts()[dv];
                let h = cs[winner_index(cs)].0;
                if self.blobs().contains_key(h) {
                    self.lemma_blob_len(h);
                }
            }
            assert(win@.len() <= self.config.max_length_issuer_jwks);
        }
        let ghost pre = *self;
        proof {
            lemma_kv_dom(self.jwks_map@, dv);
        }
        match kv_find(&self.jwks_map, &domain) {
            Some(i) => {
                proof {
                    lemma_kv_index(self.jwks_map@, i as int);
                }
                if bytes_eq(&self.jwks_map[i].1, &win) {
                    return Ok(());
                }
                self.jwks_map.set(i, (clone_bytes(&domain), win));
                proof {
                    let q = self.jwks_map@[i as int];
                    lemma_kv_update(pre.jwks_map@, i as int, q.0, q.1);
                    assert(self.active_jwks() == pre.active_jwks().insert(
                        dv,
                        tally_winner(pre, dv),
                    ));
                    assert(jwks_table_ok(*self, pre, dv));
                }
            },
            None => {
                self.jwks_map.push((clone_bytes(&domain), win));
                proof {
                    let q = self.jwks_map@.last();
                    assert(self.jwks_map@ == pre.jwks_map@.push(q));
                    lemma_kv_push(pre.jwks_map@, q.0, q.1);
                    assert(self.active_jwks() == pre.active_jwks().insert(
                        dv,
                        tally_winner(pre, dv),
                    ));
                    assert(kv_unique(self.jwks_map@));
                    assert(jwks_table_ok(*self, pre, dv));
                }
            },
        }
        self.events.push(Event::IssuerJWKSUpdated { who, domain });
        proof {
            let post = *self;
            assert(post.events_view() =~= pre.events_view().push(
                EventV::IssuerJWKSUpdated { who, domain: dv },
            ));
            assert(post.wf()) by {
                assert(post.issuers() == pre.issuers());
                assert(jwks_table_ok(post, pre, dv));
                assert forall|k: int| 0 <= k < post.jwks_map@.len() implies {
                    let p = #[trigger] post.jwks_map@[k];
                    post.issuers().contains_key(p.0@) && p.1@.len()
                        <= post.config.max_length_issuer_jwks
                } by {
                    assert(post.jwks_map@[k].0@ == dv || pre.issuers().contains_key(
                        post.jwks_map@[k].0@,
                    ));
                }
                assert forall|k: int| 0 <= k < post.accounts_proposed@.len() implies {
                    let p = #[trigger] post.accounts_proposed@[k];
                    &&& post.issuers().contains_key(p.0@)
                    &&& p.1@.len() <= post.config.max_proposers_per_issuer
                    &&& (forall|a: int, b: int| 0 <= a < b < p.1@.len() ==> p.1@[a] != p.1@[b])
                } by {
                    assert(pre.issuers().contains_key(pre.accounts_proposed@[k].0@));
                    assert(pre.accounts_proposed@[k].1@.len()
                        <= pre.config.max_proposers_per_issuer);
                }
                assert forall|k: int| 0 <= k < post.counter_proposed@.len() implies {
                    let p = #[trigger] post.counter_proposed@[k];
                    &&& post.issuers().contains_key(p.0@)
                    &&& kv_unique(p.1@)
                    &&& (forall|q: int| 0 <= q < p.1@.len() ==> post.blobs().contains_key(
                        #[trigger] p.1@[q].0@,
                    ))
                } by {
                    assert(pre.issuers().contains_key(pre.counter_proposed@[k].0@));
                    assert(kv_unique(pre.counter_proposed@[k].1@));
                    assert(forall|q: int| 0 <= q < pre.counter_proposed@[k].1@.len() ==> pre
                        .blobs().contains_key(#[trigger] pre.counter_proposed@[k].1@[q].0@));
                }
            }
        }
        Ok(())
    }
}

} // verus!
