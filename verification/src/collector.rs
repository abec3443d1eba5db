//! Gathering a quorum of shares under partial availability.
//!
//! Reconstruction probes the candidate storage positions `0..budget`, with
//! `budget = threshold × redundancy`, in ascending order — the same order
//! in which the dealer assigned them.  A missing blob or one that does not
//! decode is a soft failure: it is skipped and the probing goes on.  A
//! share whose index was already collected, or whose length disagrees with
//! the shares already in hand, is dropped the same way.  Probing stops as
//! soon as `threshold` shares are in hand; if the budget runs out first,
//! the attempt fails with `InsufficientShares` — never with a partial
//! secret.
//!
//! The probing itself is the caller's: a `QuorumCollector` names the next
//! storage key to fetch and absorbs the outcome, so the loop around the
//! key/value collaborator stays outside this crate, while every decision
//! in it is made — and verified — here.

use vstd::prelude::*;

use crate::address::{key_for, key_for_spec};
use crate::codec::{decode_spec, share_wf, Share, ShareV};
use crate::Error;

verus! {

/// Whether some collected share already carries `index`.
pub open spec fn contains_index(s: Seq<ShareV>, index: u8) -> bool {
    exists|i: int| 0 <= i < s.len() && (#[trigger] s[i]).index == index
}

/// A usable quorum: every share well formed, no index twice, and all
/// value rows of one length.
pub open spec fn set_wf(s: Seq<ShareV>) -> bool {
    &&& forall|i: int| 0 <= i < s.len() ==> share_wf(#[trigger] s[i])
    &&& forall|i: int, j: int| 0 <= i < j < s.len() ==> s[i].index != s[j].index
    &&& forall|i: int| 0 <= i < s.len() ==> (#[trigger] s[i]).values.len() == s[0].values.len()
}

/// What one probed response does to the collected shares: a missing or
/// undecodable blob, a duplicated index, or a length out of line with the
/// shares in hand is skipped; anything else is appended.
pub open spec fn absorb(s: Seq<ShareV>, response: Option<Seq<u8>>) -> Seq<ShareV> {
    match response {
        Some(bytes) => match decode_spec(bytes) {
            Some(sh) => if !contains_index(s, sh.index) && (s.len() == 0 || sh.values.len()
                == s[0].values.len()) {
                s.push(sh)
            } else {
                s
            },
            None => s,
        },
        None => s,
    }
}

/// The shares in hand after absorbing every response in turn.
pub open spec fn absorb_all(rs: Seq<Option<Seq<u8>>>) -> Seq<ShareV>
    decreases rs.len(),
{
    if rs.len() == 0 {
        Seq::empty()
    } else {
        absorb(absorb_all(rs.drop_last()), rs.last())
    }
}

/// The collector's probe loop from state `s` at candidate `i`: responses
/// are absorbed in ascending order until `threshold` shares are in hand or
/// none are left.
pub open spec fn fold_from(
    s: Seq<ShareV>,
    rs: Seq<Option<Seq<u8>>>,
    i: nat,
    threshold: u8,
) -> Seq<ShareV>
    decreases rs.len() - i,
{
    if i >= rs.len() || s.len() >= threshold {
        s
    } else {
        fold_from(absorb(s, rs[i as int]), rs, i + 1, threshold)
    }
}

/// The shares a full probe run over `rs` collects.
pub open spec fn collected_spec(rs: Seq<Option<Seq<u8>>>, threshold: u8) -> Seq<ShareV> {
    fold_from(Seq::empty(), rs, 0, threshold)
}

/// The view of one probe outcome: the fetched bytes, or nothing.
pub open spec fn response_view(r: Option<Vec<u8>>) -> Option<Seq<u8>> {
    match r {
        Some(v) => Some(v@),
        None => None,
    }
}

/// The views of a row of probe outcomes.
pub open spec fn response_views(rs: Seq<Option<Vec<u8>>>) -> Seq<Option<Seq<u8>>> {
    rs.map_values(|r: Option<Vec<u8>>| response_view(r))
}

/// Absorbing a response keeps the collected shares a usable quorum and
/// grows them by at most one share.
pub proof fn lemma_absorb_wf(s: Seq<ShareV>, response: Option<Seq<u8>>)
    requires
        set_wf(s),
    ensures
        set_wf(absorb(s, response)),
        s.len() <= absorb(s, response).len() <= s.len() + 1,
{
    let r = absorb(s, response);
    if r != s {
        let sh = decode_spec(response.unwrap()).unwrap();
        assert(share_wf(sh));
        assert forall|i: int, j: int| 0 <= i < j < r.len() implies r[i].index != r[j].index by {
            if j == r.len() - 1 {
                assert(r[i] == s[i]);
                assert(!contains_index(s, sh.index));
            }
        }
        assert forall|i: int| 0 <= i < r.len() implies (#[trigger] r[i]).values.len()
            == r[0].values.len() by {
            if s.len() > 0 {
                assert(r[0] == s[0]);
            }
        }
    }
}

/// The ordered, index-unique shares accumulated during one reconstruction
/// attempt.
#[derive(Debug)]
pub struct ShareSet {
    items: Vec<Share>,
}

impl View for ShareSet {
    type V = Seq<ShareV>;

    closed spec fn view(&self) -> Seq<ShareV> {
        self.items@.map_values(|s: Share| s@)
    }
}

impl ShareSet {
    /// An empty set of shares.
    pub fn new() -> (r: ShareSet)
        ensures
            r@ == Seq::<ShareV>::empty(),
    {
        let r = ShareSet { items: Vec::new() };
        proof {
            assert(r@ =~= Seq::<ShareV>::empty());
        }
        r
    }

    /// How many shares are in hand.
    pub fn len(&self) -> (n: usize)
        ensures
            n == self@.len(),
    {
        self.items.len()
    }

    /// The share at position `i`, in the order of collection.
    pub fn get(&self, i: usize) -> (r: &Share)
        requires
            i < self@.len(),
        ensures
            r@ == self@[i as int],
    {
        &self.items[i]
    }

    /// Appends a share, in collection order.
    pub fn push(&mut self, share: Share)
        ensures
            final(self)@ == old(self)@.push(share@),
    {
        self.items.push(share);
        proof {
            assert(final(self)@ =~= old(self)@.push(share@));
        }
    }

    /// Whether some collected share already carries `index`.
    pub fn contains_index(&self, index: u8) -> (r: bool)
        ensures
            r == contains_index(self@, index),
    {
        let mut i: usize = 0;
        while i < self.items.len()
            invariant
                i <= self@.len(),
                forall|j: int| 0 <= j < i ==> (#[trigger] self@[j]).index != index,
        decreases self@.len() - i,
        {
            if self.items[i].index == index {
                proof {
                    assert(self@[i as int].index == index);
                }
                return true;
            }
            i = i + 1;
        }
        false
    }

    /// Absorbs one probed response: decodes it and appends the share
    /// unless the blob is missing or corrupt, the index is already in
    /// hand, or the length is out of line — all of which are skipped.
    pub fn absorb(&mut self, response: &Option<Vec<u8>>)
        ensures
            final(self)@ == absorb(old(self)@, response_view(*response)),
    {
        match response {
            Some(bytes) => {
                match Share::decode(bytes) {
                    Ok(share) => {
                        let fits = if self.len() == 0 {
                            true
                        } else {
                            share.values.len() == self.get(0).values.len()
                        };
                        if fits && !self.contains_index(share.index) {
                            self.push(share);
                        }
                    },
                    Err(_) => {},
                }
            },
            None => {},
        }
    }
}

/// One reconstruction attempt's probing session.  The caller owns the
/// key/value collaborator: it asks `next_key` which storage key to fetch,
/// performs the fetch itself, and hands the outcome to `absorb_response`;
/// `finish` then yields the quorum or the failure.  The session stops
/// asking as soon as `threshold` shares are in hand — no more is fetched
/// than necessary — and never asks past the probe budget.
pub struct QuorumCollector {
    /// How many shares reconstruction needs.
    pub threshold: u8,
    /// How many candidates may be probed: `threshold × redundancy`.
    pub budget: u16,
    /// The raw secret name the keys are derived from.
    pub name: String,
    /// The next candidate position to probe.
    pub next: u16,
    /// The shares in hand.
    pub set: ShareSet,
    /// The outcome of every probe so far, oldest first.
    pub offered: Ghost<Seq<Option<Seq<u8>>>>,
}

impl QuorumCollector {
    /// The session's invariant: one probe per recorded outcome, within
    /// budget, and the shares in hand are exactly what absorbing those
    /// outcomes leaves — a usable quorum-in-the-making of at most
    /// `threshold` shares.
    pub open spec fn wf(self) -> bool {
        &&& self.threshold >= 2
        &&& self.budget <= 255
        &&& self.next == self.offered@.len()
        &&& self.next <= self.budget
        &&& self.set@ == absorb_all(self.offered@)
        &&& self.set@.len() <= self.threshold
        &&& set_wf(self.set@)
    }

    /// Whether the session has ended: a quorum is in hand or the budget
    /// is exhausted.
    pub open spec fn done(self) -> bool {
        self.set@.len() >= self.threshold || self.next >= self.budget
    }

    /// Opens a collection session for the secret called `name`.  It is a
    /// `ThresholdInvalid` error exactly when the threshold is under 2,
    /// the redundancy under 1, or the budget would pass the largest
    /// candidate position a dealer can fill, 255.
    pub fn new(name: &str, threshold: u8, redundancy: u8) -> (r: Result<QuorumCollector, Error>)
        ensures
            (threshold < 2 || redundancy < 1 || threshold as nat * redundancy as nat > 255) <==> r
                == Err::<QuorumCollector, Error>(Error::ThresholdInvalid),
            r matches Ok(c) ==> c.wf() && !c.done() && c.threshold == threshold && c.budget
                == threshold as nat * redundancy as nat && c.name@ == name@ && c.set@
                == Seq::<ShareV>::empty() && c.offered@ == Seq::<Option<Seq<u8>>>::empty(),
    {
        proof {
            assert(threshold as int * redundancy as int <= 65025) by (nonlinear_arith)
                requires
                    threshold as int <= 255 && redundancy as int <= 255,
            ;
        }
        let budget: u16 = (threshold as u16) * (redundancy as u16);
        if threshold < 2 || redundancy < 1 || budget > 255 {
            return Err(Error::ThresholdInvalid);
        }
        proof {
            assert(threshold as int * 1 <= threshold as int * redundancy as int)
                by (nonlinear_arith)
                requires
                    redundancy >= 1,
                    threshold >= 0,
            ;
        }
        Ok(
            QuorumCollector {
                threshold,
                budget,
                name: String::from_str(name),
                next: 0,
                set: ShareSet::new(),
                offered: Ghost(Seq::empty()),
            },
        )
    }

    /// The storage key of the next candidate to fetch, or nothing once
    /// the session is done: a quorum is in hand or the budget is spent.
    pub fn next_key(&self) -> (r: Option<String>)
        requires
            self.wf(),
        ensures
            match r {
                Some(key) => !self.done() && key@ == key_for_spec(self.next as u8, self.name@),
                None => self.done(),
            },
    {
        if self.set.len() >= self.threshold as usize || self.next >= self.budget {
            None
        } else {
            Some(key_for(self.next as u8, self.name.as_str()))
        }
    }

    /// Hands the session the outcome of fetching the key it last named:
    /// the blob that was found, or nothing.  Soft failures — a missing or
    /// corrupt blob, a duplicate index, a length out of line — are
    /// absorbed; the probe is spent either way.
    pub fn absorb_response(&mut self, response: Option<Vec<u8>>)
        requires
            old(self).wf(),
            !old(self).done(),
        ensures
            final(self).wf(),
            final(self).set@ == absorb(old(self).set@, response_view(response)),
            final(self).next == old(self).next + 1,
            final(self).offered@ == old(self).offered@.push(response_view(response)),
            final(self).threshold == old(self).threshold,
            final(self).budget == old(self).budget,
            final(self).name == old(self).name,
            final(self).done() ==> final(self).set@.len() == final(self).threshold
                || final(self).next == final(self).budget,
    {
        proof {
            lemma_absorb_wf(self.set@, response_view(response));
        }
        self.set.absorb(&response);
        self.next = self.next + 1;
        proof {
            self.offered@ = self.offered@.push(response_view(response));
            assert(self.offered@.drop_last() =~= old(self).offered@);
        }
    }

    /// Ends the session.  With a quorum of exactly `threshold` shares in
    /// hand it yields them; otherwise the budget was spent first and the
    /// attempt fails with `InsufficientShares`, naming what was found and
    /// what was required — never a partial result.
    pub fn finish(self) -> (r: Result<ShareSet, Error>)
        requires
            self.wf(),
            self.done(),
        ensures
            self.set@.len() >= self.threshold ==> (r matches Ok(s) && s@ == self.set@ && s@.len()
                == self.threshold as nat && set_wf(s@)),
            self.set@.len() < self.threshold ==> r == Err::<ShareSet, Error>(
                Error::InsufficientShares {
                    collected: self.set@.len() as u8,
                    required: self.threshold,
                },
            ),
    {
        if self.set.len() >= self.threshold as usize {
            Ok(self.set)
        } else {
            let found = self.set.len() as u8;
            Err(Error::InsufficientShares { collected: found, required: self.threshold })
        }
    }
}

/// Runs the whole probe loop over an already-fetched row of responses,
/// one per candidate position under the budget `threshold × redundancy`:
/// the distilled form of a collection pass in which every fetch was
/// already made.  It is a `ThresholdInvalid` error exactly when the
/// threshold is under 2 or the redundancy under 1; otherwise it returns
/// the collected quorum of exactly `threshold` shares, or
/// `InsufficientShares` naming how many of the required shares the whole
/// budget yielded.
pub fn collect_responses(threshold: u8, redundancy: u8, responses: &Vec<Option<Vec<u8>>>) -> (r:
    Result<ShareSet, Error>)
    requires
        responses@.len() == threshold as nat * redundancy as nat,
    ensures
        (threshold < 2 || redundancy < 1) <==> r == Err::<ShareSet, Error>(
            Error::ThresholdInvalid,
        ),
        threshold >= 2 && redundancy >= 1 ==> {
            let collected = collected_spec(response_views(responses@), threshold);
            &&& collected.len() >= threshold ==> (r matches Ok(s) && s@ == collected
                && s@.len() == threshold as nat && set_wf(s@))
            &&& collected.len() < threshold ==> r == Err::<ShareSet, Error>(
                Error::InsufficientShares { collected: collected.len() as u8, required: threshold },
            )
        },
{
    if threshold < 2 || redundancy < 1 {
        return Err(Error::ThresholdInvalid);
    }
    let ghost rv = response_views(responses@);
    let mut set = ShareSet::new();
    let mut i: usize = 0;
    loop
        invariant
            i <= responses@.len(),
            rv == response_views(responses@),
            rv.len() == responses@.len(),
            set@.len() <= threshold,
            set_wf(set@),
            collected_spec(rv, threshold) == fold_from(set@, rv, i as nat, threshold),
        ensures
            set@.len() <= threshold,
            set_wf(set@),
            collected_spec(rv, threshold) == set@,
        decreases responses@.len() - i,
    {
        if set.len() >= threshold as usize {
            break ;
        }
        if i >= responses.len() {
            break ;
        }
        proof {
            lemma_absorb_wf(set@, rv[i as int]);
            assert(rv[i as int] == response_view(responses@[i as int]));
        }
        set.absorb(&responses[i]);
        i = i + 1;
    }
    if set.len() >= threshold as usize {
        Ok(set)
    } else {
        let found = set.len() as u8;
        Err(Error::InsufficientShares { collected: found, required: threshold })
    }
}

} // verus!
