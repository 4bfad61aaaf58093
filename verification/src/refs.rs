//! Stable references for detected regions: fingerprints that survive small
//! position shifts, a tracker that keeps references consistent between
//! snapshots, and resolution of reference patterns.

use vstd::prelude::*;
use vstd::string::StringExecFns;

use crate::chars::{
    chars_of, string_of, spec_ascii_lower, ascii_lower_char, spec_is_whitespace,
    is_whitespace_char, spec_dec, push_dec_u64, sub_chars,
};
use crate::snapshot::{Rect, RefId, Region, spec_valid_ref_format};

verus! {

/// A fingerprint for a region, stable across small moves: position
/// quantized to four-cell buckets, and a hash of the normalized text.
#[derive(Debug, Clone, Copy, PartialEq, Eq, Hash, Structural)]
pub struct RegionFingerprint {
    /// Column bucket (four cells per bucket).
    pub x_bucket: u16,
    /// Row bucket (four cells per bucket).
    pub y_bucket: u16,
    /// Hash of the normalized text.
    pub text_hash: u64,
}

/// Text normalized for fingerprinting: folded to lower case with all
/// whitespace removed.
pub open spec fn spec_normalize(t: Seq<char>) -> Seq<char>
    decreases t.len(),
{
    if t.len() == 0 {
        Seq::empty()
    } else {
        (if spec_is_whitespace(spec_ascii_lower(t[0])) {
            Seq::empty()
        } else {
            seq![spec_ascii_lower(t[0])]
        }) + spec_normalize(t.drop_first())
    }
}

/// The hash a fingerprint carries: the content hash of the normalized
/// text.
pub open spec fn spec_text_hash(t: Seq<char>) -> u64 {
    crate::snapshot::spec_fnv1a(vstd::utf8::encode_utf8(spec_normalize(t)))
}

proof fn lemma_normalize_push(t: Seq<char>, c: char)
    ensures
        spec_normalize(t.push(c)) == spec_normalize(t) + (if spec_is_whitespace(
            spec_ascii_lower(c),
        ) {
            Seq::<char>::empty()
        } else {
            seq![spec_ascii_lower(c)]
        }),
    decreases t.len(),
{
    let u = t.push(c);
    assert(spec_normalize(u) == (if spec_is_whitespace(spec_ascii_lower(u[0])) {
        Seq::<char>::empty()
    } else {
        seq![spec_ascii_lower(u[0])]
    }) + spec_normalize(u.drop_first()));
    if t.len() == 0 {
        assert(u[0] == c);
        assert(u.drop_first() =~= Seq::<char>::empty());
        assert(spec_normalize(u) =~= spec_normalize(t) + (if spec_is_whitespace(
            spec_ascii_lower(c),
        ) {
            Seq::<char>::empty()
        } else {
            seq![spec_ascii_lower(c)]
        }));
    } else {
        assert(u[0] == t[0]);
        assert(u.drop_first() =~= t.drop_first().push(c));
        lemma_normalize_push(t.drop_first(), c);
        assert(spec_normalize(u) =~= spec_normalize(t) + (if spec_is_whitespace(
            spec_ascii_lower(c),
        ) {
            Seq::<char>::empty()
        } else {
            seq![spec_ascii_lower(c)]
        }));
    }
}

impl RegionFingerprint {
    /// The fingerprint of a region: its bucketed position and the hash of
    /// its lower-cased, whitespace-free text.
    pub fn from_region(region: &Region) -> (r: RegionFingerprint)
        ensures
            r.x_bucket == region.bounds.x / 4,
            r.y_bucket == region.bounds.y / 4,
            r.text_hash == spec_text_hash(region.text@),
    {
        let v = chars_of(region.text.as_str());
        let n = v.len();
        let mut norm: Vec<char> = Vec::new();
        proof {
            assert(norm@ =~= spec_normalize(v@.take(0)));
        }
        for i in 0..n
            invariant
                n == v@.len(),
                norm@ =~= spec_normalize(v@.take(i as int)),
        {
            proof {
                lemma_normalize_push(v@.take(i as int), v@[i as int]);
                assert(v@.take(i as int).push(v@[i as int]) =~= v@.take(i + 1));
            }
            let low = ascii_lower_char(v[i]);
            if !is_whitespace_char(low) {
                norm.push(low);
            }
        }
        proof {
            assert(v@.take(n as int) =~= v@);
        }
        let norm_s = string_of(&norm);
        let text_hash = crate::snapshot::compute_content_hash(norm_s.as_str());
        RegionFingerprint {
            x_bucket: region.bounds.x / 4,
            y_bucket: region.bounds.y / 4,
            text_hash,
        }
    }
}

/// Everything but the reference of two regions agrees.
pub open spec fn spec_same_but_ref(a: Region, b: Region) -> bool {
    &&& a.bounds == b.bounds
    &&& a.region_type == b.region_type
    &&& a.text@ == b.text@
    &&& a.focused == b.focused
}

/// Assigns fresh sequential references to regions, leaving all other
/// fields unchanged.
pub fn assign_refs_simple(regions: &mut Vec<Region>, ref_counter: &mut u32)
    requires
        *old(ref_counter) + old(regions)@.len() <= u32::MAX,
    ensures
        *final(ref_counter) == *old(ref_counter) + old(regions)@.len(),
        final(regions)@.len() == old(regions)@.len(),
        forall|k: int|
            0 <= k < old(regions)@.len() ==> spec_same_but_ref(
                #[trigger] final(regions)@[k],
                old(regions)@[k],
            ) && final(regions)@[k].ref_id@ == "@e"@ + spec_dec(
                (*old(ref_counter) + k + 1) as nat,
            ),
{
    let n = regions.len();
    for k in 0..n
        invariant
            n == regions@.len(),
            n == old(regions)@.len(),
            *ref_counter == *old(ref_counter) + k,
            *old(ref_counter) + n <= u32::MAX,
            forall|j: int|
                k <= j < n ==> #[trigger] regions@[j] == old(regions)@[j],
            forall|j: int|
                0 <= j < k ==> spec_same_but_ref(#[trigger] regions@[j], old(regions)@[j])
                    && regions@[j].ref_id@ == "@e"@ + spec_dec((*old(ref_counter) + j + 1) as nat),
    {
        *ref_counter = *ref_counter + 1;
        let rid = new_ref_id(*ref_counter);
        let slot = &mut regions[k];
        slot.ref_id = rid;
    }
}

/// A reference identifier `@e<n>`.
fn new_ref_id(n: u32) -> (r: RefId)
    ensures
        r@ == "@e"@ + spec_dec(n as nat),
{
    let mut idc: Vec<char> = Vec::new();
    idc.push('@');
    idc.push('e');
    push_dec_u64(&mut idc, n as u64);
    proof {
        lemma_dec_digits_refs(n as nat);
        assert(idc@ =~= "@e"@ + spec_dec(n as nat)) by {
            reveal_strlit("@e");
        }
        assert(spec_valid_ref_format(idc@)) by {
            reveal_strlit("@e");
        }
    }
    let ids = string_of(&idc);
    RefId::new(ids.as_str())
}

proof fn lemma_dec_digits_refs(n: nat)
    ensures
        spec_dec(n).len() >= 1,
        forall|i: int|
            0 <= i < spec_dec(n).len() ==> crate::chars::spec_is_ascii_digit(
                #[trigger] spec_dec(n)[i],
            ),
    decreases n,
{
    if n >= 10 {
        lemma_dec_digits_refs(n / 10);
    }
}

/// Tracks reference assignments so that regions seen before keep their
/// references across snapshots.
pub struct RefTracker {
    fingerprint_to_ref: Vec<(RegionFingerprint, RefId)>,
    next_ref: u32,
    current_refs: Vec<RefId>,
}

impl RefTracker {
    /// The tracked map holds each fingerprint at most once.
    pub closed spec fn wf(&self) -> bool {
        forall|i: int, j: int|
            0 <= i < j < self.fingerprint_to_ref@.len() ==> (
            #[trigger] self.fingerprint_to_ref@[i]).0 != (
            #[trigger] self.fingerprint_to_ref@[j]).0
    }

    /// The reference tracked for a fingerprint, if any.
    pub closed spec fn spec_lookup(&self, fp: RegionFingerprint) -> Option<Seq<char>> {
        if exists|i: int|
            0 <= i < self.fingerprint_to_ref@.len() && (#[trigger] self.fingerprint_to_ref@[i]).0
                == fp {
            let i = choose|i: int|
                0 <= i < self.fingerprint_to_ref@.len() && (
                #[trigger] self.fingerprint_to_ref@[i]).0 == fp;
            Some(self.fingerprint_to_ref@[i].1@)
        } else {
            None
        }
    }

    /// The next reference number to assign.
    pub closed spec fn spec_next_ref(&self) -> u32 {
        self.next_ref
    }

    /// How many fingerprints are tracked.
    pub closed spec fn spec_fingerprint_count(&self) -> nat {
        self.fingerprint_to_ref@.len()
    }

    /// How many of the first `k` regions carry a fingerprint this
    /// tracker has not seen. The `k`-th unseen region receives the fresh
    /// reference number `next_ref + spec_unseen_before(rs, k) + 1`.
    pub open spec fn spec_unseen_before(self, rs: Seq<Region>, k: int) -> nat
        decreases k,
    {
        if k <= 0 {
            0
        } else {
            self.spec_unseen_before(rs, k - 1) + (if self.spec_lookup(
                spec_fingerprint(rs[k - 1]),
            ) is None {
                1nat
            } else {
                0nat
            })
        }
    }

    /// The unseen count never exceeds the number of regions counted.
    pub proof fn lemma_unseen_before_bounds(self, rs: Seq<Region>, k: int)
        requires
            0 <= k,
        ensures
            self.spec_unseen_before(rs, k) <= k,
        decreases k,
    {
        if k > 0 {
            self.lemma_unseen_before_bounds(rs, k - 1);
        }
    }

    /// An empty tracker.
    pub fn new() -> (r: RefTracker)
        ensures
            r.wf(),
            r.spec_next_ref() == 0,
            r.spec_fingerprint_count() == 0,
            r.spec_current_len() == 0,
    {
        RefTracker { fingerprint_to_ref: Vec::new(), next_ref: 0, current_refs: Vec::new() }
    }

    /// How many references the current snapshot uses.
    pub closed spec fn spec_current_len(&self) -> nat {
        self.current_refs@.len()
    }

    /// The references used by the current snapshot.
    pub fn current_refs(&self) -> (r: &Vec<RefId>)
        ensures
            r@.len() == self.spec_current_len(),
    {
        &self.current_refs
    }

    /// The next reference number.
    pub fn next_ref_number(&self) -> (r: u32)
        ensures
            r == self.spec_next_ref(),
    {
        self.next_ref
    }

    /// Clears all tracked assignments.
    pub fn reset(&mut self)
        ensures
            final(self).wf(),
            final(self).spec_next_ref() == 0,
            final(self).spec_fingerprint_count() == 0,
            final(self).spec_current_len() == 0,
    {
        self.fingerprint_to_ref = Vec::new();
        self.current_refs = Vec::new();
        self.next_ref = 0;
    }

    /// The number of fingerprints currently tracked.
    pub fn fingerprint_count(&self) -> (r: usize)
        ensures
            r == self.spec_fingerprint_count(),
    {
        self.fingerprint_to_ref.len()
    }

    fn lookup(&self, fp: &RegionFingerprint) -> (r: Option<usize>)
        requires
            self.wf(),
        ensures
            match r {
                Some(i) => i < self.fingerprint_to_ref@.len() && self.fingerprint_to_ref@[
                    i as int].0 == *fp && self.spec_lookup(*fp) == Some(
                    self.fingerprint_to_ref@[i as int].1@,
                ),
                None => self.spec_lookup(*fp) is None,
            },
    {
        let n = self.fingerprint_to_ref.len();
        for i in 0..n
            invariant
                n == self.fingerprint_to_ref@.len(),
                forall|j: int| 0 <= j < i ==> (#[trigger] self.fingerprint_to_ref@[j]).0 != *fp,
        {
            let entry = &self.fingerprint_to_ref[i];
            if entry.0 == *fp {
                return Some(i);
            }
        }
        None
    }

    /// Assigns references to regions: a region whose fingerprint was seen
    /// before keeps its old reference; the others get fresh references
    /// `@e<n>` with `n` counting up from the tracker's next number, in
    /// region order, so fresh numbers are strictly increasing and exceed
    /// every number this tracker issued before; finally, fingerprints
    /// whose references do not appear in this snapshot are dropped. All
    /// region fields except the reference are preserved.
    #[verifier::rlimit(100)]
    #[verifier::spinoff_prover]
    pub fn assign_refs(&mut self, regions: &mut Vec<Region>)
        requires
            old(self).wf(),
            old(self).spec_next_ref() + old(regions)@.len() <= u32::MAX,
        ensures
            final(self).wf(),
            final(regions)@.len() == old(regions)@.len(),
            final(self).spec_current_len() == old(regions)@.len(),
            final(self).spec_next_ref() == old(self).spec_next_ref() + old(
                self,
            ).spec_unseen_before(old(regions)@, old(regions)@.len() as int),
            final(self).spec_fingerprint_count() <= old(self).spec_fingerprint_count() + old(
                self,
            ).spec_unseen_before(old(regions)@, old(regions)@.len() as int),
            forall|k: int|
                0 <= k < old(regions)@.len() ==> spec_same_but_ref(
                    #[trigger] final(regions)@[k],
                    old(regions)@[k],
                ),
            forall|k: int|
                0 <= k < old(regions)@.len() && old(self).spec_lookup(
                    spec_fingerprint(old(regions)@[k]),
                ) is Some ==> (#[trigger] final(regions)@[k]).ref_id@ == old(self).spec_lookup(
                    spec_fingerprint(old(regions)@[k]),
                )->Some_0,
            forall|k: int|
                0 <= k < old(regions)@.len() && old(self).spec_lookup(
                    spec_fingerprint(old(regions)@[k]),
                ) is None ==> (#[trigger] final(regions)@[k]).ref_id@ == "@e"@ + spec_dec(
                    (old(self).spec_next_ref() + old(self).spec_unseen_before(old(regions)@, k)
                        + 1) as nat,
                ),
    {
        self.current_refs = Vec::new();
        let ghost regs0 = regions@;
        let ghost self1 = *self;
        proof {
            Self::lemma_tracker_congruent(*old(self), self1, regs0);
            self1.lemma_unseen_before_bounds(regs0, regs0.len() as int);
        }
        let unassigned = self.assign_known(regions, Ghost(regs0));
        self.assign_fresh(regions, &unassigned, Ghost(regs0), Ghost(self1));
        self.retain_current();
        proof {
            Self::lemma_fresh_refs_glue(self1, regs0, unassigned@, regions@, self1.spec_next_ref());
        }
    }

    /// Lookups and unseen counts depend only on the fingerprint map: two
    /// well-formed trackers with the same map agree on both.
    proof fn lemma_tracker_congruent(a: RefTracker, b: RefTracker, rs: Seq<Region>)
        requires
            a.wf(),
            a.fingerprint_to_ref@ == b.fingerprint_to_ref@,
        ensures
            forall|k: int|
                #![trigger spec_fingerprint(rs[k])]
                0 <= k < rs.len() ==> a.spec_lookup(spec_fingerprint(rs[k])) == b.spec_lookup(
                    spec_fingerprint(rs[k]),
                ),
            forall|k: int|
                0 <= k ==> #[trigger] a.spec_unseen_before(rs, k) == b.spec_unseen_before(rs, k),
    {
        assert forall|k: int|
            0 <= k < rs.len() implies a.spec_lookup(spec_fingerprint(rs[k])) == b.spec_lookup(
            #[trigger] spec_fingerprint(rs[k]),
        ) by {
            Self::lemma_lookup_congruent(a, b, spec_fingerprint(rs[k]));
        }
        assert forall|k: int| 0 <= k implies #[trigger] a.spec_unseen_before(rs, k)
            == b.spec_unseen_before(rs, k) by {
            Self::lemma_unseen_congruent(a, b, rs, k);
        }
    }

    /// One lookup agrees between two trackers with the same map.
    proof fn lemma_lookup_congruent(a: RefTracker, b: RefTracker, fp: RegionFingerprint)
        requires
            a.wf(),
            a.fingerprint_to_ref@ == b.fingerprint_to_ref@,
        ensures
            a.spec_lookup(fp) == b.spec_lookup(fp),
    {
        let m = a.fingerprint_to_ref@;
        if exists|i: int| 0 <= i < m.len() && (#[trigger] m[i]).0 == fp {
            let i = choose|i: int| 0 <= i < m.len() && (#[trigger] m[i]).0 == fp;
            assert(a.fingerprint_to_ref@[i].0 == fp);
            assert(b.fingerprint_to_ref@[i].0 == fp);
            let ia = choose|ia: int|
                0 <= ia < a.fingerprint_to_ref@.len() && (
                #[trigger] a.fingerprint_to_ref@[ia]).0 == fp;
            let ib = choose|ib: int|
                0 <= ib < b.fingerprint_to_ref@.len() && (
                #[trigger] b.fingerprint_to_ref@[ib]).0 == fp;
            assert(ia == ib) by {
                if ia < ib {
                    assert(m[ia].0 != m[ib].0);
                } else if ib < ia {
                    assert(m[ib].0 != m[ia].0);
                }
            }
        } else {
            assert(a.spec_lookup(fp) is None);
            assert forall|i: int|
                0 <= i < b.fingerprint_to_ref@.len() implies (
            #[trigger] b.fingerprint_to_ref@[i]).0 != fp by {
                assert(m[i].0 == b.fingerprint_to_ref@[i].0);
            }
            assert(b.spec_lookup(fp) is None);
        }
    }

    /// Unseen counts agree between two trackers with the same map.
    proof fn lemma_unseen_congruent(a: RefTracker, b: RefTracker, rs: Seq<Region>, k: int)
        requires
            a.wf(),
            a.fingerprint_to_ref@ == b.fingerprint_to_ref@,
            0 <= k,
        ensures
            a.spec_unseen_before(rs, k) == b.spec_unseen_before(rs, k),
        decreases k,
    {
        if k > 0 {
            Self::lemma_unseen_congruent(a, b, rs, k - 1);
            Self::lemma_lookup_congruent(a, b, spec_fingerprint(rs[k - 1]));
        }
    }

    /// The positionally numbered fresh references, read off per region:
    /// the region at unseen position `u` carries `@e{next + u + 1}`.
    proof fn lemma_fresh_refs_glue(
        self1: RefTracker,
        regs0: Seq<Region>,
        unassigned: Seq<usize>,
        regs_final: Seq<Region>,
        next1: u32,
    )
        requires
            regs0.len() <= usize::MAX,
            regs_final.len() == regs0.len(),
            forall|k: int|
                #![trigger spec_fingerprint(regs0[k])]
                0 <= k < regs0.len() && self1.spec_lookup(spec_fingerprint(regs0[k])) is None
                    ==> 0 <= self1.spec_unseen_before(regs0, k) < unassigned.len()
                    && unassigned[self1.spec_unseen_before(regs0, k) as int] == k as usize,
            forall|u: int|
                0 <= u < unassigned.len() ==> (#[trigger] regs_final[
                unassigned[u] as int]).ref_id@ == "@e"@ + spec_dec((next1 + u + 1) as nat),
            forall|j: int| 0 <= j < unassigned.len() ==> (#[trigger] unassigned[j]) < regs0.len(),
        ensures
            forall|k: int|
                0 <= k < regs0.len() && self1.spec_lookup(spec_fingerprint(regs0[k])) is None
                    ==> (#[trigger] regs_final[k]).ref_id@ == "@e"@ + spec_dec(
                    (next1 + self1.spec_unseen_before(regs0, k) + 1) as nat,
                ),
    {
        assert forall|k: int|
            0 <= k < regs0.len() && self1.spec_lookup(
                spec_fingerprint(regs0[k]),
            ) is None implies (#[trigger] regs_final[k]).ref_id@ == "@e"@ + spec_dec(
            (next1 + self1.spec_unseen_before(regs0, k) + 1) as nat,
        ) by {
            let u = self1.spec_unseen_before(regs0, k) as int;
            assert(0 <= u < unassigned.len() && unassigned[u] == k as usize);
            assert(regs_final[unassigned[u] as int].ref_id@ == "@e"@ + spec_dec(
                (next1 + u + 1) as nat,
            ));
        }
    }

    /// First pass: regions with known fingerprints take their old
    /// references; the rest are collected.
    #[verifier::rlimit(60)]
    #[verifier::spinoff_prover]
    fn assign_known(&mut self, regions: &mut Vec<Region>, Ghost(regs0): Ghost<Seq<Region>>) -> (
        unassigned: Vec<usize>)
        requires
            old(self).wf(),
            old(regions)@ == regs0,
        ensures
            final(self).wf(),
            final(self).fingerprint_to_ref@ == old(self).fingerprint_to_ref@,
            final(self).next_ref == old(self).next_ref,
            final(regions)@.len() == regs0.len(),
            forall|j: int|
                0 <= j < regs0.len() ==> spec_same_but_ref(#[trigger] final(regions)@[j], regs0[j]),
            forall|j: int|
                0 <= j < regs0.len() && old(self).spec_lookup(
                    spec_fingerprint(regs0[j]),
                ) is Some ==> (#[trigger] final(regions)@[j]).ref_id@ == old(self).spec_lookup(
                    spec_fingerprint(regs0[j]),
                )->Some_0,
            forall|j: int| 0 <= j < unassigned@.len() ==> (#[trigger] unassigned@[j]) < regs0.len(),
            forall|j: int|
                0 <= j < unassigned@.len() ==> old(self).spec_lookup(
                    spec_fingerprint(regs0[#[trigger] unassigned@[j] as int]),
                ) is None,
            forall|a: int, b: int|
                0 <= a < b < unassigned@.len() ==> (#[trigger] unassigned@[a]) < (
                #[trigger] unassigned@[b]),
            unassigned@.len() == old(self).spec_unseen_before(regs0, regs0.len() as int),
            forall|u: int|
                0 <= u < unassigned@.len() ==> old(self).spec_unseen_before(
                    regs0,
                    #[trigger] unassigned@[u] as int,
                ) == u,
            forall|j: int|
                #![trigger old(self).spec_unseen_before(regs0, j)]
                0 <= j < regs0.len() && old(self).spec_lookup(spec_fingerprint(regs0[j])) is None
                    ==> 0 <= old(self).spec_unseen_before(regs0, j) < unassigned@.len()
                    && unassigned@[old(self).spec_unseen_before(regs0, j) as int] == j as usize,
            final(self).current_refs@.len() == old(self).current_refs@.len() + regs0.len()
                - unassigned@.len(),
            unassigned@.len() <= regs0.len(),
    {
        let n = regions.len();
        let mut unassigned: Vec<usize> = Vec::new();
        let mut k: usize = 0;
        while k < n
            invariant
                n == regions@.len(),
                n == regs0.len(),
                self.wf(),
                self.fingerprint_to_ref@ == old(self).fingerprint_to_ref@,
                self.next_ref == old(self).next_ref,
                k <= n,
                forall|j: int| k <= j < n ==> #[trigger] regions@[j] == regs0[j],
                forall|j: int|
                    0 <= j < k ==> spec_same_but_ref(#[trigger] regions@[j], regs0[j]),
                forall|j: int|
                    0 <= j < k && old(self).spec_lookup(spec_fingerprint(regs0[j])) is Some
                        ==> (#[trigger] regions@[j]).ref_id@ == old(self).spec_lookup(
                        spec_fingerprint(regs0[j]),
                    )->Some_0,
                forall|j: int| 0 <= j < unassigned@.len() ==> (#[trigger] unassigned@[j]) < k,
                forall|j: int|
                    0 <= j < unassigned@.len() ==> old(self).spec_lookup(
                        spec_fingerprint(regs0[#[trigger] unassigned@[j] as int]),
                    ) is None,
                forall|a: int, b: int|
                    0 <= a < b < unassigned@.len() ==> (#[trigger] unassigned@[a]) < (
                    #[trigger] unassigned@[b]),
                unassigned@.len() == old(self).spec_unseen_before(regs0, k as int),
                forall|u: int|
                    0 <= u < unassigned@.len() ==> old(self).spec_unseen_before(
                        regs0,
                        #[trigger] unassigned@[u] as int,
                    ) == u,
                forall|j: int|
                    #![trigger old(self).spec_unseen_before(regs0, j)]
                    0 <= j < k && old(self).spec_lookup(spec_fingerprint(regs0[j])) is None
                        ==> 0 <= old(self).spec_unseen_before(regs0, j) < unassigned@.len()
                        && unassigned@[old(self).spec_unseen_before(regs0, j) as int] == j
                        as usize,
                self.current_refs@.len() + unassigned@.len() == old(self).current_refs@.len() + k,
                old(self).current_refs@.len() <= self.current_refs@.len(),
            decreases n - k,
        {
            let fp = RegionFingerprint::from_region(&regions[k]);
            proof {
                assert(spec_fingerprint(regs0[k as int]) == fp);
                assert(old(self).spec_unseen_before(regs0, k + 1) == old(self).spec_unseen_before(
                    regs0,
                    k as int,
                ) + (if old(self).spec_lookup(spec_fingerprint(regs0[k as int])) is None {
                    1nat
                } else {
                    0nat
                }));
            }
            match self.lookup(&fp) {
                Some(i) => {
                    let existing = self.fingerprint_to_ref[i].1.duplicate();
                    let existing2 = existing.duplicate();
                    let slot = &mut regions[k];
                    slot.ref_id = existing;
                    self.current_refs.push(existing2);
                },
                None => {
                    unassigned.push(k);
                },
            }
            k = k + 1;
        }
        unassigned
    }

    /// Second pass: regions still without a reference get fresh ones and
    /// are remembered: the `u`-th unassigned region receives the number
    /// `next_ref + u + 1`.
    #[verifier::rlimit(60)]
    #[verifier::spinoff_prover]
    fn assign_fresh(
        &mut self,
        regions: &mut Vec<Region>,
        unassigned: &Vec<usize>,
        Ghost(regs0): Ghost<Seq<Region>>,
        Ghost(base): Ghost<RefTracker>,
    )
        requires
            old(self).wf(),
            old(regions)@.len() == regs0.len(),
            old(self).next_ref + unassigned@.len() <= u32::MAX,
            unassigned@.len() <= regs0.len(),
            forall|j: int|
                0 <= j < unassigned@.len() ==> (#[trigger] unassigned@[j]) < regs0.len(),
            forall|a: int, b: int|
                0 <= a < b < unassigned@.len() ==> (#[trigger] unassigned@[a]) < (
                #[trigger] unassigned@[b]),
            forall|j: int|
                0 <= j < regs0.len() ==> spec_same_but_ref(#[trigger] old(regions)@[j], regs0[j]),
            forall|j: int|
                #![trigger unassigned@[j]]
                0 <= j < unassigned@.len() ==> base.spec_lookup(
                    spec_fingerprint(regs0[unassigned@[j] as int]),
                ) is None,
            forall|j: int|
                0 <= j < regs0.len() && base.spec_lookup(spec_fingerprint(regs0[j])) is Some
                    ==> (#[trigger] old(regions)@[j]).ref_id@ == base.spec_lookup(
                    spec_fingerprint(regs0[j]),
                )->Some_0,
        ensures
            final(self).wf(),
            final(regions)@.len() == regs0.len(),
            final(self).next_ref == old(self).next_ref + unassigned@.len(),
            final(self).current_refs@.len() == old(self).current_refs@.len()
                + unassigned@.len(),
            final(self).spec_fingerprint_count() <= old(self).spec_fingerprint_count()
                + unassigned@.len(),
            forall|j: int|
                0 <= j < regs0.len() ==> spec_same_but_ref(#[trigger] final(regions)@[j], regs0[j]),
            forall|j: int|
                0 <= j < regs0.len() && base.spec_lookup(spec_fingerprint(regs0[j])) is Some
                    ==> (#[trigger] final(regions)@[j]).ref_id@ == base.spec_lookup(
                    spec_fingerprint(regs0[j]),
                )->Some_0,
            forall|u: int|
                0 <= u < unassigned@.len() ==> (#[trigger] final(regions)@[
                unassigned@[u] as int]).ref_id@ == "@e"@ + spec_dec(
                    (old(self).next_ref + u + 1) as nat,
                ),
    {
        let m = unassigned.len();
        let mut u: usize = 0;
        while u < m
            invariant
                m == unassigned@.len(),
                regions@.len() == regs0.len(),
                self.wf(),
                self.next_ref == old(self).next_ref + u,
                old(self).next_ref + m <= u32::MAX,
                u <= m,
                m <= regs0.len(),
                self.spec_fingerprint_count() <= old(self).spec_fingerprint_count() + u,
                forall|j: int|
                    0 <= j < m ==> (#[trigger] unassigned@[j]) < regs0.len(),
                forall|a: int, b: int|
                    0 <= a < b < m ==> (#[trigger] unassigned@[a]) < (#[trigger] unassigned@[b]),
                forall|j: int|
                    0 <= j < regs0.len() ==> spec_same_but_ref(#[trigger] regions@[j], regs0[j])
                        || regions@[j] == regs0[j],
                forall|j: int|
                    0 <= j < regs0.len() && base.spec_lookup(spec_fingerprint(regs0[j])) is Some
                        ==> (#[trigger] regions@[j]).ref_id@ == base.spec_lookup(
                        spec_fingerprint(regs0[j]),
                    )->Some_0,
                forall|w: int|
                    0 <= w < u ==> (#[trigger] regions@[unassigned@[w] as int]).ref_id@ == "@e"@
                        + spec_dec((old(self).next_ref + w + 1) as nat),
                self.current_refs@.len() == old(self).current_refs@.len() + u,
            decreases m - u,
        {
            self.next_ref = self.next_ref + 1;
            let rid = new_ref_id(self.next_ref);
            let idx = unassigned[u];
            let fp = RegionFingerprint::from_region(&regions[idx]);
            let rid2 = rid.duplicate();
            let rid3 = rid.duplicate();
            let slot = &mut regions[idx];
            slot.ref_id = rid;
            self.insert_entry(fp, rid2);
            self.current_refs.push(rid3);
            proof {
                assert(base.spec_lookup(spec_fingerprint(regs0[idx as int])) is None);
                assert forall|j: int|
                    0 <= j < regs0.len() && base.spec_lookup(spec_fingerprint(regs0[j])) is Some
                        implies (#[trigger] regions@[j]).ref_id@ == base.spec_lookup(
                    spec_fingerprint(regs0[j]),
                )->Some_0 by {
                    assert(j != idx as int);
                }
                assert forall|w: int|
                    0 <= w < u + 1 implies (#[trigger] regions@[unassigned@[w] as int]).ref_id@
                    == "@e"@ + spec_dec((old(self).next_ref + w + 1) as nat) by {
                    if w < u {
                        assert(unassigned@[w] < unassigned@[u as int]);
                        assert(unassigned@[w] as int != idx as int);
                    }
                }
            }
            u = u + 1;
        }
    }

    /// Cleanup: fingerprints whose references are not used by the current
    /// snapshot are dropped.
    fn retain_current(&mut self)
        requires
            old(self).wf(),
        ensures
            final(self).wf(),
            final(self).next_ref == old(self).next_ref,
            final(self).current_refs@ == old(self).current_refs@,
            final(self).spec_fingerprint_count() <= old(self).spec_fingerprint_count(),
    {
        let nrefs = self.current_refs.len();
        let mut kept: Vec<(RegionFingerprint, RefId)> = Vec::new();
        let nmap = self.fingerprint_to_ref.len();
        let mut e: usize = 0;
        while e < nmap
            invariant
                nmap == self.fingerprint_to_ref@.len(),
                self.wf(),
                self.next_ref == old(self).next_ref,
                self.current_refs@ == old(self).current_refs@,
                nrefs == self.current_refs@.len(),
                e <= nmap,
                kept@.len() <= e,
                forall|i: int, j: int|
                    0 <= i < j < kept@.len() ==> (#[trigger] kept@[i]).0 != (
                    #[trigger] kept@[j]).0,
            decreases nmap - e,
        {
            let entry_fp = self.fingerprint_to_ref[e].0;
            let mut found = false;
            let mut ri: usize = 0;
            while ri < nrefs
                invariant
                    nrefs == self.current_refs@.len(),
                    nmap == self.fingerprint_to_ref@.len(),
                    e < nmap,
                    ri <= nrefs,
                decreases nrefs - ri,
            {
                if self.fingerprint_to_ref[e].1.same_ref(&self.current_refs[ri]) {
                    found = true;
                }
                ri = ri + 1;
            }
            if found {
                let mut dup = false;
                let nk = kept.len();
                let mut ki: usize = 0;
                while ki < nk
                    invariant
                        nk == kept@.len(),
                        ki <= nk,
                        nmap == self.fingerprint_to_ref@.len(),
                        e < nmap,
                        dup == exists|j: int| 0 <= j < ki && (#[trigger] kept@[j]).0 == entry_fp,
                    decreases nk - ki,
                {
                    if kept[ki].0 == entry_fp {
                        dup = true;
                    }
                    ki = ki + 1;
                }
                if !dup {
                    let rid = self.fingerprint_to_ref[e].1.duplicate();
                    kept.push((entry_fp, rid));
                }
            }
            e = e + 1;
        }
        self.fingerprint_to_ref = kept;
    }

    fn insert_entry(&mut self, fp: RegionFingerprint, rid: RefId)
        requires
            old(self).wf(),
        ensures
            final(self).wf(),
            final(self).next_ref == old(self).next_ref,
            final(self).current_refs@ == old(self).current_refs@,
            final(self).spec_lookup(fp) == Some(rid@),
            final(self).spec_fingerprint_count() <= old(self).spec_fingerprint_count() + 1,
    {
        let n = self.fingerprint_to_ref.len();
        for i in 0..n
            invariant
                n == self.fingerprint_to_ref@.len(),
                self.wf(),
                self.next_ref == old(self).next_ref,
                self.current_refs@ == old(self).current_refs@,
                self.fingerprint_to_ref@.len() == old(self).fingerprint_to_ref@.len(),
                forall|j: int| 0 <= j < i ==> (#[trigger] self.fingerprint_to_ref@[j]).0 != fp,
                forall|j: int|
                    0 <= j < n ==> (#[trigger] self.fingerprint_to_ref@[j]).0 == old(
                        self,
                    ).fingerprint_to_ref@[j].0,
        {
            if self.fingerprint_to_ref[i].0 == fp {
                let slot = &mut self.fingerprint_to_ref[i];
                *slot = (fp, rid);
                proof {
                    assert(final(self).spec_lookup(fp) == Some(rid@)) by {
                        assert(self.fingerprint_to_ref@[i as int].0 == fp);
                        let w = choose|w: int|
                            0 <= w < self.fingerprint_to_ref@.len() && (
                            #[trigger] self.fingerprint_to_ref@[w]).0 == fp;
                        assert(w == i as int);
                    }
                }
                return ;
            }
        }
        self.fingerprint_to_ref.push((fp, rid));
        proof {
            let len = self.fingerprint_to_ref@.len();
            assert(self.fingerprint_to_ref@[len - 1].0 == fp);
            let w = choose|w: int|
                0 <= w < self.fingerprint_to_ref@.len() && (
                #[trigger] self.fingerprint_to_ref@[w]).0 == fp;
            assert(w == len - 1);
        }
    }
}

/// Whether a reference matches a pattern: exactly, by a short prefix of
/// at most two characters, or by its number alone.
pub open spec fn spec_ref_matches(r: Seq<char>, p: Seq<char>) -> bool {
    ||| r == p
    ||| (p.len() <= 2 && p.len() <= r.len() && r.take(p.len() as int) == p)
    ||| (r.len() >= 2 && r[0] == '@' && r[1] == 'e' && r.skip(2) == p)
}

/// Whether `ref_id` matches `pattern`: exact, short prefix (`@`, `@e`),
/// or numeric (`1` matches `@e1`).
pub fn ref_matches(ref_id: &RefId, pattern: &str) -> (r: bool)
    ensures
        r == spec_ref_matches(ref_id@, pattern@),
{
    let rv = chars_of(ref_id.as_str());
    let pv = chars_of(pattern);
    if chars_eq(&rv, &pv) {
        return true;
    }
    if pv.len() <= 2 && pv.len() <= rv.len() {
        let prefix = sub_chars(&rv, 0, pv.len());
        if chars_eq(&prefix, &pv) {
            proof {
                assert(ref_id@.take(pattern@.len() as int) =~= prefix@);
            }
            return true;
        }
    }
    if rv.len() >= 2 && rv[0] == '@' && rv[1] == 'e' {
        let rest = sub_chars(&rv, 2, rv.len());
        if chars_eq(&rest, &pv) {
            proof {
                assert(ref_id@.skip(2) =~= rest@);
            }
            return true;
        }
    }
    proof {
        if ref_id@.len() >= 2 && ref_id@[0] == '@' && ref_id@[1] == 'e' {
            assert(ref_id@.skip(2) =~= rv@.subrange(2, rv@.len() as int));
        }
        if pattern@.len() <= 2 && pattern@.len() <= ref_id@.len() {
            assert(ref_id@.take(pattern@.len() as int) =~= rv@.subrange(0, pv@.len() as int));
        }
    }
    false
}

/// Whether two character vectors are equal.
fn chars_eq(a: &Vec<char>, b: &Vec<char>) -> (r: bool)
    ensures
        r == (a@ == b@),
{
    if a.len() != b.len() {
        return false;
    }
    let n = a.len();
    for i in 0..n
        invariant
            n == a@.len(),
            n == b@.len(),
            forall|j: int| 0 <= j < i ==> a@[j] == b@[j],
    {
        if a[i] != b[i] {
            return false;
        }
    }
    assert(a@ =~= b@);
    true
}

/// The center of a rectangle, for clicking: its origin shifted by half
/// its extent, saturating.
pub fn region_center(bounds: &Rect) -> (r: (u16, u16))
    ensures
        r.0 == (if bounds.x + bounds.width / 2 > 0xffff {
            0xffffint
        } else {
            bounds.x + bounds.width / 2
        }),
        r.1 == (if bounds.y + bounds.height / 2 > 0xffff {
            0xffffint
        } else {
            bounds.y + bounds.height / 2
        }),
{
    let hw = bounds.width / 2;
    let x: u16 = if bounds.x > 0xffff - hw {
        0xffff
    } else {
        bounds.x + hw
    };
    let hh = bounds.height / 2;
    let y: u16 = if bounds.y > 0xffff - hh {
        0xffff
    } else {
        bounds.y + hh
    };
    (x, y)
}

/// The regions a pattern matches.
pub open spec fn spec_matching(rs: Seq<Region>, p: Seq<char>) -> Seq<Region> {
    rs.filter(|r: Region| spec_ref_matches(r.ref_id@, p))
}

/// The result of resolving a reference pattern.
#[derive(Debug)]
pub enum ResolveResult<'a> {
    /// Exactly one region matches.
    Found(&'a Region),
    /// The pattern matches several regions.
    Ambiguous(Vec<&'a Region>),
    /// No region matches.
    NotFound,
}

/// Resolves a reference pattern against regions: exactly one match is
/// found; several are ambiguous; none is not found.
pub fn resolve_ref<'a>(pattern: &str, regions: &'a Vec<Region>) -> (r: ResolveResult<'a>)
    ensures
        ({
            let m = spec_matching(regions@, pattern@);
            match r {
                ResolveResult::Found(reg) => m.len() == 1 && *reg == m[0],
                ResolveResult::Ambiguous(v) => m.len() >= 2 && v@.len() == m.len() && forall|
                    i: int,
                |
                    0 <= i < m.len() ==> *(#[trigger] v@[i]) == m[i],
                ResolveResult::NotFound => m.len() == 0,
            }
        }),
{
    let ghost p = pattern@;
    let n = regions.len();
    let mut matches: Vec<&Region> = Vec::new();
    proof {
        reveal(Seq::filter);
        assert(regions@.take(0) =~= Seq::<Region>::empty());
    }
    for i in 0..n
        invariant
            n == regions@.len(),
            p == pattern@,
            matches@.len() == spec_matching(regions@.take(i as int), p).len(),
            forall|j: int|
                0 <= j < matches@.len() ==> *(#[trigger] matches@[j]) == spec_matching(
                    regions@.take(i as int),
                    p,
                )[j],
            forall|j: int|
                0 <= j < matches@.len() ==> *(#[trigger] matches@[j]) == spec_matching(
                    regions@,
                    p,
                )[j],
    {
        proof {
            reveal(Seq::filter);
            assert(regions@.take(i + 1).drop_last() =~= regions@.take(i as int));
            assert(regions@.take(i + 1).last() == regions@[i as int]);
            lemma_filter_take_prefix(regions@, p, i as int);
        }
        if ref_matches(&regions[i].ref_id, pattern) {
            matches.push(&regions[i]);
            proof {
                let mlen = matches@.len() - 1;
                assert(spec_matching(regions@.take(i + 1), p)[mlen] == regions@[i as int]);
                assert(spec_matching(regions@.take(i + 1), p)[mlen] == spec_matching(
                    regions@,
                    p,
                )[mlen]);
            }
        }
    }
    proof {
        assert(regions@.take(n as int) =~= regions@);
    }
    if matches.len() == 0 {
        ResolveResult::NotFound
    } else if matches.len() == 1 {
        let only = matches[0];
        ResolveResult::Found(only)
    } else {
        ResolveResult::Ambiguous(matches)
    }
}

/// A filter over a longer prefix extends the filter over a shorter one.
proof fn lemma_filter_take_prefix(rs: Seq<Region>, p: Seq<char>, i: int)
    requires
        0 <= i < rs.len(),
    ensures
        spec_matching(rs.take(i + 1), p) == spec_matching(rs.take(i), p) + (if spec_ref_matches(
            rs[i].ref_id@,
            p,
        ) {
            seq![rs[i]]
        } else {
            Seq::<Region>::empty()
        }),
        forall|j: int|
            0 <= j < spec_matching(rs.take(i + 1), p).len() ==> #[trigger] spec_matching(
                rs.take(i + 1),
                p,
            )[j] == spec_matching(rs, p)[j],
    decreases rs.len() - i,
{
    reveal(Seq::filter);
    assert(rs.take(i + 1).drop_last() =~= rs.take(i));
    assert(rs.take(i + 1).last() == rs[i]);
    if spec_ref_matches(rs[i].ref_id@, p) {
        assert(spec_matching(rs.take(i + 1), p) =~= spec_matching(rs.take(i), p) + seq![rs[i]]);
    } else {
        assert(spec_matching(rs.take(i + 1), p) =~= spec_matching(rs.take(i), p) + Seq::<
            Region,
        >::empty());
    }
    if i + 1 < rs.len() {
        lemma_filter_take_prefix(rs, p, i + 1);
        assert forall|j: int|
            0 <= j < spec_matching(rs.take(i + 1), p).len() implies #[trigger] spec_matching(
            rs.take(i + 1),
            p,
        )[j] == spec_matching(rs, p)[j] by {
            assert(spec_matching(rs.take(i + 2), p) == spec_matching(rs.take(i + 1), p) + (
            if spec_ref_matches(rs[i + 1].ref_id@, p) {
                seq![rs[i + 1]]
            } else {
                Seq::<Region>::empty()
            }));
            assert(spec_matching(rs.take(i + 2), p)[j] == spec_matching(rs.take(i + 1), p)[j]);
        }
    } else {
        assert(rs.take(i + 1) =~= rs);
    }
}

/// One entry of an ambiguity listing: `@e<n> (text)`.
pub open spec fn spec_match_entry(r: Region) -> Seq<char> {
    r.ref_id@ + " ("@ + r.text@ + ")"@
}

/// Matched regions listed `@e<n> (text)`, comma-separated.
pub open spec fn spec_ambiguous_listing(ms: Seq<Region>) -> Seq<char>
    decreases ms.len(),
{
    if ms.len() == 0 {
        Seq::empty()
    } else if ms.len() == 1 {
        spec_match_entry(ms[0])
    } else {
        spec_ambiguous_listing(ms.drop_last()) + ", "@ + spec_match_entry(ms.last())
    }
}

/// One entry of an availability listing: the reference and a quoted
/// preview of its text, the first twenty characters with an ellipsis
/// when the text is longer.
pub open spec fn spec_ref_entry(r: Region) -> Seq<char> {
    let preview = if r.text@.len() > 20 {
        r.text@.take(20)
    } else {
        r.text@
    };
    r.ref_id@ + " (\""@ + preview + (if r.text@.len() > 20 {
        "...\")"@
    } else {
        "\")"@
    })
}

/// The first `shown` regions listed, comma-separated.
pub open spec fn spec_refs_listing(rs: Seq<Region>, shown: int) -> Seq<char>
    decreases shown,
{
    if shown <= 0 {
        Seq::empty()
    } else if shown == 1 {
        spec_ref_entry(rs[0])
    } else {
        spec_refs_listing(rs, shown - 1) + ", "@ + spec_ref_entry(rs[shown - 1])
    }
}

/// The availability listing of a region list: `(none)` when empty, else
/// the first ten regions and a note counting the rest.
pub open spec fn spec_available_refs(rs: Seq<Region>) -> Seq<char> {
    if rs.len() == 0 {
        "(none)"@
    } else {
        let shown: int = if rs.len() < 10 {
            rs.len() as int
        } else {
            10
        };
        spec_refs_listing(rs, shown) + (if rs.len() > 10 {
            ", ... and "@ + spec_dec((rs.len() - 10) as nat) + " more"@
        } else {
            Seq::<char>::empty()
        })
    }
}

/// Error returned when reference resolution fails.
#[derive(Debug)]
pub struct RefError {
    pub code: RefErrorCode,
    pub message: String,
    pub suggestion: String,
}

/// Why a reference did not resolve.
#[derive(Debug, Clone, Copy, PartialEq, Eq, Structural)]
pub enum RefErrorCode {
    NotFound,
    Ambiguous,
}

/// Resolves a reference pattern, or explains the failure: ambiguity and
/// absence each carry a message naming the pattern.
pub fn resolve_ref_or_error<'a>(pattern: &str, regions: &'a Vec<Region>) -> (r: Result<
    &'a Region,
    RefError,
>)
    ensures
        ({
            let m = spec_matching(regions@, pattern@);
            match r {
                Ok(reg) => m.len() == 1 && *reg == m[0],
                Err(e) => (m.len() == 0 ==> e.code == RefErrorCode::NotFound && e.message@
                    == "ref '"@ + pattern@ + "' not found"@ && e.suggestion@ == (
                if regions@.len() == 0 {
                    "No interactive regions detected on screen."@
                } else {
                    "Available refs: "@ + spec_available_refs(regions@)
                })) && (m.len() >= 2 ==> e.code == RefErrorCode::Ambiguous && e.message@ == "'"@
                    + pattern@ + "' matches multiple regions"@ && e.suggestion@
                    == "Be more specific. Matches: "@ + spec_ambiguous_listing(m)) && m.len()
                    != 1,
            }
        }),
{
    match resolve_ref(pattern, regions) {
        ResolveResult::Found(region) => Ok(region),
        ResolveResult::Ambiguous(ms) => {
            let message = String::from_str("'").concat(pattern).concat(
                "' matches multiple regions",
            );
            let ghost m = spec_matching(regions@, pattern@);
            let mut listing = String::new();
            let n = ms.len();
            for i in 0..n
                invariant
                    n == ms@.len(),
                    n == m.len(),
                    forall|j: int| 0 <= j < n ==> *(#[trigger] ms@[j]) == m[j],
                    listing@ == spec_ambiguous_listing(m.take(i as int)),
            {
                if i > 0 {
                    listing = listing.concat(", ");
                }
                listing = listing.concat(ms[i].ref_id.as_str()).concat(" (").concat(
                    ms[i].text.as_str(),
                ).concat(")");
                proof {
                    let t = m.take(i + 1);
                    assert(t.drop_last() =~= m.take(i as int));
                    assert(t.last() == m[i as int]);
                    if i == 0 {
                        assert(spec_ambiguous_listing(t) == spec_match_entry(t[0]));
                        assert(listing@ =~= spec_match_entry(m[0]));
                    } else {
                        assert(listing@ =~= spec_ambiguous_listing(m.take(i as int)) + ", "@
                            + spec_match_entry(m[i as int]));
                    }
                }
            }
            let suggestion = String::from_str("Be more specific. Matches: ").concat(
                listing.as_str(),
            );
            proof {
                assert(m.take(n as int) =~= m);
                assert(message@ =~= "'"@ + pattern@ + "' matches multiple regions"@);
                assert(suggestion@ =~= "Be more specific. Matches: "@
                    + spec_ambiguous_listing(m));
            }
            Err(RefError { code: RefErrorCode::Ambiguous, message, suggestion })
        },
        ResolveResult::NotFound => {
            let message = String::from_str("ref '").concat(pattern).concat("' not found");
            let suggestion = if regions.len() == 0 {
                String::from_str("No interactive regions detected on screen.")
            } else {
                String::from_str("Available refs: ").concat(
                    format_available_refs(regions).as_str(),
                )
            };
            proof {
                assert(message@ =~= "ref '"@ + pattern@ + "' not found"@);
                if regions@.len() > 0 {
                    assert(suggestion@ =~= "Available refs: "@ + spec_available_refs(regions@));
                }
            }
            Err(RefError { code: RefErrorCode::NotFound, message, suggestion })
        },
    }
}

/// Formats up to ten references with a preview of their text, for error
/// messages; `(none)` when there are no regions, and a trailing note
/// counts any regions beyond the tenth.
pub fn format_available_refs(regions: &Vec<Region>) -> (r: String)
    ensures
        r@ == spec_available_refs(regions@),
{
    if regions.len() == 0 {
        return String::from_str("(none)");
    }
    let mut out = String::new();
    let shown: usize = if regions.len() < 10 {
        regions.len()
    } else {
        10
    };
    for i in 0..shown
        invariant
            shown <= regions@.len(),
            shown >= 1,
            out@ == spec_refs_listing(regions@, i as int),
    {
        if i > 0 {
            out = out.concat(", ");
        }
        let region = &regions[i];
        let tv = chars_of(region.text.as_str());
        let preview: Vec<char> = if tv.len() > 20 {
            sub_chars(&tv, 0, 20)
        } else {
            sub_chars(&tv, 0, tv.len())
        };
        let preview_s = string_of(&preview);
        out = out.concat(region.ref_id.as_str()).concat(" (\"").concat(preview_s.as_str());
        if tv.len() > 20 {
            out = out.concat("...\")");
        } else {
            out = out.concat("\")");
        }
        proof {
            if region.text@.len() > 20 {
                assert(preview@ =~= region.text@.take(20));
            } else {
                assert(preview@ =~= region.text@);
            }
            if i == 0 {
                assert(spec_refs_listing(regions@, 1) == spec_ref_entry(regions@[0]));
                assert(out@ =~= spec_ref_entry(regions@[0]));
            } else {
                assert(out@ =~= spec_refs_listing(regions@, i as int) + ", "@ + spec_ref_entry(
                    regions@[i as int],
                ));
            }
        }
    }
    if regions.len() > 10 {
        let mut digits: Vec<char> = Vec::new();
        push_dec_u64(&mut digits, (regions.len() - 10) as u64);
        out = out.concat(", ... and ").concat(string_of(&digits).as_str()).concat(" more");
        proof {
            assert(out@ =~= spec_refs_listing(regions@, 10) + (", ... and "@ + spec_dec(
                (regions@.len() - 10) as nat,
            ) + " more"@));
        }
    }
    proof {
        assert(out@ =~= spec_available_refs(regions@));
    }
    out
}

/// The fingerprint a region maps to.
pub open spec fn spec_fingerprint(r: Region) -> RegionFingerprint {
    RegionFingerprint {
        x_bucket: (r.bounds.x / 4) as u16,
        y_bucket: (r.bounds.y / 4) as u16,
        text_hash: spec_text_hash(r.text@),
    }
}

} // verus!
