//! The relay's request handling: parsing a submitted observation, checking
//! its Groth16 proof against the relay's verifying key, checking an optional
//! disclosure against the proven indicator hash, trusting a claimed tier only
//! for allowlisted credential roots, rejecting replayed nullifiers, keeping
//! scores, proof counts and disclosures, and exporting disclosed indicators
//! as STIX and MISP.
//!
//! A claimed `min_tier` is cryptographically checked by the proof relative
//! to whichever credential tree `credential_root` names; the relay only uses
//! it for scoring weight when that root is in its allowlist, and scores every
//! other observation as tier 0.

use vstd::prelude::*;
use crate::accumulator::{
    TierWeights, VerifiedObservation, ObservationView, accumulate, accumulate_spec, accumulate_from, views,
    tier_weight, step, start, scores_fit, table_scores, score_of,
};
use crate::encoding::{
    Groth16Proof, Groth16VerifyingKey, fr_from_hex, fr_from_hex_spec, fr_to_hex, proof_from_hex, proof_from_hex_spec,
    groth16_verify, groth16_verdict, hex_of_bytes,
};
use crate::field::{FieldElement, fr_from_u64, le_value};
use crate::indicator::{indicator_hash_from_raw, indicator_hash_spec};
use crate::misp::{MispEvent, MispObject, build_misp_event, misp_objects_spec, event_date_spec};
use crate::poseidon::{values, all_wf};
use crate::stix::{
    StixBundle, StixIndicatorInput, StixInputView, StixObject, build_stix_bundle, input_views, object_views,
    stix_objects_spec, uuid_like,
};
use crate::tables::{ScoreKey, ScoreTable, StringSet, TextMap};
use crate::text::{make_string, push_str};

verus! {

/// Raw weighted score that maps to STIX confidence 100, unless configured.
pub const DEFAULT_SCORE_FOR_FULL_CONFIDENCE: u32 = 10;

/// Confidence (0 to 100) from which MISP attributes are marked `to_ids`,
/// unless a request says otherwise.
pub const DEFAULT_TO_IDS_CONFIDENCE_THRESHOLD: u8 = 50;

/// A submitted observation, as it arrives: field elements and the proof in
/// hex, and optionally the raw indicator being disclosed.
#[derive(Debug, Clone)]
pub struct SubmitObservationRequest {
    /// Hex field element: the indicator's hash.
    pub indicator_hash: String,
    pub epoch: u64,
    /// Hex field element: the epoch's published Merkle root.
    pub root: String,
    /// Hex field element: the replay-protection nullifier.
    pub nullifier: String,
    /// Claimed tier (0 to 3).
    pub min_tier: u8,
    /// Hex field element: root of the credential tree the tier was proven against.
    pub credential_root: String,
    /// Hex Groth16 proof.
    pub proof: String,
    /// The raw indicator, when the contributor discloses it.
    pub indicator: Option<String>,
}

pub struct RequestView {
    pub indicator_hash: Seq<char>,
    pub epoch: u64,
    pub root: Seq<char>,
    pub nullifier: Seq<char>,
    pub min_tier: u8,
    pub credential_root: Seq<char>,
    pub proof: Seq<char>,
    pub indicator: Option<Seq<char>>,
}

pub open spec fn text_opt(o: Option<String>) -> Option<Seq<char>> {
    match o {
        Some(s) => Some(s@),
        None => None,
    }
}

impl View for SubmitObservationRequest {
    type V = RequestView;

    open spec fn view(&self) -> RequestView {
        RequestView {
            indicator_hash: self.indicator_hash@,
            epoch: self.epoch,
            root: self.root@,
            nullifier: self.nullifier@,
            min_tier: self.min_tier,
            credential_root: self.credential_root@,
            proof: self.proof@,
            indicator: text_opt(self.indicator),
        }
    }
}

/// The answer to a submission.
#[derive(Debug, Clone)]
pub struct SubmitObservationResponse {
    pub accepted: bool,
    pub reason: Option<String>,
    pub score: Option<u32>,
}

pub struct ResponseView {
    pub accepted: bool,
    pub reason: Option<Seq<char>>,
    pub score: Option<u32>,
}

impl View for SubmitObservationResponse {
    type V = ResponseView;

    open spec fn view(&self) -> ResponseView {
        ResponseView { accepted: self.accepted, reason: text_opt(self.reason), score: self.score }
    }
}

/// The answer to a score query.
#[derive(Debug, Clone)]
pub struct ScoreResponse {
    pub indicator_hash: String,
    pub epoch: u64,
    pub score: u32,
    pub proof_count: u32,
}

/// A refusal with the given reason.
pub open spec fn rejection(reason: Seq<char>) -> ResponseView {
    ResponseView { accepted: false, reason: Some(reason), score: None }
}

/// A refusal with the given reason.
pub fn rejected(reason: &str) -> (r: SubmitObservationResponse)
    ensures
        r@ == rejection(reason@),
{
    SubmitObservationResponse { accepted: false, reason: Some(make_string(reason)), score: None }
}

/// A submission whose wire values decoded.
#[derive(Debug, Clone)]
pub struct ParsedSubmission {
    pub indicator_hash: FieldElement,
    pub epoch: u64,
    pub root: FieldElement,
    pub nullifier: FieldElement,
    pub min_tier: u8,
    pub credential_root: FieldElement,
    pub proof: Groth16Proof,
    pub indicator: Option<String>,
}

pub struct ParsedView {
    pub indicator_hash: Seq<u8>,
    pub epoch: u64,
    pub root: Seq<u8>,
    pub nullifier: Seq<u8>,
    pub min_tier: u8,
    pub credential_root: Seq<u8>,
    pub proof: Seq<u8>,
    pub indicator: Option<Seq<char>>,
}

impl View for ParsedSubmission {
    type V = ParsedView;

    open spec fn view(&self) -> ParsedView {
        ParsedView {
            indicator_hash: self.indicator_hash@,
            epoch: self.epoch,
            root: self.root@,
            nullifier: self.nullifier@,
            min_tier: self.min_tier,
            credential_root: self.credential_root@,
            proof: self.proof@,
            indicator: text_opt(self.indicator),
        }
    }
}

impl ParsedSubmission {
    /// Every field element is canonical and the proof decodes.
    pub open spec fn wf(&self) -> bool {
        &&& self.indicator_hash.wf()
        &&& self.root.wf()
        &&& self.nullifier.wf()
        &&& self.credential_root.wf()
        &&& self.proof.wf()
    }
}

/// The message of a wire value that did not decode.
pub open spec fn encoding_message(m: Seq<char>) -> Seq<char> {
    "encoding error: "@ + m
}

/// What parsing a request gives: the first value (in the order indicator
/// hash, root, nullifier, credential root, proof) that fails to decode
/// rejects the request with its message.
pub open spec fn parse_spec(req: RequestView) -> Result<ParsedView, Seq<char>> {
    match fr_from_hex_spec(req.indicator_hash) {
        Err(m) => Err(encoding_message(m)),
        Ok(ih) => match fr_from_hex_spec(req.root) {
            Err(m) => Err(encoding_message(m)),
            Ok(root) => match fr_from_hex_spec(req.nullifier) {
                Err(m) => Err(encoding_message(m)),
                Ok(nf) => match fr_from_hex_spec(req.credential_root) {
                    Err(m) => Err(encoding_message(m)),
                    Ok(cr) => match proof_from_hex_spec(req.proof) {
                        Err(m) => Err(encoding_message(m)),
                        Ok(pf) => Ok(ParsedView {
                            indicator_hash: ih,
                            epoch: req.epoch,
                            root: root,
                            nullifier: nf,
                            min_tier: req.min_tier,
                            credential_root: cr,
                            proof: pf,
                            indicator: req.indicator,
                        }),
                    },
                },
            },
        },
    }
}

/// Decodes the wire values of a request.
pub fn parse_submission(req: &SubmitObservationRequest) -> (r: Result<ParsedSubmission, String>)
    ensures
        match r {
            Ok(p) => p.wf() && parse_spec(req@) == Ok::<ParsedView, Seq<char>>(p@),
            Err(m) => parse_spec(req@) == Err::<ParsedView, Seq<char>>(m@),
        },
{
    let indicator_hash = match fr_from_hex(req.indicator_hash.as_str()) {
        Ok(v) => v,
        Err(e) => return Err(e.to_string()),
    };
    let root = match fr_from_hex(req.root.as_str()) {
        Ok(v) => v,
        Err(e) => return Err(e.to_string()),
    };
    let nullifier = match fr_from_hex(req.nullifier.as_str()) {
        Ok(v) => v,
        Err(e) => return Err(e.to_string()),
    };
    let credential_root = match fr_from_hex(req.credential_root.as_str()) {
        Ok(v) => v,
        Err(e) => return Err(e.to_string()),
    };
    let proof = match proof_from_hex(req.proof.as_str()) {
        Ok(v) => v,
        Err(e) => return Err(e.to_string()),
    };
    let indicator = match &req.indicator {
        Some(s) => Some(s.clone()),
        None => None,
    };
    let p = ParsedSubmission {
        indicator_hash,
        epoch: req.epoch,
        root,
        nullifier,
        min_tier: req.min_tier,
        credential_root,
        proof,
        indicator,
    };
    proof {
        assert(p@ == parse_spec(req@)->Ok_0);
    }
    Ok(p)
}

/// The public inputs of the proof, in the circuit's order: indicator hash,
/// epoch, root, nullifier, min_tier, credential root.
pub open spec fn public_input_values(p: ParsedView) -> Seq<nat> {
    seq![
        le_value(p.indicator_hash),
        p.epoch as nat,
        le_value(p.root),
        le_value(p.nullifier),
        p.min_tier as nat,
        le_value(p.credential_root),
    ]
}

/// The public-input vector a submission's proof is verified against.
pub fn public_inputs(p: &ParsedSubmission) -> (v: Vec<FieldElement>)
    requires
        p.wf(),
    ensures
        all_wf(v@),
        values(v@) == public_input_values(p@),
{
    let mut v: Vec<FieldElement> = Vec::new();
    v.push(p.indicator_hash);
    v.push(fr_from_u64(p.epoch));
    v.push(p.root);
    v.push(p.nullifier);
    v.push(fr_from_u64(p.min_tier as u64));
    v.push(p.credential_root);
    proof {
        assert(values(v@) =~= public_input_values(p@));
    }
    v
}

/// The relay's configuration and state, as values.
pub struct RelayView {
    pub vk: Seq<u8>,
    pub weights: Seq<u32>,
    pub trusted: Set<Seq<char>>,
    pub relay_id: Seq<char>,
    pub full: u32,
    pub seen: Set<Seq<char>>,
    pub scores: Map<ScoreKey, u32>,
    /// The scored keys, in the order they were first scored.
    pub order: Seq<ScoreKey>,
    pub proof_counts: Map<ScoreKey, u32>,
    /// Raw disclosed indicator, by indicator key.
    pub disclosed: Map<Seq<char>, Seq<char>>,
}

/// A relay: its verifying key and policy, the nullifiers it has seen, the
/// scores and proof counts per (indicator, epoch), and the disclosed
/// indicators.
pub struct RelayState {
    vk: Groth16VerifyingKey,
    weights: TierWeights,
    trusted_credential_roots: StringSet,
    relay_id: String,
    score_for_full_confidence: u32,
    seen_nullifiers: StringSet,
    scores: ScoreTable,
    proof_counts: ScoreTable,
    disclosed_indicators: TextMap,
}

impl View for RelayState {
    type V = RelayView;

    closed spec fn view(&self) -> RelayView {
        RelayView {
            vk: self.vk@,
            weights: self.weights@,
            trusted: self.trusted_credential_roots@,
            relay_id: self.relay_id@,
            full: self.score_for_full_confidence,
            seen: self.seen_nullifiers@,
            scores: self.scores@,
            order: self.scores.keys(),
            proof_counts: self.proof_counts@,
            disclosed: self.disclosed_indicators@,
        }
    }
}

/// The value under `k`, 0 when absent.
pub open spec fn count_of(m: Map<ScoreKey, u32>, k: ScoreKey) -> nat {
    if m.contains_key(k) { m[k] as nat } else { 0 }
}

/// Key under which a submission is scored: the indicator hash's canonical
/// hex and the epoch.
pub open spec fn key_of(p: ParsedView) -> ScoreKey {
    (hex_of_bytes(p.indicator_hash), p.epoch)
}

/// The tier a verified submission is scored at: the claim where its
/// credential root is allowlisted, else 0.
pub open spec fn trusted_tier(s: RelayView, p: ParsedView) -> u8 {
    if s.trusted.contains(hex_of_bytes(p.credential_root)) { p.min_tier } else { 0 }
}

/// A disclosure, where there is one, hashes to the proven indicator hash.
pub open spec fn disclosure_matches(p: ParsedView) -> bool {
    match p.indicator {
        Some(raw) => indicator_hash_spec(raw) == le_value(p.indicator_hash),
        None => true,
    }
}

/// The key of `p` can take its score and one more proof without leaving
/// `u32`.
pub open spec fn room_for(s: RelayView, p: ParsedView) -> bool {
    &&& count_of(s.scores, key_of(p)) + tier_weight(s.weights, trusted_tier(s, p)) <= u32::MAX
    &&& count_of(s.proof_counts, key_of(p)) < u32::MAX
}

/// A request that decodes can be scored without leaving `u32`.
pub open spec fn room_for_request(s: RelayView, req: RequestView) -> bool {
    parse_spec(req) matches Ok(p) ==> room_for(s, p)
}

/// The state after accepting a verified, fresh submission.
pub open spec fn accepted_state(s: RelayView, p: ParsedView) -> RelayView {
    let k = key_of(p);
    let ik = hex_of_bytes(p.indicator_hash);
    RelayView {
        vk: s.vk,
        weights: s.weights,
        trusted: s.trusted,
        relay_id: s.relay_id,
        full: s.full,
        seen: s.seen.insert(hex_of_bytes(p.nullifier)),
        scores: s.scores.insert(k, (count_of(s.scores, k) + tier_weight(s.weights, trusted_tier(s, p))) as u32),
        order: if s.scores.contains_key(k) { s.order } else { s.order.push(k) },
        proof_counts: s.proof_counts.insert(k, (count_of(s.proof_counts, k) + 1) as u32),
        disclosed: match p.indicator {
            Some(raw) => if s.disclosed.contains_key(ik) { s.disclosed } else { s.disclosed.insert(ik, raw) },
            None => s.disclosed,
        },
    }
}

pub open spec fn msg_verify_error() -> Seq<char> {
    "proof verification errored (malformed proof)"@
}

pub open spec fn msg_not_verified() -> Seq<char> {
    "proof does not verify against this relay's verifying key"@
}

pub open spec fn msg_disclosure() -> Seq<char> {
    "disclosed indicator does not hash to the proven indicator_hash"@
}

pub open spec fn msg_replay() -> Seq<char> {
    "nullifier already seen — this observation was already counted"@
}

/// State and answer once the proof check gave `verdict`: an error or a
/// failed check refuses; a disclosure that does not hash to the indicator
/// hash refuses the whole submission; a seen nullifier refuses; otherwise
/// the observation is scored at its trusted tier and the new score returned.
/// A refusal leaves the state unchanged.
pub open spec fn after_verdict(s: RelayView, p: ParsedView, verdict: Option<bool>) -> (RelayView, ResponseView) {
    match verdict {
        None => (s, rejection(msg_verify_error())),
        Some(ok) => if !ok {
            (s, rejection(msg_not_verified()))
        } else if !disclosure_matches(p) {
            (s, rejection(msg_disclosure()))
        } else if s.seen.contains(hex_of_bytes(p.nullifier)) {
            (s, rejection(msg_replay()))
        } else {
            let s2 = accepted_state(s, p);
            (s2, ResponseView { accepted: true, reason: None, score: Some(s2.scores[key_of(p)]) })
        },
    }
}

/// State and answer for a request: a request that does not decode is
/// refused with the decoding message; otherwise the answer depends on what
/// Groth16 verification of the proof against the public inputs gives.
pub open spec fn submit_spec(s: RelayView, req: RequestView) -> (RelayView, ResponseView) {
    match parse_spec(req) {
        Err(m) => (s, rejection(m)),
        Ok(p) => after_verdict(s, p, groth16_verdict(s.vk, public_input_values(p), p.proof)),
    }
}

/// The export inputs for the keys in `order`: those whose indicator was
/// disclosed and whose score reaches `threshold`, in key order.
pub open spec fn export_inputs_spec(s: RelayView, order: Seq<ScoreKey>, threshold: u32) -> Seq<StixInputView>
    decreases order.len(),
{
    if order.len() == 0 {
        Seq::empty()
    } else {
        let rest = export_inputs_spec(s, order.drop_last(), threshold);
        let k = order.last();
        if s.disclosed.contains_key(k.0) && count_of(s.scores, k) >= threshold {
            rest.push(StixInputView {
                raw_indicator: s.disclosed[k.0],
                epoch: k.1,
                score: count_of(s.scores, k) as u32,
                proof_count: count_of(s.proof_counts, k) as u32,
            })
        } else {
            rest
        }
    }
}

/// The MISP event title of every export.
pub open spec fn event_info() -> Seq<char> {
    "Umbra Exchange relay export"@
}

proof fn lemma_single(o: ObservationView, seen: Set<Seq<char>>, w: Seq<u32>)
    ensures
        accumulate_spec(seq![o], seen, w) == step(start(seen), o, w),
{
    let s = seq![o];
    assert(s.drop_last() =~= Seq::<ObservationView>::empty());
    assert(accumulate_from(start(seen), s.drop_last(), w) == start(seen));
}

impl RelayState {
    /// Keys and tables are well formed, every scored key has a proof count
    /// and the reverse, and the key decodes.
    pub closed spec fn wf(&self) -> bool {
        &&& self.vk.wf()
        &&& self.trusted_credential_roots.wf()
        &&& self.seen_nullifiers.wf()
        &&& self.scores.wf()
        &&& self.proof_counts.wf()
        &&& self.disclosed_indicators.wf()
        &&& self.scores@.dom() == self.proof_counts@.dom()
    }

    /// A relay with no allowlisted credential root, the default confidence
    /// scale, and nothing seen, scored or disclosed.
    pub fn new(vk: Groth16VerifyingKey, weights: TierWeights) -> (r: RelayState)
        requires
            vk.wf(),
        ensures
            r.wf(),
            r@.vk == vk@,
            r@.weights == weights@,
            r@.trusted == Set::<Seq<char>>::empty(),
            r@.relay_id == "umbra-relay"@,
            r@.full == DEFAULT_SCORE_FOR_FULL_CONFIDENCE,
            r@.seen == Set::<Seq<char>>::empty(),
            r@.scores == Map::<ScoreKey, u32>::empty(),
            r@.order == Seq::<ScoreKey>::empty(),
            r@.proof_counts == Map::<ScoreKey, u32>::empty(),
            r@.disclosed == Map::<Seq<char>, Seq<char>>::empty(),
    {
        let r = RelayState {
            vk,
            weights,
            trusted_credential_roots: StringSet::new(),
            relay_id: make_string("umbra-relay"),
            score_for_full_confidence: DEFAULT_SCORE_FOR_FULL_CONFIDENCE,
            seen_nullifiers: StringSet::new(),
            scores: ScoreTable::new(),
            proof_counts: ScoreTable::new(),
            disclosed_indicators: TextMap::new(),
        };
        proof { reveal_strlit("umbra-relay"); }
        r
    }

    /// The same relay, also trusting the tier claims of proofs against the
    /// given credential roots (canonical hex).
    pub fn with_trusted_credential_roots(self, roots: Vec<String>) -> (r: RelayState)
        requires
            self.wf(),
        ensures
            r.wf(),
            r@.trusted == self@.trusted + roots@.map_values(|s: String| s@).to_set(),
            r@.vk == self@.vk && r@.weights == self@.weights && r@.relay_id == self@.relay_id,
            r@.full == self@.full && r@.seen == self@.seen && r@.scores == self@.scores,
            r@.order == self@.order && r@.proof_counts == self@.proof_counts && r@.disclosed == self@.disclosed,
    {
        let mut r = self;
        let ghost added = roots@.map_values(|s: String| s@);
        let mut i: usize = 0;
        while i < roots.len()
            invariant
                i <= roots@.len(),
                added == roots@.map_values(|s: String| s@),
                r.wf(),
                r@.trusted == self@.trusted + added.take(i as int).to_set(),
                r@.vk == self@.vk && r@.weights == self@.weights && r@.relay_id == self@.relay_id,
                r@.full == self@.full && r@.seen == self@.seen && r@.scores == self@.scores,
                r@.order == self@.order && r@.proof_counts == self@.proof_counts && r@.disclosed == self@.disclosed,
            decreases roots@.len() - i,
        {
            r.trusted_credential_roots.insert(roots[i].clone());
            proof {
                assert(added.take(i + 1) =~= added.take(i as int).push(added[i as int]));
                added.take(i as int).lemma_push_to_set_commute(added[i as int]);
                assert(r@.trusted =~= self@.trusted + added.take(i + 1).to_set());
            }
            i = i + 1;
        }
        proof { assert(added.take(roots@.len() as int) =~= added); }
        r
    }

    /// The same relay under another identifier in exports.
    pub fn with_relay_id(self, relay_id: &str) -> (r: RelayState)
        requires
            self.wf(),
        ensures
            r.wf(),
            r@ == (RelayView { relay_id: relay_id@, ..self@ }),
    {
        let mut r = self;
        r.relay_id = make_string(relay_id);
        r
    }

    /// The same relay with another score for full STIX confidence.
    pub fn with_score_for_full_confidence(self, score_for_full_confidence: u32) -> (r: RelayState)
        requires
            self.wf(),
        ensures
            r.wf(),
            r@ == (RelayView { full: score_for_full_confidence, ..self@ }),
    {
        let mut r = self;
        r.score_for_full_confidence = score_for_full_confidence;
        r
    }

    /// The relay's identifier in exports.
    pub fn relay_id(&self) -> (r: &str)
        ensures
            r@ == self@.relay_id,
    {
        self.relay_id.as_str()
    }

    /// The raw score that maps to STIX confidence 100.
    pub fn score_for_full_confidence(&self) -> (r: u32)
        ensures
            r == self@.full,
    {
        self.score_for_full_confidence
    }

    /// Whether the score and proof count that `req` would raise can take it
    /// (what `submit_observation` needs); a request that does not decode
    /// raises none.
    pub fn has_room_for(&self, req: &SubmitObservationRequest) -> (b: bool)
        requires
            self.wf(),
        ensures
            b == room_for_request(self@, req@),
    {
        match parse_submission(req) {
            Err(_) => true,
            Ok(p) => {
                let indicator_key = fr_to_hex(&p.indicator_hash);
                let credential_root_key = fr_to_hex(&p.credential_root);
                let tier = if self.trusted_credential_roots.contains(&credential_root_key) { p.min_tier } else { 0 };
                let w = self.weights.weight_for(tier);
                let score = self.scores.get_or_zero(&indicator_key, p.epoch);
                let count = self.proof_counts.get_or_zero(&indicator_key, p.epoch);
                score <= u32::MAX - w && count < u32::MAX
            },
        }
    }

    /// Handles one submission: decodes it, verifies its proof against the
    /// relay's key, and records it (see `record_verified`).
    pub fn submit_observation(&mut self, req: &SubmitObservationRequest) -> (r: SubmitObservationResponse)
        requires
            old(self).wf(),
            room_for_request(old(self)@, req@),
        ensures
            final(self).wf(),
            (final(self)@, r@) == submit_spec(old(self)@, req@),
    {
        match parse_submission(req) {
            Err(m) => rejected(m.as_str()),
            Ok(p) => {
                let inputs = public_inputs(&p);
                let verdict = groth16_verify(&self.vk, &inputs, &p.proof);
                self.record_verified(&p, verdict)
            },
        }
    }

    /// Records a decoded submission given what verifying its proof gave.
    pub fn record_verified(&mut self, p: &ParsedSubmission, verdict: Option<bool>) -> (r: SubmitObservationResponse)
        requires
            old(self).wf(),
            room_for(old(self)@, p@),
            p.wf(),
        ensures
            final(self).wf(),
            (final(self)@, r@) == after_verdict(old(self)@, p@, verdict),
    {
        match verdict {
            None => {
                proof { reveal_strlit("proof verification errored (malformed proof)"); }
                return rejected("proof verification errored (malformed proof)");
            },
            Some(ok) => {
                if !ok {
                    proof { reveal_strlit("proof does not verify against this relay's verifying key"); }
                    return rejected("proof does not verify against this relay's verifying key");
                }
            },
        }
        match &p.indicator {
            Some(raw) => {
                let h = indicator_hash_from_raw(raw.as_str());
                if !h.equals(&p.indicator_hash) {
                    proof { reveal_strlit("disclosed indicator does not hash to the proven indicator_hash"); }
                    return rejected("disclosed indicator does not hash to the proven indicator_hash");
                }
            },
            None => {},
        }
        let indicator_key = fr_to_hex(&p.indicator_hash);
        let nullifier_key = fr_to_hex(&p.nullifier);
        let credential_root_key = fr_to_hex(&p.credential_root);
        let tier = if self.trusted_credential_roots.contains(&credential_root_key) { p.min_tier } else { 0 };
        let observation = VerifiedObservation {
            indicator_hash: indicator_key.clone(),
            epoch: p.epoch,
            nullifier: nullifier_key,
            tier,
        };
        let ghost o = observation@;
        let batch = vec![observation];
        proof {
            assert(views(batch@) =~= seq![o]);
            lemma_single(o, self@.seen, self@.weights);
            assert forall|k: ScoreKey| #[trigger] score_of(accumulate_spec(views(batch@), self@.seen, self@.weights).scores, k)
                <= u32::MAX by {}
        }
        let result = accumulate(batch.as_slice(), &mut self.seen_nullifiers, &self.weights);
        if result.rejected_replays.len() > 0 {
            proof {
                reveal_strlit("nullifier already seen — this observation was already counted");
            }
            return rejected("nullifier already seen — this observation was already counted");
        }
        let delta = result.scores.get_or_zero(&indicator_key, p.epoch);
        let ghost k = key_of(p@);
        proof {
            let st = step(start(old(self)@.seen), o, old(self)@.weights);
            assert(views(result.rejected_replays@).len() == 0);
            assert(!old(self)@.seen.contains(o.nullifier));
            assert(o.tier == trusted_tier(old(self)@, p@));
            assert((o.indicator_hash, o.epoch) == k);
            assert(st.scores == Map::<ScoreKey, nat>::empty().insert(k, tier_weight(old(self)@.weights, o.tier)));
            assert(table_scores(result.scores@).contains_key(k));
            assert(result.scores@.contains_key(k));
            assert(table_scores(result.scores@)[k] == result.scores@[k] as nat);
            assert(table_scores(result.scores@)[k] == tier_weight(old(self)@.weights, o.tier));
            assert(delta == result.scores@[k]);
            assert(delta == tier_weight(old(self)@.weights, trusted_tier(old(self)@, p@)));
        }
        self.scores.add(&indicator_key, p.epoch, delta);
        self.proof_counts.add(&indicator_key, p.epoch, 1);
        match &p.indicator {
            Some(raw) => {
                self.disclosed_indicators.insert_if_absent(indicator_key.clone(), raw.clone());
            },
            None => {},
        }
        let score = self.scores.get_or_zero(&indicator_key, p.epoch);
        proof {
            assert(self@.scores =~= accepted_state(old(self)@, p@).scores);
            assert(self@.proof_counts =~= accepted_state(old(self)@, p@).proof_counts);
            assert(self@.disclosed =~= accepted_state(old(self)@, p@).disclosed);
            assert(self@.seen =~= accepted_state(old(self)@, p@).seen);
            assert(self.scores@.dom() =~= self.proof_counts@.dom());
        }
        SubmitObservationResponse { accepted: true, reason: None, score: Some(score) }
    }

    /// Score and proof count kept for `(indicator_hash, epoch)`, 0 when none;
    /// the indicator hash is taken as given.
    pub fn get_score(&self, indicator_hash: &str, epoch: u64) -> (r: ScoreResponse)
        requires
            self.wf(),
        ensures
            r.indicator_hash@ == indicator_hash@,
            r.epoch == epoch,
            r.score as nat == count_of(self@.scores, (indicator_hash@, epoch)),
            r.proof_count as nat == count_of(self@.proof_counts, (indicator_hash@, epoch)),
    {
        let key = make_string(indicator_hash);
        let score = self.scores.get_or_zero(&key, epoch);
        let proof_count = self.proof_counts.get_or_zero(&key, epoch);
        ScoreResponse { indicator_hash: key, epoch, score, proof_count }
    }

    /// The disclosed observations whose score reaches `threshold`, in the
    /// order their keys were first scored.
    pub fn export_inputs(&self, threshold: u32) -> (v: Vec<StixIndicatorInput>)
        requires
            self.wf(),
        ensures
            input_views(v@) == export_inputs_spec(self@, self@.order, threshold),
    {
        let n = self.scores.len();
        let ghost order = self.scores.keys();
        let mut out: Vec<StixIndicatorInput> = Vec::new();
        let mut i: usize = 0;
        proof {
            assert(input_views(out@) =~= export_inputs_spec(self@, order.take(0), threshold));
        }
        while i < n
            invariant
                self.wf(),
                order == self.scores.keys(),
                n == order.len(),
                i <= n,
                input_views(out@) == export_inputs_spec(self@, order.take(i as int), threshold),
            decreases n - i,
        {
            let key = self.scores.key_at(i);
            let ghost k = order[i as int];
            proof {
                let t = order.take(i + 1);
                assert(t.drop_last() =~= order.take(i as int));
                assert(t.last() == k);
            }
            let sc = self.scores.get_or_zero(&key.0, key.1);
            match self.disclosed_indicators.get(&key.0) {
                Some(raw) => {
                    if sc >= threshold {
                        let pc = self.proof_counts.get_or_zero(&key.0, key.1);
                        let input = StixIndicatorInput {
                            raw_indicator: raw.clone(),
                            epoch: key.1,
                            score: sc,
                            proof_count: pc,
                        };
                        let ghost before = input_views(out@);
                        out.push(input);
                        proof { assert(input_views(out@) =~= before.push(input@)); }
                    }
                },
                None => {},
            }
            i = i + 1;
        }
        proof { assert(order.take(n as int) =~= order); }
        out
    }

    /// STIX bundle of the disclosed observations whose score reaches `threshold`.
    pub fn export_stix(&self, threshold: u32) -> (b: StixBundle)
        requires
            self.wf(),
        ensures
            b.id@ == "bundle--"@ + uuid_like(self@.relay_id, "bundle"@, 0, 0),
            b.bundle_type@ == "bundle"@,
            object_views(b.objects@) == stix_objects_spec(
                export_inputs_spec(self@, self@.order, threshold), self@.full, self@.relay_id),
    {
        let inputs = self.export_inputs(threshold);
        build_stix_bundle(inputs.as_slice(), self.score_for_full_confidence, self.relay_id.as_str())
    }

    /// MISP event of the disclosed observations whose score reaches
    /// `threshold`, marking `to_ids` from `to_ids_confidence_threshold`.
    pub fn export_misp(&self, threshold: u32, to_ids_confidence_threshold: u8) -> (e: MispEvent)
        requires
            self.wf(),
        ensures
            e.info@ == event_info(),
            e.threat_level_id@ == "3"@,
            e.analysis@ == "0"@,
            e.distribution@ == "0"@,
            e.date@ == event_date_spec(export_inputs_spec(self@, self@.order, threshold)),
            e.objects@.map_values(|o: MispObject| o@) == misp_objects_spec(
                export_inputs_spec(self@, self@.order, threshold), self@.full, to_ids_confidence_threshold,
                self@.relay_id),
    {
        let inputs = self.export_inputs(threshold);
        proof { reveal_strlit("Umbra Exchange relay export"); }
        build_misp_event(
            inputs.as_slice(),
            self.score_for_full_confidence,
            to_ids_confidence_threshold,
            self.relay_id.as_str(),
            "Umbra Exchange relay export",
        )
    }
}


// ---------------------------------------------------------------------------
// Laws

/// A refused submission leaves the relay's state as it was.
pub proof fn law_refusal_changes_nothing(s: RelayView, req: RequestView)
    ensures
        !submit_spec(s, req).1.accepted ==> submit_spec(s, req).0 == s,
{
}

/// Submitting the same request again after it was accepted is refused as a
/// replay, and changes nothing: a replay never inflates a score.
pub proof fn law_replay_is_refused(s: RelayView, req: RequestView)
    requires
        submit_spec(s, req).1.accepted,
    ensures
        submit_spec(submit_spec(s, req).0, req).1 == rejection(msg_replay()),
        submit_spec(submit_spec(s, req).0, req).0 == submit_spec(s, req).0,
{
    let p = parse_spec(req)->Ok_0;
    let s2 = submit_spec(s, req).0;
    assert(s2.seen.contains(hex_of_bytes(p.nullifier)));
}

/// An accepted submission adds the weight of its trusted tier to its key's
/// score and one to its proof count, records its nullifier as seen, and
/// answers with the new score; a
/// claimed tier is only trusted for an allowlisted credential root, so any
/// other submission adds the tier-0 weight.
pub proof fn law_accepted_adds_trusted_weight(s: RelayView, req: RequestView)
    requires
        room_for_request(s, req),
        submit_spec(s, req).1.accepted,
    ensures
        ({
            let p = parse_spec(req)->Ok_0;
            let s2 = submit_spec(s, req).0;
            let k = key_of(p);
            &&& parse_spec(req) is Ok
            &&& groth16_verdict(s.vk, public_input_values(p), p.proof) == Some(true)
            &&& count_of(s2.scores, k) == count_of(s.scores, k) + tier_weight(s.weights, trusted_tier(s, p))
            &&& count_of(s2.proof_counts, k) == count_of(s.proof_counts, k) + 1
            &&& submit_spec(s, req).1.score == Some(s2.scores[k])
            &&& s2.seen == s.seen.insert(hex_of_bytes(p.nullifier))
            &&& !s.trusted.contains(hex_of_bytes(p.credential_root))
                ==> count_of(s2.scores, k) == count_of(s.scores, k) + tier_weight(s.weights, 0)
        }),
{
}

/// Scores and proof counts of other keys, seen nullifiers, and earlier
/// disclosures are kept by every submission: disclosure is never retracted.
pub proof fn law_submission_keeps_the_past(s: RelayView, req: RequestView)
    ensures
        ({
            let s2 = submit_spec(s, req).0;
            &&& s.seen.subset_of(s2.seen)
            &&& forall|d: Seq<char>| #[trigger] s.disclosed.contains_key(d)
                ==> s2.disclosed.contains_key(d) && s2.disclosed[d] == s.disclosed[d]
            &&& forall|k: ScoreKey| #[trigger] s.scores.contains_key(k) ==> s2.scores.contains_key(k)
        }),
{
}

/// A submission whose disclosed indicator does not hash to the proven
/// indicator hash is refused as a whole: nothing is scored or disclosed.
pub proof fn law_mismatched_disclosure_is_refused(s: RelayView, req: RequestView)
    requires
        parse_spec(req) is Ok,
        !disclosure_matches(parse_spec(req)->Ok_0),
    ensures
        !submit_spec(s, req).1.accepted,
        submit_spec(s, req).0 == s,
{
}

/// Every exported observation is a disclosed indicator, with its raw text as
/// disclosed, its kept score (which reaches the threshold) and proof count.
pub proof fn law_export_only_disclosed(s: RelayView, order: Seq<ScoreKey>, threshold: u32, i: int)
    requires
        0 <= i < export_inputs_spec(s, order, threshold).len(),
    ensures
        ({
            let x = export_inputs_spec(s, order, threshold)[i];
            exists|k: ScoreKey| #[trigger] order.contains(k) && k.1 == x.epoch && s.disclosed.contains_key(k.0)
                && x.raw_indicator == s.disclosed[k.0] && x.score >= threshold
                && x.score as nat == count_of(s.scores, k) && x.proof_count as nat == count_of(s.proof_counts, k)
        }),
    decreases order.len(),
{
    let rest = export_inputs_spec(s, order.drop_last(), threshold);
    if i < rest.len() {
        law_export_only_disclosed(s, order.drop_last(), threshold, i);
        let x = rest[i];
        let k = choose|k: ScoreKey| #[trigger] order.drop_last().contains(k) && k.1 == x.epoch
            && s.disclosed.contains_key(k.0) && x.raw_indicator == s.disclosed[k.0] && x.score >= threshold
            && x.score as nat == count_of(s.scores, k) && x.proof_count as nat == count_of(s.proof_counts, k);
        let j = choose|j: int| 0 <= j < order.drop_last().len() && order.drop_last()[j] == k;
        assert(order[j] == k);
        assert(order.contains(k));
    } else {
        let k = order.last();
        assert(order[order.len() - 1] == k);
        assert(order.contains(k));
        assert(count_of(s.scores, k) <= u32::MAX) by {
            if s.scores.contains_key(k) {}
        }
        assert(count_of(s.proof_counts, k) <= u32::MAX) by {
            if s.proof_counts.contains_key(k) {}
        }
    }
}

/// The keys of `order` that qualify for export at `threshold`: their
/// indicator was disclosed and their score reaches it.
pub open spec fn qualifying_keys(s: RelayView, order: Seq<ScoreKey>, threshold: u32) -> Seq<ScoreKey> {
    order.filter(|k: ScoreKey| s.disclosed.contains_key(k.0) && count_of(s.scores, k) >= threshold)
}

/// What exporting key `k` gives: the raw indicator as disclosed, the
/// epoch, the kept score and the proof count.
pub open spec fn export_input_for(s: RelayView, k: ScoreKey) -> StixInputView {
    StixInputView {
        raw_indicator: s.disclosed[k.0],
        epoch: k.1,
        score: count_of(s.scores, k) as u32,
        proof_count: count_of(s.proof_counts, k) as u32,
    }
}

/// The export is exactly the qualifying keys, in key order, each giving one
/// entry: nothing qualifying is left out, nothing else is put in.
pub proof fn law_export_is_the_qualifying_keys(s: RelayView, order: Seq<ScoreKey>, threshold: u32)
    ensures
        export_inputs_spec(s, order, threshold)
            == qualifying_keys(s, order, threshold).map_values(|k: ScoreKey| export_input_for(s, k)),
        export_inputs_spec(s, order, threshold).len() == qualifying_keys(s, order, threshold).len(),
    decreases order.len(),
{
    reveal(Seq::filter);
    let f = |k: ScoreKey| export_input_for(s, k);
    if order.len() == 0 {
        assert(qualifying_keys(s, order, threshold) =~= Seq::<ScoreKey>::empty());
        assert(export_inputs_spec(s, order, threshold) =~= qualifying_keys(s, order, threshold).map_values(f));
    } else {
        law_export_is_the_qualifying_keys(s, order.drop_last(), threshold);
        let q = qualifying_keys(s, order.drop_last(), threshold);
        let k = order.last();
        if count_of(s.scores, k) >= threshold && s.disclosed.contains_key(k.0) {
            assert(qualifying_keys(s, order, threshold) == q.push(k));
            assert(q.push(k).map_values(f) =~= q.map_values(f).push(f(k)));
        } else {
            assert(qualifying_keys(s, order, threshold) == q);
        }
    }
}

/// Every key of `order` whose indicator was disclosed and whose score
/// reaches `threshold` is exported, with its disclosed raw indicator, its
/// epoch and its score.
pub proof fn law_export_complete(s: RelayView, order: Seq<ScoreKey>, threshold: u32, j: int)
    requires
        0 <= j < order.len(),
        s.disclosed.contains_key(order[j].0),
        count_of(s.scores, order[j]) >= threshold,
    ensures
        exists|i: int| 0 <= i < export_inputs_spec(s, order, threshold).len()
            && (#[trigger] export_inputs_spec(s, order, threshold)[i]).raw_indicator == s.disclosed[order[j].0]
            && export_inputs_spec(s, order, threshold)[i].epoch == order[j].1
            && export_inputs_spec(s, order, threshold)[i].score as nat == count_of(s.scores, order[j]),
    decreases order.len(),
{
    let e = export_inputs_spec(s, order, threshold);
    let rest = export_inputs_spec(s, order.drop_last(), threshold);
    let k = order[j];
    assert(count_of(s.scores, k) <= u32::MAX) by {
        if s.scores.contains_key(k) {}
    }
    if j < order.len() - 1 {
        law_export_complete(s, order.drop_last(), threshold, j);
        assert(order.drop_last()[j] == k);
        let i = choose|i: int| 0 <= i < rest.len()
            && (#[trigger] rest[i]).raw_indicator == s.disclosed[k.0]
            && rest[i].epoch == k.1
            && rest[i].score as nat == count_of(s.scores, k);
        assert(e[i] == rest[i]);
    } else {
        assert(order.last() == k);
        assert(e[rest.len() as int] == e.last());
    }
}

} // verus!
