//! MISP event export: one custom `umbra-observation` object per disclosed
//! indicator, grouping the indicator attribute with its proof count and
//! relay id. The object and attribute names are provisional: this is not a
//! registered community template.

use vstd::prelude::*;
use crate::text::{push_str, push_digits, decimal, make_string};
use crate::indicator_kind::{IndicatorKind, classify, classify_spec};
use crate::stix::{
    StixIndicatorInput, StixInputView, input_views, validity_window, epoch_validity_window, window_fits,
    normalize_confidence, confidence_spec, epoch_date, valid_date,
};

verus! {

/// MISP attribute `type` and `category` for an indicator kind.
pub open spec fn misp_type_spec(kind: IndicatorKind) -> (Seq<char>, Seq<char>) {
    match kind {
        IndicatorKind::Md5 => ("md5"@, "Payload delivery"@),
        IndicatorKind::Sha1 => ("sha1"@, "Payload delivery"@),
        IndicatorKind::Sha256 => ("sha256"@, "Payload delivery"@),
        IndicatorKind::Ipv4 => ("ip-dst"@, "Network activity"@),
        IndicatorKind::Ipv6 => ("ip-dst"@, "Network activity"@),
        IndicatorKind::Url => ("url"@, "Network activity"@),
        IndicatorKind::Domain => ("domain"@, "Network activity"@),
        IndicatorKind::Unrecognized => ("text"@, "Other"@),
    }
}

/// MISP attribute `type` and `category` for a given indicator kind: hashes
/// are payload delivery, network observables network activity, anything
/// unrecognized generic text.
pub fn misp_type_and_category(kind: IndicatorKind) -> (r: (&'static str, &'static str))
    ensures
        (r.0@, r.1@) == misp_type_spec(kind),
{
    match kind {
        IndicatorKind::Md5 => ("md5", "Payload delivery"),
        IndicatorKind::Sha1 => ("sha1", "Payload delivery"),
        IndicatorKind::Sha256 => ("sha256", "Payload delivery"),
        IndicatorKind::Ipv4 => ("ip-dst", "Network activity"),
        IndicatorKind::Ipv6 => ("ip-dst", "Network activity"),
        IndicatorKind::Url => ("url", "Network activity"),
        IndicatorKind::Domain => ("domain", "Network activity"),
        IndicatorKind::Unrecognized => ("text", "Other"),
    }
}

/// Each recognized kind is exported under the MISP type of that kind: file
/// hashes as `md5`, `sha1` and `sha256` in "Payload delivery", addresses as
/// `ip-dst`, URLs as `url` and domains as `domain` in "Network activity";
/// anything else as generic `text` in "Other".
pub proof fn law_misp_type_names_the_kind()
    ensures
        misp_type_spec(IndicatorKind::Md5) == ("md5"@, "Payload delivery"@),
        misp_type_spec(IndicatorKind::Sha1) == ("sha1"@, "Payload delivery"@),
        misp_type_spec(IndicatorKind::Sha256) == ("sha256"@, "Payload delivery"@),
        misp_type_spec(IndicatorKind::Ipv4) == ("ip-dst"@, "Network activity"@),
        misp_type_spec(IndicatorKind::Ipv6) == ("ip-dst"@, "Network activity"@),
        misp_type_spec(IndicatorKind::Url) == ("url"@, "Network activity"@),
        misp_type_spec(IndicatorKind::Domain) == ("domain"@, "Network activity"@),
        misp_type_spec(IndicatorKind::Unrecognized) == ("text"@, "Other"@),
{
}

/// Whether an attribute is confident enough for automated intrusion
/// detection: its confidence reaches the threshold.
pub fn to_ids_for_confidence(confidence: u8, to_ids_confidence_threshold: u8) -> (b: bool)
    ensures
        b == (confidence >= to_ids_confidence_threshold),
{
    confidence >= to_ids_confidence_threshold
}

/// One MISP attribute. `object_relation` and `comment` are absent where the
/// attribute has none.
#[derive(Debug, Clone)]
pub struct MispAttribute {
    pub attr_type: String,
    pub category: String,
    pub object_relation: Option<String>,
    pub value: String,
    pub to_ids: bool,
    pub comment: Option<String>,
}

/// One `umbra-observation` MISP object.
#[derive(Debug, Clone)]
pub struct MispObject {
    pub name: String,
    pub meta_category: String,
    pub description: String,
    pub attributes: Vec<MispAttribute>,
    pub first_seen: String,
}

/// A MISP event.
#[derive(Debug, Clone)]
pub struct MispEvent {
    pub info: String,
    pub threat_level_id: String,
    pub analysis: String,
    pub distribution: String,
    pub date: String,
    pub objects: Vec<MispObject>,
}

pub struct MispAttributeView {
    pub attr_type: Seq<char>,
    pub category: Seq<char>,
    pub object_relation: Option<Seq<char>>,
    pub value: Seq<char>,
    pub to_ids: bool,
    pub comment: Option<Seq<char>>,
}

pub open spec fn opt_view(o: Option<String>) -> Option<Seq<char>> {
    match o {
        Some(s) => Some(s@),
        None => None,
    }
}

impl View for MispAttribute {
    type V = MispAttributeView;

    open spec fn view(&self) -> MispAttributeView {
        MispAttributeView {
            attr_type: self.attr_type@,
            category: self.category@,
            object_relation: opt_view(self.object_relation),
            value: self.value@,
            to_ids: self.to_ids,
            comment: opt_view(self.comment),
        }
    }
}

pub struct MispObjectView {
    pub name: Seq<char>,
    pub meta_category: Seq<char>,
    pub description: Seq<char>,
    pub attributes: Seq<MispAttributeView>,
    pub first_seen: Seq<char>,
}

impl View for MispObject {
    type V = MispObjectView;

    open spec fn view(&self) -> MispObjectView {
        MispObjectView {
            name: self.name@,
            meta_category: self.meta_category@,
            description: self.description@,
            attributes: self.attributes@.map_values(|a: MispAttribute| a@),
            first_seen: self.first_seen@,
        }
    }
}

/// The description every `umbra-observation` object carries.
pub open spec fn object_description() -> Seq<char> {
    "One Umbra Exchange disclosed indicator, with its zero-knowledge-verified provenance."@
}

/// The object exported for one input, if its epoch is a valid date.
pub open spec fn misp_object_spec(input: StixInputView, full: u32, threshold: u8, relay_id: Seq<char>) -> Option<MispObjectView> {
    match validity_window(input.epoch) {
        None => None,
        Some(w) => {
            let confidence = confidence_spec(input.score, full);
            let t = misp_type_spec(classify_spec(input.raw_indicator));
            Some(MispObjectView {
                name: "umbra-observation"@,
                meta_category: "network"@,
                description: object_description(),
                attributes: seq![
                    MispAttributeView {
                        attr_type: t.0,
                        category: t.1,
                        object_relation: None,
                        value: input.raw_indicator,
                        to_ids: confidence >= threshold,
                        comment: Some("confidence "@ + decimal(confidence as nat, 0) + "/100"@),
                    },
                    MispAttributeView {
                        attr_type: "counter"@,
                        category: "Other"@,
                        object_relation: Some("proof-count"@),
                        value: decimal(input.proof_count as nat, 0),
                        to_ids: false,
                        comment: None,
                    },
                    MispAttributeView {
                        attr_type: "text"@,
                        category: "Other"@,
                        object_relation: Some("relay-id"@),
                        value: relay_id,
                        to_ids: false,
                        comment: None,
                    },
                ],
                first_seen: w.0,
            })
        },
    }
}

/// One object per input with a valid epoch, in input order.
pub open spec fn misp_objects_spec(inputs: Seq<StixInputView>, full: u32, threshold: u8, relay_id: Seq<char>) -> Seq<MispObjectView>
    decreases inputs.len(),
{
    if inputs.len() == 0 {
        Seq::empty()
    } else {
        let prev = misp_objects_spec(inputs.drop_last(), full, threshold, relay_id);
        match misp_object_spec(inputs.last(), full, threshold, relay_id) {
            Some(o) => prev.push(o),
            None => prev,
        }
    }
}

/// The event date: `YYYY-MM-DD` of the first input's epoch, or empty when
/// there is no input or its epoch has no validity window.
pub open spec fn event_date_spec(inputs: Seq<StixInputView>) -> Seq<char> {
    if inputs.len() > 0 && window_fits(epoch_date(inputs[0].epoch)) {
        let d = epoch_date(inputs[0].epoch);
        decimal(d.0, 4) + "-"@ + decimal(d.1, 2) + "-"@ + decimal(d.2, 2)
    } else {
        Seq::empty()
    }
}

fn misp_object_for(input: &StixIndicatorInput, full: u32, threshold: u8, relay_id: &str) -> (r: Option<MispObject>)
    ensures
        match r {
            Some(o) => misp_object_spec(input@, full, threshold, relay_id@) == Some(o@),
            None => misp_object_spec(input@, full, threshold, relay_id@) is None,
        },
{
    match epoch_validity_window(input.epoch) {
        None => None,
        Some((date, _)) => {
            let confidence = normalize_confidence(input.score, full);
            let kind = classify(input.raw_indicator.as_str());
            let (misp_type, category) = misp_type_and_category(kind);
            let to_ids = to_ids_for_confidence(confidence, threshold);
            let mut comment = make_string("confidence ");
            push_digits(&mut comment, confidence as u64, 10, 0);
            push_str(&mut comment, "/100");
            let mut count = String::new();
            push_digits(&mut count, input.proof_count as u64, 10, 0);
            let indicator = MispAttribute {
                attr_type: make_string(misp_type),
                category: make_string(category),
                object_relation: None,
                value: input.raw_indicator.clone(),
                to_ids,
                comment: Some(comment),
            };
            let proof_count = MispAttribute {
                attr_type: make_string("counter"),
                category: make_string("Other"),
                object_relation: Some(make_string("proof-count")),
                value: count,
                to_ids: false,
                comment: None,
            };
            let relay = MispAttribute {
                attr_type: make_string("text"),
                category: make_string("Other"),
                object_relation: Some(make_string("relay-id")),
                value: make_string(relay_id),
                to_ids: false,
                comment: None,
            };
            let mut attributes: Vec<MispAttribute> = Vec::new();
            attributes.push(indicator);
            attributes.push(proof_count);
            attributes.push(relay);
            let obj = MispObject {
                name: make_string("umbra-observation"),
                meta_category: make_string("network"),
                description: make_string("One Umbra Exchange disclosed indicator, with its zero-knowledge-verified provenance."),
                attributes,
                first_seen: date,
            };
            proof {
                let spec = misp_object_spec(input@, full, threshold, relay_id@);
                assert(Seq::<char>::empty() + decimal(input.proof_count as nat, 0) =~= decimal(input.proof_count as nat, 0));
                assert(obj@.attributes =~= spec->0.attributes);
            }
            Some(obj)
        },
    }
}

/// Builds a MISP event from disclosed, scored observations (the same input
/// as the STIX export). Field mapping and the `to_ids` decision happen here;
/// filtering by score is the caller's job. Inputs whose epoch is not a
/// `YYYYMMDD` date are skipped.
pub fn build_misp_event(
    inputs: &[StixIndicatorInput],
    score_for_full_confidence: u32,
    to_ids_confidence_threshold: u8,
    relay_id: &str,
    event_info: &str,
) -> (e: MispEvent)
    ensures
        e.info@ == event_info@,
        e.threat_level_id@ == "3"@,
        e.analysis@ == "0"@,
        e.distribution@ == "0"@,
        e.date@ == event_date_spec(input_views(inputs@)),
        e.objects@.map_values(|o: MispObject| o@)
            == misp_objects_spec(input_views(inputs@), score_for_full_confidence, to_ids_confidence_threshold, relay_id@),
{
    let ghost ins = input_views(inputs@);
    let mut objects: Vec<MispObject> = Vec::new();
    let mut i: usize = 0;
    proof {
        assert(objects@.map_values(|o: MispObject| o@) =~= misp_objects_spec(ins.take(0), score_for_full_confidence, to_ids_confidence_threshold, relay_id@));
    }
    while i < inputs.len()
        invariant
            i <= inputs@.len(),
            ins == input_views(inputs@),
            objects@.map_values(|o: MispObject| o@)
                == misp_objects_spec(ins.take(i as int), score_for_full_confidence, to_ids_confidence_threshold, relay_id@),
        decreases inputs@.len() - i,
    {
        proof {
            let t = ins.take(i + 1);
            assert(t.drop_last() =~= ins.take(i as int));
            assert(t.last() == inputs@[i as int]@);
        }
        match misp_object_for(&inputs[i], score_for_full_confidence, to_ids_confidence_threshold, relay_id) {
            None => {},
            Some(obj) => {
                let ghost before = objects@.map_values(|o: MispObject| o@);
                objects.push(obj);
                proof { assert(objects@.map_values(|o: MispObject| o@) =~= before.push(obj@)); }
            },
        }
        i = i + 1;
    }
    proof { assert(ins.take(inputs@.len() as int) =~= ins); }
    let mut date = String::new();
    if inputs.len() > 0 {
        if let Some(_) = epoch_validity_window(inputs[0].epoch) {
            let epoch = inputs[0].epoch;
            push_digits(&mut date, epoch / 10_000, 10, 4);
            push_str(&mut date, "-");
            push_digits(&mut date, (epoch / 100) % 100, 10, 2);
            push_str(&mut date, "-");
            push_digits(&mut date, epoch % 100, 10, 2);
            proof {
                assert(date@ =~= event_date_spec(ins));
            }
        }
    }
    proof {
        if !(inputs@.len() > 0 && window_fits(epoch_date(inputs@[0].epoch))) {
            assert(date@ =~= event_date_spec(ins));
        }
    }
    MispEvent {
        info: make_string(event_info),
        threat_level_id: make_string("3"),
        analysis: make_string("0"),
        distribution: make_string("0"),
        date,
        objects,
    }
}

} // verus!
