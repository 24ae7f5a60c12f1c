//! Upload dispatch bookkeeping: per-entity payload construction and the
//! tallying of upload outcomes. One entity's failure never affects another:
//! each outcome is recorded independently and the tally only counts.

use crate::select::AuthoredIndex;
use crate::text::{bindings_view, render, spec_render, Binding};
use crate::SeedError;
use vstd::prelude::*;

verus! {

/// What became of one entity's upload: the transport completed and the body
/// was read, the transport failed, or the body could not be read.
#[derive(Debug, Clone, Copy, PartialEq, Eq, Structural)]
pub enum UploadOutcome {
    Success,
    TransportFailed,
    BodyUnreadable,
}

impl UploadOutcome {
    pub open spec fn is_success(self) -> bool {
        self is Success
    }
}

/// The number of successful outcomes in a sequence of outcomes.
pub open spec fn success_count(outcomes: Seq<UploadOutcome>) -> nat
    decreases outcomes.len(),
{
    if outcomes.len() == 0 {
        0
    } else {
        success_count(outcomes.drop_last()) + if outcomes.last().is_success() {
            1nat
        } else {
            0nat
        }
    }
}

/// Law: the final counter value never exceeds the number of dispatched
/// entities; the deficit is the number of failed entities.
pub proof fn lemma_success_count_le_len(outcomes: Seq<UploadOutcome>)
    ensures
        success_count(outcomes) <= outcomes.len(),
    decreases outcomes.len(),
{
    if outcomes.len() > 0 {
        lemma_success_count_le_len(outcomes.drop_last());
    }
}

/// The tally equals the multiplicity of `Success` in the outcome multiset.
pub proof fn lemma_success_count_is_multiplicity(outcomes: Seq<UploadOutcome>)
    ensures
        success_count(outcomes) == outcomes.to_multiset().count(UploadOutcome::Success),
    decreases outcomes.len(),
{
    broadcast use vstd::seq_lib::group_to_multiset_ensures;

    if outcomes.len() == 0 {
        assert(outcomes.to_multiset().count(UploadOutcome::Success) == 0);
    } else {
        lemma_success_count_is_multiplicity(outcomes.drop_last());
        assert(outcomes.drop_last().push(outcomes.last()) =~= outcomes);
    }
}

/// Law: the tally does not depend on the interleaving. Outcome sequences
/// that are permutations of one another have the same success count.
pub proof fn lemma_success_count_permutation(a: Seq<UploadOutcome>, b: Seq<UploadOutcome>)
    requires
        a.to_multiset() == b.to_multiset(),
    ensures
        success_count(a) == success_count(b),
{
    lemma_success_count_is_multiplicity(a);
    lemma_success_count_is_multiplicity(b);
}

/// Counts how many entities' uploads completed successfully. Zero entities
/// tally to zero; the tally never exceeds the number dispatched.
pub fn count_successes(outcomes: &Vec<UploadOutcome>) -> (n: usize)
    ensures
        n == success_count(outcomes@),
        n <= outcomes@.len(),
{
    let mut n: usize = 0;
    let mut i: usize = 0;
    proof {
        assert(outcomes@.take(0) =~= Seq::<UploadOutcome>::empty());
    }
    while i < outcomes.len()
        invariant
            i <= outcomes@.len(),
            n == success_count(outcomes@.take(i as int)),
            n <= i,
        decreases outcomes@.len() - i,
    {
        proof {
            assert(outcomes@.take(i + 1).drop_last() =~= outcomes@.take(i as int));
            assert(outcomes@.take(i + 1).last() == outcomes@[i as int]);
        }
        if matches!(outcomes[i], UploadOutcome::Success) {
            n += 1;
        }
        i += 1;
    }
    proof {
        assert(outcomes@.take(outcomes@.len() as int) =~= outcomes@);
    }
    n
}

/// The bindings of one consent rendering: the entity's ID, the authoring
/// date, and the two freshly minted instance tokens.
pub open spec fn consent_bindings(
    id: Seq<char>,
    authored: Seq<char>,
    token_qr: Seq<char>,
    token_rs: Seq<char>,
) -> Seq<(Seq<char>, Seq<char>)> {
    seq![
        ("$PATIENT_ID"@, id),
        ("$QUESTIONNAIRE_RESPONSE_UUID"@, token_qr),
        ("$RESEARCH_STUDY_UUID"@, token_rs),
        ("$AUTHORED"@, authored),
    ]
}

/// Renders one consent payload from the template and the four per-entity
/// values. The tokens are minted by the caller, one pair per entity.
pub fn consent_payload(
    template: &str,
    id: &str,
    authored: &str,
    token_qr: &str,
    token_rs: &str,
) -> (r: String)
    ensures
        r@ == spec_render(template@, consent_bindings(id@, authored@, token_qr@, token_rs@)),
{
    let mut bindings: Vec<Binding> = Vec::new();
    bindings.push(
        Binding { name: String::from_str("$PATIENT_ID"), value: String::from_str(id) },
    );
    bindings.push(
        Binding {
            name: String::from_str("$QUESTIONNAIRE_RESPONSE_UUID"),
            value: String::from_str(token_qr),
        },
    );
    bindings.push(
        Binding {
            name: String::from_str("$RESEARCH_STUDY_UUID"),
            value: String::from_str(token_rs),
        },
    );
    bindings.push(
        Binding { name: String::from_str("$AUTHORED"), value: String::from_str(authored) },
    );
    proof {
        assert(bindings_view(bindings@) =~= consent_bindings(id@, authored@, token_qr@, token_rs@));
    }
    render(template, &bindings)
}

/// A lowercase hexadecimal digit.
pub open spec fn is_hex_lower(c: char) -> bool {
    (('0' as u32) <= (c as u32) && (c as u32) <= ('9' as u32)) || (('a' as u32) <= (c as u32) && (c
        as u32) <= ('f' as u32))
}

/// The shape of a freshly minted instance token: the hyphenated form,
/// 36 characters, hyphens at the four fixed positions, lowercase
/// hexadecimal digits elsewhere.
pub open spec fn is_token(s: Seq<char>) -> bool {
    s.len() == 36 && forall|i: int|
        0 <= i < 36 ==> (if i == 8 || i == 13 || i == 18 || i == 23 {
            s[i] == '-'
        } else {
            is_hex_lower(#[trigger] s[i])
        })
}

/// Relies on uuid::Uuid::new_v4 and its display form: whatever bits were
/// drawn, the rendering is the hyphenated lowercase-hex form.
#[verifier::external_body]
pub fn fresh_token() -> (r: String)
    ensures
        is_token(r@),
{
    uuid::Uuid::new_v4().to_string()
}

/// Renders one consent payload, minting the two instance tokens itself:
/// one pair per call, never reused across entities or runs.
pub fn fresh_consent_payload(template: &str, id: &str, authored: &str) -> (r: String)
    ensures
        exists|qa: Seq<char>, qb: Seq<char>|
            is_token(qa) && is_token(qb) && r@ == spec_render(
                template@,
                consent_bindings(id@, authored@, qa, qb),
            ),
{
    let token_qr = fresh_token();
    let token_rs = fresh_token();
    let r = consent_payload(template, id, authored, token_qr.as_str(), token_rs.as_str());
    proof {
        let qa = token_qr@;
        let qb = token_rs@;
        assert(is_token(qa) && is_token(qb) && r@ == spec_render(
            template@,
            consent_bindings(id@, authored@, qa, qb),
        ));
    }
    r
}

/// One planned consent upload: the entity and the payload to post for it.
pub struct ConsentJob {
    pub id: String,
    pub payload: String,
}

/// Plans one consent upload per requested ID. An ID the index does not
/// know yields that entity's error in its slot — a fatal lookup error for
/// that entity's upload task alone, never for its siblings.
pub fn plan_consent_uploads(template: &str, index: &AuthoredIndex, ids: &Vec<String>) -> (r: Vec<
    Result<ConsentJob, SeedError>,
>)
    requires
        index.wf(),
    ensures
        r@.len() == ids@.len(),
        forall|i: int|
            0 <= i < ids@.len() ==> match #[trigger] r@[i] {
                Ok(job) => index.has_key(ids@[i]@) && job.id@ == ids@[i]@ && exists|
                    qa: Seq<char>,
                    qb: Seq<char>,
                |
                    is_token(qa) && is_token(qb) && job.payload@ == spec_render(
                        template@,
                        consent_bindings(ids@[i]@, index.spec_date(ids@[i]@), qa, qb),
                    ),
                Err(e) => !index.has_key(ids@[i]@) && (e matches SeedError::MissingAuthoredDate(m)
                    && m@ == ids@[i]@),
            },
{
    let mut r: Vec<Result<ConsentJob, SeedError>> = Vec::new();
    let mut i: usize = 0;
    while i < ids.len()
        invariant
            i <= ids@.len(),
            index.wf(),
            r@.len() == i,
            forall|k: int|
                0 <= k < i ==> match #[trigger] r@[k] {
                    Ok(job) => index.has_key(ids@[k]@) && job.id@ == ids@[k]@ && exists|
                        qa: Seq<char>,
                        qb: Seq<char>,
                    |
                        is_token(qa) && is_token(qb) && job.payload@ == spec_render(
                            template@,
                            consent_bindings(ids@[k]@, index.spec_date(ids@[k]@), qa, qb),
                        ),
                    Err(e) => !index.has_key(ids@[k]@) && (e
                        matches SeedError::MissingAuthoredDate(m) && m@ == ids@[k]@),
                },
        decreases ids@.len() - i,
    {
        let id = &ids[i];
        match index.date_of(id) {
            Some(date) => {
                let payload = fresh_consent_payload(template, id.as_str(), date.as_str());
                r.push(Ok(ConsentJob { id: id.clone(), payload }));
            },
            None => {
                r.push(Err(SeedError::MissingAuthoredDate(id.clone())));
            },
        }
        i += 1;
    }
    r
}

/// The file name a record payload is stored under: the entity's ID followed
/// by the `.json` suffix.
pub fn record_file_name(id: &str) -> (r: String)
    ensures
        r@ == id@ + ".json"@,
{
    let mut r = String::from_str(id);
    r.append(".json");
    r
}

} // verus!
