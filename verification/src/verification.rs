//! The decisions of verification: which claims the engine is run on, which
//! wire is evaluated next, and whether the proof is accepted.
//!
//! The verification engine and the evaluation of a wire's polynomial are the
//! caller's. The caller hands over what they return, one event at a time,
//! and does what the state asks for next. Every fault ends in a rejection.

use crate::circuit::INPUT_WIRES;
use crate::claim::{claims_view, values_of, ClaimView, EvalClaim};
use crate::field::FieldElement;
use crate::serialization::{
    decode_claims, deserialize_eval_claims, records_view, Entry, EntryView,
};
use vstd::prelude::*;
use vstd::slice::slice_to_vec;

verus! {

/// The verification engine could not make its way through the proof.
#[derive(Debug)]
pub struct EngineFault;

/// One comparison that verification owes: the wire's polynomial, evaluated
/// at `point`, must give `expected`.
pub struct CheckView {
    pub wire: int,
    pub point: Seq<nat>,
    pub expected: nat,
}

/// The comparison that a claim on a wire asks for.
pub open spec fn check_of(wire: usize, claim: ClaimView) -> CheckView {
    CheckView { wire: wire as int, point: claim.point, expected: claim.value }
}

/// The comparisons that the claims on one wire ask for, in order.
pub open spec fn wire_checks(wire: usize, claims: Seq<ClaimView>) -> Seq<CheckView> {
    claims.map_values(|claim: ClaimView| check_of(wire, claim))
}

/// The comparisons that lists of claims ask for when the lists are paired
/// with the wires by position: the first list with the first wire, and so
/// on.
pub open spec fn paired_checks(wires: Seq<usize>, claims: Seq<Seq<ClaimView>>) -> Seq<CheckView>
    decreases claims.len(),
{
    if claims.len() == 0 {
        Seq::empty()
    } else {
        paired_checks(wires.drop_last(), claims.drop_last()) + wire_checks(
            wires.last(),
            claims.last(),
        )
    }
}

/// A comparison can be made when its wire exists and its point has as many
/// coordinates as the wire's polynomial has variables.
pub open spec fn evaluable(check: CheckView, num_vars: Seq<usize>) -> bool {
    &&& 0 <= check.wire < num_vars.len()
    &&& check.point.len() == num_vars[check.wire]
}

/// The views of lists of claims.
pub open spec fn claim_lists_view(lists: Seq<Vec<EvalClaim>>) -> Seq<Seq<ClaimView>> {
    lists.map_values(|list: Vec<EvalClaim>| claims_view(list@))
}

/// A comparison that verification owes.
struct Check {
    wire: usize,
    point: Vec<FieldElement>,
    expected: FieldElement,
}

impl View for Check {
    type V = CheckView;

    closed spec fn view(&self) -> CheckView {
        CheckView {
            wire: self.wire as int,
            point: values_of(self.point@),
            expected: self.expected@,
        }
    }
}

spec fn checks_view(checks: Seq<Check>) -> Seq<CheckView> {
    checks.map_values(|check: Check| check@)
}

/// The comparisons of one verification and how far it has come with them.
pub struct Reconciliation {
    checks: Vec<Check>,
    next: usize,
}

impl Reconciliation {
    /// All comparisons of this verification, in order.
    pub closed spec fn checks(self) -> Seq<CheckView> {
        checks_view(self.checks@)
    }

    /// How many comparisons have been made and have agreed.
    pub closed spec fn position(self) -> int {
        self.next as int
    }

    /// One comparison is always pending.
    #[verifier::type_invariant]
    pub closed spec fn wf(self) -> bool {
        self.next < self.checks.len()
    }

    /// The wire to evaluate next.
    pub fn wire(&self) -> (wire: usize)
        ensures
            0 <= self.position() < self.checks().len(),
            wire == self.checks()[self.position()].wire,
    {
        proof {
            use_type_invariant(self);
        }
        self.checks[self.next].wire
    }

    /// The point at which to evaluate it.
    pub fn point(&self) -> (point: &[FieldElement])
        ensures
            0 <= self.position() < self.checks().len(),
            values_of(point@) == self.checks()[self.position()].point,
    {
        proof {
            use_type_invariant(self);
        }
        self.checks[self.next].point.as_slice()
    }
}

/// Where a verification stands and what it waits for.
pub enum Verification {
    /// The verification engine is to be run on these output claims.
    AwaitingEngine(Vec<EvalClaim>),
    /// A wire is to be evaluated.
    AwaitingEvaluation(Reconciliation),
    /// Verification is over; `true` where the proof passed.
    Finished(bool),
}

/// Where a verification stands, over what its field elements stand for.
pub enum VerificationView {
    AwaitingEngine(Seq<ClaimView>),
    AwaitingEvaluation { checks: Seq<CheckView>, position: int },
    Finished(bool),
}

impl View for Verification {
    type V = VerificationView;

    open spec fn view(&self) -> VerificationView {
        match *self {
            Verification::AwaitingEngine(claims) => VerificationView::AwaitingEngine(
                claims_view(claims@),
            ),
            Verification::AwaitingEvaluation(reconciliation) => {
                VerificationView::AwaitingEvaluation {
                    checks: reconciliation.checks(),
                    position: reconciliation.position(),
                }
            },
            Verification::Finished(accepted) => VerificationView::Finished(accepted),
        }
    }
}

/// The records that were read from the serialized claims, if any were.
pub open spec fn records_read(serialized_claims: Option<&Vec<Vec<Entry>>>) -> Option<
    Seq<Seq<EntryView>>,
> {
    match serialized_claims {
        Some(records) => Some(records_view(records@)),
        None => None,
    }
}

/// Where verification starts: with the output claims that the records
/// decode to, or with a rejection where nothing could be read or what was
/// read does not decode.
pub open spec fn begun(records: Option<Seq<Seq<EntryView>>>) -> VerificationView {
    match records {
        Some(records) => match decode_claims(records) {
            Ok(claims) => VerificationView::AwaitingEngine(claims),
            Err(_) => VerificationView::Finished(false),
        },
        None => VerificationView::Finished(false),
    }
}

/// Where reconciliation starts. Lists that are not as many as the wires are
/// rejected, and so is one comparison that cannot be made. With nothing to
/// compare the proof is accepted; else the first comparison is pending.
pub open spec fn reconciliation_begun(
    wires: Seq<usize>,
    num_vars: Seq<usize>,
    claims: Seq<Seq<ClaimView>>,
) -> VerificationView {
    let checks = paired_checks(wires, claims);
    if wires.len() != claims.len() {
        VerificationView::Finished(false)
    } else if !(forall|k: int| 0 <= k < checks.len() ==> evaluable(#[trigger] checks[k], num_vars)) {
        VerificationView::Finished(false)
    } else if checks.len() == 0 {
        VerificationView::Finished(true)
    } else {
        VerificationView::AwaitingEvaluation { checks, position: 0 }
    }
}

/// What the engine's return does to a verification that waits for it: a
/// fault rejects, input claims start the reconciliation with the circuit's
/// input wires. In any other state the event is out of turn and rejects.
pub open spec fn after_engine(
    state: VerificationView,
    outcome: Option<Seq<Seq<ClaimView>>>,
    num_vars: Seq<usize>,
) -> VerificationView {
    match (state, outcome) {
        (VerificationView::AwaitingEngine(_), Some(claims)) => reconciliation_begun(
            INPUT_WIRES@,
            num_vars,
            claims,
        ),
        _ => VerificationView::Finished(false),
    }
}

/// What an evaluation does to a verification that waits for it: a value
/// other than the claimed one rejects, the claimed one moves on to the next
/// comparison, and after the last the proof is accepted. In any other state
/// the event is out of turn and rejects.
pub open spec fn after_evaluation(state: VerificationView, value: nat) -> VerificationView {
    match state {
        VerificationView::AwaitingEvaluation { checks, position } => {
            if !(0 <= position < checks.len()) || value != checks[position].expected {
                VerificationView::Finished(false)
            } else if position + 1 == checks.len() {
                VerificationView::Finished(true)
            } else {
                VerificationView::AwaitingEvaluation { checks, position: position + 1 }
            }
        },
        _ => VerificationView::Finished(false),
    }
}

/// The input claims that the engine returned, if it returned any.
pub open spec fn engine_claims(outcome: Result<Vec<Vec<EvalClaim>>, EngineFault>) -> Option<
    Seq<Seq<ClaimView>>,
> {
    match outcome {
        Ok(claims) => Some(claim_lists_view(claims@)),
        Err(_) => None,
    }
}

/// Pairing one wire more adds the comparisons of its claims at the end.
pub proof fn lemma_paired_checks_step(wires: Seq<usize>, claims: Seq<Seq<ClaimView>>, i: int)
    requires
        wires.len() == claims.len(),
        0 <= i < claims.len(),
    ensures
        paired_checks(wires.take(i + 1), claims.take(i + 1)) == paired_checks(
            wires.take(i),
            claims.take(i),
        ) + wire_checks(wires[i], claims[i]),
{
    assert(wires.take(i + 1).drop_last() =~= wires.take(i));
    assert(claims.take(i + 1).drop_last() =~= claims.take(i));
    assert(wires.take(i + 1).last() == wires[i]);
    assert(claims.take(i + 1).last() == claims[i]);
}

/// Every claim of every list is among the paired comparisons, with the wire
/// at its list's position.
pub proof fn lemma_pair_is_checked(
    wires: Seq<usize>,
    claims: Seq<Seq<ClaimView>>,
    i: int,
    j: int,
) -> (k: int)
    requires
        wires.len() == claims.len(),
        0 <= i < claims.len(),
        0 <= j < claims[i].len(),
    ensures
        0 <= k < paired_checks(wires, claims).len(),
        paired_checks(wires, claims)[k] == check_of(wires[i], claims[i][j]),
    decreases claims.len(),
{
    let front = paired_checks(wires.drop_last(), claims.drop_last());
    if i == claims.len() - 1 {
        front.len() + j
    } else {
        lemma_pair_is_checked(wires.drop_last(), claims.drop_last(), i, j)
    }
}

/// Every paired comparison comes from a claim of some list, with the wire
/// at that list's position.
pub proof fn lemma_check_is_paired(wires: Seq<usize>, claims: Seq<Seq<ClaimView>>, k: int) -> (at: (
    int,
    int,
))
    requires
        wires.len() == claims.len(),
        0 <= k < paired_checks(wires, claims).len(),
    ensures
        0 <= at.0 < claims.len(),
        0 <= at.1 < claims[at.0].len(),
        paired_checks(wires, claims)[k] == check_of(wires[at.0], claims[at.0][at.1]),
    decreases claims.len(),
{
    let front = paired_checks(wires.drop_last(), claims.drop_last());
    if k < front.len() {
        lemma_check_is_paired(wires.drop_last(), claims.drop_last(), k)
    } else {
        (claims.len() - 1, k - front.len())
    }
}

impl Reconciliation {
    /// Pairs the lists of claims with the wires by position and starts on
    /// the comparisons that they ask for.
    pub fn begin(wires: &[usize], num_vars: &Vec<usize>, claims: &Vec<Vec<EvalClaim>>) -> (state:
        Verification)
        ensures
            state@ == reconciliation_begun(wires@, num_vars@, claim_lists_view(claims@)),
            wires@.len() != claims@.len() ==> state@ == VerificationView::Finished(false),
    {
        if wires.len() != claims.len() {
            return Verification::Finished(false);
        }
        let ghost lists = claim_lists_view(claims@);
        let mut checks: Vec<Check> = Vec::new();
        let mut i: usize = 0;
        assert(checks_view(checks@) =~= paired_checks(wires@.take(0), lists.take(0)));
        while i < claims.len()
            invariant
                i <= claims.len(),
                wires@.len() == claims@.len(),
                lists == claim_lists_view(claims@),
                checks_view(checks@) == paired_checks(wires@.take(i as int), lists.take(i as int)),
                forall|k: int|
                    0 <= k < checks.len() ==> evaluable(
                        #[trigger] checks_view(checks@)[k],
                        num_vars@,
                    ),
            decreases claims.len() - i,
        {
            let wire = wires[i];
            let list = &claims[i];
            let ghost front = checks_view(checks@);
            let mut j: usize = 0;
            assert(checks_view(checks@) =~= front + wire_checks(wire, lists[i as int].take(0)));
            while j < list.len()
                invariant
                    j <= list.len(),
                    i < claims.len(),
                    wires@.len() == claims@.len(),
                    lists == claim_lists_view(claims@),
                    list == &claims[i as int],
                    wire == wires[i as int],
                    checks_view(checks@) == front + wire_checks(
                        wire,
                        lists[i as int].take(j as int),
                    ),
                    forall|k: int|
                        0 <= k < checks.len() ==> evaluable(
                            #[trigger] checks_view(checks@)[k],
                            num_vars@,
                        ),
                decreases list.len() - j,
            {
                let claim = &list[j];
                let point = claim.point();
                let ghost check = check_of(wire, lists[i as int][j as int]);
                assert(check.point.len() == point@.len());
                if wire >= num_vars.len() || point.len() != num_vars[wire] {
                    proof {
                        let k = lemma_pair_is_checked(wires@, lists, i as int, j as int);
                        assert(!evaluable(paired_checks(wires@, lists)[k], num_vars@));
                    }
                    return Verification::Finished(false);
                }
                let ghost before = checks_view(checks@);
                checks.push(Check { wire, point: slice_to_vec(point), expected: claim.value() });
                proof {
                    assert(checks_view(checks@) =~= before.push(check));
                    assert(wire_checks(wire, lists[i as int].take(j as int + 1)) =~= wire_checks(
                        wire,
                        lists[i as int].take(j as int),
                    ).push(check));
                    assert(checks_view(checks@) =~= front + wire_checks(
                        wire,
                        lists[i as int].take(j as int + 1),
                    ));
                }
                j = j + 1;
            }
            proof {
                assert(lists[i as int].take(j as int) =~= lists[i as int]);
                lemma_paired_checks_step(wires@, lists, i as int);
            }
            i = i + 1;
        }
        proof {
            assert(wires@.take(i as int) =~= wires@);
            assert(lists.take(i as int) =~= lists);
        }
        if checks.len() == 0 {
            Verification::Finished(true)
        } else {
            Verification::AwaitingEvaluation(Reconciliation { checks, next: 0 })
        }
    }

    /// Takes the value that the pending wire's polynomial has at the pending
    /// point and compares it with the claimed one.
    pub fn resume(self, value: FieldElement) -> (state: Verification)
        ensures
            state@ == after_evaluation(
                VerificationView::AwaitingEvaluation {
                    checks: self.checks(),
                    position: self.position(),
                },
                value@,
            ),
    {
        proof {
            use_type_invariant(&self);
        }
        if value != self.checks[self.next].expected {
            return Verification::Finished(false);
        }
        if self.next + 1 == self.checks.len() {
            Verification::Finished(true)
        } else {
            Verification::AwaitingEvaluation(
                Reconciliation { checks: self.checks, next: self.next + 1 },
            )
        }
    }
}

impl Verification {
    /// Starts a verification from the records of the serialized output
    /// claims; `None` stands for serialized claims in which no list of
    /// records could be read. Such claims, and records that do not decode,
    /// end the verification at once, with a rejection.
    pub fn begin(serialized_claims: Option<&Vec<Vec<Entry>>>) -> (state: Verification)
        ensures
            state@ == begun(records_read(serialized_claims)),
    {
        match serialized_claims {
            Some(records) => match deserialize_eval_claims(records) {
                Ok(claims) => Verification::AwaitingEngine(claims),
                Err(_) => Verification::Finished(false),
            },
            None => Verification::Finished(false),
        }
    }

    /// Takes what the verification engine returned: the lists of input
    /// claims, one for each input wire of the circuit and in their order, or
    /// its fault. `num_vars` holds for each wire of the circuit the number
    /// of variables of its polynomial.
    pub fn engine_returned(
        self,
        outcome: Result<Vec<Vec<EvalClaim>>, EngineFault>,
        num_vars: &Vec<usize>,
    ) -> (state: Verification)
        ensures
            state@ == after_engine(self@, engine_claims(outcome), num_vars@),
    {
        match self {
            Verification::AwaitingEngine(_) => match outcome {
                Ok(claims) => {
                    let wires = INPUT_WIRES;
                    Reconciliation::begin(wires.as_slice(), num_vars, &claims)
                },
                Err(_) => Verification::Finished(false),
            },
            _ => Verification::Finished(false),
        }
    }

    /// Takes the value that the pending wire's polynomial has at the pending
    /// point.
    pub fn evaluated(self, value: FieldElement) -> (state: Verification)
        ensures
            state@ == after_evaluation(self@, value@),
    {
        match self {
            Verification::AwaitingEvaluation(reconciliation) => reconciliation.resume(value),
            _ => Verification::Finished(false),
        }
    }

    /// The verdict, once the verification has finished.
    pub fn verdict(&self) -> (verdict: Option<bool>)
        ensures
            verdict == match self@ {
                VerificationView::Finished(accepted) => Some(accepted),
                _ => None,
            },
    {
        match self {
            Verification::Finished(accepted) => Some(*accepted),
            _ => None,
        }
    }
}

/// A comparison agrees when the wire's polynomial, as `eval` gives it, takes
/// the claimed value at the claim's point.
pub open spec fn check_holds(check: CheckView, eval: spec_fn(int, Seq<nat>) -> nat) -> bool {
    eval(check.wire, check.point) == check.expected
}

/// What verification is to decide: there is one list of claims for each
/// wire, and every claim of a list can be compared with the wire at the
/// list's position and agrees with it.
pub open spec fn reconciles(
    wires: Seq<usize>,
    num_vars: Seq<usize>,
    claims: Seq<Seq<ClaimView>>,
    eval: spec_fn(int, Seq<nat>) -> nat,
) -> bool {
    &&& wires.len() == claims.len()
    &&& forall|i: int, j: int|
        0 <= i < claims.len() && 0 <= j < claims[i].len() ==> {
            let check = check_of(wires[i], #[trigger] claims[i][j]);
            evaluable(check, num_vars) && check_holds(check, eval)
        }
}

/// How many comparisons a verification still has to make.
pub open spec fn remaining(state: VerificationView) -> nat {
    match state {
        VerificationView::AwaitingEvaluation { checks, position } => {
            if 0 <= position < checks.len() {
                (checks.len() - position) as nat
            } else {
                0
            }
        },
        _ => 0,
    }
}

/// Every evaluation brings a verification nearer to its end: it asks for
/// no more evaluations than it has comparisons, and then it has finished.
pub proof fn lemma_evaluation_makes_progress(state: VerificationView, value: nat)
    requires
        state is AwaitingEvaluation,
        remaining(state) > 0,
    ensures
        remaining(after_evaluation(state, value)) < remaining(state),
        remaining(after_evaluation(state, value)) == 0 ==> after_evaluation(state, value)
            is Finished,
{
}

/// The verdict that a verification reaches when every evaluation it asks
/// for is answered by `eval`.
pub open spec fn run_evaluations(
    state: VerificationView,
    eval: spec_fn(int, Seq<nat>) -> nat,
) -> bool
    decreases remaining(state),
{
    match state {
        VerificationView::Finished(accepted) => accepted,
        VerificationView::AwaitingEngine(_) => false,
        VerificationView::AwaitingEvaluation { checks, position } => {
            if 0 <= position < checks.len() {
                run_evaluations(
                    after_evaluation(state, eval(checks[position].wire, checks[position].point)),
                    eval,
                )
            } else {
                false
            }
        },
    }
}

/// A verification that waits for an evaluation ends in acceptance exactly
/// when the pending comparison and all that follow agree.
pub proof fn lemma_run_from(
    checks: Seq<CheckView>,
    position: int,
    eval: spec_fn(int, Seq<nat>) -> nat,
)
    requires
        0 <= position < checks.len(),
    ensures
        run_evaluations(VerificationView::AwaitingEvaluation { checks, position }, eval) <==> (
        forall|k: int| position <= k < checks.len() ==> check_holds(#[trigger] checks[k], eval)),
    decreases checks.len() - position,
{
    let state = VerificationView::AwaitingEvaluation { checks, position };
    let value = eval(checks[position].wire, checks[position].point);
    let next = after_evaluation(state, value);
    let rest = forall|k: int|
        position <= k < checks.len() ==> check_holds(#[trigger] checks[k], eval);
    assert(run_evaluations(state, eval) == run_evaluations(next, eval));
    if !check_holds(checks[position], eval) {
        assert(next == VerificationView::Finished(false));
        assert(!rest);
    } else if position + 1 == checks.len() {
        assert(next == VerificationView::Finished(true));
        assert(rest);
    } else {
        lemma_run_from(checks, position + 1, eval);
        assert(next == VerificationView::AwaitingEvaluation { checks, position: position + 1 });
        if run_evaluations(next, eval) {
            assert forall|k: int| position <= k < checks.len() implies check_holds(
                #[trigger] checks[k],
                eval,
            ) by {
                if k > position {
                    assert(position + 1 <= k);
                }
            }
        }
    }
}

/// Reconciliation accepts exactly when the claims reconcile: lists that are
/// not as many as the wires, a claim that cannot be compared and a claim
/// that disagrees each end in a rejection, and nothing else does.
pub proof fn lemma_reconciliation_decides(
    wires: Seq<usize>,
    num_vars: Seq<usize>,
    claims: Seq<Seq<ClaimView>>,
    eval: spec_fn(int, Seq<nat>) -> nat,
)
    ensures
        run_evaluations(reconciliation_begun(wires, num_vars, claims), eval) <==> reconciles(
            wires,
            num_vars,
            claims,
            eval,
        ),
{
    if wires.len() == claims.len() {
        let checks = paired_checks(wires, claims);
        let all_evaluable = forall|k: int|
            0 <= k < checks.len() ==> evaluable(#[trigger] checks[k], num_vars);
        let all_hold = forall|k: int|
            0 <= k < checks.len() ==> check_holds(#[trigger] checks[k], eval);
        if checks.len() > 0 {
            lemma_run_from(checks, 0, eval);
        }
        assert(run_evaluations(reconciliation_begun(wires, num_vars, claims), eval) <==> (
        all_evaluable && all_hold));
        if reconciles(wires, num_vars, claims, eval) {
            assert forall|k: int| 0 <= k < checks.len() implies evaluable(
                #[trigger] checks[k],
                num_vars,
            ) && check_holds(checks[k], eval) by {
                let (i, j) = lemma_check_is_paired(wires, claims, k);
                assert(checks[k] == check_of(wires[i], claims[i][j]));
            }
        }
        if all_evaluable && all_hold {
            assert forall|i: int, j: int|
                0 <= i < claims.len() && 0 <= j < claims[i].len() implies {
                let check = check_of(wires[i], #[trigger] claims[i][j]);
                evaluable(check, num_vars) && check_holds(check, eval)
            } by {
                let k = lemma_pair_is_checked(wires, claims, i, j);
                assert(evaluable(checks[k], num_vars));
                assert(check_holds(checks[k], eval));
            }
        }
    }
}

/// The verdict of a whole verification, when the engine answers as `engine`
/// says and every evaluation as `eval` says.
pub open spec fn verdict_of(
    records: Option<Seq<Seq<EntryView>>>,
    num_vars: Seq<usize>,
    engine: spec_fn(Seq<ClaimView>) -> Option<Seq<Seq<ClaimView>>>,
    eval: spec_fn(int, Seq<nat>) -> nat,
) -> bool {
    match begun(records) {
        VerificationView::AwaitingEngine(output_claims) => run_evaluations(
            after_engine(begun(records), engine(output_claims), num_vars),
            eval,
        ),
        state => run_evaluations(state, eval),
    }
}

/// A verification accepts exactly when the serialized output claims were
/// read and decode, the engine returns input claims for them, and these
/// reconcile with the circuit's input wires. Every other case ends in a
/// rejection: none is left open.
pub proof fn lemma_verification_decides(
    records: Option<Seq<Seq<EntryView>>>,
    num_vars: Seq<usize>,
    engine: spec_fn(Seq<ClaimView>) -> Option<Seq<Seq<ClaimView>>>,
    eval: spec_fn(int, Seq<nat>) -> nat,
)
    ensures
        verdict_of(records, num_vars, engine, eval) <==> (records matches Some(read)
            && decode_claims(read) matches Ok(output_claims) && engine(output_claims) matches Some(
            input_claims,
        ) && reconciles(INPUT_WIRES@, num_vars, input_claims, eval)),
{
    if let Some(read) = records {
        if let Ok(output_claims) = decode_claims(read) {
            if let Some(input_claims) = engine(output_claims) {
                lemma_reconciliation_decides(INPUT_WIRES@, num_vars, input_claims, eval);
            }
        }
    }
}

/// Input claims whose lists are not as many as the wires are rejected,
/// whatever the lists hold and whatever the evaluations give.
pub proof fn lemma_unpaired_claims_rejected(
    wires: Seq<usize>,
    num_vars: Seq<usize>,
    claims: Seq<Seq<ClaimView>>,
)
    requires
        wires.len() != claims.len(),
    ensures
        reconciliation_begun(wires, num_vars, claims) == VerificationView::Finished(false),
{
}

/// One claim that disagrees with its wire is enough for a rejection,
/// wherever it stands among the input claims.
pub proof fn lemma_disagreeing_claim_rejected(
    wires: Seq<usize>,
    num_vars: Seq<usize>,
    claims: Seq<Seq<ClaimView>>,
    eval: spec_fn(int, Seq<nat>) -> nat,
    i: int,
    j: int,
)
    requires
        0 <= i < claims.len(),
        0 <= j < claims[i].len(),
        eval(wires[i] as int, claims[i][j].point) != claims[i][j].value,
    ensures
        !run_evaluations(reconciliation_begun(wires, num_vars, claims), eval),
{
    lemma_reconciliation_decides(wires, num_vars, claims, eval);
    if wires.len() == claims.len() {
        assert(!check_holds(check_of(wires[i], claims[i][j]), eval));
    }
}

} // verus!
