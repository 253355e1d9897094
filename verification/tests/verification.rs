use gkr_claims::circuit::{INPUT_WIRES, NUM_BITS, NUM_REPS, OUTPUT_WIRE};
use gkr_claims::claim::EvalClaim;
use gkr_claims::derivation::ClaimDerivation;
use gkr_claims::field::FieldElement;
use gkr_claims::serialization::{serialize_eval_claims, Entry};
use gkr_claims::verification::{EngineFault, Reconciliation, Verification};
use halo2curves::bn256::Fr;
use halo2curves::ff::{Field, PrimeField};
use rand::rngs::StdRng;
use rand::SeedableRng;

fn to_fr(element: &FieldElement) -> Fr {
    Fr::from_repr(element.to_repr()).unwrap()
}

fn from_fr(fr: &Fr) -> FieldElement {
    FieldElement::from_repr(fr.to_repr()).unwrap()
}

/// A stand-in for the circuit's value assignment: for each wire the values
/// of its polynomial on the boolean hypercube.
struct Wires(Vec<Vec<Fr>>);

impl Wires {
    /// 101 wires of two variables each, with values made from the input.
    fn build(input: &[u8]) -> Wires {
        let seed = input.iter().fold(1u64, |acc, byte| acc.wrapping_mul(31) + *byte as u64);
        Wires(
            (0..101u64)
                .map(|wire| (0..4u64).map(|k| Fr::from(seed + 7 * wire + k * k)).collect())
                .collect(),
        )
    }

    fn num_vars(&self) -> Vec<usize> {
        self.0.iter().map(|values| values.len().trailing_zeros() as usize).collect()
    }

    /// The multilinear extension of the wire's values, at the point.
    fn evaluate(&self, wire: usize, point: &[FieldElement]) -> FieldElement {
        let mut values = self.0[wire].clone();
        for x in point {
            let x = to_fr(x);
            values = values.chunks(2).map(|pair| pair[0] + x * (pair[1] - pair[0])).collect();
        }
        assert_eq!(values.len(), 1);
        from_fr(&values[0])
    }

    /// What a verification engine would return: for each wire of the table
    /// as many true claims as `count` says.
    fn input_claims(&self, table: &[usize], count: usize, rng: &mut StdRng) -> Vec<Vec<EvalClaim>> {
        table
            .iter()
            .map(|wire| {
                (0..count)
                    .map(|_| {
                        let point: Vec<FieldElement> = (0..2)
                            .map(|_| from_fr(&Fr::random(&mut *rng)))
                            .collect();
                        let value = self.evaluate(*wire, &point);
                        EvalClaim::new(point, value)
                    })
                    .collect()
            })
            .collect()
    }
}

/// Answers every evaluation that the verification asks for.
fn run(wires: &Wires, mut state: Verification) -> bool {
    loop {
        state = match state {
            Verification::AwaitingEvaluation(pending) => {
                let value = wires.evaluate(pending.wire(), pending.point());
                pending.resume(value)
            },
            Verification::Finished(accepted) => return accepted,
            Verification::AwaitingEngine(_) => panic!("the engine has returned"),
        }
    }
}

fn input() -> Vec<u8> {
    let mut input = vec![0u8; 32];
    input[..4].copy_from_slice(b"test");
    input
}

fn output_claims(wires: &Wires, rng: &mut StdRng) -> Vec<Vec<Entry>> {
    let derivation = ClaimDerivation::sample(wires.num_vars()[OUTPUT_WIRE], rng);
    let value = wires.evaluate(derivation.wire(), derivation.point());
    serialize_eval_claims(&derivation.complete(value))
}

#[test]
fn configuration_is_fixed() {
    assert_eq!(NUM_BITS, 256);
    assert_eq!(NUM_REPS, 1);
    assert_eq!(OUTPUT_WIRE, 74);
    assert_eq!(INPUT_WIRES.len(), 28);
    assert_eq!(
        INPUT_WIRES,
        [
            0, 1, 3, 6, 9, 12, 15, 18, 21, 24, 27, 30, 33, 36, 39, 42, 45, 48, 51, 54, 57, 60, 63,
            66, 69, 72, 99, 100
        ]
    );
}

#[test]
fn true_claims_are_accepted() {
    let wires = Wires::build(&input());
    let mut rng = StdRng::seed_from_u64(1);
    let state = Verification::begin(Some(&output_claims(&wires, &mut rng)));
    let decoded = match &state {
        Verification::AwaitingEngine(claims) => claims.len(),
        _ => panic!("the claims decode"),
    };
    assert_eq!(decoded, 2);
    assert_eq!(state.verdict(), None);
    let claims = wires.input_claims(&INPUT_WIRES, 1, &mut rng);
    let state = state.engine_returned(Ok(claims), &wires.num_vars());
    assert_eq!(state.verdict(), None);
    assert!(run(&wires, state));
}

#[test]
fn several_claims_on_each_wire_are_all_compared() {
    let wires = Wires::build(&input());
    let mut rng = StdRng::seed_from_u64(2);
    let claims = wires.input_claims(&INPUT_WIRES, 3, &mut rng);
    let mut state = Reconciliation::begin(&INPUT_WIRES, &wires.num_vars(), &claims);
    let mut asked = Vec::new();
    let accepted = loop {
        state = match state {
            Verification::AwaitingEvaluation(pending) => {
                asked.push(pending.wire());
                let value = wires.evaluate(pending.wire(), pending.point());
                pending.resume(value)
            },
            Verification::Finished(accepted) => break accepted,
            Verification::AwaitingEngine(_) => panic!("the engine has returned"),
        }
    };
    assert!(accepted);
    let expected: Vec<usize> = INPUT_WIRES.iter().flat_map(|wire| [*wire; 3]).collect();
    assert_eq!(asked, expected);
}

#[test]
fn each_wire_is_asked_at_the_point_of_its_claim() {
    let wires = Wires::build(&input());
    let mut rng = StdRng::seed_from_u64(3);
    let table = [5usize, 2];
    let claims = wires.input_claims(&table, 2, &mut rng);
    let mut state = Reconciliation::begin(&table, &wires.num_vars(), &claims);
    for (wire, claim) in [(5, &claims[0][0]), (5, &claims[0][1]), (2, &claims[1][0])] {
        state = match state {
            Verification::AwaitingEvaluation(pending) => {
                assert_eq!(pending.wire(), wire);
                assert_eq!(pending.point(), claim.point());
                pending.resume(claim.value())
            },
            _ => panic!("a comparison is pending"),
        };
    }
    match state {
        Verification::AwaitingEvaluation(pending) => {
            assert_eq!(pending.wire(), 2);
            assert_eq!(pending.point(), claims[1][1].point());
            assert_eq!(pending.resume(claims[1][1].value()).verdict(), Some(true));
        },
        _ => panic!("the last comparison is pending"),
    }
}

#[test]
fn one_false_claim_is_rejected_wherever_it_stands() {
    let wires = Wires::build(&input());
    let mut rng = StdRng::seed_from_u64(4);
    for position in 0..INPUT_WIRES.len() {
        let mut claims = wires.input_claims(&INPUT_WIRES, 1, &mut rng);
        let claim = &claims[position][0];
        let wrong = from_fr(&(to_fr(&claim.value()) + Fr::ONE));
        claims[position][0] = EvalClaim::new(claim.point().to_vec(), wrong);
        let state = Reconciliation::begin(&INPUT_WIRES, &wires.num_vars(), &claims);
        assert!(!run(&wires, state), "position {position}");
    }
}

#[test]
fn claim_moved_to_another_wire_is_rejected() {
    let wires = Wires::build(&input());
    let mut rng = StdRng::seed_from_u64(5);
    let mut claims = wires.input_claims(&INPUT_WIRES, 1, &mut rng);
    claims.swap(3, 4);
    let state = Reconciliation::begin(&INPUT_WIRES, &wires.num_vars(), &claims);
    assert!(!run(&wires, state));
}

#[test]
fn changed_input_is_rejected() {
    let wires = Wires::build(&input());
    let mut rng = StdRng::seed_from_u64(6);
    let claims = wires.input_claims(&INPUT_WIRES, 1, &mut rng);
    let mut changed = input();
    changed[7] ^= 1;
    let other = Wires::build(&changed);
    let state = Reconciliation::begin(&INPUT_WIRES, &other.num_vars(), &claims);
    assert!(!run(&other, state));
}

#[test]
fn fewer_lists_than_wires_are_rejected() {
    let wires = Wires::build(&input());
    let mut rng = StdRng::seed_from_u64(7);
    let mut claims = wires.input_claims(&INPUT_WIRES, 1, &mut rng);
    claims.pop();
    let state = Reconciliation::begin(&INPUT_WIRES, &wires.num_vars(), &claims);
    assert_eq!(state.verdict(), Some(false));
}

#[test]
fn more_lists_than_wires_are_rejected() {
    let wires = Wires::build(&input());
    let mut rng = StdRng::seed_from_u64(8);
    let mut claims = wires.input_claims(&INPUT_WIRES, 1, &mut rng);
    claims.push(Vec::new());
    let state = Reconciliation::begin(&INPUT_WIRES, &wires.num_vars(), &claims);
    assert_eq!(state.verdict(), Some(false));
    let state = Reconciliation::begin(&INPUT_WIRES, &wires.num_vars(), &Vec::new());
    assert_eq!(state.verdict(), Some(false));
}

#[test]
fn unpaired_lists_are_rejected_through_the_whole_verification() {
    let wires = Wires::build(&input());
    let mut rng = StdRng::seed_from_u64(9);
    let mut claims = wires.input_claims(&INPUT_WIRES, 1, &mut rng);
    claims.remove(0);
    let state = Verification::begin(Some(&output_claims(&wires, &mut rng)));
    let state = state.engine_returned(Ok(claims), &wires.num_vars());
    assert_eq!(state.verdict(), Some(false));
}

#[test]
fn nothing_to_compare_is_accepted() {
    let state = Reconciliation::begin(&[], &Vec::new(), &Vec::new());
    assert_eq!(state.verdict(), Some(true));
    let lists: Vec<Vec<EvalClaim>> = vec![Vec::new(), Vec::new()];
    let state = Reconciliation::begin(&[0, 1], &vec![2, 2], &lists);
    assert_eq!(state.verdict(), Some(true));
}

#[test]
fn point_of_the_wrong_length_is_rejected() {
    let wires = Wires::build(&input());
    let mut rng = StdRng::seed_from_u64(10);
    let mut claims = wires.input_claims(&INPUT_WIRES, 1, &mut rng);
    let short = vec![FieldElement::from_u64(1)];
    claims[27][0] = EvalClaim::new(short, FieldElement::from_u64(2));
    let state = Reconciliation::begin(&INPUT_WIRES, &wires.num_vars(), &claims);
    assert_eq!(state.verdict(), Some(false));
}

#[test]
fn wire_that_the_circuit_lacks_is_rejected() {
    let wires = Wires::build(&input());
    let mut rng = StdRng::seed_from_u64(11);
    let claims = wires.input_claims(&INPUT_WIRES, 1, &mut rng);
    let mut num_vars = wires.num_vars();
    num_vars.truncate(100);
    let state = Reconciliation::begin(&INPUT_WIRES, &num_vars, &claims);
    assert_eq!(state.verdict(), Some(false));
}

#[test]
fn engine_fault_is_rejected() {
    let wires = Wires::build(&input());
    let mut rng = StdRng::seed_from_u64(12);
    let state = Verification::begin(Some(&output_claims(&wires, &mut rng)));
    let state = state.engine_returned(Err(EngineFault), &wires.num_vars());
    assert_eq!(state.verdict(), Some(false));
}

#[test]
fn output_claims_that_do_not_decode_are_rejected() {
    let wires = Wires::build(&input());
    let mut rng = StdRng::seed_from_u64(13);
    let mut records = output_claims(&wires, &mut rng);
    records[1].pop();
    assert_eq!(Verification::begin(Some(&records)).verdict(), Some(false));

    let mut records = output_claims(&wires, &mut rng);
    records[0].push(Entry::Unknown("note".to_string()));
    assert_eq!(Verification::begin(Some(&records)).verdict(), Some(false));

    let mut records = output_claims(&wires, &mut rng);
    records[0][1] = Entry::Value(vec![0xff; 32]);
    assert_eq!(Verification::begin(Some(&records)).verdict(), Some(false));
}

#[test]
fn serialized_claims_that_cannot_be_read_are_rejected() {
    assert_eq!(Verification::begin(None).verdict(), Some(false));
}

#[test]
fn events_out_of_turn_are_rejected() {
    let wires = Wires::build(&input());
    let mut rng = StdRng::seed_from_u64(14);
    // An evaluation while the engine is awaited.
    let state = Verification::begin(Some(&output_claims(&wires, &mut rng)));
    assert_eq!(state.evaluated(FieldElement::zero()).verdict(), Some(false));
    // The engine's return while an evaluation is awaited.
    let claims = wires.input_claims(&INPUT_WIRES, 1, &mut rng);
    let state = Reconciliation::begin(&INPUT_WIRES, &wires.num_vars(), &claims);
    let claims = wires.input_claims(&INPUT_WIRES, 1, &mut rng);
    assert_eq!(state.engine_returned(Ok(claims), &wires.num_vars()).verdict(), Some(false));
    // Any event after the end.
    let done = Verification::Finished(true);
    assert_eq!(done.evaluated(FieldElement::zero()).verdict(), Some(false));
    let done = Verification::Finished(true);
    assert_eq!(done.engine_returned(Err(EngineFault), &Vec::new()).verdict(), Some(false));
}

#[test]
fn evaluations_go_through_the_state_as_well() {
    let wires = Wires::build(&input());
    let mut rng = StdRng::seed_from_u64(15);
    let claims = wires.input_claims(&INPUT_WIRES, 1, &mut rng);
    let mut state = Verification::begin(Some(&output_claims(&wires, &mut rng)))
        .engine_returned(Ok(claims), &wires.num_vars());
    let mut count = 0;
    while state.verdict().is_none() {
        let value = match &state {
            Verification::AwaitingEvaluation(pending) => {
                wires.evaluate(pending.wire(), pending.point())
            },
            _ => panic!("a comparison is pending"),
        };
        state = state.evaluated(value);
        count += 1;
    }
    assert_eq!(count, 28);
    assert_eq!(state.verdict(), Some(true));
}

#[test]
fn derive_then_verify_on_the_same_input() {
    // "test", padded with zeros to 32 bytes.
    let input: Vec<u8> = vec![
        116, 101, 115, 116, 0, 0, 0, 0, 0, 0, 0, 0, 0, 0, 0, 0, 0, 0, 0, 0, 0, 0, 0, 0, 0, 0, 0,
        0, 0, 0, 0, 0,
    ];
    let mut rng = StdRng::seed_from_u64(16);
    // The proving side.
    let proving = Wires::build(&input);
    let serialized = output_claims(&proving, &mut rng);
    // The verifying side builds its own wires from the same input.
    let verifying = Wires::build(&input);
    let state = Verification::begin(Some(&serialized));
    let claims = verifying.input_claims(&INPUT_WIRES, 2, &mut rng);
    let state = state.engine_returned(Ok(claims), &verifying.num_vars());
    assert_eq!(run(&verifying, state), true);
}
