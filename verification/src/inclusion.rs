//! The inclusion tracker: which consumed records were produced earlier in
//! the same transaction, and the public inputs of their inclusion proofs.

use vstd::prelude::*;
use crate::error::Error;
use crate::field::{Field, Group};
use crate::fieldmap::FieldMap;
use crate::leaf::{TransactionLeaf, TransitionLeaf};
use crate::network::{leaf_seqs, spec_tree_capacity, Network};
use crate::state_path::TRANSACTION_DEPTH;
use crate::transition::{Input, InputID, Output, Transition};

verus! {

/// The number of leaves of the tree over the transitions of a transaction.
pub const MAX_TRANSACTION_LEAVES: usize = 32;

/// What is known of one consumed record.
#[derive(Clone, Copy, Debug, PartialEq, Eq, Structural)]
pub struct InputTask {
    /// The commitment of the record.
    pub commitment: Field,
    /// The blinding element that the serial number is derived with.
    pub gamma: Group,
    /// The serial number of the record.
    pub serial_number: Field,
    /// The leaf of the input in its transition's tree.
    pub leaf: TransitionLeaf,
    /// Whether an earlier transition of the same transaction produced the
    /// record.
    pub is_local: bool,
}

/// The tracker of one transaction.
pub struct Inclusion {
    /// The input tasks of each transition, by transition ID.
    pub input_tasks: FieldMap<Vec<InputTask>>,
    /// The transition ID and the leaf index of each record output seen so
    /// far, by commitment.
    pub output_commitments: FieldMap<(Field, u8)>,
}

/// The tracker as a mathematical value.
pub struct InclusionView {
    pub tasks: Map<Field, Seq<InputTask>>,
    pub outputs: Map<Field, (Field, u8)>,
}

/// The tasks of the record inputs among the first `n` inputs, with
/// `outputs` the commitments produced so far.
pub open spec fn spec_new_tasks(
    outputs: Map<Field, (Field, u8)>,
    ids: Seq<InputID>,
    inputs: Seq<Input>,
    n: nat,
) -> Seq<InputTask>
    decreases n,
{
    if n == 0 {
        Seq::empty()
    } else {
        let before = spec_new_tasks(outputs, ids, inputs, (n - 1) as nat);
        match ids[n - 1] {
            InputID::Record(commitment, gamma, serial_number, _) => before.push(
                InputTask {
                    commitment,
                    gamma,
                    serial_number,
                    leaf: inputs[n - 1].spec_transition_leaf(((n - 1) % 256) as u8),
                    is_local: outputs.dom().contains(commitment),
                },
            ),
            _ => before,
        }
    }
}

/// The index of commitments after the record outputs among the first `n`
/// outputs of the transition `id`, which has `shift` inputs, were added.
pub open spec fn spec_new_outputs(
    index: Map<Field, (Field, u8)>,
    id: Field,
    shift: nat,
    outputs: Seq<Output>,
    n: nat,
) -> Map<Field, (Field, u8)>
    decreases n,
{
    if n == 0 {
        index
    } else {
        let before = spec_new_outputs(index, id, shift, outputs, (n - 1) as nat);
        match outputs[n - 1] {
            Output::Record(commitment, _) => before.insert(
                commitment,
                (id, ((shift + n - 1) % 256) as u8),
            ),
            _ => before,
        }
    }
}

/// The rows that a list of vectors holds.
pub open spec fn rows(batch: Seq<Vec<Field>>) -> Seq<Seq<Field>> {
    Seq::new(batch.len(), |i: int| batch[i]@)
}

/// The leaves of the first `k` transitions in the transaction tree, as bit
/// strings.
pub open spec fn spec_transaction_leaves(transitions: Seq<Transition>, k: nat) -> Seq<Seq<bool>> {
    Seq::new(
        k,
        |j: int| TransactionLeaf::spec_new_execution((j % 65536) as u16, transitions[j].id).spec_bits_le(),
    )
}

/// The root of the transaction tree when the transition at `k` runs: the
/// tree over the transitions before it.
pub open spec fn spec_local_state_root<N: Network>(transitions: Seq<Transition>, k: nat) -> Field {
    N::spec_merkle_root_bhp(TRANSACTION_DEPTH, spec_transaction_leaves(transitions, k))
}

/// The public inputs of the record inputs among the first `n` inputs.
pub open spec fn spec_inputs_of(
    global_state_root: Field,
    local_state_root: Field,
    inputs: Seq<Input>,
    n: nat,
) -> Seq<Seq<Field>>
    decreases n,
{
    if n == 0 {
        Seq::empty()
    } else {
        let before = spec_inputs_of(global_state_root, local_state_root, inputs, (n - 1) as nat);
        match inputs[n - 1] {
            Input::Record(serial_number, _) => before.push(
                seq![Field::spec_one(), global_state_root, local_state_root, serial_number],
            ),
            _ => before,
        }
    }
}

/// The public inputs of the first `k` transitions, in order.
pub open spec fn spec_batch<N: Network>(
    global_state_root: Field,
    transitions: Seq<Transition>,
    k: nat,
) -> Seq<Seq<Field>>
    decreases k,
{
    if k == 0 {
        Seq::empty()
    } else {
        spec_batch::<N>(global_state_root, transitions, (k - 1) as nat) + spec_inputs_of(
            global_state_root,
            spec_local_state_root::<N>(transitions, (k - 1) as nat),
            transitions[k - 1].inputs@,
            transitions[k - 1].inputs@.len(),
        )
    }
}

/// What `prepare_verifier_inputs` returns.
pub open spec fn spec_prepare_verifier_inputs<N: Network>(
    global_state_root: Field,
    transitions: Seq<Transition>,
) -> Result<Seq<Seq<Field>>, Error> {
    let batch = spec_batch::<N>(global_state_root, transitions, transitions.len());
    if transitions.len() > MAX_TRANSACTION_LEAVES + 1 {
        Err(Error::TooManyTransitions { found: transitions.len() as usize })
    } else if batch.len() == 0 && global_state_root == Field::spec_zero() {
        Err(Error::ZeroGlobalStateRoot)
    } else {
        Ok(batch)
    }
}

impl InclusionView {
    /// The tracker that has seen nothing.
    pub open spec fn empty() -> InclusionView {
        InclusionView { tasks: Map::empty(), outputs: Map::empty() }
    }

    /// The tasks recorded for the transition `id`; none where it was never
    /// inserted.
    pub open spec fn tasks_of(self, id: Field) -> Seq<InputTask> {
        if self.tasks.dom().contains(id) {
            self.tasks[id]
        } else {
            Seq::empty()
        }
    }

    /// The tracker after a transition with as many input IDs as inputs was
    /// inserted.
    pub open spec fn insert_transition(
        self,
        ids: Seq<InputID>,
        transition: Transition,
    ) -> InclusionView {
        InclusionView {
            tasks: self.tasks.insert(
                transition.id,
                self.tasks_of(transition.id) + spec_new_tasks(
                    self.outputs,
                    ids,
                    transition.inputs@,
                    ids.len(),
                ),
            ),
            outputs: spec_new_outputs(
                self.outputs,
                transition.id,
                ids.len(),
                transition.outputs@,
                transition.outputs@.len(),
            ),
        }
    }
}

/// The tracker after the first `k` steps of a transaction were inserted into
/// an empty one, in order. A step is a list of input IDs and the transition
/// they belong to.
pub open spec fn spec_insert_all(steps: Seq<(Seq<InputID>, Transition)>, k: nat) -> InclusionView
    decreases k,
{
    if k == 0 {
        InclusionView::empty()
    } else {
        spec_insert_all(steps, (k - 1) as nat).insert_transition(steps[k - 1].0, steps[k - 1].1)
    }
}

/// Whether `output` is a record with the given commitment.
pub open spec fn produces(output: Output, commitment: Field) -> bool {
    match output {
        Output::Record(c, _) => c == commitment,
        _ => false,
    }
}

/// Whether one of the first `k` steps has a record output with the given
/// commitment.
pub open spec fn produced_before(
    steps: Seq<(Seq<InputID>, Transition)>,
    k: nat,
    commitment: Field,
) -> bool {
    exists|j: int, o: int|
        0 <= j < k && 0 <= o < steps[j].1.outputs@.len() && produces(
            #[trigger] steps[j].1.outputs@[o],
            commitment,
        )
}

/// The number of record inputs among the first `n` input IDs.
pub open spec fn spec_record_rank(ids: Seq<InputID>, n: nat) -> nat
    decreases n,
{
    if n == 0 {
        0
    } else {
        spec_record_rank(ids, (n - 1) as nat) + if ids[n - 1] is Record {
            1nat
        } else {
            0nat
        }
    }
}

/// The task of the record input at position `i`, local or not as given.
pub open spec fn spec_task_at(ids: Seq<InputID>, inputs: Seq<Input>, i: int, is_local: bool) -> InputTask {
    InputTask {
        commitment: ids[i]->Record_0,
        gamma: ids[i]->Record_1,
        serial_number: ids[i]->Record_2,
        leaf: inputs[i].spec_transition_leaf((i % 256) as u8),
        is_local,
    }
}

/// The index after some outputs were added holds what it held before and
/// the commitments of the record outputs among them, and nothing else.
pub proof fn lemma_new_outputs_dom(
    index: Map<Field, (Field, u8)>,
    id: Field,
    shift: nat,
    outputs: Seq<Output>,
    n: nat,
    commitment: Field,
)
    requires
        n <= outputs.len(),
    ensures
        spec_new_outputs(index, id, shift, outputs, n).dom().contains(commitment) <==> (
        index.dom().contains(commitment) || exists|o: int|
            0 <= o < n && produces(#[trigger] outputs[o], commitment)),
    decreases n,
{
    if n > 0 {
        lemma_new_outputs_dom(index, id, shift, outputs, (n - 1) as nat, commitment);
        if produces(outputs[n - 1], commitment) {
        } else {
            if exists|o: int| 0 <= o < n && produces(#[trigger] outputs[o], commitment) {
                let o = choose|o: int| 0 <= o < n && produces(#[trigger] outputs[o], commitment);
                assert(0 <= o < n - 1 && produces(outputs[o], commitment));
            }
        }
    }
}

/// After `k` steps the index of commitments holds exactly the commitments
/// of the record outputs of those steps.
pub proof fn lemma_outputs_are_produced(
    steps: Seq<(Seq<InputID>, Transition)>,
    k: nat,
    commitment: Field,
)
    requires
        k <= steps.len(),
    ensures
        spec_insert_all(steps, k).outputs.dom().contains(commitment) <==> produced_before(
            steps,
            k,
            commitment,
        ),
    decreases k,
{
    if k > 0 {
        let before = spec_insert_all(steps, (k - 1) as nat);
        let ids = steps[k - 1].0;
        let t = steps[k - 1].1;
        lemma_outputs_are_produced(steps, (k - 1) as nat, commitment);
        lemma_new_outputs_dom(
            before.outputs,
            t.id,
            ids.len(),
            t.outputs@,
            t.outputs@.len(),
            commitment,
        );
        if produced_before(steps, k, commitment) {
            let (j, o) = choose|j: int, o: int|
                0 <= j < k && 0 <= o < steps[j].1.outputs@.len() && produces(
                    #[trigger] steps[j].1.outputs@[o],
                    commitment,
                );
            if j < k - 1 {
                assert(produced_before(steps, (k - 1) as nat, commitment));
            } else {
                assert(produces(t.outputs@[o], commitment));
            }
        }
        if produced_before(steps, (k - 1) as nat, commitment) {
            let (j, o) = choose|j: int, o: int|
                0 <= j < k - 1 && 0 <= o < steps[j].1.outputs@.len() && produces(
                    #[trigger] steps[j].1.outputs@[o],
                    commitment,
                );
            assert(0 <= j < k && produces(steps[j].1.outputs@[o], commitment));
        }
        if exists|o: int| 0 <= o < t.outputs@.len() && produces(#[trigger] t.outputs@[o], commitment) {
            let o = choose|o: int|
                0 <= o < t.outputs@.len() && produces(#[trigger] t.outputs@[o], commitment);
            assert(produces(steps[k - 1].1.outputs@[o], commitment));
        }
    }
}

/// The record input at position `i` has its task at the place that its rank
/// among the record inputs gives, and there are as many tasks as record
/// inputs.
pub proof fn lemma_new_tasks_at(
    outputs: Map<Field, (Field, u8)>,
    ids: Seq<InputID>,
    inputs: Seq<Input>,
    n: nat,
    i: int,
)
    requires
        0 <= i < n <= ids.len(),
        ids[i] is Record,
    ensures
        spec_new_tasks(outputs, ids, inputs, n).len() == spec_record_rank(ids, n),
        spec_record_rank(ids, i as nat) < spec_record_rank(ids, n),
        spec_new_tasks(outputs, ids, inputs, n)[spec_record_rank(ids, i as nat) as int]
            == spec_task_at(ids, inputs, i, outputs.dom().contains(ids[i]->Record_0)),
    decreases n,
{
    lemma_new_tasks_len(outputs, ids, inputs, n);
    lemma_new_tasks_len(outputs, ids, inputs, (n - 1) as nat);
    if i < n - 1 {
        lemma_new_tasks_at(outputs, ids, inputs, (n - 1) as nat, i);
    }
}

/// There are as many tasks as record inputs.
pub proof fn lemma_new_tasks_len(
    outputs: Map<Field, (Field, u8)>,
    ids: Seq<InputID>,
    inputs: Seq<Input>,
    n: nat,
)
    ensures
        spec_new_tasks(outputs, ids, inputs, n).len() == spec_record_rank(ids, n),
    decreases n,
{
    if n > 0 {
        lemma_new_tasks_len(outputs, ids, inputs, (n - 1) as nat);
    }
}

/// Later insertions only append to the tasks of a transition.
pub proof fn lemma_tasks_grow(
    steps: Seq<(Seq<InputID>, Transition)>,
    k: nat,
    later: nat,
    id: Field,
)
    requires
        k <= later <= steps.len(),
    ensures
        spec_insert_all(steps, k).tasks_of(id).is_prefix_of(
            spec_insert_all(steps, later).tasks_of(id),
        ),
    decreases later,
{
    if k < later {
        lemma_tasks_grow(steps, k, (later - 1) as nat, id);
        let a = spec_insert_all(steps, k).tasks_of(id);
        let b = spec_insert_all(steps, (later - 1) as nat).tasks_of(id);
        let c = spec_insert_all(steps, later).tasks_of(id);
        assert(b.is_prefix_of(c));
    }
}

/// Inserting the transitions of a transaction in execution order resolves
/// every record input correctly: the task of the record input at position
/// `i` of step `k` ends up, in the final tracker, behind the tasks that its
/// transition had before step `k`, at the rank of the input among the
/// record inputs of the step, and it is local exactly when a step before `k`
/// has a record output with the same commitment. In particular it is not
/// local when the commitment is no output of the transaction at all.
pub proof fn lemma_is_local_resolved(steps: Seq<(Seq<InputID>, Transition)>, k: int, i: int)
    requires
        0 <= k < steps.len(),
        0 <= i < steps[k].0.len(),
        steps[k].0[i] is Record,
    ensures
        ({
            let ids = steps[k].0;
            let transition = steps[k].1;
            let at = spec_insert_all(steps, k as nat).tasks_of(transition.id).len()
                + spec_record_rank(ids, i as nat);
            let tasks = spec_insert_all(steps, steps.len()).tasks_of(transition.id);
            let commitment = ids[i]->Record_0;
            &&& at < tasks.len()
            &&& tasks[at as int] == spec_task_at(
                ids,
                transition.inputs@,
                i,
                produced_before(steps, k as nat, commitment),
            )
            &&& !produced_before(steps, steps.len(), commitment) ==> !tasks[at as int].is_local
        }),
{
    let ids = steps[k].0;
    let transition = steps[k].1;
    let before = spec_insert_all(steps, k as nat);
    let after = spec_insert_all(steps, (k + 1) as nat);
    let last = spec_insert_all(steps, steps.len());
    let commitment = ids[i]->Record_0;
    lemma_outputs_are_produced(steps, k as nat, commitment);
    lemma_new_tasks_at(before.outputs, ids, transition.inputs@, ids.len(), i);
    lemma_tasks_grow(steps, (k + 1) as nat, steps.len(), transition.id);
    assert(after == before.insert_transition(ids, transition));
    assert(after.tasks_of(transition.id) == before.tasks_of(transition.id) + spec_new_tasks(
        before.outputs,
        ids,
        transition.inputs@,
        ids.len(),
    ));
    let new_tasks = spec_new_tasks(before.outputs, ids, transition.inputs@, ids.len());
    let base = before.tasks_of(transition.id);
    let rank = spec_record_rank(ids, i as nat) as int;
    let at = base.len() + rank;
    let grown = after.tasks_of(transition.id);
    let tasks = last.tasks_of(transition.id);
    assert(grown[at] == new_tasks[rank]);
    assert(grown == tasks.subrange(0, grown.len() as int));
    assert(tasks[at] == tasks.subrange(0, grown.len() as int)[at]);
    if produced_before(steps, k as nat, commitment) {
        let (j, o) = choose|j: int, o: int|
            0 <= j < k && 0 <= o < steps[j].1.outputs@.len() && produces(
                #[trigger] steps[j].1.outputs@[o],
                commitment,
            );
        assert(0 <= j < steps.len() && produces(steps[j].1.outputs@[o], commitment));
    }
}

/// The index, in one byte, of the leaf of the output at position `j` of a
/// transition with `shift` inputs.
pub fn leaf_index(shift: usize, j: usize) -> (r: u8)
    ensures
        r == ((shift + j) % 256) as u8,
{
    let a: usize = shift % 256;
    let b: usize = j % 256;
    assert((a + b) % 256 == (shift + j) % 256) by {
        assert(shift == 256 * (shift / 256) + a);
        assert(j == 256 * (j / 256) + b);
        assert(shift + j == 256 * (shift / 256 + j / 256) + (a + b));
        vstd::arithmetic::div_mod::lemma_mod_multiples_vanish(
            (shift / 256 + j / 256) as int,
            (a + b) as int,
            256,
        );
    }
    ((a + b) % 256) as u8
}

impl View for Inclusion {
    type V = InclusionView;

    open spec fn view(&self) -> InclusionView {
        InclusionView {
            tasks: self.input_tasks@.map_values(|v: Vec<InputTask>| v@),
            outputs: self.output_commitments@,
        }
    }
}

impl Inclusion {
    /// Neither index holds a key twice.
    pub open spec fn wf(&self) -> bool {
        self.input_tasks.wf() && self.output_commitments.wf()
    }

    /// A tracker that has seen nothing.
    pub fn new() -> (r: Inclusion)
        ensures
            r.wf(),
            r@ == InclusionView::empty(),
    {
        let r = Inclusion { input_tasks: FieldMap::new(), output_commitments: FieldMap::new() };
        assert(r@.tasks =~= Map::empty());
        r
    }

    /// The tasks recorded for the transition `id`, in the order of its
    /// inputs; none where it was never inserted.
    pub fn input_tasks(&self, id: &Field) -> (r: Vec<InputTask>)
        requires
            self.wf(),
        ensures
            r@ == self@.tasks_of(*id),
    {
        let mut out: Vec<InputTask> = Vec::new();
        match self.input_tasks.get(id) {
            Some(tasks) => {
                let n: usize = tasks.len();
                let mut i: usize = 0;
                while i < n
                    invariant
                        i <= n,
                        n == tasks@.len(),
                        out@ == tasks@.take(i as int),
                    decreases n - i,
                {
                    out.push(tasks[i]);
                    assert(out@ =~= tasks@.take(i + 1));
                    i = i + 1;
                }
                assert(out@ =~= tasks@);
            },
            None => {},
        }
        out
    }

    /// The transition ID and leaf index under which the commitment was
    /// produced, if an inserted transition produced it.
    pub fn output_of(&self, commitment: &Field) -> (r: Option<(Field, u8)>)
        requires
            self.wf(),
        ensures
            match r {
                Some(at) => self@.outputs.dom().contains(*commitment) && self@.outputs[*commitment]
                    == at,
                None => !self@.outputs.dom().contains(*commitment),
            },
    {
        match self.output_commitments.get(commitment) {
            Some(at) => Some(*at),
            None => None,
        }
    }

    /// Takes in the next transition of the transaction.
    ///
    /// Fails, and changes nothing, when the number of input IDs differs
    /// from the number of inputs. Otherwise every record input gets a task,
    /// local exactly when an earlier insertion produced its commitment, and
    /// then every record output is entered under its commitment.
    pub fn insert_transition(&mut self, input_ids: &[InputID], transition: &Transition) -> (r:
        Result<(), Error>)
        requires
            old(self).wf(),
        ensures
            final(self).wf(),
            input_ids@.len() != transition.inputs@.len() ==> r == Err::<(), Error>(
                Error::InputIdCountMismatch {
                    expected: transition.inputs@.len() as usize,
                    found: input_ids@.len() as usize,
                },
            ) && final(self)@ == old(self)@,
            input_ids@.len() == transition.inputs@.len() ==> r is Ok && final(self)@ == old(
                self,
            )@.insert_transition(input_ids@, *transition),
    {
        let n: usize = input_ids.len();
        if n != transition.inputs.len() {
            return Err(Error::InputIdCountMismatch { expected: transition.inputs.len(), found: n });
        }
        let id: Field = transition.id;
        let ghost before = self@;

        // Start from the tasks that the transition has already.
        let mut tasks: Vec<InputTask> = self.input_tasks(&id);
        let mut i: usize = 0;
        while i < n
            invariant
                i <= n,
                n == input_ids@.len(),
                n == transition.inputs@.len(),
                self.wf(),
                self@ == before,
                tasks@ == before.tasks_of(id) + spec_new_tasks(
                    before.outputs,
                    input_ids@,
                    transition.inputs@,
                    i as nat,
                ),
            decreases n - i,
        {
            match input_ids[i] {
                InputID::Record(commitment, gamma, serial_number, _) => {
                    let is_local = self.output_commitments.contains_key(&commitment);
                    let leaf = transition.inputs[i].to_transition_leaf((i % 256) as u8);
                    tasks.push(InputTask { commitment, gamma, serial_number, leaf, is_local });
                },
                _ => {},
            }
            assert(tasks@ =~= before.tasks_of(id) + spec_new_tasks(
                before.outputs,
                input_ids@,
                transition.inputs@,
                (i + 1) as nat,
            ));
            i = i + 1;
        }
        let ghost new_tasks = tasks@;
        self.input_tasks.insert(id, tasks);
        assert(self@.tasks =~= before.tasks.insert(id, new_tasks));

        let m: usize = transition.outputs.len();
        let mut j: usize = 0;
        while j < m
            invariant
                j <= m,
                m == transition.outputs@.len(),
                n == input_ids@.len(),
                self.wf(),
                self@.tasks == before.tasks.insert(id, new_tasks),
                self@.outputs == spec_new_outputs(
                    before.outputs,
                    id,
                    n as nat,
                    transition.outputs@,
                    j as nat,
                ),
            decreases m - j,
        {
            match transition.outputs[j] {
                Output::Record(commitment, _) => {
                    let at: u8 = leaf_index(n, j);
                    self.output_commitments.insert(commitment, (id, at));
                },
                _ => {},
            }
            j = j + 1;
        }
        Ok(())
    }

    /// The public inputs of the inclusion proofs of a transaction: for each
    /// record input, in order, `[1, global_state_root, local_state_root,
    /// serial_number]`, where the local state root is that of the tree over
    /// the transitions before the one that consumes the record.
    ///
    /// Fails when there are more transitions than the transaction tree can
    /// hold before the last, and when no record is consumed while the global
    /// state root is zero.
    pub fn prepare_verifier_inputs<N: Network>(
        global_state_root: Field,
        transitions: &[Transition],
    ) -> (r: Result<Vec<Vec<Field>>, Error>)
        ensures
            match r {
                Ok(batch) => spec_prepare_verifier_inputs::<N>(global_state_root, transitions@)
                    == Ok::<Seq<Seq<Field>>, Error>(rows(batch@)),
                Err(e) => spec_prepare_verifier_inputs::<N>(global_state_root, transitions@)
                    == Err::<Seq<Seq<Field>>, Error>(e),
            },
            transitions@.len() <= MAX_TRANSACTION_LEAVES + 1 && global_state_root
                != Field::spec_zero() ==> r is Ok,
            transitions@.len() <= MAX_TRANSACTION_LEAVES + 1 ==> (r is Err <==> (spec_batch::<N>(
                global_state_root,
                transitions@,
                transitions@.len(),
            ).len() == 0 && global_state_root == Field::spec_zero())),
    {
        let n: usize = transitions.len();
        if n > MAX_TRANSACTION_LEAVES + 1 {
            return Err(Error::TooManyTransitions { found: n });
        }
        let mut leaves: Vec<Vec<bool>> = Vec::new();
        let mut batch: Vec<Vec<Field>> = Vec::new();
        proof {
            vstd::arithmetic::power2::lemma2_to64();
            assert(leaf_seqs(leaves@) =~= spec_transaction_leaves(transitions@, 0));
            assert(rows(batch@) =~= spec_batch::<N>(global_state_root, transitions@, 0));
        }
        let mut k: usize = 0;
        while k < n
            invariant
                k <= n,
                n == transitions@.len(),
                n <= MAX_TRANSACTION_LEAVES + 1,
                spec_tree_capacity(TRANSACTION_DEPTH) == 32,
                k < n ==> leaf_seqs(leaves@) == spec_transaction_leaves(transitions@, k as nat),
                k < n ==> leaves@.len() == k,
                rows(batch@) == spec_batch::<N>(global_state_root, transitions@, k as nat),
            decreases n - k,
        {
            let transition = &transitions[k];
            let local_state_root = N::merkle_root_bhp(TRANSACTION_DEPTH, &leaves);
            let ghost start = rows(batch@);
            let m: usize = transition.inputs.len();
            let mut i: usize = 0;
            while i < m
                invariant
                    i <= m,
                    m == transition.inputs@.len(),
                    rows(batch@) == start + spec_inputs_of(
                        global_state_root,
                        local_state_root,
                        transition.inputs@,
                        i as nat,
                    ),
                decreases m - i,
            {
                match transition.inputs[i] {
                    Input::Record(serial_number, _) => {
                        let ghost old_rows = rows(batch@);
                        let row = vec![Field::one(), global_state_root, local_state_root, serial_number];
                        assert(row@ =~= seq![
                            Field::spec_one(),
                            global_state_root,
                            local_state_root,
                            serial_number,
                        ]);
                        batch.push(row);
                        assert(rows(batch@) =~= old_rows.push(row@));
                    },
                    _ => {},
                }
                assert(rows(batch@) =~= start + spec_inputs_of(
                    global_state_root,
                    local_state_root,
                    transition.inputs@,
                    (i + 1) as nat,
                ));
                i = i + 1;
            }
            if k + 1 != n {
                let leaf = TransactionLeaf::new_execution((k % 65536) as u16, transition.id);
                let bits = leaf.to_bits_le();
                let ghost old_leaves = leaf_seqs(leaves@);
                leaves.push(bits);
                assert(leaf_seqs(leaves@) =~= old_leaves.push(bits@));
                assert(leaf_seqs(leaves@) =~= spec_transaction_leaves(transitions@, (k + 1) as nat));
            }
            k = k + 1;
        }
        if batch.len() == 0 && global_state_root.is_zero() {
            return Err(Error::ZeroGlobalStateRoot);
        }
        Ok(batch)
    }
}

} // verus!
