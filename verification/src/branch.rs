//! The branch predictor.
use vstd::prelude::*;

use crate::isa::Opcode;
use crate::table::Table;

verus! {

/// The number of local histories.
pub const BRANCH_PREDICTOR_SIZE: usize = 1024;

/// The number of saturating counters.
pub const PATTERN_TABLE_SIZE: usize = 256;

/// What a branch predictor has learned.
#[verifier::ext_equal]
pub ghost struct BranchView {
    /// The last eight outcomes of the branches that share a slot, the latest in the lowest bit.
    pub local_history: Seq<u8>,
    /// Saturating counters from zero, strongly not taken, to three, strongly taken.
    pub pattern_table: Seq<u8>,
    /// The last eight outcomes of all branches.
    pub global_history: u8,
    /// The last targets of jumps and taken branches.
    pub btb: Map<u32, u32>,
    /// The addresses behind the calls that have not returned.
    pub return_stack: Seq<u32>,
    pub correct_predictions: u64,
    pub total_predictions: u64,
}

/// A history after one more outcome; the oldest outcome is forgotten.
pub open spec fn history_after(history: u8, taken: bool) -> u8 {
    ((2 * history + if taken {
        1int
    } else {
        0int
    }) % 256) as u8
}

/// A saturating counter after one more outcome.
pub open spec fn counter_after(counter: u8, taken: bool) -> u8 {
    if taken && counter < 3 {
        (counter + 1) as u8
    } else if !taken && counter > 0 {
        (counter - 1) as u8
    } else {
        counter
    }
}

impl BranchView {
    /// The sizes are right.
    pub open spec fn wf(self) -> bool {
        &&& self.local_history.len() == BRANCH_PREDICTOR_SIZE
        &&& self.pattern_table.len() == PATTERN_TABLE_SIZE
    }

    /// Nothing has been learned; all branches are weakly expected to be taken.
    pub open spec fn initial() -> BranchView {
        BranchView {
            local_history: Seq::new(BRANCH_PREDICTOR_SIZE as nat, |i: int| 0u8),
            pattern_table: Seq::new(PATTERN_TABLE_SIZE as nat, |i: int| 2u8),
            global_history: 0,
            btb: Map::empty(),
            return_stack: Seq::empty(),
            correct_predictions: 0,
            total_predictions: 0,
        }
    }

    /// The local history of the branch at `pc`.
    pub open spec fn local_slot(pc: u32) -> int {
        pc as int % BRANCH_PREDICTOR_SIZE as int
    }

    /// The counter of the branch at `pc`: local history with the latest global outcome.
    pub open spec fn counter_slot(self, pc: u32) -> int {
        (2 * self.local_history[BranchView::local_slot(pc)] as int + self.global_history as int % 2)
            % PATTERN_TABLE_SIZE as int
    }

    /// The last known target of the instruction at `pc`.
    pub open spec fn target(self, pc: u32) -> Option<u32> {
        if self.btb.contains_key(pc) {
            Some(self.btb[pc])
        } else {
            None
        }
    }

    /// Whether the instruction at `pc` is expected to jump, and where to.
    pub open spec fn prediction(self, pc: u32, opcode: Opcode) -> (bool, Option<u32>) {
        if opcode == Opcode::JALR && self.return_stack.len() > 0 {
            (true, Some(self.return_stack.last()))
        } else if opcode.is_branch() {
            if self.pattern_table[self.counter_slot(pc)] >= 2 {
                (true, self.target(pc))
            } else {
                (false, None)
            }
        } else if opcode == Opcode::JAL || opcode == Opcode::JALR {
            (true, self.target(pc))
        } else {
            (false, None)
        }
    }

    /// The predictor after it has been asked.
    pub open spec fn asked(self) -> BranchView {
        BranchView { total_predictions: self.total_predictions.wrapping_add(1), ..self }
    }

    /// The predictor after it has been told what the instruction at `pc` did.
    pub open spec fn told(self, pc: u32, opcode: Opcode, taken: bool, target: u32) -> BranchView {
        if opcode == Opcode::JAL {
            BranchView {
                return_stack: self.return_stack.push(pc.wrapping_add(4)),
                btb: self.btb.insert(pc, target),
                ..self
            }
        } else if opcode == Opcode::JALR && self.return_stack.len() > 0 {
            BranchView { return_stack: self.return_stack.drop_last(), ..self }
        } else if opcode.is_branch() {
            let local = BranchView::local_slot(pc);
            let slot = self.counter_slot(pc);
            let counter = counter_after(self.pattern_table[slot], taken);
            BranchView {
                local_history: self.local_history.update(
                    local,
                    history_after(self.local_history[local], taken),
                ),
                pattern_table: self.pattern_table.update(slot, counter),
                global_history: history_after(self.global_history, taken),
                btb: if taken {
                    self.btb.insert(pc, target)
                } else {
                    self.btb
                },
                correct_predictions: if (counter >= 2) == taken {
                    self.correct_predictions.wrapping_add(1)
                } else {
                    self.correct_predictions
                },
                ..self
            }
        } else {
            self
        }
    }

    /// Every counter is between zero and three.
    pub open spec fn saturated(self) -> bool {
        &&& self.wf()
        &&& forall|i: int| 0 <= i < PATTERN_TABLE_SIZE ==> #[trigger] self.pattern_table[i] <= 3
    }

    /// A new predictor expects every branch to be taken, and one outcome to the contrary changes the
    /// mind of its counter.
    pub proof fn law_weakly_taken(pc: u32, opcode: Opcode, target: u32)
        requires
            opcode.is_branch(),
        ensures
            BranchView::initial().prediction(pc, opcode).0,
            BranchView::initial().told(
                pc,
                opcode,
                false,
                target,
            ).pattern_table[BranchView::initial().counter_slot(pc)] < 2,
            !BranchView::initial().told(pc, opcode, false, target).prediction(pc, opcode).0,
    {
        let initial = BranchView::initial();
        let after = initial.told(pc, opcode, false, target);
        assert(initial.counter_slot(pc) == 0);
        assert(after.counter_slot(pc) == 0);
    }

    /// The counters start and stay between zero and three.
    pub proof fn law_counters_saturate(self, pc: u32, opcode: Opcode, taken: bool, target: u32)
        ensures
            BranchView::initial().saturated(),
            self.saturated() ==> self.asked().saturated(),
            self.saturated() ==> self.told(pc, opcode, taken, target).saturated(),
    {
    }

    /// A predictor that is asked once for each time that it is told counts no more correct
    /// predictions than predictions.
    pub proof fn law_accuracy(self, pc: u32, opcode: Opcode, taken: bool, target: u32)
        requires
            self.correct_predictions <= self.total_predictions < u64::MAX,
        ensures
            self.asked().told(pc, opcode, taken, target).correct_predictions
                <= self.asked().told(pc, opcode, taken, target).total_predictions,
    {
    }

    /// A call that has been told predicts its own return: the next indirect jump is expected to go
    /// behind the call, and telling it takes the call off the stack.
    pub proof fn law_call_return(self, pc: u32, target: u32, back: u32)
        ensures
            self.told(pc, Opcode::JAL, true, target).prediction(back, Opcode::JALR) == (
                true,
                Some(pc.wrapping_add(4)),
            ),
            self.told(pc, Opcode::JAL, true, target).told(
                back,
                Opcode::JALR,
                true,
                pc.wrapping_add(4),
            ).return_stack == self.return_stack,
    {
        assert(self.return_stack.push(pc.wrapping_add(4)).drop_last() =~= self.return_stack);
    }
}

/// Branch predictor.
pub struct BranchPredictor {
    local_history: Box<[u8; BRANCH_PREDICTOR_SIZE]>,
    pattern_table: Box<[u8; PATTERN_TABLE_SIZE]>,
    global_history: u8,
    btb: Table<u32>,
    return_stack: Vec<u32>,
    correct_predictions: u64,
    total_predictions: u64,
}

impl View for BranchPredictor {
    type V = BranchView;

    closed spec fn view(&self) -> BranchView {
        BranchView {
            local_history: self.local_history@,
            pattern_table: self.pattern_table@,
            global_history: self.global_history,
            btb: self.btb@,
            return_stack: self.return_stack@,
            correct_predictions: self.correct_predictions,
            total_predictions: self.total_predictions,
        }
    }
}

impl Default for BranchPredictor {
    fn default() -> (predictor: BranchPredictor)
        ensures
            predictor@ == BranchView::initial(),
    {
        let predictor = BranchPredictor {
            local_history: Box::new([0u8; 1024]),
            pattern_table: Box::new([2u8; 256]),
            global_history: 0,
            btb: Table::new(),
            return_stack: Vec::with_capacity(16),
            correct_predictions: 0,
            total_predictions: 0,
        };
        assert(predictor@ =~= BranchView::initial());
        predictor
    }
}

impl Clone for BranchPredictor {
    fn clone(&self) -> (predictor: BranchPredictor)
        ensures
            predictor@ == self@,
    {
        let return_stack = self.return_stack.clone();
        assert(return_stack@ =~= self.return_stack@);
        BranchPredictor {
            local_history: Box::new(*self.local_history),
            pattern_table: Box::new(*self.pattern_table),
            global_history: self.global_history,
            btb: self.btb.duplicate(),
            return_stack,
            correct_predictions: self.correct_predictions,
            total_predictions: self.total_predictions,
        }
    }
}

/// A history after one more outcome.
fn record_outcome(history: u8, taken: bool) -> (after: u8)
    ensures
        after == history_after(history, taken),
{
    let bit: u32 = if taken {
        1
    } else {
        0
    };
    ((2 * (history as u32) + bit) % 256) as u8
}

impl BranchPredictor {
    fn lookup_target(&self, pc: u32) -> (target: Option<u32>)
        ensures
            target == self@.target(pc),
    {
        match self.btb.get(pc) {
            Some(target) => Some(*target),
            None => None,
        }
    }

    fn counter_slot(&self, pc: u32) -> (slot: usize)
        ensures
            self@.wf(),
            slot == self@.counter_slot(pc),
            slot < PATTERN_TABLE_SIZE,
    {
        let history: u8 = self.local_history[(pc % 1024) as usize];
        (2 * (history as usize) + (self.global_history % 2) as usize) % PATTERN_TABLE_SIZE
    }

    /// Whether the instruction at `pc` is expected to jump, and where to.
    pub fn predict(&mut self, pc: u32, opcode: Opcode) -> (prediction: (bool, Option<u32>))
        ensures
            old(self)@.wf(),
            prediction == old(self)@.prediction(pc, opcode),
            final(self)@ == old(self)@.asked(),
    {
        self.total_predictions = self.total_predictions.wrapping_add(1);
        assert(self@ =~= old(self)@.asked());
        if opcode == Opcode::JALR && self.return_stack.len() > 0 {
            let target: u32 = self.return_stack[self.return_stack.len() - 1];
            (true, Some(target))
        } else if opcode.is_branch() {
            let slot: usize = self.counter_slot(pc);
            let taken = self.pattern_table[slot] >= 2;
            let target = if taken {
                self.lookup_target(pc)
            } else {
                None
            };
            (taken, target)
        } else if opcode == Opcode::JAL || opcode == Opcode::JALR {
            (true, self.lookup_target(pc))
        } else {
            (false, None)
        }
    }

    /// Learns what the instruction at `pc` did.
    pub fn update(&mut self, pc: u32, opcode: Opcode, taken: bool, target: u32)
        ensures
            old(self)@.wf(),
            final(self)@ == old(self)@.told(pc, opcode, taken, target),
    {
        let slot: usize = self.counter_slot(pc);
        if opcode == Opcode::JAL {
            self.return_stack.push(pc.wrapping_add(4));
            self.btb.insert(pc, target);
        } else if opcode == Opcode::JALR && self.return_stack.len() > 0 {
            self.return_stack.pop();
        } else if opcode.is_branch() {
            let local: usize = (pc % 1024) as usize;
            let counter: u8 = self.pattern_table[slot];
            if taken && counter < 3 {
                self.pattern_table[slot] = counter + 1;
            } else if !taken && counter > 0 {
                self.pattern_table[slot] = counter - 1;
            }
            self.local_history[local] = record_outcome(self.local_history[local], taken);
            self.global_history = record_outcome(self.global_history, taken);
            if taken {
                self.btb.insert(pc, target);
            }
            if (self.pattern_table[slot] >= 2) == taken {
                self.correct_predictions = self.correct_predictions.wrapping_add(1);
            }
        }
        assert(self@ =~= old(self)@.told(pc, opcode, taken, target));
    }

    /// How often the predictor has been right and how often it has been asked.
    pub fn accuracy_counts(&self) -> (counts: (u64, u64))
        ensures
            counts == (self@.correct_predictions, self@.total_predictions),
    {
        (self.correct_predictions, self.total_predictions)
    }
}

impl BranchView {
    /// A predictor expects an indirect jump to go behind the last call that has not returned. It expects
    /// a branch to be taken where its counter is in the upper half of its range, the counter being the
    /// one of the last seven outcomes at the branch's slot and the last outcome of all. Where it expects
    /// a jump, it expects the last known target.
    pub proof fn law_prediction(self, pc: u32, opcode: Opcode)
        requires
            self.wf(),
        ensures
            ({
                let (taken, target) = self.prediction(pc, opcode);
                let branches = opcode == Opcode::BEQ || opcode == Opcode::BNE || opcode == Opcode::BLT
                    || opcode == Opcode::BGE || opcode == Opcode::BLTU || opcode == Opcode::BGEU;
                let jumps = opcode == Opcode::JAL || opcode == Opcode::JALR;
                let slot = (2 * self.local_history[pc as int % 1024] + self.global_history as int % 2)
                    % 256;
                let goes_back = opcode == Opcode::JALR && self.return_stack.len() > 0;
                &&& branches ==> (taken <==> self.pattern_table[slot] >= 2)
                &&& jumps ==> taken
                &&& !branches && !jumps ==> !taken
                &&& !taken ==> target is None
                &&& taken && goes_back ==> target == Some(
                    self.return_stack[self.return_stack.len() - 1],
                )
                &&& taken && !goes_back ==> target == self.btb.get(pc)
                &&& self.asked().total_predictions == self.total_predictions.wrapping_add(1)
                &&& self.asked() == (BranchView {
                    total_predictions: self.asked().total_predictions,
                    ..self
                })
            }),
    {
    }

    /// A predictor that is told of a branch moves the counter of the branch by one toward the outcome,
    /// between zero and three, and no other; it puts the outcome into both histories, which hold eight,
    /// learns the target of a branch that is taken, and counts the outcome as expected where the counter
    /// now agrees. A call puts the address behind it on the stack and its target into the table; an
    /// indirect jump takes the last address off the stack.
    pub proof fn law_told(self, pc: u32, opcode: Opcode, taken: bool, target: u32)
        requires
            self.wf(),
        ensures
            ({
                let after = self.told(pc, opcode, taken, target);
                let branches = opcode == Opcode::BEQ || opcode == Opcode::BNE || opcode == Opcode::BLT
                    || opcode == Opcode::BGE || opcode == Opcode::BLTU || opcode == Opcode::BGEU;
                let local = pc as int % 1024;
                let slot = (2 * self.local_history[local] + self.global_history as int % 2) % 256;
                let outcome = if taken {
                    1int
                } else {
                    0
                };
                &&& branches ==> {
                    let old_counter = self.pattern_table[slot] as int;
                    let new_counter = after.pattern_table[slot] as int;
                    &&& old_counter <= 3 ==> {
                        &&& taken ==> new_counter == if old_counter < 3 { old_counter + 1 } else { 3 }
                        &&& !taken ==> new_counter == if old_counter > 0 { old_counter - 1 } else { 0 }
                    }
                    &&& after.pattern_table.len() == 256
                    &&& forall|i: int|
                        0 <= i < 256 && i != slot ==> #[trigger] after.pattern_table[i]
                            == self.pattern_table[i]
                    &&& after.local_history.len() == 1024
                    &&& after.local_history[local] == (2 * self.local_history[local] + outcome) % 256
                    &&& forall|i: int|
                        0 <= i < 1024 && i != local ==> #[trigger] after.local_history[i]
                            == self.local_history[i]
                    &&& after.global_history == (2 * self.global_history + outcome) % 256
                    &&& after.btb == if taken {
                        self.btb.insert(pc, target)
                    } else {
                        self.btb
                    }
                    &&& after.return_stack == self.return_stack
                    &&& after.correct_predictions == if (new_counter >= 2) == taken {
                        self.correct_predictions.wrapping_add(1)
                    } else {
                        self.correct_predictions
                    }
                }
                &&& opcode == Opcode::JAL ==> after == (BranchView {
                    return_stack: self.return_stack.push(pc.wrapping_add(4)),
                    btb: self.btb.insert(pc, target),
                    ..self
                })
                &&& opcode == Opcode::JALR && self.return_stack.len() > 0 ==> after == (BranchView {
                    return_stack: self.return_stack.subrange(0, self.return_stack.len() - 1),
                    ..self
                })
                &&& opcode == Opcode::JALR && self.return_stack.len() == 0 ==> after == self
                &&& !branches && opcode != Opcode::JAL && opcode != Opcode::JALR ==> after == self
                &&& after.total_predictions == self.total_predictions
            }),
    {
    }
}

} // verus!
