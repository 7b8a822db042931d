use vstd::prelude::*;
use crate::value::{ConstantPool, Value};

verus! {

/// What an instruction does.
#[derive(Clone, Copy, Debug, PartialEq, Eq, Structural)]
pub enum OpCode {
    /// Loads the constant at this index of the chunk's pool.
    Constant(usize),
    /// Returns from the current function.
    Return,
}

/// One instruction, with the source line it came from.
#[derive(Clone, Copy, Debug, PartialEq, Eq, Structural)]
pub struct Instruction {
    pub op_code: OpCode,
    pub line: usize,
}

impl Instruction {
    /// The instruction that does `op_code` and came from the source line `line`.
    pub fn new(op_code: OpCode, line: usize) -> (inst: Self)
        ensures
            inst == (Instruction { op_code, line }),
    {
        Self { op_code, line }
    }
}

/// What a chunk holds: its instructions and its constants, each in the order
/// in which they were added.
pub struct ChunkView {
    pub code: Seq<Instruction>,
    pub constants: Seq<Value>,
}

impl ChunkView {
    /// The chunk with nothing in it.
    pub open spec fn empty() -> ChunkView {
        ChunkView { code: Seq::empty(), constants: Seq::empty() }
    }

    /// The chunk after one more instruction.
    pub open spec fn with_instruction(self, inst: Instruction) -> ChunkView {
        ChunkView { code: self.code.push(inst), constants: self.constants }
    }

    /// The chunk after one more constant and the instruction that loads it.
    pub open spec fn with_constant(self, value: Value, line: usize) -> ChunkView {
        ChunkView {
            code: self.code.push(
                Instruction { op_code: OpCode::Constant(self.constants.len() as usize), line },
            ),
            constants: self.constants.push(value),
        }
    }

    /// The constant at `idx`, if the pool has one there.
    pub open spec fn constant(self, idx: usize) -> Option<Value> {
        if idx < self.constants.len() {
            Some(self.constants[idx as int])
        } else {
            None
        }
    }

    /// `inst` loads no constant that the pool lacks.
    pub open spec fn resolves(self, inst: Instruction) -> bool {
        inst.op_code matches OpCode::Constant(idx) ==> self.constant(idx) is Some
    }

    /// Every instruction that loads a constant finds it in the pool.
    pub open spec fn no_dangling(self) -> bool {
        forall|i: int| 0 <= i < self.code.len() ==> self.resolves(#[trigger] self.code[i])
    }
}

/// Appending an instruction that finds its constant keeps every load resolved.
pub proof fn lemma_with_instruction_no_dangling(chunk: ChunkView, inst: Instruction)
    requires
        chunk.no_dangling(),
        chunk.resolves(inst),
    ensures
        chunk.with_instruction(inst).no_dangling(),
{
    let after = chunk.with_instruction(inst);
    assert forall|i: int| 0 <= i < after.code.len() implies after.resolves(
        #[trigger] after.code[i],
    ) by {
        if i < chunk.code.len() {
            assert(chunk.resolves(chunk.code[i]));
        }
    }
}

/// Appending a constant with its load keeps every load resolved.
pub proof fn lemma_with_constant_no_dangling(chunk: ChunkView, value: Value, line: usize)
    requires
        chunk.no_dangling(),
        chunk.constants.len() < usize::MAX,
    ensures
        chunk.with_constant(value, line).no_dangling(),
        chunk.with_constant(value, line).constant(chunk.constants.len() as usize) == Some(value),
{
    let after = chunk.with_constant(value, line);
    assert forall|i: int| 0 <= i < after.code.len() implies after.resolves(
        #[trigger] after.code[i],
    ) by {
        if i < chunk.code.len() {
            assert(chunk.resolves(chunk.code[i]));
        }
    }
}

/// One call that grows a chunk.
pub enum BuildStep {
    /// `add_instruction` with this instruction.
    Plain(Instruction),
    /// `add_constant_instuction` with this value and line.
    Constant(Value, usize),
}

/// The chunk that an empty chunk becomes after `steps`, in order.
pub open spec fn built(steps: Seq<BuildStep>) -> ChunkView
    decreases steps.len(),
{
    if steps.len() == 0 {
        ChunkView::empty()
    } else {
        let before = built(steps.drop_last());
        match steps.last() {
            BuildStep::Plain(inst) => before.with_instruction(inst),
            BuildStep::Constant(value, line) => before.with_constant(value, line),
        }
    }
}

/// `steps` appends no instruction by hand that loads a constant beyond `pool_len`.
pub open spec fn plain_steps_within(steps: Seq<BuildStep>, pool_len: nat) -> bool {
    forall|i: int|
        0 <= i < steps.len() ==> match #[trigger] steps[i] {
            BuildStep::Plain(inst) => inst.op_code matches OpCode::Constant(idx) ==> idx < pool_len,
            BuildStep::Constant(_, _) => true,
        }
}

/// Each step appends one instruction, and one constant at most.
pub proof fn lemma_built_sizes(steps: Seq<BuildStep>)
    ensures
        built(steps).code.len() == steps.len(),
        built(steps).constants.len() <= steps.len(),
    decreases steps.len(),
{
    if steps.len() > 0 {
        lemma_built_sizes(steps.drop_last());
    }
}

/// Building only appends: what the first `n` steps made is still there after
/// the rest, each instruction and each constant at its index.
pub proof fn lemma_built_is_append_only(steps: Seq<BuildStep>, n: int)
    requires
        0 <= n <= steps.len(),
    ensures
        built(steps.take(n)).code == built(steps).code.take(n),
        built(steps.take(n)).constants.len() <= built(steps).constants.len(),
        built(steps.take(n)).constants == built(steps).constants.take(
            built(steps.take(n)).constants.len() as int,
        ),
    decreases steps.len() - n,
{
    lemma_built_sizes(steps);
    if n == steps.len() {
        assert(steps.take(n) == steps);
        assert(built(steps).code.take(n) =~= built(steps).code);
        assert(built(steps).constants.take(built(steps).constants.len() as int)
            =~= built(steps).constants);
    } else {
        lemma_built_is_append_only(steps, n + 1);
        lemma_built_sizes(steps.take(n));
        lemma_built_sizes(steps.take(n + 1));
        assert(steps.take(n + 1).drop_last() == steps.take(n));
        let shorter = built(steps.take(n));
        let longer = built(steps.take(n + 1));
        assert(shorter.code =~= longer.code.take(n));
        assert(shorter.constants =~= longer.constants.take(shorter.constants.len() as int));
        assert(shorter.code =~= built(steps).code.take(n));
        assert(shorter.constants =~= built(steps).constants.take(shorter.constants.len() as int));
    }
}

/// In a chunk grown from empty by `add_instruction` and
/// `add_constant_instuction` alone, every instruction that loads a constant
/// finds it, as long as no instruction appended by hand names an index that
/// the finished pool lacks, and the pool's size fits the index type.
pub proof fn lemma_built_chunk_has_no_dangling_constant(steps: Seq<BuildStep>)
    requires
        built(steps).constants.len() <= usize::MAX,
        plain_steps_within(steps, built(steps).constants.len()),
    ensures
        built(steps).no_dangling(),
        forall|i: int|
            0 <= i < built(steps).code.len() ==> (
            #[trigger] built(steps).code[i].op_code matches OpCode::Constant(idx) ==> built(
                steps,
            ).constant(idx) is Some),
{
    lemma_built_prefix_resolves(steps, steps.len() as int);
    assert(steps.take(steps.len() as int) == steps);
}

/// Each instruction of a prefix of the build loads, if anything, a constant of
/// the finished pool.
proof fn lemma_built_prefix_resolves(steps: Seq<BuildStep>, n: int)
    requires
        0 <= n <= steps.len(),
        built(steps).constants.len() <= usize::MAX,
        plain_steps_within(steps, built(steps).constants.len()),
    ensures
        built(steps.take(n)).code.len() == n,
        forall|i: int|
            0 <= i < n ==> (
            #[trigger] built(steps.take(n)).code[i].op_code matches OpCode::Constant(idx) ==> idx
                < built(steps).constants.len()),
    decreases n,
{
    if n > 0 {
        let prefix = steps.take(n);
        assert(prefix.drop_last() == steps.take(n - 1));
        assert(prefix.last() == steps[n - 1]);
        lemma_built_prefix_resolves(steps, n - 1);
        lemma_built_is_append_only(steps, n);
        lemma_built_is_append_only(steps, n - 1);
    }
}

/// A sequence of instructions together with the constants they load.
pub struct Chunk {
    code: Vec<Instruction>,
    constants: ConstantPool,
}

impl View for Chunk {
    type V = ChunkView;

    closed spec fn view(&self) -> ChunkView {
        ChunkView { code: self.code@, constants: self.constants@ }
    }
}

impl Chunk {
    /// A chunk without instructions or constants.
    pub fn new() -> (chunk: Self)
        ensures
            chunk@ == ChunkView::empty(),
    {
        Self { code: Vec::new(), constants: ConstantPool::new() }
    }

    /// Appends `inst`. Nothing is asked of its operand: an instruction that
    /// loads a constant the pool lacks is accepted, and is the caller's to avoid.
    pub fn add_instruction(&mut self, inst: Instruction)
        ensures
            final(self)@ == old(self)@.with_instruction(inst),
            old(self)@.no_dangling() && old(self)@.resolves(inst) ==> final(self)@.no_dangling(),
    {
        proof {
            if self@.no_dangling() && self@.resolves(inst) {
                lemma_with_instruction_no_dangling(self@, inst);
            }
        }
        self.code.push(inst);
    }

    /// Adds `value` to the pool and appends the instruction that loads it, in
    /// one step, so that the new instruction's index is the new constant's.
    pub fn add_constant_instuction(&mut self, value: Value, line: usize)
        ensures
            final(self)@ == old(self)@.with_constant(value, line),
            final(self)@.constant(old(self)@.constants.len() as usize) == Some(value),
            old(self)@.no_dangling() ==> final(self)@.no_dangling(),
    {
        let ghost before = self@;
        let idx: usize = self.add_constant(value);
        self.add_instruction(Instruction::new(OpCode::Constant(idx), line));
        proof {
            if before.no_dangling() {
                lemma_with_constant_no_dangling(before, value, line);
            }
        }
    }

    fn add_constant(&mut self, value: Value) -> (idx: usize)
        ensures
            idx == old(self)@.constants.len(),
            idx < usize::MAX,
            final(self)@.constants == old(self)@.constants.push(value),
            final(self)@.code == old(self)@.code,
    {
        self.constants.push(value);
        self.constants.len() - 1
    }

    /// The constant at `idx`, or `None` where the pool has none there.
    pub fn get_constant(&self, idx: usize) -> (found: Option<Value>)
        ensures
            found == self@.constant(idx),
    {
        if idx < self.constants.len() {
            Some(self.constants[idx])
        } else {
            None
        }
    }

    /// The instructions, in the order in which they were appended.
    pub fn get_code(&self) -> (code: &Vec<Instruction>)
        ensures
            code@ == self@.code,
    {
        &self.code
    }
}

} // verus!
